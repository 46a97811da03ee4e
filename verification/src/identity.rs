//! Names of assets and of accounts.
//!
//! Both are plain byte strings to the ledger: it only ever compares them, and
//! checks the shape of an asset name once, when a ledger is set up.

use vstd::prelude::*;

verus! {

/// Whether two byte vectors hold the same bytes.
pub fn bytes_equal(a: &Vec<u8>, b: &Vec<u8>) -> (r: bool)
    ensures
        r == (a@ == b@),
{
    if a.len() != b.len() {
        return false;
    }
    let mut i: usize = 0;
    while i < a.len()
        invariant
            i <= a.len(),
            a.len() == b.len(),
            forall|j: int| 0 <= j < i ==> a@[j] == b@[j],
        decreases a.len() - i,
    {
        if a[i] != b[i] {
            return false;
        }
        i += 1;
    }
    assert(a@ =~= b@);
    true
}

/// A copy of a byte vector.
pub fn bytes_clone(a: &Vec<u8>) -> (r: Vec<u8>)
    ensures
        r@ == a@,
{
    let mut out: Vec<u8> = Vec::new();
    let mut i: usize = 0;
    while i < a.len()
        invariant
            i <= a.len(),
            out@ == a@.take(i as int),
        decreases a.len() - i,
    {
        out.push(a[i]);
        assert(a@.take(i as int).push(a@[i as int]) =~= a@.take((i + 1) as int));
        i += 1;
    }
    assert(a@.take(a@.len() as int) =~= a@);
    out
}

/// Shortest ticker of an issued token.
pub const TICKER_MIN_LENGTH: usize = 3;

/// Longest ticker of an issued token.
pub const TICKER_MAX_LENGTH: usize = 10;

/// Number of characters that follow the dash of an issued token's name.
pub const RANDOM_CHARS_LENGTH: usize = 6;

/// An ASCII capital letter or digit.
pub open spec fn is_ticker_char(c: u8) -> bool {
    (0x41 <= c <= 0x5a) || (0x30 <= c <= 0x39)
}

/// An ASCII small letter or digit.
pub open spec fn is_random_char(c: u8) -> bool {
    (0x61 <= c <= 0x7a) || (0x30 <= c <= 0x39)
}

/// The shape of an issued token's name: a ticker of 3 to 10 capital letters
/// and digits, a dash, and 6 small letters and digits.
pub open spec fn valid_esdt_identifier(name: Seq<u8>) -> bool {
    &&& 10 <= name.len() <= 17
    &&& forall|i: int| 0 <= i < name.len() - 7 ==> is_ticker_char(#[trigger] name[i])
    &&& name[name.len() - 7] == 0x2d
    &&& forall|i: int| name.len() - 6 <= i < name.len() ==> is_random_char(#[trigger] name[i])
}

/// The name of an asset. The native token has the empty name.
#[derive(Debug)]
pub struct TokenId {
    pub name: Vec<u8>,
}

impl View for TokenId {
    type V = Seq<u8>;

    open spec fn view(&self) -> Seq<u8> {
        self.name@
    }
}

impl Clone for TokenId {
    fn clone(&self) -> (r: Self)
        ensures
            r@ == self@,
    {
        TokenId { name: bytes_clone(&self.name) }
    }
}

impl TokenId {
    /// The asset of the given name.
    pub fn new(name: Vec<u8>) -> (r: TokenId)
        ensures
            r@ == name@,
    {
        TokenId { name }
    }

    /// The native token.
    pub fn egld() -> (r: TokenId)
        ensures
            r@ == Seq::<u8>::empty(),
    {
        TokenId { name: Vec::new() }
    }

    /// Whether this is the native token.
    pub fn is_egld(&self) -> (r: bool)
        ensures
            r == (self@.len() == 0),
    {
        self.name.len() == 0
    }

    /// Whether the name has the shape of an issued token's name.
    pub fn is_valid_esdt_identifier(&self) -> (r: bool)
        ensures
            r == valid_esdt_identifier(self@),
    {
        let length: usize = self.name.len();
        if length < TICKER_MIN_LENGTH + RANDOM_CHARS_LENGTH + 1 || length > TICKER_MAX_LENGTH
            + RANDOM_CHARS_LENGTH + 1 {
            return false;
        }
        let ticker_len: usize = length - RANDOM_CHARS_LENGTH - 1;
        let mut i: usize = 0;
        while i < ticker_len
            invariant
                i <= ticker_len,
                ticker_len == length - 7,
                length == self.name@.len(),
                forall|j: int| 0 <= j < i ==> is_ticker_char(#[trigger] self.name@[j]),
            decreases ticker_len - i,
        {
            let c: u8 = self.name[i];
            let is_uppercase_letter: bool = 0x41 <= c && c <= 0x5a;
            let is_number: bool = 0x30 <= c && c <= 0x39;
            if !is_uppercase_letter && !is_number {
                assert(!is_ticker_char(self.name@[i as int]));
                return false;
            }
            i += 1;
        }
        if self.name[ticker_len] != 0x2d {
            return false;
        }
        let mut k: usize = length - RANDOM_CHARS_LENGTH;
        while k < length
            invariant
                length - 6 <= k <= length,
                length == self.name@.len(),
                forall|j: int| length - 6 <= j < k ==> is_random_char(#[trigger] self.name@[j]),
            decreases length - k,
        {
            let c: u8 = self.name[k];
            let is_lowercase_letter: bool = 0x61 <= c && c <= 0x7a;
            let is_number: bool = 0x30 <= c && c <= 0x39;
            if !is_lowercase_letter && !is_number {
                assert(!is_random_char(self.name@[k as int]));
                return false;
            }
            k += 1;
        }
        true
    }

    /// Whether the two name the same asset.
    pub fn equals(&self, other: &TokenId) -> (r: bool)
        ensures
            r == (self@ == other@),
    {
        bytes_equal(&self.name, &other.name)
    }
}

/// The identity of an account.
#[derive(Debug)]
pub struct Address {
    pub bytes: Vec<u8>,
}

impl View for Address {
    type V = Seq<u8>;

    open spec fn view(&self) -> Seq<u8> {
        self.bytes@
    }
}

impl Clone for Address {
    fn clone(&self) -> (r: Self)
        ensures
            r@ == self@,
    {
        Address { bytes: bytes_clone(&self.bytes) }
    }
}

impl Address {
    /// The account with the given bytes.
    pub fn new(bytes: Vec<u8>) -> (r: Address)
        ensures
            r@ == bytes@,
    {
        Address { bytes }
    }

    /// Whether the two are the same account.
    pub fn equals(&self, other: &Address) -> (r: bool)
        ensures
            r == (self@ == other@),
    {
        bytes_equal(&self.bytes, &other.bytes)
    }
}

} // verus!
