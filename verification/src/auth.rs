//! Shared-secret authentication for the privileged endpoints.
//!
//! Secrets are configured as plaintext and reduced at startup to a
//! fixed-length form: the lowercase hexadecimal rendering of their
//! SHA-256 digest. A privileged request presents a raw header value,
//! which is compared against the precomputed form before any store
//! access.

use vstd::prelude::*;

verus! {

/// Witness that a request carried the right shared secret.
pub struct Authenticated;

/// Why a privileged request was refused.
#[derive(Clone, Copy, Debug, PartialEq, Eq, Structural)]
pub enum AuthError {
    /// The request carried no secret header at all.
    MissingToken,
    /// The presented value did not match the expected secret.
    InvalidToken,
}

/// The SHA-256 digest of a character string (of its UTF-8 bytes): a
/// function of the characters alone.
pub uninterp spec fn sha256_of(s: Seq<char>) -> Seq<u8>;

/// The lowercase hexadecimal digit for a value below sixteen.
pub open spec fn hex_digit(v: int) -> char {
    if v == 0 {
        '0'
    } else if v == 1 {
        '1'
    } else if v == 2 {
        '2'
    } else if v == 3 {
        '3'
    } else if v == 4 {
        '4'
    } else if v == 5 {
        '5'
    } else if v == 6 {
        '6'
    } else if v == 7 {
        '7'
    } else if v == 8 {
        '8'
    } else if v == 9 {
        '9'
    } else if v == 10 {
        'a'
    } else if v == 11 {
        'b'
    } else if v == 12 {
        'c'
    } else if v == 13 {
        'd'
    } else if v == 14 {
        'e'
    } else {
        'f'
    }
}

/// Lowercase hexadecimal rendering of a byte string: two digits per
/// byte, high digit first, bytes in order.
pub open spec fn hex_of(b: Seq<u8>) -> Seq<char>
    decreases b.len(),
{
    if b.len() == 0 {
        Seq::empty()
    } else {
        hex_of(b.drop_last()) + seq![
            hex_digit(b.last() as int / 16),
            hex_digit(b.last() as int % 16),
        ]
    }
}

/// Relies on sha2's `Sha256` through `Digest::digest`: the 32-byte
/// SHA-256 digest of the argument's UTF-8 bytes, a function of the
/// argument alone.
#[verifier::external_body]
fn sha256_digest(s: &str) -> (r: Vec<u8>)
    ensures
        r@ == sha256_of(s@),
        r@.len() == 32,
{
    <sha2::Sha256 as sha2::Digest>::digest(s.as_bytes()).to_vec()
}

/// Relies on hex::encode: lowercase hex, exactly two digits per input
/// byte, bytes in order.
#[verifier::external_body]
fn hex_encode(b: &Vec<u8>) -> (r: String)
    ensures
        r@ == hex_of(b@),
{
    hex::encode(b)
}

/// Reduces a configured shared secret to its stored comparison form:
/// the lowercase hex rendering of its SHA-256 digest.
pub fn precompute_token(secret: &str) -> (h: String)
    ensures
        h@ == hex_of(sha256_of(secret@)),
{
    let digest = sha256_digest(secret);
    hex_encode(&digest)
}

/// Admits a request exactly when its secret header is present and
/// equals the expected (precomputed) value; refused requests are told
/// apart by whether the header was missing or merely wrong. Runs
/// before any store access.
pub fn authenticate(header: Option<&String>, expected: &String) -> (r: Result<
    Authenticated,
    AuthError,
>)
    ensures
        r is Ok <==> (header matches Some(h) && h@ == expected@),
        header is None ==> r == Err::<Authenticated, AuthError>(AuthError::MissingToken),
        header matches Some(h) && h@ != expected@ ==> r == Err::<Authenticated, AuthError>(
            AuthError::InvalidToken,
        ),
{
    match header {
        None => Err(AuthError::MissingToken),
        Some(h) => {
            if *h == *expected {
                Ok(Authenticated)
            } else {
                Err(AuthError::InvalidToken)
            }
        },
    }
}

} // verus!
