//! Byte-level encodings and digests that fingerprints, tokens and URLs are
//! built from. Digests and randomness come from their crates; what their
//! results are is stated here.

use vstd::prelude::*;
use vstd::string::StringSliceAdditionalSpecFns;
use base64::Engine;
use rand::Rng;
use rand::RngCore;
use sha2::Digest;

verus! {

/// Lowercase hexadecimal digit of a value below sixteen.
pub open spec fn hex_digit_lower(n: u8) -> char {
    if n < 10 {
        (n + 48) as char
    } else {
        (n + 87) as char
    }
}

/// Uppercase hexadecimal digit of a value below sixteen.
pub open spec fn hex_digit_upper(n: u8) -> char {
    if n < 10 {
        (n + 48) as char
    } else {
        (n + 55) as char
    }
}

/// Two lowercase hex digits per byte, high nibble first.
pub open spec fn hex_of(b: Seq<u8>) -> Seq<char> {
    Seq::new(
        2 * b.len(),
        |i: int|
            if i % 2 == 0 {
                hex_digit_lower(b[i / 2] / 16)
            } else {
                hex_digit_lower(b[i / 2] % 16)
            },
    )
}

/// Bytes that percent-encoding leaves as they are.
pub open spec fn is_unreserved(c: u8) -> bool {
    (48 <= c <= 57) || (65 <= c <= 90) || (97 <= c <= 122) || c == 45 || c == 46 || c == 95
        || c == 126
}

/// Percent-encoding of a byte string, with uppercase escapes.
pub open spec fn percent_encoded(b: Seq<u8>) -> Seq<char>
    decreases b.len(),
{
    if b.len() == 0 {
        Seq::empty()
    } else {
        let head = if is_unreserved(b[0]) {
            seq![b[0] as char]
        } else {
            seq!['%', hex_digit_upper(b[0] / 16), hex_digit_upper(b[0] % 16)]
        };
        head + percent_encoded(b.drop_first())
    }
}

/// The SHA-256 digest of a byte string.
pub uninterp spec fn sha256_of(b: Seq<u8>) -> Seq<u8>;

/// Digit of the URL-safe base64 alphabet `A-Z a-z 0-9 - _` for a value
/// below 64.
pub open spec fn base64_url_digit(v: int) -> char {
    if v < 26 {
        ((65 + v) as u8) as char
    } else if v < 52 {
        ((71 + v) as u8) as char
    } else if v < 62 {
        ((v - 4) as u8) as char
    } else if v == 62 {
        '-'
    } else {
        '_'
    }
}

/// URL-safe base64 of a byte string, without padding: each three bytes
/// give four digits, a final two bytes give three, a final byte gives two.
pub open spec fn base64_url_of(b: Seq<u8>) -> Seq<char>
    decreases b.len(),
{
    if b.len() == 0 {
        Seq::empty()
    } else if b.len() == 1 {
        seq![base64_url_digit(b[0] as int / 4), base64_url_digit((b[0] as int % 4) * 16)]
    } else if b.len() == 2 {
        seq![
            base64_url_digit(b[0] as int / 4),
            base64_url_digit((b[0] as int % 4) * 16 + b[1] as int / 16),
            base64_url_digit((b[1] as int % 16) * 4),
        ]
    } else {
        seq![
            base64_url_digit(b[0] as int / 4),
            base64_url_digit((b[0] as int % 4) * 16 + b[1] as int / 16),
            base64_url_digit((b[1] as int % 16) * 4 + b[2] as int / 64),
            base64_url_digit(b[2] as int % 64),
        ] + base64_url_of(b.skip(3))
    }
}

/// Relies on sha2's `Sha256::digest`: the 32-byte digest of the input.
#[verifier::external_body]
pub fn sha256_digest(data: &[u8]) -> (r: Vec<u8>)
    ensures
        r@ == sha256_of(data@),
        r@.len() == 32,
{
    sha2::Sha256::digest(data).to_vec()
}

/// Relies on `hex::encode`: two lowercase digits for each byte.
#[verifier::external_body]
pub fn hex_encode(data: &[u8]) -> (r: String)
    ensures
        r@ == hex_of(data@),
{
    hex::encode(data)
}

/// Relies on base64's `URL_SAFE_NO_PAD` engine `encode`: the alphabet
/// `URL_SAFE` of RFC 4648, without padding.
#[verifier::external_body]
pub fn base64_url_encode(data: &[u8]) -> (r: String)
    ensures
        r@ == base64_url_of(data@),
{
    base64::engine::general_purpose::URL_SAFE_NO_PAD.encode(data)
}

/// Relies on `urlencoding::encode`: every byte but ASCII alphanumerics and
/// `-`, `.`, `_`, `~` becomes `%XY`.
#[verifier::external_body]
pub fn url_encode(s: &str) -> (r: String)
    ensures
        r@ == percent_encoded(s.spec_bytes()),
{
    urlencoding::encode(s).into_owned()
}

/// Relies on rand's `thread_rng().gen::<[u8; 32]>()`: 32 random bytes.
#[verifier::external_body]
pub fn random_bytes() -> (r: Vec<u8>)
    ensures
        r@.len() == 32,
{
    let bytes: [u8; 32] = rand::thread_rng().gen();
    bytes.to_vec()
}

/// Relies on rand's `OsRng::fill_bytes`: 32 bytes from the operating
/// system's generator.
#[verifier::external_body]
pub fn os_random_bytes() -> (r: Vec<u8>)
    ensures
        r@.len() == 32,
{
    let mut bytes = [0u8; 32];
    rand::rngs::OsRng.fill_bytes(&mut bytes);
    bytes.to_vec()
}

/// Relies on rand's `gen_range(0..n)`: a value below `n`; the range must
/// not be empty.
#[verifier::external_body]
pub fn random_below(n: usize) -> (r: usize)
    requires
        n > 0,
    ensures
        r < n,
{
    rand::thread_rng().gen_range(0..n)
}

} // verus!
