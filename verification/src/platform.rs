//! Calls into other crates. Each function here is trusted: Verus takes its
//! contract as given and does not look at its body.

use vstd::prelude::*;
use base64::Engine;
use rand::Rng;
use sha2::Digest;
use vstd::string::StringSliceAdditionalSpecFns;

verus! {

/// Calls `chrono::Utc::now` and `DateTime::timestamp_millis`. Trusted: the
/// clock reading is not before the Unix epoch (`now` panics otherwise, which
/// a correctly set clock never causes).
#[verifier::external_body]
pub(crate) fn now_millis() -> (r: i64)
    ensures
        0 <= r,
{
    chrono::Utc::now().timestamp_millis()
}

/// Calls `uuid::Uuid::new_v4` and writes the identifier in its hyphenated
/// form. Trusted: the text has 36 characters.
#[verifier::external_body]
pub(crate) fn fresh_uuid() -> (r: String)
    ensures
        r@.len() == 36,
{
    uuid::Uuid::new_v4().to_string()
}

/// The error of `base64`'s decoders. Nothing is known of what is inside.
#[verifier::external_type_specification]
#[verifier::external_body]
pub struct ExDecodeError(base64::DecodeError);

/// The bytes that the standard base64 alphabet with canonical padding
/// decodes a text to, or `None` where the text is not such an encoding.
pub uninterp spec fn base64_decoded(text: Seq<char>) -> Option<Seq<u8>>;

/// Calls `Engine::decode` on `base64`'s `STANDARD` engine. Trusted: the call
/// succeeds exactly on the texts that `base64_decoded` decodes, with those
/// bytes.
#[verifier::external_body]
pub(crate) fn base64_decode(text: &str) -> (r: Result<Vec<u8>, base64::DecodeError>)
    ensures
        match r {
            Ok(bytes) => base64_decoded(text@) == Some(bytes@),
            Err(_) => base64_decoded(text@) is None,
        },
{
    base64::engine::general_purpose::STANDARD.decode(text)
}

/// The SHA-256 digest of a sequence of bytes.
pub uninterp spec fn sha256_of(data: Seq<u8>) -> Seq<u8>;

/// Calls `sha2::Sha256::digest`. Trusted: the result is the SHA-256 digest of
/// the bytes, named `sha256_of`, and it has 32 bytes.
#[verifier::external_body]
pub(crate) fn sha256(data: &[u8]) -> (r: Vec<u8>)
    ensures
        r@ == sha256_of(data@),
        r@.len() == 32,
{
    sha2::Sha256::digest(data).to_vec()
}

/// The character for a number below sixteen, in lower-case hexadecimal.
pub open spec fn hex_digit_lower(n: u8) -> char {
    if n < 10 {
        (48 + n) as char
    } else {
        (87 + n) as char
    }
}

/// Two lower-case hexadecimal digits for each byte, the high half first.
pub open spec fn hex_lower(bytes: Seq<u8>) -> Seq<char> {
    Seq::new(
        2 * bytes.len(),
        |i: int|
            if i % 2 == 0 {
                hex_digit_lower(bytes[i / 2] >> 4)
            } else {
                hex_digit_lower(bytes[i / 2] & 15)
            },
    )
}

/// Calls `hex::encode`. Trusted: each byte is written as two lower-case
/// hexadecimal digits.
#[verifier::external_body]
pub(crate) fn hex_encode(bytes: &[u8]) -> (r: String)
    ensures
        r@ == hex_lower(bytes@),
{
    hex::encode(bytes)
}

/// The bytes that a URL component may hold as they are: ASCII letters,
/// digits, and `-`, `.`, `_`, `~`.
pub open spec fn is_url_unreserved(b: u8) -> bool {
    (48 <= b <= 57) || (65 <= b <= 90) || (97 <= b <= 122) || b == 45 || b == 46 || b == 95 || b
        == 126
}

/// The character for a number below sixteen, in upper-case hexadecimal.
pub open spec fn hex_digit_upper(n: u8) -> char {
    if n < 10 {
        (48 + n) as char
    } else {
        (55 + n) as char
    }
}

/// The percent-encoding of a sequence of bytes: an unreserved byte stands
/// for itself, any other byte is written as `%` and two upper-case
/// hexadecimal digits.
pub open spec fn percent_encoded(bytes: Seq<u8>) -> Seq<char>
    decreases bytes.len(),
{
    if bytes.len() == 0 {
        Seq::<char>::empty()
    } else if is_url_unreserved(bytes.last()) {
        percent_encoded(bytes.drop_last()).push(bytes.last() as char)
    } else {
        percent_encoded(bytes.drop_last()) + seq![
            '%',
            hex_digit_upper(bytes.last() >> 4),
            hex_digit_upper(bytes.last() & 15),
        ]
    }
}

/// Calls `urlencoding::encode`. Trusted: the result is the percent-encoding
/// of the text's UTF-8 bytes.
#[verifier::external_body]
pub(crate) fn url_encode(text: &str) -> (r: String)
    ensures
        r@ == percent_encoded(text.spec_bytes()),
{
    urlencoding::encode(text).into_owned()
}

/// Calls `rand::random::<i64>`. Nothing is known of the number drawn.
#[verifier::external_body]
pub(crate) fn random_i64() -> (r: i64) {
    rand::random::<i64>()
}

/// Calls `rand::random::<u64>`. Nothing is known of the number drawn.
#[verifier::external_body]
pub(crate) fn random_u64() -> (r: u64) {
    rand::random::<u64>()
}

/// An ASCII letter or digit.
pub open spec fn is_ascii_alphanumeric(c: char) -> bool {
    ('0' <= c && c <= '9') || ('A' <= c && c <= 'Z') || ('a' <= c && c <= 'z')
}

/// Draws `len` characters from `rand`'s `Alphanumeric` distribution, on the
/// thread's generator. Trusted: the text has `len` characters, each an ASCII
/// letter or digit.
#[verifier::external_body]
pub(crate) fn random_alphanumeric(len: usize) -> (r: String)
    ensures
        r@.len() == len,
        forall|i: int| 0 <= i < r@.len() ==> is_ascii_alphanumeric(#[trigger] r@[i]),
{
    rand::rng().sample_iter(&rand::distr::Alphanumeric).take(len).map(char::from).collect()
}

/// The error of `bcrypt`. Nothing is known of what is inside.
#[verifier::external_type_specification]
#[verifier::external_body]
pub struct ExBcryptError(bcrypt::BcryptError);

/// Whether `bcrypt::verify` finds that a password matches a hash, or `None`
/// where it fails (on a text that is no bcrypt hash).
pub uninterp spec fn bcrypt_verified(password: Seq<char>, hash: Seq<char>) -> Option<bool>;

/// Calls `bcrypt::hash`, which salts at random. Trusted: a hash that comes
/// back has 60 characters and verifies against the password it was made
/// from (`verify` recomputes the hash with the salt and cost that it reads
/// from the text).
#[verifier::external_body]
pub(crate) fn bcrypt_hash(password: &str, cost: u32) -> (r: Result<String, bcrypt::BcryptError>)
    ensures
        r matches Ok(h) ==> h@.len() == 60 && bcrypt_verified(password@, h@) == Some(true),
{
    bcrypt::hash(password, cost)
}

/// Calls `bcrypt::verify`. Trusted: the result is the one named by
/// `bcrypt_verified`.
#[verifier::external_body]
pub(crate) fn bcrypt_verify(password: &str, hash: &str) -> (r: Result<bool, bcrypt::BcryptError>)
    ensures
        match r {
            Ok(b) => bcrypt_verified(password@, hash@) == Some(b),
            Err(_) => bcrypt_verified(password@, hash@) is None,
        },
{
    bcrypt::verify(password, hash)
}

} // verus!