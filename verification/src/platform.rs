//! What the library takes from the machine: the clock and randomness.

use vstd::prelude::*;

verus! {

/// The current time as Unix seconds, from `chrono::Local::now()`. Nothing is
/// claimed of the value: it is whatever the clock says.
#[verifier::external_body]
pub(crate) fn now_unix() -> i64 {
    chrono::Local::now().timestamp()
}

/// The current time as Unix milliseconds, from `chrono::Local::now()`.
/// Nothing is claimed of the value.
#[verifier::external_body]
pub(crate) fn now_unix_ms() -> i64 {
    chrono::Local::now().timestamp_millis()
}

/// `n` bytes from `rand::thread_rng().fill_bytes`. The contract claims only
/// the length; the bytes are random.
#[verifier::external_body]
pub(crate) fn random_bytes(n: usize) -> (r: Vec<u8>)
    ensures
        r@.len() == n,
{
    let mut buf = vec![0u8; n];
    rand::RngCore::fill_bytes(&mut rand::thread_rng(), &mut buf);
    buf
}

/// What the `base64` crate's URL-safe, unpadded engine writes for bytes.
pub uninterp spec fn base64url(bytes: Seq<u8>) -> Seq<char>;

/// What the `base64` crate's URL-safe, unpadded engine decodes a text to,
/// or `None` where it reports an error.
pub uninterp spec fn base64url_decoded(text: Seq<char>) -> Option<Seq<u8>>;

/// `URL_SAFE_NO_PAD.encode(bytes)`.
#[verifier::external_body]
pub(crate) fn base64url_encode(bytes: &[u8]) -> (r: String)
    ensures
        r@ == base64url(bytes@),
{
    base64::Engine::encode(&base64::engine::general_purpose::URL_SAFE_NO_PAD, bytes)
}

/// `URL_SAFE_NO_PAD.decode(text)`, `None` on a decoding error.
#[verifier::external_body]
pub(crate) fn base64url_decode(text: &str) -> (r: Option<Vec<u8>>)
    ensures
        match r {
            Some(b) => base64url_decoded(text@) == Some(b@),
            None => base64url_decoded(text@) is None,
        },
{
    base64::Engine::decode(&base64::engine::general_purpose::URL_SAFE_NO_PAD, text).ok()
}

/// Every character is a lowercase hexadecimal digit.
pub open spec fn lower_hex(s: Seq<char>) -> bool {
    forall|i: int|
        0 <= i < s.len() ==> (0x30 <= (#[trigger] s[i]) as u32 <= 0x39 || 0x61 <= s[i] as u32 <= 0x66)
}

/// A fresh random UUID (version 4) in its simple form, from
/// `uuid::Uuid::new_v4().simple()`: 32 lowercase hexadecimal digits. Which
/// digits they are is left open: they are random.
#[verifier::external_body]
pub(crate) fn uuid_simple() -> (r: String)
    ensures
        r@.len() == 32,
        lower_hex(r@),
{
    uuid::Uuid::new_v4().simple().to_string()
}

/// A random token: `bytes` random bytes, base64url-encoded.
pub fn random_token(bytes: usize) -> (r: String)
    ensures
        exists|b: Seq<u8>| b.len() == bytes && r@ == base64url(b),
{
    let buf = random_bytes(bytes);
    base64url_encode(buf.as_slice())
}

} // verus!
