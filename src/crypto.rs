//! The cryptographic and clock primitives that the challenge protocol relies
//! on. Each function here makes one outside call; its contract is what that
//! call's documentation and source promise.
use vstd::prelude::*;

verus! {

/// The HMAC-SHA256 tag of `msg` under `key`.
pub uninterp spec fn hmac_sha256_of(key: Seq<u8>, msg: Seq<u8>) -> Seq<u8>;

/// The padded standard-alphabet base64 text of `bytes`.
pub uninterp spec fn base64_of(bytes: Seq<u8>) -> Seq<char>;

/// Whether `c` belongs to the standard base64 alphabet or is the pad `=`.
pub open spec fn is_base64_char(c: char) -> bool {
    ('A' <= c && c <= 'Z') || ('a' <= c && c <= 'z') || ('0' <= c && c <= '9') || c == '+'
        || c == '/' || c == '='
}

/// Whether every character of `s` is a base64 character.
pub open spec fn is_base64_text(s: Seq<char>) -> bool {
    forall|i: int| 0 <= i < s.len() ==> is_base64_char(#[trigger] s[i])
}

/// Whether `c` is a lowercase hexadecimal digit.
pub open spec fn is_lower_hex(c: char) -> bool {
    ('0' <= c && c <= '9') || ('a' <= c && c <= 'f')
}

/// Whether `s` has the shape of a hyphenated lowercase UUID:
/// 36 characters, `-` at 8, 13, 18 and 23, lowercase hex digits elsewhere.
pub open spec fn is_uuid_text(s: Seq<char>) -> bool {
    &&& s.len() == 36
    &&& forall|i: int|
        0 <= i < 36 ==> if i == 8 || i == 13 || i == 18 || i == 23 {
            #[trigger] s[i] == '-'
        } else {
            is_lower_hex(s[i])
        }
}

/// Relies on hmac's `Hmac<Sha256>`: `new_from_slice` accepts a key of any
/// length (a longer one is hashed first, it never returns an error), and the
/// finalized tag is the 32-byte SHA-256 HMAC of the message, a function of key
/// and message alone.
#[verifier::external_body]
pub(crate) fn hmac_sha256(key: &[u8], msg: &[u8]) -> (r: Vec<u8>)
    ensures
        r@ == hmac_sha256_of(key@, msg@),
        r@.len() == 32,
{
    let mut mac = <hmac::Hmac<sha2::Sha256> as hmac::Mac>::new_from_slice(key)
        .expect("HMAC takes keys of any length");
    hmac::Mac::update(&mut mac, msg);
    hmac::Mac::finalize(mac).into_bytes().to_vec()
}

/// Relies on base64's `STANDARD` engine, `Engine::encode`: the padded encoding
/// over `A–Z a–z 0–9 + /`, four characters for each started group of three
/// bytes. It panics only when that length overflows `usize`.
#[verifier::external_body]
pub(crate) fn base64_encode(bytes: &[u8]) -> (r: String)
    requires
        bytes@.len() <= usize::MAX / 2,
    ensures
        r@ == base64_of(bytes@),
        r@.len() == 4 * ((bytes@.len() + 2) / 3),
        is_base64_text(r@),
{
    base64::Engine::encode(&base64::engine::general_purpose::STANDARD, bytes)
}

/// Relies on base64's `STANDARD` engine, `Engine::decode`, which requires
/// canonical padding and zero trailing bits: it succeeds exactly on the
/// encodings of byte strings, gives those bytes back, and refuses any
/// character outside the alphabet.
#[verifier::external_body]
pub(crate) fn base64_decode(text: &str) -> (r: Option<Vec<u8>>)
    ensures
        r is Some ==> base64_of(r->0@) == text@,
        forall|b: Seq<u8>| #[trigger] base64_of(b) == text@ ==> r is Some && r->0@ == b,
        !is_base64_text(text@) ==> r is None,
{
    base64::Engine::decode(&base64::engine::general_purpose::STANDARD, text).ok()
}

/// Relies on subtle's `ConstantTimeEq` for slices, turned into `bool`: true
/// exactly when both slices have the same length and the same bytes; on equal
/// lengths it reads every byte whatever they hold.
#[verifier::external_body]
pub(crate) fn constant_time_eq(a: &[u8], b: &[u8]) -> (r: bool)
    ensures
        r == (a@ == b@),
{
    bool::from(subtle::ConstantTimeEq::ct_eq(a, b))
}

/// Relies on uuid's `Uuid::new_v4` and its `Display`: 122 random bits in the
/// hyphenated lowercase form. The value differs from call to call.
#[verifier::external_body]
pub(crate) fn random_uuid_text() -> (r: String)
    ensures
        is_uuid_text(r@),
{
    uuid::Uuid::new_v4().to_string()
}

/// Relies on std's `SystemTime::now` and `duration_since(UNIX_EPOCH)`: whole
/// seconds since the epoch, or 0 when the clock reads earlier than that.
/// Nothing is known of the value.
#[verifier::external_body]
pub(crate) fn now_secs() -> (r: u64) {
    std::time::SystemTime::now()
        .duration_since(std::time::UNIX_EPOCH)
        .map(|d| d.as_secs())
        .unwrap_or(0)
}

} // verus!
