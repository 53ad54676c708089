//! Signed download links: HMAC-SHA256 over the storage path and expiry, hex-encoded.
use vstd::prelude::*;
use hmac::Mac;
use crate::decimal::{dec_string, decimal_chars, push_decimal};
use crate::text::{push_str, string_from_chars};

verus! {

// ---------------------------------------------------------------------------
// Hex (the `hex` crate).
// ---------------------------------------------------------------------------

/// The lower-case hex digit of `d < 16`.
pub open spec fn hex_digit(d: nat) -> char {
    if d < 10 {
        (d + '0' as int) as char
    } else {
        (d - 10 + 'a' as int) as char
    }
}

/// Lower-case hex of `b`, two digits per byte, high nibble first.
pub open spec fn hex_lower(b: Seq<u8>) -> Seq<char>
    decreases b.len(),
{
    if b.len() == 0 {
        Seq::empty()
    } else {
        hex_lower(b.drop_last()) + seq![hex_digit((b.last() / 16) as nat), hex_digit((b.last() % 16) as nat)]
    }
}

/// The value of a hex digit of either case.
pub open spec fn hex_value(c: char) -> Option<nat> {
    if '0' <= c && c <= '9' {
        Some((c as int - '0' as int) as nat)
    } else if 'a' <= c && c <= 'f' {
        Some((c as int - 'a' as int + 10) as nat)
    } else if 'A' <= c && c <= 'F' {
        Some((c as int - 'A' as int + 10) as nat)
    } else {
        None
    }
}

/// The bytes that a hex string stands for: `None` unless it has an even number of
/// characters, all hex digits.
pub open spec fn hex_decoded(s: Seq<char>) -> Option<Seq<u8>>
    decreases s.len(),
{
    if s.len() % 2 != 0 {
        None
    } else if s.len() == 0 {
        Some(Seq::empty())
    } else {
        match (hex_decoded(s.subrange(0, s.len() - 2)), hex_value(s[s.len() - 2]), hex_value(s.last())) {
            (Some(prev), Some(hi), Some(lo)) => Some(prev.push((hi * 16 + lo) as u8)),
            _ => None,
        }
    }
}

/// Encodes bytes as lower-case hex (`hex::encode`).
/// Trusted: `hex::encode` maps each byte to two digits from `0123456789abcdef`,
/// high nibble first.
#[verifier::external_body]
fn hex_encode(bytes: &[u8]) -> (s: String)
    ensures
        s@ == hex_lower(bytes@),
{
    hex::encode(bytes)
}

/// Decodes a hex string (`hex::decode`), `None` on its error.
/// Trusted: `hex::decode` fails on an odd length or on a byte that is not a hex digit
/// of either case, and otherwise turns each pair of digits into one byte, high nibble
/// first. A string with a character outside ASCII always fails there.
#[verifier::external_body]
fn hex_decode(s: &str) -> (r: Option<Vec<u8>>)
    ensures
        match r {
            Some(v) => hex_decoded(s@) == Some(v@),
            None => hex_decoded(s@) is None,
        },
{
    hex::decode(s).ok()
}

proof fn lemma_hex_digit_value(d: nat)
    requires
        d < 16,
    ensures
        hex_value(hex_digit(d)) == Some(d),
{
}

/// Hex decoding undoes hex encoding.
pub proof fn lemma_hex_roundtrip(b: Seq<u8>)
    ensures
        hex_lower(b).len() == 2 * b.len(),
        hex_decoded(hex_lower(b)) == Some(b),
    decreases b.len(),
{
    if b.len() > 0 {
        lemma_hex_roundtrip(b.drop_last());
        let s = hex_lower(b);
        let x = b.last();
        lemma_hex_digit_value((x / 16) as nat);
        lemma_hex_digit_value((x % 16) as nat);
        assert(s.subrange(0, s.len() - 2) == hex_lower(b.drop_last()));
        assert(((x / 16) * 16 + x % 16) as u8 == x);
        assert(b.drop_last().push(x) == b);
    }
}

// ---------------------------------------------------------------------------
// HMAC-SHA256 (the `hmac` and `sha2` crates).
// ---------------------------------------------------------------------------

/// The HMAC-SHA256 tag of `msg` under `key`.
pub uninterp spec fn hmac_sha256_tag(key: Seq<u8>, msg: Seq<u8>) -> Seq<u8>;

/// Computes an HMAC-SHA256 tag (`Hmac::<Sha256>::new_from_slice`, `update`, `finalize`).
/// Trusted: the result is the tag of `msg` under `key`, 32 bytes long; HMAC takes a key
/// of any length, so `new_from_slice` does not fail.
#[verifier::external_body]
fn hmac_sha256(key: &[u8], msg: &[u8]) -> (tag: Vec<u8>)
    ensures
        tag@ == hmac_sha256_tag(key@, msg@),
        tag@.len() == 32,
{
    let mut mac = hmac::Hmac::<sha2::Sha256>::new_from_slice(key).expect("hmac key");
    mac.update(msg);
    mac.finalize().into_bytes().to_vec()
}

/// Checks a tag in constant time (`Mac::verify_slice`).
/// Trusted: `verify_slice` accepts exactly the tag of `msg` under `key`; a tag that is not
/// 32 bytes long is refused before any comparison.
#[verifier::external_body]
fn hmac_sha256_verify(key: &[u8], msg: &[u8], tag: &[u8]) -> (ok: bool)
    ensures
        ok == (tag@ == hmac_sha256_tag(key@, msg@)),
        tag@.len() != 32 ==> !ok,
{
    let mut mac = hmac::Hmac::<sha2::Sha256>::new_from_slice(key).expect("hmac key");
    mac.update(msg);
    mac.verify_slice(tag).is_ok()
}

// ---------------------------------------------------------------------------
// Signatures.
// ---------------------------------------------------------------------------

/// ASCII characters as bytes.
pub open spec fn ascii_bytes(s: Seq<char>) -> Seq<u8> {
    s.map_values(|c: char| c as u8)
}

/// The signed message: the path's UTF-8 bytes, `:`, and the expiry in decimal.
pub open spec fn signing_message(path: Seq<char>, expires: u64) -> Seq<u8> {
    vstd::utf8::encode_utf8(path) + seq![58u8] + ascii_bytes(dec_string(expires as nat))
}

/// The signature of a link to `path` that expires at `expires`.
pub open spec fn signature_of(key: Seq<u8>, path: Seq<char>, expires: u64) -> Seq<char> {
    hex_lower(hmac_sha256_tag(key, signing_message(path, expires)))
}

/// Whether `sig` is a valid signature of a link to `path` that expires at `expires`.
pub open spec fn signature_valid(key: Seq<u8>, path: Seq<char>, expires: u64, sig: Seq<char>) -> bool {
    hex_decoded(sig) == Some(hmac_sha256_tag(key, signing_message(path, expires)))
}

fn message_bytes(path: &str, expires: u64) -> (m: Vec<u8>)
    ensures
        m@ == signing_message(path@, expires),
{
    let mut m = vstd::slice::slice_to_vec(path.as_bytes());
    m.push(58u8);
    let digits = decimal_chars(expires);
    let ghost start = m@;
    let mut i: usize = 0;
    while i < digits.len()
        invariant
            i <= digits.len(),
            digits@ == dec_string(expires as nat),
            m@ == start + ascii_bytes(digits@.take(i as int)),
        decreases digits.len() - i,
    {
        m.push(digits[i] as u8);
        i = i + 1;
        assert(ascii_bytes(digits@.take(i as int)) =~= ascii_bytes(digits@.take((i - 1) as int)).push(
            digits@[i - 1] as u8,
        ));
    }
    assert(digits@.take(digits.len() as int) == digits@);
    m
}

/// Signs a download link for `path` that expires at the unix time `expires`.
pub fn sign(key: &[u8], path: &str, expires: u64) -> (sig: String)
    ensures
        sig@ == signature_of(key@, path@, expires),
        sig@.len() == 64,
{
    let msg = message_bytes(path, expires);
    let tag = hmac_sha256(key, msg.as_slice());
    proof {
        lemma_hex_roundtrip(tag@);
    }
    hex_encode(tag.as_slice())
}

/// Checks the signature of a download link; a signature that is not hex is refused.
pub fn verify(key: &[u8], path: &str, expires: u64, sig_hex: &str) -> (ok: bool)
    ensures
        ok == signature_valid(key@, path@, expires, sig_hex@),
        hex_decoded(sig_hex@) matches Some(b) && b.len() != 32 ==> !ok,
{
    match hex_decode(sig_hex) {
        None => false,
        Some(sig) => {
            let msg = message_bytes(path, expires);
            hmac_sha256_verify(key, msg.as_slice(), sig.as_slice())
        },
    }
}

/// A signature made by `sign` is accepted by `verify` for the same key, path and expiry.
pub proof fn lemma_sign_then_verify(key: Seq<u8>, path: Seq<char>, expires: u64)
    ensures
        signature_valid(key, path, expires, signature_of(key, path, expires)),
{
    lemma_hex_roundtrip(hmac_sha256_tag(key, signing_message(path, expires)));
}

} // verus!

verus! {

/// Whether links are signed by the service itself (the `fs` backend) rather than
/// presigned by the storage backend.
pub fn is_fs_scheme(scheme: &str) -> (b: bool)
    ensures
        b == (scheme@ == "fs"@),
{
    let v = crate::text::chars_of(scheme);
    let fs = crate::text::chars_of("fs");
    crate::text::chars_eq(&v, &fs)
}

/// The link that `fs_signed_url` builds.
pub open spec fn fs_signed_url_spec(
    public_base_url: Seq<char>,
    key: Seq<u8>,
    path: Seq<char>,
    expires: u64,
) -> Seq<char> {
    public_base_url + "/downloads/"@ + path + "?expires="@ + dec_string(expires as nat) + "&sig="@
        + signature_of(key, path, expires)
}

/// A signed download link for `path`, valid for `ttl_secs` seconds from `now_unix`.
pub fn fs_signed_url(
    public_base_url: &str,
    signing_key: &[u8],
    path: &str,
    ttl_secs: u64,
    now_unix: u64,
) -> (url: String)
    requires
        now_unix + ttl_secs <= u64::MAX,
    ensures
        url@ == fs_signed_url_spec(
            public_base_url@,
            signing_key@,
            path@,
            (now_unix + ttl_secs) as u64,
        ),
{
    let expires = now_unix + ttl_secs;
    let sig = sign(signing_key, path, expires);
    let mut out: Vec<char> = Vec::new();
    push_str(&mut out, public_base_url);
    push_str(&mut out, "/downloads/");
    push_str(&mut out, path);
    push_str(&mut out, "?expires=");
    push_decimal(&mut out, expires);
    push_str(&mut out, "&sig=");
    push_str(&mut out, sig.as_str());
    string_from_chars(&out)
}

} // verus!
