//! Serving stored artifacts through signed links.
use vstd::prelude::*;
use crate::error::AppError;
use crate::services::storage::{lemma_sign_then_verify, signature_of, signature_valid, verify};
use crate::text::{chars_of, ends_with_chars};

verus! {

/// The query of a download link.
pub struct SignedParams {
    pub expires: u64,
    pub sig: String,
}

/// Whether a link with these parameters may be served at `now`: it has not expired and
/// its signature matches.
pub open spec fn download_allowed(key: Seq<u8>, path: Seq<char>, expires: u64, sig: Seq<char>, now: u64) -> bool {
    now <= expires && signature_valid(key, path, expires, sig)
}

/// Checks a download link: an expired link and a bad signature are both bad requests,
/// expiry checked first.
pub fn authorize_download(signing_key: &[u8], key: &str, params: &SignedParams, now: u64) -> (r: Result<(), AppError>)
    ensures
        r is Ok <==> download_allowed(signing_key@, key@, params.expires, params.sig@, now),
        now > params.expires ==> (r matches Err(AppError::BadRequest(m)) && m@ == "link expired"@),
        now <= params.expires && !signature_valid(signing_key@, key@, params.expires, params.sig@)
            ==> (r matches Err(AppError::BadRequest(m)) && m@ == "invalid signature"@),
{
    if now > params.expires {
        return Err(AppError::BadRequest(String::from_str("link expired")));
    }
    if !verify(signing_key, key, params.expires, params.sig.as_str()) {
        return Err(AppError::BadRequest(String::from_str("invalid signature")));
    }
    Ok(())
}

/// A link made by `fs_signed_url` at `now` with lifetime `ttl` opens its path at any time
/// up to its expiry.
pub proof fn lemma_signed_link_opens(key: Seq<u8>, path: Seq<char>, now: u64, ttl: u64, at: u64)
    requires
        now + ttl <= u64::MAX,
        at <= now + ttl,
    ensures
        download_allowed(
            key,
            path,
            (now + ttl) as u64,
            signature_of(key, path, (now + ttl) as u64),
            at,
        ),
{
    lemma_sign_then_verify(key, path, (now + ttl) as u64);
}

/// A link that `fs_signed_url` makes at `now` with lifetime `ttl` points at the path
/// under `/downloads/`, and carries in its query an expiry that reads back as `now + ttl`
/// and a signature that opens that path at any time up to then.
pub proof fn lemma_fs_link_carries_its_grant(
    base: Seq<char>,
    key: Seq<u8>,
    path: Seq<char>,
    now: u64,
    ttl: u64,
    at: u64,
)
    requires
        now + ttl <= u64::MAX,
        at <= now + ttl,
    ensures
        exists|e: Seq<char>, sig: Seq<char>|
            {
                &&& crate::services::storage::fs_signed_url_spec(base, key, path, (now + ttl) as u64)
                    == base + "/downloads/"@ + path + "?expires="@ + e + "&sig="@ + sig
                &&& crate::decimal::parse_unsigned(e, u64::MAX as nat) == Ok::<nat, crate::decimal::IntErrorKind>(
                    (now + ttl) as nat,
                )
                &&& download_allowed(key, path, (now + ttl) as u64, sig, at)
            },
{
    let exp = (now + ttl) as u64;
    let e = crate::decimal::dec_string(exp as nat);
    let sig = signature_of(key, path, exp);
    crate::decimal::lemma_parse_dec_string(exp as nat, u64::MAX as nat);
    lemma_signed_link_opens(key, path, now, ttl, at);
    assert(crate::services::storage::fs_signed_url_spec(base, key, path, exp)
        == base + "/downloads/"@ + path + "?expires="@ + e + "&sig="@ + sig);
}

/// The content type a stored artifact is served with, from its key's extension.
pub open spec fn content_type_spec(key: Seq<char>) -> Seq<char> {
    if key.len() >= ".pdf"@.len() && key.subrange(key.len() - ".pdf"@.len(), key.len() as int) == ".pdf"@ {
        "application/pdf"@
    } else if (key.len() >= ".jpeg"@.len() && key.subrange(key.len() - ".jpeg"@.len(), key.len() as int) == ".jpeg"@)
        || (key.len() >= ".jpg"@.len() && key.subrange(key.len() - ".jpg"@.len(), key.len() as int) == ".jpg"@) {
        "image/jpeg"@
    } else {
        "image/png"@
    }
}

/// A stored artifact is served by its extension, whatever comes before it: `.pdf` as a
/// PDF, `.jpeg` and `.jpg` as JPEG, `.png` as PNG.
pub proof fn lemma_content_type_by_extension(stem: Seq<char>)
    ensures
        content_type_spec(stem + ".pdf"@) == "application/pdf"@,
        content_type_spec(stem + ".jpeg"@) == "image/jpeg"@,
        content_type_spec(stem + ".jpg"@) == "image/jpeg"@,
        content_type_spec(stem + ".png"@) == "image/png"@,
{
    reveal_strlit(".pdf");
    reveal_strlit(".jpeg");
    reveal_strlit(".jpg");
    reveal_strlit(".png");
    let k1 = stem + ".pdf"@;
    assert(k1.subrange(k1.len() - 4, k1.len() as int) == ".pdf"@);
    let k2 = stem + ".jpeg"@;
    assert(k2.subrange(k2.len() - 5, k2.len() as int) == ".jpeg"@);
    assert(k2.subrange(k2.len() - 4, k2.len() as int) != ".pdf"@) by {
        assert(k2.subrange(k2.len() - 4, k2.len() as int)[0] == 'j');
    }
    let k3 = stem + ".jpg"@;
    assert(k3.subrange(k3.len() - 4, k3.len() as int) == ".jpg"@);
    assert(k3.subrange(k3.len() - 4, k3.len() as int) != ".pdf"@) by {
        assert(k3.subrange(k3.len() - 4, k3.len() as int)[1] == 'j');
    }
    let k4 = stem + ".png"@;
    assert(k4.subrange(k4.len() - 4, k4.len() as int) != ".pdf"@) by {
        assert(k4.subrange(k4.len() - 4, k4.len() as int)[1] == 'p');
        assert(k4.subrange(k4.len() - 4, k4.len() as int)[2] == 'n');
    }
    assert(k4.subrange(k4.len() - 4, k4.len() as int) != ".jpg"@) by {
        assert(k4.subrange(k4.len() - 4, k4.len() as int)[1] == 'p');
    }
    if k4.len() >= 5 {
        assert(k4.subrange(k4.len() - 5, k4.len() as int) != ".jpeg"@) by {
            assert(k4.subrange(k4.len() - 5, k4.len() as int)[3] == 'n');
        }
    }
}

pub fn content_type_for(key: &str) -> (ct: &'static str)
    ensures
        ct@ == content_type_spec(key@),
{
    let k = chars_of(key);
    let pdf = chars_of(".pdf");
    let jpeg = chars_of(".jpeg");
    let jpg = chars_of(".jpg");
    if ends_with_chars(&k, &pdf) {
        "application/pdf"
    } else if ends_with_chars(&k, &jpeg) || ends_with_chars(&k, &jpg) {
        "image/jpeg"
    } else {
        "image/png"
    }
}

} // verus!
