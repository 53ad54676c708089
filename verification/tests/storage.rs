use browserless_html_to_pdf::models::dto::ImageFormat;
use browserless_html_to_pdf::routes::images::image_storage_key;
use browserless_html_to_pdf::routes::downloads::{authorize_download, content_type_for, SignedParams};
use browserless_html_to_pdf::services::storage::{fs_signed_url, is_fs_scheme, sign, verify};
use browserless_html_to_pdf::error::AppError;
use hmac::Mac;

#[test]
fn fs_signature_roundtrips() {
    let key = b"secret-key";
    let path = "pdfs/abc/report.pdf";
    let expires = 1_900_000_000u64;
    let sig = sign(key, path, expires);
    assert!(verify(key, path, expires, &sig));
    assert!(!verify(key, path, expires, "deadbeef"));
    assert!(!verify(b"other", path, expires, &sig));
}

#[test]
fn signature_is_hex_hmac_of_path_and_expiry() {
    let mut mac = hmac::Hmac::<sha2::Sha256>::new_from_slice(b"k").unwrap();
    mac.update(b"a/b.png:42");
    let expected = hex::encode(mac.finalize().into_bytes());
    let sig = sign(b"k", "a/b.png", 42);
    assert_eq!(sig, expected);
    assert_eq!(sig.len(), 64);
    assert!(verify(b"k", "a/b.png", 42, &sig.to_uppercase()));
    assert!(!verify(b"k", "a/b.png", 43, &sig));
    assert!(!verify(b"k", "a/b.pdf", 42, &sig));
    assert!(!verify(b"k", "a/b.png", 42, "xyz"));
}

#[test]
fn fs_link_carries_expiry_and_signature() {
    let url = fs_signed_url("http://h", b"key", "pdfs/x/r.pdf", 60, 1000);
    let sig = sign(b"key", "pdfs/x/r.pdf", 1060);
    assert_eq!(url, format!("http://h/downloads/pdfs/x/r.pdf?expires=1060&sig={sig}"));
    assert!(is_fs_scheme("fs"));
    assert!(!is_fs_scheme("s3"));
}

#[test]
fn signed_link_opens_until_it_expires() {
    let sig = sign(b"key", "p", 100);
    let params = SignedParams { expires: 100, sig: sig.clone() };
    assert!(authorize_download(b"key", "p", &params, 100).is_ok());
    match authorize_download(b"key", "p", &params, 101) {
        Err(AppError::BadRequest(m)) => assert_eq!(m, "link expired"),
        other => panic!("unexpected {other:?}"),
    }
    match authorize_download(b"key", "q", &params, 50) {
        Err(AppError::BadRequest(m)) => assert_eq!(m, "invalid signature"),
        other => panic!("unexpected {other:?}"),
    }
}

#[test]
fn content_type_follows_extension() {
    assert_eq!(content_type_for("pdfs/a/r.pdf"), "application/pdf");
    assert_eq!(content_type_for("images/a/page-1.jpeg"), "image/jpeg");
    assert_eq!(content_type_for("x.jpg"), "image/jpeg");
    assert_eq!(content_type_for("images/a/page-1.png"), "image/png");
    assert_eq!(content_type_for("noext"), "image/png");
}

#[test]
fn stored_images_are_served_with_their_format() {
    assert_eq!(content_type_for(&image_storage_key("f", 7, ImageFormat::Png)), "image/png");
    assert_eq!(content_type_for(&image_storage_key("f", 7, ImageFormat::Jpeg)), "image/jpeg");
}
