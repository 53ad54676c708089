use browserless_html_to_pdf::error::{AppError, JsonRejectionKind};

#[test]
fn maps_status_codes() {
    assert_eq!(AppError::Validation("x".into()).status_code(), 422);
    assert_eq!(AppError::html_too_large(10, 5).status_code(), 413);
    assert_eq!(AppError::BadRequest("x".into()).status_code(), 400);
    assert_eq!(AppError::Internal("x".into()).status_code(), 500);
    assert_eq!(AppError::NotFound("x".into()).status_code(), 404);
}

#[test]
fn internal_errors_do_not_leak_details() {
    let body = AppError::Internal("secret backend detail".into()).public_message();
    assert!(!body.contains("secret backend detail"));
    assert_eq!(body, "internal server error");
}

#[test]
fn public_messages() {
    assert_eq!(AppError::BadRequest("bad".into()).public_message(), "bad");
    assert_eq!(AppError::html_too_large(16, 64).public_message(), "HTML payload too large");
    assert_eq!(AppError::NotFound("nf".into()).public_message(), "nf");
}

#[test]
fn json_rejections_map_to_errors() {
    assert!(matches!(
        AppError::from_json_rejection(JsonRejectionKind::Data, "d".into()),
        AppError::Validation(m) if m == "d"
    ));
    assert!(matches!(
        AppError::from_json_rejection(JsonRejectionKind::Syntax, "s".into()),
        AppError::BadRequest(m) if m == "s"
    ));
    assert!(matches!(
        AppError::from_json_rejection(JsonRejectionKind::Other, "o".into()),
        AppError::BadRequest(m) if m == "o"
    ));
}
