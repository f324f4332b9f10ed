use webgrab::error::ExitCode;
use webgrab::fetch::{
    check_content_type, first_internal, http_error_message, is_plain_text,
    is_supported_media_type, max_bytes_message, over_budget, status_error,
};
use webgrab::netguard::IpAddress;

#[test]
fn media_type_check_is_case_insensitive() {
    assert!(is_supported_media_type("TEXT/HTML"));
    assert!(is_supported_media_type("Text/Html"));
    assert!(is_supported_media_type("application/XHTML+XML"));
    assert!(is_supported_media_type(""));
    assert!(!is_supported_media_type("application/pdf"));
    assert!(!is_supported_media_type("image/png"));
}

#[test]
fn http_error_messages() {
    assert_eq!(http_error_message(403), "HTTP 403 retryable=false hint=--render");
    assert_eq!(http_error_message(404), "HTTP 404 retryable=false");
    assert_eq!(http_error_message(429), "HTTP 429 retryable=true");
    assert_eq!(http_error_message(500), "HTTP 500 retryable=true");
}

#[test]
fn plain_text_detection() {
    assert!(is_plain_text(Some("text/plain")));
    assert!(is_plain_text(Some("Text/Plain")));
    assert!(is_plain_text(Some("text/plain; charset=utf-8")));
    assert!(!is_plain_text(Some("text/html")));
    assert!(!is_plain_text(None));
}

#[test]
fn content_type_check_uses_the_media_type() {
    assert!(check_content_type(None).is_ok());
    assert!(check_content_type(Some("text/html; charset=utf-8")).is_ok());
    let e = check_content_type(Some(" application/pdf ; x=y")).unwrap_err();
    assert_eq!(e.code, ExitCode::Http);
    assert_eq!(e.message, "unsupported content-type: application/pdf");
}

#[test]
fn only_4xx_and_5xx_are_errors() {
    assert!(status_error(200).is_none());
    assert!(status_error(302).is_none());
    let e = status_error(503).unwrap();
    assert_eq!(e.code, ExitCode::Http);
    assert_eq!(e.message, "HTTP 503 retryable=true");
    assert!(status_error(600).is_none());
}

#[test]
fn byte_budget_and_its_message() {
    assert!(!over_budget(60, 40, 100));
    assert!(over_budget(60, 41, 100));
    assert!(over_budget(0, u64::MAX, 100));
    assert_eq!(max_bytes_message(1024), "response exceeds --max-bytes (1024)");
}

#[test]
fn first_internal_address_refuses_the_host() {
    let public = IpAddress::V4([93, 184, 216, 34]);
    let lo = IpAddress::V4([127, 0, 0, 1]);
    assert_eq!(first_internal(&[public, public]), None);
    assert_eq!(first_internal(&[public, lo, public]), Some(1));
    assert_eq!(first_internal(&[]), None);
}
