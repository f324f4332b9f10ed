use webgrab::decode::decode;

#[test]
fn utf8_via_header() {
    let (s, enc, _) = decode(
        "こんにちは".as_bytes(),
        Some("text/html; charset=utf-8"),
        true,
    );
    assert_eq!(s, "こんにちは");
    assert_eq!(enc, "UTF-8");
}

#[test]
fn shift_jis_via_header() {
    let (bytes, _, _) = encoding_rs::SHIFT_JIS.encode("日本語テスト");
    let (s, enc, _) = decode(&bytes, Some("text/html; charset=shift_jis"), true);
    assert_eq!(s, "日本語テスト");
    assert_eq!(enc, "Shift_JIS");
}

#[test]
fn euc_jp_via_meta() {
    let (body, _, _) = encoding_rs::EUC_JP.encode("東京都");
    let mut page = b"<html><head><meta charset=\"euc-jp\"></head><body>".to_vec();
    page.extend_from_slice(&body);
    let (s, enc, _) = decode(&page, None, true);
    assert!(s.contains("東京都"));
    assert_eq!(enc, "EUC-JP");
}

#[test]
fn no_charset_falls_back_to_detector() {
    let (bytes, _, _) =
        encoding_rs::SHIFT_JIS.encode("これは日本語のテスト文章です。日本語日本語。");
    let (s, _enc, _) = decode(&bytes, None, true);
    assert!(s.contains("日本語"));
}

#[test]
fn header_charset_priority_over_meta() {
    let page = "<meta charset=\"euc-jp\">日本".as_bytes();
    let (_s, enc, _) = decode(page, Some("text/html; charset=utf-8"), true);
    assert_eq!(enc, "UTF-8");
}

#[test]
fn plain_text_ignores_meta_charset() {
    let page = "<meta charset=\"shift_jis\">日本語".as_bytes();
    let (s, enc, errors) = decode(page, Some("text/plain"), false);
    assert_eq!(s, "<meta charset=\"shift_jis\">日本語");
    assert_eq!(enc, "UTF-8");
    assert!(!errors);
    let (_s, enc, _) = decode(page, Some("text/html"), true);
    assert_eq!(enc, "Shift_JIS");
}

#[test]
fn unknown_header_label_falls_through_and_quotes_are_trimmed() {
    let (_s, enc, _) = decode(b"plain ascii", Some("text/html; charset=\"utf-8\""), true);
    assert_eq!(enc, "UTF-8");
    let (_s, enc, _) = decode(
        b"<meta charset='ISO-8859-2'>x",
        Some("text/html; charset=nonsense"),
        true,
    );
    assert_eq!(enc, "ISO-8859-2");
}

#[test]
fn malformed_input_is_reported() {
    let (s, enc, errors) = decode(&[0x61, 0xff, 0x62], Some("text/plain; charset=utf-8"), false);
    assert_eq!(enc, "UTF-8");
    assert!(errors);
    assert_eq!(s, "a\u{fffd}b");
}

#[test]
fn replacement_warning_names_the_encoding() {
    assert_eq!(
        webgrab::decode::replacement_warning("Shift_JIS"),
        "webgrab: warn=decode-replacement enc=Shift_JIS"
    );
}
