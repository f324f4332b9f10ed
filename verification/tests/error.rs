use webgrab::error::{sanitize_detail, ExitCode, WebgrabError};

#[test]
fn exit_codes_map_to_expected_numbers() {
    assert_eq!(ExitCode::Success.number(), 0);
    assert_eq!(ExitCode::Netguard.number(), 8);
    assert_eq!(ExitCode::Http.number(), 4);
}

#[test]
fn tokens_have_no_whitespace() {
    for c in [
        ExitCode::Internal,
        ExitCode::Usage,
        ExitCode::Network,
        ExitCode::Http,
        ExitCode::Robots,
        ExitCode::Empty,
        ExitCode::Render,
        ExitCode::Netguard,
    ] {
        assert!(!c.token().contains(char::is_whitespace));
    }
}

#[test]
fn error_carries_code_and_detail() {
    let e = WebgrabError::new(ExitCode::Robots, "blocked").with_detail("rule: /private");
    assert_eq!(e.code, ExitCode::Robots);
    assert_eq!(e.detail.as_deref(), Some("rule: /private"));
}

#[test]
fn token_moves_message_to_detail_line() {
    let e = WebgrabError::new(ExitCode::Empty, "empty body extracted")
        .with_token("hint", "--render/--raw");
    let lines = e.stderr_lines();
    assert_eq!(lines[0], "webgrab: error=empty hint=--render/--raw");
    assert_eq!(lines[1], "empty body extracted");
}

#[test]
fn without_token_first_line_keeps_message() {
    let e = WebgrabError::new(ExitCode::Http, "HTTP 503 retryable=true");
    let lines = e.stderr_lines();
    assert_eq!(lines[0], "webgrab: error=http HTTP 503 retryable=true");
    assert_eq!(lines.len(), 1);
}

#[test]
fn detail_is_sanitized_to_one_line_and_capped() {
    let raw = format!("a\nb\u{1b}[31mc\u{2028}d{}", "é".repeat(600));
    let d = sanitize_detail(&raw);
    assert!(!d.contains('\n') && !d.contains('\u{1b}') && !d.contains('\u{2028}'));
    assert!(d.starts_with("a b c d"));
    assert!(d.len() <= 512 + '…'.len_utf8(), "len={}", d.len());
    assert!(d.ends_with('…'));
    assert!(d.is_char_boundary(d.len() - '…'.len_utf8()));
}

#[test]
fn exactly_512_bytes_no_ellipsis() {
    let input = "x".repeat(512);
    let d = sanitize_detail(&input);
    assert_eq!(d, input);
    assert!(!d.ends_with('…'));
}

#[test]
fn multibyte_char_at_boundary_truncates_cleanly() {
    let mut input = "x".repeat(511);
    input.push('é');
    let d = sanitize_detail(&input);
    assert!(d.ends_with('…'));
    assert!(d.is_char_boundary(d.len() - '…'.len_utf8()));
    assert_eq!(d.len(), 511 + '…'.len_utf8());
}

#[test]
fn unterminated_csi_preserves_following_text() {
    let d = sanitize_detail("\u{1b}[123456789");
    assert_eq!(d, "[123456789");
}

#[test]
fn terminated_csi_with_final_byte_t_collapses_to_space() {
    let d = sanitize_detail("\u{1b}[0;text");
    assert_eq!(d, " ext");
}

#[test]
fn esc_not_followed_by_bracket_removed() {
    let input = "\u{1b}mtext";
    let d = sanitize_detail(input);
    assert_eq!(d, "mtext");
}

#[test]
fn detail_line_is_printed_last() {
    let e = WebgrabError::new(ExitCode::Network, "request failed")
        .with_token("hint", "--render")
        .with_detail("connection\treset");
    let lines = e.stderr_lines();
    assert_eq!(
        lines,
        vec![
            "webgrab: error=network hint=--render".to_string(),
            "request failed".to_string(),
            "connection reset".to_string(),
        ]
    );
}

#[test]
fn several_tokens_are_joined_by_blanks() {
    let e = WebgrabError::new(ExitCode::Netguard, "refused")
        .with_token("range", "loopback")
        .with_token("ip", "127.0.0.1");
    assert_eq!(
        e.stderr_lines()[0],
        "webgrab: error=netguard range=loopback ip=127.0.0.1"
    );
}

#[test]
fn unterminated_csi_window_is_one_hundred_characters() {
    // The final byte lies past the 100-character window: the run is text.
    let input = format!("\u{1b}[{}m", "1".repeat(100));
    let d = sanitize_detail(&input);
    assert_eq!(d, format!("[{}m", "1".repeat(100)));
    // Within the window it is a control sequence.
    let input = format!("\u{1b}[{}m!", "1".repeat(99));
    assert_eq!(sanitize_detail(&input), " !");
}

#[test]
fn c1_controls_vanish_and_tabs_become_blanks() {
    assert_eq!(sanitize_detail("a\u{85}b\u{9f}c\td\re"), "abc d e");
}

#[test]
fn every_exit_code_has_its_number() {
    let all = [
        ExitCode::Success,
        ExitCode::Internal,
        ExitCode::Usage,
        ExitCode::Network,
        ExitCode::Http,
        ExitCode::Robots,
        ExitCode::Empty,
        ExitCode::Render,
        ExitCode::Netguard,
    ];
    for (i, c) in all.iter().enumerate() {
        assert_eq!(c.number() as usize, i);
    }
    assert_eq!(ExitCode::Success.token(), "ok");
}

#[test]
fn sanitize_detail_twice_is_sanitize_detail_once() {
    let long_ascii = "x".repeat(600);
    let long_wide = format!("{}{}", "a".repeat(510), "日本語");
    let inputs = [
        "plain".to_string(),
        "a\nb\tc\u{1b}[31mred\u{1b}[0m\u{7}".to_string(),
        "\u{1b}[123456789".to_string(),
        long_ascii,
        long_wide,
        format!("{}…", "y".repeat(509)),
    ];
    for s in inputs.iter() {
        let once = sanitize_detail(s);
        assert_eq!(sanitize_detail(&once), once, "input={s:?}");
    }
}
