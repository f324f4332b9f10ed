use webgrab::budget::{
    continue_command, end_footer, short_content_marker, slice, truncated_footer,
};

#[test]
fn slice_from_zero_truncates() {
    let s = slice("abcdefghij", 0, 4);
    assert_eq!(s.content, "abcd");
    assert_eq!((s.start, s.end, s.total), (0, 4, 10));
    assert!(s.truncated);
    assert!(!s.ended);
}

#[test]
fn slice_middle() {
    let s = slice("abcdefghij", 4, 3);
    assert_eq!(s.content, "efg");
    assert!(s.truncated);
}

#[test]
fn slice_last_page_no_truncation() {
    let s = slice("abcdefghij", 8, 5);
    assert_eq!(s.content, "ij");
    assert!(!s.truncated);
    assert!(!s.ended);
}

#[test]
fn slice_start_beyond_total_is_end() {
    let s = slice("abc", 10, 100);
    assert_eq!(s.content, "");
    assert!(s.ended);
    assert!(!s.truncated);
    assert_eq!(s.total, 3);
}

#[test]
fn slice_max_zero_is_empty_not_end() {
    let s = slice("abcdef", 0, 0);
    assert_eq!(s.content, "");
    assert!(!s.ended);
    assert!(s.truncated);
}

#[test]
fn slice_multibyte_char_boundary_safe() {
    let body = "あい😀うえお";
    let s = slice(body, 2, 2);
    assert_eq!(s.content, "😀う");
    assert_eq!(s.total, 6);
}

#[test]
fn continue_command_quotes_url_with_query_string() {
    let cmd = continue_command("https://x.test/p?a=1&b=2", 100, &[]);
    assert!(
        cmd.contains("'https://x.test/p?a=1&b=2'"),
        "URL is not single-quoted: {cmd}"
    );
}

#[test]
fn continue_command_escapes_single_quote_in_url() {
    let cmd = continue_command("https://x.test/a'b", 0, &[]);
    assert!(cmd.contains(r"'\''"), "single quote not escaped: {cmd}");
}

#[test]
fn continue_command_replaces_start_index_and_reproduces_flags() {
    let cmd = continue_command(
        "https://x.test",
        48000,
        &["--render".into(), "--format json".into()],
    );
    assert_eq!(
        cmd,
        "webgrab 'https://x.test' --render --format json --start-index 48000"
    );
}

#[test]
fn truncated_footer_contains_range_and_continue() {
    let s = slice("abcdefghij", 0, 4);
    let f = truncated_footer("https://x.test", &s, &[]);
    assert!(f.contains("chars 0-4 of 10"));
    assert!(f.contains("--start-index 4"));
}

#[test]
fn end_footer_format() {
    assert_eq!(end_footer(83000), "[webgrab:end total 83000 chars]");
}

#[test]
fn slice_snaps_to_newline_in_back_half() {
    let s = slice("1234567890\n1234567890", 0, 14);
    assert_eq!(s.content, "1234567890\n");
    assert_eq!(s.end, 11);
    assert!(s.truncated);
}

#[test]
fn slice_does_not_snap_when_newline_only_in_front_half() {
    let body = format!("a\n{}", "b".repeat(20));
    let s = slice(&body, 0, 14);
    assert_eq!(s.end, 14);
    assert_eq!(s.content, format!("a\n{}", "b".repeat(12)));
    assert!(s.truncated);
}

#[test]
fn slice_does_not_snap_when_no_newline_in_range() {
    let body = "x".repeat(30);
    let s = slice(&body, 0, 10);
    assert_eq!(s.end, 10);
    assert!(s.truncated);
}

#[test]
fn slice_last_page_is_untouched_by_snap() {
    let s = slice("hello\nworld", 6, 100);
    assert_eq!(s.content, "world");
    assert_eq!(s.end, 11);
    assert!(!s.truncated);
}

#[test]
fn slice_exact_fit_last_page_is_not_snapped() {
    let s = slice("abcd\nef", 0, 7);
    assert_eq!(s.content, "abcd\nef");
    assert_eq!(s.end, 7);
    assert!(!s.truncated);
}

#[test]
fn slice_ignores_newline_exactly_at_range_end() {
    let s = slice("abcde\nxyz", 0, 5);
    assert_eq!(s.content, "abcde");
    assert_eq!(s.end, 5);
}

#[test]
fn slice_snaps_to_newline_at_range_start() {
    let s = slice("\nabc", 0, 2);
    assert_eq!(s.content, "\n");
    assert_eq!(s.end, 1);
}

#[test]
fn slice_does_not_snap_to_newline_before_start() {
    let s = slice("a\nbcdefgh", 3, 4);
    assert_eq!(s.content, "cdef");
    assert_eq!((s.start, s.end), (3, 7));
}

#[test]
fn slice_max_chars_one_no_newline_at_start() {
    let s = slice("ab\ncd", 0, 1);
    assert_eq!(s.content, "a");
    assert_eq!(s.end, 1);
    assert!(s.truncated);
}

#[test]
fn slice_max_chars_one_newline_at_start() {
    let s = slice("\nabcd", 0, 1);
    assert_eq!(s.content, "\n");
    assert_eq!(s.end, 1);
    assert!(s.truncated);
}

#[test]
fn slice_snap_handles_multibyte_chars_without_panic() {
    let s = slice("😀😀\n😀😀😀😀😀😀", 0, 6);
    assert_eq!(s.content, "😀😀\n");
    assert_eq!(s.end, 3);
    assert!(s.truncated);
}

#[test]
fn slice_snaps_on_crlf_body() {
    let s = slice("12345\r\n1234567890", 0, 12);
    assert_eq!(s.content, "12345\r\n");
    assert_eq!(s.end, 7);
    assert!(s.truncated);
}

#[test]
fn slice_end_already_right_after_newline_is_unchanged() {
    let s = slice("abc\ndefghij", 0, 4);
    assert_eq!(s.content, "abc\n");
    assert_eq!(s.end, 4);
    assert!(s.truncated);
}

#[test]
fn slice_pagination_concatenation_matches_body_for_various_max_chars() {
    let bodies = [
        "line one\nline two\nline three\nline four\nline five\n",
        "no newlines at all here just plain text of some length",
        "あ\nい\nう\nえ\nお\nか\nき\nく\nけ\nこ\n",
        "short",
    ];
    for body in bodies {
        for max_chars in [1usize, 2, 3, 5, 7, 11, 100] {
            let mut start = 0usize;
            let mut collected = String::new();
            loop {
                let s = slice(body, start, max_chars);
                if s.ended {
                    break;
                }
                assert!(
                    s.end > start,
                    "body={body:?} max_chars={max_chars} start={start} end={}",
                    s.end
                );
                collected.push_str(&s.content);
                start = s.end;
                if !s.truncated {
                    break;
                }
            }
            assert_eq!(collected, body, "body={body:?} max_chars={max_chars}");
        }
    }
}

#[test]
fn short_content_marker_names_the_suggestion() {
    assert_eq!(
        short_content_marker(42, "--render or --raw"),
        "[webgrab:short-content 42 chars — if unexpected, retry with --render or --raw]"
    );
}

#[test]
fn slice_of_empty_body_is_ended() {
    let s = slice("", 0, 10);
    assert_eq!(s.content, "");
    assert_eq!((s.start, s.end, s.total), (0, 0, 0));
    assert!(s.ended);
    assert!(!s.truncated);
    let s2 = slice("", 1, 10);
    assert!(s2.ended);
}
