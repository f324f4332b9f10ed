use webgrab::convert::nesting::exceeds_tree_depth;
use webgrab::convert::{
    markdown_to_text, sanitize_link_schemes, strip_non_content, to_markdown, to_text,
    visible_text_len,
};

#[test]
fn converts_headings_links_code() {
    let html = "<h1>Title</h1><p>See <a href=\"https://x.test\">link</a>.</p><pre><code>fn main(){}</code></pre>";
    let md = to_markdown(html).unwrap();
    assert!(md.contains("# Title"));
    assert!(md.contains("[link](https://x.test)"));
    assert!(md.contains("fn main(){}"));
}

#[test]
fn dangerous_link_schemes_neutralized() {
    let md = to_markdown(r#"<a href="javascript:alert(1)">x</a>"#).unwrap();
    assert!(md.contains("](unsafe-javascript:"), "{md}");
    assert!(!md.contains("](javascript:"));
    let md2 = to_markdown(r#"<a href="VBScript:msgbox(1)">y</a>"#).unwrap();
    assert!(md2.to_ascii_lowercase().contains("](unsafe-vbscript:"));
    let md3 = to_markdown(r#"<a href="data:text/html,<script>1</script>">z</a>"#).unwrap();
    assert!(md3.contains("](unsafe-data:text/html"));
}

#[test]
fn sanitize_link_schemes_covers_three_forms() {
    for (input, want) in [
        ("[x](javascript:a)", "[x](unsafe-javascript:a)"),
        ("[x](  javascript:a)", "[x](  unsafe-javascript:a)"),
        ("<javascript:a>", "<unsafe-javascript:a>"),
        ("[x]: javascript:a", "[x]: unsafe-javascript:a"),
        ("[x]:\n  javascript:a", "[x]:\n  unsafe-javascript:a"),
        ("[x](JavaScript:a)", "[x](unsafe-JavaScript:a)"),
        ("<VBScript:a>", "<unsafe-VBScript:a>"),
        ("[x](data:text/html,y)", "[x](unsafe-data:text/html,y)"),
        ("[x](data:image/svg+xml,y)", "[x](unsafe-data:image/svg+xml,y)"),
    ] {
        assert_eq!(sanitize_link_schemes(input), want, "input={input:?}");
    }
}

#[test]
fn sanitize_link_schemes_sees_through_control_characters() {
    for (input, want) in [
        ("[x](\u{1}javascript:a)", "[x](unsafe-\u{1}javascript:a)"),
        ("<\u{1}javascript:a>", "<unsafe-\u{1}javascript:a>"),
        ("[x]: \u{1}javascript:a", "[x]: unsafe-\u{1}javascript:a"),
        ("[x](java\tscript:a)", "[x](unsafe-java\tscript:a)"),
        ("[x](java\nscript:a)", "[x](unsafe-java\nscript:a)"),
        (
            "[x](j\u{7f}a\u{85}vascript\u{1b}:a)",
            "[x](unsafe-j\u{7f}a\u{85}vascript\u{1b}:a)",
        ),
        ("<data\u{0}:text/html,y>", "<unsafe-data\u{0}:text/html,y>"),
    ] {
        assert_eq!(sanitize_link_schemes(input), want, "input={input:?}");
    }
    for s in ["[x](\u{1}https://ok.test/)", "<\u{1}T>", "[x](java\u{1}"] {
        assert_eq!(sanitize_link_schemes(s), s, "input={s:?}");
    }
}

#[test]
fn sanitize_link_schemes_keeps_everything_else_byte_identical() {
    for s in [
        "[x](https://ok.test/p)",
        "[x](data:image/png;base64,AAAA)",
        "struct G<T: ?Sized> { inner: Mutex<T> }",
        r#"<a href="javascript:x">y</a>"#,
        "<script>var s='javascript:a';</script>",
        "a < b > c",
        "[x]: javascript-ish",
        "[x]javascript:a",
        "[x] javascript:a",
        "日本語のテキスト <T> です",
    ] {
        assert_eq!(sanitize_link_schemes(s), s, "input={s:?}");
    }
}

#[test]
fn safe_links_and_data_images_untouched() {
    let md = to_markdown(r#"<a href="https://ok.test/p">o</a>"#).unwrap();
    assert!(md.contains("](https://ok.test/p)"));
    assert!(!md.contains("unsafe-"));
    let md2 = to_markdown(r#"<img src="data:image/png;base64,iVBORw0KGgo=">"#).unwrap();
    assert!(!md2.contains("unsafe-"), "{md2}");
}

#[test]
fn strip_non_content_removes_script_style_noscript() {
    let html = "<style>@font-face{src:url(x)}</style><p>本文テキスト</p>\
        <script>var a=1; function f(){}</script><noscript>NOSCRIPT</noscript>";
    let out = strip_non_content(html);
    assert!(out.contains("本文テキスト"));
    assert!(!out.contains("font-face"), "{out}");
    assert!(!out.contains("function"), "{out}");
    assert!(!out.contains("NOSCRIPT"), "{out}");
    assert!(!out.to_ascii_lowercase().contains("<script"));
}

#[test]
fn strip_non_content_case_insensitive_and_attrs() {
    let html = "<SCRIPT type=\"text/js\">x</SCRIPT><STYLE>y</STYLE><p>keep</p>";
    let out = strip_non_content(html);
    assert!(out.contains("keep"));
    assert!(!out.to_ascii_lowercase().contains("script"));
    assert!(!out.to_ascii_lowercase().contains("style"));
}

#[test]
fn visible_text_len_handles_closing_tag_with_space_before_gt() {
    let html = "<script>x</script ><article><p>body</p></article>";
    assert_eq!(visible_text_len(html), 4);
}

#[test]
fn visible_text_len_handles_closing_tag_with_newline_before_gt() {
    let html = "<script>x</SCRIPT\n><article><p>body</p></article>";
    assert_eq!(visible_text_len(html), 4);
}

#[test]
fn strip_non_content_keeps_similar_tags() {
    let html = "<article>本文</article>";
    assert_eq!(strip_non_content(html), "<article>本文</article>");
}

#[test]
fn to_markdown_raw_page_has_no_script_noise() {
    let html = "<html><head><style>@font-face{a:b}</style></head>\
        <body><script>function f(){}</script><p>本文だけ残す</p></body></html>";
    let md = to_markdown(&strip_non_content(html)).unwrap();
    assert!(md.contains("本文だけ残す"));
    assert!(!md.contains("function"));
    assert!(!md.contains("font-face"));
}

#[test]
fn converts_table() {
    let html = "<table><tr><th>A</th><th>B</th></tr><tr><td>1</td><td>2</td></tr></table>";
    let md = to_markdown(html).unwrap();
    assert!(md.contains("| A | B |"));
    assert!(md.contains("| 1 | 2 |"));
}

#[test]
fn text_strips_heading_markers() {
    let html = "<h1>Title</h1><p>body</p>";
    let t = to_text(html).unwrap();
    assert!(t.contains("Title"));
    assert!(!t.contains("# Title"));
}

#[test]
fn text_preserves_literal_leading_dashes() {
    let html = "<p>-- END OF REPORT --</p>";
    let t = to_text(html).unwrap();
    assert!(t.contains("-- END OF REPORT --"), "{t:?}");
}

#[test]
fn text_unescapes_leading_backslash() {
    let html = "<p>### literal text</p>";
    let t = to_text(html).unwrap();
    assert!(!t.contains('\\'), "{t:?}");
    assert!(t.contains("### literal text"), "{t:?}");
}

#[test]
fn text_strips_list_marker() {
    let html = "<ul><li>item one</li></ul>";
    let t = to_text(html).unwrap();
    assert!(t.contains("item one"));
    assert!(!t.trim_start().starts_with('*'));
}

#[test]
fn visible_text_len_ignores_urls_and_scripts() {
    let nav: String = (0..10)
        .map(|i| {
            format!(
                "<a href=\"https://example.com/very/long/path/segment/{i:04}/page.html\">ホーム</a>"
            )
        })
        .collect();
    let html = format!(
        "<html><head><style>p{{}}</style><script>var x='xxxxxxxxxx';</script></head><body><nav>{nav}</nav><div id=\"app\"></div></body></html>"
    );
    assert_eq!(visible_text_len(&html), 39);
}

#[test]
fn visible_text_len_counts_article_text_and_entities() {
    let html = "<article><h1>見出し</h1><p>本文&amp;続き&nbsp;末尾</p></article>";
    assert_eq!(visible_text_len(html), 12);
    assert_eq!(visible_text_len(""), 0);
    assert_eq!(visible_text_len("<div id=\"app\"></div>"), 0);
    assert_eq!(visible_text_len("<p>&amp;lt;</p>"), 4);
}

#[test]
fn visible_text_len_tag_scanner_edge_cases() {
    assert_eq!(visible_text_len("<a title=\">\">x</a>"), 1);
    assert_eq!(visible_text_len("<a title='>'>x</a>"), 1);
    assert_eq!(visible_text_len("<div data-x=it's>text</div>"), 4);
    assert_eq!(visible_text_len("<a title= \">\">x</a>"), 1);
    assert_eq!(visible_text_len("a < b"), 5);
    assert_eq!(visible_text_len("<p>x<"), 2);
    assert_eq!(visible_text_len("<p>x</p><!-- <b>y</b> -->"), 1);
    assert_eq!(visible_text_len("<p>x</p><!-- y"), 1);
}

#[test]
fn unclosed_script_drops_the_rest() {
    assert_eq!(strip_non_content("a<script>b"), "a");
    assert_eq!(strip_non_content("a<scripts>b</scripts>"), "a<scripts>b</scripts>");
    assert_eq!(strip_non_content("<noscript/>x</noscript >y"), "y");
}

#[test]
fn markdown_lines_lose_their_syntax_only() {
    assert_eq!(
        markdown_to_text("# T\n> q\n- a\n*  b\n+ c\n####### seven\n\\# esc\r\nplain\n"),
        "T\nq\na\nb\nc\n####### seven\n# esc\nplain"
    );
    assert_eq!(markdown_to_text(""), "");
    assert_eq!(markdown_to_text("   ## h\n\n"), "h\n");
}

#[test]
fn autolink_after_autolink_is_checked_again() {
    assert_eq!(
        sanitize_link_schemes("<<javascript:a>"),
        "<<unsafe-javascript:a>"
    );
    assert_eq!(sanitize_link_schemes("]"), "]");
    assert_eq!(sanitize_link_schemes("]("), "](");
}

#[test]
fn plain_text_markdown_escapes_cannot_hide_dangerous_link() {
    let body = "a [x](javascript&colon;alert(1)) b\nc [y](&#32;javascript:alert(3)) d\n\n[r]: javascript\\:alert(2)\n";
    assert_eq!(
        sanitize_link_schemes(body),
        "a [x](unsafe-javascript&colon;alert(1)) b\nc [y](unsafe-&#32;javascript:alert(3)) d\n\n[r]: unsafe-javascript\\:alert(2)\n"
    );
}

#[test]
fn character_references_are_decoded_before_matching() {
    for (input, want) in [
        ("[x](&#106;avascript:a)", "[x](unsafe-&#106;avascript:a)"),
        ("[x](&#x6A;avascript:a)", "[x](unsafe-&#x6A;avascript:a)"),
        ("[x](&#X6a;avascript:a)", "[x](unsafe-&#X6a;avascript:a)"),
        ("[x](&#0000106;avascript:a)", "[x](unsafe-&#0000106;avascript:a)"),
        ("<java&Tab;script&colon;a>", "<unsafe-java&Tab;script&colon;a>"),
        ("[x](java&NewLine;script:a)", "[x](unsafe-java&NewLine;script:a)"),
        ("[x](data:text&sol;html,y)", "[x](unsafe-data:text&sol;html,y)"),
        ("[x](data:image/svg&plus;xml,y)", "[x](unsafe-data:image/svg&plus;xml,y)"),
        ("[x](\\j\\a\\vascript:a)", "[x](\\j\\a\\vascript:a)"),
        ("[x](java\\\u{1}:a)", "[x](java\\\u{1}:a)"),
        ("[x](javascript\\\u{1}:a)", "[x](unsafe-javascript\\\u{1}:a)"),
        ("[x](&#9;javascript:a)", "[x](unsafe-&#9;javascript:a)"),
    ] {
        assert_eq!(sanitize_link_schemes(input), want, "input={input:?}");
    }
    for s in [
        "[x](&#00000106;avascript:a)",
        "[x](&#x000006A;avascript:a)",
        "[x](&#0;javascript:a)",
        "[x](&colon)",
        "[x](javascript&amp;colon;a)",
        "[x](\\&colon;)",
        "<&#32;javascript:a>",
        "[x](javascript<:a)",
    ] {
        assert_eq!(sanitize_link_schemes(s), s, "input={s:?}");
    }
}

#[test]
fn removable_controls_between_bracket_and_paren_still_open_a_link() {
    assert_eq!(
        sanitize_link_schemes("[x]\u{1}(javascript:a)"),
        "[x]\u{1}(unsafe-javascript:a)"
    );
    assert_eq!(
        sanitize_link_schemes("[x]\u{7f}\u{85}: javascript:a"),
        "[x]\u{7f}\u{85}: unsafe-javascript:a"
    );
    assert_eq!(sanitize_link_schemes("[x]\n(javascript:a)"), "[x]\n(javascript:a)");
    assert_eq!(sanitize_link_schemes("[x]\u{1}"), "[x]\u{1}");
}

#[test]
fn sanitizing_twice_changes_nothing_more() {
    for s in [
        "[x](javascript:a) <vbscript:b> [r]: data:text/html,c",
        "a [x](javascript&colon;alert(1)) b\nc [y](&#32;javascript:alert(3)) d",
        "[x]\u{1}( \u{1}javascript:a)",
        "<<javascript:a>",
    ] {
        let once = sanitize_link_schemes(s);
        assert_ne!(once, s);
        assert_eq!(sanitize_link_schemes(&once), once, "input={s:?}");
    }
}

#[test]
fn tree_depth_counts_what_html5ever_nests() {
    // A `/` does not close a non-void element, and an end tag that closes
    // nothing is ignored: both nest.
    assert!(exceeds_tree_depth(&"<div/>".repeat(4000)));
    assert!(exceeds_tree_depth(&"<div></i>".repeat(4000)));
    // A quoted `>` does not end a tag.
    assert!(exceeds_tree_depth(&"<b title='>'</b>".repeat(4000)));
    // Formatting elements closed by a paragraph may be reopened.
    let reopen: String = (0..1200).map(|i| format!("<p><b id={i}></p>")).collect();
    assert!(exceeds_tree_depth(&reopen));
    // Raw text ends at its own end tag, whatever comment it seems to hold.
    let raw = format!("<textarea><!--</textarea>{}-->", "<div>".repeat(4000));
    assert!(exceeds_tree_depth(&raw));
    // Inside SVG a comment is a comment.
    let svg = format!("<svg>{}", "<g><!--</g>-->".repeat(4000));
    assert!(exceeds_tree_depth(&svg));
    // Markup whose reading depends on context is refused.
    assert!(exceeds_tree_depth("<svg><font color=red><style></style>"));
    assert!(exceeds_tree_depth("<select><style></style></select>"));
    assert!(exceeds_tree_depth("<p><script>x()</script></p>"));
}

#[test]
fn tree_depth_accepts_ordinary_pages() {
    let nested = format!("{}x{}", "<div>".repeat(900), "</div>".repeat(900));
    assert!(!exceeds_tree_depth(&nested));
    assert!(!exceeds_tree_depth(&"<ul><li>a<li>b<li>c</ul>".repeat(3000)));
    assert!(!exceeds_tree_depth(&"<table><tr><td>a<td>b<tr><td>c</table>".repeat(2000)));
    assert!(!exceeds_tree_depth(&"<p>one<p>two<br><img src=x>".repeat(3000)));
    assert!(!exceeds_tree_depth(&"<p>x<!-- <div> --></p>".repeat(3000)));
    let page = "<html><head><title>T <b></title><style>p{}</style></head><body>\
        <svg><title>icon</title><path d='M0'/></svg><textarea><div></textarea>\
        <p>text <a href='/x'>link</a></p></body></html>";
    assert!(!exceeds_tree_depth(&page.repeat(500)));
}
