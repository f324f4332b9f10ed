use webgrab::error::ExitCode;
use webgrab::extract::{exceeds_nesting_depth, extract, extracted_from, Readout};

#[test]
fn deeply_nested_html_is_rejected_fast() {
    let deep = format!("{}x{}", "<div>".repeat(5000), "</div>".repeat(5000));
    let e = extract(&deep, "https://example.com");
    assert!(e.is_err());
}

#[test]
fn normal_depth_still_extracts() {
    let html = format!(
        "<html><body><article>{}<p>{}</p></article></body></html>",
        "<div>".repeat(50).to_string() + &"</div>".repeat(50),
        "これは十分な長さの本文です。抽出のために意味のある文章を複数入れます。さらに続けます。"
    );
    assert!(extract(&html, "https://example.com").is_ok());
}

#[test]
fn extracts_title_and_published_time() {
    let doc = r#"<html><head><title>記事タイトル</title>
      <meta property="article:published_time" content="2026-01-02T03:04:05Z">
      </head><body><article><h1>記事タイトル</h1>
      <p>これは十分な長さの本文です。抽出アルゴリズムが本文と判定するために、意味のある文章を複数入れておきます。さらに文章を続けます。</p>
      </article></body></html>"#;
    let e = extract(doc, "https://example.com").unwrap();
    assert_eq!(e.published_time.as_deref(), Some("2026-01-02T03:04:05Z"));
    assert!(e.content_html.contains("本文"));
}

#[test]
fn nesting_depth_scan() {
    assert!(!exceeds_nesting_depth("<div><div></div></div>", 2));
    assert!(exceeds_nesting_depth("<div><div><div>", 2));
    // Void, self-closing, comments and closing tags do not deepen.
    assert!(!exceeds_nesting_depth("<div><br><img/><!-- x --><p/></div><div>", 1));
    assert!(!exceeds_nesting_depth("a < b", 0));
    // A comment is skipped by its `<!` only: a tag inside it still counts.
    assert!(exceeds_nesting_depth("<!-- <p> -->", 0));
    let e = extract(&"<p>".repeat(1001), "https://x.test").err().unwrap();
    assert_eq!(e.code, ExitCode::Http);
}

#[test]
fn extractor_outcomes_map_to_results() {
    let a = extracted_from(Readout::Article {
        title: "  ".into(),
        published_time: Some("t".into()),
        content: "<p>c</p>".into(),
    })
    .ok()
    .unwrap();
    assert!(a.title.is_none());
    assert_eq!(a.published_time.as_deref(), Some("t"));
    assert_eq!(a.content_html, "<p>c</p>");
    let g = extracted_from(Readout::GrabFailed).ok().unwrap();
    assert!(g.grab_failed && g.content_html.is_empty());
    let e = extracted_from(Readout::ParseFailed("boom\nline".into())).err().unwrap();
    assert_eq!(e.code, ExitCode::Internal);
    assert_eq!(e.message, "readability parse failed");
    assert_eq!(e.detail.as_deref(), Some("boom line"));
}

#[test]
fn self_closed_divs_nest_and_are_refused_before_extraction() {
    let deep = "<div/>".repeat(4000);
    let e = extract(&deep, "https://x.test/").err().unwrap();
    assert_eq!(e.code, ExitCode::Http);
    assert_eq!(e.message, "html too deeply nested for extraction");
}
