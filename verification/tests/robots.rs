use webgrab::robots::robots_verdict;
use webgrab::robots::{body_allows, Robots};

#[test]
fn empty_disallow_allows_all() {
    let r = Robots::parse("User-agent: *\nDisallow:");
    assert!(r.allowed("/anything"));
}

#[test]
fn prefix_disallow() {
    let r = Robots::parse("User-agent: *\nDisallow: /private");
    assert!(!r.allowed("/private/x"));
    assert!(r.allowed("/public"));
}

#[test]
fn product_token_group_wins_over_star() {
    let txt = "User-agent: *\nDisallow: /\n\nUser-agent: webgrab\nDisallow: /admin";
    let r = Robots::parse(txt);
    assert!(r.allowed("/public"));
    assert!(!r.allowed("/admin/panel"));
}

#[test]
fn case_insensitive_agent() {
    let r = Robots::parse("User-agent: WebGrab\nDisallow: /x");
    assert!(!r.allowed("/x/y"));
}

#[test]
fn star_group_fallback() {
    let r =
        Robots::parse("User-agent: googlebot\nDisallow: /\n\nUser-agent: *\nDisallow: /secret");
    assert!(r.allowed("/open"));
    assert!(!r.allowed("/secret/z"));
}

#[test]
fn wildcard_star() {
    let r = Robots::parse("User-agent: *\nDisallow: /*/private");
    assert!(!r.allowed("/a/private"));
    assert!(!r.allowed("/foo/private/x"));
    assert!(r.allowed("/a/public"));
}

#[test]
fn dollar_anchor() {
    let r = Robots::parse("User-agent: *\nDisallow: /*.pdf$");
    assert!(!r.allowed("/doc.pdf"));
    assert!(r.allowed("/doc.pdf.html"));
}

#[test]
fn allow_overrides_disallow_same_length() {
    let r = Robots::parse("User-agent: *\nDisallow: /a\nAllow: /a");
    assert!(r.allowed("/a/b"));
}

#[test]
fn longer_disallow_wins() {
    let r = Robots::parse("User-agent: *\nAllow: /a\nDisallow: /a/secret");
    assert!(r.allowed("/a/public"));
    assert!(!r.allowed("/a/secret/x"));
}

#[test]
fn no_matching_group_allows_all() {
    let r = Robots::parse("User-agent: googlebot\nDisallow: /");
    assert!(r.allowed("/anything"));
}

#[test]
fn comments_crlf_and_consecutive_agents_form_one_group() {
    let txt = "# robots\r\nUser-agent: other\r\nUser-agent: webgrab # us\r\nDisallow: /x # no\r\n";
    let r = Robots::parse(txt);
    assert!(!r.allowed("/x/1"));
    assert!(r.allowed("/y"));
}

#[test]
fn empty_robots_allows_everything() {
    let r = Robots::parse("");
    assert!(r.allowed("/"));
}

#[test]
fn fetched_body_is_read_lossily_then_matched() {
    let body = b"User-agent: *\nDisallow: /private\n\xff\n";
    assert!(!body_allows(body, "/private/x"));
    assert!(body_allows(body, "/public"));
    assert!(body_allows(b"", "/anything"));
}

#[test]
fn anchored_glob_places_the_last_piece_at_the_end() {
    let r = Robots::parse("User-agent: *\nDisallow: /*.pdf$\nDisallow: /*/private\n");
    assert!(!r.allowed("/a.pdf.pdf"));
    assert!(!r.allowed("/a.pdf"));
    assert!(r.allowed("/doc.pdf.html"));
    assert!(!r.allowed("/foo/private/x"));
    let e = Robots::parse("User-agent: *\nDisallow: /exact$\n");
    assert!(!e.allowed("/exact"));
    assert!(e.allowed("/exact/more"));
}

#[test]
fn robots_without_a_body_allow_the_page() {
    assert!(robots_verdict(None, "/private"));
    assert!(!robots_verdict(Some(b"User-agent: *\nDisallow: /private\n".as_slice()), "/private"));
    assert!(robots_verdict(Some(b"User-agent: *\nDisallow: /private\n".as_slice()), "/public"));
}
