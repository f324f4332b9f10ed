use webgrab::error::ExitCode;
use webgrab::fetch::{
    hop_target, parse_target, redirect_target, resolved_verdict, response_step, robots_blocked,
    robots_redirect, robots_step, robots_target, RobotsStep, Step, MAX_HOPS,
};
use webgrab::netguard::IpAddress;

#[test]
fn target_parse_errors_are_usage_errors() {
    let e = parse_target("not a url").err().unwrap();
    assert_eq!(e.code, ExitCode::Usage);
    assert_eq!(e.message, "invalid URL");
    assert_eq!(e.detail.as_deref(), Some("relative URL without a base"));
    let u = parse_target("HTTPS://Example.com:443/a/b?q=1#f").unwrap();
    assert_eq!(u.href, "https://example.com/a/b?q=1#f");
    assert_eq!(u.scheme, "https");
    assert_eq!(u.host.as_deref(), Some("example.com"));
    assert_eq!(u.port, None);
    assert_eq!(u.path, "/a/b");
}

#[test]
fn hop_target_needs_web_scheme_and_host() {
    let u = parse_target("http://a.test:8080/x").unwrap();
    assert_eq!(hop_target(&u).unwrap(), ("a.test".to_string(), 8080));
    let u = parse_target("https://a.test/x").unwrap();
    assert_eq!(hop_target(&u).unwrap(), ("a.test".to_string(), 443));
    let u = parse_target("ftp://a.test/x").unwrap();
    let e = hop_target(&u).err().unwrap();
    assert_eq!(e.code, ExitCode::Usage);
    assert_eq!(e.message, "unsupported scheme: ftp");
    let u = parse_target("http://[::1]/").unwrap();
    assert_eq!(hop_target(&u).unwrap(), ("[::1]".to_string(), 80));
}

#[test]
fn redirects_resolve_against_current_url() {
    let cur = parse_target("https://a.test/dir/page").unwrap();
    let next = redirect_target(&cur, Some("../other?x=1"), 0).unwrap();
    assert_eq!(next.href, "https://a.test/other?x=1");
    let abs = redirect_target(&cur, Some("http://b.test/"), 3).unwrap();
    assert_eq!(abs.href, "http://b.test/");
    let e = redirect_target(&cur, None, 0).err().unwrap();
    assert_eq!((e.code, e.message.as_str()), (ExitCode::Network, "redirect without location"));
    let e = redirect_target(&cur, Some("http://[bad"), 0).err().unwrap();
    assert_eq!((e.code, e.message.as_str()), (ExitCode::Network, "invalid redirect location"));
    assert!(e.detail.is_some());
    let e = redirect_target(&cur, Some("/next"), MAX_HOPS - 1).err().unwrap();
    assert_eq!((e.code, e.message.as_str()), (ExitCode::Network, "too many redirects"));
}

#[test]
fn robots_location_keeps_explicit_port_only() {
    let u = parse_target("http://a.test:8080/p/q?x").unwrap();
    assert_eq!(robots_target(&u), ("http://a.test:8080/robots.txt".to_string(), "/p/q".to_string()));
    let u = parse_target("https://a.test:443/").unwrap();
    assert_eq!(robots_target(&u).0, "https://a.test/robots.txt");
}

#[test]
fn robots_redirect_is_followed_only_to_web_urls() {
    let t = "http://a.test/robots.txt";
    let (u, h, p) = robots_redirect(t, Some("https://b.test:444/robots.txt")).unwrap();
    assert_eq!((u.href.as_str(), h.as_str(), p), ("https://b.test:444/robots.txt", "b.test", 444));
    assert!(robots_redirect(t, None).is_none());
    assert!(robots_redirect(t, Some("ftp://b.test/robots.txt")).is_none());
    assert!(robots_redirect(t, Some("http://[bad")).is_none());
}

#[test]
fn robots_refusal_names_the_url() {
    let e = robots_blocked("https://a.test/x");
    assert_eq!(e.code, ExitCode::Robots);
    assert_eq!(e.message, "blocked by robots.txt");
    assert_eq!(e.detail.as_deref(), Some("url=https://a.test/x"));
}

#[test]
fn resolved_addresses_are_screened() {
    let public = IpAddress::V4([93, 184, 216, 34]);
    let lo = IpAddress::V4([127, 0, 0, 1]);
    let e = resolved_verdict("h.test", &[], false).err().unwrap();
    assert_eq!((e.code, e.message.as_str()), (ExitCode::Network, "no address for h.test"));
    assert_eq!(resolved_verdict("h.test", &[public, lo], true).unwrap(), public);
    let e = resolved_verdict("localhost", &[lo], false).err().unwrap();
    assert_eq!(e.code, ExitCode::Netguard);
    assert_eq!(e.message, "refused internal address");
    assert_eq!(
        e.detail.as_deref(),
        Some("host=localhost resolved=127.0.0.1 (use --allow-private to override)")
    );
    assert_eq!(resolved_verdict("h.test", &[public], false).unwrap(), public);
}

#[test]
fn responses_redirect_fail_or_read() {
    let cur = parse_target("https://a.test/x").unwrap();
    match response_step(&cur, 0, 302, Some("/y"), None).unwrap() {
        Step::Redirect(u) => assert_eq!(u.href, "https://a.test/y"),
        Step::Body => panic!("a 302 redirects"),
    }
    let e = response_step(&cur, 0, 403, None, Some("text/html")).err().unwrap();
    assert_eq!((e.code, e.message.as_str()), (ExitCode::Http, "HTTP 403 retryable=false hint=--render"));
    let e = response_step(&cur, 0, 503, None, None).err().unwrap();
    assert_eq!(e.message, "HTTP 503 retryable=true");
    assert!(matches!(response_step(&cur, 0, 200, None, Some("text/html; charset=utf-8")), Ok(Step::Body)));
    assert!(matches!(response_step(&cur, 0, 200, None, None), Ok(Step::Body)));
    let e = response_step(&cur, 0, 200, None, Some("application/pdf")).err().unwrap();
    assert_eq!(e.message, "unsupported content-type: application/pdf");
}

#[test]
fn robots_responses_follow_once_then_read_or_allow() {
    let t = "http://a.test/robots.txt";
    match robots_step(0, 301, t, Some("https://b.test/robots.txt")) {
        RobotsStep::Follow(u, h, p) => assert_eq!((u.href.as_str(), h.as_str(), p), ("https://b.test/robots.txt", "b.test", 443)),
        _ => panic!("the first redirect is followed"),
    }
    assert!(matches!(robots_step(1, 301, t, Some("https://b.test/robots.txt")), RobotsStep::Allowed));
    assert!(matches!(robots_step(0, 301, t, None), RobotsStep::Allowed));
    assert!(matches!(robots_step(0, 404, t, None), RobotsStep::Allowed));
    assert!(matches!(robots_step(0, 200, t, None), RobotsStep::ReadRules));
}
