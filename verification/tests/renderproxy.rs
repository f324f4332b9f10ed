use webgrab::renderproxy::{
    find_subslice, is_connect_line, parse_absolute_request, parse_connect_target, parse_host_port,
    request_line, rewrite_head, scan_head, HeadScan, MAX_HEAD_BYTES,
};

#[test]
fn parse_host_port_variants() {
    assert_eq!(
        parse_host_port("example.com:8080", 80),
        Some(("example.com".into(), 8080))
    );
    assert_eq!(
        parse_host_port("example.com", 80),
        Some(("example.com".into(), 80))
    );
    assert_eq!(parse_host_port("[::1]:443", 80), Some(("::1".into(), 443)));
    assert_eq!(parse_host_port("[fe80::1]", 80), Some(("fe80::1".into(), 80)));
    assert_eq!(parse_host_port("", 80), None);
}

#[test]
fn parse_connect_target_ok() {
    assert_eq!(
        parse_connect_target("CONNECT example.com:443 HTTP/1.1"),
        Some(("example.com".into(), 443))
    );
    assert_eq!(
        parse_connect_target("connect 169.254.169.254:80 HTTP/1.1"),
        Some(("169.254.169.254".into(), 80))
    );
    assert_eq!(parse_connect_target("GET / HTTP/1.1"), None);
}

#[test]
fn parse_absolute_request_rewrites_to_origin() {
    let (h, p, line) = parse_absolute_request("GET http://example.com/path?q=1 HTTP/1.1").unwrap();
    assert_eq!((h.as_str(), p), ("example.com", 80));
    assert_eq!(line, "GET /path?q=1 HTTP/1.1");
    let (h, p, line) = parse_absolute_request("POST http://a.test:8080 HTTP/1.1").unwrap();
    assert_eq!((h.as_str(), p), ("a.test", 8080));
    assert_eq!(line, "POST / HTTP/1.1");
    assert!(parse_absolute_request("GET ftp://a.test/x HTTP/1.1").is_none());
}

#[test]
fn rewrite_head_forces_connection_close_and_strips_proxy_headers() {
    let head = b"GET http://a.test/ HTTP/1.1\r\nHost: a.test\r\nProxy-Connection: keep-alive\r\nConnection: keep-alive\r\n\r\n";
    let out = rewrite_head(head, "GET http://a.test/ HTTP/1.1", "GET / HTTP/1.1");
    assert!(out.starts_with("GET / HTTP/1.1\r\n"));
    assert!(out.contains("Host: a.test\r\n"));
    assert!(!out.to_ascii_lowercase().contains("proxy-connection"));
    assert!(out.contains("Connection: close\r\n"));
    assert!(!out.contains("Connection: keep-alive"));
}

#[test]
fn host_port_edge_cases() {
    assert_eq!(parse_host_port("  a.test:65535 ", 1), Some(("a.test".into(), 65535)));
    assert_eq!(parse_host_port("a.test:65536", 1), None);
    assert_eq!(parse_host_port("a.test:", 1), Some(("a.test:".into(), 1)));
    assert_eq!(parse_host_port(":80", 1), Some((":80".into(), 1)));
    assert_eq!(parse_host_port("[]:80", 1), None);
    assert_eq!(parse_host_port("[::1", 1), None);
    assert_eq!(parse_host_port("[::1]:x", 1), None);
    assert_eq!(parse_host_port("a:+8", 1), Some(("a".into(), 8)));
    assert_eq!(parse_absolute_request("GET https://b.test"), Some(("b.test".into(), 443, "GET / HTTP/1.1".into())));
    assert_eq!(parse_connect_target("CONNECT"), None);
}

#[test]
fn rewritten_head_is_exact() {
    let head = b"GET http://a.test/x HTTP/1.1\r\nHost: a.test\r\nKeep-Alive: 5\r\nAccept: */*\r\n\r\n";
    assert_eq!(
        rewrite_head(head, "", "GET /x HTTP/1.1"),
        "GET /x HTTP/1.1\r\nHost: a.test\r\nAccept: */*\r\nConnection: close\r\n\r\n"
    );
}

#[test]
fn subslice_search() {
    assert_eq!(find_subslice(b"ab\r\n\r\ncd", b"\r\n\r\n"), Some(2));
    assert_eq!(find_subslice(b"abc", b""), None);
    assert_eq!(find_subslice(b"ab", b"abc"), None);
    assert_eq!(find_subslice(b"aab", b"ab"), Some(1));
    assert_eq!(find_subslice(b"xyz", b"q"), None);
}

#[test]
fn head_scan_finds_blank_line_or_limits_size() {
    assert!(matches!(scan_head(b"GET / HTTP/1.1\r\nHost: a\r\n\r\nbody"), HeadScan::Complete(23)));
    assert!(matches!(scan_head(b"GET / HTTP/1.1\r\nHost: a\r\n"), HeadScan::Incomplete));
    let big = vec![b'a'; MAX_HEAD_BYTES + 1];
    assert!(matches!(scan_head(&big), HeadScan::TooLarge));
    let exact = vec![b'a'; MAX_HEAD_BYTES];
    assert!(matches!(scan_head(&exact), HeadScan::Incomplete));
}

#[test]
fn request_line_and_connect_detection() {
    assert_eq!(request_line(b"CONNECT a:443 HTTP/1.1\r\nHost: a\r\n\r\n"), "CONNECT a:443 HTTP/1.1");
    assert_eq!(request_line(b"GET / HTTP/1.1"), "GET / HTTP/1.1");
    assert_eq!(request_line(b"G\xffT /\r\n"), "G\u{fffd}T /");
    assert!(is_connect_line("CONNECT a:443 HTTP/1.1"));
    assert!(is_connect_line("connect a:443"));
    assert!(!is_connect_line("CONNEC"));
    assert!(!is_connect_line("GET http://a/ HTTP/1.1"));
    assert!(!is_connect_line("\u{e9}CONNECT"));
}
