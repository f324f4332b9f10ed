use webgrab::error::{ExitCode, WebgrabError};
use webgrab::netguard::IpAddress;
use webgrab::render::{
    after_content, after_dom_length, after_wait, goto_failure, FinishStep,
    dom_over_budget, effective_cap, eval_limit, exceed_msg, finalize, netguard_detail,
    netguard_warn_lines, proxy_args, render_interrupt, resolve_final_url, screen_request, Screen,
};
use webgrab::renderproxy::hostcache::{classify, Resolution};

#[test]
fn proxy_args_have_no_leading_dashes() {
    let args = proxy_args(12345);
    assert_eq!(args[0], "proxy-server=127.0.0.1:12345");
    assert_eq!(args[1], "proxy-bypass-list=<-loopback>");
    for a in &args {
        assert!(!a.starts_with('-'), "{a}");
    }
}

#[test]
fn exit8_takes_precedence_over_any_drive_result() {
    let (r, _) = finalize(true, None, Err(WebgrabError::new(ExitCode::Http, "x")), 0, 0, false, 0, 0);
    assert_eq!(r.unwrap_err().code, ExitCode::Netguard);
    let (r2, _) = finalize(true, None, Ok("<html></html>".into()), 0, 0, false, 0, 0);
    assert_eq!(r2.unwrap_err().code, ExitCode::Netguard);
    assert!(finalize(false, None, Ok("<html></html>".into()), 0, 0, false, 0, 0).0.is_ok());
}

#[test]
fn proxy_exceeded_maps_to_http_exit_when_not_blocked() {
    let (r, _) = finalize(false, None, Ok("<html></html>".into()), 0, 0, true, 12_000, 10_000);
    let e = r.unwrap_err();
    assert_eq!(e.code, ExitCode::Http);
    assert!(e
        .message
        .starts_with("render download exceeds remaining --max-bytes budget (12000 of 10000)"));
}

#[test]
fn main_blocked_takes_precedence_over_proxy_exceeded() {
    let (r, _) = finalize(true, None, Ok("<html></html>".into()), 0, 0, true, 12_000, 10_000);
    assert_eq!(r.unwrap_err().code, ExitCode::Netguard);
}

#[test]
fn netguard_detail_carries_ip_and_range() {
    let denied = (
        "meta.test".to_string(),
        Resolution::Denied { ip: IpAddress::V4([169, 254, 169, 254]), range: "link-local" },
    );
    assert_eq!(
        netguard_detail(Some(&denied), 2, 1),
        "layer=intercept host=meta.test resolved=169.254.169.254 range=link-local (intercept=2 proxy=1; use --allow-private to override)"
    );
    let unres = ("x.invalid".to_string(), Resolution::Unresolved);
    assert_eq!(
        netguard_detail(Some(&unres), 1, 0),
        "layer=intercept host=x.invalid resolved=unresolved (intercept=1 proxy=0; use --allow-private to override)"
    );
    let to = ("slow.test".to_string(), Resolution::Timeout);
    assert_eq!(
        netguard_detail(Some(&to), 1, 0),
        "layer=intercept host=slow.test resolved=timeout (intercept=1 proxy=0; use --allow-private to override)"
    );
    assert_eq!(
        netguard_detail(None, 0, 0),
        "layer=intercept main-navigation blocked (intercept=0 proxy=0; use --allow-private to override)"
    );
}

#[test]
fn finalize_reports_blocked_layers_and_detail() {
    let denied = (
        "v6.test".to_string(),
        Resolution::Denied { ip: IpAddress::V6([0xfe80, 0, 0, 0, 0, 0, 0, 1]), range: "link-local" },
    );
    let (r, lines) = finalize(true, Some(&denied), Ok(String::new()), 3, 2, false, 0, 0);
    assert_eq!(
        lines,
        vec![
            "webgrab: warn=netguard-blocked layer=intercept count=3",
            "webgrab: warn=netguard-blocked layer=proxy count=2",
        ]
    );
    let e = r.unwrap_err();
    assert_eq!(e.message, "refused internal address during render");
    assert_eq!(
        e.detail.as_deref(),
        Some("layer=intercept host=v6.test resolved=fe80::1 range=link-local (intercept=3 proxy=2; use --allow-private to override)")
    );
    let (ok, none) = finalize(false, None, Ok("page".into()), 0, 0, false, 0, 0);
    assert_eq!(ok.unwrap(), "page");
    assert!(none.is_empty());
}

#[test]
fn exceed_message_names_the_measure() {
    assert_eq!(
        exceed_msg(12_000, 10_000, ""),
        "render download exceeds remaining --max-bytes budget (12000 of 10000)"
    );
    assert_eq!(
        exceed_msg(5, 4, "dom"),
        "render download exceeds remaining --max-bytes budget (5 of 4) [dom]"
    );
}

#[test]
fn eval_limit_is_clamped_by_both_deadline_and_reserve() {
    assert_eq!(eval_limit(4000, 3000), 4000);
    assert_eq!(eval_limit(10000, 1000), 3000);
    assert_eq!(eval_limit(10000, 0), 2000);
    assert_eq!(eval_limit(0, 5000), 0);
    assert_eq!(eval_limit(u64::MAX, u64::MAX), u64::MAX);
}

#[test]
fn effective_cap_is_clamped_by_deadline() {
    let now = 1_000_000;
    let deadline = now + 3500;
    assert_eq!(effective_cap(5000, deadline, now), 1500);
    assert_eq!(effective_cap(1000, deadline, now), 1000);
    assert_eq!(effective_cap(5000, now, now), 0);
}

#[test]
fn netguard_warn_lines_only_for_nonzero_layers() {
    assert!(netguard_warn_lines(0, 0).is_empty());
    assert_eq!(
        netguard_warn_lines(2, 0),
        vec!["webgrab: warn=netguard-blocked layer=intercept count=2"]
    );
    assert_eq!(
        netguard_warn_lines(1, 3),
        vec![
            "webgrab: warn=netguard-blocked layer=intercept count=1",
            "webgrab: warn=netguard-blocked layer=proxy count=3",
        ]
    );
}

#[test]
fn final_url_adopts_only_web_urls_without_userinfo() {
    let req = "https://req.test/a";
    assert_eq!(resolve_final_url(req, Some("https://docs.rs/tokio/latest/tokio/")), "https://docs.rs/tokio/latest/tokio/");
    assert_eq!(resolve_final_url(req, Some("http://a.test/x?y#z")), "http://a.test/x?y#z");
    assert_eq!(resolve_final_url(req, None), req);
    assert_eq!(resolve_final_url(req, Some("about:blank")), req);
    assert_eq!(resolve_final_url(req, Some("chrome-error://chromewebdata/")), req);
    assert_eq!(resolve_final_url(req, Some("javascript:alert(1)")), req);
    assert_eq!(resolve_final_url(req, Some("not a url")), req);
    assert_eq!(resolve_final_url(req, Some("https://a.test/x\ny")), "https://a.test/xy");
    assert_eq!(resolve_final_url(req, Some("https://user:pw@a.test/p")), "https://a.test/p");
    let base = "https://a.test/";
    let exact = format!("{base}{}", "x".repeat(8192 - base.len()));
    assert_eq!(resolve_final_url(req, Some(&exact)), exact);
    let over = format!("{exact}y");
    assert_eq!(resolve_final_url(req, Some(&over)), req);
}

#[test]
fn allow_private_short_circuits() {
    assert!(matches!(screen_request("http://127.0.0.1/", true), Screen::Pass));
}

#[test]
fn non_http_scheme_is_passed_through() {
    assert!(matches!(screen_request("data:text/html,hi", false), Screen::Pass));
}

#[test]
fn file_scheme_is_denied_fail_closed() {
    for allow in [false, true] {
        match screen_request("file:///etc/passwd", allow) {
            Screen::Block(h, Resolution::Unresolved) => assert_eq!(h, "file"),
            _ => panic!("file: must be blocked"),
        }
    }
    for u in ["blob:https://a.test/1234", "about:blank"] {
        assert!(matches!(screen_request(u, false), Screen::Pass), "{u}");
    }
}

#[test]
fn literal_internal_ip_denied_in_render() {
    match screen_request("http://169.254.169.254/latest/meta-data/", false) {
        Screen::Check(h, p) => {
            assert_eq!((h.as_str(), p), ("169.254.169.254", 80));
            let r = classify(&[IpAddress::V4([169, 254, 169, 254])], p, false);
            assert!(matches!(r, Resolution::Denied { range: "link-local", .. }));
        }
        _ => panic!("an http URL with a host is checked"),
    }
    match screen_request("https://Example.COM:8443/x", false) {
        Screen::Check(h, p) => assert_eq!((h.as_str(), p), ("example.com", 8443)),
        _ => panic!("an https URL with a host is checked"),
    }
    assert!(matches!(screen_request("::not a url", false), Screen::Pass));
    match screen_request("http://[::1]/", false) {
        Screen::Check(h, p) => {
            assert_eq!((h.as_str(), p), ("[::1]", 80));
            let r = classify(&[IpAddress::V6([0, 0, 0, 0, 0, 0, 0, 1])], p, false);
            assert!(matches!(r, Resolution::Denied { range: "loopback", .. }));
        }
        _ => panic!("an IPv6 literal host is checked"),
    }
}

#[test]
fn interruptions_put_netguard_before_budget() {
    let e = render_interrupt(true, true, 9, 5).unwrap();
    assert_eq!(e.code, ExitCode::Netguard);
    let e = render_interrupt(false, true, 9, 5).unwrap();
    assert_eq!(e.code, ExitCode::Http);
    assert_eq!(e.message, "render download exceeds remaining --max-bytes budget (9 of 5) [network]");
    assert!(render_interrupt(false, false, 9, 5).is_none());
}

#[test]
fn dom_must_fit_what_is_left_of_the_budget() {
    assert!(dom_over_budget(60, 100, 40, 100).is_none());
    let e = dom_over_budget(61, 100, 40, 100).unwrap();
    assert_eq!(e.code, ExitCode::Http);
    assert_eq!(e.message, "render download exceeds remaining --max-bytes budget (61 of 100) [dom]");
    assert!(dom_over_budget(1, 10, 20, 10).is_some(), "nothing left after downloads");
}

#[test]
fn render_end_steps_in_order() {
    assert!(matches!(after_wait(false, false, 0, 100), FinishStep::MeasureDom));
    match after_wait(true, true, 500, 100) {
        FinishStep::Fail(e) => assert_eq!(e.code, ExitCode::Netguard),
        _ => panic!("blocked main navigation must fail"),
    }
    match after_wait(false, true, 500, 100) {
        FinishStep::Fail(e) => assert_eq!(e.code, ExitCode::Http),
        _ => panic!("budget must fail"),
    }
    assert!(matches!(after_dom_length(None, 100, 90, 100), FinishStep::ReadContent));
    assert!(matches!(after_dom_length(Some(10), 100, 90, 100), FinishStep::ReadContent));
    match after_dom_length(Some(11), 100, 90, 100) {
        FinishStep::Fail(e) => assert_eq!(e.code, ExitCode::Http),
        _ => panic!("dom over budget must fail"),
    }
    assert!(matches!(after_content(true, false), FinishStep::Accept));
    match after_content(false, true) {
        FinishStep::Fail(e) => assert_eq!(e.message, "content read failed or timed out"),
        _ => panic!("failed read must fail"),
    }
    match after_content(true, true) {
        FinishStep::Fail(e) => assert_eq!(e.code, ExitCode::Netguard),
        _ => panic!("blocked main navigation must fail"),
    }
    let e = goto_failure(false, "net::ERR\nX");
    assert_eq!(e.code, ExitCode::Render);
    assert_eq!(e.message, "navigation failed");
    assert_eq!(e.detail.as_deref(), Some("net::ERR X"));
    assert_eq!(goto_failure(true, "x").code, ExitCode::Netguard);
}
