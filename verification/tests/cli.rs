use webgrab::cli::{check_url, default_user_agent, extra_flags, Cli, FormatArg, DEFAULT_WAIT_MS};
use webgrab::output::RenderStatus;

#[test]
fn parses_minimal() {
    let cli = Cli::new("https://x.test");
    assert_eq!(cli.url, "https://x.test");
    assert_eq!(cli.max_chars, 24000);
    assert_eq!(cli.format, FormatArg::Markdown);
}

#[test]
fn extra_flags_excludes_start_index_and_output() {
    let mut cli = Cli::new("https://x.test");
    cli.render = true;
    cli.format = FormatArg::Json;
    cli.start_index = 5000;
    cli.output = Some("out.md".into());
    let f = extra_flags(&cli, RenderStatus::Rendered);
    assert!(f.contains(&"--render".to_string()));
    assert!(f.contains(&"--format json".to_string()));
    assert!(!f.iter().any(|s| s.contains("start-index")));
    assert!(!f.iter().any(|s| s.contains("-o") || s.contains("output")));
}

#[test]
fn auto_render_is_replaced_by_render_only_when_rendered() {
    let mut cli = Cli::new("https://x.test");
    cli.auto_render = true;
    cli.no_sandbox = true;
    cli.wait_ms = Some(3000);
    let r = extra_flags(&cli, RenderStatus::Rendered);
    assert_eq!(r.iter().filter(|s| *s == "--render").count(), 1);
    assert!(!r.iter().any(|s| s == "--auto-render"));
    assert!(r.contains(&"--no-sandbox".to_string()));
    assert!(r.contains(&"--wait-ms 3000".to_string()));
    for st in [
        RenderStatus::Static,
        RenderStatus::NoGain,
        RenderStatus::Failed("render"),
        RenderStatus::Skipped("timeout"),
    ] {
        let f = extra_flags(&cli, st);
        assert!(!f.iter().any(|s| s.contains("render")), "{st:?}: {f:?}");
        assert!(
            !f.iter().any(|s| s.contains("sandbox") || s.contains("wait-ms")),
            "{st:?}: {f:?}"
        );
    }
}

#[test]
fn explicit_render_with_auto_render_emits_render_once() {
    let mut cli = Cli::new("https://x.test");
    cli.render = true;
    cli.auto_render = true;
    let f = extra_flags(&cli, RenderStatus::Rendered);
    assert_eq!(f.iter().filter(|s| *s == "--render").count(), 1);
}

#[test]
fn wait_ms_default_is_not_reproduced_but_explicit_is() {
    let mut d = Cli::new("https://x.test");
    d.render = true;
    assert_eq!(d.wait_ms, None);
    assert!(!extra_flags(&d, RenderStatus::Rendered)
        .iter()
        .any(|s| s.contains("wait-ms")));
    let mut e = Cli::new("https://x.test");
    e.render = true;
    e.wait_ms = Some(2000);
    assert!(extra_flags(&e, RenderStatus::Rendered).contains(&"--wait-ms 2000".to_string()));
    let mut same = Cli::new("https://x.test");
    same.render = true;
    same.wait_ms = Some(DEFAULT_WAIT_MS);
    assert!(extra_flags(&same, RenderStatus::Rendered).contains(&"--wait-ms 5000".to_string()));
}

#[test]
fn value_flags_are_shell_quoted() {
    let mut cli = Cli::new("https://x.test");
    cli.render = true;
    cli.user_agent = Some("a'; id; #".into());
    cli.chrome_path = Some("/opt/x y".into());
    let f = extra_flags(&cli, RenderStatus::Rendered);
    assert!(f.contains(&r"--user-agent 'a'\''; id; #'".to_string()), "{f:?}");
    assert!(f.contains(&"--chrome-path '/opt/x y'".to_string()), "{f:?}");
}

#[test]
fn default_ua_has_product_token() {
    assert!(default_user_agent().starts_with("webgrab/"));
}

#[test]
fn all_flags_in_order() {
    let mut cli = Cli::new("https://x.test");
    cli.format = FormatArg::Text;
    cli.max_chars = 10;
    cli.render = true;
    cli.raw = true;
    cli.no_tokens = true;
    cli.fence = true;
    cli.allow_private = true;
    cli.wait_ms = Some(1);
    cli.no_sandbox = true;
    cli.chrome_path = Some("c".into());
    cli.timeout = 5;
    cli.no_robots = true;
    cli.max_bytes = 7;
    cli.user_agent = Some("u".into());
    assert_eq!(
        extra_flags(&cli, RenderStatus::Static),
        vec![
            "--format text",
            "--max-chars 10",
            "--render",
            "--raw",
            "--no-tokens",
            "--fence",
            "--allow-private",
            "--wait-ms 1",
            "--no-sandbox",
            "--chrome-path 'c'",
            "--timeout 5",
            "--no-robots",
            "--max-bytes 7",
            "--user-agent 'u'",
        ]
    );
    assert!(extra_flags(&Cli::new("https://x.test"), RenderStatus::Static).is_empty());
}

#[test]
fn url_argument_is_checked_before_fetching() {
    assert!(check_url("https://example.com/").is_ok());
    assert_eq!(
        check_url("ftp://example.com/x").unwrap_err(),
        vec!["webgrab: error=usage unsupported scheme: ftp (only http/https)"]
    );
    let lines = check_url("example.com").unwrap_err();
    assert_eq!(lines[0], "webgrab: error=usage invalid URL");
    assert_eq!(lines[1], "relative URL without a base");
}
