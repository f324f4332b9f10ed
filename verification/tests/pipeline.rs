use webgrab::cli::{Cli, FormatArg};
use webgrab::error::{ExitCode, WebgrabError};
use webgrab::extract::Extracted;
use webgrab::output::RenderStatus;
use webgrab::pipeline::{
    assemble, build_stage, choose_result, escalation_failed, escalation_reason, failure_detail,
    fallback_reason, hint_for, ignored_flag_warning, is_short_content, plain_stage,
    remaining_budget, settle_escalation, should_escalate, skipped_escalation, Acquired,
    stage_of, CharCounts, Phase, Route, SkipReason,
};

#[test]
fn plain_stage_passes_text_through() {
    let s = plain_stage("行1\nMutex<T>\n[x](javascript:a)\n");
    assert_eq!(s.body, "行1\nMutex<T>\n[x](unsafe-javascript:a)\n");
    assert_eq!(s.visible, s.body.chars().count());
    assert!(s.title.is_none());
    assert!(s.published.is_none());
    assert_eq!(s.route, Route::Plain);
    let empty = plain_stage("");
    assert_eq!(empty.body, "");
    assert_eq!(empty.visible, 0);
}

#[test]
fn escalation_reason_thresholds() {
    assert_eq!(escalation_reason(0), Some("empty"));
    assert_eq!(escalation_reason(199), Some("short"));
    assert_eq!(escalation_reason(200), None);
}

#[test]
fn remaining_budget_skips_below_thresholds() {
    let t = 30_000;
    assert!(matches!(
        remaining_budget(t, 26_000, 20 << 20, 0),
        Err(SkipReason::Timeout)
    ));
    assert!(matches!(
        remaining_budget(t, 1_000, 300 * 1024, 100 * 1024),
        Err(SkipReason::MaxBytes)
    ));
    let (rt, rb) = remaining_budget(t, 10_000, 20 << 20, 1 << 20).unwrap();
    assert_eq!(rt, 20_000);
    assert_eq!(rb, (20 << 20) - (1 << 20));
    assert!(
        matches!(
            remaining_budget(t, 40_000, 20 << 20, 0),
            Err(SkipReason::Timeout)
        ),
        "elapsed past the budget counts as zero"
    );
}

#[test]
fn choose_result_prefers_longer() {
    assert_eq!(choose_result(150, 400), RenderStatus::Rendered);
    assert_eq!(choose_result(150, 150), RenderStatus::NoGain);
    assert_eq!(choose_result(150, 20), RenderStatus::NoGain);
}

#[test]
fn fallback_reason_by_phase() {
    let e8 = WebgrabError::new(ExitCode::Netguard, "x");
    let e7 = WebgrabError::new(ExitCode::Render, "x");
    let e4 = WebgrabError::new(ExitCode::Http, "x");
    let e1 = WebgrabError::new(ExitCode::Internal, "x");
    assert_eq!(fallback_reason(Phase::Render, &e8), None);
    assert_eq!(fallback_reason(Phase::Render, &e7), Some("render"));
    assert_eq!(fallback_reason(Phase::Render, &e4), Some("max-bytes"));
    assert_eq!(fallback_reason(Phase::Render, &e1), None);
    assert_eq!(fallback_reason(Phase::Extract, &e4), Some("extract"));
    assert_eq!(fallback_reason(Phase::Extract, &e1), Some("extract"));
}

#[test]
fn failure_detail_trims_trailing_space_when_no_detail() {
    let e = WebgrabError::new(ExitCode::Render, "chrome launch failed");
    assert_eq!(failure_detail(&e), "chrome launch failed");
    let e2 = WebgrabError::new(ExitCode::Render, "chrome launch failed")
        .with_detail("No such file or directory");
    assert_eq!(
        failure_detail(&e2),
        "chrome launch failed No such file or directory"
    );
}

#[test]
fn hint_follows_render_status() {
    assert_eq!(
        hint_for(RenderStatus::Static),
        ("--render/--raw", "--render or --raw")
    );
    assert_eq!(
        hint_for(RenderStatus::Skipped("timeout")),
        ("--render/--raw", "--render or --raw")
    );
    assert_eq!(hint_for(RenderStatus::Rendered), ("--raw", "--raw"));
    assert_eq!(hint_for(RenderStatus::Failed("render")), ("--raw", "--raw"));
    assert_eq!(hint_for(RenderStatus::NoGain), ("--raw", "--raw"));
}

#[test]
fn short_content_notice_boundaries() {
    assert!(is_short_content(Route::Extracted, 1, 199));
    assert!(!is_short_content(Route::Extracted, 1, 200));
    assert!(!is_short_content(Route::Extracted, 0, 199));
    assert!(!is_short_content(Route::Raw, 1, 199));
    assert!(!is_short_content(Route::Plain, 1, 199));
}

fn acquired(body: &str, route: Route) -> Acquired {
    Acquired {
        stage: webgrab::pipeline::Stage {
            title: Some("T".into()),
            published: None,
            body: body.into(),
            visible: body.chars().count(),
            route,
            grab_failed: false,
        },
        final_url: "https://x.test/p".into(),
        consumed: 10,
    }
}

fn counts() -> CharCounts {
    CharCounts {
        static_chars: Some(3),
        rendered_chars: None,
    }
}

#[test]
fn blank_extracted_body_is_exit_6_with_hint() {
    let cli = Cli::new("https://x.test/p");
    let e = assemble(&cli, acquired(" \n ", Route::Extracted), RenderStatus::Static, counts())
        .err()
        .unwrap();
    assert_eq!(e.code, ExitCode::Empty);
    assert_eq!(
        e.stderr_lines(),
        vec![
            "webgrab: error=empty hint=--render/--raw".to_string(),
            "empty body extracted; retry with --render or --raw".to_string(),
        ]
    );
    // --raw and text/plain bodies are exempt.
    assert!(assemble(&cli, acquired(" ", Route::Raw), RenderStatus::Static, counts()).is_ok());
    assert!(assemble(&cli, acquired("", Route::Plain), RenderStatus::Static, counts()).is_ok());
}

#[test]
fn short_extracted_body_gets_notice_and_marker() {
    let mut cli = Cli::new("https://x.test/p");
    cli.no_tokens = true;
    let a = assemble(&cli, acquired("abc", Route::Extracted), RenderStatus::Rendered, counts())
        .ok()
        .unwrap();
    assert_eq!(a.warnings, vec!["webgrab: warn=short-content chars=3 hint=--raw"]);
    assert_eq!(
        a.output,
        "Title: T\nURL Source: https://x.test/p\nTokens: - (chars: 3 / total: 3)\n\n\
         Markdown Content:\nabc\n[webgrab:short-content 3 chars — if unexpected, retry with --raw]"
    );
}

#[test]
fn assemble_pages_the_body_and_reproduces_flags() {
    let mut cli = Cli::new("https://x.test/p");
    cli.no_tokens = true;
    cli.max_chars = 4;
    cli.format = FormatArg::Text;
    let body = "x".repeat(250);
    let a = assemble(&cli, acquired(&body, Route::Extracted), RenderStatus::Static, counts())
        .ok()
        .unwrap();
    assert!(a.warnings.is_empty());
    assert_eq!(
        a.output,
        "xxxx\n[webgrab:truncated chars 0-4 of 250 — continue: webgrab 'https://x.test/p' \
         --format text --max-chars 4 --no-tokens --start-index 4]"
    );
}

#[test]
fn escalation_decisions() {
    let mut cli = Cli::new("https://x.test");
    assert_eq!(should_escalate(&cli, Route::Extracted, 10), None);
    cli.auto_render = true;
    assert_eq!(should_escalate(&cli, Route::Extracted, 10), Some("short"));
    assert_eq!(should_escalate(&cli, Route::Raw, 0), Some("empty"));
    assert_eq!(should_escalate(&cli, Route::Plain, 0), None);
    assert_eq!(should_escalate(&cli, Route::Extracted, 500), None);
    cli.render = true;
    assert_eq!(should_escalate(&cli, Route::Extracted, 10), None);

    let (esc, line) = skipped_escalation(SkipReason::MaxBytes);
    assert_eq!(esc.status, RenderStatus::Skipped("max-bytes"));
    assert_eq!(line, "webgrab: warn=auto-render-skipped reason=max-bytes");

    let e = WebgrabError::new(ExitCode::Render, "chrome launch failed");
    let (esc, lines) = escalation_failed(Phase::Render, e).ok().unwrap();
    assert_eq!(esc.status, RenderStatus::Failed("render"));
    assert_eq!(
        lines,
        vec![
            "webgrab: warn=auto-render-failed reason=render".to_string(),
            "chrome launch failed".to_string(),
        ]
    );
    let e8 = WebgrabError::new(ExitCode::Netguard, "refused");
    assert_eq!(
        escalation_failed(Phase::Render, e8).err().unwrap().code,
        ExitCode::Netguard
    );
}

#[test]
fn longer_render_replaces_the_static_body() {
    let mut acq = acquired("short", Route::Extracted);
    let longer = acquired("much longer body", Route::Extracted).stage;
    let (esc, warn) = settle_escalation(&mut acq, longer, "https://x.test/final".into());
    assert_eq!(esc.status, RenderStatus::Rendered);
    assert_eq!(esc.rendered_chars, Some(16));
    assert!(warn.is_none());
    assert_eq!(acq.stage.body, "much longer body");
    assert_eq!(acq.final_url, "https://x.test/final");

    let mut acq2 = acquired("static body", Route::Extracted);
    let shorter = acquired("tiny", Route::Extracted).stage;
    let (esc, warn) = settle_escalation(&mut acq2, shorter, "https://x.test/other".into());
    assert_eq!(esc.status, RenderStatus::NoGain);
    assert_eq!(warn.as_deref(), Some("webgrab: warn=auto-render-no-gain reason=shorter"));
    assert_eq!(acq2.stage.body, "static body");
    assert_eq!(acq2.final_url, "https://x.test/p");
}

#[test]
fn wait_ms_without_render_warns() {
    let mut cli = Cli::new("https://x.test");
    assert!(ignored_flag_warning(&cli).is_none());
    cli.wait_ms = Some(100);
    assert_eq!(
        ignored_flag_warning(&cli).as_deref(),
        Some("webgrab: warn=flag-ignored flag=--wait-ms")
    );
    cli.auto_render = true;
    assert!(ignored_flag_warning(&cli).is_none());
}

#[test]
fn raw_stage_strips_scripts_and_measures_visible_text() {
    let mut cli = Cli::new("https://x.test");
    cli.raw = true;
    cli.format = FormatArg::Html;
    let st = build_stage(&cli, "<p>hi</p><script>x()</script>", "https://x.test")
        .ok()
        .unwrap();
    assert_eq!(st.body, "<p>hi</p>");
    assert_eq!(st.visible, 2);
    assert_eq!(st.route, Route::Raw);
}

#[test]
fn stage_of_converts_the_extracted_article() {
    let cli = Cli::new("https://x.test/");
    let ex = Extracted {
        title: Some("T".into()),
        published_time: Some("2026-01-02".into()),
        content_html: "<p>Hello <b>world</b></p>".into(),
        grab_failed: false,
    };
    let st = stage_of(&cli, ex).unwrap();
    assert_eq!(st.body.trim(), "Hello **world**");
    assert_eq!(st.title.as_deref(), Some("T"));
    assert_eq!(st.published.as_deref(), Some("2026-01-02"));
    assert_eq!(st.visible, 11);
    assert_eq!(st.route, Route::Extracted);
    let mut html_cli = Cli::new("https://x.test/");
    html_cli.format = FormatArg::Html;
    let deep = format!("{}x{}", "<div>".repeat(3500), "</div>".repeat(3500));
    let ex = Extracted { title: None, published_time: None, content_html: deep.clone(), grab_failed: false };
    assert_eq!(stage_of(&html_cli, ex).unwrap().body, deep, "html needs no conversion");
    let ex = Extracted { title: None, published_time: None, content_html: deep, grab_failed: false };
    let e = stage_of(&cli, ex).err().unwrap();
    assert_eq!(e.code, ExitCode::Http);
    assert_eq!(e.message, "html too deeply nested for conversion");
}

#[test]
fn raw_pages_too_deep_to_convert_are_refused() {
    let mut cli = Cli::new("https://x.test/");
    cli.raw = true;
    let deep = format!("{}x{}", "<div>".repeat(5000), "</div>".repeat(5000));
    let e = build_stage(&cli, &deep, "https://x.test/").err().unwrap();
    assert_eq!(e.code, ExitCode::Http);
    let ok = build_stage(&cli, "<p>fine<script>x()</script></p>", "https://x.test/").unwrap();
    assert_eq!(ok.body.trim(), "fine");
}
