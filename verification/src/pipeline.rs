//! The pipeline's decisions: the static phase, whether to escalate to a
//! render and whether to keep its result, and the assembly of the output.
//! The caller performs the fetches and renders these decisions ask for and
//! prints the warning lines they return.
use crate::budget::{slice, sliced, views, Slice};
use crate::cli::{extra_flags, flags_of, Cli, FormatArg, DEFAULT_WAIT_MS};
use crate::convert::nesting::{convertible, exceeds_tree_depth};
use crate::convert::{
    htmd_markdown, sanitize_link_schemes, sanitized, strip_non_content, stripped,
    text_of, to_markdown, to_text, visible_len, visible_text_len,
};
use crate::error::{detail_from, sanitize_detail, ExitCode, WebgrabError};
use crate::extract::{
    extract, extraction_of, readability_readout, too_deep_from, Extracted, MAX_NESTING_DEPTH,
};
use crate::fetch::FetchOptions;
use crate::output::{render, rendered, Format, Meta, RenderStatus};
use crate::render::RenderOptions;
use crate::text::{chars_of, decimal, push_decimal, push_str, string_of, trim, trim_end};
use crate::tokens::{count, o200k_token_count};
use vstd::prelude::*;

verus! {

broadcast use vstd::string::group_string_axioms;

/// Bodies shorter than this are short.
pub const SHORT_CONTENT_CHARS: usize = 200;

/// A render is skipped when less time than this is left (milliseconds).
pub const SKIP_TIMEOUT_MIN_MS: u64 = 5000;

/// A render is skipped when fewer bytes than this are left (256 KiB).
pub const SKIP_BYTES_MIN: u64 = 262144;

/// Where a render-phase error happened.
#[derive(Debug, Clone, Copy, PartialEq, Eq)]
pub enum Phase {
    Render,
    Extract,
}

/// Why an escalation was skipped.
#[derive(Debug, Clone, Copy, PartialEq, Eq)]
pub enum SkipReason {
    Timeout,
    MaxBytes,
}

impl SkipReason {
    pub open spec fn spec_token(self) -> Seq<char> {
        match self {
            SkipReason::Timeout => "timeout"@,
            SkipReason::MaxBytes => "max-bytes"@,
        }
    }

    pub fn token(self) -> (r: &'static str)
        ensures
            r@ == self.spec_token(),
    {
        match self {
            SkipReason::Timeout => "timeout",
            SkipReason::MaxBytes => "max-bytes",
        }
    }
}

pub open spec fn spec_escalation_reason(visible: usize) -> Option<Seq<char>> {
    if visible == 0 {
        Some("empty"@)
    } else if visible < SHORT_CONTENT_CHARS {
        Some("short"@)
    } else {
        None
    }
}

/// Why a static body calls for a render: `empty`, or `short` below 200
/// visible characters; `None` when it does not.
pub fn escalation_reason(visible_chars: usize) -> (r: Option<&'static str>)
    ensures
        crate::netguard::label_view(r) == spec_escalation_reason(visible_chars),
{
    if visible_chars == 0 {
        Some("empty")
    } else if visible_chars < SHORT_CONTENT_CHARS {
        Some("short")
    } else {
        None
    }
}

/// The time and bytes left for a render, or why there are too few of them:
/// less than 5 s left is `Timeout` (checked first), less than 256 KiB left is
/// `MaxBytes`. Both differences stop at zero.
pub fn remaining_budget(timeout_ms: u64, elapsed_ms: u64, max_bytes: u64, consumed: u64) -> (r:
    Result<(u64, u64), SkipReason>)
    ensures
        match r {
            Ok((rt, rb)) => rt == crate::render::sat_sub(timeout_ms, elapsed_ms) && rb
                == crate::render::sat_sub(max_bytes, consumed) && rt >= SKIP_TIMEOUT_MIN_MS && rb
                >= SKIP_BYTES_MIN,
            Err(SkipReason::Timeout) => crate::render::sat_sub(timeout_ms, elapsed_ms)
                < SKIP_TIMEOUT_MIN_MS,
            Err(SkipReason::MaxBytes) => crate::render::sat_sub(timeout_ms, elapsed_ms)
                >= SKIP_TIMEOUT_MIN_MS && crate::render::sat_sub(max_bytes, consumed)
                < SKIP_BYTES_MIN,
        },
{
    let rt = timeout_ms.saturating_sub(elapsed_ms);
    if rt < SKIP_TIMEOUT_MIN_MS {
        return Err(SkipReason::Timeout);
    }
    let rb = max_bytes.saturating_sub(consumed);
    if rb < SKIP_BYTES_MIN {
        return Err(SkipReason::MaxBytes);
    }
    Ok((rt, rb))
}

/// The rendered body is kept only when it is longer than the static one.
pub fn choose_result(static_chars: usize, rendered_chars: usize) -> (r: RenderStatus)
    ensures
        r == (if rendered_chars > static_chars {
            RenderStatus::Rendered
        } else {
            RenderStatus::NoGain
        }),
{
    if rendered_chars > static_chars {
        RenderStatus::Rendered
    } else {
        RenderStatus::NoGain
    }
}

pub open spec fn spec_fallback_reason(phase: Phase, code: ExitCode) -> Option<Seq<char>> {
    match phase {
        Phase::Render => match code {
            ExitCode::Render => Some("render"@),
            ExitCode::Http => Some("max-bytes"@),
            _ => None,
        },
        Phase::Extract => Some("extract"@),
    }
}

/// The reason under which a failed escalation falls back to the static
/// body: a render failure (`render`) or a render over the byte limit
/// (`max-bytes`), or any extraction failure (`extract`). Other errors, an
/// internal address above all, are not masked.
pub fn fallback_reason(phase: Phase, err: &WebgrabError) -> (r: Option<&'static str>)
    ensures
        crate::netguard::label_view(r) == spec_fallback_reason(phase, err.code),
{
    match phase {
        Phase::Render => match err.code {
            ExitCode::Render => Some("render"),
            ExitCode::Http => Some("max-bytes"),
            _ => None,
        },
        Phase::Extract => Some("extract"),
    }
}

pub open spec fn hint_token(status: RenderStatus) -> Seq<char> {
    match status {
        RenderStatus::Static | RenderStatus::Skipped(_) => "--render/--raw"@,
        _ => "--raw"@,
    }
}

pub open spec fn hint_prose(status: RenderStatus) -> Seq<char> {
    match status {
        RenderStatus::Static | RenderStatus::Skipped(_) => "--render or --raw"@,
        _ => "--raw"@,
    }
}

/// The retry hint (stderr token, prose): a page that was not rendered may
/// gain from `--render` or `--raw`; a rendered one only from `--raw`.
pub fn hint_for(status: RenderStatus) -> (r: (&'static str, &'static str))
    ensures
        r.0@ == hint_token(status),
        r.1@ == hint_prose(status),
{
    match status {
        RenderStatus::Static | RenderStatus::Skipped(_) => ("--render/--raw", "--render or --raw"),
        RenderStatus::Rendered | RenderStatus::Failed(_) | RenderStatus::NoGain => (
            "--raw",
            "--raw",
        ),
    }
}

pub open spec fn spec_format(f: FormatArg) -> Format {
    match f {
        FormatArg::Markdown => Format::Markdown,
        FormatArg::Frontmatter => Format::Frontmatter,
        FormatArg::Json => Format::Json,
        FormatArg::Text => Format::Text,
        FormatArg::Html => Format::Html,
    }
}

pub fn to_format(f: FormatArg) -> (r: Format)
    ensures
        r == spec_format(f),
{
    match f {
        FormatArg::Markdown => Format::Markdown,
        FormatArg::Frontmatter => Format::Frontmatter,
        FormatArg::Json => Format::Json,
        FormatArg::Text => Format::Text,
        FormatArg::Html => Format::Html,
    }
}

/// How the body was made; the empty-body exit, the short-content notice and
/// escalation apply to each differently.
#[derive(Debug, Clone, Copy, PartialEq, Eq, Structural)]
pub enum Route {
    Extracted,
    Raw,
    Plain,
}

/// A body, converted, with what is known of it.
pub struct Stage {
    pub title: Option<String>,
    pub published: Option<String>,
    pub body: String,
    /// Visible characters of the body.
    pub visible: usize,
    pub route: Route,
    /// The extractor found no article (`warn=extract-grab-failed`).
    pub grab_failed: bool,
}

/// The body of a stage from its HTML, in the requested format: the HTML
/// itself, its text, or its Markdown.
pub open spec fn stage_body(fmt: Format, html: Seq<char>) -> Seq<char> {
    match fmt {
        Format::Html => html,
        Format::Text => text_of(sanitized(htmd_markdown(html))),
        _ => sanitized(htmd_markdown(html)),
    }
}

/// The conversion of a body HTML needs htmd (every format but html).
pub open spec fn converts(fmt: Format) -> bool {
    fmt != Format::Html
}

/// `st` is the stage of the extraction `ex` on the route `route`: the body
/// in the requested format, what was extracted with it, and the visible
/// length of the body HTML.
pub open spec fn staged(cli: Cli, ex: Extracted, route: Route, st: Stage) -> bool {
    &&& st.body@ == stage_body(spec_format(cli.format), ex.content_html@)
    &&& st.title == ex.title
    &&& st.published == ex.published_time
    &&& st.visible == visible_len(ex.content_html@)
    &&& st.grab_failed == ex.grab_failed
    &&& st.route == route
}

/// The refusal of a body too deeply nested to convert (exit code 4).
pub open spec fn conversion_refused(e: WebgrabError) -> bool {
    e.code == ExitCode::Http && e.message@ == "html too deeply nested for conversion"@
}

/// What staging `ex` by `route` gives: the refusal of a body too deeply
/// nested to convert (when it is converted), otherwise its stage.
pub open spec fn stage_outcome(cli: Cli, ex: Extracted, route: Route, r: Result<Stage, WebgrabError>) -> bool {
    if converts(spec_format(cli.format)) && !convertible(ex.content_html@) {
        r matches Err(e) && conversion_refused(e)
    } else {
        r matches Ok(st) && staged(cli, ex, route, st)
    }
}

fn stage_with(cli: &Cli, ex: Extracted, route: Route) -> (r: Result<Stage, WebgrabError>)
    ensures
        converts(spec_format(cli.format)) && !convertible(ex.content_html@) ==> (r matches Err(e)
            && conversion_refused(e)),
        !(converts(spec_format(cli.format)) && !convertible(ex.content_html@)) ==> (r matches Ok(
            st,
        ) && staged(*cli, ex, route, st)),
{
    let ghost ex0 = ex;
    let fmt = to_format(cli.format);
    let converting = match fmt {
        Format::Html => false,
        _ => true,
    };
    if converting && exceeds_tree_depth(ex.content_html.as_str()) {
        return Err(
            WebgrabError::new(ExitCode::Http, "html too deeply nested for conversion").with_detail(
                "tree depth exceeds 1000",
            ),
        );
    }
    let body = match fmt {
        Format::Html => ex.content_html.clone(),
        Format::Text => match to_text(ex.content_html.as_str()) {
            Ok(t) => t,
            Err(e) => {
                return Err(e);
            },
        },
        _ => match to_markdown(ex.content_html.as_str()) {
            Ok(m) => m,
            Err(e) => {
                return Err(e);
            },
        },
    };
    let visible = visible_text_len(ex.content_html.as_str());
    let st = Stage {
        title: ex.title,
        published: ex.published_time,
        body,
        visible,
        route,
        grab_failed: ex.grab_failed,
    };
    assert(staged(*cli, ex0, route, st));
    Ok(st)
}

/// The stage of an extracted article: its HTML converted to the requested
/// format, with its title, published time and visible length; a body too
/// deeply nested to convert is refused (exit code 4).
pub fn stage_of(cli: &Cli, ex: Extracted) -> (r: Result<Stage, WebgrabError>)
    ensures
        converts(spec_format(cli.format)) && !convertible(ex.content_html@) ==> (r matches Err(e)
            && conversion_refused(e)),
        !(converts(spec_format(cli.format)) && !convertible(ex.content_html@)) ==> (r matches Ok(
            st,
        ) && staged(*cli, ex, Route::Extracted, st)),
{
    stage_with(cli, ex, Route::Extracted)
}

/// What `--raw` extracts: the whole page without script, style and noscript
/// elements, with no title, date or grab failure.
pub open spec fn raw_extracted(html: Seq<char>, ex: Extracted) -> bool {
    &&& ex.content_html@ == stripped(html)
    &&& ex.title is None
    &&& ex.published_time is None
    &&& !ex.grab_failed
}

/// Builds the stage of an HTML document: with `--raw` the whole page
/// without script, style and noscript elements, otherwise the article that
/// extraction finds (exit code 4 when the page is too deeply nested, an
/// internal error when the extractor fails); then converted to the
/// requested format (see `stage_of`).
pub fn build_stage(cli: &Cli, html: &str, final_url: &str) -> (r: Result<Stage, WebgrabError>)
    ensures
        cli.raw ==> exists|ex: Extracted|
            #[trigger] raw_extracted(html@, ex) && (if converts(spec_format(cli.format))
                && !convertible(ex.content_html@) {
                r matches Err(e) && conversion_refused(e)
            } else {
                r matches Ok(st) && staged(*cli, ex, Route::Raw, st)
            }),
        !cli.raw && (too_deep_from(html@, 0, 0, MAX_NESTING_DEPTH as nat) || !convertible(html@))
            ==> (r matches Err(e) && e.code == ExitCode::Http && e.message@
            == "html too deeply nested for extraction"@),
        !cli.raw && !too_deep_from(html@, 0, 0, MAX_NESTING_DEPTH as nat) && convertible(html@)
            ==> ({
            let v = readability_readout(html@, final_url@);
            if v.0 <= 1 {
                exists|ex: Extracted|
                    #[trigger] extraction_of(v, Ok(ex)) && stage_outcome(
                        *cli,
                        ex,
                        Route::Extracted,
                        r,
                    )
            } else {
                r matches Err(e) && extraction_of(v, Err(e))
            }
        }),
{
    if cli.raw {
        let ex = Extracted {
            title: None,
            published_time: None,
            content_html: strip_non_content(html),
            grab_failed: false,
        };
        let ghost ex0 = ex;
        assert(raw_extracted(html@, ex0));
        return stage_with(cli, ex, Route::Raw);
    }
    let x = extract(html, final_url);
    let ghost x0 = x;
    match x {
        Ok(ex) => {
            let ghost ex0 = ex;
            let r = stage_of(cli, ex);
            proof {
                assert(stage_outcome(*cli, ex0, Route::Extracted, r));
                assert(x0 == Ok::<Extracted, WebgrabError>(ex0));
            }
            r
        },
        Err(e) => {
            proof {
                assert(x0 == Err::<Extracted, WebgrabError>(e));
            }
            Err(e)
        },
    }
}

/// The stage of a `text/plain` body: no extraction and no conversion, only
/// dangerous link schemes neutralized; every character is visible.
pub fn plain_stage(text: &str) -> (r: Stage)
    ensures
        r.body@ == sanitized(text@),
        r.visible == r.body@.len(),
        r.title is None,
        r.published is None,
        r.route == Route::Plain,
        !r.grab_failed,
{
    let body = sanitize_link_schemes(text);
    let visible = chars_of(body.as_str()).len();
    Stage { title: None, published: None, body, visible, route: Route::Plain, grab_failed: false }
}

pub open spec fn opt_text(o: Option<String>) -> Seq<char> {
    match o {
        Some(s) => s@,
        None => Seq::empty(),
    }
}

/// The second line of `warn=auto-render-failed`: message and detail on one
/// line, with no trailing blank when there is no detail.
pub fn failure_detail(e: &WebgrabError) -> (r: String)
    ensures
        r@ == detail_from(trim_end(e.message@ + seq![' '] + opt_text(e.detail)), Seq::empty()),
{
    let mut v: Vec<char> = Vec::new();
    push_str(&mut v, e.message.as_str());
    v.push(' ');
    match &e.detail {
        Some(d) => push_str(&mut v, d.as_str()),
        None => {},
    }
    assert(v@ == e.message@ + seq![' '] + opt_text(e.detail));
    let hi = crate::text::trim_end_index(v.as_slice(), 0);
    assert(v@.subrange(0, v@.len() as int) == v@);
    let mut t: Vec<char> = Vec::new();
    crate::text::push_range(&mut t, v.as_slice(), 0, hi);
    assert(t@ == trim_end(v@));
    sanitize_detail(string_of(t.as_slice()).as_str())
}

/// The render options of a run, with the time and bytes left.
pub fn render_options(cli: &Cli, timeout_ms: u64, max_bytes: u64) -> (r: RenderOptions)
    ensures
        r.timeout_ms == timeout_ms,
        r.wait_ms == (match cli.wait_ms {
            Some(w) => w,
            None => DEFAULT_WAIT_MS,
        }),
        r.allow_private == cli.allow_private,
        r.chrome_path == cli.chrome_path,
        r.max_bytes == max_bytes,
        r.max_bytes_total == cli.max_bytes,
        r.no_sandbox == cli.no_sandbox,
{
    RenderOptions {
        timeout_ms,
        wait_ms: match cli.wait_ms {
            Some(w) => w,
            None => DEFAULT_WAIT_MS,
        },
        allow_private: cli.allow_private,
        chrome_path: match &cli.chrome_path {
            Some(p) => Some(p.clone()),
            None => None,
        },
        max_bytes,
        max_bytes_total: cli.max_bytes,
        no_sandbox: cli.no_sandbox,
    }
}

/// The fetch options of a run.
pub fn fetch_options(cli: &Cli, ua: String, timeout_ms: u64, check_robots: bool) -> (r:
    FetchOptions)
    ensures
        r.user_agent == ua,
        r.timeout_ms == timeout_ms,
        r.max_bytes == cli.max_bytes,
        r.allow_private == cli.allow_private,
        r.check_robots == check_robots,
{
    FetchOptions {
        user_agent: ua,
        timeout_ms,
        max_bytes: cli.max_bytes,
        allow_private: cli.allow_private,
        check_robots,
    }
}

pub open spec fn short_content(route: Route, content_len: nat, total: nat) -> bool {
    route == Route::Extracted && content_len > 0 && total < SHORT_CONTENT_CHARS
}

/// Whether to notify a short body: extracted bodies only, and not when
/// nothing is output (`--max-chars 0`, or a start past the end), since then
/// the body is not short.
pub fn is_short_content(route: Route, content_len: usize, total: usize) -> (r: bool)
    ensures
        r == short_content(route, content_len as nat, total as nat),
{
    route == Route::Extracted && content_len > 0 && total < SHORT_CONTENT_CHARS
}

// ---------------------------------------------------------------- phases

/// The body of the run, as the phase that got it left it.
pub struct Acquired {
    pub stage: Stage,
    pub final_url: String,
    /// Decompressed bytes the static phase consumed.
    pub consumed: u64,
}

/// The visible lengths of each phase.
pub struct CharCounts {
    pub static_chars: Option<usize>,
    pub rendered_chars: Option<usize>,
}

/// The outcome of an escalation.
pub struct Escalation {
    pub status: RenderStatus,
    pub rendered_chars: Option<usize>,
}

pub open spec fn spec_should_escalate(cli: Cli, route: Route, visible: usize) -> Option<Seq<char>> {
    if cli.auto_render && !cli.render && route != Route::Plain {
        spec_escalation_reason(visible)
    } else {
        None
    }
}

/// Whether the static body calls for a render, and why: only with
/// `--auto-render` (and no `--render`), never for `text/plain`, whose
/// rendering shows the same text.
pub fn should_escalate(cli: &Cli, route: Route, visible: usize) -> (r: Option<&'static str>)
    ensures
        crate::netguard::label_view(r) == spec_should_escalate(*cli, route, visible),
{
    if cli.auto_render && !cli.render && route != Route::Plain {
        escalation_reason(visible)
    } else {
        None
    }
}

/// `webgrab: info=auto-render reason=<reason> chars=<visible>`.
pub fn escalation_notice(reason: &str, visible: usize) -> (r: String)
    ensures
        r@ == "webgrab: info=auto-render reason="@ + reason@ + " chars="@ + decimal(visible as nat),
{
    let mut v: Vec<char> = Vec::new();
    push_str(&mut v, "webgrab: info=auto-render reason=");
    push_str(&mut v, reason);
    push_str(&mut v, " chars=");
    push_decimal(&mut v, visible as u64);
    string_of(v.as_slice())
}

/// A skipped escalation: the status and its warning line.
pub fn skipped_escalation(skip: SkipReason) -> (r: (Escalation, String))
    ensures
        r.0.status == RenderStatus::Skipped(if skip == SkipReason::Timeout {
            "timeout"
        } else {
            "max-bytes"
        }),
        r.0.rendered_chars is None,
        r.1@ == "webgrab: warn=auto-render-skipped reason="@ + skip.spec_token(),
{
    let t = skip.token();
    let mut v: Vec<char> = Vec::new();
    push_str(&mut v, "webgrab: warn=auto-render-skipped reason=");
    push_str(&mut v, t);
    let status = match skip {
        SkipReason::Timeout => RenderStatus::Skipped("timeout"),
        SkipReason::MaxBytes => RenderStatus::Skipped("max-bytes"),
    };
    (Escalation { status, rendered_chars: None }, string_of(v.as_slice()))
}

/// A failed escalation: where the error has a fallback reason, the static
/// body stays (status `failed`) and two warning lines say why; otherwise
/// the error stands.
pub fn escalation_failed(phase: Phase, e: WebgrabError) -> (r: Result<
    (Escalation, Vec<String>),
    WebgrabError,
>)
    ensures
        match spec_fallback_reason(phase, e.code) {
            Some(reason) => match r {
                Ok((esc, lines)) => (esc.status matches RenderStatus::Failed(x) && x@ == reason)
                    && esc.rendered_chars is None && views(lines@) == seq![
                    "webgrab: warn=auto-render-failed reason="@ + reason,
                    detail_from(trim_end(e.message@ + seq![' '] + opt_text(e.detail)), Seq::empty()),
                ],
                Err(_) => false,
            },
            None => r == Err::<(Escalation, Vec<String>), WebgrabError>(e),
        },
{
    match fallback_reason(phase, &e) {
        Some(reason) => {
            let mut v: Vec<char> = Vec::new();
            push_str(&mut v, "webgrab: warn=auto-render-failed reason=");
            push_str(&mut v, reason);
            let mut lines: Vec<String> = Vec::new();
            lines.push(string_of(v.as_slice()));
            lines.push(failure_detail(&e));
            assert(views(lines@) =~= seq![
                "webgrab: warn=auto-render-failed reason="@ + reason@,
                detail_from(trim_end(e.message@ + seq![' '] + opt_text(e.detail)), Seq::empty()),
            ]);
            Ok((Escalation { status: RenderStatus::Failed(reason), rendered_chars: None }, lines))
        },
        None => Err(e),
    }
}

/// Settles a successful render: the rendered stage (and its URL) replaces
/// the static one only when it has more visible text; otherwise the static
/// body stays and a warning says so.
pub fn settle_escalation(acq: &mut Acquired, rendered: Stage, final_url: String) -> (r: (
    Escalation,
    Option<String>,
))
    ensures
        r.0.rendered_chars == Some(rendered.visible),
        rendered.visible > old(acq).stage.visible ==> r.0.status == RenderStatus::Rendered
            && final(acq).stage == rendered && final(acq).final_url == final_url && r.1 is None,
        rendered.visible <= old(acq).stage.visible ==> r.0.status == RenderStatus::NoGain
            && *final(acq) == *old(acq) && (r.1 matches Some(w) && w@
            == "webgrab: warn=auto-render-no-gain reason=shorter"@),
        final(acq).consumed == old(acq).consumed,
{
    let status = choose_result(acq.stage.visible, rendered.visible);
    let rendered_chars = Some(rendered.visible);
    if status.is_rendered() {
        acq.stage = rendered;
        acq.final_url = final_url;
        (Escalation { status, rendered_chars }, None)
    } else {
        (
            Escalation { status, rendered_chars },
            Some("webgrab: warn=auto-render-no-gain reason=shorter".to_owned()),
        )
    }
}

/// The warning for `--wait-ms` without a render path, where it has no effect.
pub fn ignored_flag_warning(cli: &Cli) -> (r: Option<String>)
    ensures
        (cli.wait_ms is Some && !cli.render && !cli.auto_render) ==> (r matches Some(w) && w@
            == "webgrab: warn=flag-ignored flag=--wait-ms"@),
        !(cli.wait_ms is Some && !cli.render && !cli.auto_render) ==> r is None,
{
    if cli.wait_ms.is_some() && !cli.render && !cli.auto_render {
        Some("webgrab: warn=flag-ignored flag=--wait-ms".to_owned())
    } else {
        None
    }
}

// ---------------------------------------------------------------- assembly

fn clone_opt(o: &Option<String>) -> (r: Option<String>)
    ensures
        r == *o,
{
    match o {
        Some(s) => Some(s.clone()),
        None => None,
    }
}

/// The output of a run, and the warning lines that go with it.
pub struct Assembled {
    pub output: String,
    pub warnings: Vec<String>,
}

/// An extracted body that is blank: exit code 6.
pub open spec fn empty_extracted(st: Stage) -> bool {
    st.route == Route::Extracted && trim(st.body@).len() == 0
}

/// The metadata of a page: the stage's title and published time, the final
/// URL, the token count of the page (unless `--no-tokens`), the short-content
/// length and suggestion, the fence, the status and the visible lengths.
pub open spec fn meta_of(cli: Cli, acq: Acquired, status: RenderStatus, chars: CharCounts, s: Slice, m: Meta) -> bool {
    &&& m.title == acq.stage.title
    &&& m.url == acq.final_url
    &&& m.published_time == acq.stage.published
    &&& (if cli.no_tokens {
        m.tokens is None
    } else {
        m.tokens matches Some(t) && t == o200k_token_count(s.content@)
    })
    &&& (if short_content(acq.stage.route, s.content@.len(), s.total as nat) {
        m.short_content == Some(s.total) && m.short_content_suggest@ == hint_prose(status)
    } else {
        m.short_content is None && m.short_content_suggest@ == Seq::<char>::empty()
    })
    &&& m.fence == cli.fence
    &&& m.render_status == status
    &&& m.static_chars == chars.static_chars
    &&& m.rendered_chars == chars.rendered_chars
}

/// The warning of a short body.
pub open spec fn short_warning(total: usize, status: RenderStatus) -> Seq<char> {
    "webgrab: warn=short-content chars="@ + decimal(total as nat) + " hint="@ + hint_token(status)
}

/// A run's output, fully described: the page `s` of the body, its metadata
/// `m`, the rendering in the requested format, and the warnings.
pub open spec fn assembled(
    cli: Cli,
    acq: Acquired,
    status: RenderStatus,
    chars: CharCounts,
    s: Slice,
    m: Meta,
    out: Seq<char>,
    warnings: Seq<Seq<char>>,
) -> bool {
    &&& sliced(acq.stage.body@, cli.start_index, cli.max_chars, s)
    &&& meta_of(cli, acq, status, chars, s, m)
    &&& out == rendered(spec_format(cli.format), m, s, cli.max_chars == 0, flags_of(cli, status))
    &&& warnings == (if short_content(acq.stage.route, s.content@.len(), s.total as nat) {
        seq![short_warning(s.total, status)]
    } else {
        Seq::empty()
    })
}

/// The empty-body check, the page of the body, the short-content notice and
/// the output. A blank extracted body fails with exit code 6 and a retry
/// hint (`--raw` and `text/plain` bodies are exempt).
pub fn assemble(cli: &Cli, acq: Acquired, status: RenderStatus, chars: CharCounts) -> (r: Result<
    Assembled,
    WebgrabError,
>)
    ensures
        r is Err <==> empty_extracted(acq.stage),
        r matches Err(e) ==> e.code == ExitCode::Empty,
        r matches Err(e) ==> e.message@ == "empty body extracted; retry with "@ + hint_prose(status),
        r matches Err(e) ==> e.detail is None,
        r matches Err(e) ==> e.tokens@.len() == 1,
        r matches Err(e) ==> e.tokens@[0].0@ == "hint"@ && e.tokens@[0].1@ == hint_token(status),
        r is Ok ==> exists|s: Slice, m: Meta|
            #[trigger] assembled(*cli, acq, status, chars, s, m, r->Ok_0.output@, views(r->Ok_0.warnings@)),
{
    let ghost acq0 = acq;
    let stage = &acq.stage;
    if stage.route == Route::Extracted {
        let b = chars_of(stage.body.as_str());
        let t = crate::text::trimmed(b.as_slice());
        if t.len() == 0 {
            let (tok, prose) = hint_for(status);
            let mut msg: Vec<char> = Vec::new();
            push_str(&mut msg, "empty body extracted; retry with ");
            push_str(&mut msg, prose);
            assert(t@ == trim(stage.body@));
            assert(empty_extracted(acq0.stage));
            let e = WebgrabError::new(ExitCode::Empty, string_of(msg.as_slice()).as_str());
            let e2 = e.with_token("hint", tok);
            assert(e2.tokens@.len() == 1);
            assert(e2.tokens@[0] == e2.tokens@.last());
            assert(e2.message@ == "empty body extracted; retry with "@ + hint_prose(status));
            assert(e2.detail is None);
            assert(e2.tokens@[0].0@ == "hint"@);
            assert(e2.tokens@[0].1@ == hint_token(status));
            assert(e2.code == ExitCode::Empty);
            return Err(e2);
        }
        assert(t@ == trim(stage.body@));
    }
    assert(!empty_extracted(acq0.stage));
    let page = slice(stage.body.as_str(), cli.start_index, cli.max_chars);
    let tok = if cli.no_tokens {
        None
    } else {
        Some(count(page.content.as_str()))
    };
    let content_len = chars_of(page.content.as_str()).len();
    let mut warnings: Vec<String> = Vec::new();
    let (short, suggest) = if is_short_content(stage.route, content_len, page.total) {
        let (hint, suggest) = hint_for(status);
        let mut w: Vec<char> = Vec::new();
        push_str(&mut w, "webgrab: warn=short-content chars=");
        push_decimal(&mut w, page.total as u64);
        push_str(&mut w, " hint=");
        push_str(&mut w, hint);
        warnings.push(string_of(w.as_slice()));
        (Some(page.total), suggest)
    } else {
        proof {
            reveal_strlit("");
        }
        (None, "")
    };
    let meta = Meta {
        title: clone_opt(&stage.title),
        url: acq.final_url.clone(),
        published_time: clone_opt(&stage.published),
        tokens: tok,
        short_content: short,
        short_content_suggest: suggest,
        fence: cli.fence,
        render_status: status,
        static_chars: chars.static_chars,
        rendered_chars: chars.rendered_chars,
    };
    let extra = extra_flags(cli, status);
    let output = render(to_format(cli.format), &meta, &page, cli.max_chars == 0, extra.as_slice());
    let ghost ws = views(warnings@);
    assert(ws =~= (if short_content(acq0.stage.route, page.content@.len(), page.total as nat) {
        seq![short_warning(page.total, status)]
    } else {
        Seq::<Seq<char>>::empty()
    }));
    assert(sliced(acq0.stage.body@, cli.start_index, cli.max_chars, page));
    assert(meta.title == acq0.stage.title);
    assert(meta.url == acq0.final_url);
    assert(meta.published_time == acq0.stage.published);
    assert(if cli.no_tokens {
        meta.tokens is None
    } else {
        meta.tokens matches Some(t) && t == o200k_token_count(page.content@)
    });
    assert(content_len == page.content@.len());
    assert(if short_content(acq0.stage.route, page.content@.len(), page.total as nat) {
        meta.short_content == Some(page.total) && meta.short_content_suggest@ == hint_prose(status)
    } else {
        meta.short_content is None && meta.short_content_suggest@ == Seq::<char>::empty()
    });
    assert(meta_of(*cli, acq0, status, chars, page, meta));
    assert(output@ == rendered(spec_format(cli.format), meta, page, cli.max_chars == 0, flags_of(*cli, status)));
    assert(assembled(*cli, acq0, status, chars, page, meta, output@, ws));
    let res = Assembled { output, warnings };
    assert(assembled(*cli, acq0, status, chars, page, meta, res.output@, views(res.warnings@)));
    let ghost res0 = res;
    let out: Result<Assembled, WebgrabError> = Ok(res);
    assert(out->Ok_0 == res0);
    out
}

/// The warning printed just before Chrome starts without its sandbox.
pub const NO_SANDBOX_WARNING: &'static str = "webgrab: warn=no-sandbox";

} // verus!
