//! The command line as plain values, and the flags that a continuation
//! command reproduces.
use crate::budget::{shell_quote, shell_quoted, views};
use crate::fetch::web_scheme;
use crate::netguard::is_allowed_scheme;
use crate::output::RenderStatus;
use crate::weburl::{parse_url, parsed_url};
use crate::text::{chars_of, decimal, push_decimal, push_str, string_of};
use vstd::prelude::*;

verus! {

broadcast use vstd::string::group_string_axioms;

/// Default of `--wait-ms`, in milliseconds.
pub const DEFAULT_WAIT_MS: u64 = 5000;

/// Default of `--max-chars`.
pub const DEFAULT_MAX_CHARS: usize = 24000;

/// Default of `--timeout`, in seconds.
pub const DEFAULT_TIMEOUT_SECS: u64 = 30;

/// Default of `--max-bytes` (20 MiB).
pub const DEFAULT_MAX_BYTES: u64 = 20971520;

/// The `--format` values.
#[derive(Debug, Clone, Copy, PartialEq, Eq)]
pub enum FormatArg {
    Markdown,
    Frontmatter,
    Json,
    Text,
    Html,
}

/// The parsed command line.
#[derive(Debug)]
pub struct Cli {
    /// The URL to fetch (http or https).
    pub url: String,
    pub format: FormatArg,
    /// Maximum body characters (Unicode scalar values); 0 for metadata only.
    pub max_chars: usize,
    /// First body character (to continue a truncated page).
    pub start_index: usize,
    /// Render with Chrome.
    pub render: bool,
    /// Render with Chrome when the static body is empty or short.
    pub auto_render: bool,
    /// With rendering, milliseconds from navigation to the DOM snapshot.
    pub wait_ms: Option<u64>,
    /// Disable Chrome's sandbox.
    pub no_sandbox: bool,
    /// Skip extraction and convert the whole page.
    pub raw: bool,
    /// Overall timeout, in seconds.
    pub timeout: u64,
    pub no_robots: bool,
    /// Allow internal addresses (turns the SSRF guard off).
    pub allow_private: bool,
    pub no_tokens: bool,
    /// Wrap the body in an untrusted-content fence.
    pub fence: bool,
    pub user_agent: Option<String>,
    /// Limit of fetched bytes (after decompression).
    pub max_bytes: u64,
    /// Output file (stdout when absent).
    pub output: Option<String>,
    /// Chrome executable, where detection fails.
    pub chrome_path: Option<String>,
}

impl Cli {
    /// The command line `webgrab <url>`: every flag at its default.
    pub fn new(url: &str) -> (r: Self)
        ensures
            r.url@ == url@,
            r.format == FormatArg::Markdown,
            r.max_chars == DEFAULT_MAX_CHARS,
            r.start_index == 0,
            !r.render && !r.auto_render && !r.no_sandbox && !r.raw,
            r.wait_ms is None,
            r.timeout == DEFAULT_TIMEOUT_SECS,
            !r.no_robots && !r.allow_private && !r.no_tokens && !r.fence,
            r.user_agent is None,
            r.max_bytes == DEFAULT_MAX_BYTES,
            r.output is None,
            r.chrome_path is None,
    {
        Cli {
            url: url.to_owned(),
            format: FormatArg::Markdown,
            max_chars: DEFAULT_MAX_CHARS,
            start_index: 0,
            render: false,
            auto_render: false,
            wait_ms: None,
            no_sandbox: false,
            raw: false,
            timeout: DEFAULT_TIMEOUT_SECS,
            no_robots: false,
            allow_private: false,
            no_tokens: false,
            fence: false,
            user_agent: None,
            max_bytes: DEFAULT_MAX_BYTES,
            output: None,
            chrome_path: None,
        }
    }
}

pub open spec fn spec_user_agent() -> Seq<char> {
    "webgrab/0.1.0 (+https://github.com/okamyuji/webgrab)"@
}

/// The default User-Agent: product token and version, then the project URL.
pub fn default_user_agent() -> (r: String)
    ensures
        r@ == spec_user_agent(),
{
    "webgrab/0.1.0 (+https://github.com/okamyuji/webgrab)".to_owned()
}

pub open spec fn format_name(f: FormatArg) -> Seq<char> {
    match f {
        FormatArg::Markdown => "markdown"@,
        FormatArg::Frontmatter => "frontmatter"@,
        FormatArg::Json => "json"@,
        FormatArg::Text => "text"@,
        FormatArg::Html => "html"@,
    }
}

/// A flag, where its condition holds.
pub open spec fn flag_if(b: bool, f: Seq<char>) -> Seq<Seq<char>> {
    if b {
        seq![f]
    } else {
        Seq::empty()
    }
}

/// The run took the render path: `--render`, or `--auto-render` that kept
/// the rendered body.
pub open spec fn render_path(cli: Cli, status: RenderStatus) -> bool {
    cli.render || (cli.auto_render && status == RenderStatus::Rendered)
}

/// The non-default flags a continuation command reproduces, in order
/// (never `--start-index` or `-o`). On the render path `--auto-render`
/// becomes `--render` and the render flags are kept; otherwise they all go.
pub open spec fn flags_of(cli: Cli, status: RenderStatus) -> Seq<Seq<char>> {
    let rp = render_path(cli, status);
    head_flags(cli, rp) + render_flags(cli, rp) + tail_flags(cli)
}

pub open spec fn format_flag(cli: Cli) -> Seq<Seq<char>> {
    flag_if(cli.format != FormatArg::Markdown, "--format "@ + format_name(cli.format))
}

pub open spec fn head_flags(cli: Cli, rp: bool) -> Seq<Seq<char>> {
    format_flag(cli) + max_chars_flag(cli) + flag_if(rp, "--render"@) + switch_flags(cli)
}

pub open spec fn max_chars_flag(cli: Cli) -> Seq<Seq<char>> {
    flag_if(cli.max_chars != DEFAULT_MAX_CHARS, "--max-chars "@ + decimal(cli.max_chars as nat))
}

/// `--raw`, `--no-tokens`, `--fence`, `--allow-private`.
pub open spec fn switch_flags(cli: Cli) -> Seq<Seq<char>> {
    flag_if(cli.raw, "--raw"@) + flag_if(cli.no_tokens, "--no-tokens"@) + flag_if(
        cli.fence,
        "--fence"@,
    ) + flag_if(cli.allow_private, "--allow-private"@)
}

pub open spec fn tail_flags(cli: Cli) -> Seq<Seq<char>> {
    flag_if(cli.timeout != DEFAULT_TIMEOUT_SECS, "--timeout "@ + decimal(cli.timeout as nat))
        + flag_if(cli.no_robots, "--no-robots"@) + flag_if(
        cli.max_bytes != DEFAULT_MAX_BYTES,
        "--max-bytes "@ + decimal(cli.max_bytes as nat),
    ) + (match cli.user_agent {
        Some(ua) => seq!["--user-agent "@ + shell_quoted(ua@)],
        None => Seq::empty(),
    })
}

/// `--wait-ms`, `--no-sandbox` and `--chrome-path`, on the render path only.
pub open spec fn render_flags(cli: Cli, rp: bool) -> Seq<Seq<char>> {
    if rp {
        (match cli.wait_ms {
            Some(w) => seq!["--wait-ms "@ + decimal(w as nat)],
            None => Seq::empty(),
        }) + flag_if(cli.no_sandbox, "--no-sandbox"@) + (match cli.chrome_path {
            Some(cp) => seq!["--chrome-path "@ + shell_quoted(cp@)],
            None => Seq::empty(),
        })
    } else {
        Seq::empty()
    }
}

proof fn lemma_add_assoc(a: Seq<Seq<char>>, b: Seq<Seq<char>>, c: Seq<Seq<char>>)
    ensures
        a + b + c == a + (b + c),
{
    assert(a + b + c =~= a + (b + c));
}

fn push_flag(v: &mut Vec<String>, f: &[char])
    ensures
        views(final(v)@) == views(old(v)@).push(f@),
{
    let s = string_of(f);
    v.push(s);
    assert(views(v@) =~= views(old(v)@).push(f@));
}

fn flag_with(name: &str, value: &str) -> (r: Vec<char>)
    ensures
        r@ == name@ + value@,
{
    let mut f: Vec<char> = Vec::new();
    push_str(&mut f, name);
    push_str(&mut f, value);
    f
}

fn flag_num(name: &str, n: u64) -> (r: Vec<char>)
    ensures
        r@ == name@ + decimal(n as nat),
{
    let mut f: Vec<char> = Vec::new();
    push_str(&mut f, name);
    push_decimal(&mut f, n);
    f
}

fn push_render_flags(cli: &Cli, rp: bool, v: &mut Vec<String>)
    ensures
        views(final(v)@) == views(old(v)@) + render_flags(*cli, rp),
{
    let ghost v0 = views(v@);
    if rp {
        match cli.wait_ms {
            Some(w) => push_flag(v, flag_num("--wait-ms ", w).as_slice()),
            None => {},
        }
        let ghost v1 = views(v@);
        if cli.no_sandbox {
            push_flag(v, chars_of("--no-sandbox").as_slice());
        }
        let ghost v2 = views(v@);
        match &cli.chrome_path {
            Some(cp) => {
                let q = shell_quote(cp.as_str());
                push_flag(v, flag_with("--chrome-path ", q.as_str()).as_slice());
            },
            None => {},
        }
        assert(views(v@) == v0 + render_flags(*cli, rp));
    } else {
        assert(views(v@) == v0 + Seq::<Seq<char>>::empty());
    }
}

fn push_format_flag(cli: &Cli, v: &mut Vec<String>)
    ensures
        views(final(v)@) == views(old(v)@) + format_flag(*cli),
{
    proof {
        reveal_strlit("--format frontmatter");
        reveal_strlit("--format json");
        reveal_strlit("--format text");
        reveal_strlit("--format html");
        reveal_strlit("--format ");
        reveal_strlit("frontmatter");
        reveal_strlit("json");
        reveal_strlit("text");
        reveal_strlit("html");
        assert("--format frontmatter"@ =~= "--format "@ + "frontmatter"@);
        assert("--format json"@ =~= "--format "@ + "json"@);
        assert("--format text"@ =~= "--format "@ + "text"@);
        assert("--format html"@ =~= "--format "@ + "html"@);
    }
    let ghost v0 = views(v@);
    match cli.format {
        FormatArg::Markdown => {
            assert(views(v@) == v0 + Seq::<Seq<char>>::empty());
        },
        FormatArg::Frontmatter => push_flag(v, chars_of("--format frontmatter").as_slice()),
        FormatArg::Json => push_flag(v, chars_of("--format json").as_slice()),
        FormatArg::Text => push_flag(v, chars_of("--format text").as_slice()),
        FormatArg::Html => push_flag(v, chars_of("--format html").as_slice()),
    }
}

fn push_flag_if(b: bool, f: &str, v: &mut Vec<String>)
    ensures
        views(final(v)@) == views(old(v)@) + flag_if(b, f@),
{
    let ghost v0 = views(v@);
    if b {
        push_flag(v, chars_of(f).as_slice());
    } else {
        assert(views(v@) == v0 + Seq::<Seq<char>>::empty());
    }
}

fn push_num_if(b: bool, name: &str, n: u64, v: &mut Vec<String>)
    ensures
        views(final(v)@) == views(old(v)@) + flag_if(b, name@ + decimal(n as nat)),
{
    let ghost v0 = views(v@);
    if b {
        push_flag(v, flag_num(name, n).as_slice());
    } else {
        assert(views(v@) == v0 + Seq::<Seq<char>>::empty());
    }
}

fn push_switch_flags(cli: &Cli, v: &mut Vec<String>)
    ensures
        views(final(v)@) == views(old(v)@) + switch_flags(*cli),
{
    let ghost v0 = views(v@);
    push_flag_if(cli.raw, "--raw", v);
    let ghost v1 = views(v@);
    push_flag_if(cli.no_tokens, "--no-tokens", v);
    let ghost v2 = views(v@);
    push_flag_if(cli.fence, "--fence", v);
    let ghost v3 = views(v@);
    push_flag_if(cli.allow_private, "--allow-private", v);
    assert(views(v@) =~= v0 + switch_flags(*cli));
}

fn push_max_chars_flag(cli: &Cli, v: &mut Vec<String>)
    ensures
        views(final(v)@) == views(old(v)@) + max_chars_flag(*cli),
{
    let n: u64 = cli.max_chars as u64;
    assert(n as nat == cli.max_chars as nat);
    push_num_if(cli.max_chars != DEFAULT_MAX_CHARS, "--max-chars ", n, v);
}

fn push_head_flags(cli: &Cli, rp: bool, v: &mut Vec<String>)
    ensures
        views(final(v)@) == views(old(v)@) + head_flags(*cli, rp),
{
    let ghost v0 = views(v@);
    push_format_flag(cli, v);
    let ghost v1 = views(v@);
    push_max_chars_flag(cli, v);
    let ghost v2 = views(v@);
    push_flag_if(rp, "--render", v);
    let ghost v3 = views(v@);
    push_switch_flags(cli, v);
    let ghost f = format_flag(*cli);
    let ghost m = max_chars_flag(*cli);
    let ghost r = flag_if(rp, "--render"@);
    let ghost w = switch_flags(*cli);
    proof {
        lemma_add_assoc(v0, f, m);
        lemma_add_assoc(v0, f + m, r);
        lemma_add_assoc(v0, f + m + r, w);
    }
}

fn push_tail_flags(cli: &Cli, v: &mut Vec<String>)
    ensures
        views(final(v)@) == views(old(v)@) + tail_flags(*cli),
{
    let ghost v0 = views(v@);
    let ghost c = *cli;
    push_num_if(cli.timeout != DEFAULT_TIMEOUT_SECS, "--timeout ", cli.timeout, v);
    let ghost p1 = flag_if(c.timeout != DEFAULT_TIMEOUT_SECS, "--timeout "@ + decimal(c.timeout as nat));
    push_flag_if(cli.no_robots, "--no-robots", v);
    let ghost p2 = p1 + flag_if(c.no_robots, "--no-robots"@);
    assert(views(v@) =~= v0 + p2);
    push_num_if(cli.max_bytes != DEFAULT_MAX_BYTES, "--max-bytes ", cli.max_bytes, v);
    let ghost p3 = p2 + flag_if(
        c.max_bytes != DEFAULT_MAX_BYTES,
        "--max-bytes "@ + decimal(c.max_bytes as nat),
    );
    assert(views(v@) =~= v0 + p3);
    let ghost v3 = views(v@);
    match &cli.user_agent {
        Some(ua) => {
            let q = shell_quote(ua.as_str());
            push_flag(v, flag_with("--user-agent ", q.as_str()).as_slice());
        },
        None => {
            assert(views(v@) == v3 + Seq::<Seq<char>>::empty());
        },
    }
    assert(views(v@) =~= v0 + tail_flags(c));
}

/// The non-default flags to reproduce in a continuation command, as
/// `flags_of` states them.
pub fn extra_flags(cli: &Cli, status: RenderStatus) -> (r: Vec<String>)
    ensures
        views(r@) == flags_of(*cli, status),
{
    let mut v: Vec<String> = Vec::new();
    assert(views(v@) == Seq::<Seq<char>>::empty());
    let rp = cli.render || (cli.auto_render && status.is_rendered());
    push_head_flags(cli, rp, &mut v);
    let ghost a = views(v@);
    push_render_flags(cli, rp, &mut v);
    let ghost b = views(v@);
    push_tail_flags(cli, &mut v);
    assert(views(v@) =~= flags_of(*cli, status));
    v
}

/// The check of the URL argument before anything is fetched (exit code 2
/// otherwise): it must parse, and its scheme must be http or https. An
/// error gives the stderr lines to print.
pub fn check_url(url: &str) -> (r: Result<(), Vec<String>>)
    ensures
        match (parsed_url(url@), r) {
            (Ok(p), Ok(_)) => web_scheme(p.1),
            (Ok(p), Err(lines)) => !web_scheme(p.1) && views(lines@) == seq![
                "webgrab: error=usage unsupported scheme: "@ + p.1 + " (only http/https)"@,
            ],
            (Err(m), Err(lines)) => views(lines@) == seq!["webgrab: error=usage invalid URL"@, m],
            _ => false,
        },
{
    match parse_url(url) {
        Ok(u) => {
            if is_allowed_scheme(u.scheme.as_str()) {
                Ok(())
            } else {
                let mut v: Vec<char> = Vec::new();
                push_str(&mut v, "webgrab: error=usage unsupported scheme: ");
                push_str(&mut v, u.scheme.as_str());
                push_str(&mut v, " (only http/https)");
                let mut lines: Vec<String> = Vec::new();
                lines.push(string_of(v.as_slice()));
                assert(views(lines@) =~= seq![
                    "webgrab: error=usage unsupported scheme: "@ + u.scheme@ + " (only http/https)"@,
                ]);
                Err(lines)
            }
        },
        Err(m) => {
            let mut lines: Vec<String> = Vec::new();
            lines.push("webgrab: error=usage invalid URL".to_owned());
            lines.push(m);
            assert(views(lines@) =~= seq!["webgrab: error=usage invalid URL"@, lines@[1]@]);
            Err(lines)
        },
    }
}

/// Six sequences joined left to right are the first followed by the others.
proof fn lemma_join6(
    f: Seq<Seq<char>>,
    x: Seq<Seq<char>>,
    y: Seq<Seq<char>>,
    z: Seq<Seq<char>>,
    w: Seq<Seq<char>>,
    v: Seq<Seq<char>>,
)
    ensures
        f + x + y + z + w + v == f + (x + y + z + w + v),
{
    assert(f + x + y + z + w + v =~= f + (x + y + z + w + v));
}

/// The continuation flags of a run, all of them but the format.
spec fn flags_besides_format(cli: Cli, status: RenderStatus) -> Seq<Seq<char>> {
    let rp = render_path(cli, status);
    max_chars_flag(cli) + flag_if(rp, "--render"@) + switch_flags(cli) + render_flags(cli, rp)
        + tail_flags(cli)
}

proof fn lemma_flags_split(cli: Cli, status: RenderStatus)
    ensures
        flags_of(cli, status) == format_flag(cli) + flags_besides_format(cli, status),
{
    let rp = render_path(cli, status);
    lemma_join6(
        format_flag(cli),
        max_chars_flag(cli),
        flag_if(rp, "--render"@),
        switch_flags(cli),
        render_flags(cli, rp),
        tail_flags(cli),
    );
}

/// Switching a run from markdown to another format puts that format's flag
/// in front of the same flags.
proof fn lemma_format_in_front(cli: Cli, status: RenderStatus, fmt: FormatArg)
    requires
        fmt != FormatArg::Markdown,
    ensures
        flags_of((Cli { format: fmt, ..cli }), status) == seq!["--format "@ + format_name(fmt)]
            + flags_of((Cli { format: FormatArg::Markdown, ..cli }), status),
{
    let md = Cli { format: FormatArg::Markdown, ..cli };
    let other = Cli { format: fmt, ..cli };
    let rest = flags_besides_format(md, status);
    lemma_flags_split(md, status);
    assert(format_flag(md) == Seq::<Seq<char>>::empty());
    assert(flags_of(md, status) =~= rest);
    lemma_flags_split(other, status);
    assert(flags_besides_format(other, status) == rest);
}

/// A continuation keeps the output format: the same run in another format
/// than markdown (the default) reproduces exactly one flag more, in front,
/// `--format` with that format's name.
pub proof fn lemma_continuation_keeps_format(cli: Cli, status: RenderStatus)
    ensures
        flags_of((Cli { format: FormatArg::Frontmatter, ..cli }), status) == seq![
            "--format frontmatter"@,
        ] + flags_of((Cli { format: FormatArg::Markdown, ..cli }), status),
        flags_of((Cli { format: FormatArg::Json, ..cli }), status) == seq!["--format json"@]
            + flags_of((Cli { format: FormatArg::Markdown, ..cli }), status),
        flags_of((Cli { format: FormatArg::Text, ..cli }), status) == seq!["--format text"@]
            + flags_of((Cli { format: FormatArg::Markdown, ..cli }), status),
        flags_of((Cli { format: FormatArg::Html, ..cli }), status) == seq!["--format html"@]
            + flags_of((Cli { format: FormatArg::Markdown, ..cli }), status),
{
    reveal_strlit("--format ");
    reveal_strlit("--format frontmatter");
    reveal_strlit("frontmatter");
    reveal_strlit("--format json");
    reveal_strlit("json");
    reveal_strlit("--format text");
    reveal_strlit("text");
    reveal_strlit("--format html");
    reveal_strlit("html");
    lemma_format_in_front(cli, status, FormatArg::Frontmatter);
    assert("--format "@ + "frontmatter"@ =~= "--format frontmatter"@);
    lemma_format_in_front(cli, status, FormatArg::Json);
    assert("--format "@ + "json"@ =~= "--format json"@);
    lemma_format_in_front(cli, status, FormatArg::Text);
    assert("--format "@ + "text"@ =~= "--format text"@);
    lemma_format_in_front(cli, status, FormatArg::Html);
    assert("--format "@ + "html"@ =~= "--format html"@);
}

} // verus!
