//! The decisions of the render path (Chrome stays with the caller): the
//! Chrome proxy flags, the time limits of one evaluation, the warning lines of
//! blocked requests, and which outcome a render ends with.
use crate::error::{detail_from, ExitCode, WebgrabError};
use crate::netguard::{ip_string, ip_text};
use crate::renderproxy::hostcache::Resolution;
use crate::fetch::web_scheme;
use crate::netguard::is_allowed_scheme;
use crate::text::{chars_of, decimal, push_decimal, push_str, same, string_of, utf8_fits, utf8_seq_len};
use crate::weburl::{parse_url, parsed_url, port_for, port_to_connect};
use crate::budget::views;
use vstd::prelude::*;

pub mod wait;

verus! {

broadcast use vstd::string::group_string_axioms;

/// Options of one render.
pub struct RenderOptions {
    /// Overall timeout, in milliseconds.
    pub timeout_ms: u64,
    /// Milliseconds from navigation to the DOM snapshot.
    pub wait_ms: u64,
    pub allow_private: bool,
    pub chrome_path: Option<String>,
    /// Remaining byte budget after decompression (over it: exit code 4).
    pub max_bytes: u64,
    /// The user's `--max-bytes` (for messages).
    pub max_bytes_total: u64,
    pub no_sandbox: bool,
}

/// Time kept in reserve for measuring the DOM and taking its content.
pub const CONTENT_RESERVE_MS: u64 = 2000;

pub open spec fn proxy_server_arg(port: u16) -> Seq<char> {
    "proxy-server=127.0.0.1:"@ + decimal(port as nat)
}

/// Chrome's launch flags that force every connection through the proxy,
/// loopback included. chromiumoxide prefixes each key with `--`, so the keys
/// carry none (with one, Chrome would see `----key` and ignore the proxy).
pub fn proxy_args(port: u16) -> (r: [String; 2])
    ensures
        r[0]@ == proxy_server_arg(port),
        r[1]@ == "proxy-bypass-list=<-loopback>"@,
{
    let mut v: Vec<char> = Vec::new();
    push_str(&mut v, "proxy-server=127.0.0.1:");
    push_decimal(&mut v, port as u64);
    [string_of(v.as_slice()), "proxy-bypass-list=<-loopback>".to_owned()]
}

/// `a - b`, or 0.
pub open spec fn sat_sub(a: u64, b: u64) -> u64 {
    if a >= b {
        (a - b) as u64
    } else {
        0
    }
}

/// `a + b`, or `u64::MAX`.
pub open spec fn sat_add(a: u64, b: u64) -> u64 {
    if a + b <= u64::MAX {
        (a + b) as u64
    } else {
        u64::MAX
    }
}

pub open spec fn min_u64(a: u64, b: u64) -> u64 {
    if a <= b {
        a
    } else {
        b
    }
}

/// The limit of one evaluation: the time left before the deadline, but no
/// more than the time left before the wait cap plus the reserve, so that a
/// hung evaluation cannot eat the reserve of the final steps.
pub fn eval_limit(deadline_remaining_ms: u64, cap_remaining_ms: u64) -> (r: u64)
    ensures
        r == min_u64(deadline_remaining_ms, sat_add(cap_remaining_ms, CONTENT_RESERVE_MS)),
{
    let c = cap_remaining_ms.saturating_add(CONTENT_RESERVE_MS);
    if deadline_remaining_ms <= c {
        deadline_remaining_ms
    } else {
        c
    }
}

/// The wait cap: `--wait-ms`, but no more than the time left before the
/// deadline minus the reserve.
pub fn effective_cap(wait_ms: u64, deadline_ms: u64, now_ms: u64) -> (r: u64)
    ensures
        r == min_u64(wait_ms, sat_sub(sat_sub(deadline_ms, now_ms), CONTENT_RESERVE_MS)),
{
    let remaining = deadline_ms.saturating_sub(now_ms).saturating_sub(CONTENT_RESERVE_MS);
    if wait_ms <= remaining {
        wait_ms
    } else {
        remaining
    }
}

pub open spec fn blocked_line(layer: Seq<char>, count: u64) -> Seq<char> {
    "webgrab: warn=netguard-blocked layer="@ + layer + " count="@ + decimal(count as nat)
}

/// The warning lines of requests blocked by each layer (none for a layer
/// that blocked nothing).
pub open spec fn warn_lines(intercept: u64, proxy: u64) -> Seq<Seq<char>> {
    (if intercept > 0 {
        seq![blocked_line("intercept"@, intercept)]
    } else {
        Seq::empty()
    }) + (if proxy > 0 {
        seq![blocked_line("proxy"@, proxy)]
    } else {
        Seq::empty()
    })
}

fn blocked(layer: &str, count: u64) -> (r: String)
    ensures
        r@ == blocked_line(layer@, count),
{
    let mut v: Vec<char> = Vec::new();
    push_str(&mut v, "webgrab: warn=netguard-blocked layer=");
    push_str(&mut v, layer);
    push_str(&mut v, " count=");
    push_decimal(&mut v, count);
    string_of(v.as_slice())
}

/// One warning line per layer that blocked requests.
pub fn netguard_warn_lines(intercept: u64, proxy: u64) -> (r: Vec<String>)
    ensures
        views(r@) == warn_lines(intercept, proxy),
{
    let mut v: Vec<String> = Vec::new();
    if intercept > 0 {
        v.push(blocked("intercept", intercept));
    }
    let ghost a = views(v@);
    if proxy > 0 {
        v.push(blocked("proxy", proxy));
    }
    assert(views(v@) =~= warn_lines(intercept, proxy));
    v
}

/// The common end of the detail line of exit code 8.
pub open spec fn detail_tail(intercept: u64, proxy: u64) -> Seq<char> {
    "(intercept="@ + decimal(intercept as nat) + " proxy="@ + decimal(proxy as nat)
        + "; use --allow-private to override)"@
}

/// The detail line of exit code 8: the blocked host with the address it
/// resolved to and the denied range, or how its resolution failed; a
/// generic line where nothing was recorded.
pub open spec fn detail_text(blocked: Option<(String, Resolution)>, intercept: u64, proxy: u64) -> Seq<
    char,
> {
    match blocked {
        Some((host, Resolution::Denied { ip, range })) => "layer=intercept host="@ + host@
            + " resolved="@ + ip_text(ip) + " range="@ + range@ + " "@ + detail_tail(
            intercept,
            proxy,
        ),
        Some((host, Resolution::Unresolved)) => "layer=intercept host="@ + host@
            + " resolved=unresolved "@ + detail_tail(intercept, proxy),
        Some((host, Resolution::Timeout)) => "layer=intercept host="@ + host@
            + " resolved=timeout "@ + detail_tail(intercept, proxy),
        _ => "layer=intercept main-navigation blocked "@ + detail_tail(intercept, proxy),
    }
}

fn push_tail(v: &mut Vec<char>, intercept: u64, proxy: u64)
    ensures
        final(v)@ == old(v)@ + detail_tail(intercept, proxy),
{
    let ghost v0 = v@;
    push_str(v, "(intercept=");
    push_decimal(v, intercept);
    push_str(v, " proxy=");
    push_decimal(v, proxy);
    push_str(v, "; use --allow-private to override)");
    assert(v@ =~= v0 + detail_tail(intercept, proxy));
}

/// The detail line of exit code 8 (see `detail_text`).
pub fn netguard_detail(blocked: Option<&(String, Resolution)>, intercept: u64, proxy: u64) -> (r:
    String)
    ensures
        r@ == detail_text(
            match blocked {
                Some(b) => Some(*b),
                None => None,
            },
            intercept,
            proxy,
        ),
{
    let mut v: Vec<char> = Vec::new();
    match blocked {
        Some((host, Resolution::Denied { ip, range })) => {
            push_str(&mut v, "layer=intercept host=");
            push_str(&mut v, host.as_str());
            push_str(&mut v, " resolved=");
            let t = ip_string(*ip);
            push_str(&mut v, t.as_str());
            push_str(&mut v, " range=");
            push_str(&mut v, range);
            push_str(&mut v, " ");
        },
        Some((host, Resolution::Unresolved)) => {
            push_str(&mut v, "layer=intercept host=");
            push_str(&mut v, host.as_str());
            push_str(&mut v, " resolved=unresolved ");
        },
        Some((host, Resolution::Timeout)) => {
            push_str(&mut v, "layer=intercept host=");
            push_str(&mut v, host.as_str());
            push_str(&mut v, " resolved=timeout ");
        },
        _ => {
            push_str(&mut v, "layer=intercept main-navigation blocked ");
        },
    }
    push_tail(&mut v, intercept, proxy);
    string_of(v.as_slice())
}

/// The message of a render that went over the byte budget: `downloaded`
/// bytes against the user's `--max-bytes`, with the measure that went over
/// in brackets when one is named (none for the proxy's download total).
pub open spec fn exceed_text(downloaded: u64, max_bytes_total: u64, what: Seq<char>) -> Seq<char> {
    "render download exceeds remaining --max-bytes budget ("@ + decimal(downloaded as nat) + " of "@
        + decimal(max_bytes_total as nat) + ")"@ + (if what.len() == 0 {
        Seq::empty()
    } else {
        " ["@ + what + "]"@
    })
}

/// The message of a render that went over the byte budget (see
/// `exceed_text`).
pub fn exceed_msg(downloaded: u64, max_bytes_total: u64, what: &str) -> (r: String)
    ensures
        r@ == exceed_text(downloaded, max_bytes_total, what@),
{
    let mut v: Vec<char> = Vec::new();
    push_str(&mut v, "render download exceeds remaining --max-bytes budget (");
    push_decimal(&mut v, downloaded);
    push_str(&mut v, " of ");
    push_decimal(&mut v, max_bytes_total);
    push_str(&mut v, ")");
    let w = chars_of(what);
    if w.len() > 0 {
        push_str(&mut v, " [");
        push_str(&mut v, what);
        push_str(&mut v, "]");
    }
    string_of(v.as_slice())
}

/// How a render ends, with the warning lines of blocked requests that come
/// first whatever the outcome. A blocked main navigation is exit code 8
/// whatever the page gave; otherwise a download over the budget, seen by the
/// proxy for every connection, is exit code 4; otherwise the page's own
/// result stands.
pub fn finalize(
    main_blocked: bool,
    blocked_main: Option<&(String, Resolution)>,
    result: Result<String, WebgrabError>,
    blocked_intercept: u64,
    blocked_proxy: u64,
    proxy_exceeded: bool,
    proxy_bytes: u64,
    max_bytes_total: u64,
) -> (r: (Result<String, WebgrabError>, Vec<String>))
    ensures
        views(r.1@) == warn_lines(blocked_intercept, blocked_proxy),
        main_blocked ==> match r.0 {
            Err(e) => e.code == ExitCode::Netguard && e.message@
                == "refused internal address during render"@ && (e.detail matches Some(d) && d@
                == crate::error::detail_from(
                detail_text(
                    match blocked_main {
                        Some(b) => Some(*b),
                        None => None,
                    },
                    blocked_intercept,
                    blocked_proxy,
                ),
                Seq::empty(),
            )) && e.tokens@.len() == 0,
            Ok(_) => false,
        },
        !main_blocked && proxy_exceeded ==> match r.0 {
            Err(e) => e.code == ExitCode::Http && e.message@ == exceed_text(
                proxy_bytes,
                max_bytes_total,
                Seq::empty(),
            ) && e.detail is None && e.tokens@.len() == 0,
            Ok(_) => false,
        },
        !main_blocked && !proxy_exceeded ==> r.0 == result,
{
    let lines = netguard_warn_lines(blocked_intercept, blocked_proxy);
    if main_blocked {
        let d = netguard_detail(blocked_main, blocked_intercept, blocked_proxy);
        return (
            Err(
                WebgrabError::new(ExitCode::Netguard, "refused internal address during render").with_detail(
                    d.as_str(),
                ),
            ),
            lines,
        );
    }
    if proxy_exceeded {
        proof {
            reveal_strlit("");
        }
        let m = exceed_msg(proxy_bytes, max_bytes_total, "");
        return (Err(WebgrabError::new(ExitCode::Http, m.as_str())), lines);
    }
    (result, lines)
}

// ---------------------------------------------------------------- the page's URL

/// A rendered page: its DOM and the URL it ended at.
pub struct Rendered {
    pub html: String,
    pub final_url: String,
}

/// The longest URL adopted from the page, in bytes.
pub const MAX_FINAL_URL_BYTES: usize = 8192;

/// What the serialization of a URL becomes without its user name and
/// password (`Url::set_username("")`, `Url::set_password(None)`); none
/// where `href` does not parse.
pub uninterp spec fn without_userinfo(href: Seq<char>) -> Option<Seq<char>>;

/// url: `Url::parse(href)`, `set_username("")`, `set_password(None)`, then
/// `as_str`; `None` where `href` does not parse. The result is named, not
/// stated.
#[verifier::external_body]
fn strip_userinfo(href: &str) -> (r: Option<String>)
    ensures
        without_userinfo(href@) == match r {
            Some(t) => Some(t@),
            None => None::<Seq<char>>,
        },
{
    match url::Url::parse(href) {
        Ok(mut u) => {
            let _ = u.set_username("");
            let _ = u.set_password(None);
            Some(u.as_str().to_string())
        },
        Err(_) => None,
    }
}

/// A URL without its user name and password, or as it is where it does
/// not parse again.
pub open spec fn cleaned_url(href: Seq<char>) -> Seq<char> {
    match without_userinfo(href) {
        Some(c) => c,
        None => href,
    }
}

/// The URL a render ended at, as the page reported it: adopted only if it
/// parses as an http(s) URL whose serialization without user name and
/// password fits in `MAX_FINAL_URL_BYTES`; otherwise the requested URL
/// (for `about:blank`, `chrome-error://` and the like).
pub open spec fn final_url_of(requested: Seq<char>, reported: Option<Seq<char>>) -> Seq<char> {
    match reported {
        Some(r) => match parsed_url(r) {
            Ok(p) => if web_scheme(p.1) && utf8_seq_len(cleaned_url(p.0))
                <= MAX_FINAL_URL_BYTES {
                cleaned_url(p.0)
            } else {
                requested
            },
            Err(_) => requested,
        },
        None => requested,
    }
}

/// The URL a render ended at (see `final_url_of`).
pub fn resolve_final_url(requested: &str, reported: Option<&str>) -> (r: String)
    ensures
        r@ == final_url_of(
            requested@,
            match reported {
                Some(x) => Some(x@),
                None => None,
            },
        ),
{
    let rep = match reported {
        Some(x) => x,
        None => {
            return requested.to_owned();
        },
    };
    match parse_url(rep) {
        Ok(u) => {
            if !is_allowed_scheme(u.scheme.as_str()) {
                return requested.to_owned();
            }
            let clean = match strip_userinfo(u.href.as_str()) {
                Some(c) => c,
                None => u.href.clone(),
            };
            if utf8_fits(chars_of(clean.as_str()).as_slice(), MAX_FINAL_URL_BYTES) {
                clean
            } else {
                requested.to_owned()
            }
        },
        Err(_) => requested.to_owned(),
    }
}

// ---------------------------------------------------------------- intercepted requests

/// What the intercept layer does with a request, before any resolution.
pub enum Screen {
    /// Refuse it now: a `file:` URL, which could read local files, whatever
    /// `--allow-private` says (with the host, or `file`).
    Block(String, Resolution),
    /// Let Chrome have it: private addresses allowed, a URL that does not
    /// parse, a scheme other than http(s) (`data:`, `blob:`, `about:`) or no
    /// host.
    Pass,
    /// Resolve this host and port and refuse the request unless allowed.
    Check(String, u16),
}

/// What the intercept layer does with a request URL (see `Screen`).
pub fn screen_request(url: &str, allow_private: bool) -> (r: Screen)
    ensures
        match parsed_url(url@) {
            Err(_) => r is Pass,
            Ok(p) => if p.1 == "file"@ {
                r matches Screen::Block(h, res) && res is Unresolved && h@ == (match p.2 {
                    Some(x) => x,
                    None => "file"@,
                })
            } else if allow_private || !web_scheme(p.1) {
                r is Pass
            } else {
                match p.2 {
                    None => r is Pass,
                    Some(h) => r matches Screen::Check(hh, port) && hh@ == h && port == port_for(
                        p.1,
                        p.3,
                    ),
                }
            },
        },
{
    let u = match parse_url(url) {
        Ok(u) => u,
        Err(_) => {
            return Screen::Pass;
        },
    };
    let s = chars_of(u.scheme.as_str());
    if same(s.as_slice(), chars_of("file").as_slice()) {
        let h = match &u.host {
            Some(h) => h.clone(),
            None => "file".to_owned(),
        };
        return Screen::Block(h, Resolution::Unresolved);
    }
    if allow_private || !is_allowed_scheme(u.scheme.as_str()) {
        return Screen::Pass;
    }
    let port = port_to_connect(&u);
    match u.host {
        Some(h) => Screen::Check(h, port),
        None => Screen::Pass,
    }
}

// ---------------------------------------------------------------- interruptions

/// What ends a render before its content is read, checked at each poll and
/// once more after the wait: a blocked main navigation (exit code 8), then
/// a decompressed total over the budget (exit code 4, measure `network`).
pub fn render_interrupt(
    main_blocked: bool,
    decoded_exceeded: bool,
    decoded_total: u64,
    max_bytes_total: u64,
) -> (r: Option<WebgrabError>)
    ensures
        main_blocked ==> (r matches Some(e) && e.code == ExitCode::Netguard && e.message@
            == "refused internal address during render"@ && e.detail is None),
        !main_blocked && decoded_exceeded ==> (r matches Some(e) && e.code == ExitCode::Http
            && e.message@ == exceed_text(decoded_total, max_bytes_total, "network"@)
            && e.detail is None),
        !main_blocked && !decoded_exceeded ==> r is None,
{
    if main_blocked {
        return Some(WebgrabError::new(ExitCode::Netguard, "refused internal address during render"));
    }
    if decoded_exceeded {
        let m = exceed_msg(decoded_total, max_bytes_total, "network");
        return Some(WebgrabError::new(ExitCode::Http, m.as_str()));
    }
    None
}

/// The DOM about to be read is larger than what is left of the byte
/// budget after the decompressed downloads: exit code 4, measure `dom`.
pub fn dom_over_budget(dom_len: u64, max_bytes: u64, decoded_total: u64, max_bytes_total: u64) -> (r:
    Option<WebgrabError>)
    ensures
        dom_len > sat_sub(max_bytes, decoded_total) ==> (r matches Some(e) && e.code
            == ExitCode::Http && e.message@ == exceed_text(dom_len, max_bytes_total, "dom"@)
            && e.detail is None),
        dom_len <= sat_sub(max_bytes, decoded_total) ==> r is None,
{
    let left = max_bytes.saturating_sub(decoded_total);
    if dom_len > left {
        let m = exceed_msg(dom_len, max_bytes_total, "dom");
        Some(WebgrabError::new(ExitCode::Http, m.as_str()))
    } else {
        None
    }
}

/// The refusal of a render whose main navigation went to an internal
/// address (exit code 8; the detail comes in `finalize`).
pub open spec fn main_refused(e: WebgrabError) -> bool {
    e.code == ExitCode::Netguard && e.message@ == "refused internal address during render"@
        && e.detail is None
}

/// The error of a failed `goto`: the refusal when the main navigation was
/// blocked (the failure then comes from the block), otherwise a render
/// error with the browser's message as detail (exit code 7).
pub fn goto_failure(main_blocked: bool, message: &str) -> (r: WebgrabError)
    ensures
        main_blocked ==> main_refused(r),
        !main_blocked ==> r.code == ExitCode::Render && r.message@ == "navigation failed"@
            && (r.detail matches Some(d) && d@ == detail_from(message@, Seq::empty())),
{
    if main_blocked {
        WebgrabError::new(ExitCode::Netguard, "refused internal address during render")
    } else {
        WebgrabError::new(ExitCode::Render, "navigation failed").with_detail(message)
    }
}

/// The next step of a render once its wait is over.
pub enum FinishStep {
    /// Measure the length of the DOM.
    MeasureDom,
    /// Read the content.
    ReadContent,
    /// The render fails.
    Fail(WebgrabError),
    /// The content read is the render's result.
    Accept,
}

/// After the wait: a blocked main navigation or an exceeded download budget
/// ends the render (see `render_interrupt`); otherwise the DOM is measured.
pub fn after_wait(
    main_blocked: bool,
    decoded_exceeded: bool,
    decoded_total: u64,
    max_bytes_total: u64,
) -> (r: FinishStep)
    ensures
        main_blocked ==> (r matches FinishStep::Fail(e) && main_refused(e)),
        !main_blocked && decoded_exceeded ==> (r matches FinishStep::Fail(e) && e.code
            == ExitCode::Http && e.message@ == exceed_text(decoded_total, max_bytes_total, "network"@)
            && e.detail is None),
        !main_blocked && !decoded_exceeded ==> r is MeasureDom,
{
    match render_interrupt(main_blocked, decoded_exceeded, decoded_total, max_bytes_total) {
        Some(e) => FinishStep::Fail(e),
        None => FinishStep::MeasureDom,
    }
}

/// After measuring the DOM (`None` when its length could not be read): a
/// DOM larger than what is left of the byte budget ends the render (see
/// `dom_over_budget`); otherwise the content is read.
pub fn after_dom_length(
    dom_len: Option<u64>,
    max_bytes: u64,
    decoded_total: u64,
    max_bytes_total: u64,
) -> (r: FinishStep)
    ensures
        (dom_len matches Some(l) && l > sat_sub(max_bytes, decoded_total)) ==> (r matches FinishStep::Fail(
            e,
        ) && e.code == ExitCode::Http && e.message@ == exceed_text(
            dom_len->0,
            max_bytes_total,
            "dom"@,
        ) && e.detail is None),
        !(dom_len matches Some(l) && l > sat_sub(max_bytes, decoded_total)) ==> r is ReadContent,
{
    match dom_len {
        Some(l) => match dom_over_budget(l, max_bytes, decoded_total, max_bytes_total) {
            Some(e) => FinishStep::Fail(e),
            None => FinishStep::ReadContent,
        },
        None => FinishStep::ReadContent,
    }
}

/// After reading the content: a failed or timed-out read is a render error
/// (exit code 7); a main navigation blocked meanwhile is refused; otherwise
/// the content is accepted.
pub fn after_content(read: bool, main_blocked: bool) -> (r: FinishStep)
    ensures
        !read ==> (r matches FinishStep::Fail(e) && e.code == ExitCode::Render && e.message@
            == "content read failed or timed out"@ && e.detail is None),
        read && main_blocked ==> (r matches FinishStep::Fail(e) && main_refused(e)),
        read && !main_blocked ==> r is Accept,
{
    if !read {
        FinishStep::Fail(WebgrabError::new(ExitCode::Render, "content read failed or timed out"))
    } else if main_blocked {
        FinishStep::Fail(WebgrabError::new(ExitCode::Netguard, "refused internal address during render"))
    } else {
        FinishStep::Accept
    }
}

} // verus!
