//! The decisions of a static fetch: which media types are accepted, what an
//! HTTP error says, when a body is over its byte budget, and which resolved
//! address is refused. The network side stays with the caller.
use crate::error::{detail_from, ExitCode, WebgrabError};
use crate::netguard::{deny, ip_string, ip_text, is_allowed_scheme, is_internal, IpAddress};
use crate::weburl::{
    connect_port, join_url, joined_url, opt_view, parse_url, parsed_url, parts_view, port_to_connect,
    UrlParts,
};
use crate::text::{
    chars_of, decimal, first_index, first_of, lower_seq, lowered, push_decimal, push_str, same,
    string_of, trim,
};
use vstd::prelude::*;

verus! {

broadcast use vstd::string::group_string_axioms;

/// The `Accept` header of the body request: HTML first.
pub const ACCEPT_HTML: &'static str = "text/html,application/xhtml+xml,text/plain;q=0.9,*/*;q=0.8";

/// At most this many redirects are followed.
pub const MAX_HOPS: usize = 10;

/// The byte limit of a robots.txt.
pub const ROBOTS_MAX_BYTES: usize = 524288;

/// A fetched response.
pub struct Fetched {
    pub final_url: String,
    pub content_type: Option<String>,
    pub body: Vec<u8>,
    /// Bytes consumed after decompression (for the remaining budget).
    pub consumed_bytes: u64,
}

/// What the fetch layer needs to know.
pub struct FetchOptions {
    pub user_agent: String,
    /// Overall timeout, in milliseconds.
    pub timeout_ms: u64,
    pub max_bytes: u64,
    pub allow_private: bool,
    pub check_robots: bool,
}

/// A supported media type (ASCII case ignored); empty is accepted, for
/// servers that send no Content-Type.
pub open spec fn supported(main: Seq<char>) -> bool {
    let m = lower_seq(main);
    m.len() == 0 || m == "text/html"@ || m == "application/xhtml+xml"@ || m == "text/plain"@
}

pub fn is_supported_media_type(main: &str) -> (r: bool)
    ensures
        r == supported(main@),
{
    let m = lowered(chars_of(main).as_slice());
    m.len() == 0 || same(m.as_slice(), chars_of("text/html").as_slice()) || same(
        m.as_slice(),
        chars_of("application/xhtml+xml").as_slice(),
    ) || same(m.as_slice(), chars_of("text/plain").as_slice())
}

/// The media type of a Content-Type value: before the first `;`, trimmed.
pub open spec fn media_type(ct: Seq<char>) -> Seq<char> {
    trim(ct.take(first_of(ct, ';') as int))
}

fn media_type_of(ct: &str) -> (r: Vec<char>)
    ensures
        r@ == media_type(ct@),
{
    let cs = chars_of(ct);
    let k = first_index(cs.as_slice(), 0, cs.len(), ';');
    assert(cs@.subrange(0, cs@.len() as int) == cs@);
    let mut head: Vec<char> = Vec::new();
    crate::text::push_range(&mut head, cs.as_slice(), 0, k);
    assert(head@ == cs@.take(k as int));
    crate::text::trimmed(head.as_slice())
}

/// The response is `text/plain` (ASCII case ignored; parameters such as
/// `charset` allowed).
pub open spec fn plain_text(ct: Option<Seq<char>>) -> bool {
    match ct {
        Some(c) => lower_seq(media_type(c)) == "text/plain"@,
        None => false,
    }
}

/// Whether the Content-Type is `text/plain`, whose body is passed through
/// without extraction or conversion.
pub fn is_plain_text(content_type: Option<&str>) -> (r: bool)
    ensures
        r == plain_text(
            match content_type {
                Some(c) => Some(c@),
                None => None,
            },
        ),
{
    match content_type {
        Some(ct) => {
            let m = lowered(media_type_of(ct).as_slice());
            same(m.as_slice(), chars_of("text/plain").as_slice())
        },
        None => false,
    }
}

/// The refusal of an unsupported Content-Type, where there is one.
pub fn check_content_type(content_type: Option<&str>) -> (r: Result<(), WebgrabError>)
    ensures
        match content_type {
            Some(c) => match r {
                Ok(_) => supported(media_type(c@)),
                Err(e) => !supported(media_type(c@)) && e.code == ExitCode::Http && e.message@
                    == "unsupported content-type: "@ + media_type(c@),
            },
            None => r is Ok,
        },
{
    match content_type {
        Some(ct) => {
            let main = media_type_of(ct);
            let text = string_of(main.as_slice());
            if is_supported_media_type(text.as_str()) {
                Ok(())
            } else {
                let mut msg: Vec<char> = Vec::new();
                push_str(&mut msg, "unsupported content-type: ");
                crate::text::push_all(&mut msg, main.as_slice());
                Err(WebgrabError::new(ExitCode::Http, string_of(msg.as_slice()).as_str()))
            }
        },
        None => Ok(()),
    }
}

/// A server error, or 429: worth retrying.
pub open spec fn retryable(status: u16) -> bool {
    (500 <= status <= 599) || status == 429
}

/// `HTTP <status> retryable=<bool>`, with ` hint=--render` for 403.
pub open spec fn http_message(status: u16) -> Seq<char> {
    "HTTP "@ + decimal(status as nat) + " retryable="@ + (if retryable(status) {
        "true"@
    } else {
        "false"@
    }) + (if status == 403 {
        " hint=--render"@
    } else {
        Seq::empty()
    })
}

/// The message of an HTTP error status.
pub fn http_error_message(status: u16) -> (r: String)
    ensures
        r@ == http_message(status),
{
    let mut v: Vec<char> = Vec::new();
    push_str(&mut v, "HTTP ");
    push_decimal(&mut v, status as u64);
    push_str(&mut v, " retryable=");
    if (500 <= status && status <= 599) || status == 429 {
        push_str(&mut v, "true");
    } else {
        push_str(&mut v, "false");
    }
    if status == 403 {
        push_str(&mut v, " hint=--render");
    }
    string_of(v.as_slice())
}

/// The error of a 4xx or 5xx response (exit code 4); `None` for other statuses.
pub fn status_error(status: u16) -> (r: Option<WebgrabError>)
    ensures
        match r {
            Some(e) => 400 <= status <= 599 && e.code == ExitCode::Http && e.message@
                == http_message(status) && e.detail is None && e.tokens@.len() == 0,
            None => !(400 <= status <= 599),
        },
{
    if 400 <= status && status <= 599 {
        let m = http_error_message(status);
        Some(WebgrabError::new(ExitCode::Http, m.as_str()))
    } else {
        None
    }
}

/// Adding a chunk of `chunk` bytes to `held` bytes would pass `max`.
pub fn over_budget(held: u64, chunk: u64, max: u64) -> (r: bool)
    ensures
        r == (held + chunk > max),
{
    chunk > max || held > max - chunk
}

/// The message of a body over `--max-bytes`.
pub fn max_bytes_message(max_bytes: u64) -> (r: String)
    ensures
        r@ == "response exceeds --max-bytes ("@ + decimal(max_bytes as nat) + ")"@,
{
    let mut v: Vec<char> = Vec::new();
    push_str(&mut v, "response exceeds --max-bytes (");
    push_decimal(&mut v, max_bytes as u64);
    push_str(&mut v, ")");
    string_of(v.as_slice())
}

/// The first resolved address that is internal, if any: one internal
/// address refuses the whole host.
pub fn first_internal(addrs: &[IpAddress]) -> (r: Option<usize>)
    ensures
        match r {
            Some(i) => i < addrs@.len() && deny(addrs@[i as int]) is Some && forall|j: int|
                0 <= j < i ==> deny(#[trigger] addrs@[j]) is None,
            None => forall|j: int| 0 <= j < addrs@.len() ==> deny(#[trigger] addrs@[j]) is None,
        },
{
    let mut i: usize = 0;
    while i < addrs.len()
        invariant
            i <= addrs.len(),
            forall|j: int| 0 <= j < i ==> deny(#[trigger] addrs@[j]) is None,
        decreases addrs.len() - i,
    {
        if is_internal(addrs[i]) {
            return Some(i);
        }
        i = i + 1;
    }
    None
}

// ---------------------------------------------------------------- hops and redirects

/// An error with this code and message, no detail and no token.
pub open spec fn plain_error(e: WebgrabError, code: ExitCode, message: Seq<char>) -> bool {
    e.code == code && e.message@ == message && e.detail is None && e.tokens@.len() == 0
}

/// An error with this code, message and detail line, no token.
pub open spec fn detailed_error(e: WebgrabError, code: ExitCode, message: Seq<char>, detail: Seq<char>) -> bool {
    e.code == code && e.message@ == message && (e.detail matches Some(d) && d@ == detail_from(
        detail,
        Seq::empty(),
    )) && e.tokens@.len() == 0
}

/// The URL to fetch; one that does not parse is a usage error (exit code 2).
pub fn parse_target(url: &str) -> (r: Result<UrlParts, WebgrabError>)
    ensures
        match (parsed_url(url@), r) {
            (Ok(p), Ok(u)) => parts_view(u) == p,
            (Err(m), Err(e)) => detailed_error(e, ExitCode::Usage, "invalid URL"@, m),
            _ => false,
        },
{
    match parse_url(url) {
        Ok(u) => Ok(u),
        Err(m) => Err(WebgrabError::new(ExitCode::Usage, "invalid URL").with_detail(m.as_str())),
    }
}

pub open spec fn web_scheme(scheme: Seq<char>) -> bool {
    scheme == "http"@ || scheme == "https"@
}

/// Where one hop goes: only http and https are fetched, and only from a
/// host (exit code 2 otherwise); the port is the URL's, or its scheme's
/// default.
pub fn hop_target(u: &UrlParts) -> (r: Result<(String, u16), WebgrabError>)
    ensures
        !web_scheme(u.scheme@) ==> (r matches Err(e) && plain_error(
            e,
            ExitCode::Usage,
            "unsupported scheme: "@ + u.scheme@,
        )),
        web_scheme(u.scheme@) && u.host is None ==> (r matches Err(e) && plain_error(
            e,
            ExitCode::Usage,
            "URL has no host"@,
        )),
        web_scheme(u.scheme@) && u.host is Some ==> (r matches Ok(t) && opt_view(u.host) == Some(
            t.0@,
        ) && t.1 == connect_port(*u)),
{
    if !is_allowed_scheme(u.scheme.as_str()) {
        let mut m: Vec<char> = Vec::new();
        push_str(&mut m, "unsupported scheme: ");
        push_str(&mut m, u.scheme.as_str());
        return Err(WebgrabError::new(ExitCode::Usage, string_of(m.as_slice()).as_str()));
    }
    match &u.host {
        Some(h) => Ok((h.clone(), port_to_connect(u))),
        None => Err(WebgrabError::new(ExitCode::Usage, "URL has no host")),
    }
}

/// The next hop of a redirect (exit code 3 when it cannot be followed): a
/// redirect needs a Location, which must resolve against the current URL,
/// and the last allowed hop may not redirect again.
pub fn redirect_target(current: &UrlParts, location: Option<&str>, hop: usize) -> (r: Result<
    UrlParts,
    WebgrabError,
>)
    requires
        hop < MAX_HOPS,
    ensures
        match location {
            None => r matches Err(e) && plain_error(e, ExitCode::Network, "redirect without location"@),
            Some(loc) => match (joined_url(current.href@, loc@), r) {
                (Err(m), Err(e)) => detailed_error(e, ExitCode::Network, "invalid redirect location"@, m),
                (Ok(_), Err(e)) => hop == MAX_HOPS - 1 && plain_error(
                    e,
                    ExitCode::Network,
                    "too many redirects"@,
                ),
                (Ok(p), Ok(u)) => hop < MAX_HOPS - 1 && parts_view(u) == p,
                _ => false,
            },
        },
{
    let loc = match location {
        Some(l) => l,
        None => {
            return Err(WebgrabError::new(ExitCode::Network, "redirect without location"));
        },
    };
    match join_url(current.href.as_str(), loc) {
        Err(m) => Err(
            WebgrabError::new(ExitCode::Network, "invalid redirect location").with_detail(m.as_str()),
        ),
        Ok(next) => if hop == MAX_HOPS - 1 {
            Err(WebgrabError::new(ExitCode::Network, "too many redirects"))
        } else {
            Ok(next)
        },
    }
}

/// The host, or empty.
pub open spec fn host_or_empty(u: UrlParts) -> Seq<char> {
    match u.host {
        Some(h) => h@,
        None => Seq::empty(),
    }
}

/// The robots.txt of a page's origin: `scheme://host[:port]/robots.txt`,
/// with the port only where the page's URL names one.
pub open spec fn robots_url_of(u: UrlParts) -> Seq<char> {
    u.scheme@ + "://"@ + host_or_empty(u) + (match u.port {
        Some(p) => seq![':'] + decimal(p as nat),
        None => Seq::empty(),
    }) + "/robots.txt"@
}

/// The robots.txt URL of a page, and the page's path that the rules are
/// matched against.
pub fn robots_target(u: &UrlParts) -> (r: (String, String))
    ensures
        r.0@ == robots_url_of(*u),
        r.1@ == u.path@,
{
    let ghost g = *u;
    let mut v: Vec<char> = Vec::new();
    push_str(&mut v, u.scheme.as_str());
    push_str(&mut v, "://");
    match &u.host {
        Some(h) => push_str(&mut v, h.as_str()),
        None => {},
    }
    let ghost mid = v@;
    match u.port {
        Some(p) => {
            v.push(':');
            push_decimal(&mut v, p as u64);
        },
        None => {},
    }
    push_str(&mut v, "/robots.txt");
    assert(v@ =~= robots_url_of(g));
    (string_of(v.as_slice()), u.path.clone())
}

/// Where a robots.txt redirect leads, followed once: nowhere (the page is
/// then allowed) without a Location, when it does not resolve, or off
/// http(s); otherwise the new URL with its host (empty if none) and port.
pub fn robots_redirect(target: &str, location: Option<&str>) -> (r: Option<(UrlParts, String, u16)>)
    ensures
        match location {
            None => r is None,
            Some(loc) => match joined_url(target@, loc@) {
                Err(_) => r is None,
                Ok(p) => if !web_scheme(p.1) {
                    r is None
                } else {
                    r matches Some(t) && parts_view(t.0) == p && t.1@ == host_or_empty(t.0) && t.2
                        == connect_port(t.0)
                },
            },
        },
{
    let loc = match location {
        Some(l) => l,
        None => {
            return None;
        },
    };
    match join_url(target, loc) {
        Err(_) => None,
        Ok(next) => {
            if !is_allowed_scheme(next.scheme.as_str()) {
                return None;
            }
            let host = match &next.host {
                Some(h) => h.clone(),
                None => String::new(),
            };
            let port = port_to_connect(&next);
            Some((next, host, port))
        },
    }
}

/// The refusal of a page that robots.txt disallows (exit code 5).
pub fn robots_blocked(url: &str) -> (r: WebgrabError)
    ensures
        detailed_error(r, ExitCode::Robots, "blocked by robots.txt"@, "url="@ + url@),
{
    let mut d: Vec<char> = Vec::new();
    push_str(&mut d, "url=");
    push_str(&mut d, url);
    WebgrabError::new(ExitCode::Robots, "blocked by robots.txt").with_detail(
        string_of(d.as_slice()).as_str(),
    )
}

/// The address to pin for a host, from what it resolved to: nothing is a
/// network error (exit code 3); unless private addresses are allowed, one
/// internal address refuses the host (exit code 8, naming the first such
/// address); otherwise the first address.
pub fn resolved_verdict(host: &str, addrs: &[IpAddress], allow_private: bool) -> (r: Result<
    IpAddress,
    WebgrabError,
>)
    ensures
        addrs@.len() == 0 ==> (r matches Err(e) && plain_error(
            e,
            ExitCode::Network,
            "no address for "@ + host@,
        )),
        addrs@.len() > 0 && (allow_private || forall|j: int|
            0 <= j < addrs@.len() ==> deny(#[trigger] addrs@[j]) is None) ==> r == Ok::<
            IpAddress,
            WebgrabError,
        >(addrs@[0]),
        addrs@.len() > 0 && !allow_private && (exists|j: int|
            0 <= j < addrs@.len() && deny(#[trigger] addrs@[j]) is Some) ==> (r matches Err(e) && exists|i: int|
            0 <= i < addrs@.len() && deny(addrs@[i]) is Some && (forall|j: int|
                0 <= j < i ==> deny(#[trigger] addrs@[j]) is None) && detailed_error(
                e,
                ExitCode::Netguard,
                "refused internal address"@,
                "host="@ + host@ + " resolved="@ + ip_text(addrs@[i])
                    + " (use --allow-private to override)"@,
            )),
{
    if addrs.len() == 0 {
        let mut m: Vec<char> = Vec::new();
        push_str(&mut m, "no address for ");
        push_str(&mut m, host);
        return Err(WebgrabError::new(ExitCode::Network, string_of(m.as_slice()).as_str()));
    }
    if !allow_private {
        match first_internal(addrs) {
            Some(i) => {
                let mut d: Vec<char> = Vec::new();
                push_str(&mut d, "host=");
                push_str(&mut d, host);
                push_str(&mut d, " resolved=");
                let t = ip_string(addrs[i]);
                push_str(&mut d, t.as_str());
                push_str(&mut d, " (use --allow-private to override)");
                return Err(
                    WebgrabError::new(ExitCode::Netguard, "refused internal address").with_detail(
                        string_of(d.as_slice()).as_str(),
                    ),
                );
            },
            None => {},
        }
    }
    Ok(addrs[0])
}

// ---------------------------------------------------------------- responses

/// What a fetch does with a response.
pub enum Step {
    /// Follow the redirect to this URL.
    Redirect(UrlParts),
    /// Read the body.
    Body,
}

/// The step after a response on hop `hop`: a 3xx redirects (see
/// `redirect_target`); a 4xx or 5xx is an HTTP error (exit code 4, see
/// `status_error`); otherwise the Content-Type must be supported (see
/// `check_content_type`) and the body is read.
pub fn response_step(
    current: &UrlParts,
    hop: usize,
    status: u16,
    location: Option<&str>,
    content_type: Option<&str>,
) -> (r: Result<Step, WebgrabError>)
    requires
        hop < MAX_HOPS,
    ensures
        300 <= status <= 399 ==> match location {
            None => r matches Err(e) && plain_error(e, ExitCode::Network, "redirect without location"@),
            Some(loc) => match (joined_url(current.href@, loc@), r) {
                (Err(m), Err(e)) => detailed_error(e, ExitCode::Network, "invalid redirect location"@, m),
                (Ok(_), Err(e)) => hop == MAX_HOPS - 1 && plain_error(
                    e,
                    ExitCode::Network,
                    "too many redirects"@,
                ),
                (Ok(p), Ok(Step::Redirect(u))) => hop < MAX_HOPS - 1 && parts_view(u) == p,
                _ => false,
            },
        },
        400 <= status <= 599 ==> (r matches Err(e) && plain_error(e, ExitCode::Http, http_message(status))),
        !(300 <= status <= 599) ==> match content_type {
            Some(c) => if supported(media_type(c@)) {
                r matches Ok(Step::Body)
            } else {
                r matches Err(e) && e.code == ExitCode::Http && e.message@
                    == "unsupported content-type: "@ + media_type(c@)
            },
            None => r matches Ok(Step::Body),
        },
{
    if 300 <= status && status <= 399 {
        return match redirect_target(current, location, hop) {
            Ok(u) => Ok(Step::Redirect(u)),
            Err(e) => Err(e),
        };
    }
    match status_error(status) {
        Some(e) => {
            return Err(e);
        },
        None => {},
    }
    match check_content_type(content_type) {
        Ok(()) => Ok(Step::Body),
        Err(e) => Err(e),
    }
}

/// How many robots.txt requests one check makes: the file, and the target
/// of one redirect.
pub const ROBOTS_ATTEMPTS: usize = 2;

/// What the robots.txt check does with a response.
pub enum RobotsStep {
    /// The page counts as allowed.
    Allowed,
    /// Follow the redirect to this URL, host and port.
    Follow(UrlParts, String, u16),
    /// Read the rules.
    ReadRules,
}

/// The step after a robots.txt response: on the first attempt a 3xx is
/// followed where `robots_redirect` leads (allowed where it leads nowhere);
/// any other status but a 2xx counts as allowed; a 2xx is read.
pub fn robots_step(attempt: usize, status: u16, target: &str, location: Option<&str>) -> (r:
    RobotsStep)
    ensures
        300 <= status <= 399 && attempt == 0 ==> match robots_redirect_spec(target@, location) {
            Some(p) => r matches RobotsStep::Follow(u, h, port) && parts_view(u) == p && h@
                == host_or_empty(u) && port == connect_port(u),
            None => r is Allowed,
        },
        !(300 <= status <= 399 && attempt == 0) && !(200 <= status <= 299) ==> r is Allowed,
        200 <= status <= 299 ==> r is ReadRules,
{
    if 300 <= status && status <= 399 && attempt == 0 {
        return match robots_redirect(target, location) {
            Some((u, h, p)) => RobotsStep::Follow(u, h, p),
            None => RobotsStep::Allowed,
        };
    }
    if !(200 <= status && status <= 299) {
        return RobotsStep::Allowed;
    }
    RobotsStep::ReadRules
}

/// Where a robots.txt redirect leads (see `robots_redirect`), as the parts
/// of the new URL.
pub open spec fn robots_redirect_spec(target: Seq<char>, location: Option<&str>) -> Option<
    (Seq<char>, Seq<char>, Option<Seq<char>>, Option<u16>, Seq<char>),
> {
    match location {
        None => None,
        Some(loc) => match joined_url(target, loc@) {
            Err(_) => None,
            Ok(p) => if web_scheme(p.1) {
                Some(p)
            } else {
                None
            },
        },
    }
}

} // verus!
