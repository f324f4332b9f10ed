//! URLs as the logic reads them: the parts of a parsed URL, taken from the
//! `url` crate, and the port that a scheme implies.
use crate::text::{chars_of, same};
use vstd::prelude::*;

verus! {

broadcast use vstd::string::group_string_axioms;

/// The parts of a parsed URL that the logic reads.
pub struct UrlParts {
    /// The serialization (`Url::as_str`, also its `Display`).
    pub href: String,
    pub scheme: String,
    /// The host as written in the URL (IPv6 in brackets); none for URLs
    /// such as `data:` ones.
    pub host: Option<String>,
    /// The explicit port, none when absent or the scheme's default.
    pub port: Option<u16>,
    pub path: String,
}

/// An optional string, by its view.
pub open spec fn opt_view(o: Option<String>) -> Option<Seq<char>> {
    match o {
        Some(s) => Some(s@),
        None => None,
    }
}

/// The parts as plain values: serialization, scheme, host, port, path.
pub open spec fn parts_view(u: UrlParts) -> (Seq<char>, Seq<char>, Option<Seq<char>>, Option<u16>, Seq<char>) {
    (u.href@, u.scheme@, opt_view(u.host), u.port, u.path@)
}

/// What `url::Url::parse` gives for an input: the parts of the URL, or the
/// text of the parse error.
pub uninterp spec fn parsed_url(input: Seq<char>) -> Result<
    (Seq<char>, Seq<char>, Option<Seq<char>>, Option<u16>, Seq<char>),
    Seq<char>,
>;

/// What joining `input` onto the URL `base` gives (`Url::parse(base)`, then
/// `Url::join(input)`): the parts of the resolved URL, or the text of the
/// error.
pub uninterp spec fn joined_url(base: Seq<char>, input: Seq<char>) -> Result<
    (Seq<char>, Seq<char>, Option<Seq<char>>, Option<u16>, Seq<char>),
    Seq<char>,
>;

/// A parse result by its views.
pub open spec fn result_view(r: Result<UrlParts, String>) -> Result<
    (Seq<char>, Seq<char>, Option<Seq<char>>, Option<u16>, Seq<char>),
    Seq<char>,
> {
    match r {
        Ok(u) => Ok(parts_view(u)),
        Err(e) => Err(e@),
    }
}

/// url: `Url::parse(input)`, read into its parts (`as_str`, `scheme`,
/// `host_str`, `port`, `path`), or the error's text. The result is named,
/// not stated: the WHATWG parser is the crate's own.
#[verifier::external_body]
pub(crate) fn parse_url(input: &str) -> (r: Result<UrlParts, String>)
    ensures
        result_view(r) == parsed_url(input@),
{
    match url::Url::parse(input) {
        Ok(u) => Ok(UrlParts {
            href: u.as_str().to_string(),
            scheme: u.scheme().to_string(),
            host: u.host_str().map(String::from),
            port: u.port(),
            path: u.path().to_string(),
        }),
        Err(e) => Err(e.to_string()),
    }
}

/// url: `Url::parse(base)` and then `Url::join(input)` on it, read into its
/// parts as `parse_url` does, or the error's text. The base is always the
/// serialization of a parsed URL, which parses back to the same URL.
#[verifier::external_body]
pub(crate) fn join_url(base: &str, input: &str) -> (r: Result<UrlParts, String>)
    ensures
        result_view(r) == joined_url(base@, input@),
{
    let base = match url::Url::parse(base) {
        Ok(b) => b,
        Err(e) => return Err(e.to_string()),
    };
    match base.join(input) {
        Ok(u) => Ok(UrlParts {
            href: u.as_str().to_string(),
            scheme: u.scheme().to_string(),
            host: u.host_str().map(String::from),
            port: u.port(),
            path: u.path().to_string(),
        }),
        Err(e) => Err(e.to_string()),
    }
}

/// The default port of the schemes the `url` crate knows.
pub open spec fn default_port(scheme: Seq<char>) -> Option<u16> {
    if scheme == "http"@ || scheme == "ws"@ {
        Some(80)
    } else if scheme == "https"@ || scheme == "wss"@ {
        Some(443)
    } else if scheme == "ftp"@ {
        Some(21)
    } else {
        None
    }
}

fn is_scheme(s: &[char], name: &str) -> (r: bool)
    ensures
        r == (s@ == name@),
{
    same(s, chars_of(name).as_slice())
}

/// The explicit port, or else the scheme's default
/// (`Url::port_or_known_default`).
pub fn known_port(u: &UrlParts) -> (r: Option<u16>)
    ensures
        r == match u.port {
            Some(p) => Some(p),
            None => default_port(u.scheme@),
        },
{
    match u.port {
        Some(p) => Some(p),
        None => {
            let s = chars_of(u.scheme.as_str());
            if is_scheme(s.as_slice(), "http") || is_scheme(s.as_slice(), "ws") {
                Some(80)
            } else if is_scheme(s.as_slice(), "https") || is_scheme(s.as_slice(), "wss") {
                Some(443)
            } else if is_scheme(s.as_slice(), "ftp") {
                Some(21)
            } else {
                None
            }
        },
    }
}

/// The port to connect to: the explicit port, or else the scheme's
/// default, or else 80.
pub open spec fn port_for(scheme: Seq<char>, port: Option<u16>) -> u16 {
    match port {
        Some(p) => p,
        None => match default_port(scheme) {
            Some(p) => p,
            None => 80,
        },
    }
}

pub open spec fn connect_port(u: UrlParts) -> u16 {
    port_for(u.scheme@, u.port)
}

pub fn port_to_connect(u: &UrlParts) -> (r: u16)
    ensures
        r == connect_port(*u),
{
    match known_port(u) {
        Some(p) => p,
        None => 80,
    }
}

} // verus!
