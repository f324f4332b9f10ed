//! The request parsing of the render path's verifying proxy: where a
//! request goes (host and port) and how its head is rewritten before it is
//! forwarded to the pinned address. The sockets stay with the caller.
use crate::text::{
    chars_of, find_from, find_in, first_index, first_of, is_whitespace, is_ws, lower_seq, lowered,
    lossy_text, occurs_at, parse_u16, push_all, push_range, push_str, same, spec_parse_u16,
    string_of, trim, trimmed, utf8_lossy,
};
use vstd::prelude::*;

pub mod hostcache;

verus! {

broadcast use vstd::string::group_string_axioms;

// ---------------------------------------------------------------- host and port

/// `host[:port]` or `[ipv6][:port]`, trimmed. An empty authority, an empty
/// bracketed host, an unclosed `[`, and a port that is not a `u16` give
/// nothing; without a port, `default_port`.
pub open spec fn host_port(authority: Seq<char>, default_port: u16) -> Option<(Seq<char>, u16)> {
    let a = trim(authority);
    if a.len() == 0 {
        None
    } else if a[0] == '[' {
        let rest = a.skip(1);
        let close = first_of(rest, ']');
        if close >= rest.len() {
            None
        } else {
            let host = rest.take(close as int);
            let after = rest.skip(close as int + 1);
            let port = if after.len() > 0 && after[0] == ':' {
                spec_parse_u16(after.skip(1))
            } else {
                Some(default_port)
            };
            match port {
                Some(p) => if host.len() == 0 {
                    None
                } else {
                    Some((host, p))
                },
                None => None,
            }
        }
    } else {
        match last_colon(a) {
            Some(i) => if i > 0 && i + 1 < a.len() {
                match spec_parse_u16(a.skip(i + 1)) {
                    Some(p) => Some((a.take(i), p)),
                    None => None,
                }
            } else {
                Some((a, default_port))
            },
            None => Some((a, default_port)),
        }
    }
}

/// The position of the last `:`.
pub open spec fn last_colon(s: Seq<char>) -> Option<int>
    decreases s.len(),
{
    if s.len() == 0 {
        None
    } else if s.last() == ':' {
        Some(s.len() - 1)
    } else {
        last_colon(s.drop_last())
    }
}

proof fn lemma_last_colon(s: Seq<char>)
    ensures
        last_colon(s) matches Some(i) ==> 0 <= i < s.len() && s[i] == ':' && forall|j: int|
            i < j < s.len() ==> s[j] != ':',
        last_colon(s) is None ==> forall|j: int| 0 <= j < s.len() ==> s[j] != ':',
    decreases s.len(),
{
    if s.len() > 0 && s.last() != ':' {
        let p = s.drop_last();
        lemma_last_colon(p);
        assert forall|j: int| 0 <= j < p.len() implies p[j] == s[j] by {}
    }
}

fn last_colon_of(a: &[char]) -> (r: Option<usize>)
    ensures
        match r {
            Some(i) => last_colon(a@) == Some(i as int),
            None => last_colon(a@) is None,
        },
{
    let mut j = a.len();
    assert(a@.take(a@.len() as int) == a@);
    while j > 0 && a[j - 1] != ':'
        invariant
            j <= a.len(),
            last_colon(a@) == last_colon(a@.take(j as int)),
        decreases j,
    {
        assert(a@.take(j as int).drop_last() == a@.take(j - 1));
        j = j - 1;
    }
    assert(a@.take(a@.len() as int) == a@);
    if j == 0 {
        None
    } else {
        Some(j - 1)
    }
}

fn tail_u16(a: &[char], from: usize) -> (r: Option<u16>)
    requires
        from <= a.len(),
    ensures
        r == spec_parse_u16(a@.skip(from as int)),
{
    let mut t: Vec<char> = Vec::new();
    push_range(&mut t, a, from, a.len());
    assert(a@.subrange(from as int, a@.len() as int) == a@.skip(from as int));
    parse_u16(t.as_slice())
}

/// The host and port of an authority (see `host_port`).
pub fn parse_host_port(authority: &str, default_port: u16) -> (r: Option<(String, u16)>)
    ensures
        match r {
            Some((h, p)) => host_port(authority@, default_port) == Some((h@, p)),
            None => host_port(authority@, default_port) is None,
        },
{
    let a = trimmed(chars_of(authority).as_slice());
    let n = a.len();
    if n == 0 {
        return None;
    }
    if a[0] == '[' {
        let ghost rest = a@.skip(1);
        let close = first_index(a.as_slice(), 1, n, ']');
        assert(a@.subrange(1, n as int) == rest);
        if close >= n {
            return None;
        }
        let mut host: Vec<char> = Vec::new();
        push_range(&mut host, a.as_slice(), 1, close);
        assert(host@ == rest.take(close - 1));
        let ghost after = rest.skip(close - 1 + 1);
        assert(after == a@.skip(close + 1));
        let port = if close + 1 < n && a[close + 1] == ':' {
            assert(after[0] == a@[close + 1]);
            assert(after.skip(1) == a@.skip(close + 2));
            tail_u16(a.as_slice(), close + 2)
        } else {
            proof {
                if close + 1 < n {
                    assert(after[0] == a@[close + 1]);
                }
            }
            Some(default_port)
        };
        match port {
            Some(p) => {
                if host.len() == 0 {
                    return None;
                }
                return Some((string_of(host.as_slice()), p));
            },
            None => {
                return None;
            },
        }
    }
    proof {
        lemma_last_colon(a@);
    }
    match last_colon_of(a.as_slice()) {
        Some(i) => {
            if i > 0 && i + 1 < n {
                match tail_u16(a.as_slice(), i + 1) {
                    Some(p) => {
                        let mut h: Vec<char> = Vec::new();
                        push_range(&mut h, a.as_slice(), 0, i);
                        assert(h@ == a@.take(i as int));
                        Some((string_of(h.as_slice()), p))
                    },
                    None => None,
                }
            } else {
                Some((string_of(a.as_slice()), default_port))
            }
        },
        None => Some((string_of(a.as_slice()), default_port)),
    }
}

// ---------------------------------------------------------------- words

/// Number of leading whitespace characters.
pub open spec fn ws_run(s: Seq<char>) -> nat
    decreases s.len(),
{
    if s.len() > 0 && is_ws(s[0]) {
        1 + ws_run(s.skip(1))
    } else {
        0
    }
}

/// Length of the leading run of non-whitespace characters.
pub open spec fn word_len(s: Seq<char>) -> nat
    decreases s.len(),
{
    if s.len() > 0 && !is_ws(s[0]) {
        1 + word_len(s.skip(1))
    } else {
        0
    }
}

/// The next word of `split_whitespace`, and what follows it.
pub open spec fn next_word(s: Seq<char>) -> Option<(Seq<char>, Seq<char>)> {
    let t = s.skip(ws_run(s) as int);
    if t.len() == 0 {
        None
    } else {
        Some((t.take(word_len(t) as int), t.skip(word_len(t) as int)))
    }
}

proof fn lemma_runs(s: Seq<char>)
    ensures
        ws_run(s) <= s.len(),
        word_len(s) <= s.len(),
        word_len(s) < s.len() ==> is_ws(s[word_len(s) as int]),
        ws_run(s) < s.len() ==> !is_ws(s[ws_run(s) as int]),
        s.len() > 0 && !is_ws(s[0]) ==> word_len(s) > 0,
    decreases s.len(),
{
    if s.len() > 0 {
        lemma_runs(s.skip(1));
    }
}

/// The next word of `s[from..]`: its start and end.
fn word_at(s: &[char], from: usize) -> (r: Option<(usize, usize)>)
    requires
        from <= s.len(),
    ensures
        match r {
            Some((a, b)) => from <= a < b <= s.len() && next_word(s@.skip(from as int)) == Some(
                (s@.subrange(a as int, b as int), s@.skip(b as int)),
            ),
            None => next_word(s@.skip(from as int)) is None,
        },
{
    let mut a = from;
    while a < s.len() && is_whitespace(s[a])
        invariant
            from <= a <= s.len(),
            ws_run(s@.skip(from as int)) == (a - from) + ws_run(s@.skip(a as int)),
        decreases s.len() - a,
    {
        assert(s@.skip(a as int)[0] == s@[a as int]);
        assert(s@.skip(a as int).skip(1) == s@.skip(a + 1));
        a = a + 1;
    }
    if a < s.len() {
        assert(s@.skip(a as int)[0] == s@[a as int]);
    }
    let ghost t = s@.skip(a as int);
    assert(s@.skip(from as int).skip(ws_run(s@.skip(from as int)) as int) == t);
    if a == s.len() {
        return None;
    }
    let mut b = a;
    while b < s.len() && !is_whitespace(s[b])
        invariant
            a <= b <= s.len(),
            word_len(t) == (b - a) + word_len(s@.skip(b as int)),
            t == s@.skip(a as int),
        decreases s.len() - b,
    {
        assert(s@.skip(b as int)[0] == s@[b as int]);
        assert(s@.skip(b as int).skip(1) == s@.skip(b + 1));
        b = b + 1;
    }
    if b < s.len() {
        assert(s@.skip(b as int)[0] == s@[b as int]);
    }
    assert(t.take(word_len(t) as int) == s@.subrange(a as int, b as int));
    assert(t.skip(word_len(t) as int) == s@.skip(b as int));
    assert(b > a) by {
        assert(t[0] == s@[a as int]);
        lemma_runs(t);
    }
    Some((a, b))
}

/// `CONNECT host:port ...`: the target (port 443 by default); nothing for
/// another method (ASCII case ignored).
pub open spec fn connect_target(line: Seq<char>) -> Option<(Seq<char>, u16)> {
    match next_word(line) {
        Some((m, r1)) => if lower_seq(m) == "connect"@ {
            match next_word(r1) {
                Some((t, _)) => host_port(t, 443),
                None => None,
            }
        } else {
            None
        },
        None => None,
    }
}

/// The host and port of a `CONNECT` request line.
pub fn parse_connect_target(line: &str) -> (r: Option<(String, u16)>)
    ensures
        match r {
            Some((h, p)) => connect_target(line@) == Some((h@, p)),
            None => connect_target(line@) is None,
        },
{
    let s = chars_of(line);
    match word_at(s.as_slice(), 0) {
        Some((a, b)) => {
            assert(s@.skip(0) == s@);
            let mut m: Vec<char> = Vec::new();
            push_range(&mut m, s.as_slice(), a, b);
            let lm = lowered(m.as_slice());
            if !same(lm.as_slice(), chars_of("connect").as_slice()) {
                return None;
            }
            match word_at(s.as_slice(), b) {
                Some((c, d)) => {
                    let mut t: Vec<char> = Vec::new();
                    push_range(&mut t, s.as_slice(), c, d);
                    parse_host_port(string_of(t.as_slice()).as_str(), 443)
                },
                None => None,
            }
        },
        None => {
            assert(s@.skip(0) == s@);
            None
        },
    }
}

/// An absolute-form request line `METHOD scheme://host[:port]/path VERSION`:
/// the host, the port (by the scheme, http or https only) and the
/// origin-form line `METHOD /path VERSION` (path `/` when absent, version
/// `HTTP/1.1` when absent).
pub open spec fn absolute_request(line: Seq<char>) -> Option<(Seq<char>, u16, Seq<char>)> {
    match next_word(line) {
        Some((method, r1)) => match next_word(r1) {
            Some((target, r2)) => {
                let version = match next_word(r2) {
                    Some((v, _)) => v,
                    None => "HTTP/1.1"@,
                };
                match find_from(target, "://"@, 0) {
                    Some(k) => {
                        let scheme = lower_seq(target.take(k));
                        let rest = target.skip(k + 3);
                        let default_port: Option<u16> = if scheme == "https"@ {
                            Some(443)
                        } else if scheme == "http"@ {
                            Some(80)
                        } else {
                            None
                        };
                        let slash = first_of(rest, '/');
                        let authority = rest.take(slash as int);
                        let path = if slash < rest.len() {
                            rest.skip(slash as int)
                        } else {
                            "/"@
                        };
                        match default_port {
                            Some(dp) => match host_port(authority, dp) {
                                Some((h, p)) => Some((h, p, method + " "@ + path + " "@ + version)),
                                None => None,
                            },
                            None => None,
                        }
                    },
                    None => None,
                }
            },
            None => None,
        },
        None => None,
    }
}

/// Splits an absolute-form request line (see `absolute_request`).
pub fn parse_absolute_request(line: &str) -> (r: Option<(String, u16, String)>)
    ensures
        match r {
            Some((h, p, o)) => absolute_request(line@) == Some((h@, p, o@)),
            None => absolute_request(line@) is None,
        },
{
    let s = chars_of(line);
    assert(s@.skip(0) == s@);
    let (a, b) = match word_at(s.as_slice(), 0) {
        Some(w) => w,
        None => {
            return None;
        },
    };
    let (c, d) = match word_at(s.as_slice(), b) {
        Some(w) => w,
        None => {
            return None;
        },
    };
    let mut version: Vec<char> = Vec::new();
    match word_at(s.as_slice(), d) {
        Some((e, f)) => push_range(&mut version, s.as_slice(), e, f),
        None => push_str(&mut version, "HTTP/1.1"),
    }
    let mut target: Vec<char> = Vec::new();
    push_range(&mut target, s.as_slice(), c, d);
    let sep = chars_of("://");
    proof {
        reveal_strlit("://");
    }
    let k = match find_in(target.as_slice(), sep.as_slice(), 0) {
        Some(k) => k,
        None => {
            return None;
        },
    };
    proof {
        crate::text::lemma_find_from(target@, "://"@, 0);
    }
    let mut sch: Vec<char> = Vec::new();
    push_range(&mut sch, target.as_slice(), 0, k);
    let scheme = lowered(sch.as_slice());
    let dp: u16 = if same(scheme.as_slice(), chars_of("https").as_slice()) {
        443
    } else if same(scheme.as_slice(), chars_of("http").as_slice()) {
        80
    } else {
        return None;
    };
    let tn = target.len();
    let slash = first_index(target.as_slice(), k + 3, tn, '/');
    let ghost rest = target@.skip(k + 3);
    assert(target@.subrange(k + 3, tn as int) == rest);
    let mut authority: Vec<char> = Vec::new();
    push_range(&mut authority, target.as_slice(), k + 3, slash);
    assert(authority@ == rest.take(slash - (k + 3)));
    let mut origin: Vec<char> = Vec::new();
    push_range(&mut origin, s.as_slice(), a, b);
    push_str(&mut origin, " ");
    if slash < tn {
        push_range(&mut origin, target.as_slice(), slash, tn);
        assert(target@.subrange(slash as int, tn as int) == rest.skip(slash - (k + 3)));
    } else {
        push_str(&mut origin, "/");
    }
    push_str(&mut origin, " ");
    push_all(&mut origin, version.as_slice());
    match parse_host_port(string_of(authority.as_slice()).as_str(), dp) {
        Some((h, p)) => Some((h, p, string_of(origin.as_slice()))),
        None => None,
    }
}

// ---------------------------------------------------------------- head

/// The position of the first `"\r\n"`, or the length.
pub open spec fn first_crlf(s: Seq<char>) -> nat
    decreases s.len(),
{
    if s.len() < 2 {
        s.len()
    } else if s[0] == '\r' && s[1] == '\n' {
        0
    } else {
        1 + first_crlf(s.skip(1))
    }
}

pub proof fn lemma_first_crlf(s: Seq<char>)
    ensures
        first_crlf(s) <= s.len(),
        first_crlf(s) < s.len() ==> first_crlf(s) + 2 <= s.len(),
    decreases s.len(),
{
    if s.len() >= 2 && !(s[0] == '\r' && s[1] == '\n') {
        lemma_first_crlf(s.skip(1));
    }
}

/// The pieces of `s` between `"\r\n"` separators (`str::split("\r\n")`).
pub open spec fn crlf_pieces(s: Seq<char>) -> Seq<Seq<char>>
    decreases s.len(),
{
    let p = first_crlf(s);
    if p < s.len() {
        proof {
            lemma_first_crlf(s);
        }
        seq![s.take(p as int)] + crlf_pieces(s.skip(p as int + 2))
    } else {
        seq![s]
    }
}

/// A header line that the proxy drops: hop-by-hop connection headers.
pub open spec fn dropped_header(line: Seq<char>) -> bool {
    let l = lower_seq(line);
    crate::text::has_prefix(l, "proxy-connection:"@) || crate::text::has_prefix(
        l,
        "connection:"@,
    ) || crate::text::has_prefix(l, "keep-alive:"@)
}

/// The header lines kept, each followed by `"\r\n"`.
pub open spec fn kept_headers(ls: Seq<Seq<char>>) -> Seq<char>
    decreases ls.len(),
{
    if ls.len() == 0 {
        Seq::empty()
    } else {
        kept_headers(ls.drop_last()) + (if ls.last().len() == 0 || dropped_header(ls.last()) {
            Seq::empty()
        } else {
            ls.last() + "\r\n"@
        })
    }
}

/// The forwarded head: the origin-form request line, the headers of the
/// incoming head (read as UTF-8 with replacement) without empty lines and
/// connection headers, and `Connection: close`.
pub open spec fn rewritten_head(head: Seq<u8>, origin_line: Seq<char>) -> Seq<char> {
    origin_line + "\r\n"@ + kept_headers(crlf_pieces(lossy_text(head)).skip(1))
        + "Connection: close\r\n\r\n"@
}

fn is_dropped_header(line: &[char]) -> (r: bool)
    ensures
        r == dropped_header(line@),
{
    let l = lowered(line);
    let a = chars_of("proxy-connection:");
    let b = chars_of("connection:");
    let c = chars_of("keep-alive:");
    crate::text::matches_at(l.as_slice(), a.as_slice(), 0) || crate::text::matches_at(
        l.as_slice(),
        b.as_slice(),
        0,
    ) || crate::text::matches_at(l.as_slice(), c.as_slice(), 0)
}

fn first_crlf_at(s: &[char], pos: usize) -> (r: usize)
    requires
        pos <= s.len(),
    ensures
        pos <= r <= s.len(),
        r - pos == first_crlf(s@.skip(pos as int)),
{
    let n = s.len();
    let mut i = pos;
    while i < n && n - i >= 2 && !(s[i] == '\r' && s[i + 1] == '\n')
        invariant
            pos <= i <= n == s@.len(),
            first_crlf(s@.skip(pos as int)) == (i - pos) + first_crlf(s@.skip(i as int)),
        decreases n - i,
    {
        assert(s@.skip(i as int).skip(1) == s@.skip(i + 1));
        assert(s@.skip(i as int)[0] == s@[i as int]);
        assert(s@.skip(i as int)[1] == s@[i + 1]);
        i = i + 1;
    }
    if i < n && n - i >= 2 {
        assert(s@.skip(i as int)[0] == s@[i as int]);
        assert(s@.skip(i as int)[1] == s@[i + 1]);
        i
    } else {
        n
    }
}

fn split_crlf(s: &[char]) -> (r: Vec<Vec<char>>)
    ensures
        crate::text::vviews(r@) == crlf_pieces(s@),
{
    let n = s.len();
    let mut out: Vec<Vec<char>> = Vec::new();
    let mut pos: usize = 0;
    assert(s@.skip(0) == s@);
    loop
        invariant
            pos <= n == s@.len(),
            crate::text::vviews(out@) + crlf_pieces(s@.skip(pos as int)) == crlf_pieces(s@),
        decreases n - pos,
    {
        let ghost t = s@.skip(pos as int);
        let ghost o = crate::text::vviews(out@);
        let p = first_crlf_at(s, pos);
        proof {
            lemma_first_crlf(t);
        }
        let mut piece: Vec<char> = Vec::new();
        push_range(&mut piece, s, pos, p);
        assert(piece@ == t.take(p - pos));
        out.push(piece);
        assert(crate::text::vviews(out@) == o.push(t.take(p - pos)));
        if p < n {
            assert(t.skip(p - pos + 2) == s@.skip(p + 2));
            assert(crate::text::vviews(out@) + crlf_pieces(s@.skip(p + 2)) == o + crlf_pieces(t));
            pos = p + 2;
        } else {
            assert(t.take(p - pos) == t);
            assert(crate::text::vviews(out@) == o + crlf_pieces(t));
            return out;
        }
    }
}

/// Rewrites a request head for forwarding: the origin-form line first,
/// empty lines and connection headers (`Proxy-Connection`, `Connection`,
/// `Keep-Alive`, ASCII case ignored) dropped, and `Connection: close` last.
/// `first_line` is not used: the first line of `head` is always replaced.
pub fn rewrite_head(head: &[u8], first_line: &str, origin_line: &str) -> (r: String)
    ensures
        r@ == rewritten_head(head@, origin_line@),
{
    let text = utf8_lossy(head);
    let pieces = split_crlf(chars_of(text.as_str()).as_slice());
    let ghost ls = crlf_pieces(lossy_text(head@)).skip(1);
    let mut out: Vec<char> = Vec::new();
    push_str(&mut out, origin_line);
    push_str(&mut out, "\r\n");
    let ghost h = out@;
    let mut i: usize = 1;
    while i < pieces.len()
        invariant
            1 <= i <= pieces.len() || pieces.len() == 0,
            crate::text::vviews(pieces@) == crlf_pieces(lossy_text(head@)),
            ls == crlf_pieces(lossy_text(head@)).skip(1),
            out@ == h + kept_headers(ls.take(i - 1)),
        decreases pieces.len() - i,
    {
        let line = &pieces[i];
        assert(ls.take(i as int).drop_last() == ls.take(i - 1));
        assert(ls.take(i as int).last() == line@);
        if line.len() > 0 && !is_dropped_header(line.as_slice()) {
            push_all(&mut out, line.as_slice());
            push_str(&mut out, "\r\n");
        }
        i = i + 1;
    }
    proof {
        if pieces.len() > 0 {
            assert(ls.take(pieces.len() - 1) == ls);
        } else {
            assert(ls.len() == 0);
            assert(ls.take(0) == ls);
        }
    }
    push_str(&mut out, "Connection: close\r\n\r\n");
    string_of(out.as_slice())
}

// ---------------------------------------------------------------- bytes

/// `needle` occurs in `h` at `i`.
pub open spec fn bytes_at(h: Seq<u8>, needle: Seq<u8>, i: int) -> bool {
    0 <= i && i + needle.len() <= h.len() && h.subrange(i, i + needle.len()) == needle
}

/// The first position of a non-empty `needle` in `h`.
pub fn find_subslice(haystack: &[u8], needle: &[u8]) -> (r: Option<usize>)
    ensures
        match r {
            Some(i) => needle@.len() > 0 && bytes_at(haystack@, needle@, i as int) && forall|j: int|
                0 <= j < i ==> !bytes_at(haystack@, needle@, j),
            None => needle@.len() == 0 || forall|j: int| 0 <= j ==> !bytes_at(haystack@, needle@, j),
        },
{
    if needle.len() == 0 || haystack.len() < needle.len() {
        return None;
    }
    let n = haystack.len();
    let m = needle.len();
    let mut i: usize = 0;
    while i <= n - m
        invariant
            0 < m <= n == haystack@.len(),
            m == needle@.len(),
            i <= n,
            forall|j: int| 0 <= j < i ==> !bytes_at(haystack@, needle@, j),
        decreases n - i,
    {
        let mut k: usize = 0;
        while k < m && haystack[i + k] == needle[k]
            invariant
                i + m <= n == haystack@.len(),
                m == needle@.len(),
                k <= m,
                forall|t: int| 0 <= t < k ==> haystack@[i + t] == needle@[t],
            decreases m - k,
        {
            k = k + 1;
        }
        if k == m {
            assert(haystack@.subrange(i as int, i + m) =~= needle@);
            return Some(i);
        }
        assert(haystack@.subrange(i as int, i + m)[k as int] != needle@[k as int]);
        i = i + 1;
    }
    None
}

// ---------------------------------------------------------------- reading a request head

/// The longest request head the proxy reads before refusing it, in bytes.
pub const MAX_HEAD_BYTES: usize = 65536;

/// The buffer of one relay read, in bytes.
pub const RELAY_BUF: usize = 16384;

/// The end of a request head.
pub open spec fn blank_line() -> Seq<u8> {
    seq![13u8, 10u8, 13u8, 10u8]
}

/// Where reading a request head stands.
pub enum HeadScan {
    /// The head ends here: the offset of its closing `"\r\n\r\n"`.
    Complete(usize),
    /// No end yet, and more than `MAX_HEAD_BYTES` read (answered 431).
    TooLarge,
    /// No end yet: read more.
    Incomplete,
}

/// Where reading the head stands after the bytes read so far.
pub fn scan_head(head: &[u8]) -> (r: HeadScan)
    ensures
        match r {
            HeadScan::Complete(p) => bytes_at(head@, blank_line(), p as int) && forall|j: int|
                0 <= j < p ==> !bytes_at(head@, blank_line(), j),
            HeadScan::TooLarge => (forall|j: int| 0 <= j ==> !bytes_at(head@, blank_line(), j))
                && head@.len() > MAX_HEAD_BYTES,
            HeadScan::Incomplete => (forall|j: int| 0 <= j ==> !bytes_at(head@, blank_line(), j))
                && head@.len() <= MAX_HEAD_BYTES,
        },
{
    let end: [u8; 4] = [13u8, 10u8, 13u8, 10u8];
    assert(end@ =~= blank_line());
    match find_subslice(head, &end) {
        Some(p) => HeadScan::Complete(p),
        None => if head.len() > MAX_HEAD_BYTES {
            HeadScan::TooLarge
        } else {
            HeadScan::Incomplete
        },
    }
}

/// `e` ends the first line of `head`: its first `"\r\n"`, or the end.
pub open spec fn first_line_end(head: Seq<u8>, e: int) -> bool {
    (bytes_at(head, seq![13u8, 10u8], e) && forall|j: int|
        0 <= j < e ==> !bytes_at(head, seq![13u8, 10u8], j)) || (e == head.len() && forall|j: int|
        0 <= j ==> !bytes_at(head, seq![13u8, 10u8], j))
}

/// The request line: the head up to its first `"\r\n"`, read as UTF-8 with
/// replacement.
pub fn request_line(head: &[u8]) -> (r: String)
    ensures
        exists|e: int| first_line_end(head@, e) && r@ == lossy_text(head@.take(e)),
{
    let crlf: [u8; 2] = [13u8, 10u8];
    assert(crlf@ =~= seq![13u8, 10u8]);
    let e = match find_subslice(head, &crlf) {
        Some(i) => i,
        None => head.len(),
    };
    let mut line: Vec<u8> = Vec::new();
    let mut i: usize = 0;
    while i < e
        invariant
            i <= e <= head@.len(),
            line@ == head@.take(i as int),
        decreases e - i,
    {
        line.push(head[i]);
        assert(head@.take(i + 1) =~= head@.take(i as int).push(head@[i as int]));
        i = i + 1;
    }
    let r = utf8_lossy(line.as_slice());
    assert(first_line_end(head@, e as int));
    r
}

/// A `CONNECT` request: its first seven characters are `CONNECT`, ASCII
/// case ignored.
pub fn is_connect_line(line: &str) -> (r: bool)
    ensures
        r == (line@.len() >= 7 && lower_seq(line@.take(7)) == "connect"@),
{
    let cs = chars_of(line);
    if cs.len() < 7 {
        return false;
    }
    let mut head: Vec<char> = Vec::new();
    push_range(&mut head, cs.as_slice(), 0, 7);
    let low = lowered(head.as_slice());
    same(low.as_slice(), chars_of("connect").as_slice())
}

} // verus!
