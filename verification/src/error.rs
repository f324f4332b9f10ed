//! Errors and exit codes.
use crate::text::{
    lemma_utf8_prefix, char_utf8_len, chars_of, push_str, string_of, utf8_len, utf8_seq_len,
};
use vstd::prelude::*;

verus! {

broadcast use vstd::string::group_string_axioms;

/// webgrab's exit codes, in their numeric order (0 to 8).
#[derive(Debug, Clone, Copy, PartialEq, Eq, Structural)]
pub enum ExitCode {
    Success,
    Internal,
    Usage,
    Network,
    Http,
    Robots,
    Empty,
    Render,
    Netguard,
}

impl ExitCode {
    pub open spec fn spec_token(self) -> Seq<char> {
        match self {
            ExitCode::Success => "ok"@,
            ExitCode::Internal => "internal"@,
            ExitCode::Usage => "usage"@,
            ExitCode::Network => "network"@,
            ExitCode::Http => "http"@,
            ExitCode::Robots => "robots"@,
            ExitCode::Empty => "empty"@,
            ExitCode::Render => "render"@,
            ExitCode::Netguard => "netguard"@,
        }
    }

    pub open spec fn spec_number(self) -> u8 {
        match self {
            ExitCode::Success => 0,
            ExitCode::Internal => 1,
            ExitCode::Usage => 2,
            ExitCode::Network => 3,
            ExitCode::Http => 4,
            ExitCode::Robots => 5,
            ExitCode::Empty => 6,
            ExitCode::Render => 7,
            ExitCode::Netguard => 8,
        }
    }

    /// The `error=` token of the first stderr line (no whitespace).
    pub fn token(self) -> (r: &'static str)
        ensures
            r@ == self.spec_token(),
    {
        match self {
            ExitCode::Success => "ok",
            ExitCode::Internal => "internal",
            ExitCode::Usage => "usage",
            ExitCode::Network => "network",
            ExitCode::Http => "http",
            ExitCode::Robots => "robots",
            ExitCode::Empty => "empty",
            ExitCode::Render => "render",
            ExitCode::Netguard => "netguard",
        }
    }

    /// The process exit status.
    pub fn number(self) -> (r: u8)
        ensures
            r == self.spec_number(),
    {
        match self {
            ExitCode::Success => 0,
            ExitCode::Internal => 1,
            ExitCode::Usage => 2,
            ExitCode::Network => 3,
            ExitCode::Http => 4,
            ExitCode::Robots => 5,
            ExitCode::Empty => 6,
            ExitCode::Render => 7,
            ExitCode::Netguard => 8,
        }
    }
}

/// No token contains whitespace, so the first stderr line stays parseable.
pub proof fn lemma_tokens_have_no_whitespace(c: ExitCode)
    ensures
        forall|i: int|
            0 <= i < c.spec_token().len() ==> !crate::text::is_ws(#[trigger] c.spec_token()[i]),
{
    reveal_strlit("ok");
    reveal_strlit("internal");
    reveal_strlit("usage");
    reveal_strlit("network");
    reveal_strlit("http");
    reveal_strlit("robots");
    reveal_strlit("empty");
    reveal_strlit("render");
    reveal_strlit("netguard");
}

/// Byte budget of a detail line.
pub const DETAIL_MAX_BYTES: usize = 512;

/// How one character of a detail line is written: line breaks, tabs and
/// line/paragraph separators become a blank, other control characters vanish.
pub open spec fn detail_char(c: char) -> Option<char> {
    if c == '\t' || c == '\n' || c == '\r' || c == '\u{2028}' || c == '\u{2029}' {
        Some(' ')
    } else if c <= '\u{1f}' || ('\u{7f}' <= c && c <= '\u{9f}') {
        None
    } else {
        Some(c)
    }
}

/// Adding `c` would exceed the byte budget.
pub open spec fn over(out: Seq<char>, c: char) -> bool {
    utf8_seq_len(out) + utf8_len(c) > DETAIL_MAX_BYTES
}

/// A CSI final byte (0x40 to 0x7E).
pub open spec fn is_csi_final(c: char) -> bool {
    '\u{40}' <= c && c <= '\u{7e}'
}

/// The first CSI final byte among the first 100 characters.
pub open spec fn csi_final(rest: Seq<char>, k: nat) -> Option<nat>
    decreases 100 - k,
{
    if k >= 100 || k >= rest.len() {
        None
    } else if is_csi_final(rest[k as int]) {
        Some(k)
    } else {
        csi_final(rest, k + 1)
    }
}

/// Writes the characters of an unterminated CSI run: `Ok` with the output so
/// far, or `Err` with the finished (capped) output.
pub open spec fn push_mapped(saved: Seq<char>, out: Seq<char>) -> Result<Seq<char>, Seq<char>>
    decreases saved.len(),
{
    if saved.len() == 0 {
        Ok(out)
    } else {
        match detail_char(saved[0]) {
            None => push_mapped(saved.skip(1), out),
            Some(c) => if over(out, c) {
                Err(out.push('…'))
            } else {
                push_mapped(saved.skip(1), out.push(c))
            },
        }
    }
}

pub open spec fn min100(n: nat) -> nat {
    if n < 100 {
        n
    } else {
        100
    }
}

/// The detail line written for the rest `s` of the input, after `out`.
pub open spec fn detail_from(s: Seq<char>, out: Seq<char>) -> Seq<char>
    decreases s.len(),
{
    if s.len() == 0 {
        out
    } else if s[0] == '\u{1b}' && s.len() >= 2 && s[1] == '[' {
        let rest = s.skip(2);
        match csi_final(rest, 0) {
            Some(k) => if over(out, ' ') {
                out.push('…')
            } else {
                proof {
                    lemma_csi_final_bound(rest, 0);
                }
                detail_from(rest.skip(k as int + 1), out.push(' '))
            },
            None => {
                let n = min100(rest.len());
                if over(out, '[') {
                    out.push('…')
                } else {
                    match push_mapped(rest.take(n as int), out.push('[')) {
                        Ok(o) => detail_from(rest.skip(n as int), o),
                        Err(f) => f,
                    }
                }
            },
        }
    } else {
        match detail_char(s[0]) {
            None => detail_from(s.skip(1), out),
            Some(c) => if over(out, c) {
                out.push('…')
            } else {
                detail_from(s.skip(1), out.push(c))
            },
        }
    }
}

/// A single line: no control characters and no line/paragraph separators.
pub open spec fn one_line(o: Seq<char>) -> bool {
    forall|i: int|
        0 <= i < o.len() ==> !crate::text::is_cc(#[trigger] o[i]) && o[i] != '\u{2028}' && o[i]
            != '\u{2029}'
}

proof fn lemma_push_len(out: Seq<char>, c: char)
    ensures
        utf8_seq_len(out.push(c)) == utf8_seq_len(out) + utf8_len(c),
{
    assert(out.push(c).drop_last() == out);
}

proof fn lemma_one_line_push(o: Seq<char>, c: char)
    requires
        one_line(o),
        !crate::text::is_cc(c),
        c != '\u{2028}',
        c != '\u{2029}',
    ensures
        one_line(o.push(c)),
{
    assert forall|i: int| 0 <= i < o.push(c).len() implies !crate::text::is_cc(
        #[trigger] o.push(c)[i],
    ) && o.push(c)[i] != '\u{2028}' && o.push(c)[i] != '\u{2029}' by {
        if i < o.len() {
            assert(o.push(c)[i] == o[i]);
        }
    }
}

proof fn lemma_detail_char_ok(c: char)
    ensures
        detail_char(c) matches Some(d) ==> !crate::text::is_cc(d) && d != '\u{2028}' && d
            != '\u{2029}',
{
}

proof fn lemma_push_mapped(saved: Seq<char>, out: Seq<char>)
    requires
        one_line(out),
        utf8_seq_len(out) <= DETAIL_MAX_BYTES,
    ensures
        push_mapped(saved, out) matches Ok(o) ==> one_line(o) && utf8_seq_len(o)
            <= DETAIL_MAX_BYTES,
        push_mapped(saved, out) matches Err(f) ==> one_line(f) && utf8_seq_len(f)
            <= DETAIL_MAX_BYTES + 3,
    decreases saved.len(),
{
    if saved.len() > 0 {
        lemma_detail_char_ok(saved[0]);
        match detail_char(saved[0]) {
            None => lemma_push_mapped(saved.skip(1), out),
            Some(c) => {
                lemma_push_len(out, c);
                lemma_push_len(out, '…');
                if over(out, c) {
                    lemma_one_line_push(out, '…');
                } else {
                    lemma_one_line_push(out, c);
                    lemma_push_mapped(saved.skip(1), out.push(c));
                }
            },
        }
    }
}

/// The detail line is a single line of at most 512 bytes plus the `…` marker.
pub proof fn lemma_detail_one_line_capped(s: Seq<char>, out: Seq<char>)
    requires
        one_line(out),
        utf8_seq_len(out) <= DETAIL_MAX_BYTES,
    ensures
        one_line(detail_from(s, out)),
        utf8_seq_len(detail_from(s, out)) <= DETAIL_MAX_BYTES + 3,
    decreases s.len(),
{
    lemma_push_len(out, '…');
    lemma_push_len(out, ' ');
    lemma_push_len(out, '[');
    if s.len() == 0 {
    } else if s[0] == '\u{1b}' && s.len() >= 2 && s[1] == '[' {
        let rest = s.skip(2);
        match csi_final(rest, 0) {
            Some(k) => {
                if over(out, ' ') {
                    lemma_one_line_push(out, '…');
                } else {
                    lemma_one_line_push(out, ' ');
                    lemma_csi_final_bound(rest, 0);
                    lemma_detail_one_line_capped(rest.skip(k as int + 1), out.push(' '));
                }
            },
            None => {
                let n = min100(rest.len());
                if over(out, '[') {
                    lemma_one_line_push(out, '…');
                } else {
                    lemma_one_line_push(out, '[');
                    lemma_push_mapped(rest.take(n as int), out.push('['));
                    match push_mapped(rest.take(n as int), out.push('[')) {
                        Ok(o) => lemma_detail_one_line_capped(rest.skip(n as int), o),
                        Err(f) => {},
                    }
                }
            },
        }
    } else {
        lemma_detail_char_ok(s[0]);
        match detail_char(s[0]) {
            None => lemma_detail_one_line_capped(s.skip(1), out),
            Some(c) => {
                lemma_push_len(out, c);
                if over(out, c) {
                    lemma_one_line_push(out, '…');
                } else {
                    lemma_one_line_push(out, c);
                    lemma_detail_one_line_capped(s.skip(1), out.push(c));
                }
            },
        }
    }
}

pub proof fn lemma_csi_final_bound(rest: Seq<char>, k: nat)
    ensures
        csi_final(rest, k) matches Some(f) ==> k <= f < rest.len() && f < 100 && is_csi_final(
            rest[f as int],
        ) && forall|j: int| k <= j < f ==> !is_csi_final(#[trigger] rest[j]),
        csi_final(rest, k) is None ==> forall|j: int|
            k <= j < min100(rest.len()) ==> !is_csi_final(#[trigger] rest[j]),
    decreases 100 - k,
{
    if k < 100 && k < rest.len() && !is_csi_final(rest[k as int]) {
        lemma_csi_final_bound(rest, k + 1);
    }
}

/// A one-line text that fits is copied as it is: `detail_from(ext + y, out)`
/// goes on as `detail_from(y, out + ext)`.
proof fn lemma_detail_copies(ext: Seq<char>, y: Seq<char>, out: Seq<char>)
    requires
        one_line(out + ext),
        utf8_seq_len(out + ext) <= DETAIL_MAX_BYTES,
    ensures
        detail_from(ext + y, out) == detail_from(y, out + ext),
    decreases ext.len(),
{
    if ext.len() == 0 {
        assert(ext + y == y);
        assert(out + ext == out);
    } else {
        let c = ext[0];
        let o2 = out.push(c);
        assert((out + ext)[out.len() as int] == c);
        assert((ext + y)[0] == c);
        assert((ext + y).skip(1) == ext.skip(1) + y);
        assert(o2 + ext.skip(1) == out + ext);
        assert((out + ext).take(out.len() + 1int) == o2);
        lemma_utf8_prefix(out + ext, out.len() + 1int);
        lemma_push_len(out, c);
        lemma_detail_copies(ext.skip(1), y, o2);
    }
}

/// A `…` read after `out` is written as `…`, whether it fits or marks the cut.
proof fn lemma_detail_ellipsis(out: Seq<char>)
    ensures
        detail_from(seq!['…'], out) == out.push('…'),
{
    let s = seq!['…'];
    assert(s[0] == '…');
    assert(detail_char('…') == Some('…'));
    assert(s.skip(1).len() == 0);
    assert(detail_from(s.skip(1), out.push('…')) == out.push('…'));
}

proof fn lemma_push_mapped_prefix(saved: Seq<char>, out: Seq<char>)
    requires
        one_line(out),
        utf8_seq_len(out) <= DETAIL_MAX_BYTES,
    ensures
        push_mapped(saved, out) matches Ok(o) ==> o.len() >= out.len() && o.take(out.len() as int)
            == out && one_line(o) && utf8_seq_len(o) <= DETAIL_MAX_BYTES,
        push_mapped(saved, out) matches Err(f) ==> f.len() > out.len() && f.last() == '…'
            && f.drop_last().take(out.len() as int) == out && one_line(f.drop_last())
            && utf8_seq_len(f.drop_last()) <= DETAIL_MAX_BYTES,
    decreases saved.len(),
{
    assert(out.take(out.len() as int) == out);
    if saved.len() > 0 {
        lemma_detail_char_ok(saved[0]);
        match detail_char(saved[0]) {
            None => lemma_push_mapped_prefix(saved.skip(1), out),
            Some(c) => {
                lemma_push_len(out, c);
                if over(out, c) {
                    assert(out.push('…').drop_last() == out);
                } else {
                    let o2 = out.push(c);
                    lemma_one_line_push(out, c);
                    lemma_push_mapped_prefix(saved.skip(1), o2);
                    assert(o2.take(out.len() as int) == out);
                    match push_mapped(saved.skip(1), o2) {
                        Ok(o) => {
                            assert(o.take(out.len() as int) == o.take(o2.len() as int).take(
                                out.len() as int,
                            ));
                        },
                        Err(f) => {
                            let g = f.drop_last();
                            assert(g.take(out.len() as int) == g.take(o2.len() as int).take(
                                out.len() as int,
                            ));
                        },
                    }
                }
            },
        }
    }
}

/// The detail line written after `out` begins with `out`, and reading the
/// rest of it again after `out` writes it again.
proof fn lemma_detail_rereads(s: Seq<char>, out: Seq<char>)
    requires
        one_line(out),
        utf8_seq_len(out) <= DETAIL_MAX_BYTES,
    ensures
        detail_from(s, out).len() >= out.len(),
        detail_from(s, out).take(out.len() as int) == out,
        detail_from(detail_from(s, out).skip(out.len() as int), out) == detail_from(s, out),
    decreases s.len(),
{
    let r = detail_from(s, out);
    let n = out.len() as int;
    assert(out.take(n) == out);
    assert(out.push('…').skip(n) == seq!['…']);
    assert(out.push('…').take(n) == out);
    lemma_detail_ellipsis(out);
    if s.len() == 0 {
        assert(r.skip(n).len() == 0);
    } else if s[0] == '\u{1b}' && s.len() >= 2 && s[1] == '[' {
        let rest = s.skip(2);
        lemma_csi_final_bound(rest, 0);
        match csi_final(rest, 0) {
            Some(k) => {
                if !over(out, ' ') {
                    let o2 = out.push(' ');
                    lemma_push_len(out, ' ');
                    lemma_one_line_push(out, ' ');
                    lemma_detail_rereads(rest.skip(k as int + 1), o2);
                    assert(r.take(n) == r.take(n + 1).take(n));
                    assert(r[n] == r.take(n + 1)[n]);
                    assert(r.skip(n) == seq![' '] + r.skip(n + 1));
                    assert(out + seq![' '] == o2);
                    lemma_detail_copies(seq![' '], r.skip(n + 1), out);
                }
            },
            None => {
                let m = min100(rest.len());
                if !over(out, '[') {
                    let o1 = out.push('[');
                    lemma_push_len(out, '[');
                    lemma_one_line_push(out, '[');
                    lemma_push_mapped_prefix(rest.take(m as int), o1);
                    assert(o1.take(n) == out);
                    match push_mapped(rest.take(m as int), o1) {
                        Ok(o) => {
                            lemma_detail_rereads(rest.skip(m as int), o);
                            assert(o.take(n) == o.take(o1.len() as int).take(n));
                            let ext = o.skip(n);
                            assert(o == out + ext);
                            assert(r.take(n) == r.take(o.len() as int).take(n));
                            assert(r == o + r.skip(o.len() as int));
                            assert(r.skip(n) == ext + r.skip(o.len() as int));
                            lemma_detail_copies(ext, r.skip(o.len() as int), out);
                        },
                        Err(f) => {
                            let g = f.drop_last();
                            assert(g.take(n) == g.take(o1.len() as int).take(n));
                            let ext = g.skip(n);
                            assert(g == out + ext);
                            assert(f == g.push('…'));
                            assert(r.skip(n) == ext + seq!['…']);
                            assert(r.take(n) == g.take(n));
                            lemma_detail_copies(ext, seq!['…'], out);
                            lemma_detail_ellipsis(g);
                        },
                    }
                }
            },
        }
    } else {
        lemma_detail_char_ok(s[0]);
        match detail_char(s[0]) {
            None => {
                lemma_detail_rereads(s.skip(1), out);
            },
            Some(c) => {
                lemma_push_len(out, c);
                if !over(out, c) {
                    let o2 = out.push(c);
                    lemma_one_line_push(out, c);
                    lemma_detail_rereads(s.skip(1), o2);
                    assert(r.take(n) == r.take(n + 1).take(n));
                    assert(r[n] == r.take(n + 1)[n]);
                    assert(r.skip(n) == seq![c] + r.skip(n + 1));
                    assert(out + seq![c] == o2);
                    lemma_detail_copies(seq![c], r.skip(n + 1), out);
                }
            },
        }
    }
}

/// Folding a detail line that is already folded changes nothing.
pub proof fn lemma_sanitize_detail_idempotent(s: Seq<char>)
    ensures
        detail_from(detail_from(s, Seq::empty()), Seq::empty()) == detail_from(s, Seq::empty()),
{
    let e = Seq::<char>::empty();
    assert(utf8_seq_len(e) == 0);
    lemma_detail_rereads(s, e);
    assert(detail_from(s, e).skip(0) == detail_from(s, e));
}

/// Folds a diagnostic into one line: C0/DEL/C1 controls are removed, line
/// breaks, tabs and line/paragraph separators become blanks, an ANSI CSI
/// sequence (ESC `[` params final) becomes one blank, and the line is cut at
/// the last character boundary within 512 bytes, followed by `…`.
pub fn sanitize_detail(s: &str) -> (r: String)
    ensures
        r@ == detail_from(s@, Seq::empty()),
        one_line(r@),
        utf8_seq_len(r@) <= DETAIL_MAX_BYTES + 3,
{
    proof {
        lemma_detail_one_line_capped(s@, Seq::empty());
    }
    let cs = chars_of(s);
    let n = cs.len();
    let mut out: Vec<char> = Vec::new();
    let mut bytes: usize = 0;
    let mut i: usize = 0;
    assert(cs@.skip(0) == cs@);
    while i < n
        invariant
            i <= n == cs@.len(),
            cs@ == s@,
            bytes == utf8_seq_len(out@),
            bytes <= DETAIL_MAX_BYTES,
            detail_from(s@, Seq::empty()) == detail_from(cs@.skip(i as int), out@),
            one_line(detail_from(s@, Seq::empty())),
            utf8_seq_len(detail_from(s@, Seq::empty())) <= DETAIL_MAX_BYTES + 3,
        decreases n - i,
    {
        let c = cs[i];
        let ghost t = cs@.skip(i as int);
        assert(t[0] == c);
        assert(i + 1 < n ==> t[1] == cs@[i + 1]);
        if c == '\u{1b}' && i + 1 < n && cs[i + 1] == '[' {
            let ghost rest = t.skip(2);
            assert(rest == cs@.skip(i + 2));
            // Look for a final byte among the next 100 characters.
            let mut k: usize = 0;
            let mut found = false;
            while k < 100 && i + 2 + k < n && !found
                invariant
                    i + 2 <= n == cs@.len(),
                    k <= 100,
                    i + 2 + k <= n,
                    rest == cs@.skip(i + 2),
                    found ==> k >= 1 && csi_final(rest, 0) == Some((k - 1) as nat),
                    !found ==> csi_final(rest, 0) == csi_final(rest, k as nat),
                decreases 101 - k,
            {
                let ch = cs[i + 2 + k];
                assert(rest[k as int] == ch);
                if '\u{40}' <= ch && ch <= '\u{7e}' {
                    found = true;
                }
                k = k + 1;
            }
            if found {
                if bytes + 1 > DETAIL_MAX_BYTES {
                    assert(over(out@, ' '));
                    assert(detail_from(t, out@) == out@.push('…'));
                    out.push('…');
                    return string_of(out.as_slice());
                }
                proof {
                    lemma_push_len(out@, ' ');
                    assert(rest.skip(k as int) == cs@.skip(i + 2 + k));
                }
                out.push(' ');
                bytes = bytes + 1;
                i = i + 2 + k;
            } else {
                let m = k;
                proof {
                    assert(csi_final(rest, k as nat) is None);
                    assert(m == min100(rest.len()));
                    assert(rest.take(m as int) == cs@.subrange(i + 2, i + 2 + m));
                }
                if bytes + 1 > DETAIL_MAX_BYTES {
                    assert(over(out@, '['));
                    assert(detail_from(t, out@) == out@.push('…'));
                    out.push('…');
                    return string_of(out.as_slice());
                }
                proof {
                    lemma_push_len(out@, '[');
                }
                let ghost before = out@;
                assert(!over(before, '['));
                out.push('[');
                bytes = bytes + 1;
                let ghost saved = rest.take(m as int);
                let ghost out0 = out@;
                assert(saved.skip(0) == saved);
                let ghost after = cs@.skip(i + 2 + m);
                assert(rest.skip(m as int) == after);
                assert(detail_from(t, before) == match push_mapped(saved, out0) {
                    Ok(o) => detail_from(after, o),
                    Err(f) => f,
                });
                let mut j: usize = 0;
                while j < m
                    invariant
                        i + 2 + m <= n == cs@.len(),
                        j <= m,
                        m <= 100,
                        cs@ == s@,
                        saved == cs@.subrange(i + 2, i + 2 + m),
                        bytes == utf8_seq_len(out@),
                        bytes <= DETAIL_MAX_BYTES,
                        push_mapped(saved, out0) == push_mapped(saved.skip(j as int), out@),
                        after == cs@.skip(i + 2 + m),
                        one_line(detail_from(s@, Seq::empty())),
                        utf8_seq_len(detail_from(s@, Seq::empty())) <= DETAIL_MAX_BYTES + 3,
                        detail_from(s@, Seq::empty()) == match push_mapped(saved, out0) {
                            Ok(o) => detail_from(after, o),
                            Err(f) => f,
                        },
                    decreases m - j,
                {
                    let ch = cs[i + 2 + j];
                    assert(saved.skip(j as int)[0] == ch);
                    assert(saved.skip(j as int).skip(1) == saved.skip(j + 1));
                    let mapped: Option<char> = if ch == '\t' || ch == '\n' || ch == '\r' || ch
                        == '\u{2028}' || ch == '\u{2029}' {
                        Some(' ')
                    } else if ch <= '\u{1f}' || ('\u{7f}' <= ch && ch <= '\u{9f}') {
                        None
                    } else {
                        Some(ch)
                    };
                    assert(mapped == detail_char(ch));
                    match mapped {
                        None => {},
                        Some(d) => {
                            let w = char_utf8_len(d);
                            if bytes + w > DETAIL_MAX_BYTES {
                                assert(push_mapped(saved.skip(j as int), out@) == Err::<
                                    Seq<char>,
                                    Seq<char>,
                                >(out@.push('…')));
                                out.push('…');
                                return string_of(out.as_slice());
                            }
                            proof {
                                lemma_push_len(out@, d);
                            }
                            out.push(d);
                            bytes = bytes + w;
                        },
                    }
                    j = j + 1;
                }
                proof {
                    assert(saved.skip(m as int) =~= Seq::<char>::empty());
                }
                i = i + 2 + m;
            }
        } else {
            let mapped: Option<char> = if c == '\t' || c == '\n' || c == '\r' || c == '\u{2028}'
                || c == '\u{2029}' {
                Some(' ')
            } else if c <= '\u{1f}' || ('\u{7f}' <= c && c <= '\u{9f}') {
                None
            } else {
                Some(c)
            };
            assert(mapped == detail_char(c));
            assert(t.skip(1) == cs@.skip(i + 1));
            match mapped {
                None => {},
                Some(d) => {
                    let w = char_utf8_len(d);
                    if bytes + w > DETAIL_MAX_BYTES {
                        assert(detail_from(t, out@) == out@.push('…'));
                        out.push('…');
                        return string_of(out.as_slice());
                    }
                    proof {
                        lemma_push_len(out@, d);
                    }
                    out.push(d);
                    bytes = bytes + w;
                },
            }
            i = i + 1;
        }
    }
    assert(cs@.skip(n as int) =~= Seq::<char>::empty());
    string_of(out.as_slice())
}

/// A webgrab error: exit code, human-readable message, an optional detail
/// line and machine-readable tokens for the first stderr line.
#[derive(Debug)]
pub struct WebgrabError {
    pub code: ExitCode,
    pub message: String,
    /// Extra diagnostic line (stderr line 2 onwards; may contain blanks).
    pub detail: Option<String>,
    /// Tokens appended to the first line (such as `hint=--render/--raw`).
    pub tokens: Vec<(&'static str, String)>,
}

/// `key=value`.
pub open spec fn token_text(t: (&'static str, String)) -> Seq<char> {
    t.0@ + seq!['='] + t.1@
}

/// The tokens as `k=v`, joined by single blanks.
pub open spec fn tokens_text(t: Seq<(&'static str, String)>) -> Seq<char>
    decreases t.len(),
{
    if t.len() == 0 {
        Seq::empty()
    } else if t.len() == 1 {
        token_text(t[0])
    } else {
        tokens_text(t.drop_last()) + seq![' '] + token_text(t.last())
    }
}

impl WebgrabError {
    /// The lines written to stderr: with tokens, the first line carries the
    /// tokens alone and the message moves to the second; the detail comes last.
    pub open spec fn lines(self) -> Seq<Seq<char>> {
        let head = "webgrab: error="@ + self.code.spec_token() + seq![' '];
        let base = if self.tokens@.len() == 0 {
            seq![head + self.message@]
        } else {
            seq![head + tokens_text(self.tokens@), self.message@]
        };
        match self.detail {
            Some(d) => base.push(d@),
            None => base,
        }
    }

    pub fn new(code: ExitCode, message: &str) -> (r: Self)
        ensures
            r.code == code,
            r.message@ == message@,
            r.detail is None,
            r.tokens@.len() == 0,
    {
        WebgrabError { code, message: message.to_owned(), detail: None, tokens: Vec::new() }
    }

    /// Attaches a detail line, folded by `sanitize_detail`.
    pub fn with_detail(self, detail: &str) -> (r: Self)
        ensures
            r.code == self.code,
            r.message == self.message,
            r.tokens == self.tokens,
            r.detail matches Some(d) && d@ == detail_from(detail@, Seq::empty()),
    {
        let d = sanitize_detail(detail);
        WebgrabError { code: self.code, message: self.message, detail: Some(d), tokens: self.tokens }
    }

    /// Appends a `key=value` token.
    pub fn with_token(self, key: &'static str, value: &str) -> (r: Self)
        ensures
            r.code == self.code,
            r.message == self.message,
            r.detail == self.detail,
            r.tokens@.len() == self.tokens@.len() + 1,
            r.tokens@.drop_last() == self.tokens@,
            r.tokens@.last().0 == key,
            r.tokens@.last().1@ == value@,
    {
        let mut tokens = self.tokens;
        tokens.push((key, value.to_owned()));
        WebgrabError { code: self.code, message: self.message, detail: self.detail, tokens }
    }

    /// The stderr lines, as `lines` states them.
    pub fn stderr_lines(&self) -> (r: Vec<String>)
        ensures
            r@.len() == self.lines().len(),
            forall|i: int| 0 <= i < r@.len() ==> #[trigger] r@[i]@ == self.lines()[i],
    {
        let mut head: Vec<char> = Vec::new();
        push_str(&mut head, "webgrab: error=");
        push_str(&mut head, self.code.token());
        head.push(' ');
        let ghost h = head@;
        let mut lines: Vec<String> = Vec::new();
        if self.tokens.len() == 0 {
            push_str(&mut head, self.message.as_str());
            lines.push(string_of(head.as_slice()));
        } else {
            let n = self.tokens.len();
            let mut i: usize = 0;
            while i < n
                invariant
                    n == self.tokens@.len(),
                    i <= n,
                    i == 0 ==> head@ == h,
                    i > 0 ==> head@ == h + tokens_text(self.tokens@.take(i as int)),
                decreases n - i,
            {
                let ghost before = head@;
                if i > 0 {
                    head.push(' ');
                }
                let (k, v) = &self.tokens[i];
                push_str(&mut head, k);
                head.push('=');
                push_str(&mut head, v.as_str());
                proof {
                    let t = self.tokens@.take(i + 1);
                    assert(t.drop_last() == self.tokens@.take(i as int));
                    assert(t.last() == self.tokens@[i as int]);
                    if i == 0 {
                        assert(head@ == h + token_text(t.last()));
                    } else {
                        assert(head@ == before + seq![' '] + token_text(t.last()));
                    }
                }
                i = i + 1;
            }
            assert(self.tokens@.take(n as int) == self.tokens@);
            lines.push(string_of(head.as_slice()));
            lines.push(self.message.clone());
        }
        match &self.detail {
            Some(d) => lines.push(d.clone()),
            None => {},
        }
        lines
    }
}

} // verus!
