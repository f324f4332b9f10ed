//! HTML to Markdown / text conversion, and the scanners around it: removing
//! non-content elements, neutralizing executable link schemes, and measuring
//! the visible text of a page.
use crate::error::{ExitCode, WebgrabError};
use crate::text::{
    chars_of, is_control, is_punct, is_punctuation, is_sp, is_space, is_whitespace, is_ws,
    lemma_first_of_at, lines, lower_seq, lowered, matches_at, occurs_at, push_all, push_str, string_of,
};
use vstd::prelude::*;

pub mod nesting;
pub mod scheme;

use self::nesting::convertible;

use crate::output::{drop_controls, is_terminal_control};
use self::scheme::{danger, dmatch, is_stop, scheme_text, unit, Schemes};

verus! {

broadcast use vstd::string::group_string_axioms;

// ---------------------------------------------------------------- blanks

/// Number of leading ASCII blanks (space, tab, line feed, carriage return).
pub open spec fn sp_run(s: Seq<char>) -> nat
    decreases s.len(),
{
    if s.len() > 0 && is_sp(s[0]) {
        1 + sp_run(s.skip(1))
    } else {
        0
    }
}

pub proof fn lemma_sp_run(s: Seq<char>)
    ensures
        sp_run(s) <= s.len(),
        forall|j: int| 0 <= j < sp_run(s) ==> is_sp(#[trigger] s[j]),
        sp_run(s) < s.len() ==> !is_sp(s[sp_run(s) as int]),
    decreases s.len(),
{
    if s.len() > 0 && is_sp(s[0]) {
        lemma_sp_run(s.skip(1));
        assert forall|j: int| 0 <= j < sp_run(s) implies is_sp(#[trigger] s[j]) by {
            if j > 0 {
                assert(s[j] == s.skip(1)[j - 1]);
            }
        }
    }
}

/// Length of the blank run that starts at `k`.
fn sp_run_at(s: &[char], k: usize) -> (r: usize)
    requires
        k <= s.len(),
    ensures
        k + r <= s.len(),
        r == sp_run(s@.skip(k as int)),
{
    let mut j = k;
    assert(s@.skip(k as int) == s@.skip(k as int));
    while j < s.len() && is_space(s[j])
        invariant
            k <= j <= s.len(),
            sp_run(s@.skip(k as int)) == (j - k) + sp_run(s@.skip(j as int)),
        decreases s.len() - j,
    {
        assert(s@.skip(j as int).skip(1) == s@.skip(j + 1));
        assert(s@.skip(j as int)[0] == s@[j as int]);
        j = j + 1;
    }
    if j < s.len() {
        assert(s@.skip(j as int)[0] == s@[j as int]);
    }
    j - k
}

// ---------------------------------------------------------------- closing tags

/// Position right after the blanks that start at `k`.
pub open spec fn gt_after(h: Seq<char>, k: int) -> int {
    k + sp_run(h.skip(k))
}

/// A closing tag `p` (such as `</script`) starts at `m` and, after optional
/// blanks, ends with `>`.
pub open spec fn closes_at(h: Seq<char>, p: Seq<char>, m: int) -> bool {
    &&& occurs_at(h, p, m)
    &&& gt_after(h, m + p.len()) < h.len()
    &&& h[gt_after(h, m + p.len())] == '>'
}

/// The end (just past `>`) of the first closing tag `p` at or after `from`.
pub open spec fn close_from(h: Seq<char>, p: Seq<char>, from: int) -> Option<int> {
    if exists|m: int|
        from <= m && closes_at(h, p, m) && forall|j: int| from <= j < m ==> !closes_at(h, p, j) {
        let m = choose|m: int|
            from <= m && closes_at(h, p, m) && forall|j: int| from <= j < m ==> !closes_at(h, p, j);
        Some(gt_after(h, m + p.len()) + 1)
    } else {
        None
    }
}

pub proof fn lemma_close_from_bounds(h: Seq<char>, p: Seq<char>, from: int)
    ensures
        close_from(h, p, from) matches Some(e) ==> from < e <= h.len(),
{
    if close_from(h, p, from) is Some {
        let m = choose|m: int|
            from <= m && closes_at(h, p, m) && forall|j: int| from <= j < m ==> !closes_at(h, p, j);
        assert(gt_after(h, m + p.len()) >= m + p.len());
    }
}

/// The first closing tag `p` at or after `from` (positions are absolute).
fn find_close_tag_end(l: &[char], from: usize, p: &[char]) -> (r: Option<usize>)
    requires
        from <= l.len(),
    ensures
        match r {
            Some(e) => close_from(l@, p@, from as int) == Some(e as int),
            None => close_from(l@, p@, from as int) is None,
        },
{
    let mut m = from;
    while m < l.len()
        invariant
            from <= m <= l.len(),
            forall|j: int| from <= j < m ==> !closes_at(l@, p@, j),
        decreases l.len() - m,
    {
        if matches_at(l, p, m) {
            let k = m + p.len();
            let j = k + sp_run_at(l, k);
            if j < l.len() && l[j] == '>' {
                assert(closes_at(l@, p@, m as int));
                let ghost w = choose|w: int|
                    from <= w && closes_at(l@, p@, w) && forall|i: int|
                        from <= i < w ==> !closes_at(l@, p@, i);
                assert(w == m as int) by {
                    if w < m {
                    } else if w > m {
                    }
                }
                return Some(j + 1);
            }
        }
        m = m + 1;
    }
    assert forall|j: int| from <= j implies !closes_at(l@, p@, j) by {
        if j >= m {
            assert(gt_after(l@, j + p@.len()) >= j);
        }
    }
    None
}

// ---------------------------------------------------------------- elements

/// A character that may follow a tag name.
pub open spec fn is_tag_boundary(c: char) -> bool {
    c == ' ' || c == '\t' || c == '\n' || c == '\r' || c == '>' || c == '/'
}

/// An opening tag `<tag` starts at `i` of the lowercased text `l`.
pub open spec fn open_at(l: Seq<char>, tag: Seq<char>, i: int) -> bool {
    let open = seq!['<'] + tag;
    &&& occurs_at(l, open, i)
    &&& (i + open.len() == l.len() || is_tag_boundary(l[i + open.len()]))
}

/// `h[i..]` without the `tag` elements (`l` is `h` lowercased): each opening
/// tag is dropped with everything up to its closing tag; an element that is
/// never closed drops the rest of the text.
pub open spec fn strip_from(h: Seq<char>, l: Seq<char>, tag: Seq<char>, i: int) -> Seq<char>
    decreases h.len() - i,
{
    if i < 0 || i >= h.len() || l.len() != h.len() {
        Seq::empty()
    } else if open_at(l, tag, i) {
        match close_from(l, seq!['<', '/'] + tag, i) {
            Some(e) => {
                proof {
                    lemma_close_from_bounds(l, seq!['<', '/'] + tag, i);
                }
                strip_from(h, l, tag, e)
            },
            None => Seq::empty(),
        }
    } else {
        seq![h[i]] + strip_from(h, l, tag, i + 1)
    }
}

/// `h` without its `tag` elements (tag names compared ignoring ASCII case).
pub open spec fn strip_element(h: Seq<char>, tag: Seq<char>) -> Seq<char> {
    strip_from(h, lower_seq(h), tag, 0)
}

/// `h` without `<script>`, `<style>` and `<noscript>` elements.
pub open spec fn stripped(h: Seq<char>) -> Seq<char> {
    strip_element(strip_element(strip_element(h, "script"@), "style"@), "noscript"@)
}

fn remove_element(html: &[char], tag: &[char]) -> (r: Vec<char>)
    ensures
        r@ == strip_element(html@, tag@),
{
    let l = lowered(html);
    let mut open: Vec<char> = Vec::new();
    open.push('<');
    push_all(&mut open, tag);
    let mut close: Vec<char> = Vec::new();
    close.push('<');
    close.push('/');
    push_all(&mut close, tag);
    assert(open@ == seq!['<'] + tag@);
    assert(close@ == seq!['<', '/'] + tag@);
    let n = html.len();
    let mut out: Vec<char> = Vec::new();
    let mut i: usize = 0;
    while i < n
        invariant
            n == html@.len() == l@.len(),
            l@ == lower_seq(html@),
            open@ == seq!['<'] + tag@,
            close@ == seq!['<', '/'] + tag@,
            i <= n,
            strip_element(html@, tag@) == out@ + strip_from(html@, l@, tag@, i as int),
        decreases n - i,
    {
        let k = open.len();
        let is_open = matches_at(l.as_slice(), open.as_slice(), i) && (i + k == n || {
            let b = l[i + k];
            b == ' ' || b == '\t' || b == '\n' || b == '\r' || b == '>' || b == '/'
        });
        assert(is_open == open_at(l@, tag@, i as int));
        if is_open {
            match find_close_tag_end(l.as_slice(), i, close.as_slice()) {
                Some(e) => {
                    proof {
                        lemma_close_from_bounds(l@, close@, i as int);
                    }
                    i = e;
                },
                None => {
                    i = n;
                },
            }
        } else {
            out.push(html[i]);
            proof {
                assert(strip_from(html@, l@, tag@, i as int) == seq![html@[i as int]] + strip_from(
                    html@,
                    l@,
                    tag@,
                    i + 1,
                ));
            }
            i = i + 1;
        }
    }
    out
}

/// Removes `<script>`, `<style>` and `<noscript>` elements whole (tag names
/// in any case; `<scripts>` and other longer names stay), so that code and
/// CSS do not leak into the body of a `--raw` conversion.
pub fn strip_non_content(html: &str) -> (r: String)
    ensures
        r@ == stripped(html@),
{
    let out = strip_chars(chars_of(html).as_slice());
    string_of(out.as_slice())
}

fn strip_chars(h: &[char]) -> (r: Vec<char>)
    ensures
        r@ == stripped(h@),
{
    let script = chars_of("script");
    let style = chars_of("style");
    let noscript = chars_of("noscript");
    let a = remove_element(h, script.as_slice());
    let b = remove_element(a.as_slice(), style.as_slice());
    remove_element(b.as_slice(), noscript.as_slice())
}

// ---------------------------------------------------------------- link schemes

/// Number of leading control characters that output removes.
pub open spec fn tc_run(s: Seq<char>) -> nat
    decreases s.len(),
{
    if s.len() > 0 && is_terminal_control(s[0]) {
        1 + tc_run(s.skip(1))
    } else {
        0
    }
}

pub proof fn lemma_tc_run(s: Seq<char>)
    ensures
        tc_run(s) <= s.len(),
        forall|j: int| 0 <= j < tc_run(s) ==> is_terminal_control(#[trigger] s[j]),
        tc_run(s) < s.len() ==> !is_terminal_control(s[tc_run(s) as int]),
    decreases s.len(),
{
    if s.len() > 0 && is_terminal_control(s[0]) {
        lemma_tc_run(s.skip(1));
        assert forall|j: int| 0 <= j < tc_run(s) implies is_terminal_control(#[trigger] s[j]) by {
            if j > 0 {
                assert(s[j] == s.skip(1)[j - 1]);
            }
        }
    }
}

/// Length of the run of removable control characters that starts at `k`.
fn tc_run_at(s: &[char], k: usize) -> (r: usize)
    requires
        k <= s.len(),
    ensures
        k + r <= s.len(),
        r == tc_run(s@.skip(k as int)),
{
    let mut j = k;
    while j < s.len() && is_control(s[j]) && s[j] != '\t' && s[j] != '\n' && s[j] != '\r'
        invariant
            k <= j <= s.len(),
            tc_run(s@.skip(k as int)) == (j - k) + tc_run(s@.skip(j as int)),
        decreases s.len() - j,
    {
        assert(s@.skip(j as int).skip(1) == s@.skip(j + 1));
        assert(s@.skip(j as int)[0] == s@[j as int]);
        j = j + 1;
    }
    if j < s.len() {
        assert(s@.skip(j as int)[0] == s@[j as int]);
    }
    j - k
}

/// `s` begins with a `]` that opens a link target: `(` (inline link) or
/// `:` (reference definition) follows, with only control characters that
/// output removes between.
pub open spec fn opens_target(s: Seq<char>) -> bool {
    let c = tc_run(s.skip(1)) as int;
    &&& s.len() > 0
    &&& s[0] == ']'
    &&& 1 + c < s.len()
    &&& (s[1 + c] == '(' || s[1 + c] == ':')
}

/// The prefix put in front of a dangerous target.
pub open spec fn mark(t: Seq<char>, lead: bool) -> Seq<char> {
    if danger(t, lead) {
        "unsafe-"@
    } else {
        Seq::empty()
    }
}

/// Markdown with every dangerous link target prefixed by `unsafe-`: targets
/// follow an autolink `<`, or an inline link `](` / reference definition
/// `]:` and the blanks after it. No character is removed.
pub open spec fn sanitized(s: Seq<char>) -> Seq<char>
    decreases s.len(),
{
    if s.len() == 0 {
        Seq::empty()
    } else if s[0] == '<' {
        seq!['<'] + mark(s.skip(1), false) + sanitized(s.skip(1))
    } else if opens_target(s) {
        let c = tc_run(s.skip(1)) as int;
        let rest = s.skip(2 + c);
        let w = sp_run(rest);
        proof {
            lemma_tc_run(s.skip(1));
            lemma_sp_run(rest);
        }
        s.take(2 + c) + rest.take(w as int) + mark(rest.skip(w as int), true) + sanitized(
            rest.skip(w as int),
        )
    } else {
        seq![s[0]] + sanitized(s.skip(1))
    }
}

#[verifier::rlimit(40)]
fn sanitize_chars(s: &[char]) -> (r: Vec<char>)
    ensures
        r@ == sanitized(s@),
{
    let sch = Schemes::new();
    let n = s.len();
    let mut out: Vec<char> = Vec::new();
    let mut i: usize = 0;
    assert(s@.skip(0) == s@);
    while i < n
        invariant
            n == s@.len(),
            sch.ok(),
            i <= n,
            sanitized(s@) == out@ + sanitized(s@.skip(i as int)),
        decreases n - i,
    {
        let ghost t = s@.skip(i as int);
        let ghost o = out@;
        assert(t[0] == s@[i as int]);
        let c = if s[i] == ']' {
            tc_run_at(s, i + 1)
        } else {
            0
        };
        assert(t.skip(1) == s@.skip(i + 1));
        if s[i] == ']' && i + 1 + c < n {
            assert(t[1 + c] == s@[i + 1 + c]);
        }
        if s[i] == '<' {
            out.push('<');
            i = i + 1;
            if sch.danger_at(s, i, false) {
                push_str(&mut out, "unsafe-");
            }
            assert(out@ == o + seq!['<'] + mark(t.skip(1), false));
        } else if s[i] == ']' && i + 1 + c < n && (s[i + 1 + c] == '(' || s[i + 1 + c] == ':') {
            assert(opens_target(t));
            crate::text::push_range(&mut out, s, i, i + 2 + c);
            assert(t.take(2 + c) == s@.subrange(i as int, i + 2 + c));
            i = i + 2 + c;
            let ghost rest = t.skip(2 + c);
            assert(rest == s@.skip(i as int));
            let w = sp_run_at(s, i);
            crate::text::push_range(&mut out, s, i, i + w);
            assert(rest.take(w as int) == s@.subrange(i as int, i + w));
            i = i + w;
            assert(rest.skip(w as int) == s@.skip(i as int));
            if sch.danger_at(s, i, true) {
                push_str(&mut out, "unsafe-");
            }
            assert(out@ == o + t.take(2 + c) + rest.take(w as int) + mark(rest.skip(w as int), true));
        } else {
            assert(!opens_target(t));
            out.push(s[i]);
            i = i + 1;
        }
    }
    assert(s@.skip(n as int) == Seq::<char>::empty());
    out
}

/// Prefixes `unsafe-` to each link target (inline `](`, reference `]:`,
/// autolink `<`) whose scheme can run script when clicked (`javascript:`,
/// `vbscript:`, `data:text/html`, `data:image/svg+xml`), read as a renderer
/// reads it: escapes and character references decoded, control characters
/// skipped. Other URLs, such as `data:image/png`, are kept, and no character
/// is removed, so `Mutex<T>` and raw HTML tags are unchanged.
pub fn sanitize_link_schemes(md: &str) -> (r: String)
    ensures
        r@ == sanitized(md@),
        links_safe(r@),
        links_safe(drop_controls(r@)),
{
    proof {
        lemma_sanitized_links_safe(md@);
        lemma_written_links_safe(md@);
    }
    let out = sanitize_chars(chars_of(md).as_slice());
    string_of(out.as_slice())
}

/// The link target that starts at the front of `x`, and whether its
/// leading spaces are trimmed: after `<`, or after `](` / `]:` and blanks.
pub open spec fn target_at(x: Seq<char>) -> Option<(Seq<char>, bool)> {
    if x.len() > 0 && x[0] == '<' {
        Some((x.skip(1), false))
    } else if opens_target(x) {
        let r = x.skip(2 + tc_run(x.skip(1)) as int);
        Some((r.skip(sp_run(r) as int), true))
    } else {
        None
    }
}

/// The link target at `i` of `o`, if any, is not dangerous.
pub open spec fn target_ok(o: Seq<char>, i: int) -> bool {
    0 <= i <= o.len() ==> match target_at(o.skip(i)) {
        Some(t) => !danger(t.0, t.1),
        None => true,
    }
}

/// No link target of `o` has a dangerous scheme.
pub open spec fn links_safe(o: Seq<char>) -> bool {
    forall|i: int| #[trigger] target_ok(o, i)
}

/// Sanitizing keeps the first character.
pub proof fn lemma_sanitized_first(t: Seq<char>)
    requires
        t.len() > 0,
    ensures
        sanitized(t).len() > 0,
        sanitized(t)[0] == t[0],
{
    if t[0] == '<' {
    } else if opens_target(t) {
        let c = tc_run(t.skip(1)) as int;
        lemma_tc_run(t.skip(1));
        assert(t.take(2 + c)[0] == t[0]);
    } else {
    }
}

/// Characters before the first `<` or `]` are copied as they are.
proof fn lemma_copy_prefix(t: Seq<char>, k: int)
    requires
        0 <= k <= t.len(),
        forall|j: int| 0 <= j < k ==> !is_stop(#[trigger] t[j]),
    ensures
        sanitized(t) == t.take(k) + sanitized(t.skip(k)),
    decreases k,
{
    if k > 0 {
        assert(!is_stop(t[0]));
        assert forall|j: int| 0 <= j < k - 1 implies !is_stop(#[trigger] t.skip(1)[j]) by {
            assert(t.skip(1)[j] == t[j + 1]);
        }
        lemma_copy_prefix(t.skip(1), k - 1);
        assert(sanitized(t) == seq![t[0]] + sanitized(t.skip(1)));
        assert(t.skip(1).skip(k - 1) == t.skip(k));
        assert(seq![t[0]] + t.skip(1).take(k - 1) == t.take(k));
        assert(seq![t[0]] + (t.skip(1).take(k - 1) + sanitized(t.skip(k))) == t.take(k)
            + sanitized(t.skip(k)));
    } else {
        assert(t.skip(0) == t);
        assert(t.take(0) + sanitized(t) == sanitized(t));
    }
}

/// Sanitizing leaves the text a scheme is read from as it was.
proof fn lemma_scheme_text_sanitized(t: Seq<char>)
    ensures
        scheme_text(sanitized(t)) == scheme_text(t),
    decreases t.len(),
{
    if t.len() > 0 {
        lemma_sanitized_first(t);
        if !is_stop(t[0]) {
            let u = sanitized(t.skip(1));
            lemma_scheme_text_sanitized(t.skip(1));
            assert(sanitized(t) == seq![t[0]] + u);
            assert((seq![t[0]] + u).skip(1) == u);
        }
    }
}

/// A character other than a backslash and `&` is read as itself.
proof fn lemma_plain_unit(d: Seq<char>)
    requires
        d.len() > 0,
        d[0] != '\\',
        d[0] != '&',
    ensures
        unit(d) == ((d[0] as u32) as nat, 1nat),
{
    reveal_strlit("&colon;");
    reveal_strlit("&sol;");
    reveal_strlit("&plus;");
    reveal_strlit("&Tab;");
    reveal_strlit("&NewLine;");
    assert(!crate::text::occurs_at(d, "&colon;"@, 0)) by {
        if d.len() >= 7 {
            assert(d.subrange(0, 7)[0] == d[0]);
        }
    }
    assert(!crate::text::occurs_at(d, "&sol;"@, 0)) by {
        if d.len() >= 5 {
            assert(d.subrange(0, 5)[0] == d[0]);
        }
    }
    assert(!crate::text::occurs_at(d, "&plus;"@, 0)) by {
        if d.len() >= 6 {
            assert(d.subrange(0, 6)[0] == d[0]);
        }
    }
    assert(!crate::text::occurs_at(d, "&Tab;"@, 0)) by {
        if d.len() >= 5 {
            assert(d.subrange(0, 5)[0] == d[0]);
        }
    }
    assert(!crate::text::occurs_at(d, "&NewLine;"@, 0)) by {
        if d.len() >= 9 {
            assert(d.subrange(0, 9)[0] == d[0]);
        }
    }
}

/// A target that begins with `unsafe-` is not dangerous.
proof fn lemma_marked_safe(x: Seq<char>, lead: bool)
    ensures
        !danger("unsafe-"@ + x, lead),
{
    reveal_strlit("unsafe-");
    reveal_strlit("javascript:");
    reveal_strlit("vbscript:");
    reveal_strlit("data:text/html");
    reveal_strlit("data:image/svg+xml");
    reveal_strlit("&colon;");
    reveal_strlit("&sol;");
    reveal_strlit("&plus;");
    reveal_strlit("&Tab;");
    reveal_strlit("&NewLine;");
    let t = "unsafe-"@ + x;
    assert(t[0] == 'u');
    let d = scheme_text(t);
    assert(d == seq!['u'] + scheme_text(t.skip(1)));
    assert(d[0] == 'u');
    lemma_plain_unit(d);
}

/// The target after a delimiter, in the output: the mark, then the rest.
proof fn lemma_marked_target_safe(t: Seq<char>, lead: bool)
    ensures
        !danger(mark(t, lead) + sanitized(t), lead),
{
    if danger(t, lead) {
        lemma_marked_safe(sanitized(t), lead);
    } else {
        assert(mark(t, lead) + sanitized(t) == sanitized(t));
        lemma_scheme_text_sanitized(t);
    }
}

/// Blanks followed by a non-blank: the run is exactly the blanks.
proof fn lemma_sp_run_prefix(a: Seq<char>, b: Seq<char>)
    requires
        forall|k: int| 0 <= k < a.len() ==> is_sp(a[k]),
        b.len() == 0 || !is_sp(b[0]),
    ensures
        sp_run(a + b) == a.len(),
    decreases a.len(),
{
    if a.len() > 0 {
        assert((a + b).skip(1) == a.skip(1) + b);
        lemma_sp_run_prefix(a.skip(1), b);
    } else {
        assert(a + b == b);
    }
}

/// Removable controls followed by another character: the run is exactly
/// the controls.
proof fn lemma_tc_run_prefix(a: Seq<char>, b: Seq<char>)
    requires
        forall|k: int| 0 <= k < a.len() ==> is_terminal_control(a[k]),
        b.len() == 0 || !is_terminal_control(b[0]),
    ensures
        tc_run(a + b) == a.len(),
    decreases a.len(),
{
    if a.len() > 0 {
        assert((a + b).skip(1) == a.skip(1) + b);
        lemma_tc_run_prefix(a.skip(1), b);
    } else {
        assert(a + b == b);
    }
}

/// The targets in the second part of `p + u` are the targets of `u`.
proof fn lemma_shift_target(p: Seq<char>, u: Seq<char>, i: int)
    requires
        i >= p.len(),
        links_safe(u),
    ensures
        target_ok(p + u, i),
{
    let o = p + u;
    let j = i - p.len();
    if i <= o.len() {
        assert(o.skip(i) == u.skip(j));
        assert(target_ok(u, j));
    }
}

/// No target starts at `i` of `o` when `o[i]` is neither `<` nor `]`.
proof fn lemma_no_target(o: Seq<char>, i: int)
    requires
        0 <= i < o.len(),
        !is_stop(o[i]),
    ensures
        target_ok(o, i),
{
    assert(o.skip(i)[0] == o[i]);
}

/// Sanitized Markdown has no dangerous link target: after every autolink
/// `<`, inline link `](` and reference definition `]:` (with the control
/// characters and blanks that may stand around them) is a target whose
/// scheme, read as a renderer reads it, cannot run script.
pub proof fn lemma_sanitized_links_safe(s: Seq<char>)
    ensures
        links_safe(sanitized(s)),
    decreases s.len(),
{
    if s.len() == 0 {
        assert forall|i: int| #[trigger] target_ok(sanitized(s), i) by {}
    } else if s[0] == '<' {
        lemma_sanitized_links_safe(s.skip(1));
        lemma_links_safe_autolink(s);
    } else if opens_target(s) {
        let c = tc_run(s.skip(1)) as int;
        lemma_tc_run(s.skip(1));
        let rest = s.skip(2 + c);
        lemma_sp_run(rest);
        lemma_sanitized_links_safe(rest.skip(sp_run(rest) as int));
        lemma_links_safe_link(s);
    } else {
        lemma_sanitized_links_safe(s.skip(1));
        lemma_links_safe_plain(s);
    }
}

proof fn lemma_links_safe_autolink(s: Seq<char>)
    requires
        s.len() > 0,
        s[0] == '<',
        links_safe(sanitized(s.skip(1))),
    ensures
        links_safe(sanitized(s)),
{
    let o = sanitized(s);
    let s1 = s.skip(1);
    let m = mark(s1, false);
    let u = sanitized(s1);
    let p = seq!['<'] + m;
    assert(o == p + u);
    reveal_strlit("unsafe-");
    assert forall|i: int| #[trigger] target_ok(o, i) by {
        if i == 0 {
            assert(o.skip(0) == o);
            assert(o.skip(1) == m + u);
            lemma_marked_target_safe(s1, false);
        } else if 0 < i < p.len() {
            assert(o[i] == m[i - 1]);
            lemma_no_target(o, i);
        } else if i >= p.len() {
            lemma_shift_target(p, u, i);
        }
    }
}

proof fn lemma_links_safe_link(s: Seq<char>)
    requires
        opens_target(s),
        links_safe(
            sanitized(
                s.skip(2 + tc_run(s.skip(1)) as int).skip(
                    sp_run(s.skip(2 + tc_run(s.skip(1)) as int)) as int,
                ),
            ),
        ),
    ensures
        links_safe(sanitized(s)),
{
    let o = sanitized(s);
    let c = tc_run(s.skip(1)) as int;
    lemma_tc_run(s.skip(1));
    let rest = s.skip(2 + c);
    let w = sp_run(rest);
    lemma_sp_run(rest);
    let r2 = rest.skip(w as int);
    let m = mark(r2, true);
    let u = sanitized(r2);
    let blanks = rest.take(w as int);
    let tcs = s.skip(1).take(c);
    let open = s[1 + c];
    let head = s.take(2 + c);
    assert(head == seq![s[0]] + tcs + seq![open]);
    let p = head + blanks + m;
    assert(o == p + u);
    reveal_strlit("unsafe-");
    assert forall|i: int| #[trigger] target_ok(o, i) by {
        if i == 0 {
            assert(o.skip(0) == o);
            assert(o.skip(1) == tcs + (seq![open] + blanks + m + u));
            assert forall|k: int| 0 <= k < tcs.len() implies is_terminal_control(tcs[k]) by {
                assert(tcs[k] == s.skip(1)[k]);
            }
            lemma_tc_run_prefix(tcs, seq![open] + blanks + m + u);
            assert(o[1 + c] == open);
            assert(opens_target(o));
            let r = o.skip(2 + c);
            assert(r == blanks + (m + u));
            if m.len() > 0 {
                assert((m + u)[0] == 'u');
            } else if u.len() > 0 {
                assert(r2.len() > 0);
                lemma_sanitized_first(r2);
                assert((m + u)[0] == r2[0]);
                assert(r2[0] == rest[w as int]);
            }
            assert forall|k: int| 0 <= k < blanks.len() implies is_sp(blanks[k]) by {
                assert(blanks[k] == rest[k]);
            }
            lemma_sp_run_prefix(blanks, m + u);
            assert(r.skip(sp_run(r) as int) == m + u);
            lemma_marked_target_safe(r2, true);
        } else if 0 < i < p.len() {
            if i < 1 + c {
                assert(o[i] == s.skip(1)[i - 1]);
            } else if i == 1 + c {
                assert(o[i] == open);
            } else if i < 2 + c + w {
                assert(o[i] == rest[i - 2 - c]);
            } else {
                assert(o[i] == m[i - 2 - c - w]);
            }
            lemma_no_target(o, i);
        } else if i >= p.len() {
            lemma_shift_target(p, u, i);
        }
    }
}

proof fn lemma_links_safe_plain(s: Seq<char>)
    requires
        s.len() > 0,
        s[0] != '<',
        !opens_target(s),
        links_safe(sanitized(s.skip(1))),
    ensures
        links_safe(sanitized(s)),
{
    let o = sanitized(s);
    let s1 = s.skip(1);
    let u = sanitized(s1);
    let p = seq![s[0]];
    assert(o == p + u);
    assert forall|i: int| #[trigger] target_ok(o, i) by {
        if i == 0 {
            assert(o.skip(0) == o);
            if s[0] == ']' {
                let c = tc_run(s1) as int;
                lemma_tc_run(s1);
                assert forall|j: int| 0 <= j < c implies !is_stop(#[trigger] s1[j]) by {}
                lemma_copy_prefix(s1, c);
                let a = s1.take(c);
                let b = sanitized(s1.skip(c));
                assert(u == a + b);
                if c < s1.len() {
                    lemma_sanitized_first(s1.skip(c));
                    assert(b[0] == s1[c]);
                } else {
                    assert(s1.skip(c).len() == 0);
                }
                assert forall|k: int| 0 <= k < a.len() implies is_terminal_control(a[k]) by {
                    assert(a[k] == s1[k]);
                }
                lemma_tc_run_prefix(a, b);
                assert(o.skip(1) == u);
                if 1 + c < o.len() {
                    assert(o[1 + c] == u[c]);
                    assert(s[1 + c] == s1[c]);
                }
            }
        } else if i >= 1 {
            lemma_shift_target(p, u, i);
        }
    }
}

/// Links of a safe text stay safe in each of its suffixes.
proof fn lemma_links_safe_skip(x: Seq<char>, k: int)
    requires
        links_safe(x),
        0 <= k <= x.len(),
    ensures
        links_safe(x.skip(k)),
{
    assert forall|i: int| #[trigger] target_ok(x.skip(k), i) by {
        if 0 <= i <= x.skip(k).len() {
            assert(x.skip(k).skip(i) == x.skip(k + i));
            assert(target_ok(x, k + i));
        }
    }
}

/// Where no link target is dangerous, sanitizing changes nothing.
pub proof fn lemma_safe_text_unchanged(x: Seq<char>)
    requires
        links_safe(x),
    ensures
        sanitized(x) == x,
    decreases x.len(),
{
    if x.len() > 0 {
        assert(target_ok(x, 0));
        assert(x.skip(0) == x);
        if x[0] == '<' {
            lemma_links_safe_skip(x, 1);
            lemma_safe_text_unchanged(x.skip(1));
            assert(seq!['<'] + x.skip(1) == x);
        } else if opens_target(x) {
            let c = tc_run(x.skip(1)) as int;
            lemma_tc_run(x.skip(1));
            let rest = x.skip(2 + c);
            let w = sp_run(rest);
            lemma_sp_run(rest);
            assert(rest.skip(w as int) == x.skip(2 + c + w));
            lemma_links_safe_skip(x, 2 + c + w);
            lemma_safe_text_unchanged(rest.skip(w as int));
            assert(x.take(2 + c) + rest.take(w as int) + rest.skip(w as int) == x);
        } else {
            lemma_links_safe_skip(x, 1);
            lemma_safe_text_unchanged(x.skip(1));
            assert(seq![x[0]] + x.skip(1) == x);
        }
    }
}

/// Sanitizing twice gives what sanitizing once gives.
pub proof fn lemma_sanitize_idempotent(s: Seq<char>)
    ensures
        sanitized(sanitized(s)) == sanitized(s),
{
    lemma_sanitized_links_safe(s);
    lemma_safe_text_unchanged(sanitized(s));
}

proof fn lemma_drop_add(x: Seq<char>, y: Seq<char>)
    ensures
        drop_controls(x + y) == drop_controls(x) + drop_controls(y),
    decreases x.len(),
{
    if x.len() == 0 {
        assert(x + y == y);
    } else {
        assert((x + y)[0] == x[0]);
        assert((x + y).skip(1) == x.skip(1) + y);
        lemma_drop_add(x.skip(1), y);
    }
}

/// Text without removable controls is written as it is.
proof fn lemma_drop_keeps(x: Seq<char>)
    requires
        forall|k: int| 0 <= k < x.len() ==> !is_terminal_control(#[trigger] x[k]),
    ensures
        drop_controls(x) == x,
    decreases x.len(),
{
    if x.len() > 0 {
        assert(!is_terminal_control(x[0]));
        assert forall|k: int| 0 <= k < x.skip(1).len() implies !is_terminal_control(
            #[trigger] x.skip(1)[k],
        ) by {
            assert(x.skip(1)[k] == x[k + 1]);
        }
        lemma_drop_keeps(x.skip(1));
        assert(seq![x[0]] + x.skip(1) == x);
    }
}

/// The first character written is the first one after the leading run of
/// removable controls.
proof fn lemma_drop_first(y: Seq<char>)
    ensures
        tc_run(y) < y.len() ==> drop_controls(y) == seq![y[tc_run(y) as int]] + drop_controls(
            y.skip(tc_run(y) + 1int),
        ),
        tc_run(y) == y.len() ==> drop_controls(y).len() == 0,
    decreases y.len(),
{
    lemma_tc_run(y);
    if y.len() > 0 && is_terminal_control(y[0]) {
        lemma_drop_first(y.skip(1));
        if tc_run(y) < y.len() {
            assert(y.skip(1).skip(tc_run(y.skip(1)) + 1int) == y.skip(tc_run(y) + 1int));
            assert(y.skip(1)[tc_run(y.skip(1)) as int] == y[tc_run(y) as int]);
        }
    } else if y.len() > 0 {
        assert(tc_run(y) == 0);
    }
}

/// Removing the controls first does not change the text a scheme is read from.
proof fn lemma_scheme_text_drop(y: Seq<char>)
    ensures
        scheme_text(drop_controls(y)) == scheme_text(y),
    decreases y.len(),
{
    if y.len() > 0 {
        lemma_scheme_text_drop(y.skip(1));
        if !is_terminal_control(y[0]) {
            let d = drop_controls(y);
            assert(d == seq![y[0]] + drop_controls(y.skip(1)));
            assert(d[0] == y[0]);
            assert(d.skip(1) == drop_controls(y.skip(1)));
        }
    }
}

proof fn lemma_scheme_text_blanks(b: Seq<char>, z: Seq<char>)
    requires
        forall|k: int| 0 <= k < b.len() ==> is_sp(#[trigger] b[k]),
    ensures
        scheme_text(b + z) == b + scheme_text(z),
    decreases b.len(),
{
    if b.len() == 0 {
        assert(b + z == z);
        assert(b + scheme_text(z) == scheme_text(z));
    } else {
        assert(is_sp(b[0]));
        assert((b + z)[0] == b[0]);
        assert((b + z).skip(1) == b.skip(1) + z);
        assert forall|k: int| 0 <= k < b.skip(1).len() implies is_sp(#[trigger] b.skip(1)[k]) by {
            assert(b.skip(1)[k] == b[k + 1]);
        }
        lemma_scheme_text_blanks(b.skip(1), z);
        assert(seq![b[0]] + (b.skip(1) + scheme_text(z)) == b + scheme_text(z));
    }
}

/// Leading blanks are skipped while a match has not begun.
proof fn lemma_dmatch_blanks(b: Seq<char>, z: Seq<char>, w: Seq<char>)
    requires
        forall|k: int| 0 <= k < b.len() ==> is_sp(#[trigger] b[k]),
        w.len() > 0,
    ensures
        dmatch(b + z, w, true) == dmatch(z, w, true),
    decreases b.len(),
{
    if b.len() == 0 {
        assert(b + z == z);
    } else {
        let x = b + z;
        assert(is_sp(b[0]));
        assert(x[0] == b[0]);
        lemma_plain_unit(x);
        assert(x.skip(1) == b.skip(1) + z);
        assert forall|k: int| 0 <= k < b.skip(1).len() implies is_sp(#[trigger] b.skip(1)[k]) by {
            assert(b.skip(1)[k] == b[k + 1]);
        }
        lemma_dmatch_blanks(b.skip(1), z, w);
    }
}

proof fn lemma_sp_run_add(b: Seq<char>, z: Seq<char>)
    requires
        forall|k: int| 0 <= k < b.len() ==> is_sp(#[trigger] b[k]),
    ensures
        sp_run(b + z) == b.len() + sp_run(z),
    decreases b.len(),
{
    if b.len() == 0 {
        assert(b + z == z);
    } else {
        assert(is_sp(b[0]));
        assert((b + z)[0] == b[0]);
        assert((b + z).skip(1) == b.skip(1) + z);
        assert forall|k: int| 0 <= k < b.skip(1).len() implies is_sp(#[trigger] b.skip(1)[k]) by {
            assert(b.skip(1)[k] == b[k + 1]);
        }
        lemma_sp_run_add(b.skip(1), z);
    }
}

/// A target keeps its verdict once its removable controls and its leading
/// blanks are gone.
proof fn lemma_danger_written(a: Seq<char>)
    ensures
        danger(drop_controls(a).skip(sp_run(drop_controls(a)) as int), true) == danger(a, true),
{
    let d = drop_controls(a);
    let k = sp_run(d);
    lemma_sp_run(d);
    let b = d.take(k as int);
    let tt = d.skip(k as int);
    assert(d == b + tt);
    assert forall|j: int| 0 <= j < b.len() implies is_sp(#[trigger] b[j]) by {
        assert(b[j] == d[j]);
    }
    lemma_scheme_text_drop(a);
    lemma_scheme_text_blanks(b, tt);
    reveal_strlit("javascript:");
    reveal_strlit("vbscript:");
    reveal_strlit("data:text/html");
    reveal_strlit("data:image/svg+xml");
    lemma_dmatch_blanks(b, scheme_text(tt), "javascript:"@);
    lemma_dmatch_blanks(b, scheme_text(tt), "vbscript:"@);
    lemma_dmatch_blanks(b, scheme_text(tt), "data:text/html"@);
    lemma_dmatch_blanks(b, scheme_text(tt), "data:image/svg+xml"@);
}

proof fn lemma_drop_target_ok(r: Seq<char>)
    requires
        r.len() > 0,
        !is_terminal_control(r[0]),
        target_ok(r, 0),
    ensures
        target_ok(drop_controls(r), 0),
{
    let dd = drop_controls(r.skip(1));
    let o = drop_controls(r);
    assert(o == seq![r[0]] + dd);
    assert(o.skip(0) == o);
    assert(r.skip(0) == r);
    assert(o.skip(1) == dd);
    if r[0] == '<' {
        lemma_scheme_text_drop(r.skip(1));
    } else if opens_target(o) {
        let y = r.skip(1);
        lemma_drop_first(y);
        lemma_tc_run(y);
        let c = tc_run(y) as int;
        assert(tc_run(dd) == 0) by {
            if dd.len() > 0 {
                assert(c < y.len());
                assert(dd[0] == y[c]);
            }
        }
        assert(c < y.len());
        assert(dd[0] == y[c]);
        assert(o[1] == dd[0]);
        assert(r[1 + c] == y[c]);
        assert(opens_target(r));
        let rr = r.skip(2 + c);
        assert(y.skip(c + 1) == rr);
        assert(o.skip(2) == drop_controls(rr));
        let w = sp_run(rr);
        lemma_sp_run(rr);
        let bl = rr.take(w as int);
        let a = rr.skip(w as int);
        assert(rr == bl + a);
        assert forall|j: int| 0 <= j < bl.len() implies is_sp(#[trigger] bl[j]) by {
            assert(bl[j] == rr[j]);
        }
        assert forall|j: int| 0 <= j < bl.len() implies !is_terminal_control(#[trigger] bl[j]) by {
            assert(is_sp(bl[j]));
        }
        lemma_drop_add(bl, a);
        lemma_drop_keeps(bl);
        let da = drop_controls(a);
        assert(drop_controls(rr) == bl + da);
        lemma_sp_run_add(bl, da);
        let t2 = o.skip(2);
        assert(t2 == bl + da);
        lemma_sp_run(da);
        assert((bl + da).skip((bl.len() + sp_run(da)) as int) == da.skip(sp_run(da) as int));
        assert(t2.skip(sp_run(t2) as int) == da.skip(sp_run(da) as int));
        assert(target_at(r) == Some((a, true)));
        lemma_danger_written(a);
    }
}

/// Markdown whose link targets are safe stays safe once output has removed
/// its control characters.
proof fn lemma_drop_links_safe(r: Seq<char>)
    requires
        links_safe(r),
    ensures
        links_safe(drop_controls(r)),
    decreases r.len(),
{
    if r.len() == 0 {
        assert forall|i: int| #[trigger] target_ok(drop_controls(r), i) by {}
    } else {
        lemma_links_safe_skip(r, 1);
        lemma_drop_links_safe(r.skip(1));
        if !is_terminal_control(r[0]) {
            let p = seq![r[0]];
            let u = drop_controls(r.skip(1));
            assert(drop_controls(r) == p + u);
            assert forall|i: int| #[trigger] target_ok(drop_controls(r), i) by {
                if i == 0 {
                    assert(target_ok(r, 0));
                    lemma_drop_target_ok(r);
                } else if i >= 1 {
                    lemma_shift_target(p, u, i);
                }
            }
        }
    }
}

/// What output writes of sanitized Markdown (its control characters
/// removed) has no dangerous link target: after every `<`, `](` and `]:`
/// and the blanks after them stands a target whose scheme, read with
/// escapes and character references decoded, cannot run script.
pub proof fn lemma_written_links_safe(s: Seq<char>)
    ensures
        links_safe(drop_controls(sanitized(s))),
{
    lemma_sanitized_links_safe(s);
    lemma_drop_links_safe(sanitized(s));
}

// ---------------------------------------------------------------- markdown

/// What `htmd` makes of an HTML document: its Markdown.
pub uninterp spec fn htmd_markdown(html: Seq<char>) -> Seq<char>;

/// `htmd::convert`: the Markdown of the document, which depends on the HTML
/// alone. It does not fail: the document is parsed in memory and the error
/// path of its `io::Result` is not taken (`HtmlToMarkdown::html_to_tree`
/// always returns `Ok`); an error would be passed on as its text. Its tree
/// walk (`dom_walker::walk_node`) recurses once per level of the tree that
/// html5ever builds, so it is only called on documents whose tree the scan
/// of `nesting` bounds (`convertible`) by `MAX_TREE_DEPTH`, the 1000 levels
/// the original allows extraction. That htmd's frames for that many levels
/// fit the stack is not shown by its source (frame sizes are the
/// compiler's), and is left unsaid.
#[verifier::external_body]
fn htmd_convert(html: &str) -> (r: Result<String, String>)
    requires
        convertible(html@),
    ensures
        r is Ok,
        r matches Ok(md) ==> md@ == htmd_markdown(html@),
{
    match htmd::convert(html) {
        Ok(md) => Ok(md),
        Err(e) => Err(e.to_string()),
    }
}

/// HTML to Markdown, with dangerous link schemes neutralized.
pub fn to_markdown(html: &str) -> (r: Result<String, WebgrabError>)
    requires
        convertible(html@),
    ensures
        r matches Ok(md) && md@ == sanitized(htmd_markdown(html@)),
{
    match htmd_convert(html) {
        Ok(md) => Ok(sanitize_link_schemes(md.as_str())),
        Err(e) => Err(
            WebgrabError::new(ExitCode::Internal, "markdown convert failed").with_detail(
                e.as_str(),
            ),
        ),
    }
}

// ---------------------------------------------------------------- text

/// Number of leading `c`.
pub open spec fn run_of(s: Seq<char>, c: char) -> nat
    decreases s.len(),
{
    if s.len() > 0 && s[0] == c {
        1 + run_of(s.skip(1), c)
    } else {
        0
    }
}

pub proof fn lemma_run_of(s: Seq<char>, c: char)
    ensures
        run_of(s, c) <= s.len(),
        forall|j: int| 0 <= j < run_of(s, c) ==> #[trigger] s[j] == c,
        run_of(s, c) < s.len() ==> s[run_of(s, c) as int] != c,
    decreases s.len(),
{
    if s.len() > 0 && s[0] == c {
        lemma_run_of(s.skip(1), c);
        assert forall|j: int| 0 <= j < run_of(s, c) implies #[trigger] s[j] == c by {
            if j > 0 {
                assert(s[j] == s.skip(1)[j - 1]);
            }
        }
    }
}

fn run_at(s: &[char], from: usize, c: char) -> (r: usize)
    requires
        from <= s.len(),
    ensures
        from + r <= s.len(),
        r == run_of(s@.skip(from as int), c),
{
    let mut j = from;
    while j < s.len() && s[j] == c
        invariant
            from <= j <= s.len(),
            run_of(s@.skip(from as int), c) == (j - from) + run_of(s@.skip(j as int), c),
        decreases s.len() - j,
    {
        assert(s@.skip(j as int).skip(1) == s@.skip(j + 1));
        assert(s@.skip(j as int)[0] == s@[j as int]);
        j = j + 1;
    }
    if j < s.len() {
        assert(s@.skip(j as int)[0] == s@[j as int]);
    }
    j - from
}

/// `trim_start_matches(' ')`.
pub open spec fn trim_spaces(s: Seq<char>) -> Seq<char> {
    s.skip(run_of(s, ' ') as int)
}

/// An ATX heading (`#` one to six times, then a blank): its text.
pub open spec fn atx(s: Seq<char>) -> Option<Seq<char>> {
    let h = run_of(s, '#');
    if 1 <= h <= 6 && h < s.len() && s[h as int] == ' ' {
        Some(trim_spaces(s.skip(h as int)))
    } else {
        None
    }
}

/// The escape `\` that `htmd` puts before leading ASCII punctuation, removed once.
pub open spec fn unescaped(s: Seq<char>) -> Seq<char> {
    if s.len() >= 2 && s[0] == '\\' && is_punct(s[1]) {
        s.skip(1)
    } else {
        s
    }
}

/// `s` begins with `a` followed by a blank.
pub open spec fn marker2(s: Seq<char>, a: char) -> bool {
    s.len() >= 2 && s[0] == a && s[1] == ' '
}

/// A line without its heading, quote or list-item syntax (and nothing
/// else: a body that merely begins with `--` or `###` keeps it).
pub open spec fn line_body(t: Seq<char>) -> Seq<char> {
    match atx(t) {
        Some(r) => r,
        None => if marker2(t, '>') {
            t.skip(2)
        } else if marker2(t, '-') || marker2(t, '*') || marker2(t, '+') {
            trim_spaces(t.skip(2))
        } else {
            t
        },
    }
}

/// One Markdown line as plain text: leading blanks go, then the line syntax,
/// then one escape.
pub open spec fn clean_line(line: Seq<char>) -> Seq<char> {
    unescaped(line_body(trim_spaces(line)))
}

/// Lines joined by `'\n'`.
pub open spec fn join_nl(ls: Seq<Seq<char>>) -> Seq<char>
    decreases ls.len(),
{
    if ls.len() == 0 {
        Seq::empty()
    } else if ls.len() == 1 {
        ls[0]
    } else {
        join_nl(ls.drop_last()) + seq!['\n'] + ls.last()
    }
}

/// Markdown as plain text, line by line.
pub open spec fn text_of(md: Seq<char>) -> Seq<char> {
    join_nl(lines(md).map_values(|l: Seq<char>| clean_line(l)))
}

/// `run_of` is characterised by its two properties.
proof fn lemma_run_of_at(s: Seq<char>, c: char, k: int)
    requires
        0 <= k <= s.len(),
        forall|j: int| 0 <= j < k ==> s[j] == c,
        k < s.len() ==> s[k] != c,
    ensures
        run_of(s, c) == k,
{
    lemma_run_of(s, c);
    if run_of(s, c) < k {
        assert(s[run_of(s, c) as int] == c);
    } else if run_of(s, c) > k {
        assert(s[k] == c);
    }
}

/// A one-line ATX heading of any level from one to six comes out in the
/// text format as its text alone: `'#'` k times, a blank and `t` give `t`
/// (for a `t` that does not start with a blank or an escaped punctuation
/// character, which the text format strips too).
pub proof fn lemma_heading_loses_hashes(k: nat, t: Seq<char>)
    requires
        1 <= k <= 6,
        forall|j: int| 0 <= j < t.len() ==> t[j] != '\n',
        t.len() > 0 ==> t[0] != ' ',
        !(t.len() >= 2 && t[0] == '\\' && is_punct(t[1])),
    ensures
        text_of(Seq::new(k, |i: int| '#') + seq![' '] + t) == t,
{
    let hs = Seq::new(k, |i: int| '#');
    let md = hs + seq![' '] + t;
    assert(md[k as int] == ' ');
    assert forall|j: int| 0 <= j < md.len() implies md[j] != '\n' by {
        if j > k {
            assert(md[j] == t[j - k - 1]);
        }
    }
    lemma_first_of_at(md, '\n', md.len() as int);
    assert(lines(md) == seq![md]);
    lemma_run_of_at(md, ' ', 0);
    assert(md.skip(0) == md);
    assert(trim_spaces(md) == md);
    lemma_run_of_at(md, '#', k as int);
    let rest = md.skip(k as int);
    assert(rest =~= seq![' '] + t);
    lemma_run_of_at(rest, ' ', 1);
    assert(rest.skip(1) =~= t);
    assert(atx(md) == Some(t));
    assert(clean_line(md) == t);
    let cl = lines(md).map_values(|l: Seq<char>| clean_line(l));
    assert(cl =~= seq![t]);
}

/// Seven or more `'#'` make no heading: such a line stays as it is in the
/// text format.
pub proof fn lemma_deep_hashes_kept(k: nat, t: Seq<char>)
    requires
        k >= 7,
        forall|j: int| 0 <= j < t.len() ==> t[j] != '\n',
    ensures
        text_of(Seq::new(k, |i: int| '#') + seq![' '] + t) == Seq::new(k, |i: int| '#') + seq![' ']
            + t,
{
    let hs = Seq::new(k, |i: int| '#');
    let md = hs + seq![' '] + t;
    assert forall|j: int| 0 <= j < md.len() implies md[j] != '\n' by {
        if j > k {
            assert(md[j] == t[j - k - 1]);
        }
    }
    lemma_first_of_at(md, '\n', md.len() as int);
    assert(lines(md) == seq![md]);
    lemma_run_of_at(md, ' ', 0);
    assert(md.skip(0) == md);
    assert(trim_spaces(md) == md);
    lemma_run_of(md, '#');
    if run_of(md, '#') < k {
        assert(md[run_of(md, '#') as int] == '#');
    }
    assert(atx(md) is None);
    assert(md[0] == '#');
    assert(line_body(md) == md);
    assert(clean_line(md) == md);
    let cl = lines(md).map_values(|l: Seq<char>| clean_line(l));
    assert(cl =~= seq![md]);
}

/// Where the body of the line `line[a..]` starts.
fn body_start(line: &[char], a: usize) -> (r: usize)
    requires
        a <= line.len(),
    ensures
        a <= r <= line.len(),
        line@.skip(r as int) == line_body(line@.skip(a as int)),
{
    let n = line.len();
    let ghost t = line@.skip(a as int);
    let h = run_at(line, a, '#');
    proof {
        lemma_run_of(t, '#');
        if a + h < n {
            assert(t[h as int] == line@[a + h]);
        }
    }
    if 1 <= h && h <= 6 && a + h < n && line[a + h] == ' ' {
        let b = run_at(line, a + h, ' ');
        assert(t.skip(h as int) == line@.skip(a + h));
        assert(line@.skip(a + h).skip(b as int) == line@.skip(a + h + b));
        return a + h + b;
    }
    assert(atx(t) is None);
    if n - a >= 2 {
        assert(t[0] == line@[a as int] && t[1] == line@[a + 1]);
    }
    if n - a >= 2 && line[a] == '>' && line[a + 1] == ' ' {
        assert(t.skip(2) == line@.skip(a + 2));
        a + 2
    } else if n - a >= 2 && (line[a] == '-' || line[a] == '*' || line[a] == '+') && line[a + 1]
        == ' ' {
        let b = run_at(line, a + 2, ' ');
        assert(t.skip(2) == line@.skip(a + 2));
        assert(line@.skip(a + 2).skip(b as int) == line@.skip(a + 2 + b));
        a + 2 + b
    } else {
        a
    }
}

fn clean_text_line(line: &[char]) -> (r: Vec<char>)
    ensures
        r@ == clean_line(line@),
{
    let n = line.len();
    let a = run_at(line, 0, ' ');
    assert(line@.skip(0) == line@);
    let start = body_start(line, a);
    let ghost body = line@.skip(start as int);
    if n - start >= 2 {
        assert(body[0] == line@[start as int] && body[1] == line@[start + 1]);
    }
    let from = if n - start >= 2 && line[start] == '\\' && is_punctuation(line[start + 1]) {
        assert(body.skip(1) == line@.skip(start + 1));
        start + 1
    } else {
        start
    };
    let mut r: Vec<char> = Vec::new();
    crate::text::push_range(&mut r, line, from, n);
    assert(line@.subrange(from as int, n as int) == line@.skip(from as int));
    r
}

/// Markdown as plain text: each line loses its heading, quote or list
/// syntax and one leading escape, and the lines are joined by `'\n'`.
pub fn markdown_to_text(md: &str) -> (r: String)
    ensures
        r@ == text_of(md@),
{
    let cs = chars_of(md);
    let ls = crate::text::split_lines(cs.as_slice());
    let ghost cl = lines(md@).map_values(|l: Seq<char>| clean_line(l));
    let mut out: Vec<char> = Vec::new();
    let mut i: usize = 0;
    while i < ls.len()
        invariant
            crate::text::vviews(ls@) == lines(md@),
            cl == lines(md@).map_values(|l: Seq<char>| clean_line(l)),
            i <= ls.len(),
            out@ == join_nl(cl.take(i as int)),
        decreases ls.len() - i,
    {
        let c = clean_text_line(ls[i].as_slice());
        assert(ls@[i as int]@ == lines(md@)[i as int]);
        assert(cl.take(i + 1).drop_last() == cl.take(i as int));
        assert(cl.take(i + 1).last() == c@);
        if i > 0 {
            out.push('\n');
        } else {
            assert(cl.take(1) == seq![c@]);
        }
        push_all(&mut out, c.as_slice());
        i = i + 1;
    }
    assert(cl.take(ls.len() as int) == cl);
    string_of(out.as_slice())
}

/// HTML to plain text (`--format text`): the Markdown, without the syntax
/// at the start of each line; a body that itself begins with `--` or `###`
/// keeps it.
pub fn to_text(html: &str) -> (r: Result<String, WebgrabError>)
    requires
        convertible(html@),
    ensures
        r matches Ok(t) && t@ == text_of(sanitized(htmd_markdown(html@))),
{
    match to_markdown(html) {
        Ok(md) => Ok(markdown_to_text(md.as_str())),
        Err(e) => Err(e),
    }
}

// ---------------------------------------------------------------- visible text

/// The scanner of a tag that starts before `j`: the position just past the
/// `>` that ends it. Inside quotes `>` does not end the tag; a quote opens
/// only right after `=` (blanks between allowed), so the apostrophe of an
/// unquoted value is no quote. `prev` is the last non-blank character seen.
pub open spec fn tag_end_from(s: Seq<char>, j: int, quote: Option<char>, prev: Option<char>) -> Option<
    int,
>
    decreases s.len() - j,
{
    if j < 0 || j >= s.len() {
        None
    } else {
        let c = s[j];
        let next_prev = if is_ws(c) {
            prev
        } else {
            Some(c)
        };
        match quote {
            Some(q) => if c == q {
                tag_end_from(s, j + 1, None, next_prev)
            } else {
                tag_end_from(s, j + 1, quote, next_prev)
            },
            None => if (c == '"' || c == '\'') && prev == Some('=') {
                tag_end_from(s, j + 1, Some(c), next_prev)
            } else if c == '>' {
                Some(j + 1)
            } else {
                tag_end_from(s, j + 1, None, next_prev)
            },
        }
    }
}

/// The end of the tag whose `<` stands at `i`.
pub open spec fn tag_end(s: Seq<char>, i: int) -> Option<int> {
    tag_end_from(s, i + 1, None, None)
}

pub proof fn lemma_tag_end_from(s: Seq<char>, j: int, quote: Option<char>, prev: Option<char>)
    ensures
        tag_end_from(s, j, quote, prev) matches Some(e) ==> j < e <= s.len(),
    decreases s.len() - j,
{
    if 0 <= j < s.len() {
        let c = s[j];
        let next_prev = if is_ws(c) {
            prev
        } else {
            Some(c)
        };
        lemma_tag_end_from(s, j + 1, None, next_prev);
        lemma_tag_end_from(s, j + 1, quote, next_prev);
        lemma_tag_end_from(s, j + 1, Some(c), next_prev);
    }
}

/// The text of `s[i..]` without tags and comments: each tag becomes one
/// blank, a comment goes with its content (an unterminated one takes the
/// rest), and a `<` with no closing `>` is text.
pub open spec fn visible_from(s: Seq<char>, i: int) -> Seq<char>
    decreases s.len() - i,
{
    if i < 0 || i >= s.len() {
        Seq::empty()
    } else if occurs_at(s, "<!--"@, i) {
        match crate::text::find_from(s, "-->"@, i + 4) {
            Some(p) => {
                proof {
                    crate::text::lemma_find_from(s, "-->"@, i + 4);
                    reveal_strlit("-->");
                }
                visible_from(s, p + 3)
            },
            None => Seq::empty(),
        }
    } else if s[i] == '<' {
        match tag_end(s, i) {
            Some(e) => {
                proof {
                    lemma_tag_end_from(s, i + 1, None, None);
                }
                seq![' '] + visible_from(s, e)
            },
            None => s.skip(i),
        }
    } else {
        seq![s[i]] + visible_from(s, i + 1)
    }
}

/// `str::replace`: every non-overlapping occurrence of `from`, left to
/// right, replaced by `to`.
pub open spec fn replace_all(s: Seq<char>, from: Seq<char>, to: Seq<char>) -> Seq<char>
    decreases s.len(),
{
    if s.len() == 0 {
        Seq::empty()
    } else if from.len() > 0 && crate::text::has_prefix(s, from) {
        to + replace_all(s.skip(from.len() as int), from, to)
    } else {
        seq![s[0]] + replace_all(s.skip(1), from, to)
    }
}

/// The common entities, decoded once each, `&amp;` last.
pub open spec fn decode_entities(t: Seq<char>) -> Seq<char> {
    let a = replace_all(t, "&nbsp;"@, " "@);
    let b = replace_all(a, "&lt;"@, "<"@);
    let c = replace_all(b, "&gt;"@, ">"@);
    let d = replace_all(c, "&quot;"@, "\""@);
    let e = replace_all(d, "&#39;"@, "'"@);
    replace_all(e, "&amp;"@, "&"@)
}

/// Characters counted when each run of whitespace counts as one.
pub open spec fn collapsed_len(t: Seq<char>, after_space: bool) -> nat
    decreases t.len(),
{
    if t.len() == 0 {
        0
    } else if is_ws(t[0]) {
        (if after_space {
            0nat
        } else {
            1nat
        }) + collapsed_len(t.skip(1), true)
    } else {
        1 + collapsed_len(t.skip(1), false)
    }
}

/// The visible length of an HTML document: without script, style and
/// noscript elements, tags and comments, with the common entities decoded,
/// trimmed, whitespace runs counted once.
pub open spec fn visible_len(html: Seq<char>) -> nat {
    collapsed_len(crate::text::trim(decode_entities(visible_from(stripped(html), 0))), true)
}

fn find_tag_end(s: &[char], i: usize) -> (r: Option<usize>)
    requires
        i < s.len(),
    ensures
        match r {
            Some(e) => tag_end(s@, i as int) == Some(e as int),
            None => tag_end(s@, i as int) is None,
        },
{
    let mut quote: Option<char> = None;
    let mut prev: Option<char> = None;
    let mut j = i + 1;
    while j < s.len()
        invariant
            i < j <= s.len(),
            tag_end(s@, i as int) == tag_end_from(s@, j as int, quote, prev),
        decreases s.len() - j,
    {
        let c = s[j];
        let next_prev = if is_whitespace(c) {
            prev
        } else {
            Some(c)
        };
        match quote {
            Some(q) => {
                if c == q {
                    quote = None;
                }
            },
            None => {
                if (c == '"' || c == '\'') && prev == Some('=') {
                    quote = Some(c);
                } else if c == '>' {
                    return Some(j + 1);
                }
            },
        }
        prev = next_prev;
        j = j + 1;
    }
    None
}

fn visible_chars(s: &[char]) -> (r: Vec<char>)
    ensures
        r@ == visible_from(s@, 0),
{
    let n = s.len();
    let open = chars_of("<!--");
    let close = chars_of("-->");
    let mut out: Vec<char> = Vec::new();
    let mut i: usize = 0;
    while i < n
        invariant
            n == s@.len(),
            open@ == "<!--"@,
            close@ == "-->"@,
            i <= n,
            visible_from(s@, 0) == out@ + visible_from(s@, i as int),
        decreases n - i,
    {
        if matches_at(s, open.as_slice(), i) {
            proof {
                reveal_strlit("<!--");
            }
            match crate::text::find_in(s, close.as_slice(), i + 4) {
                Some(p) => {
                    proof {
                        crate::text::lemma_find_from(s@, "-->"@, i + 4);
                        reveal_strlit("-->");
                    }
                    i = p + 3;
                },
                None => {
                    i = n;
                },
            }
        } else if s[i] == '<' {
            match find_tag_end(s, i) {
                Some(e) => {
                    proof {
                        lemma_tag_end_from(s@, i + 1, None, None);
                    }
                    out.push(' ');
                    i = e;
                },
                None => {
                    crate::text::push_range(&mut out, s, i, n);
                    assert(s@.subrange(i as int, n as int) == s@.skip(i as int));
                    i = n;
                },
            }
        } else {
            out.push(s[i]);
            i = i + 1;
        }
    }
    out
}

fn replace_chars(s: &[char], from: &str, to: &str) -> (r: Vec<char>)
    ensures
        r@ == replace_all(s@, from@, to@),
{
    let f = chars_of(from);
    let n = s.len();
    let mut out: Vec<char> = Vec::new();
    let mut i: usize = 0;
    assert(s@.skip(0) == s@);
    while i < n
        invariant
            n == s@.len(),
            f@ == from@,
            i <= n,
            replace_all(s@, from@, to@) == out@ + replace_all(s@.skip(i as int), from@, to@),
        decreases n - i,
    {
        let ghost t = s@.skip(i as int);
        if f.len() > 0 && matches_at(s, f.as_slice(), i) {
            assert(t.take(f@.len() as int) == s@.subrange(i as int, i + f@.len()));
            assert(t.skip(f@.len() as int) == s@.skip(i + f@.len()));
            push_str(&mut out, to);
            i = i + f.len();
        } else {
            proof {
                if f@.len() > 0 && crate::text::has_prefix(t, f@) {
                    assert(t.take(f@.len() as int) == s@.subrange(i as int, i + f@.len()));
                }
            }
            assert(t[0] == s@[i as int]);
            assert(t.skip(1) == s@.skip(i + 1));
            out.push(s[i]);
            i = i + 1;
        }
    }
    assert(s@.skip(n as int).len() == 0);
    out
}

/// The number of visible characters of an HTML document (Unicode scalar
/// values): script, style and noscript elements, tags and comments are
/// dropped (each tag leaves one blank, so the text of neighbouring elements
/// stays apart), the common entities are decoded, the text is trimmed and
/// each run of whitespace counts once. Link targets and image URLs are not
/// counted. It never fails.
pub fn visible_text_len(html: &str) -> (r: usize)
    ensures
        r == visible_len(html@),
{
    let st = strip_chars(chars_of(html).as_slice());
    let v = visible_chars(st.as_slice());
    let a = replace_chars(v.as_slice(), "&nbsp;", " ");
    let b = replace_chars(a.as_slice(), "&lt;", "<");
    let c = replace_chars(b.as_slice(), "&gt;", ">");
    let d = replace_chars(c.as_slice(), "&quot;", "\"");
    let e = replace_chars(d.as_slice(), "&#39;", "'");
    let f = replace_chars(e.as_slice(), "&amp;", "&");
    let t = crate::text::trimmed(f.as_slice());
    let ghost total = collapsed_len(t@, true);
    proof {
        lemma_collapsed_le(t@, true);
    }
    let mut count: usize = 0;
    let mut after_space = true;
    let mut i: usize = 0;
    assert(t@.skip(0) == t@);
    while i < t.len()
        invariant
            i <= t.len(),
            count + collapsed_len(t@.skip(i as int), after_space) == total,
            total <= t@.len(),
            count <= i,
        decreases t.len() - i,
    {
        let ghost u = t@.skip(i as int);
        assert(u[0] == t@[i as int]);
        assert(u.skip(1) == t@.skip(i + 1));
        if is_whitespace(t[i]) {
            if !after_space {
                count = count + 1;
                after_space = true;
            }
        } else {
            count = count + 1;
            after_space = false;
        }
        i = i + 1;
    }
    assert(t@.skip(i as int).len() == 0);
    count
}

proof fn lemma_collapsed_le(t: Seq<char>, after_space: bool)
    ensures
        collapsed_len(t, after_space) <= t.len(),
    decreases t.len(),
{
    if t.len() > 0 {
        lemma_collapsed_le(t.skip(1), true);
        lemma_collapsed_le(t.skip(1), false);
    }
}

} // verus!
