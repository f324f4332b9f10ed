//! Character budget: slicing the body by `--start-index` / `--max-chars`, and
//! the self-describing footers that tell the reader how to continue.
//!
//! A "character" is a Unicode scalar value (`char`). Ranges are half-open:
//! `[start, end)`.
use crate::text::{chars_of, decimal, push_decimal, push_range, push_str, string_of};
use vstd::prelude::*;

verus! {

broadcast use vstd::string::group_string_axioms;

/// One page of the body plus what is needed to fetch the next one.
#[derive(Debug, PartialEq, Eq)]
pub struct Slice {
    /// The page content.
    pub content: String,
    /// First character of the page (clamped to the total).
    pub start: usize,
    /// One past the last character of the page.
    pub end: usize,
    /// Number of characters of the whole body.
    pub total: usize,
    /// Characters remain after this page.
    pub truncated: bool,
    /// The requested start was at or past the end of the body.
    pub ended: bool,
}

/// Position of the last line feed strictly before `end`, if any.
pub open spec fn last_newline(b: Seq<char>, end: int) -> Option<int>
    decreases end,
{
    if end <= 0 {
        None
    } else if b[end - 1] == '\n' {
        Some(end - 1)
    } else {
        last_newline(b, end - 1)
    }
}

/// `ceil(m / 2)`.
pub open spec fn half_up(m: nat) -> nat {
    (m + 1) / 2
}

/// The end of a truncated page: moved back to just after the last line feed of
/// the range, when that line feed lies in the back half of `[start, start + max)`.
pub open spec fn snapped_end(b: Seq<char>, start: nat, max: nat) -> int {
    let raw: int = (start + max) as int;
    match last_newline(b, raw) {
        Some(i) => if i + 1 >= start + half_up(max) {
            i + 1
        } else {
            raw
        },
        None => raw,
    }
}

/// The end of the page that starts at `start` (for `start < b.len()`).
pub open spec fn page_end(b: Seq<char>, start: nat, max: nat) -> int {
    if start + max < b.len() {
        snapped_end(b, start, max)
    } else {
        b.len() as int
    }
}

proof fn lemma_last_newline_bounds(b: Seq<char>, end: int)
    ensures
        last_newline(b, end) matches Some(i) ==> 0 <= i < end && b[i] == '\n',
    decreases end,
{
    if end > 0 && b[end - 1] != '\n' {
        lemma_last_newline_bounds(b, end - 1);
    }
}

/// A page that starts inside the body is never empty (when `max > 0`), never
/// longer than `max`, and never runs past the body.
pub proof fn lemma_page_progress(b: Seq<char>, start: nat, max: nat)
    requires
        start < b.len(),
        max > 0,
    ensures
        start < page_end(b, start, max) <= start + max,
        page_end(b, start, max) <= b.len(),
{
    lemma_last_newline_bounds(b, (start + max) as int);
}

/// The concatenation of the pages from `start` on, each page starting where
/// the previous one ended.
pub open spec fn pages_from(b: Seq<char>, start: nat, max: nat) -> Seq<char>
    decreases b.len() - start,
{
    if max == 0 || start >= b.len() {
        Seq::empty()
    } else {
        let e = page_end(b, start, max);
        proof {
            lemma_page_progress(b, start, max);
        }
        b.subrange(start as int, e) + pages_from(b, e as nat, max)
    }
}

proof fn lemma_pages_from(b: Seq<char>, start: nat, max: nat)
    requires
        max > 0,
        start <= b.len(),
    ensures
        pages_from(b, start, max) == b.skip(start as int),
    decreases b.len() - start,
{
    if start < b.len() {
        let e = page_end(b, start, max);
        lemma_page_progress(b, start, max);
        lemma_pages_from(b, e as nat, max);
        assert(b.subrange(start as int, e) + b.skip(e) =~= b.skip(start as int));
    } else {
        assert(b.skip(start as int) =~= Seq::<char>::empty());
    }
}

/// Paging through a body with any positive `--max-chars`, starting at 0 and
/// continuing from each page's end, yields the whole body: nothing is lost or
/// repeated between pages.
pub proof fn lemma_pagination_reassembles(b: Seq<char>, max: nat)
    requires
        max > 0,
    ensures
        pages_from(b, 0, max) == b,
{
    lemma_pages_from(b, 0, max);
    assert(b.skip(0) =~= b);
}

/// The index of the last `'\n'` before `end`, or `end` itself when it is not
/// in the back half of the range `[start, start + max)`.
fn snap_to_newline(b: &[char], start: usize, end: usize, max_chars: usize) -> (r: usize)
    requires
        end == start + max_chars,
        end <= b.len(),
    ensures
        r == snapped_end(b@, start as nat, max_chars as nat),
{
    let mut j: usize = end;
    while j > 0 && b[j - 1] != '\n'
        invariant
            j <= end <= b.len(),
            last_newline(b@, end as int) == last_newline(b@, j as int),
        decreases j,
    {
        j = j - 1;
    }
    let half = max_chars / 2 + max_chars % 2;
    if j > 0 && j >= start + half {
        j
    } else {
        end
    }
}

/// `s` is the page of `body` that starts at `start_index`, as `slice` makes it.
pub open spec fn sliced(body: Seq<char>, start_index: usize, max_chars: usize, s: Slice) -> bool {
    &&& s.total == body.len()
    &&& start_index >= body.len() ==> {
        &&& s.content@ == Seq::<char>::empty()
        &&& s.start == s.total && s.end == s.total
        &&& !s.truncated
        &&& s.ended
    }
    &&& start_index < body.len() ==> {
        &&& s.start == start_index
        &&& s.end == page_end(body, start_index as nat, max_chars as nat)
        &&& s.start <= s.end <= s.total
        &&& s.content@ == body.subrange(s.start as int, s.end as int)
        &&& s.truncated == (s.end < s.total)
        &&& !s.ended
    }
}

/// The page contents, one after the other.
pub open spec fn contents_of(pages: Seq<Slice>) -> Seq<char>
    decreases pages.len(),
{
    if pages.len() == 0 {
        Seq::empty()
    } else {
        contents_of(pages.drop_last()) + pages.last().content@
    }
}

proof fn lemma_pages_step(body: Seq<char>, max: usize, pages: Seq<Slice>, k: int)
    requires
        body.len() > 0,
        max > 0,
        sliced(body, 0, max, pages[0]),
        forall|m: int|
            0 <= m < pages.len() - 1 ==> (#[trigger] pages[m]).truncated && sliced(
                body,
                pages[m].end,
                max,
                pages[m + 1],
            ),
        0 <= k < pages.len(),
    ensures
        pages[k].start >= k,
        pages[k].start < pages[k].end <= body.len(),
        !pages[k].ended,
        pages[k].content@ == body.subrange(pages[k].start as int, pages[k].end as int),
        contents_of(pages.take(k)) == body.take(pages[k].start as int),
    decreases k,
{
    if k == 0 {
        assert(pages.take(0).len() == 0);
        assert(body.take(0) =~= Seq::<char>::empty());
        lemma_page_progress(body, 0, max as nat);
    } else {
        lemma_pages_step(body, max, pages, k - 1);
        let a = pages[k - 1];
        assert(a.truncated && sliced(body, a.end, max, pages[k]));
        lemma_page_progress(body, pages[k].start as nat, max as nat);
        assert(pages.take(k).drop_last() == pages.take(k - 1));
        assert(pages.take(k).last() == a);
        assert(body.take(a.start as int) + body.subrange(a.start as int, a.end as int) =~= body.take(
            a.end as int,
        ));
    }
}

/// Paging through a non-empty body with `slice`, from 0 and then from each
/// page's end while the page is truncated: no page is `ended`, each page
/// moves forward, there are at most as many pages as characters, and the
/// pages' contents, one after the other, are the whole body.
pub proof fn lemma_slice_pages(body: Seq<char>, max: usize, pages: Seq<Slice>)
    requires
        body.len() > 0,
        max > 0,
        pages.len() > 0,
        sliced(body, 0, max, pages[0]),
        forall|m: int|
            0 <= m < pages.len() - 1 ==> (#[trigger] pages[m]).truncated && sliced(
                body,
                pages[m].end,
                max,
                pages[m + 1],
            ),
        !pages.last().truncated,
    ensures
        forall|k: int|
            0 <= k < pages.len() ==> !(#[trigger] pages[k]).ended && pages[k].start < pages[k].end,
        pages.len() <= body.len(),
        contents_of(pages) == body,
{
    assert forall|k: int| 0 <= k < pages.len() implies !(#[trigger] pages[k]).ended && pages[k].start
        < pages[k].end by {
        lemma_pages_step(body, max, pages, k);
    }
    let n = pages.len() - 1;
    lemma_pages_step(body, max, pages, n);
    let l = pages[n];
    assert(l == pages.last());
    assert(l.end == body.len());
    assert(pages.drop_last() == pages.take(n));
    assert(body.take(l.start as int) + body.subrange(l.start as int, l.end as int) =~= body);
}

/// Slices the body to `[start_index, start_index + max_chars)` characters.
///
/// - `start_index >= total`: empty page, `ended` (an empty body too)
/// - `max_chars == 0`: empty page (metadata only)
/// - a truncated page ends just after its last line feed when that line feed
///   lies in the back half of the range
pub fn slice(body: &str, start_index: usize, max_chars: usize) -> (s: Slice)
    ensures
        sliced(body@, start_index, max_chars, s),
        s.total == body@.len(),
        start_index >= body@.len() ==> {
            &&& s.content@ == Seq::<char>::empty()
            &&& s.start == s.total && s.end == s.total
            &&& !s.truncated
            &&& s.ended
        },
        start_index < body@.len() ==> {
            &&& s.start == start_index
            &&& s.end == page_end(body@, start_index as nat, max_chars as nat)
            &&& s.start <= s.end <= s.total
            &&& s.content@ == body@.subrange(s.start as int, s.end as int)
            &&& s.truncated == (s.end < s.total)
            &&& !s.ended
        },
{
    let chars = chars_of(body);
    let total = chars.len();
    if start_index >= total {
        return Slice {
            content: String::new(),
            start: total,
            end: total,
            total,
            truncated: false,
            ended: true,
        };
    }
    let end = if max_chars < total - start_index {
        snap_to_newline(chars.as_slice(), start_index, start_index + max_chars, max_chars)
    } else {
        total
    };
    proof {
        lemma_last_newline_bounds(body@, start_index + max_chars);
    }
    let mut v: Vec<char> = Vec::new();
    push_range(&mut v, chars.as_slice(), start_index, end);
    Slice {
        content: string_of(v.as_slice()),
        start: start_index,
        end,
        total,
        truncated: end < total,
        ended: false,
    }
}

/// The body of a POSIX single-quoted word: each `'` becomes `'\''`.
pub open spec fn quote_piece(c: char) -> Seq<char> {
    if c == '\'' {
        seq!['\'', '\\', '\'', '\'']
    } else {
        seq![c]
    }
}

pub open spec fn quote_body(s: Seq<char>) -> Seq<char>
    decreases s.len(),
{
    if s.len() == 0 {
        Seq::empty()
    } else {
        quote_body(s.drop_last()) + quote_piece(s.last())
    }
}

/// `s` quoted for a POSIX shell.
pub open spec fn shell_quoted(s: Seq<char>) -> Seq<char> {
    seq!['\''] + quote_body(s) + seq!['\'']
}

/// Quotes for a POSIX shell with single quotes; an embedded `'` becomes `'\''`.
/// A continue command may be pasted into a shell, so `&`, `?` or blanks in a URL
/// must not act as shell syntax.
pub fn shell_quote(s: &str) -> (r: String)
    ensures
        r@ == shell_quoted(s@),
{
    let cs = chars_of(s);
    let mut v: Vec<char> = Vec::new();
    v.push('\'');
    let mut i: usize = 0;
    while i < cs.len()
        invariant
            i <= cs.len(),
            cs@ == s@,
            v@ == seq!['\''] + quote_body(cs@.take(i as int)),
        decreases cs.len() - i,
    {
        let c = cs[i];
        assert(cs@.take(i + 1).drop_last() == cs@.take(i as int));
        if c == '\'' {
            v.push('\'');
            v.push('\\');
            v.push('\'');
            v.push('\'');
        } else {
            v.push(c);
        }
        i = i + 1;
    }
    assert(cs@.take(cs@.len() as int) == cs@);
    v.push('\'');
    string_of(v.as_slice())
}

// ---------------------------------------------------------------- shell reading

/// How a POSIX shell reads a word made of single-quoted runs and unquoted
/// characters, where `\` outside quotes escapes the next character.
/// `quoted` tells whether the reader is inside single quotes.
pub open spec fn sh_read(q: Seq<char>, quoted: bool) -> Seq<char>
    decreases q.len(),
{
    if q.len() == 0 {
        Seq::empty()
    } else if quoted {
        if q[0] == '\'' {
            sh_read(q.skip(1), false)
        } else {
            seq![q[0]] + sh_read(q.skip(1), true)
        }
    } else if q[0] == '\'' {
        sh_read(q.skip(1), true)
    } else if q[0] == '\\' && q.len() >= 2 {
        seq![q[1]] + sh_read(q.skip(2), false)
    } else {
        seq![q[0]] + sh_read(q.skip(1), false)
    }
}

proof fn lemma_sh_read_body(s: Seq<char>, rest: Seq<char>)
    ensures
        sh_read(quote_body(s) + rest, true) == s + sh_read(rest, true),
    decreases s.len(),
{
    if s.len() == 0 {
        assert(quote_body(s) + rest =~= rest);
        assert(s + sh_read(rest, true) =~= sh_read(rest, true));
    } else {
        let c = s[0];
        let t = s.skip(1);
        assert(s =~= seq![c] + t);
        lemma_quote_body_front(c, t);
        lemma_sh_read_body(t, rest);
        let q = quote_piece(c) + (quote_body(t) + rest);
        assert(quote_body(s) + rest =~= q);
        let x = quote_body(t) + rest;
        if c == '\'' {
            let q1 = q.skip(1);
            assert(q1 =~= seq!['\\', '\'', '\''] + x);
            assert(q1.skip(2) =~= seq!['\''] + x);
            assert((seq!['\''] + x).skip(1) =~= x);
            assert(sh_read(q1.skip(2), false) == sh_read(x, true));
            assert(sh_read(q1, false) == seq!['\''] + sh_read(q1.skip(2), false));
            assert(sh_read(q, true) == sh_read(q1, false));
        } else {
            assert(q.skip(1) =~= x);
        }
        assert(s =~= seq![c] + t);
    }
}

proof fn lemma_quote_body_front(c: char, t: Seq<char>)
    ensures
        quote_body(seq![c] + t) == quote_piece(c) + quote_body(t),
    decreases t.len(),
{
    if t.len() == 0 {
        assert(seq![c] + t =~= seq![c]);
        assert(seq![c].drop_last() =~= Seq::<char>::empty());
        assert(quote_body(seq![c]) == quote_body(seq![c].drop_last()) + quote_piece(seq![c].last()));
        assert(quote_body(Seq::<char>::empty()) =~= Seq::<char>::empty());
        assert(quote_piece(c) + quote_body(t) =~= quote_piece(c));
        assert(Seq::<char>::empty() + quote_piece(c) =~= quote_piece(c));
    } else {
        lemma_quote_body_front(c, t.drop_last());
        assert((seq![c] + t).drop_last() =~= seq![c] + t.drop_last());
        assert((seq![c] + t).last() == t.last());
        assert(quote_piece(c) + quote_body(t.drop_last()) + quote_piece(t.last()) =~= quote_piece(
            c,
        ) + (quote_body(t.drop_last()) + quote_piece(t.last())));
    }
}

/// A POSIX shell reads the quoted word back as exactly the text it quotes, so a
/// URL in a continue command cannot inject shell syntax.
pub proof fn lemma_shell_quote_reads_back(s: Seq<char>)
    ensures
        sh_read(shell_quoted(s), false) == s,
{
    let q = shell_quoted(s);
    let tail: Seq<char> = seq!['\''];
    assert(q.skip(1) =~= quote_body(s) + tail);
    lemma_sh_read_body(s, tail);
    assert(tail.skip(1) =~= Seq::<char>::empty());
    assert(sh_read(tail, true) == sh_read(tail.skip(1), false));
    assert(s + Seq::<char>::empty() =~= s);
}

// ---------------------------------------------------------------- footers

/// The flags joined with a leading blank before each.
pub open spec fn joined_flags(fs: Seq<Seq<char>>) -> Seq<char>
    decreases fs.len(),
{
    if fs.len() == 0 {
        Seq::empty()
    } else {
        joined_flags(fs.drop_last()) + seq![' '] + fs.last()
    }
}

/// The views of a list of strings.
pub open spec fn views(fs: Seq<String>) -> Seq<Seq<char>> {
    fs.map_values(|f: String| f@)
}

pub open spec fn spec_continue_command(url: Seq<char>, next: nat, flags: Seq<Seq<char>>) -> Seq<
    char,
> {
    "webgrab "@ + shell_quoted(url) + joined_flags(flags) + " --start-index "@ + decimal(next)
}

/// The command that fetches the next page:
/// `webgrab '<url>' <flags...> --start-index <next>`. The flags are the
/// non-default flags to reproduce (without `--start-index` and `-o`).
pub fn continue_command(url: &str, next_start: usize, extra_flags: &[String]) -> (r: String)
    ensures
        r@ == spec_continue_command(url@, next_start as nat, views(extra_flags@)),
{
    let mut v: Vec<char> = Vec::new();
    push_str(&mut v, "webgrab ");
    let q = shell_quote(url);
    push_str(&mut v, q.as_str());
    let ghost head = v@;
    let mut i: usize = 0;
    while i < extra_flags.len()
        invariant
            i <= extra_flags.len(),
            v@ == head + joined_flags(views(extra_flags@).take(i as int)),
        decreases extra_flags.len() - i,
    {
        v.push(' ');
        push_str(&mut v, extra_flags[i].as_str());
        assert(views(extra_flags@).take(i + 1).drop_last() == views(extra_flags@).take(i as int));
        i = i + 1;
    }
    assert(views(extra_flags@).take(extra_flags@.len() as int) == views(extra_flags@));
    push_str(&mut v, " --start-index ");
    push_decimal(&mut v, next_start as u64);
    string_of(v.as_slice())
}

pub open spec fn spec_truncated_footer(
    url: Seq<char>,
    start: nat,
    end: nat,
    total: nat,
    flags: Seq<Seq<char>>,
) -> Seq<char> {
    "[webgrab:truncated chars "@ + decimal(start) + "-"@ + decimal(end) + " of "@ + decimal(total)
        + " — continue: "@ + spec_continue_command(url, end, flags) + "]"@
}

/// Footer of a truncated page: the range and the command for the next page.
pub fn truncated_footer(url: &str, s: &Slice, extra_flags: &[String]) -> (r: String)
    ensures
        r@ == spec_truncated_footer(
            url@,
            s.start as nat,
            s.end as nat,
            s.total as nat,
            views(extra_flags@),
        ),
{
    let cont = continue_command(url, s.end, extra_flags);
    let mut v: Vec<char> = Vec::new();
    push_str(&mut v, "[webgrab:truncated chars ");
    push_decimal(&mut v, s.start as u64);
    push_str(&mut v, "-");
    push_decimal(&mut v, s.end as u64);
    push_str(&mut v, " of ");
    push_decimal(&mut v, s.total as u64);
    push_str(&mut v, " — continue: ");
    push_str(&mut v, cont.as_str());
    push_str(&mut v, "]");
    string_of(v.as_slice())
}

/// The footer of a truncated page ends with the continue command's
/// `--start-index`, and that index is the page's end: following the footer
/// fetches the page that starts where this one stopped.
pub proof fn lemma_footer_continues_at_end(
    url: Seq<char>,
    start: nat,
    end: nat,
    total: nat,
    flags: Seq<Seq<char>>,
)
    ensures
        (" --start-index "@ + decimal(end) + "]"@).is_suffix_of(
            spec_truncated_footer(url, start, end, total, flags),
        ),
{
    let tail = " --start-index "@ + decimal(end);
    let cmd_head = "webgrab "@ + shell_quoted(url) + joined_flags(flags);
    let cmd = cmd_head + tail;
    assert(cmd == spec_continue_command(url, end, flags));
    let head = "[webgrab:truncated chars "@ + decimal(start) + "-"@ + decimal(end) + " of "@
        + decimal(total) + " — continue: "@;
    let f = head + cmd + "]"@;
    assert(f == spec_truncated_footer(url, start, end, total, flags));
    let suf = tail + "]"@;
    assert(f.subrange(f.len() - suf.len(), f.len() as int) =~= suf);
}

pub open spec fn spec_end_footer(total: nat) -> Seq<char> {
    "[webgrab:end total "@ + decimal(total) + " chars]"@
}

/// Footer for a start index at or past the end of the body.
pub fn end_footer(total: usize) -> (r: String)
    ensures
        r@ == spec_end_footer(total as nat),
{
    let mut v: Vec<char> = Vec::new();
    push_str(&mut v, "[webgrab:end total ");
    push_decimal(&mut v, total as u64);
    push_str(&mut v, " chars]");
    string_of(v.as_slice())
}

pub open spec fn spec_short_content_marker(total: nat, suggest: Seq<char>) -> Seq<char> {
    "[webgrab:short-content "@ + decimal(total) + " chars — if unexpected, retry with "@ + suggest
        + "]"@
}

/// Self-describing marker for a short body (1 to 199 characters after
/// extraction). `suggest` names the flags worth retrying with.
pub fn short_content_marker(total: usize, suggest: &str) -> (r: String)
    ensures
        r@ == spec_short_content_marker(total as nat, suggest@),
{
    let mut v: Vec<char> = Vec::new();
    push_str(&mut v, "[webgrab:short-content ");
    push_decimal(&mut v, total as u64);
    push_str(&mut v, " chars — if unexpected, retry with ");
    push_str(&mut v, suggest);
    push_str(&mut v, "]");
    string_of(v.as_slice())
}

} // verus!
