//! A bound on the depth of the tree that html5ever builds for a document,
//! from one scan of its tags that follows the tokenizer and, conservatively,
//! the tree construction: what might stay open is counted as open.
//!
//! The rules follow html5ever 0.38 (the version htmd builds with):
//! tokenizer/mod.rs for tag names (`TagName`, :923), attributes and quoted
//! values (`BeforeAttributeValue`, :1215; `AttributeValue`, :1230; an
//! unfinished tag is dropped at the end of input), self-closing tags
//! (`SelfClosingStartTag`, :1297), comments (`CommentEnd`, :1404), markup
//! declarations and CDATA (:1637, :1656) and the end of raw text
//! (`RawEndTagName`, :998); tree_builder/mod.rs for the self-closing flag
//! being ignored on HTML elements (:337), raw text (:669, :676), the
//! adoption agency and the reopening of formatting elements (:712, :959),
//! implied end tags (:1129, :1213), end tags in body (:1534) and foreign
//! content (:1584, :1644, :1804, :1829), and tree_builder/rules.rs for
//! foreign content (`step_foreign`, :1601).
use crate::extract::gt_from;
use crate::text::{chars_of, lower_seq, lowered, occurs_at, matches_at, push_range, same};
use vstd::prelude::*;

verus! {

broadcast use vstd::string::group_string_axioms;

/// Bound on the counted depth of a document that htmd converts.
pub const MAX_TREE_DEPTH: usize = 1000;

// ---------------------------------------------------------------- tokens

pub open spec fn is_alpha(c: char) -> bool {
    ('a' <= c && c <= 'z') || ('A' <= c && c <= 'Z')
}

/// The whitespace of the HTML tokenizer (a carriage return counts, as the
/// input stream turns it into a line feed).
pub open spec fn is_tws(c: char) -> bool {
    c == '\t' || c == '\n' || c == '\u{c}' || c == '\r' || c == ' '
}

/// The end of a tag name that starts at `j`: the first whitespace, `/` or `>`.
pub open spec fn name_stop(s: Seq<char>, j: int) -> int
    decreases s.len() - j,
{
    if 0 <= j < s.len() && !is_tws(s[j]) && s[j] != '/' && s[j] != '>' {
        name_stop(s, j + 1)
    } else {
        j
    }
}

/// One character of a tag's attributes read by the tokenizer in state `st`
/// (0 before a name, 1 in a name, 2 after a name, 3 before a value, 4 and 5
/// in a double- or single-quoted value, 6 in an unquoted value, 7 after a
/// quoted value, 8 after a `/`): the next state, whether the tag ends here,
/// and whether it ends self-closing.
pub open spec fn attr_step(st: nat, c: char) -> (nat, bool, bool) {
    if st == 4 {
        if c == '"' {
            (7, false, false)
        } else {
            (4, false, false)
        }
    } else if st == 5 {
        if c == '\'' {
            (7, false, false)
        } else {
            (5, false, false)
        }
    } else if st == 6 {
        if is_tws(c) {
            (0, false, false)
        } else if c == '>' {
            (0, true, false)
        } else {
            (6, false, false)
        }
    } else if st == 3 {
        if is_tws(c) {
            (3, false, false)
        } else if c == '"' {
            (4, false, false)
        } else if c == '\'' {
            (5, false, false)
        } else if c == '>' {
            (0, true, false)
        } else {
            (6, false, false)
        }
    } else if c == '>' {
        (0, true, st == 8)
    } else if c == '/' {
        (8, false, false)
    } else if c == '=' {
        if st == 1 || st == 2 {
            (3, false, false)
        } else {
            (1, false, false)
        }
    } else if is_tws(c) {
        if st == 1 || st == 2 {
            (2, false, false)
        } else {
            (0, false, false)
        }
    } else {
        (1, false, false)
    }
}

/// The `>` that ends a tag whose attributes start at `k` in state `st`, and
/// whether the tag is self-closing; none when the input ends first (the
/// tokenizer then drops the tag).
pub open spec fn tag_close(s: Seq<char>, k: int, st: nat) -> Option<(int, bool)>
    decreases s.len() - k,
{
    if k < 0 || k >= s.len() {
        None
    } else {
        let a = attr_step(st, s[k]);
        if a.1 {
            Some((k, a.2))
        } else {
            tag_close(s, k + 1, a.0)
        }
    }
}

/// Past the end of a comment whose text starts at `k`: `-->` or `--!>`
/// (or `>` / `->` right away), or the end of the input.
pub open spec fn comment_close(s: Seq<char>, k: int) -> int {
    if 0 <= k < s.len() && s[k] == '>' {
        k + 1
    } else if 0 <= k && k + 1 < s.len() && s[k] == '-' && s[k + 1] == '>' {
        k + 2
    } else {
        dashes_close(s, k)
    }
}

pub open spec fn dashes_close(s: Seq<char>, j: int) -> int
    decreases s.len() - j,
{
    if j < 0 || j >= s.len() {
        s.len() as int
    } else if occurs_at(s, seq!['-', '-', '>'], j) {
        j + 3
    } else if occurs_at(s, seq!['-', '-', '!', '>'], j) {
        j + 4
    } else {
        dashes_close(s, j + 1)
    }
}

/// Past the first `]]>` at or after `j`, or the end of the input.
pub open spec fn cdata_close(s: Seq<char>, j: int) -> int
    decreases s.len() - j,
{
    if j < 0 || j >= s.len() {
        s.len() as int
    } else if occurs_at(s, seq![']', ']', '>'], j) {
        j + 3
    } else {
        cdata_close(s, j + 1)
    }
}

/// The end tag that closes raw text of the element `n`, at or after `j`:
/// `</`, the name in any ASCII case, then whitespace, `/` or `>`.
pub open spec fn closes_raw_at(s: Seq<char>, j: int, n: Seq<char>) -> bool {
    &&& 0 <= j
    &&& j + 2 + n.len() < s.len()
    &&& s[j] == '<'
    &&& s[j + 1] == '/'
    &&& lower_seq(s.subrange(j + 2, j + 2 + n.len())) == n
    &&& (is_tws(s[j + 2 + n.len()]) || s[j + 2 + n.len()] == '/' || s[j + 2 + n.len()] == '>')
}

pub open spec fn raw_close(s: Seq<char>, j: int, n: Seq<char>) -> Option<int>
    decreases s.len() - j,
{
    if j < 0 || j >= s.len() {
        None
    } else if closes_raw_at(s, j, n) {
        Some(j)
    } else {
        raw_close(s, j + 1, n)
    }
}

// ---------------------------------------------------------------- names

pub open spec fn is_void(n: Seq<char>) -> bool {
    ||| n == "area"@ ||| n == "base"@ ||| n == "basefont"@ ||| n == "bgsound"@
    ||| n == "br"@ ||| n == "col"@ ||| n == "embed"@ ||| n == "frame"@ ||| n == "hr"@
    ||| n == "img"@ ||| n == "input"@ ||| n == "keygen"@ ||| n == "link"@ ||| n == "meta"@
    ||| n == "param"@ ||| n == "source"@ ||| n == "track"@ ||| n == "wbr"@
}

/// Start tags that end SVG or MathML content.
pub open spec fn is_breakout(n: Seq<char>) -> bool {
    ||| n == "b"@ ||| n == "big"@ ||| n == "blockquote"@ ||| n == "body"@ ||| n == "br"@
    ||| n == "center"@ ||| n == "code"@ ||| n == "dd"@ ||| n == "div"@ ||| n == "dl"@
    ||| n == "dt"@ ||| n == "em"@ ||| n == "embed"@ ||| n == "h1"@ ||| n == "h2"@
    ||| n == "h3"@ ||| n == "h4"@ ||| n == "h5"@ ||| n == "h6"@ ||| n == "head"@
    ||| n == "hr"@ ||| n == "i"@ ||| n == "img"@ ||| n == "li"@ ||| n == "listing"@
    ||| n == "menu"@ ||| n == "meta"@ ||| n == "nobr"@ ||| n == "ol"@ ||| n == "p"@
    ||| n == "pre"@ ||| n == "ruby"@ ||| n == "s"@ ||| n == "small"@ ||| n == "span"@
    ||| n == "strong"@ ||| n == "strike"@ ||| n == "sub"@ ||| n == "sup"@ ||| n == "table"@
    ||| n == "tt"@ ||| n == "u"@ ||| n == "ul"@ ||| n == "var"@
}

/// Elements inside SVG or MathML whose content is HTML again.
pub open spec fn is_integration(n: Seq<char>) -> bool {
    ||| n == "foreignobject"@ ||| n == "desc"@ ||| n == "title"@ ||| n == "mi"@
    ||| n == "mo"@ ||| n == "mn"@ ||| n == "ms"@ ||| n == "mtext"@ ||| n == "annotation-xml"@
}

pub open spec fn is_foreign_root(n: Seq<char>) -> bool {
    n == "svg"@ || n == "math"@
}

/// Names whose reading inside SVG or MathML depends on their attributes or
/// on where they stand; a document that uses them there is not counted.
pub open spec fn is_ambiguous(n: Seq<char>) -> bool {
    n == "font"@ || n == "annotation-xml"@ || n == "mglyph"@ || n == "malignmark"@
}

/// Elements whose content the tokenizer reads as text up to their end tag.
pub open spec fn is_raw(n: Seq<char>) -> bool {
    ||| n == "textarea"@ ||| n == "title"@ ||| n == "style"@ ||| n == "xmp"@
    ||| n == "iframe"@ ||| n == "noembed"@ ||| n == "noframes"@ ||| n == "noscript"@
    ||| n == "plaintext"@ ||| n == "script"@
}

pub open spec fn is_formatting(n: Seq<char>) -> bool {
    ||| n == "a"@ ||| n == "b"@ ||| n == "big"@ ||| n == "code"@ ||| n == "em"@
    ||| n == "font"@ ||| n == "i"@ ||| n == "nobr"@ ||| n == "s"@ ||| n == "small"@
    ||| n == "strike"@ ||| n == "strong"@ ||| n == "tt"@ ||| n == "u"@
}

/// Start tags that close an open `p`.
pub open spec fn closes_p(n: Seq<char>) -> bool {
    ||| n == "address"@ ||| n == "article"@ ||| n == "aside"@ ||| n == "blockquote"@
    ||| n == "center"@ ||| n == "details"@ ||| n == "dialog"@ ||| n == "dir"@ ||| n == "div"@
    ||| n == "dl"@ ||| n == "fieldset"@ ||| n == "figcaption"@ ||| n == "figure"@
    ||| n == "footer"@ ||| n == "header"@ ||| n == "hgroup"@ ||| n == "main"@ ||| n == "menu"@
    ||| n == "nav"@ ||| n == "ol"@ ||| n == "p"@ ||| n == "search"@ ||| n == "section"@
    ||| n == "summary"@ ||| n == "ul"@ ||| n == "h1"@ ||| n == "h2"@ ||| n == "h3"@
    ||| n == "h4"@ ||| n == "h5"@ ||| n == "h6"@ ||| n == "pre"@ ||| n == "listing"@
    ||| n == "li"@ ||| n == "dd"@ ||| n == "dt"@ ||| n == "form"@
}

/// End tags that close their element when it is in scope, with what stands
/// above it.
pub open spec fn is_block(n: Seq<char>) -> bool {
    ||| n == "address"@ ||| n == "article"@ ||| n == "aside"@ ||| n == "blockquote"@
    ||| n == "button"@ ||| n == "center"@ ||| n == "details"@ ||| n == "dialog"@
    ||| n == "dir"@ ||| n == "div"@ ||| n == "dl"@ ||| n == "fieldset"@ ||| n == "figcaption"@
    ||| n == "figure"@ ||| n == "footer"@ ||| n == "header"@ ||| n == "hgroup"@
    ||| n == "listing"@ ||| n == "main"@ ||| n == "menu"@ ||| n == "nav"@ ||| n == "ol"@
    ||| n == "pre"@ ||| n == "search"@ ||| n == "section"@ ||| n == "summary"@ ||| n == "ul"@
    ||| n == "li"@ ||| n == "dd"@ ||| n == "dt"@ ||| n == "p"@ ||| n == "h1"@ ||| n == "h2"@
    ||| n == "h3"@ ||| n == "h4"@ ||| n == "h5"@ ||| n == "h6"@
}

pub open spec fn is_table_part(n: Seq<char>) -> bool {
    ||| n == "table"@ ||| n == "tbody"@ ||| n == "thead"@ ||| n == "tfoot"@ ||| n == "tr"@
    ||| n == "td"@ ||| n == "th"@ ||| n == "caption"@
}

/// Elements whose end tag is implied when the end tag `x` closes what is
/// below them.
pub open spec fn implied_under(x: Seq<char>, t: Seq<char>) -> bool {
    &&& t != x
    &&& {
        ||| t == "dd"@ ||| t == "dt"@ ||| t == "li"@ ||| t == "p"@ ||| t == "option"@
        ||| (is_table_part(x) && t != "table"@ && (is_table_part(t) || t == "colgroup"@))
        ||| (x == "select"@ && t == "optgroup"@)
    }
}

/// Weight of an open element: a cell may stand in an implied row and row
/// group, a row in an implied row group.
pub open spec fn weight(n: Seq<char>) -> nat {
    if n == "td"@ || n == "th"@ {
        3
    } else if n == "tr"@ {
        2
    } else {
        1
    }
}

// ---------------------------------------------------------------- open elements

pub open spec fn wsum(st: Seq<Seq<char>>) -> nat
    decreases st.len(),
{
    if st.len() == 0 {
        0
    } else {
        wsum(st.drop_last()) + weight(st.last())
    }
}

pub open spec fn top_is(st: Seq<Seq<char>>, n: Seq<char>) -> bool {
    st.len() > 0 && st.last() == n
}

/// The current node is inside SVG or MathML: from the top down, an `svg` or
/// `math` comes before any breakout or integration point.
pub open spec fn foreign(st: Seq<Seq<char>>) -> bool
    decreases st.len(),
{
    if st.len() == 0 {
        false
    } else if is_foreign_root(st.last()) {
        true
    } else if is_breakout(st.last()) || is_integration(st.last()) {
        false
    } else {
        foreign(st.drop_last())
    }
}

pub open spec fn has_foreign(st: Seq<Seq<char>>) -> bool {
    exists|k: int| 0 <= k < st.len() && is_foreign_root(#[trigger] st[k])
}

pub open spec fn has_name(st: Seq<Seq<char>>, n: Seq<char>) -> bool {
    exists|k: int| 0 <= k < st.len() && #[trigger] st[k] == n
}

/// A `select` or `frameset` may be open: the tree builder then ignores most
/// start tags, and whether an element's content is raw text is not known.
pub open spec fn unsure(st: Seq<Seq<char>>) -> bool {
    has_name(st, "select"@) || has_name(st, "frameset"@)
}

/// An end tag inside SVG or MathML that names no element of that content
/// but an element below it: html5ever then applies the HTML rules, which
/// may close the SVG or MathML content; the document is not counted.
pub open spec fn end_refused(st: Seq<Seq<char>>, x: Seq<char>) -> bool {
    &&& foreign(st)
    &&& !(x == "p"@ || x == "br"@)
    &&& foreign_target(st, x) is None
    &&& has_name(st, x)
}

/// What a breakout leaves: SVG and MathML content closed.
pub open spec fn unwind(st: Seq<Seq<char>>) -> Seq<Seq<char>>
    decreases st.len(),
{
    if foreign(st) && st.len() > 0 {
        unwind(st.drop_last())
    } else {
        st
    }
}

/// In SVG or MathML, the element that the end tag `x` closes: the topmost
/// `x` down to the `svg` or `math`.
pub open spec fn foreign_target(st: Seq<Seq<char>>, x: Seq<char>) -> Option<int>
    decreases st.len(),
{
    if st.len() == 0 {
        None
    } else if st.last() == x {
        Some(st.len() - 1)
    } else if is_foreign_root(st.last()) {
        None
    } else {
        foreign_target(st.drop_last(), x)
    }
}

/// Below elements with implied end tags, the element that `x` closes.
pub open spec fn implied_target(st: Seq<Seq<char>>, x: Seq<char>) -> Option<int>
    decreases st.len(),
{
    if st.len() == 0 {
        None
    } else if st.last() == x {
        Some(st.len() - 1)
    } else if implied_under(x, st.last()) {
        implied_target(st.drop_last(), x)
    } else {
        None
    }
}

/// In HTML content, the element that the end tag `x` closes.
pub open spec fn html_target(st: Seq<Seq<char>>, x: Seq<char>) -> Option<int> {
    if is_block(x) || is_table_part(x) || x == "select"@ {
        implied_target(st, x)
    } else if top_is(st, x) {
        Some(st.len() - 1)
    } else {
        None
    }
}

/// The open elements after an end tag `x`, and the formatting count.
pub open spec fn after_end(st: Seq<Seq<char>>, f: nat, x: Seq<char>) -> (Seq<Seq<char>>, nat) {
    let breaks = foreign(st) && (x == "p"@ || x == "br"@);
    let st0 = if breaks {
        unwind(st)
    } else {
        st
    };
    let t = if foreign(st) && !breaks {
        foreign_target(st0, x)
    } else if x == "br"@ {
        None
    } else {
        html_target(st0, x)
    };
    match t {
        Some(j) => (
            st0.take(j),
            if is_formatting(x) && f > 0 {
                (f - 1) as nat
            } else {
                f
            },
        ),
        None => (st0, f),
    }
}

/// The open elements before a start tag `n` is pushed: the ones its start
/// tag closes when they are the current node.
pub open spec fn implied_closes(st: Seq<Seq<char>>, n: Seq<char>) -> Seq<Seq<char>> {
    let a = if closes_p(n) && top_is(st, "p"@) {
        st.drop_last()
    } else {
        st
    };
    let b = if n == "li"@ && top_is(a, "li"@) {
        a.drop_last()
    } else {
        a
    };
    let c = if (n == "dd"@ || n == "dt"@) && (top_is(b, "dd"@) || top_is(b, "dt"@)) {
        b.drop_last()
    } else {
        b
    };
    let d = if (n == "td"@ || n == "th"@ || n == "tr"@) && (top_is(c, "td"@) || top_is(c, "th"@)) {
        c.drop_last()
    } else {
        c
    };
    let e = if n == "tr"@ && top_is(d, "tr"@) {
        d.drop_last()
    } else {
        d
    };
    if n == "option"@ && top_is(e, "option"@) {
        e.drop_last()
    } else {
        e
    }
}

pub open spec fn fcount(n: Seq<char>) -> nat {
    if is_formatting(n) {
        1
    } else {
        0
    }
}

/// What a start tag `n` (self-closing when `sc`) whose tag ends before `g`
/// does: a code (0 go on at the position, 1 refuse the document, 2 stop
/// reading: the rest is text), the position, the open elements and the
/// formatting count.
pub open spec fn after_start(
    s: Seq<char>,
    g: int,
    st: Seq<Seq<char>>,
    f: nat,
    n: Seq<char>,
    sc: bool,
) -> (u8, int, Seq<Seq<char>>, nat) {
    let fc = foreign(st);
    if is_ambiguous(n) && (fc || n == "mglyph"@ || n == "malignmark"@) {
        (1, g, st, f)
    } else if is_raw(n) && unsure(st) {
        (1, g, st, f)
    } else if fc && !is_breakout(n) {
        if sc {
            (0, g, st, f)
        } else {
            (0, g, st.push(n), f + fcount(n))
        }
    } else {
        let st0 = if fc {
            unwind(st)
        } else {
            st
        };
        if is_raw(n) {
            if n == "script"@ {
                (1, g, st0, f)
            } else {
                match raw_close(s, g, n) {
                    Some(e) => (0, e, st0.push(n), f + fcount(n)),
                    None => (2, g, st0.push(n), f + fcount(n)),
                }
            }
        } else if (is_foreign_root(n) && sc) || is_void(n) {
            (0, g, st0, f)
        } else {
            (0, g, implied_closes(st0, n).push(n), f + fcount(n))
        }
    }
}

/// Whether the counted depth of the document from `i` on, with the open
/// elements `st` and `f` formatting elements that may be reopened, ever
/// passes `limit`, or the document is refused.
pub open spec fn deep_from(s: Seq<char>, i: int, st: Seq<Seq<char>>, f: nat, limit: nat) -> bool
    decreases s.len() - i,
{
    if i < 0 || i >= s.len() {
        false
    } else if s[i] != '<' || i + 1 >= s.len() {
        deep_from(s, i + 1, st, f, limit)
    } else if occurs_at(s, seq!['<', '!', '-', '-'], i) {
        let j = comment_close(s, i + 4);
        if i < j <= s.len() {
            deep_from(s, j, st, f, limit)
        } else {
            false
        }
    } else if occurs_at(s, seq!['<', '!', '[', 'C', 'D', 'A', 'T', 'A', '['], i) {
        if unsure(st) {
            true
        } else if foreign(st) {
            let j = cdata_close(s, i + 9);
            if i < j <= s.len() {
                deep_from(s, j, st, f, limit)
            } else {
                false
            }
        } else if has_foreign(st) {
            true
        } else {
            let j = gt_from(s, i + 2) + 1;
            if i < j <= s.len() {
                deep_from(s, j, st, f, limit)
            } else {
                false
            }
        }
    } else if s[i + 1] == '!' || s[i + 1] == '?' {
        let j = gt_from(s, i + 2) + 1;
        if i < j <= s.len() {
            deep_from(s, j, st, f, limit)
        } else {
            false
        }
    } else if s[i + 1] == '/' {
        if i + 2 < s.len() && is_alpha(s[i + 2]) {
            let ne = name_stop(s, i + 2);
            match tag_close(s, ne, 0) {
                None => false,
                Some(t) => {
                    let x = lower_seq(s.subrange(i + 2, ne));
                    let e = after_end(st, f, x);
                    if end_refused(st, x) {
                        true
                    } else if i < t.0 + 1 <= s.len() {
                        deep_from(s, t.0 + 1, e.0, e.1, limit)
                    } else {
                        false
                    }
                },
            }
        } else if i + 2 < s.len() && s[i + 2] == '>' {
            deep_from(s, i + 3, st, f, limit)
        } else {
            let j = gt_from(s, i + 2) + 1;
            if i < j <= s.len() {
                deep_from(s, j, st, f, limit)
            } else {
                false
            }
        }
    } else if is_alpha(s[i + 1]) {
        let ne = name_stop(s, i + 1);
        match tag_close(s, ne, 0) {
            None => false,
            Some(t) => {
                let e = after_start(s, t.0 + 1, st, f, lower_seq(s.subrange(i + 1, ne)), t.1);
                if e.0 == 1 {
                    true
                } else if wsum(e.2) + e.3 > limit {
                    true
                } else if e.0 == 2 {
                    false
                } else if i < e.1 <= s.len() {
                    deep_from(s, e.1, e.2, e.3, limit)
                } else {
                    false
                }
            },
        }
    } else {
        deep_from(s, i + 1, st, f, limit)
    }
}

/// A document htmd can convert: the scan never counts more than
/// `MAX_TREE_DEPTH` and refuses nothing. The count weighs each element that
/// may be open (a start tag opens one whether or not it ends in `/`, unless
/// it is void; an end tag closes only the current element it names, or one
/// below elements whose end tags it implies; a formatting element that html5ever
/// may reopen counts until its end tag closes it; a cell counts three and a
/// row two, for the row and row group html5ever may insert), so html5ever's
/// tree is at most that deep plus a few implied levels (`html`, `body`, a
/// column group, an empty `p`).
pub open spec fn convertible(html: Seq<char>) -> bool {
    !deep_from(html, 0, Seq::empty(), 0, MAX_TREE_DEPTH as nat)
}


proof fn lemma_targets(st: Seq<Seq<char>>, x: Seq<char>)
    ensures
        foreign_target(st, x) matches Some(j) ==> 0 <= j < st.len(),
        implied_target(st, x) matches Some(j) ==> 0 <= j < st.len(),
    decreases st.len(),
{
    if st.len() > 0 {
        lemma_targets(st.drop_last(), x);
    }
}

// ---------------------------------------------------------------- exec: names

fn name_is(n: &[char], lit: &str) -> (r: bool)
    ensures
        r == (n@ == lit@),
{
    same(n, chars_of(lit).as_slice())
}

fn void_name(n: &[char]) -> (r: bool)
    ensures
        r == is_void(n@),
{
    name_is(n, "area") || name_is(n, "base") || name_is(n, "basefont") || name_is(n, "bgsound")
        || name_is(n, "br") || name_is(n, "col") || name_is(n, "embed") || name_is(n, "frame")
        || name_is(n, "hr") || name_is(n, "img") || name_is(n, "input") || name_is(n, "keygen")
        || name_is(n, "link") || name_is(n, "meta") || name_is(n, "param") || name_is(n, "source")
        || name_is(n, "track") || name_is(n, "wbr")
}

fn breakout_name(n: &[char]) -> (r: bool)
    ensures
        r == is_breakout(n@),
{
    name_is(n, "b") || name_is(n, "big") || name_is(n, "blockquote") || name_is(n, "body")
        || name_is(n, "br") || name_is(n, "center") || name_is(n, "code") || name_is(n, "dd")
        || name_is(n, "div") || name_is(n, "dl") || name_is(n, "dt") || name_is(n, "em")
        || name_is(n, "embed") || name_is(n, "h1") || name_is(n, "h2") || name_is(n, "h3")
        || name_is(n, "h4") || name_is(n, "h5") || name_is(n, "h6") || name_is(n, "head")
        || name_is(n, "hr") || name_is(n, "i") || name_is(n, "img") || name_is(n, "li")
        || name_is(n, "listing") || name_is(n, "menu") || name_is(n, "meta") || name_is(n, "nobr")
        || name_is(n, "ol") || name_is(n, "p") || name_is(n, "pre") || name_is(n, "ruby")
        || name_is(n, "s") || name_is(n, "small") || name_is(n, "span") || name_is(n, "strong")
        || name_is(n, "strike") || name_is(n, "sub") || name_is(n, "sup") || name_is(n, "table")
        || name_is(n, "tt") || name_is(n, "u") || name_is(n, "ul") || name_is(n, "var")
}

fn integration_name(n: &[char]) -> (r: bool)
    ensures
        r == is_integration(n@),
{
    name_is(n, "foreignobject") || name_is(n, "desc") || name_is(n, "title") || name_is(n, "mi")
        || name_is(n, "mo") || name_is(n, "mn") || name_is(n, "ms") || name_is(n, "mtext")
        || name_is(n, "annotation-xml")
}

fn foreign_root_name(n: &[char]) -> (r: bool)
    ensures
        r == is_foreign_root(n@),
{
    name_is(n, "svg") || name_is(n, "math")
}

fn ambiguous_name(n: &[char]) -> (r: bool)
    ensures
        r == is_ambiguous(n@),
{
    name_is(n, "font") || name_is(n, "annotation-xml") || name_is(n, "mglyph") || name_is(
        n,
        "malignmark",
    )
}

fn raw_name(n: &[char]) -> (r: bool)
    ensures
        r == is_raw(n@),
{
    name_is(n, "textarea") || name_is(n, "title") || name_is(n, "style") || name_is(n, "xmp")
        || name_is(n, "iframe") || name_is(n, "noembed") || name_is(n, "noframes") || name_is(
        n,
        "noscript",
    ) || name_is(n, "plaintext") || name_is(n, "script")
}

fn formatting_name(n: &[char]) -> (r: bool)
    ensures
        r == is_formatting(n@),
{
    name_is(n, "a") || name_is(n, "b") || name_is(n, "big") || name_is(n, "code") || name_is(
        n,
        "em",
    ) || name_is(n, "font") || name_is(n, "i") || name_is(n, "nobr") || name_is(n, "s")
        || name_is(n, "small") || name_is(n, "strike") || name_is(n, "strong") || name_is(n, "tt")
        || name_is(n, "u")
}

fn closes_p_name(n: &[char]) -> (r: bool)
    ensures
        r == closes_p(n@),
{
    name_is(n, "address") || name_is(n, "article") || name_is(n, "aside") || name_is(
        n,
        "blockquote",
    ) || name_is(n, "center") || name_is(n, "details") || name_is(n, "dialog") || name_is(
        n,
        "dir",
    ) || name_is(n, "div") || name_is(n, "dl") || name_is(n, "fieldset") || name_is(
        n,
        "figcaption",
    ) || name_is(n, "figure") || name_is(n, "footer") || name_is(n, "header") || name_is(
        n,
        "hgroup",
    ) || name_is(n, "main") || name_is(n, "menu") || name_is(n, "nav") || name_is(n, "ol")
        || name_is(n, "p") || name_is(n, "search") || name_is(n, "section") || name_is(
        n,
        "summary",
    ) || name_is(n, "ul") || name_is(n, "h1") || name_is(n, "h2") || name_is(n, "h3") || name_is(
        n,
        "h4",
    ) || name_is(n, "h5") || name_is(n, "h6") || name_is(n, "pre") || name_is(n, "listing")
        || name_is(n, "li") || name_is(n, "dd") || name_is(n, "dt") || name_is(n, "form")
}

fn block_name(n: &[char]) -> (r: bool)
    ensures
        r == is_block(n@),
{
    name_is(n, "address") || name_is(n, "article") || name_is(n, "aside") || name_is(
        n,
        "blockquote",
    ) || name_is(n, "button") || name_is(n, "center") || name_is(n, "details") || name_is(
        n,
        "dialog",
    ) || name_is(n, "dir") || name_is(n, "div") || name_is(n, "dl") || name_is(n, "fieldset")
        || name_is(n, "figcaption") || name_is(n, "figure") || name_is(n, "footer") || name_is(
        n,
        "header",
    ) || name_is(n, "hgroup") || name_is(n, "listing") || name_is(n, "main") || name_is(
        n,
        "menu",
    ) || name_is(n, "nav") || name_is(n, "ol") || name_is(n, "pre") || name_is(n, "search")
        || name_is(n, "section") || name_is(n, "summary") || name_is(n, "ul") || name_is(n, "li")
        || name_is(n, "dd") || name_is(n, "dt") || name_is(n, "p") || name_is(n, "h1") || name_is(
        n,
        "h2",
    ) || name_is(n, "h3") || name_is(n, "h4") || name_is(n, "h5") || name_is(n, "h6")
}

fn table_part_name(n: &[char]) -> (r: bool)
    ensures
        r == is_table_part(n@),
{
    name_is(n, "table") || name_is(n, "tbody") || name_is(n, "thead") || name_is(n, "tfoot")
        || name_is(n, "tr") || name_is(n, "td") || name_is(n, "th") || name_is(n, "caption")
}

fn implied_under_name(x: &[char], t: &[char]) -> (r: bool)
    ensures
        r == implied_under(x@, t@),
{
    !same(t, x) && (name_is(t, "dd") || name_is(t, "dt") || name_is(t, "li") || name_is(t, "p")
        || name_is(t, "option") || (table_part_name(x) && !name_is(t, "table") && (
        table_part_name(t) || name_is(t, "colgroup"))) || (name_is(x, "select") && name_is(
        t,
        "optgroup",
    )))
}

fn weight_of(n: &[char]) -> (r: usize)
    ensures
        r == weight(n@),
        r <= 3,
{
    if name_is(n, "td") || name_is(n, "th") {
        3
    } else if name_is(n, "tr") {
        2
    } else {
        1
    }
}

// ---------------------------------------------------------------- exec: open elements

/// The open elements as the scan counts them.
struct Open {
    names: Vec<Vec<char>>,
    w: usize,
    f: usize,
}

impl Open {
    spec fn view(&self) -> Seq<Seq<char>> {
        self.names@.map_values(|v: Vec<char>| v@)
    }

    spec fn wf(&self) -> bool {
        &&& self.w == wsum(self.view())
        &&& self.w + self.f <= MAX_TREE_DEPTH + 4
    }

    fn top_is(&self, n: &str) -> (r: bool)
        ensures
            r == top_is(self.view(), n@),
    {
        let k = self.names.len();
        if k == 0 {
            false
        } else {
            assert(self.view().last() == self.names@[k - 1]@);
            name_is(self.names[k - 1].as_slice(), n)
        }
    }

    fn pop(&mut self)
        requires
            old(self).wf(),
            old(self).names.len() > 0,
        ensures
            final(self).wf(),
            final(self).view() == old(self).view().drop_last(),
            final(self).f == old(self).f,
            final(self).w <= old(self).w,
    {
        let ghost v0 = self.view();
        let k = self.names.len();
        assert(v0.last() == self.names@[k - 1]@);
        let wt = weight_of(self.names[k - 1].as_slice());
        self.names.pop();
        assert(self.view() =~= v0.drop_last());
        self.w = self.w - wt;
    }

    fn push(&mut self, n: Vec<char>)
        requires
            old(self).wf(),
            old(self).w + old(self).f <= MAX_TREE_DEPTH,
        ensures
            final(self).wf(),
            final(self).view() == old(self).view().push(n@),
            final(self).f == old(self).f + fcount(n@),
    {
        let ghost v0 = self.view();
        let wt = weight_of(n.as_slice());
        let fm = formatting_name(n.as_slice());
        self.names.push(n);
        assert(self.view() =~= v0.push(n@));
        assert(self.view().drop_last() =~= v0);
        assert(self.view().last() == n@);
        assert(wsum(self.view()) == wsum(v0) + weight(n@));
        self.w = self.w + wt;
        if fm {
            self.f = self.f + 1;
        }
    }

    fn pop_to(&mut self, j: usize)
        requires
            old(self).wf(),
            j <= old(self).names.len(),
        ensures
            final(self).wf(),
            final(self).view() == old(self).view().take(j as int),
            final(self).f == old(self).f,
            final(self).w <= old(self).w,
    {
        let ghost v0 = self.view();
        while self.names.len() > j
            invariant
                self.wf(),
                j <= self.names.len() <= v0.len(),
                self.view() == v0.take(self.names.len() as int),
                self.f == old(self).f,
                self.w <= old(self).w,
            decreases self.names.len(),
        {
            let ghost k = self.names.len();
            self.pop();
            assert(v0.take(k as int).drop_last() =~= v0.take(k - 1));
        }
    }

    fn foreign(&self) -> (r: bool)
        ensures
            r == foreign(self.view()),
    {
        let mut k = self.names.len();
        assert(self.view().take(k as int) =~= self.view());
        while k > 0
            invariant
                k <= self.names.len(),
                foreign(self.view()) == foreign(self.view().take(k as int)),
            decreases k,
        {
            let t = self.names[k - 1].as_slice();
            let ghost v = self.view().take(k as int);
            assert(v.last() == t@);
            assert(v.drop_last() =~= self.view().take(k - 1));
            if foreign_root_name(t) {
                return true;
            }
            if breakout_name(t) || integration_name(t) {
                return false;
            }
            k = k - 1;
        }
        false
    }

    fn has_foreign(&self) -> (r: bool)
        ensures
            r == has_foreign(self.view()),
    {
        let mut k: usize = 0;
        while k < self.names.len()
            invariant
                k <= self.names.len(),
                forall|m: int| 0 <= m < k ==> !is_foreign_root(#[trigger] self.view()[m]),
            decreases self.names.len() - k,
        {
            let t = self.names[k].as_slice();
            assert(self.view()[k as int] == t@);
            if foreign_root_name(t) {
                return true;
            }
            k = k + 1;
        }
        false
    }

    fn contains(&self, x: &[char]) -> (r: bool)
        ensures
            r == has_name(self.view(), x@),
    {
        let mut k: usize = 0;
        while k < self.names.len()
            invariant
                k <= self.names.len(),
                forall|m: int| 0 <= m < k ==> #[trigger] self.view()[m] != x@,
            decreases self.names.len() - k,
        {
            let t = self.names[k].as_slice();
            assert(self.view()[k as int] == t@);
            if same(t, x) {
                return true;
            }
            k = k + 1;
        }
        false
    }

    fn unsure(&self) -> (r: bool)
        ensures
            r == unsure(self.view()),
    {
        self.contains(chars_of("select").as_slice()) || self.contains(
            chars_of("frameset").as_slice(),
        )
    }

    fn end_refused(&self, x: &[char]) -> (r: bool)
        ensures
            r == end_refused(self.view(), x@),
    {
        if !self.foreign() || name_is(x, "p") || name_is(x, "br") {
            return false;
        }
        proof {
            lemma_targets(self.view(), x@);
        }
        let t = self.target(x, true);
        t.is_none() && self.contains(x)
    }

    fn unwind(&mut self)
        requires
            old(self).wf(),
        ensures
            final(self).wf(),
            final(self).view() == unwind(old(self).view()),
            final(self).f == old(self).f,
            final(self).w <= old(self).w,
    {
        while self.names.len() > 0 && self.foreign()
            invariant
                self.wf(),
                unwind(old(self).view()) == unwind(self.view()),
                self.f == old(self).f,
                self.w <= old(self).w,
            decreases self.names.len(),
        {
            self.pop();
        }
    }

    fn target(&self, x: &[char], in_foreign: bool) -> (r: Option<usize>)
        ensures
            in_foreign ==> r == (match foreign_target(self.view(), x@) {
                Some(j) => Some(j as usize),
                None => None::<usize>,
            }),
            !in_foreign ==> r == (match implied_target(self.view(), x@) {
                Some(j) => Some(j as usize),
                None => None::<usize>,
            }),
            r matches Some(j) ==> j < self.names.len(),
    {
        let mut k = self.names.len();
        assert(self.view().take(k as int) =~= self.view());
        while k > 0
            invariant
                k <= self.names.len(),
                in_foreign ==> foreign_target(self.view(), x@) == foreign_target(
                    self.view().take(k as int),
                    x@,
                ),
                !in_foreign ==> implied_target(self.view(), x@) == implied_target(
                    self.view().take(k as int),
                    x@,
                ),
            decreases k,
        {
            let t = self.names[k - 1].as_slice();
            let ghost v = self.view().take(k as int);
            assert(v.last() == t@);
            assert(v.drop_last() =~= self.view().take(k - 1));
            if same(t, x) {
                return Some(k - 1);
            }
            if in_foreign {
                if foreign_root_name(t) {
                    return None;
                }
            } else if !implied_under_name(x, t) {
                return None;
            }
            k = k - 1;
        }
        None
    }

    fn after_end(&mut self, x: &[char])
        requires
            old(self).wf(),
        ensures
            final(self).wf(),
            final(self).w + final(self).f <= old(self).w + old(self).f,
            (final(self).view(), final(self).f as nat) == after_end(
                old(self).view(),
                old(self).f as nat,
                x@,
            ),
    {
        proof {
            lemma_targets(unwind(self.view()), x@);
            lemma_targets(self.view(), x@);
        }
        let fc = self.foreign();
        let breaks = fc && (name_is(x, "p") || name_is(x, "br"));
        if breaks {
            self.unwind();
        }
        let t = if fc && !breaks {
            self.target(x, true)
        } else if name_is(x, "br") {
            None
        } else if block_name(x) || table_part_name(x) || name_is(x, "select") {
            self.target(x, false)
        } else if self.top_is_name(x) {
            Some(self.names.len() - 1)
        } else {
            None
        };
        match t {
            Some(j) => {
                self.pop_to(j);
                if formatting_name(x) && self.f > 0 {
                    self.f = self.f - 1;
                }
            },
            None => {},
        }
    }

    fn top_is_name(&self, x: &[char]) -> (r: bool)
        ensures
            r == top_is(self.view(), x@),
            r ==> self.names.len() > 0,
    {
        let k = self.names.len();
        if k == 0 {
            false
        } else {
            assert(self.view().last() == self.names@[k - 1]@);
            same(self.names[k - 1].as_slice(), x)
        }
    }

    #[verifier::rlimit(40)]
    fn implied_closes(&mut self, n: &[char])
        requires
            old(self).wf(),
        ensures
            final(self).wf(),
            final(self).view() == implied_closes(old(self).view(), n@),
            final(self).f == old(self).f,
            final(self).w <= old(self).w,
    {
        let ghost v0 = self.view();
        if closes_p_name(n) && self.top_is("p") {
            self.pop();
        }
        let ghost a = self.view();
        assert(a == (if closes_p(n@) && top_is(v0, "p"@) {
            v0.drop_last()
        } else {
            v0
        }));
        if name_is(n, "li") && self.top_is("li") {
            self.pop();
        }
        let ghost b = self.view();
        assert(b == (if n@ == "li"@ && top_is(a, "li"@) {
            a.drop_last()
        } else {
            a
        }));
        if (name_is(n, "dd") || name_is(n, "dt")) && (self.top_is("dd") || self.top_is("dt")) {
            self.pop();
        }
        let ghost c = self.view();
        assert(c == (if (n@ == "dd"@ || n@ == "dt"@) && (top_is(b, "dd"@) || top_is(b, "dt"@)) {
            b.drop_last()
        } else {
            b
        }));
        if (name_is(n, "td") || name_is(n, "th") || name_is(n, "tr")) && (self.top_is("td")
            || self.top_is("th")) {
            self.pop();
        }
        let ghost d = self.view();
        assert(d == (if (n@ == "td"@ || n@ == "th"@ || n@ == "tr"@) && (top_is(c, "td"@) || top_is(
            c,
            "th"@,
        )) {
            c.drop_last()
        } else {
            c
        }));
        if name_is(n, "tr") && self.top_is("tr") {
            self.pop();
        }
        let ghost e = self.view();
        assert(e == (if n@ == "tr"@ && top_is(d, "tr"@) {
            d.drop_last()
        } else {
            d
        }));
        if name_is(n, "option") && self.top_is("option") {
            self.pop();
        }
    }
}


impl Open {
    fn after_start(&mut self, s: &[char], g: usize, n: Vec<char>, sc: bool) -> (r: (u8, usize))
        requires
            old(self).wf(),
            old(self).w + old(self).f <= MAX_TREE_DEPTH,
            g <= s.len(),
        ensures
            final(self).wf(),
            r.1 <= s.len(),
            ({
                let e = after_start(s@, g as int, old(self).view(), old(self).f as nat, n@, sc);
                &&& r.0 == e.0
                &&& r.1 == e.1
                &&& final(self).view() == e.2
                &&& final(self).f == e.3
            }),
    {
        let fc = self.foreign();
        let nm = n.as_slice();
        if ambiguous_name(nm) && (fc || name_is(nm, "mglyph") || name_is(nm, "malignmark")) {
            return (1, g);
        }
        if raw_name(nm) && self.unsure() {
            return (1, g);
        }
        if fc && !breakout_name(nm) {
            if sc {
                return (0, g);
            }
            self.push(n);
            return (0, g);
        }
        if fc {
            self.unwind();
        }
        if raw_name(nm) {
            if name_is(nm, "script") {
                return (1, g);
            }
            let e = raw_close_at(s, g, nm);
            self.push(n);
            match e {
                Some(j) => (0, j),
                None => (2, g),
            }
        } else if (foreign_root_name(nm) && sc) || void_name(nm) {
            (0, g)
        } else {
            self.implied_closes(nm);
            self.push(n);
            (0, g)
        }
    }
}

// ---------------------------------------------------------------- exec: tokens

fn is_tws_char(c: char) -> (r: bool)
    ensures
        r == is_tws(c),
{
    c == '\t' || c == '\n' || c == '\u{c}' || c == '\r' || c == ' '
}

fn name_stop_at(s: &[char], j: usize) -> (r: usize)
    requires
        j <= s.len(),
    ensures
        r == name_stop(s@, j as int),
        j <= r <= s.len(),
{
    let mut k = j;
    while k < s.len() && !is_tws_char(s[k]) && s[k] != '/' && s[k] != '>'
        invariant
            j <= k <= s.len(),
            name_stop(s@, j as int) == name_stop(s@, k as int),
        decreases s.len() - k,
    {
        k = k + 1;
    }
    k
}

fn attr_step_of(st: u8, c: char) -> (r: (u8, bool, bool))
    requires
        st <= 8,
    ensures
        r.0 <= 8,
        (r.0 as nat, r.1, r.2) == attr_step(st as nat, c),
{
    let ws = is_tws_char(c);
    if st == 4 {
        if c == '"' {
            (7, false, false)
        } else {
            (4, false, false)
        }
    } else if st == 5 {
        if c == '\'' {
            (7, false, false)
        } else {
            (5, false, false)
        }
    } else if st == 6 {
        if ws {
            (0, false, false)
        } else if c == '>' {
            (0, true, false)
        } else {
            (6, false, false)
        }
    } else if st == 3 {
        if ws {
            (3, false, false)
        } else if c == '"' {
            (4, false, false)
        } else if c == '\'' {
            (5, false, false)
        } else if c == '>' {
            (0, true, false)
        } else {
            (6, false, false)
        }
    } else if c == '>' {
        (0, true, st == 8)
    } else if c == '/' {
        (8, false, false)
    } else if c == '=' {
        if st == 1 || st == 2 {
            (3, false, false)
        } else {
            (1, false, false)
        }
    } else if ws {
        if st == 1 || st == 2 {
            (2, false, false)
        } else {
            (0, false, false)
        }
    } else {
        (1, false, false)
    }
}

fn tag_close_at(s: &[char], k0: usize) -> (r: Option<(usize, bool)>)
    requires
        k0 <= s.len(),
    ensures
        tag_close(s@, k0 as int, 0) == (match r {
            Some(t) => Some((t.0 as int, t.1)),
            None => None::<(int, bool)>,
        }),
        r matches Some(t) ==> k0 <= t.0 < s.len(),
{
    let mut k = k0;
    let mut st: u8 = 0;
    while k < s.len()
        invariant
            k0 <= k <= s.len(),
            st <= 8,
            tag_close(s@, k0 as int, 0) == tag_close(s@, k as int, st as nat),
        decreases s.len() - k,
    {
        let a = attr_step_of(st, s[k]);
        if a.1 {
            return Some((k, a.2));
        }
        st = a.0;
        k = k + 1;
    }
    None
}

fn gt_at(s: &[char], k0: usize) -> (r: usize)
    requires
        k0 <= s.len(),
    ensures
        r == gt_from(s@, k0 as int),
        k0 <= r <= s.len(),
{
    let mut k = k0;
    while k < s.len() && s[k] != '>'
        invariant
            k0 <= k <= s.len(),
            gt_from(s@, k0 as int) == gt_from(s@, k as int),
        decreases s.len() - k,
    {
        k = k + 1;
    }
    k
}

fn comment_close_at(s: &[char], k: usize) -> (r: usize)
    requires
        k <= s.len(),
    ensures
        r == comment_close(s@, k as int),
        k < r <= s.len() || r == s.len(),
{
    if k < s.len() && s[k] == '>' {
        return k + 1;
    }
    if k < s.len() && s.len() - k > 1 && s[k] == '-' && s[k + 1] == '>' {
        return k + 2;
    }
    proof {
        reveal_strlit("-->");
        reveal_strlit("--!>");
    }
    let p3 = chars_of("-->");
    let p4 = chars_of("--!>");
    assert(p3@ =~= seq!['-', '-', '>']);
    assert(p4@ =~= seq!['-', '-', '!', '>']);
    assert(comment_close(s@, k as int) == dashes_close(s@, k as int));
    let mut j = k;
    while j < s.len()
        invariant
            k <= j <= s.len(),
            comment_close(s@, k as int) == dashes_close(s@, k as int),
            p3@ == seq!['-', '-', '>'],
            p4@ == seq!['-', '-', '!', '>'],
            dashes_close(s@, k as int) == dashes_close(s@, j as int),
        decreases s.len() - j,
    {
        if matches_at(s, p3.as_slice(), j) {
            return j + 3;
        }
        if matches_at(s, p4.as_slice(), j) {
            return j + 4;
        }
        j = j + 1;
    }
    s.len()
}

fn cdata_close_at(s: &[char], k: usize) -> (r: usize)
    requires
        k <= s.len(),
    ensures
        r == cdata_close(s@, k as int),
        r <= s.len(),
{
    proof {
        reveal_strlit("]]>");
    }
    let p3 = chars_of("]]>");
    assert(p3@ =~= seq![']', ']', '>']);
    let mut j = k;
    while j < s.len()
        invariant
            k <= j <= s.len(),
            p3@ == seq![']', ']', '>'],
            cdata_close(s@, k as int) == cdata_close(s@, j as int),
        decreases s.len() - j,
    {
        if matches_at(s, p3.as_slice(), j) {
            return j + 3;
        }
        j = j + 1;
    }
    s.len()
}

fn closes_raw(s: &[char], j: usize, n: &[char]) -> (r: bool)
    requires
        j <= s.len(),
    ensures
        r == closes_raw_at(s@, j as int, n@),
{
    if n.len() >= s.len() || j >= s.len() - n.len() || s.len() - n.len() - j <= 2 {
        return false;
    }
    if s[j] != '<' || s[j + 1] != '/' {
        return false;
    }
    let mut sub: Vec<char> = Vec::new();
    push_range(&mut sub, s, j + 2, j + 2 + n.len());
    let low = lowered(sub.as_slice());
    if !same(low.as_slice(), n) {
        return false;
    }
    let c = s[j + 2 + n.len()];
    is_tws_char(c) || c == '/' || c == '>'
}

fn raw_close_at(s: &[char], k: usize, n: &[char]) -> (r: Option<usize>)
    requires
        k <= s.len(),
    ensures
        raw_close(s@, k as int, n@) == (match r {
            Some(j) => Some(j as int),
            None => None::<int>,
        }),
        r matches Some(j) ==> k <= j < s.len(),
{
    let mut j = k;
    while j < s.len()
        invariant
            k <= j <= s.len(),
            raw_close(s@, k as int, n@) == raw_close(s@, j as int, n@),
        decreases s.len() - j,
    {
        if closes_raw(s, j, n) {
            return Some(j);
        }
        j = j + 1;
    }
    None
}

fn lower_name(s: &[char], a: usize, b: usize) -> (r: Vec<char>)
    requires
        a <= b <= s.len(),
    ensures
        r@ == lower_seq(s@.subrange(a as int, b as int)),
{
    let mut sub: Vec<char> = Vec::new();
    push_range(&mut sub, s, a, b);
    lowered(sub.as_slice())
}

// ---------------------------------------------------------------- exec: scan

/// Whether the document is refused for conversion: its tree, as this scan
/// counts it, may be deeper than `MAX_TREE_DEPTH` (or it uses markup inside
/// SVG or MathML that the scan does not count).
pub fn exceeds_tree_depth(html: &str) -> (r: bool)
    ensures
        r == !convertible(html@),
{
    let s = chars_of(html);
    let n = s.len();
    let mut o = Open { names: Vec::new(), w: 0, f: 0 };
    assert(o.view() =~= Seq::<Seq<char>>::empty());
    let mut i: usize = 0;
    proof {
        reveal_strlit("<!--");
        reveal_strlit("<![CDATA[");
    }
    let open_comment = chars_of("<!--");
    let open_cdata = chars_of("<![CDATA[");
    assert(open_comment@ =~= seq!['<', '!', '-', '-']);
    assert(open_cdata@ =~= seq!['<', '!', '[', 'C', 'D', 'A', 'T', 'A', '[']);
    while i < n
        invariant
            n == s@.len(),
            s@ == html@,
            i <= n,
            o.wf(),
            o.w + o.f <= MAX_TREE_DEPTH,
            open_comment@ == seq!['<', '!', '-', '-'],
            open_cdata@ == seq!['<', '!', '[', 'C', 'D', 'A', 'T', 'A', '['],
            deep_from(html@, 0, Seq::empty(), 0, MAX_TREE_DEPTH as nat) == deep_from(
                s@,
                i as int,
                o.view(),
                o.f as nat,
                MAX_TREE_DEPTH as nat,
            ),
        decreases n - i,
    {
        if s[i] != '<' || i + 1 >= n {
            i = i + 1;
        } else if matches_at(s.as_slice(), open_comment.as_slice(), i) {
            let j = comment_close_at(s.as_slice(), i + 4);
            if !(i < j && j <= n) {
                return false;
            }
            i = j;
        } else if matches_at(s.as_slice(), open_cdata.as_slice(), i) {
            if o.unsure() {
                return true;
            }
            if o.foreign() {
                let j = cdata_close_at(s.as_slice(), i + 9);
                if !(i < j && j <= n) {
                    return false;
                }
                i = j;
            } else if o.has_foreign() {
                return true;
            } else {
                let g = gt_at(s.as_slice(), i + 2);
                if g >= n {
                    return false;
                }
                i = g + 1;
            }
        } else if s[i + 1] == '!' || s[i + 1] == '?' {
            let g = gt_at(s.as_slice(), i + 2);
            if g >= n {
                return false;
            }
            i = g + 1;
        } else if s[i + 1] == '/' {
            if i + 2 < n && is_alpha_char(s[i + 2]) {
                let ne = name_stop_at(s.as_slice(), i + 2);
                match tag_close_at(s.as_slice(), ne) {
                    None => {
                        return false;
                    },
                    Some(t) => {
                        let x = lower_name(s.as_slice(), i + 2, ne);
                        if o.end_refused(x.as_slice()) {
                            return true;
                        }
                        o.after_end(x.as_slice());
                        i = t.0 + 1;
                    },
                }
            } else if i + 2 < n && s[i + 2] == '>' {
                i = i + 3;
            } else {
                let g = gt_at(s.as_slice(), i + 2);
                if g >= n {
                    return false;
                }
                i = g + 1;
            }
        } else if is_alpha_char(s[i + 1]) {
            let ne = name_stop_at(s.as_slice(), i + 1);
            match tag_close_at(s.as_slice(), ne) {
                None => {
                    return false;
                },
                Some(t) => {
                    let nm = lower_name(s.as_slice(), i + 1, ne);
                    let e = o.after_start(s.as_slice(), t.0 + 1, nm, t.1);
                    if e.0 == 1 {
                        return true;
                    }
                    if o.w + o.f > MAX_TREE_DEPTH {
                        return true;
                    }
                    if e.0 == 2 {
                        return false;
                    }
                    if !(i < e.1 && e.1 <= n) {
                        return false;
                    }
                    i = e.1;
                },
            }
        } else {
            i = i + 1;
        }
    }
    false
}

fn is_alpha_char(c: char) -> (r: bool)
    ensures
        r == is_alpha(c),
{
    ('a' <= c && c <= 'z') || ('A' <= c && c <= 'Z')
}

} // verus!
