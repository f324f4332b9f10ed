//! Article extraction with dom_smoothie, behind a linear guard on the
//! nesting depth of the document.
use crate::convert::nesting::{convertible, exceeds_tree_depth};
use crate::error::{detail_from, ExitCode, WebgrabError};
use crate::text::{chars_of, is_alnum, is_alphanumeric, lower_seq, lowered, same};
use vstd::prelude::*;

verus! {

broadcast use vstd::string::group_string_axioms;

/// Maximum element nesting. dom_smoothie's scoring grows about cubically with
/// the depth and practically hangs at thousands of levels; real pages stay
/// far below this.
pub const MAX_NESTING_DEPTH: usize = 1000;

/// What extraction found.
#[derive(Debug)]
pub struct Extracted {
    pub title: Option<String>,
    pub published_time: Option<String>,
    /// The article HTML.
    pub content_html: String,
    /// The extractor found no article; the body is empty (reported as
    /// `warn=extract-grab-failed`).
    pub grab_failed: bool,
}

impl Default for Extracted {
    fn default() -> (r: Self)
        ensures
            r.title is None,
            r.published_time is None,
            r.content_html@ == Seq::<char>::empty(),
            !r.grab_failed,
    {
        Extracted {
            title: None,
            published_time: None,
            content_html: String::new(),
            grab_failed: false,
        }
    }
}

// ---------------------------------------------------------------- depth

/// Elements without content.
pub open spec fn is_void(name: Seq<char>) -> bool {
    ||| name == "area"@
    ||| name == "base"@
    ||| name == "br"@
    ||| name == "col"@
    ||| name == "embed"@
    ||| name == "hr"@
    ||| name == "img"@
    ||| name == "input"@
    ||| name == "link"@
    ||| name == "meta"@
    ||| name == "param"@
    ||| name == "source"@
    ||| name == "track"@
    ||| name == "wbr"@
}

/// A character of a tag name.
pub open spec fn is_name_char(c: char) -> bool {
    is_alnum(c) || c == '-'
}

/// The end of the tag name that starts at `j`.
pub open spec fn name_end(s: Seq<char>, j: int) -> int
    decreases s.len() - j,
{
    if 0 <= j < s.len() && is_name_char(s[j]) {
        name_end(s, j + 1)
    } else {
        j
    }
}

/// The position of the first `>` at or after `k`, or the end.
pub open spec fn gt_from(s: Seq<char>, k: int) -> int
    decreases s.len() - k,
{
    if 0 <= k < s.len() && s[k] != '>' {
        gt_from(s, k + 1)
    } else {
        k
    }
}

pub proof fn lemma_name_end(s: Seq<char>, j: int)
    requires
        0 <= j <= s.len(),
    ensures
        j <= name_end(s, j) <= s.len(),
    decreases s.len() - j,
{
    if j < s.len() && is_name_char(s[j]) {
        lemma_name_end(s, j + 1);
    }
}

pub proof fn lemma_gt_from(s: Seq<char>, k: int)
    requires
        0 <= k <= s.len(),
    ensures
        k <= gt_from(s, k) <= s.len(),
        gt_from(s, k) < s.len() ==> s[gt_from(s, k)] == '>',
    decreases s.len() - k,
{
    if k < s.len() && s[k] != '>' {
        lemma_gt_from(s, k + 1);
    }
}

/// The scan of tag openings and closings from `i`, at nesting `depth`:
/// whether the depth ever exceeds `limit`. Comments, doctypes and
/// processing instructions, void elements and self-closing tags do not count;
/// a closing tag lowers the depth (not below zero).
pub open spec fn too_deep_from(s: Seq<char>, i: int, depth: nat, limit: nat) -> bool
    decreases s.len() - i,
{
    if i < 0 || i >= s.len() {
        false
    } else if s[i] != '<' {
        too_deep_from(s, i + 1, depth, limit)
    } else if i + 1 < s.len() && (s[i + 1] == '!' || s[i + 1] == '?') {
        too_deep_from(s, i + 1, depth, limit)
    } else {
        let closing = i + 1 < s.len() && s[i + 1] == '/';
        let ns = if closing {
            i + 2
        } else {
            i + 1
        };
        let j = name_end(s, ns);
        if j == ns {
            too_deep_from(s, i + 1, depth, limit)
        } else {
            let k = gt_from(s, j);
            let self_closing = s[k - 1] == '/';
            let next = if k < s.len() {
                k + 1
            } else {
                k
            };
            proof {
                lemma_name_end(s, ns);
                lemma_gt_from(s, j);
            }
            if closing {
                too_deep_from(
                    s,
                    next,
                    if depth > 0 {
                        (depth - 1) as nat
                    } else {
                        0
                    },
                    limit,
                )
            } else if !self_closing && !is_void(lower_seq(s.subrange(ns, j))) {
                if depth + 1 > limit {
                    true
                } else {
                    too_deep_from(s, next, depth + 1, limit)
                }
            } else {
                too_deep_from(s, next, depth, limit)
            }
        }
    }
}

fn is_void_name(name: &[char]) -> (r: bool)
    ensures
        r == is_void(name@),
{
    same(name, chars_of("area").as_slice()) || same(name, chars_of("base").as_slice()) || same(
        name,
        chars_of("br").as_slice(),
    ) || same(name, chars_of("col").as_slice()) || same(name, chars_of("embed").as_slice())
        || same(name, chars_of("hr").as_slice()) || same(name, chars_of("img").as_slice()) || same(
        name,
        chars_of("input").as_slice(),
    ) || same(name, chars_of("link").as_slice()) || same(name, chars_of("meta").as_slice())
        || same(name, chars_of("param").as_slice()) || same(name, chars_of("source").as_slice())
        || same(name, chars_of("track").as_slice()) || same(name, chars_of("wbr").as_slice())
}

/// Whether the element nesting of the document exceeds `limit`, by one
/// linear scan of its tags.
pub fn exceeds_nesting_depth(html: &str, limit: usize) -> (r: bool)
    ensures
        r == too_deep_from(html@, 0, 0, limit as nat),
{
    let s = chars_of(html);
    let n = s.len();
    let mut depth: usize = 0;
    let mut i: usize = 0;
    while i < n
        invariant
            n == s@.len(),
            s@ == html@,
            i <= n,
            depth <= limit,
            too_deep_from(html@, 0, 0, limit as nat) == too_deep_from(
                s@,
                i as int,
                depth as nat,
                limit as nat,
            ),
        decreases n - i,
    {
        if s[i] != '<' {
            i = i + 1;
        } else if i + 1 < n && (s[i + 1] == '!' || s[i + 1] == '?') {
            i = i + 1;
        } else {
            let closing = i + 1 < n && s[i + 1] == '/';
            let ns = if closing {
                i + 2
            } else {
                i + 1
            };
            let mut j = ns;
            while j < n && (is_alphanumeric(s[j]) || s[j] == '-')
                invariant
                    ns <= j <= n == s@.len(),
                    name_end(s@, ns as int) == name_end(s@, j as int),
                decreases n - j,
            {
                j = j + 1;
            }
            if j == ns {
                i = i + 1;
            } else {
                let mut k = j;
                while k < n && s[k] != '>'
                    invariant
                        j <= k <= n == s@.len(),
                        gt_from(s@, j as int) == gt_from(s@, k as int),
                    decreases n - k,
                {
                    k = k + 1;
                }
                let self_closing = s[k - 1] == '/';
                let next = if k < n {
                    k + 1
                } else {
                    k
                };
                if closing {
                    depth = if depth > 0 {
                        depth - 1
                    } else {
                        0
                    };
                } else {
                    let mut name: Vec<char> = Vec::new();
                    crate::text::push_range(&mut name, s.as_slice(), ns, j);
                    let lname = lowered(name.as_slice());
                    if !self_closing && !is_void_name(lname.as_slice()) {
                        if depth >= limit {
                            return true;
                        }
                        depth = depth + 1;
                    }
                }
                i = next;
            }
        }
    }
    false
}

// ---------------------------------------------------------------- extraction

/// What dom_smoothie's `Readability` gave for a document.
pub enum Readout {
    /// The article: title, published time and content HTML.
    Article { title: String, published_time: Option<String>, content: String },
    /// No article was found (`ReadabilityError::GrabFailed`).
    GrabFailed,
    /// `Readability::new` failed, with the error's text.
    InitFailed(String),
    /// `parse` failed otherwise, with the error's text.
    ParseFailed(String),
}

/// What dom_smoothie gives for a document and its base URL, as plain
/// values: a code (0 an article, 1 no article found, 2 `Readability::new`
/// failed, 3 `parse` failed), the title, the published time, and the
/// content (for an article) or the error's text.
pub uninterp spec fn readability_readout(html: Seq<char>, base_url: Seq<char>) -> (nat, Seq<char>, Option<Seq<char>>, Seq<char>);

/// The plain values of a `Readout`, in the shape of `readability_readout`.
pub open spec fn readout_view(r: Readout) -> (nat, Seq<char>, Option<Seq<char>>, Seq<char>) {
    match r {
        Readout::Article { title, published_time, content } => (
            0,
            title@,
            match published_time {
                Some(p) => Some(p@),
                None => None,
            },
            content@,
        ),
        Readout::GrabFailed => (1, Seq::empty(), None, Seq::empty()),
        Readout::InitFailed(d) => (2, Seq::empty(), None, d@),
        Readout::ParseFailed(d) => (3, Seq::empty(), None, d@),
    }
}

/// dom_smoothie: `Readability::new(html, Some(base_url), default config)`,
/// then `parse`. The outcome depends on the document and the base URL
/// alone: its hash maps are only looked up, or walked where the order does
/// not matter (the ancestor counts in `grab.rs` are sums, chosen by a
/// `max_by` on a total order; `dom_query` sorts the nodes it copies), so it
/// is named, not stated. As its source reads, the two panics in it do not
/// fire: the candidate sort (`grab.rs`, `partial_cmp(..).unwrap()`)
/// compares finite scores (only positive scores are kept; each is a sum of
/// per-paragraph terms bounded by the paragraph's length, far below
/// `f32::MAX` for any document that fits in memory; and `link_density_fn`
/// returns 0 instead of dividing by zero), so no comparison meets a NaN;
/// and the `unreachable!` for a top candidate without a parent is excluded
/// because candidates are scored only when they have a parent, are walked
/// up no further than below `body`, or are a new `div` appended to `body`.
/// dom_query's descendant search (`collect_matching_descendants`) recurses
/// once per level of the tree, so it is only called on documents whose tree
/// the scan of `nesting` bounds by 1000 levels; that so many frames fit the
/// stack is not shown by the source, and is left unsaid.
#[verifier::external_body]
fn readability(html: &str, base_url: &str) -> (r: Readout)
    requires
        convertible(html@),
    ensures
        readout_view(r) == readability_readout(html@, base_url@),
{
    let cfg = dom_smoothie::Config::default();
    match dom_smoothie::Readability::new(html, Some(base_url), Some(cfg)) {
        Err(e) => Readout::InitFailed(e.to_string()),
        Ok(mut r) => match r.parse() {
            Ok(a) => Readout::Article {
                title: a.title,
                published_time: a.published_time,
                content: a.content.to_string(),
            },
            Err(dom_smoothie::ReadabilityError::GrabFailed) => Readout::GrabFailed,
            Err(e) => Readout::ParseFailed(e.to_string()),
        },
    }
}

/// The title is kept unless it is blank.
pub open spec fn kept_title(t: Seq<char>) -> Option<Seq<char>> {
    if crate::text::trim(t).len() == 0 {
        None
    } else {
        Some(t)
    }
}

/// The extraction result for what the extractor gave (as plain values): an
/// article keeps its published time and content, and its title unless
/// blank; no article is an empty body (the empty-body check decides later);
/// other failures are internal errors with the error's text as detail.
pub open spec fn extraction_of(
    v: (nat, Seq<char>, Option<Seq<char>>, Seq<char>),
    x: Result<Extracted, WebgrabError>,
) -> bool {
    if v.0 == 0 {
        &&& x matches Ok(e)
        &&& (match (x->Ok_0.title, kept_title(v.1)) {
            (Some(a), Some(b)) => a@ == b,
            (None, None) => true,
            _ => false,
        })
        &&& (match x->Ok_0.published_time {
            Some(p) => Some(p@),
            None => None,
        }) == v.2
        &&& x->Ok_0.content_html@ == v.3
        &&& !x->Ok_0.grab_failed
    } else if v.0 == 1 {
        &&& x matches Ok(e)
        &&& x->Ok_0.title is None
        &&& x->Ok_0.published_time is None
        &&& x->Ok_0.content_html@.len() == 0
        &&& x->Ok_0.grab_failed
    } else {
        &&& x matches Err(e)
        &&& x->Err_0.code == ExitCode::Internal
        &&& x->Err_0.message@ == (if v.0 == 2 {
            "readability init failed"@
        } else {
            "readability parse failed"@
        })
        &&& (match x->Err_0.detail {
            Some(dd) => dd@ == detail_from(v.3, Seq::empty()),
            None => false,
        })
    }
}

/// The extraction result for what the extractor gave (see `extraction_of`).
pub fn extracted_from(r: Readout) -> (x: Result<Extracted, WebgrabError>)
    ensures
        extraction_of(readout_view(r), x),
{
    match r {
        Readout::Article { title, published_time, content } => {
            let t = chars_of(title.as_str());
            let tt = crate::text::trimmed(t.as_slice());
            let title = if tt.len() == 0 {
                None
            } else {
                Some(title)
            };
            Ok(Extracted { title, published_time, content_html: content, grab_failed: false })
        },
        Readout::GrabFailed => {
            let mut e = Extracted::default();
            e.grab_failed = true;
            Ok(e)
        },
        Readout::InitFailed(d) => Err(
            WebgrabError::new(ExitCode::Internal, "readability init failed").with_detail(
                d.as_str(),
            ),
        ),
        Readout::ParseFailed(d) => Err(
            WebgrabError::new(ExitCode::Internal, "readability parse failed").with_detail(
                d.as_str(),
            ),
        ),
    }
}

/// Extracts the article, title and published time of a page (`base_url`
/// resolves relative links). A document nested deeper than
/// `MAX_NESTING_DEPTH`, or whose tree the scan of `nesting` does not bound,
/// is refused before extraction (exit code 4, with a hint to use `--raw`).
pub fn extract(html: &str, base_url: &str) -> (r: Result<Extracted, WebgrabError>)
    ensures
        too_deep_from(html@, 0, 0, MAX_NESTING_DEPTH as nat) || !convertible(html@) ==> match r {
            Err(e) => e.code == ExitCode::Http && e.message@
                == "html too deeply nested for extraction"@,
            Ok(_) => false,
        },
        !too_deep_from(html@, 0, 0, MAX_NESTING_DEPTH as nat) && convertible(html@) ==> extraction_of(
            readability_readout(html@, base_url@),
            r,
        ),
{
    if exceeds_nesting_depth(html, MAX_NESTING_DEPTH) || exceeds_tree_depth(html) {
        return Err(
            WebgrabError::new(ExitCode::Http, "html too deeply nested for extraction").with_detail(
                "nesting depth exceeds 1000; retry with --raw to skip extraction",
            ),
        );
    }
    extracted_from(readability(html, base_url))
}

/// The warning of a page where no article was found (its body is then empty).
pub const GRAB_FAILED_WARNING: &'static str = "webgrab: warn=extract-grab-failed";

} // verus!
