//! Character encoding: which charset a response is decoded with, in three
//! steps: the `charset` of the Content-Type header, the `charset` of a
//! `<meta>` within the first 1024 bytes (HTML only), and chardetng's guess.
use crate::text::{
    chars_of, find_from, find_in, is_alnum, is_alphanumeric, lower_seq, lowered, string_of,
    utf8_lossy, lossy_text,
};
use vstd::prelude::*;

verus! {

broadcast use vstd::string::group_string_axioms;

/// How many leading bytes the `<meta>` scan reads.
pub const META_SCAN_BYTES: usize = 1024;

/// What encoding_rs makes of `bytes` under the encoding that `label`
/// names: the text, the encoding's name and whether malformed input was
/// replaced; `None` where the label names no encoding.
pub uninterp spec fn label_decoding(label: Seq<char>, bytes: Seq<u8>) -> Option<(Seq<char>, Seq<char>, bool)>;

/// What encoding_rs makes of `bytes` under the encoding chardetng guesses
/// for them (ISO-2022-JP and UTF-8 allowed, no TLD hint).
pub uninterp spec fn guessed_decoding(bytes: Seq<u8>) -> (Seq<char>, Seq<char>, bool);

/// encoding_rs: `Encoding::for_label(label)`, then `decode(bytes)` (with
/// BOM sniffing) and `name()`; `None` for an unknown label. The result
/// depends on the label and the bytes alone.
#[verifier::external_body]
fn decode_by_label(label: &str, bytes: &[u8]) -> (r: Option<(String, &'static str, bool)>)
    ensures
        match r {
            Some((t, n, e)) => label_decoding(label@, bytes@) == Some((t@, n@, e)),
            None => label_decoding(label@, bytes@) is None,
        },
{
    match encoding_rs::Encoding::for_label(label.as_bytes()) {
        Some(enc) => {
            let (text, _, had_errors) = enc.decode(bytes);
            Some((text.into_owned(), enc.name(), had_errors))
        },
        None => None,
    }
}

/// chardetng: an `EncodingDetector` (ISO-2022-JP allowed) fed all of
/// `bytes`, `guess(None, Utf8Detection::Allow)`; then encoding_rs decodes
/// the bytes with the guessed encoding and gives its name. The result
/// depends on the bytes alone.
#[verifier::external_body]
fn decode_by_guess(bytes: &[u8]) -> (r: (String, &'static str, bool))
    ensures
        (r.0@, r.1@, r.2) == guessed_decoding(bytes@),
{
    let mut det = chardetng::EncodingDetector::new(chardetng::Iso2022JpDetection::Allow);
    det.feed(bytes, true);
    let enc = det.guess(None, chardetng::Utf8Detection::Allow);
    let (text, _, had_errors) = enc.decode(bytes);
    (text.into_owned(), enc.name(), had_errors)
}

pub open spec fn charset_key() -> Seq<char> {
    seq!['c', 'h', 'a', 'r', 's', 'e', 't', '=']
}

/// Length of the longest prefix before `;` or a blank.
pub open spec fn token_len(s: Seq<char>) -> nat
    decreases s.len(),
{
    if s.len() > 0 && s[0] != ';' && s[0] != ' ' {
        1 + token_len(s.skip(1))
    } else {
        0
    }
}

/// `trim_matches('"')`.
pub open spec fn trim_quotes(s: Seq<char>) -> Seq<char>
    decreases s.len(),
{
    if s.len() > 0 && s[0] == '"' {
        trim_quotes(s.skip(1))
    } else if s.len() > 0 && s.last() == '"' {
        trim_quotes(s.drop_last())
    } else {
        s
    }
}

/// The `charset` label of a Content-Type value: after the first
/// `charset=` (ASCII case ignored), up to `;` or a blank, trimmed, quotes
/// removed.
pub open spec fn header_label(ct: Seq<char>) -> Option<Seq<char>> {
    let l = lower_seq(ct);
    match find_from(l, charset_key(), 0) {
        Some(i) => {
            let after = l.skip(i + 8);
            Some(trim_quotes(crate::text::trim(after.take(token_len(after) as int))))
        },
        None => None,
    }
}

/// A character of a `<meta>` charset value.
pub open spec fn is_label_char(c: char) -> bool {
    is_alnum(c) || c == '-' || c == '_'
}

/// Number of leading `"` and `'`.
pub open spec fn quote_run(s: Seq<char>) -> nat
    decreases s.len(),
{
    if s.len() > 0 && (s[0] == '"' || s[0] == '\'') {
        1 + quote_run(s.skip(1))
    } else {
        0
    }
}

/// Length of the leading run of label characters.
pub open spec fn label_run(s: Seq<char>) -> nat
    decreases s.len(),
{
    if s.len() > 0 && is_label_char(s[0]) {
        1 + label_run(s.skip(1))
    } else {
        0
    }
}

/// The `charset` value of the document head (the head read as UTF-8 with
/// replacement, lowercased): after the first `charset=`, leading quotes
/// skipped, the run of letters, digits, `-` and `_`; none where it is empty.
pub open spec fn meta_label(head: Seq<char>) -> Option<Seq<char>> {
    let l = lower_seq(head);
    match find_from(l, charset_key(), 0) {
        Some(i) => {
            let rest = l.skip(i + 8);
            let v = rest.skip(quote_run(rest) as int);
            let val = v.take(label_run(v) as int);
            if val.len() > 0 {
                Some(val)
            } else {
                None
            }
        },
        None => None,
    }
}

/// The first `n` bytes (all of them where fewer).
pub open spec fn head_bytes(b: Seq<u8>, n: nat) -> Seq<u8> {
    if b.len() <= n {
        b
    } else {
        b.take(n as int)
    }
}

/// The decoding after the header step: the `<meta>` charset where the head
/// is scanned and names an encoding, else chardetng's guess.
pub open spec fn after_header(bytes: Seq<u8>, scan_meta: bool) -> (Seq<char>, Seq<char>, bool) {
    if scan_meta {
        match meta_label(lossy_text(head_bytes(bytes, META_SCAN_BYTES as nat))) {
            Some(m) => match label_decoding(m, bytes) {
                Some(x) => x,
                None => guessed_decoding(bytes),
            },
            None => guessed_decoding(bytes),
        }
    } else {
        guessed_decoding(bytes)
    }
}

/// The decoding of a response: the header charset where it names an
/// encoding, else `after_header`.
pub open spec fn decoding(bytes: Seq<u8>, ct: Option<Seq<char>>, scan_meta: bool) -> (
    Seq<char>,
    Seq<char>,
    bool,
) {
    let from_header = match ct {
        Some(c) => match header_label(c) {
            Some(l) => label_decoding(l, bytes),
            None => None,
        },
        None => None,
    };
    match from_header {
        Some(x) => x,
        None => after_header(bytes, scan_meta),
    }
}

fn charset_value_start(l: &[char]) -> (r: Option<usize>)
    ensures
        match r {
            Some(k) => exists|i: int|
                find_from(l@, charset_key(), 0) == Some(i) && k == i + 8 && k <= l@.len(),
            None => find_from(l@, charset_key(), 0) is None,
        },
{
    let n = l.len();
    let key = chars_of("charset=");
    proof {
        reveal_strlit("charset=");
    }
    assert(key@ == charset_key());
    match find_in(l, key.as_slice(), 0) {
        Some(i) => {
            proof {
                crate::text::lemma_find_from(l@, charset_key(), 0);
                assert(charset_key().len() == 8);
                assert(crate::text::occurs_at(l@, charset_key(), i as int));
                assert(i + 8 <= n);
            }
            Some(i + 8)
        },
        None => None,
    }
}

fn header_charset(ct: &str) -> (r: Option<Vec<char>>)
    ensures
        match r {
            Some(v) => header_label(ct@) == Some(v@),
            None => header_label(ct@) is None,
        },
{
    let l = lowered(chars_of(ct).as_slice());
    match charset_value_start(l.as_slice()) {
        Some(k) => {
            let ghost after = l@.skip(k as int);
            let mut e = k;
            while e < l.len() && l[e] != ';' && l[e] != ' '
                invariant
                    k <= e <= l.len(),
                    token_len(after) == (e - k) + token_len(l@.skip(e as int)),
                    after == l@.skip(k as int),
                decreases l.len() - e,
            {
                assert(l@.skip(e as int)[0] == l@[e as int]);
                assert(l@.skip(e as int).skip(1) == l@.skip(e + 1));
                e = e + 1;
            }
            if e < l.len() {
                assert(l@.skip(e as int)[0] == l@[e as int]);
            }
            let mut piece: Vec<char> = Vec::new();
            crate::text::push_range(&mut piece, l.as_slice(), k, e);
            assert(piece@ == after.take(token_len(after) as int));
            let t = crate::text::trimmed(piece.as_slice());
            Some(trim_quote_chars(t.as_slice()))
        },
        None => None,
    }
}

fn trim_quote_chars(s: &[char]) -> (r: Vec<char>)
    ensures
        r@ == trim_quotes(s@),
{
    let mut lo: usize = 0;
    let mut hi: usize = s.len();
    assert(s@.subrange(0, s@.len() as int) == s@);
    while lo < hi && (s[lo] == '"' || s[hi - 1] == '"')
        invariant
            lo <= hi <= s.len(),
            trim_quotes(s@) == trim_quotes(s@.subrange(lo as int, hi as int)),
        decreases hi - lo,
    {
        let ghost t = s@.subrange(lo as int, hi as int);
        if s[lo] == '"' {
            assert(t[0] == s@[lo as int]);
            assert(t.skip(1) == s@.subrange(lo + 1, hi as int));
            lo = lo + 1;
        } else {
            assert(t[0] == s@[lo as int]);
            assert(t.last() == s@[hi - 1]);
            assert(t.drop_last() == s@.subrange(lo as int, hi - 1));
            hi = hi - 1;
        }
    }
    proof {
        let t = s@.subrange(lo as int, hi as int);
        if lo < hi {
            assert(t[0] == s@[lo as int]);
            assert(t.last() == s@[hi - 1]);
        }
    }
    let mut r: Vec<char> = Vec::new();
    crate::text::push_range(&mut r, s, lo, hi);
    r
}

fn meta_charset(head: &[char]) -> (r: Option<Vec<char>>)
    ensures
        match r {
            Some(v) => meta_label(head@) == Some(v@),
            None => meta_label(head@) is None,
        },
{
    let l = lowered(head);
    match charset_value_start(l.as_slice()) {
        Some(k) => {
            let ghost rest = l@.skip(k as int);
            let mut a = k;
            while a < l.len() && (l[a] == '"' || l[a] == '\'')
                invariant
                    k <= a <= l.len(),
                    rest == l@.skip(k as int),
                    quote_run(rest) == (a - k) + quote_run(l@.skip(a as int)),
                decreases l.len() - a,
            {
                assert(l@.skip(a as int)[0] == l@[a as int]);
                assert(l@.skip(a as int).skip(1) == l@.skip(a + 1));
                a = a + 1;
            }
            if a < l.len() {
                assert(l@.skip(a as int)[0] == l@[a as int]);
            }
            assert(rest.skip(quote_run(rest) as int) == l@.skip(a as int));
            let ghost v = l@.skip(a as int);
            let mut e = a;
            while e < l.len() && (is_alphanumeric(l[e]) || l[e] == '-' || l[e] == '_')
                invariant
                    a <= e <= l.len(),
                    v == l@.skip(a as int),
                    label_run(v) == (e - a) + label_run(l@.skip(e as int)),
                decreases l.len() - e,
            {
                assert(l@.skip(e as int)[0] == l@[e as int]);
                assert(l@.skip(e as int).skip(1) == l@.skip(e + 1));
                e = e + 1;
            }
            if e < l.len() {
                assert(l@.skip(e as int)[0] == l@[e as int]);
            }
            if e == a {
                return None;
            }
            let mut val: Vec<char> = Vec::new();
            crate::text::push_range(&mut val, l.as_slice(), a, e);
            assert(val@ == v.take(label_run(v) as int));
            Some(val)
        },
        None => None,
    }
}

fn decode_after_header(bytes: &[u8], scan_meta: bool) -> (r: (String, &'static str, bool))
    ensures
        (r.0@, r.1@, r.2) == after_header(bytes@, scan_meta),
{
    if scan_meta {
        let n = if bytes.len() <= META_SCAN_BYTES {
            bytes.len()
        } else {
            META_SCAN_BYTES
        };
        let prefix = crate::text::byte_prefix(bytes, n);
        assert(prefix@ == head_bytes(bytes@, META_SCAN_BYTES as nat)) by {
            if bytes@.len() <= META_SCAN_BYTES {
                assert(bytes@.take(bytes@.len() as int) == bytes@);
            }
        }
        let head = utf8_lossy(prefix.as_slice());
        match meta_charset(chars_of(head.as_str()).as_slice()) {
            Some(m) => {
                let label = string_of(m.as_slice());
                match decode_by_label(label.as_str(), bytes) {
                    Some(x) => {
                        return x;
                    },
                    None => {},
                }
            },
            None => {},
        }
    }
    decode_by_guess(bytes)
}

/// Decodes a response body to text. The charset comes from the
/// Content-Type header, else (for HTML, `scan_meta`) from a `<meta>` in the
/// first 1024 bytes, else from chardetng's guess; a label that names no
/// encoding moves on to the next step. Returns the text, the name of the
/// chosen encoding, and whether malformed input was replaced.
pub fn decode(bytes: &[u8], content_type: Option<&str>, scan_meta: bool) -> (r: (
    String,
    &'static str,
    bool,
))
    ensures
        (r.0@, r.1@, r.2) == decoding(
            bytes@,
            match content_type {
                Some(c) => Some(c@),
                None => None,
            },
            scan_meta,
        ),
{
    match content_type {
        Some(ct) => match header_charset(ct) {
            Some(l) => {
                let label = string_of(l.as_slice());
                match decode_by_label(label.as_str(), bytes) {
                    Some(x) => {
                        return x;
                    },
                    None => {},
                }
            },
            None => {},
        },
        None => {},
    }
    decode_after_header(bytes, scan_meta)
}

/// A Content-Type charset that names an encoding decides the decoding,
/// whatever the document's `<meta>` says and whatever the detector guesses.
pub proof fn lemma_header_charset_wins(bytes: Seq<u8>, ct: Seq<char>, scan_meta: bool, label: Seq<char>)
    requires
        header_label(ct) == Some(label),
        label_decoding(label, bytes) is Some,
    ensures
        decoding(bytes, Some(ct), scan_meta) == label_decoding(label, bytes)->Some_0,
{
}

/// Without the `<meta>` scan (`text/plain`), the document's own charset
/// declaration plays no part: only the header and the detector decide.
pub proof fn lemma_plain_text_ignores_meta(bytes: Seq<u8>, ct: Option<Seq<char>>)
    ensures
        decoding(bytes, ct, false) == match ct {
            Some(c) => match header_label(c) {
                Some(l) => match label_decoding(l, bytes) {
                    Some(x) => x,
                    None => guessed_decoding(bytes),
                },
                None => guessed_decoding(bytes),
            },
            None => guessed_decoding(bytes),
        },
{
}

/// The warning of a body that had bytes the encoding could not decode
/// (they became U+FFFD), naming the encoding used.
pub fn replacement_warning(encoding: &str) -> (r: String)
    ensures
        r@ == "webgrab: warn=decode-replacement enc="@ + encoding@,
{
    let mut v: Vec<char> = Vec::new();
    crate::text::push_str(&mut v, "webgrab: warn=decode-replacement enc=");
    crate::text::push_str(&mut v, encoding);
    string_of(v.as_slice())
}

} // verus!
