//! Reading the scheme of a Markdown link target the way a CommonMark
//! renderer reads it: backslash escapes and character references decoded,
//! control characters skipped.
use crate::output::is_terminal_control;
use crate::text::{chars_of, is_control, is_punct, is_punctuation, matches_at, occurs_at};
use vstd::prelude::*;

verus! {

broadcast use vstd::string::group_string_axioms;

// ---------------------------------------------------------------- the text read

/// The delimiters `<` and `]`: no dangerous scheme holds them, so the
/// text a scheme is read from ends at the first of them.
pub open spec fn is_stop(c: char) -> bool {
    c == '<' || c == ']'
}

/// The text a link target's scheme is read from: the target up to its
/// first `<` or `]`, without the control characters that output removes.
pub open spec fn scheme_text(t: Seq<char>) -> Seq<char>
    decreases t.len(),
{
    if t.len() == 0 || is_stop(t[0]) {
        Seq::empty()
    } else if is_terminal_control(t[0]) {
        scheme_text(t.skip(1))
    } else {
        seq![t[0]] + scheme_text(t.skip(1))
    }
}

// ---------------------------------------------------------------- references

pub open spec fn is_dec(c: char) -> bool {
    '0' <= c && c <= '9'
}

pub open spec fn is_hex(c: char) -> bool {
    is_dec(c) || ('a' <= c && c <= 'f') || ('A' <= c && c <= 'F')
}

pub open spec fn is_digit_of(c: char, hex: bool) -> bool {
    if hex {
        is_hex(c)
    } else {
        is_dec(c)
    }
}

/// The value of a decimal or hex digit.
pub open spec fn digit_value(c: char) -> nat {
    if is_dec(c) {
        (c as int - '0' as int) as nat
    } else if 'a' <= c && c <= 'f' {
        (c as int - 'a' as int + 10) as nat
    } else if 'A' <= c && c <= 'F' {
        (c as int - 'A' as int + 10) as nat
    } else {
        0
    }
}

/// Number of leading digits of `s` (hex digits when `hex`).
pub open spec fn digit_run(s: Seq<char>, hex: bool) -> nat
    decreases s.len(),
{
    if s.len() > 0 && is_digit_of(s[0], hex) {
        1 + digit_run(s.skip(1), hex)
    } else {
        0
    }
}

/// The number that the digits `s` write in base `b`.
pub open spec fn number(s: Seq<char>, b: nat) -> nat
    decreases s.len(),
{
    if s.len() == 0 {
        0
    } else {
        number(s.drop_last(), b) * b + digit_value(s.last())
    }
}

/// The code point a numeric reference stands for: U+FFFD in place of zero,
/// a surrogate, or a number past U+10FFFF.
pub open spec fn code_point(n: nat) -> nat {
    if n == 0 || n > 0x10FFFF || (0xD800 <= n && n <= 0xDFFF) {
        0xFFFD
    } else {
        n
    }
}

/// A numeric character reference at the start of `s` (`&#` and 1 to 7
/// decimal digits, or `&#x` / `&#X` and 1 to 6 hex digits, then `;`): the
/// code point it stands for and its length.
pub open spec fn numeric_ref(s: Seq<char>) -> Option<(nat, nat)> {
    if s.len() >= 3 && s[0] == '&' && s[1] == '#' && (s[2] == 'x' || s[2] == 'X') {
        let h = digit_run(s.skip(3), true) as int;
        if 1 <= h && h <= 6 && 3 + h < s.len() && s[3 + h] == ';' {
            Some((code_point(number(s.subrange(3, 3 + h), 16)), (4 + h) as nat))
        } else {
            None
        }
    } else if s.len() >= 2 && s[0] == '&' && s[1] == '#' {
        let d = digit_run(s.skip(2), false) as int;
        if 1 <= d && d <= 7 && 2 + d < s.len() && s[2 + d] == ';' {
            Some((code_point(number(s.subrange(2, 2 + d), 10)), (3 + d) as nat))
        } else {
            None
        }
    } else {
        None
    }
}

/// A named reference at the start of `s` for a character that a dangerous
/// scheme holds or that a scheme match skips: `&colon;`, `&sol;`, `&plus;`,
/// `&Tab;`, `&NewLine;`. Every other named reference stands for characters
/// that no dangerous scheme holds, so a match ends there as it does at `&`.
pub open spec fn named_ref(s: Seq<char>) -> Option<(nat, nat)> {
    if occurs_at(s, "&colon;"@, 0) {
        Some((58, 7))
    } else if occurs_at(s, "&sol;"@, 0) {
        Some((47, 5))
    } else if occurs_at(s, "&plus;"@, 0) {
        Some((43, 6))
    } else if occurs_at(s, "&Tab;"@, 0) {
        Some((9, 5))
    } else if occurs_at(s, "&NewLine;"@, 0) {
        Some((10, 9))
    } else {
        None
    }
}

/// The first character of `s` as a renderer reads it, and how many
/// characters of `s` it spans: an escaped ASCII punctuation character, a
/// character reference, or the character itself.
pub open spec fn unit(s: Seq<char>) -> (nat, nat) {
    if s.len() >= 2 && s[0] == '\\' && is_punct(s[1]) {
        ((s[1] as u32) as nat, 2)
    } else {
        match numeric_ref(s) {
            Some(r) => r,
            None => match named_ref(s) {
                Some(r) => r,
                None => ((s[0] as u32) as nat, 1),
            },
        }
    }
}

pub proof fn lemma_digit_run(s: Seq<char>, hex: bool)
    ensures
        digit_run(s, hex) <= s.len(),
        forall|j: int| 0 <= j < digit_run(s, hex) ==> is_digit_of(#[trigger] s[j], hex),
        digit_run(s, hex) < s.len() ==> !is_digit_of(s[digit_run(s, hex) as int], hex),
    decreases s.len(),
{
    if s.len() > 0 && is_digit_of(s[0], hex) {
        lemma_digit_run(s.skip(1), hex);
        assert forall|j: int| 0 <= j < digit_run(s, hex) implies is_digit_of(#[trigger] s[j], hex) by {
            if j > 0 {
                assert(s[j] == s.skip(1)[j - 1]);
            }
        }
    }
}

pub proof fn lemma_unit_len(s: Seq<char>)
    requires
        s.len() > 0,
    ensures
        1 <= unit(s).1 <= s.len(),
{
    reveal_strlit("&colon;");
    reveal_strlit("&sol;");
    reveal_strlit("&plus;");
    reveal_strlit("&Tab;");
    reveal_strlit("&NewLine;");
    lemma_digit_run(s.skip(3), true);
    lemma_digit_run(s.skip(2), false);
}

// ---------------------------------------------------------------- matching

/// A control character (`char::is_control`), by its code point.
pub open spec fn cc_value(v: nat) -> bool {
    v <= 0x1f || (0x7f <= v && v <= 0x9f)
}

/// ASCII lowercase, by code point.
pub open spec fn lower_value(v: nat) -> nat {
    if 65 <= v && v <= 90 {
        v + 32
    } else {
        v
    }
}

/// `s`, read unit by unit, begins with the scheme `w` (lowercase ASCII):
/// control characters are skipped, ASCII case is ignored, and while
/// `lead` holds (before the first character of the scheme) spaces are
/// skipped too, as a renderer trims them from a link destination.
pub open spec fn dmatch(s: Seq<char>, w: Seq<char>, lead: bool) -> bool
    decreases s.len(),
{
    if w.len() == 0 {
        true
    } else if s.len() == 0 {
        false
    } else {
        let u = unit(s);
        proof {
            lemma_unit_len(s);
        }
        if cc_value(u.0) {
            dmatch(s.skip(u.1 as int), w, lead)
        } else if lead && u.0 == 32 {
            dmatch(s.skip(u.1 as int), w, lead)
        } else if lower_value(u.0) == (w[0] as u32) as nat {
            dmatch(s.skip(u.1 as int), w.skip(1), false)
        } else {
            false
        }
    }
}

/// A link target whose scheme can run script when clicked: `javascript:`,
/// `vbscript:`, `data:text/html` or `data:image/svg+xml`, read as a
/// renderer reads it. `lead` says whether leading spaces are trimmed.
pub open spec fn danger(t: Seq<char>, lead: bool) -> bool {
    let d = scheme_text(t);
    ||| dmatch(d, "javascript:"@, lead)
    ||| dmatch(d, "vbscript:"@, lead)
    ||| dmatch(d, "data:text/html"@, lead)
    ||| dmatch(d, "data:image/svg+xml"@, lead)
}

// ---------------------------------------------------------------- exec

fn scheme_text_at(s: &[char], from: usize) -> (r: Vec<char>)
    requires
        from <= s.len(),
    ensures
        r@ == scheme_text(s@.skip(from as int)),
{
    let mut out: Vec<char> = Vec::new();
    let mut j = from;
    while j < s.len() && s[j] != '<' && s[j] != ']'
        invariant
            from <= j <= s.len(),
            scheme_text(s@.skip(from as int)) == out@ + scheme_text(s@.skip(j as int)),
        decreases s.len() - j,
    {
        let c = s[j];
        assert(s@.skip(j as int)[0] == c);
        assert(s@.skip(j as int).skip(1) == s@.skip(j + 1));
        if !(is_control(c) && c != '\t' && c != '\n' && c != '\r') {
            out.push(c);
        }
        j = j + 1;
    }
    if j < s.len() {
        assert(s@.skip(j as int)[0] == s@[j as int]);
    }
    proof {
        assert(scheme_text(s@.skip(j as int)) == Seq::<char>::empty());
    }
    out
}

fn is_digit_char(c: char, hex: bool) -> (r: bool)
    ensures
        r == is_digit_of(c, hex),
{
    if hex {
        ('0' <= c && c <= '9') || ('a' <= c && c <= 'f') || ('A' <= c && c <= 'F')
    } else {
        '0' <= c && c <= '9'
    }
}

fn digit_of(c: char) -> (r: u32)
    requires
        is_hex(c),
    ensures
        r == digit_value(c),
        r < 16,
{
    if '0' <= c && c <= '9' {
        (c as u32) - ('0' as u32)
    } else if 'a' <= c && c <= 'f' {
        (c as u32) - ('a' as u32) + 10
    } else {
        (c as u32) - ('A' as u32) + 10
    }
}

/// A number capped just past the last code point.
pub open spec fn capped(n: nat) -> nat {
    if n > 0x110000 {
        0x110000
    } else {
        n
    }
}

proof fn lemma_capped_step(x: nat, b: nat, e: nat)
    requires
        1 <= b,
    ensures
        capped(capped(x) * b + e) == capped(x * b + e),
{
    if x > 0x110000 {
        assert(x * b >= x) by (nonlinear_arith)
            requires
                1 <= b,
        ;
        assert(0x110000 * b >= 0x110000) by (nonlinear_arith)
            requires
                1 <= b,
        ;
    }
}

/// The digits from `a` on: how many there are (stopping once past `max`)
/// and the number they write, capped.
fn read_digits(d: &[char], a: usize, hex: bool, max: usize) -> (r: (usize, u32))
    requires
        a <= d.len(),
        max <= 7,
    ensures
        r.0 <= max + 1,
        a + r.0 <= d.len(),
        r.0 <= max ==> r.0 == digit_run(d@.skip(a as int), hex),
        r.0 > max ==> digit_run(d@.skip(a as int), hex) > max,
        r.0 <= max ==> r.1 as nat == capped(
            number(d@.subrange(a as int, a + r.0), if hex { 16nat } else { 10nat }),
        ),
{
    let ghost b: nat = if hex { 16nat } else { 10nat };
    let base: u32 = if hex { 16 } else { 10 };
    let mut j = a;
    let mut v: u32 = 0;
    assert(d@.subrange(a as int, a as int).len() == 0);
    while j < d.len() && j - a <= max && is_digit_char(d[j], hex)
        invariant
            a <= j <= d.len(),
            j - a <= max + 1,
            b == base,
            b == (if hex { 16nat } else { 10nat }),
            digit_run(d@.skip(a as int), hex) == (j - a) + digit_run(d@.skip(j as int), hex),
            v as nat == capped(number(d@.subrange(a as int, j as int), b)),
        decreases d.len() - j,
    {
        let c = d[j];
        assert(d@.skip(j as int)[0] == c);
        assert(d@.skip(j as int).skip(1) == d@.skip(j + 1));
        let e = digit_of(c);
        let ghost sub = d@.subrange(a as int, j + 1);
        assert(sub.drop_last() == d@.subrange(a as int, j as int));
        assert(sub.last() == c);
        proof {
            lemma_capped_step(number(d@.subrange(a as int, j as int), b), b, e as nat);
        }
        let t: u32 = v * base + e;
        v = if t > 0x110000 { 0x110000 } else { t };
        j = j + 1;
    }
    if j < d.len() && j - a <= max {
        assert(d@.skip(j as int)[0] == d@[j as int]);
    }
    (j - a, v)
}

proof fn lemma_code_point_capped(n: nat)
    ensures
        code_point(capped(n)) == code_point(n),
{
}

fn code_point_of(v: u32) -> (r: u32)
    ensures
        r as nat == code_point(v as nat),
{
    if v == 0 || v > 0x10FFFF || (0xD800 <= v && v <= 0xDFFF) {
        0xFFFD
    } else {
        v
    }
}

fn numeric_ref_at(d: &[char], j: usize) -> (r: Option<(u32, usize)>)
    requires
        j < d.len(),
    ensures
        numeric_ref(d@.skip(j as int)) == (match r {
            Some(p) => Some((p.0 as nat, p.1 as nat)),
            None => None,
        }),
        r matches Some(p) ==> j + p.1 <= d.len(),
{
    let ghost s = d@.skip(j as int);
    if d.len() - j > 2 && d[j] == '&' && d[j + 1] == '#' && (d[j + 2] == 'x' || d[j + 2] == 'X') {
        assert(s[0] == d@[j as int] && s[1] == d@[j + 1] && s[2] == d@[j + 2]);
        let (h, v) = read_digits(d, j + 3, true, 6);
        assert(s.skip(3) == d@.skip(j + 3));
        if 1 <= h && h <= 6 && j + 3 + h < d.len() && d[j + 3 + h] == ';' {
            assert(s[3 + h] == d@[j + 3 + h]);
            assert(s.subrange(3, 3 + h) == d@.subrange(j + 3, j + 3 + h));
            proof {
                lemma_code_point_capped(number(s.subrange(3, 3 + h), 16));
            }
            Some((code_point_of(v), h + 4))
        } else {
            if 1 <= h && h <= 6 && j + 3 + h < d.len() {
                assert(s[3 + h] == d@[j + 3 + h]);
            }
            None
        }
    } else if j + 1 < d.len() && d[j] == '&' && d[j + 1] == '#' {
        assert(s[0] == d@[j as int] && s[1] == d@[j + 1]);
        if j + 2 < d.len() {
            assert(s[2] == d@[j + 2]);
        }
        let (n, v) = read_digits(d, j + 2, false, 7);
        assert(s.skip(2) == d@.skip(j + 2));
        if 1 <= n && n <= 7 && j + 2 + n < d.len() && d[j + 2 + n] == ';' {
            assert(s[2 + n] == d@[j + 2 + n]);
            assert(s.subrange(2, 2 + n) == d@.subrange(j + 2, j + 2 + n));
            proof {
                lemma_code_point_capped(number(s.subrange(2, 2 + n), 10));
            }
            Some((code_point_of(v), n + 3))
        } else {
            if 1 <= n && n <= 7 && j + 2 + n < d.len() {
                assert(s[2 + n] == d@[j + 2 + n]);
            }
            None
        }
    } else {
        if j + 1 < d.len() {
            assert(s[0] == d@[j as int] && s[1] == d@[j + 1]);
            if j + 2 < d.len() {
                assert(s[2] == d@[j + 2]);
            }
        } else {
            assert(s.len() == 1);
        }
        None
    }
}

proof fn lemma_occurs_skip(d: Seq<char>, p: Seq<char>, j: int)
    requires
        0 <= j <= d.len(),
    ensures
        occurs_at(d, p, j) == occurs_at(d.skip(j), p, 0),
{
    if j + p.len() <= d.len() {
        assert(d.subrange(j, j + p.len()) == d.skip(j).subrange(0, p.len() as int));
    }
}

/// The named references a scheme match reads, as characters.
pub(crate) struct Names {
    colon: Vec<char>,
    sol: Vec<char>,
    plus: Vec<char>,
    tab: Vec<char>,
    newline: Vec<char>,
}

impl Names {
    pub(crate) closed spec fn ok(&self) -> bool {
        &&& self.colon@ == "&colon;"@
        &&& self.sol@ == "&sol;"@
        &&& self.plus@ == "&plus;"@
        &&& self.tab@ == "&Tab;"@
        &&& self.newline@ == "&NewLine;"@
    }

    pub(crate) fn new() -> (r: Self)
        ensures
            r.ok(),
    {
        Names {
            colon: chars_of("&colon;"),
            sol: chars_of("&sol;"),
            plus: chars_of("&plus;"),
            tab: chars_of("&Tab;"),
            newline: chars_of("&NewLine;"),
        }
    }

    fn named_at(&self, d: &[char], j: usize) -> (r: Option<(u32, usize)>)
        requires
            self.ok(),
            j < d.len(),
        ensures
            named_ref(d@.skip(j as int)) == (match r {
                Some(p) => Some((p.0 as nat, p.1 as nat)),
                None => None,
            }),
    {
        proof {
            lemma_occurs_skip(d@, "&colon;"@, j as int);
            lemma_occurs_skip(d@, "&sol;"@, j as int);
            lemma_occurs_skip(d@, "&plus;"@, j as int);
            lemma_occurs_skip(d@, "&Tab;"@, j as int);
            lemma_occurs_skip(d@, "&NewLine;"@, j as int);
        }
        if matches_at(d, self.colon.as_slice(), j) {
            Some((58, 7))
        } else if matches_at(d, self.sol.as_slice(), j) {
            Some((47, 5))
        } else if matches_at(d, self.plus.as_slice(), j) {
            Some((43, 6))
        } else if matches_at(d, self.tab.as_slice(), j) {
            Some((9, 5))
        } else if matches_at(d, self.newline.as_slice(), j) {
            Some((10, 9))
        } else {
            None
        }
    }

    fn unit_at(&self, d: &[char], j: usize) -> (r: (u32, usize))
        requires
            self.ok(),
            j < d.len(),
        ensures
            r.0 as nat == unit(d@.skip(j as int)).0,
            r.1 as nat == unit(d@.skip(j as int)).1,
    {
        let ghost s = d@.skip(j as int);
        assert(s[0] == d@[j as int]);
        if j + 1 < d.len() && d[j] == '\\' && is_punctuation(d[j + 1]) {
            assert(s[1] == d@[j + 1]);
            (d[j + 1] as u32, 2)
        } else {
            if j + 1 < d.len() {
                assert(s[1] == d@[j + 1]);
            }
            match numeric_ref_at(d, j) {
                Some(p) => p,
                None => match self.named_at(d, j) {
                    Some(p) => p,
                    None => (d[j] as u32, 1),
                },
            }
        }
    }

    fn dmatch_at(&self, d: &[char], w: &[char], lead: bool) -> (r: bool)
        requires
            self.ok(),
        ensures
            r == dmatch(d@, w@, lead),
    {
        let mut j: usize = 0;
        let mut k: usize = 0;
        let mut ld = lead;
        assert(d@.skip(0) == d@);
        assert(w@.skip(0) == w@);
        while j < d.len()
            invariant
                self.ok(),
                j <= d.len(),
                k <= w.len(),
                dmatch(d@, w@, lead) == dmatch(d@.skip(j as int), w@.skip(k as int), ld),
            decreases d.len() - j,
        {
            if k == w.len() {
                return true;
            }
            let ghost s = d@.skip(j as int);
            let (v, n) = self.unit_at(d, j);
            proof {
                lemma_unit_len(s);
            }
            assert(s.skip(n as int) == d@.skip(j + n));
            assert(w@.skip(k as int)[0] == w@[k as int]);
            assert(w@.skip(k as int).skip(1) == w@.skip(k + 1));
            let lv: u32 = if 65 <= v && v <= 90 { v + 32 } else { v };
            if v <= 0x1f || (0x7f <= v && v <= 0x9f) {
                j = j + n;
            } else if ld && v == 32 {
                j = j + n;
            } else if lv == w[k] as u32 {
                j = j + n;
                k = k + 1;
                ld = false;
            } else {
                return false;
            }
        }
        assert(d@.skip(j as int).len() == 0);
        k == w.len()
    }
}

/// The four dangerous schemes, as characters, with the named references.
pub(crate) struct Schemes {
    js: Vec<char>,
    vb: Vec<char>,
    html: Vec<char>,
    svg: Vec<char>,
    names: Names,
}

impl Schemes {
    pub(crate) closed spec fn ok(&self) -> bool {
        &&& self.js@ == "javascript:"@
        &&& self.vb@ == "vbscript:"@
        &&& self.html@ == "data:text/html"@
        &&& self.svg@ == "data:image/svg+xml"@
        &&& self.names.ok()
    }

    pub(crate) fn new() -> (r: Self)
        ensures
            r.ok(),
    {
        Schemes {
            js: chars_of("javascript:"),
            vb: chars_of("vbscript:"),
            html: chars_of("data:text/html"),
            svg: chars_of("data:image/svg+xml"),
            names: Names::new(),
        }
    }

    /// Whether the target that starts at `from` is dangerous.
    pub(crate) fn danger_at(&self, s: &[char], from: usize, lead: bool) -> (r: bool)
        requires
            self.ok(),
            from <= s.len(),
        ensures
            r == danger(s@.skip(from as int), lead),
    {
        let d = scheme_text_at(s, from);
        self.names.dmatch_at(d.as_slice(), self.js.as_slice(), lead)
            || self.names.dmatch_at(d.as_slice(), self.vb.as_slice(), lead)
            || self.names.dmatch_at(d.as_slice(), self.html.as_slice(), lead)
            || self.names.dmatch_at(d.as_slice(), self.svg.as_slice(), lead)
    }
}

} // verus!
