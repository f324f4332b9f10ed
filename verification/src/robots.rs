//! A minimal robots.txt parser and matcher (a subset of RFC 9309).
//!
//! - The `User-agent` group of the product token `webgrab` (ASCII case
//!   ignored) is used; without one, the `*` group.
//! - `Disallow` / `Allow` paths match as prefixes, with `*` (any run) and a
//!   trailing `$` (end anchor).
//! - The longest match decides; on equal length `Allow` wins.
use crate::text::{
    chars_of, find_from, find_in, first_index, first_of, has_prefix, is_ws, lemma_first_of,
    lemma_first_of_at, lines, lossy_text, lower_seq, lowered, matches_at, occurs_at, same, strip_cr,
    trim, trim_end, trim_start, trimmed, utf8_lossy, vviews,
};
use vstd::prelude::*;

verus! {

broadcast use vstd::string::group_string_axioms;

/// One `Allow` / `Disallow` line of the chosen group.
#[derive(Debug, Clone)]
pub struct Rule {
    pub allow: bool,
    pub pattern: Vec<char>,
}

/// The rules of the group that applies to webgrab.
#[derive(Debug, Default)]
pub struct Robots {
    rules: Vec<Rule>,
}

/// A rule as a plain value: (is `Allow`, path pattern).
pub type RuleV = (bool, Seq<char>);

pub open spec fn rule_v(r: Rule) -> RuleV {
    (r.allow, r.pattern@)
}

pub open spec fn rules_v(rs: Seq<Rule>) -> Seq<RuleV> {
    rs.map_values(|r: Rule| rule_v(r))
}

impl View for Robots {
    type V = Seq<RuleV>;

    closed spec fn view(&self) -> Seq<RuleV> {
        rules_v(self.rules@)
    }
}

// ---------------------------------------------------------------- directives

/// The part of a line before the first `'#'`.
pub open spec fn before_hash(s: Seq<char>) -> Seq<char> {
    s.take(first_of(s, '#') as int)
}

/// The `(key, value)` of a directive line, key in ASCII lowercase, both
/// trimmed; `None` for blank lines, comments and lines without `':'`.
pub open spec fn directive(raw: Seq<char>) -> Option<(Seq<char>, Seq<char>)> {
    let line = trim(before_hash(raw));
    if line.len() == 0 {
        None
    } else {
        let k = first_of(line, ':');
        if k < line.len() {
            Some((lower_seq(trim(line.take(k as int))), trim(line.skip(k as int + 1))))
        } else {
            None
        }
    }
}

/// Parser state: finished groups, the open group's agents and rules, and
/// whether the last directive was a rule.
pub struct ParseState {
    pub groups: Seq<(Seq<Seq<char>>, Seq<RuleV>)>,
    pub agents: Seq<Seq<char>>,
    pub rules: Seq<RuleV>,
    pub last_rule: bool,
}

/// Closes the open group (only when it has agents).
pub open spec fn flush(st: ParseState) -> ParseState {
    if st.agents.len() > 0 {
        ParseState {
            groups: st.groups.push((st.agents, st.rules)),
            agents: Seq::empty(),
            rules: Seq::empty(),
            last_rule: st.last_rule,
        }
    } else {
        st
    }
}

pub open spec fn step(st: ParseState, raw: Seq<char>) -> ParseState {
    match directive(raw) {
        None => st,
        Some((key, value)) => if key == "user-agent"@ {
            let s2 = if st.last_rule {
                let f = flush(st);
                ParseState { last_rule: false, ..f }
            } else {
                st
            };
            ParseState { agents: s2.agents.push(lower_seq(value)), ..s2 }
        } else if key == "disallow"@ || key == "allow"@ {
            if key == "disallow"@ && value.len() == 0 {
                ParseState { last_rule: true, ..st }
            } else {
                ParseState {
                    last_rule: true,
                    rules: st.rules.push((key == "allow"@, value)),
                    ..st
                }
            }
        } else {
            st
        },
    }
}

pub open spec fn run_lines(ls: Seq<Seq<char>>, st: ParseState) -> ParseState
    decreases ls.len(),
{
    if ls.len() == 0 {
        st
    } else {
        run_lines(ls.skip(1), step(st, ls[0]))
    }
}

pub open spec fn initial_state() -> ParseState {
    ParseState { groups: Seq::empty(), agents: Seq::empty(), rules: Seq::empty(), last_rule: false }
}

/// The first group whose agents include `token`.
pub open spec fn group_for(groups: Seq<(Seq<Seq<char>>, Seq<RuleV>)>, token: Seq<char>) -> Option<
    Seq<RuleV>,
>
    decreases groups.len(),
{
    if groups.len() == 0 {
        None
    } else if groups[0].0.contains(token) {
        Some(groups[0].1)
    } else {
        group_for(groups.skip(1), token)
    }
}

/// The rules that apply to webgrab in a robots.txt text.
pub open spec fn chosen_rules(text: Seq<char>) -> Seq<RuleV> {
    let groups = flush(run_lines(lines(text), initial_state())).groups;
    match group_for(groups, "webgrab"@) {
        Some(r) => r,
        None => match group_for(groups, "*"@) {
            Some(r) => r,
            None => Seq::empty(),
        },
    }
}

// ---------------------------------------------------------------- matching

/// Number of literal characters of a pattern (not `*` or `$`).
pub open spec fn specificity(p: Seq<char>) -> nat
    decreases p.len(),
{
    if p.len() == 0 {
        0
    } else {
        specificity(p.drop_last()) + if p.last() == '*' || p.last() == '$' {
            0nat
        } else {
            1nat
        }
    }
}

/// The pieces of `p` between `'*'`s (`str::split('*')`).
pub open spec fn split_star(p: Seq<char>) -> Seq<Seq<char>>
    decreases p.len(),
{
    if p.len() == 0 {
        seq![Seq::empty()]
    } else {
        let rest = split_star(p.drop_last());
        if p.last() == '*' {
            rest.push(Seq::empty())
        } else {
            rest.update(rest.len() - 1, rest.last().push(p.last()))
        }
    }
}

/// Greedy matching of the pieces from index `i` at path position `pos`: the
/// first piece must sit at the start, later ones at their first occurrence.
/// Returns the position after the last piece.
pub open spec fn glob_pos(segs: Seq<Seq<char>>, i: nat, path: Seq<char>, pos: int) -> Option<int>
    decreases segs.len() - i,
{
    if i >= segs.len() {
        Some(pos)
    } else if segs[i as int].len() == 0 {
        glob_pos(segs, i + 1, path, pos)
    } else if i == 0 {
        if has_prefix(path.skip(pos), segs[i as int]) {
            glob_pos(segs, i + 1, path, pos + segs[i as int].len())
        } else {
            None
        }
    } else {
        match find_from(path, segs[i as int], pos) {
            Some(k) => glob_pos(segs, i + 1, path, k + segs[i as int].len()),
            None => None,
        }
    }
}

/// The path ends with `w`.
pub open spec fn ends_with(path: Seq<char>, w: Seq<char>) -> bool {
    w.len() <= path.len() && path.skip(path.len() - w.len()) == w
}

/// Whether a pattern matches the path: `*` spans any run, a trailing `$`
/// anchors the end, otherwise the pattern is a prefix. The pieces between
/// `*`s are placed left to right, each at its first occurrence; with the end
/// anchored and a last piece after a `*`, that piece is placed at the very
/// end of the path and the others before it, so `/*.pdf$` matches
/// `/a.pdf.pdf`.
pub open spec fn glob_matches(pattern: Seq<char>, path: Seq<char>) -> bool {
    let anchored = pattern.len() > 0 && pattern.last() == '$';
    let pat = if anchored {
        pattern.drop_last()
    } else {
        pattern
    };
    let segs = split_star(pat);
    let star_end = pat.len() > 0 && pat.last() == '*';
    if anchored && !star_end && segs.len() >= 2 {
        let last = segs.last();
        ends_with(path, last) && glob_pos(
            segs.drop_last(),
            0,
            path.take(path.len() - last.len()),
            0,
        ) is Some
    } else {
        match glob_pos(segs, 0, path, 0) {
            None => false,
            Some(pos) => !anchored || star_end || pos == path.len(),
        }
    }
}

/// A path is allowed when no rule matches, or when an `Allow` rule matches
/// with the largest specificity among the matching rules.
pub open spec fn allowed_by(rules: Seq<RuleV>, path: Seq<char>) -> bool {
    (forall|i: int| 0 <= i < rules.len() ==> !glob_matches(#[trigger] rules[i].1, path)) || exists|
        i: int,
    |
        0 <= i < rules.len() && #[trigger] rules[i].0 && glob_matches(rules[i].1, path) && forall|
            j: int,
        |
            0 <= j < rules.len() && glob_matches(#[trigger] rules[j].1, path) ==> specificity(
                rules[j].1,
            ) <= specificity(rules[i].1)
}

} // verus!

verus! {

// ---------------------------------------------------------------- exec: matching

fn split_pieces(p: &[char]) -> (r: Vec<Vec<char>>)
    ensures
        vviews(r@) == split_star(p@),
{
    let mut done: Vec<Vec<char>> = Vec::new();
    let mut cur: Vec<char> = Vec::new();
    let mut i: usize = 0;
    assert(p@.take(0) =~= Seq::<char>::empty());
    assert(vviews(done@).push(cur@) =~= seq![Seq::<char>::empty()]);
    while i < p.len()
        invariant
            i <= p.len(),
            split_star(p@.take(i as int)) == vviews(done@).push(cur@),
        decreases p.len() - i,
    {
        let c = p[i];
        proof {
            assert(p@.take(i + 1).drop_last() == p@.take(i as int));
            assert(p@.take(i + 1).last() == c);
        }
        let ghost old_done = done@;
        let ghost old_cur = cur@;
        if c == '*' {
            done.push(cur);
            cur = Vec::new();
            assert(vviews(done@) =~= vviews(old_done).push(old_cur));
            assert(vviews(done@).push(cur@) =~= vviews(old_done).push(old_cur).push(
                Seq::<char>::empty(),
            ));
        } else {
            cur.push(c);
            assert(vviews(done@).push(cur@) =~= vviews(old_done).push(old_cur).update(
                vviews(old_done).push(old_cur).len() - 1,
                old_cur.push(c),
            ));
        }
        i = i + 1;
    }
    assert(p@.take(p@.len() as int) == p@);
    let ghost old_done = done@;
    done.push(cur);
    assert(vviews(done@) =~= vviews(old_done).push(cur@));
    done
}

/// Greedy placement of the first `count` pieces: the position after the
/// last one, as `glob_pos` states it.
fn place_pieces(segs: &Vec<Vec<char>>, count: usize, path: &[char]) -> (r: Option<usize>)
    requires
        count <= segs@.len(),
    ensures
        match r {
            Some(p) => glob_pos(vviews(segs@).take(count as int), 0, path@, 0) == Some(p as int),
            None => glob_pos(vviews(segs@).take(count as int), 0, path@, 0) is None,
        },
{
    let ghost sv = vviews(segs@).take(count as int);
    let mut pos: usize = 0;
    let mut i: usize = 0;
    while i < count
        invariant
            i <= count <= segs@.len(),
            pos <= path.len(),
            sv == vviews(segs@).take(count as int),
            glob_pos(sv, 0, path@, 0) == glob_pos(sv, i as nat, path@, pos as int),
        decreases count - i,
    {
        let seg = &segs[i];
        assert(sv[i as int] == seg@);
        if seg.len() == 0 {
            i = i + 1;
            continue;
        }
        if i == 0 {
            if matches_at(path, seg.as_slice(), pos) {
                assert(path@.skip(pos as int).take(seg@.len() as int) =~= path@.subrange(
                    pos as int,
                    pos + seg@.len(),
                ));
                assert(has_prefix(path@.skip(pos as int), seg@));
                pos = pos + seg.len();
            } else {
                proof {
                    if seg@.len() + pos <= path@.len() {
                        assert(path@.skip(pos as int).take(seg@.len() as int) =~= path@.subrange(
                            pos as int,
                            pos + seg@.len(),
                        ));
                    }
                    assert(!has_prefix(path@.skip(pos as int), seg@));
                }
                return None;
            }
        } else {
            match find_in(path, seg.as_slice(), pos) {
                Some(k) => {
                    assert(occurs_at(path@, seg@, k as int));
                    pos = k + seg.len();
                },
                None => {
                    return None;
                },
            }
        }
        i = i + 1;
    }
    Some(pos)
}

/// Whether a robots.txt path pattern matches the path (see `glob_matches`).
fn glob_match(pattern: &[char], path: &[char]) -> (r: bool)
    ensures
        r == glob_matches(pattern@, path@),
{
    let anchored = pattern.len() > 0 && pattern[pattern.len() - 1] == '$';
    let plen = if anchored {
        pattern.len() - 1
    } else {
        pattern.len()
    };
    let mut pat: Vec<char> = Vec::new();
    crate::text::push_range(&mut pat, pattern, 0, plen);
    assert(pat@ == (if anchored {
        pattern@.drop_last()
    } else {
        pattern@
    }));
    let segs = split_pieces(pat.as_slice());
    let ghost sv = vviews(segs@);
    let star_end = plen > 0 && pat[plen - 1] == '*';
    proof {
        lemma_split_star_nonempty(pat@);
    }
    if anchored && !star_end && segs.len() >= 2 {
        let last = &segs[segs.len() - 1];
        assert(sv.last() == last@);
        if last.len() > path.len() {
            return false;
        }
        let cut = path.len() - last.len();
        if !matches_at(path, last.as_slice(), cut) {
            proof {
                assert(path@.skip(cut as int) =~= path@.subrange(cut as int, cut + last@.len()));
            }
            return false;
        }
        assert(path@.skip(cut as int) =~= path@.subrange(cut as int, cut + last@.len()));
        let mut head: Vec<char> = Vec::new();
        crate::text::push_range(&mut head, path, 0, cut);
        assert(head@ =~= path@.take(cut as int));
        assert(vviews(segs@).take(segs@.len() - 1) =~= sv.drop_last());
        let placed = place_pieces(&segs, segs.len() - 1, head.as_slice());
        return placed.is_some();
    }
    assert(vviews(segs@).take(segs@.len() as int) =~= sv);
    match place_pieces(&segs, segs.len(), path) {
        None => false,
        Some(pos) => !anchored || star_end || pos == path.len(),
    }
}

/// `split_star` gives at least one piece.
proof fn lemma_split_star_nonempty(p: Seq<char>)
    ensures
        split_star(p).len() >= 1,
    decreases p.len(),
{
    if p.len() > 0 {
        lemma_split_star_nonempty(p.drop_last());
    }
}

/// Number of literal characters of a pattern.
fn specificity_of(p: &[char]) -> (r: usize)
    ensures
        r == specificity(p@),
{
    let mut n: usize = 0;
    let mut i: usize = 0;
    while i < p.len()
        invariant
            i <= p.len(),
            n <= i,
            n == specificity(p@.take(i as int)),
        decreases p.len() - i,
    {
        assert(p@.take(i + 1).drop_last() == p@.take(i as int));
        if p[i] != '*' && p[i] != '$' {
            n = n + 1;
        }
        i = i + 1;
    }
    assert(p@.take(p@.len() as int) == p@);
    n
}

impl Robots {
    /// Whether the path may be fetched: the longest matching rule decides,
    /// `Allow` wins ties, and no matching rule means allowed.
    pub fn allowed(&self, path: &str) -> (r: bool)
        ensures
            r == allowed_by(self@, path@),
    {
        let pc = chars_of(path);
        let ghost rv = self@;
        let mut found = false;
        let mut best_len: usize = 0;
        let mut best_allow = false;
        let ghost mut wit: int = 0;
        let ghost mut allow_wit: int = 0;
        let mut i: usize = 0;
        while i < self.rules.len()
            invariant
                i <= self.rules.len(),
                rv == self@,
                rv.len() == self.rules@.len(),
                pc@ == path@,
                !found ==> forall|j: int| 0 <= j < i ==> !glob_matches(#[trigger] rv[j].1, path@),
                found ==> 0 <= wit < i && glob_matches(rv[wit].1, path@) && specificity(rv[wit].1)
                    == best_len,
                found ==> forall|j: int|
                    0 <= j < i && glob_matches(#[trigger] rv[j].1, path@) ==> specificity(rv[j].1)
                        <= best_len,
                found && best_allow ==> 0 <= allow_wit < i && rv[allow_wit].0 && glob_matches(
                    rv[allow_wit].1,
                    path@,
                ) && specificity(rv[allow_wit].1) == best_len,
                found && !best_allow ==> forall|j: int|
                    0 <= j < i && #[trigger] rv[j].0 && glob_matches(rv[j].1, path@) ==> specificity(
                        rv[j].1,
                    ) < best_len,
            decreases self.rules.len() - i,
        {
            let r = &self.rules[i];
            assert(rv[i as int] == rule_v(*r));
            if glob_match(r.pattern.as_slice(), pc.as_slice()) {
                let len = specificity_of(r.pattern.as_slice());
                if !found || len > best_len || (len == best_len && r.allow && !best_allow) {
                    proof {
                        wit = i as int;
                        if r.allow {
                            allow_wit = i as int;
                        }
                    }
                    found = true;
                    best_len = len;
                    best_allow = r.allow;
                }
            }
            i = i + 1;
        }
        if !found {
            true
        } else {
            proof {
                if !best_allow {
                    assert forall|k: int|
                        0 <= k < rv.len() && #[trigger] rv[k].0 && glob_matches(
                            rv[k].1,
                            path@,
                        ) implies !(forall|j: int|
                        0 <= j < rv.len() && glob_matches(#[trigger] rv[j].1, path@)
                            ==> specificity(rv[j].1) <= specificity(rv[k].1)) by {
                        assert(glob_matches(rv[wit].1, path@));
                    }
                }
                assert(!(forall|j: int|
                    0 <= j < rv.len() ==> !glob_matches(#[trigger] rv[j].1, path@))) by {
                    assert(glob_matches(rv[wit].1, path@));
                }
            }
            best_allow
        }
    }
}

} // verus!

verus! {

// ---------------------------------------------------------------- exec: parsing

pub open spec fn group_v(g: (Vec<Vec<char>>, Vec<Rule>)) -> (Seq<Seq<char>>, Seq<RuleV>) {
    (vviews(g.0@), rules_v(g.1@))
}

pub open spec fn groups_v(gs: Seq<(Vec<Vec<char>>, Vec<Rule>)>) -> Seq<(Seq<Seq<char>>, Seq<RuleV>)> {
    gs.map_values(|g: (Vec<Vec<char>>, Vec<Rule>)| group_v(g))
}

pub open spec fn state_v(
    groups: Seq<(Vec<Vec<char>>, Vec<Rule>)>,
    agents: Seq<Vec<char>>,
    rules: Seq<Rule>,
    last: bool,
) -> ParseState {
    ParseState {
        groups: groups_v(groups),
        agents: vviews(agents),
        rules: rules_v(rules),
        last_rule: last,
    }
}

/// The directive of one line, if any.
fn directive_of(raw: &[char]) -> (r: Option<(Vec<char>, Vec<char>)>)
    ensures
        r matches Some((k, v)) ==> directive(raw@) == Some((k@, v@)),
        r is None ==> directive(raw@) is None,
{
    let h = first_index(raw, 0, raw.len(), '#');
    assert(raw@.subrange(0, raw@.len() as int) == raw@);
    let mut head: Vec<char> = Vec::new();
    crate::text::push_range(&mut head, raw, 0, h);
    assert(head@ == before_hash(raw@));
    let line = trimmed(head.as_slice());
    if line.len() == 0 {
        return None;
    }
    let k = first_index(line.as_slice(), 0, line.len(), ':');
    assert(line@.subrange(0, line@.len() as int) == line@);
    if k >= line.len() {
        return None;
    }
    let mut kp: Vec<char> = Vec::new();
    crate::text::push_range(&mut kp, line.as_slice(), 0, k);
    assert(kp@ == line@.take(k as int));
    let kt = trimmed(kp.as_slice());
    let key = lowered(kt.as_slice());
    let mut vp: Vec<char> = Vec::new();
    crate::text::push_range(&mut vp, line.as_slice(), k + 1, line.len());
    assert(vp@ == line@.skip(k + 1));
    let value = trimmed(vp.as_slice());
    Some((key, value))
}

/// Whether the agent list names `token`.
fn has_agent(agents: &Vec<Vec<char>>, token: &[char]) -> (r: bool)
    ensures
        r == vviews(agents@).contains(token@),
{
    let mut i: usize = 0;
    while i < agents.len()
        invariant
            i <= agents.len(),
            forall|j: int| 0 <= j < i ==> vviews(agents@)[j] != token@,
        decreases agents.len() - i,
    {
        if same(agents[i].as_slice(), token) {
            assert(vviews(agents@)[i as int] == token@);
            return true;
        }
        i = i + 1;
    }
    false
}

/// Index of the first group whose agents name `token`.
fn find_group(groups: &Vec<(Vec<Vec<char>>, Vec<Rule>)>, token: &[char]) -> (r: Option<usize>)
    ensures
        r matches Some(i) ==> i < groups@.len() && group_for(groups_v(groups@), token@) == Some(
            group_v(groups@[i as int]).1,
        ),
        r is None ==> group_for(groups_v(groups@), token@) is None,
{
    let ghost gv = groups_v(groups@);
    let mut i: usize = 0;
    assert(gv.skip(0) == gv);
    while i < groups.len()
        invariant
            i <= groups.len(),
            gv == groups_v(groups@),
            group_for(gv, token@) == group_for(gv.skip(i as int), token@),
        decreases groups.len() - i,
    {
        assert(gv.skip(i as int)[0] == group_v(groups@[i as int]));
        assert(gv.skip(i as int).skip(1) == gv.skip(i + 1));
        if has_agent(&groups[i].0, token) {
            return Some(i);
        }
        i = i + 1;
    }
    None
}

proof fn lemma_run_lines_step(cs: Seq<char>, pos: int, k: int, st: ParseState)
    requires
        0 <= pos < cs.len(),
        pos <= k <= cs.len(),
        k - pos == first_of(cs.skip(pos), '\n'),
    ensures
        k < cs.len() ==> run_lines(lines(cs.skip(pos)), st) == run_lines(
            lines(cs.skip(k + 1)),
            step(st, strip_cr(cs.subrange(pos, k))),
        ),
        k == cs.len() ==> run_lines(lines(cs.skip(pos)), st) == step(st, cs.skip(pos)),
{
    let t = cs.skip(pos);
    if k < cs.len() {
        let l = strip_cr(t.take(k - pos));
        assert(t.take(k - pos) =~= cs.subrange(pos, k));
        assert(t.skip(k - pos + 1) =~= cs.skip(k + 1));
        let ls = seq![l] + lines(t.skip(k - pos + 1));
        assert(ls.skip(1) =~= lines(t.skip(k - pos + 1)));
        assert(ls[0] == l);
    } else {
        let ls: Seq<Seq<char>> = seq![t];
        assert(ls.skip(1) =~= Seq::<Seq<char>>::empty());
        assert(lines(t) == ls);
        assert(run_lines(ls.skip(1), step(st, t)) == step(st, t));
        assert(ls[0] == t);
    }
}

impl Robots {
    /// Parses robots.txt and keeps the rules of the group that applies to
    /// webgrab: the `webgrab` group, else the `*` group, else none.
    pub fn parse(text: &str) -> (r: Self)
        ensures
            r@ == chosen_rules(text@),
    {
        let cs = chars_of(text);
        let n = cs.len();
        let ua = chars_of("user-agent");
        let dis = chars_of("disallow");
        let al = chars_of("allow");
        let mut groups: Vec<(Vec<Vec<char>>, Vec<Rule>)> = Vec::new();
        let mut agents: Vec<Vec<char>> = Vec::new();
        let mut rules: Vec<Rule> = Vec::new();
        let mut last = false;
        let ghost total = run_lines(lines(cs@), initial_state());
        assert(cs@.skip(0) == cs@);
        assert(state_v(groups@, agents@, rules@, last) == initial_state()) by {
            assert(groups_v(groups@) =~= Seq::<(Seq<Seq<char>>, Seq<RuleV>)>::empty());
            assert(vviews(agents@) =~= Seq::<Seq<char>>::empty());
            assert(rules_v(rules@) =~= Seq::<RuleV>::empty());
        }
        let mut pos: usize = 0;
        while pos < n
            invariant
                pos <= n == cs@.len(),
                cs@ == text@,
                ua@ == "user-agent"@,
                dis@ == "disallow"@,
                al@ == "allow"@,
                run_lines(lines(cs@.skip(pos as int)), state_v(groups@, agents@, rules@, last))
                    == total,
            decreases n - pos,
        {
            let k = first_index(cs.as_slice(), pos, n, '\n');
            assert(cs@.subrange(pos as int, n as int) == cs@.skip(pos as int));
            let end = if k < n && k > pos && cs[k - 1] == '\r' {
                k - 1
            } else {
                k
            };
            let mut raw: Vec<char> = Vec::new();
            crate::text::push_range(&mut raw, cs.as_slice(), pos, end);
            let ghost st0 = state_v(groups@, agents@, rules@, last);
            proof {
                lemma_run_lines_step(cs@, pos as int, k as int, st0);
                if k < n {
                    assert(raw@ == strip_cr(cs@.subrange(pos as int, k as int)));
                } else {
                    assert(raw@ == cs@.skip(pos as int));
                }
            }
            match directive_of(raw.as_slice()) {
                None => {},
                Some((key, value)) => {
                    if same(key.as_slice(), ua.as_slice()) {
                        if last {
                            if agents.len() > 0 {
                                let ghost g0 = groups@;
                                let ghost a0 = agents@;
                                let ghost r0 = rules@;
                                let mut a: Vec<Vec<char>> = Vec::new();
            std::mem::swap(&mut a, &mut agents);
                                let mut rs: Vec<Rule> = Vec::new();
            std::mem::swap(&mut rs, &mut rules);
                                groups.push((a, rs));
                                assert(groups_v(groups@) =~= groups_v(g0).push(
                                    (vviews(a0), rules_v(r0)),
                                ));
                                assert(vviews(agents@) =~= Seq::<Seq<char>>::empty());
                                assert(rules_v(rules@) =~= Seq::<RuleV>::empty());
                            }
                            last = false;
                        }
                        let ghost a1 = agents@;
                        let lv = lowered(value.as_slice());
                        agents.push(lv);
                        assert(vviews(agents@) =~= vviews(a1).push(crate::text::lower_seq(
                            value@,
                        )));
                    } else {
                        let is_dis = same(key.as_slice(), dis.as_slice());
                        let is_allow = same(key.as_slice(), al.as_slice());
                        if is_dis || is_allow {
                            last = true;
                            if !(is_dis && value.len() == 0) {
                                let ghost r1 = rules@;
                                let ghost vv = value@;
                                rules.push(Rule { allow: is_allow, pattern: value });
                                assert(rules_v(rules@) =~= rules_v(r1).push((is_allow, vv)));
                            }
                        }
                    }
                },
            }
            assert(state_v(groups@, agents@, rules@, last) == step(st0, raw@));
            pos = if k < n {
                k + 1
            } else {
                n
            };
            proof {
                if k >= n {
                    assert(cs@.skip(n as int) =~= Seq::<char>::empty());
                }
            }
        }
        proof {
            assert(cs@.skip(n as int) =~= Seq::<char>::empty());
        }
        let ghost fin = state_v(groups@, agents@, rules@, last);
        assert(fin == total);
        if agents.len() > 0 {
            let ghost g0 = groups@;
            let ghost a0 = agents@;
            let ghost r0 = rules@;
            let mut a: Vec<Vec<char>> = Vec::new();
            std::mem::swap(&mut a, &mut agents);
            let mut rs: Vec<Rule> = Vec::new();
            std::mem::swap(&mut rs, &mut rules);
            groups.push((a, rs));
            assert(groups_v(groups@) =~= groups_v(g0).push((vviews(a0), rules_v(r0))));
        }
        assert(groups_v(groups@) == flush(total).groups);
        let wg = chars_of("webgrab");
        let star = chars_of("*");
        let idx = match find_group(&groups, wg.as_slice()) {
            Some(i) => Some(i),
            None => find_group(&groups, star.as_slice()),
        };
        match idx {
            Some(i) => {
                let ghost gi = groups@[i as int];
                let g = groups.remove(i);
                assert(g == gi);
                Robots { rules: g.1 }
            },
            None => Robots { rules: Vec::new() },
        }
    }
}

/// What a robots.txt fetch decides for the page: when no body could be had
/// (the request failed, reading it failed, or it went over the size limit)
/// the page counts as allowed; otherwise its rules decide.
pub fn robots_verdict(body: Option<&[u8]>, path: &str) -> (r: bool)
    ensures
        r == match body {
            None => true,
            Some(b) => allowed_by(chosen_rules(lossy_text(b@)), path@),
        },
{
    match body {
        None => true,
        Some(b) => body_allows(b, path),
    }
}

/// The verdict of a fetched robots.txt on a page's path, the body read as
/// UTF-8 with replacement.
pub fn body_allows(body: &[u8], path: &str) -> (r: bool)
    ensures
        r == allowed_by(chosen_rules(lossy_text(body@)), path@),
{
    let text = utf8_lossy(body);
    let rules = Robots::parse(text.as_str());
    rules.allowed(path)
}

/// A pattern without `*` is a single piece.
proof fn lemma_split_star_plain(p: Seq<char>)
    requires
        forall|j: int| 0 <= j < p.len() ==> p[j] != '*',
    ensures
        split_star(p) == seq![p],
    decreases p.len(),
{
    if p.len() == 0 {
        assert(p =~= Seq::<char>::empty());
    } else {
        lemma_split_star_plain(p.drop_last());
        assert(p.drop_last().push(p.last()) =~= p);
    }
}

/// A literal pattern (no `*`, no `$`) matches every path that begins with it.
pub proof fn lemma_literal_pattern_matches_prefix(p: Seq<char>, path: Seq<char>)
    requires
        p.len() > 0,
        forall|j: int| 0 <= j < p.len() ==> p[j] != '*' && p[j] != '$',
        has_prefix(path, p),
    ensures
        glob_matches(p, path),
{
    lemma_split_star_plain(p);
    let segs = split_star(p);
    assert(path.skip(0) == path);
    assert(glob_pos(segs, 1, path, p.len() as int) == Some(p.len() as int));
    assert(glob_pos(segs, 0, path, 0) == Some(p.len() as int));
}

/// The directive of a line that reads `<key>: <value>`, with a key of
/// letters and `-` and a value without `'#'` or blanks at its ends.
proof fn lemma_directive_of_line(key: Seq<char>, value: Seq<char>)
    requires
        key.len() > 0,
        forall|j: int|
            0 <= j < key.len() ==> ('a' <= #[trigger] key[j] <= 'z') || ('A' <= key[j] <= 'Z')
                || key[j] == '-',
        value.len() > 0,
        forall|j: int| 0 <= j < value.len() ==> #[trigger] value[j] != '#',
        !is_ws(value[0]),
        !is_ws(value.last()),
    ensures
        directive(key + seq![':', ' '] + value) == Some((lower_seq(key), value)),
{
    let line = key + seq![':', ' '] + value;
    let n = key.len();
    assert forall|j: int| 0 <= j < line.len() implies line[j] != '#' by {
        if j > n + 1 {
            assert(line[j] == value[j - n - 2]);
        }
    }
    lemma_first_of_at(line, '#', line.len() as int);
    assert(line.take(line.len() as int) == line);
    assert(before_hash(line) == line);
    assert(!is_ws(line[0]));
    assert(line.last() == value.last());
    assert(trim_start(line) == line);
    assert(trim_end(line) == line);
    assert(line[n as int] == ':');
    lemma_first_of_at(line, ':', n as int);
    assert(line.take(n as int) =~= key);
    assert(trim_start(key) == key);
    assert(trim_end(key) == key);
    let after = line.skip((n + 1) as int);
    assert(after =~= seq![' '] + value);
    assert(is_ws(after[0]));
    assert(after.skip(1) =~= value);
    assert(trim_start(after) == trim_start(value));
    assert(trim_start(value) == value);
    assert(trim_end(value) == value);
}

/// A `Disallow` rule keeps its path as written (only the key and the agent
/// names are case-folded): in the robots.txt `User-agent: *` then
/// `Disallow: <p>`, with `p` a literal path (no `*` or `$`), every path
/// that begins with `p` is disallowed, whatever the case of `p`'s letters.
pub proof fn lemma_literal_disallow_blocks_prefix(p: Seq<char>, path: Seq<char>)
    requires
        p.len() > 0,
        forall|j: int|
            0 <= j < p.len() ==> #[trigger] p[j] != '*' && p[j] != '$' && p[j] != '#' && p[j]
                != '\n',
        !is_ws(p[0]),
        !is_ws(p.last()),
        has_prefix(path, p),
    ensures
        chosen_rules("User-agent: *\nDisallow: "@ + p) == seq![(false, p)],
        !allowed_by(chosen_rules("User-agent: *\nDisallow: "@ + p), path),
{
    reveal_strlit("User-agent: *\nDisallow: ");
    reveal_strlit("User-agent");
    reveal_strlit("user-agent");
    reveal_strlit("Disallow");
    reveal_strlit("disallow");
    reveal_strlit("allow");
    reveal_strlit("*");
    reveal_strlit("webgrab");
    let text = "User-agent: *\nDisallow: "@ + p;
    let k1 = "User-agent"@;
    let v1 = "*"@;
    let k2 = "Disallow"@;
    let l1 = k1 + seq![':', ' '] + v1;
    let l2 = k2 + seq![':', ' '] + p;
    assert(text =~= l1 + seq!['\n'] + l2);
    // the two lines
    assert forall|j: int| 0 <= j < 13 implies text[j] != '\n' by {}
    lemma_first_of_at(text, '\n', 13);
    assert(text.take(13) =~= l1);
    assert(text.skip(14) =~= l2);
    assert(strip_cr(l1) == l1);
    assert forall|j: int| 0 <= j < l2.len() implies l2[j] != '\n' by {
        if j >= 10 {
            assert(l2[j] == p[j - 10]);
        }
    }
    lemma_first_of_at(l2, '\n', l2.len() as int);
    assert(lines(l2) == seq![l2]);
    let ls = lines(text);
    assert(ls =~= seq![l1, l2]);
    // the two directives
    lemma_directive_of_line(k1, v1);
    assert(lower_seq(k1) =~= "user-agent"@);
    assert(lower_seq(v1) =~= "*"@);
    assert forall|j: int| 0 <= j < p.len() implies #[trigger] p[j] != '#' by {}
    lemma_directive_of_line(k2, p);
    assert(lower_seq(k2) =~= "disallow"@);
    assert("disallow"@ != "user-agent"@);
    assert("disallow"@ != "allow"@);
    // the parse
    let s0 = initial_state();
    let s1 = step(s0, l1);
    assert(s1.agents =~= seq!["*"@]);
    assert(s1.rules =~= Seq::<RuleV>::empty());
    let s2 = step(s1, l2);
    assert(s2.agents == s1.agents);
    assert(s2.rules =~= seq![(false, p)]);
    assert(ls.skip(1) =~= seq![l2]);
    assert(seq![l2].skip(1) =~= Seq::<Seq<char>>::empty());
    assert(seq![l2][0] == l2);
    assert(run_lines(Seq::<Seq<char>>::empty(), s2) == s2);
    assert(run_lines(seq![l2], s1) == s2);
    assert(run_lines(ls, s0) == s2);
    let groups = flush(s2).groups;
    assert(groups =~= seq![(seq!["*"@], seq![(false, p)])]);
    assert(!seq!["*"@].contains("webgrab"@)) by {
        assert("*"@ != "webgrab"@);
    }
    assert(groups.skip(1) =~= Seq::<(Seq<Seq<char>>, Seq<RuleV>)>::empty());
    assert(groups[0].0 == seq!["*"@]);
    assert(group_for(Seq::<(Seq<Seq<char>>, Seq<RuleV>)>::empty(), "webgrab"@) is None);
    assert(group_for(groups, "webgrab"@) is None);
    assert(seq!["*"@][0] == "*"@);
    assert(group_for(groups, "*"@) == Some(seq![(false, p)]));
    // the verdict
    let rules = chosen_rules(text);
    assert(rules == seq![(false, p)]);
    lemma_literal_pattern_matches_prefix(p, path);
    assert(glob_matches(rules[0].1, path));
}

/// An `Allow` or `Disallow` line, its key in any case, adds one rule to the
/// open group whose pattern is the line's value exactly as written, in any
/// parser state.
pub proof fn lemma_rule_line_keeps_value(st: ParseState, key: Seq<char>, value: Seq<char>)
    requires
        lower_seq(key) == "allow"@ || lower_seq(key) == "disallow"@,
        value.len() > 0,
        forall|j: int| 0 <= j < value.len() ==> #[trigger] value[j] != '#',
        !is_ws(value[0]),
        !is_ws(value.last()),
    ensures
        step(st, key + seq![':', ' '] + value).rules == st.rules.push(
            (lower_seq(key) == "allow"@, value),
        ),
        step(st, key + seq![':', ' '] + value).agents == st.agents,
        step(st, key + seq![':', ' '] + value).groups == st.groups,
{
    reveal_strlit("allow");
    reveal_strlit("disallow");
    reveal_strlit("user-agent");
    let lk = lower_seq(key);
    assert(lk.len() == key.len());
    assert forall|j: int| 0 <= j < key.len() implies ('a' <= #[trigger] key[j] <= 'z') || ('A'
        <= key[j] <= 'Z') || key[j] == '-' by {
        assert(lk[j] == crate::text::lower(key[j]));
        if lk == "allow"@ {
            assert(lk[j] == "allow"@[j]);
        } else {
            assert(lk[j] == "disallow"@[j]);
        }
    }
    lemma_directive_of_line(key, value);
    assert(lk != "user-agent"@);
}

} // verus!
