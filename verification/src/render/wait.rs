//! When a render stops waiting, and what it counts on the way: the set of
//! requests in flight (with short-lived tombstones for finished ones) and
//! the decompressed byte budget. Times are milliseconds on a monotonic clock.
use vstd::prelude::*;

verus! {

pub const POLL_MS: u64 = 250;

/// Consecutive polls equal to the previous one that make the page stable.
pub const STABLE_POLLS: u32 = 2;

/// How long a finished request id stays a tombstone.
pub const TOMBSTONE_MS: u64 = 2000;

/// At most this many ids are tracked (live, and tombstones).
pub const MAX_TRACKED: usize = 4096;

/// Visible text needed to stop early (the short-content threshold).
pub const MIN_TEXT_CHARS: usize = 200;

/// `now - t`, or 0 when `t` is later.
pub open spec fn age(now: u64, t: u64) -> int {
    if now >= t {
        now - t
    } else {
        0
    }
}

/// The tombstones that have not expired at `now`, in order.
pub open spec fn fresh(t: Seq<(Seq<char>, u64)>, now: u64) -> Seq<(Seq<char>, u64)>
    decreases t.len(),
{
    if t.len() == 0 {
        Seq::empty()
    } else if age(now, t.last().1) < TOMBSTONE_MS {
        fresh(t.drop_last(), now).push(t.last())
    } else {
        fresh(t.drop_last(), now)
    }
}

/// Some tombstone has the id.
pub open spec fn tomb_has(t: Seq<(Seq<char>, u64)>, id: Seq<char>) -> bool {
    exists|i: int| 0 <= i < t.len() && (#[trigger] t[i]).0 == id
}

/// The tombstone of `id` set to `now`: its time is updated, or it is added.
pub open spec fn tomb_set(t: Seq<(Seq<char>, u64)>, id: Seq<char>, now: u64) -> Seq<
    (Seq<char>, u64),
> {
    if tomb_has(t, id) {
        t.map_values(
            |e: (Seq<char>, u64)|
                if e.0 == id {
                    (id, now)
                } else {
                    e
                },
        )
    } else {
        t.push((id, now))
    }
}

/// The ids other than `id`, in order.
pub open spec fn without(s: Seq<Seq<char>>, id: Seq<char>) -> Seq<Seq<char>>
    decreases s.len(),
{
    if s.len() == 0 {
        Seq::empty()
    } else if s.last() == id {
        without(s.drop_last(), id)
    } else {
        without(s.drop_last(), id).push(s.last())
    }
}

pub open spec fn no_dup(s: Seq<Seq<char>>) -> bool {
    forall|i: int, j: int| 0 <= i < j < s.len() ==> s[i] != s[j]
}

proof fn lemma_fresh_len(t: Seq<(Seq<char>, u64)>, now: u64)
    ensures
        fresh(t, now).len() <= t.len(),
    decreases t.len(),
{
    if t.len() > 0 {
        lemma_fresh_len(t.drop_last(), now);
    }
}

proof fn lemma_without(s: Seq<Seq<char>>, id: Seq<char>)
    ensures
        without(s, id).len() <= s.len(),
        forall|k: int| 0 <= k < without(s, id).len() ==> s.contains(#[trigger] without(s, id)[k]),
        no_dup(s) ==> no_dup(without(s, id)),
    decreases s.len(),
{
    if s.len() > 0 {
        let p = s.drop_last();
        lemma_without(p, id);
        let w = without(p, id);
        assert forall|k: int| 0 <= k < without(s, id).len() implies s.contains(
            #[trigger] without(s, id)[k],
        ) by {
            if k < w.len() {
                let x = w[k];
                assert(p.contains(x));
                let m = choose|m: int| 0 <= m < p.len() && p[m] == x;
                assert(s[m] == x);
            } else {
                assert(s[s.len() - 1] == s.last());
            }
        }
        if no_dup(s) && s.last() != id {
            assert(no_dup(p));
            assert forall|i: int, j: int|
                0 <= i < j < without(s, id).len() implies without(s, id)[i] != without(
                s,
                id,
            )[j] by {
                if j == w.len() {
                    let x = w[i];
                    assert(p.contains(x));
                    let m = choose|m: int| 0 <= m < p.len() && p[m] == x;
                    assert(s[m] == x && m < s.len() - 1);
                }
            }
        }
    }
}

/// The live ids after a request: unchanged while the id is live or a fresh
/// tombstone; otherwise the id is appended, the oldest id leaving at the cap.
pub open spec fn request_live(l: Seq<Seq<char>>, t: Seq<(Seq<char>, u64)>, id: Seq<char>, now: u64) -> Seq<
    Seq<char>,
> {
    if tomb_has(fresh(t, now), id) || l.contains(id) {
        l
    } else {
        (if l.len() >= MAX_TRACKED {
            l.skip(1)
        } else {
            l
        }).push(id)
    }
}

/// The tombstones after a request finished: the fresh ones with `id` set to
/// `now`; a new id at the cap makes the oldest tombstone leave.
pub open spec fn done_tombs(t: Seq<(Seq<char>, u64)>, id: Seq<char>, now: u64) -> Seq<
    (Seq<char>, u64),
> {
    if done_evicts(t, id, now) {
        fresh(t, now).skip(1).push((id, now))
    } else {
        tomb_set(fresh(t, now), id, now)
    }
}

/// A request for a new id at the cap makes the oldest live id leave.
pub open spec fn request_evicts(l: Seq<Seq<char>>, t: Seq<(Seq<char>, u64)>, id: Seq<char>, now: u64) -> bool {
    !(tomb_has(fresh(t, now), id) || l.contains(id)) && l.len() >= MAX_TRACKED
}

/// A new tombstone at the cap makes the oldest tombstone leave.
pub open spec fn done_evicts(t: Seq<(Seq<char>, u64)>, id: Seq<char>, now: u64) -> bool {
    !tomb_has(fresh(t, now), id) && fresh(t, now).len() >= MAX_TRACKED
}

proof fn lemma_fresh_keeps(t: Seq<(Seq<char>, u64)>, now: u64, k: int)
    requires
        0 <= k < t.len(),
        age(now, t[k].1) < TOMBSTONE_MS,
    ensures
        tomb_has(fresh(t, now), t[k].0),
    decreases t.len(),
{
    let f = fresh(t, now);
    if k == t.len() - 1 {
        assert(f.last() == t.last());
        assert(f[f.len() - 1].0 == t[k].0);
    } else {
        lemma_fresh_keeps(t.drop_last(), now, k);
        let g = fresh(t.drop_last(), now);
        let j = choose|j: int| 0 <= j < g.len() && (#[trigger] g[j]).0 == t[k].0;
        if age(now, t.last().1) < TOMBSTONE_MS {
            assert(f[j] == g[j]);
        }
    }
}

proof fn lemma_fresh_has(t: Seq<(Seq<char>, u64)>, now: u64, id: Seq<char>)
    requires
        tomb_has(fresh(t, now), id),
    ensures
        exists|k: int| 0 <= k < t.len() && (#[trigger] t[k]).0 == id && age(now, t[k].1) < TOMBSTONE_MS,
    decreases t.len(),
{
    let f = fresh(t, now);
    let j = choose|j: int| 0 <= j < f.len() && (#[trigger] f[j]).0 == id;
    if t.len() > 0 {
        let g = fresh(t.drop_last(), now);
        if age(now, t.last().1) < TOMBSTONE_MS && j == f.len() - 1 {
            assert(t[t.len() - 1].0 == id);
        } else {
            assert(g[j] == f[j]);
            lemma_fresh_has(t.drop_last(), now, id);
            let k = choose|k: int| 0 <= k < t.drop_last().len() && (#[trigger] t.drop_last()[k]).0 == id
                && age(now, t.drop_last()[k].1) < TOMBSTONE_MS;
            assert(t[k] == t.drop_last()[k]);
        }
    }
}

/// A second request for the same id at the same time changes nothing:
/// requests are idempotent (a redirect re-sends its id).
pub proof fn lemma_request_idempotent(l: Seq<Seq<char>>, t: Seq<(Seq<char>, u64)>, id: Seq<char>, now: u64)
    ensures
        request_live(request_live(l, t, id, now), fresh(t, now), id, now) == request_live(l, t, id, now),
{
    let l1 = request_live(l, t, id, now);
    if tomb_has(fresh(fresh(t, now), now), id) {
    } else if tomb_has(fresh(t, now), id) {
        let k = choose|k: int| 0 <= k < fresh(t, now).len() && (#[trigger] fresh(t, now)[k]).0 == id;
        lemma_fresh_has(t, now, id);
        let k2 = choose|k2: int| 0 <= k2 < t.len() && (#[trigger] t[k2]).0 == id && age(now, t[k2].1) < TOMBSTONE_MS;
        lemma_fresh_keeps(t, now, k2);
        lemma_fresh_has(t, now, id);
        assert(fresh(t, now)[k].0 == id);
        lemma_fresh_age(t, now, k);
        lemma_fresh_keeps(fresh(t, now), now, k);
    } else if !l.contains(id) {
        assert(l1[l1.len() - 1] == id);
    }
}

/// Every fresh tombstone is younger than `TOMBSTONE_MS`.
proof fn lemma_fresh_age(t: Seq<(Seq<char>, u64)>, now: u64, k: int)
    requires
        0 <= k < fresh(t, now).len(),
    ensures
        age(now, fresh(t, now)[k].1) < TOMBSTONE_MS,
    decreases t.len(),
{
    if t.len() > 0 {
        let g = fresh(t.drop_last(), now);
        if age(now, t.last().1) < TOMBSTONE_MS && k == g.len() {
        } else {
            lemma_fresh_age(t.drop_last(), now, k);
        }
    }
}

/// A request that arrives less than `TOMBSTONE_MS` after its id finished is
/// ignored: a late, out-of-order request cannot revive it.
pub proof fn lemma_late_request_ignored(
    l: Seq<Seq<char>>,
    t: Seq<(Seq<char>, u64)>,
    id: Seq<char>,
    done_at: u64,
    now: u64,
)
    requires
        done_at <= now,
        now - done_at < TOMBSTONE_MS,
    ensures
        request_live(without(l, id), done_tombs(t, id, done_at), id, now) == without(l, id),
{
    let d = done_tombs(t, id, done_at);
    let f = fresh(t, done_at);
    if done_evicts(t, id, done_at) {
        assert(d[d.len() - 1] == (id, done_at));
        lemma_fresh_keeps(d, now, d.len() - 1);
    } else if tomb_has(f, id) {
        let j = choose|j: int| 0 <= j < f.len() && (#[trigger] f[j]).0 == id;
        assert(d[j] == (id, done_at));
        lemma_fresh_keeps(d, now, j);
    } else {
        assert(d[d.len() - 1] == (id, done_at));
        lemma_fresh_keeps(d, now, d.len() - 1);
    }
}

/// Finishing the same id twice leaves the same live set as finishing it once.
pub proof fn lemma_done_idempotent(l: Seq<Seq<char>>, id: Seq<char>)
    ensures
        without(without(l, id), id) == without(l, id),
    decreases l.len(),
{
    if l.len() > 0 {
        lemma_done_idempotent(l.drop_last(), id);
        if l.last() != id {
            let w = without(l.drop_last(), id);
            assert(w.push(l.last()).drop_last() == w);
            assert(w.push(l.last()).last() == l.last());
        }
    }
}

/// The requests in flight. Adding and removing are idempotent; a finished
/// id stays a tombstone for a while, so that its request, arriving late and
/// out of order, is ignored.
pub struct InFlight {
    live: Vec<String>,
    tombstones: Vec<(String, u64)>,
    evicted: bool,
}

pub open spec fn tombs_view(t: Seq<(String, u64)>) -> Seq<(Seq<char>, u64)> {
    t.map_values(|e: (String, u64)| (e.0@, e.1))
}

impl InFlight {
    /// The live ids, oldest first.
    pub closed spec fn live(self) -> Seq<Seq<char>> {
        crate::budget::views(self.live@)
    }

    /// The tombstones: id and the time it finished.
    pub closed spec fn tombs(self) -> Seq<(Seq<char>, u64)> {
        tombs_view(self.tombstones@)
    }

    /// Some id was dropped at the cap: the set may miss a request in flight.
    pub closed spec fn evicted(self) -> bool {
        self.evicted
    }

    /// No live id twice; at most `MAX_TRACKED` live ids and tombstones.
    pub open spec fn wf(self) -> bool {
        &&& no_dup(self.live())
        &&& self.live().len() <= MAX_TRACKED
        &&& self.tombs().len() <= MAX_TRACKED
    }

    pub fn new() -> (r: Self)
        ensures
            r.wf(),
            r.live() == Seq::<Seq<char>>::empty(),
            r.tombs() == Seq::<(Seq<char>, u64)>::empty(),
            !r.evicted(),
    {
        let r = InFlight { live: Vec::new(), tombstones: Vec::new(), evicted: false };
        assert(r.live() =~= Seq::<Seq<char>>::empty());
        assert(r.tombs() =~= Seq::<(Seq<char>, u64)>::empty());
        r
    }

    /// Drops the tombstones older than `TOMBSTONE_MS`.
    fn expire(&mut self, now_ms: u64)
        requires
            old(self).wf(),
        ensures
            final(self).wf(),
            final(self).live() == old(self).live(),
            final(self).tombs() == fresh(old(self).tombs(), now_ms),
            final(self).evicted() == old(self).evicted(),
    {
        let ghost t0 = self.tombs();
        let mut kept: Vec<(String, u64)> = Vec::new();
        let mut i: usize = 0;
        while i < self.tombstones.len()
            invariant
                t0 == tombs_view(self.tombstones@),
                i <= self.tombstones.len(),
                tombs_view(kept@) == fresh(t0.take(i as int), now_ms),
            decreases self.tombstones.len() - i,
        {
            let t = self.tombstones[i].1;
            assert(t0.take(i + 1).drop_last() == t0.take(i as int));
            assert(t0.take(i + 1).last() == t0[i as int]);
            if now_ms.saturating_sub(t) < TOMBSTONE_MS {
                let id = self.tombstones[i].0.clone();
                kept.push((id, t));
                assert(tombs_view(kept@) =~= fresh(t0.take(i as int), now_ms).push(t0[i as int]));
            }
            i = i + 1;
        }
        assert(t0.take(self.tombstones.len() as int) == t0);
        proof {
            lemma_fresh_len(t0, now_ms);
        }
        self.tombstones = kept;
    }

    fn live_has(&self, id: &String) -> (r: bool)
        ensures
            r == self.live().contains(id@),
    {
        let mut i: usize = 0;
        while i < self.live.len()
            invariant
                i <= self.live.len(),
                forall|k: int| 0 <= k < i ==> self.live()[k] != id@,
            decreases self.live.len() - i,
        {
            if self.live[i] == *id {
                assert(self.live()[i as int] == id@);
                return true;
            }
            i = i + 1;
        }
        false
    }

    fn tomb_has_id(&self, id: &String) -> (r: bool)
        ensures
            r == tomb_has(self.tombs(), id@),
    {
        let mut i: usize = 0;
        while i < self.tombstones.len()
            invariant
                i <= self.tombstones.len(),
                forall|k: int| 0 <= k < i ==> (#[trigger] self.tombs()[k]).0 != id@,
            decreases self.tombstones.len() - i,
        {
            if self.tombstones[i].0 == *id {
                assert(self.tombs()[i as int].0 == id@);
                return true;
            }
            i = i + 1;
        }
        false
    }

    /// A request started. Ignored while its id is live or a tombstone; at
    /// the cap, the oldest live id makes room, and the set is marked evicted.
    pub fn on_request(&mut self, id: &str, is_redirect: bool, now_ms: u64)
        requires
            old(self).wf(),
        ensures
            final(self).wf(),
            final(self).tombs() == fresh(old(self).tombs(), now_ms),
            final(self).live() == request_live(old(self).live(), old(self).tombs(), id@, now_ms),
            final(self).evicted() == (old(self).evicted() || request_evicts(
                old(self).live(),
                old(self).tombs(),
                id@,
                now_ms,
            )),
            keeps_eviction(*old(self), *final(self)),
    {
        self.expire(now_ms);
        let idv = id.to_owned();
        if self.tomb_has_id(&idv) || self.live_has(&idv) {
            return ;
        }
        let ghost l0 = self.live();
        if self.live.len() >= MAX_TRACKED {
            self.live.remove(0);
            self.evicted = true;
            assert(self.live() =~= l0.skip(1));
        }
        let ghost l1 = self.live();
        self.live.push(idv);
        assert(self.live() =~= l1.push(id@));
        assert forall|i: int, j: int| 0 <= i < j < self.live().len() implies self.live()[i]
            != self.live()[j] by {
            if j == self.live().len() - 1 {
                assert(l1[i] == l0[if l0.len() >= MAX_TRACKED { i + 1 } else { i }]);
                assert(l0.contains(l1[i]));
            } else {
                assert(l1[i] == l0[if l0.len() >= MAX_TRACKED { i + 1 } else { i }]);
                assert(l1[j] == l0[if l0.len() >= MAX_TRACKED { j + 1 } else { j }]);
            }
        }
    }

    /// A request finished: its id leaves the live set and becomes a
    /// tombstone; a new tombstone at the cap makes the oldest one leave, and
    /// the set is marked evicted.
    pub fn on_done(&mut self, id: &str, now_ms: u64)
        requires
            old(self).wf(),
        ensures
            final(self).wf(),
            final(self).live() == without(old(self).live(), id@),
            final(self).tombs() == done_tombs(old(self).tombs(), id@, now_ms),
            final(self).evicted() == (old(self).evicted() || done_evicts(
                old(self).tombs(),
                id@,
                now_ms,
            )),
            keeps_eviction(*old(self), *final(self)),
    {
        self.expire(now_ms);
        let idv = id.to_owned();
        let ghost l0 = self.live();
        let mut rest: Vec<String> = Vec::new();
        let mut i: usize = 0;
        while i < self.live.len()
            invariant
                l0 == crate::budget::views(self.live@),
                i <= self.live.len(),
                idv@ == id@,
                crate::budget::views(rest@) == without(l0.take(i as int), id@),
            decreases self.live.len() - i,
        {
            assert(l0.take(i + 1).drop_last() == l0.take(i as int));
            assert(l0.take(i + 1).last() == l0[i as int]);
            if self.live[i] != idv {
                let s = self.live[i].clone();
                rest.push(s);
                assert(crate::budget::views(rest@) =~= without(l0.take(i as int), id@).push(
                    l0[i as int],
                ));
            }
            i = i + 1;
        }
        assert(l0.take(self.live.len() as int) == l0);
        proof {
            lemma_without(l0, id@);
        }
        self.live = rest;
        let ghost t0 = self.tombs();
        let present = self.tomb_has_id(&idv);
        if !present && self.tombstones.len() >= MAX_TRACKED {
            self.tombstones.remove(0);
            self.tombstones.push((idv, now_ms));
            self.evicted = true;
            assert(self.tombs() =~= t0.skip(1).push((id@, now_ms)));
        } else if present {
            let ghost lv = self.live();
            let mut k: usize = 0;
            while k < self.tombstones.len()
                invariant
                    k <= self.tombstones.len() == t0.len(),
                    t0.len() <= MAX_TRACKED,
                    self.evicted == old(self).evicted,
                    self.live() == lv,
                    idv@ == id@,
                    forall|m: int|
                        0 <= m < k ==> #[trigger] self.tombs()[m] == (if t0[m].0 == id@ {
                            (id@, now_ms)
                        } else {
                            t0[m]
                        }),
                    forall|m: int| k <= m < t0.len() ==> #[trigger] self.tombs()[m] == t0[m],
                decreases t0.len() - k,
            {
                let ghost before = self.tombs();
                if self.tombstones[k].0 == idv {
                    assert(before[k as int].0 == id@);
                    self.tombstones.set(k, (idv.clone(), now_ms));
                    assert(self.tombs() =~= before.update(k as int, (id@, now_ms)));
                } else {
                    assert(before[k as int].0 != id@);
                }
                k = k + 1;
            }
            assert(self.tombs() =~= tomb_set(t0, id@, now_ms));
        } else {
            self.tombstones.push((idv, now_ms));
            assert(self.tombs() =~= t0.push((id@, now_ms)));
        }
    }

    /// No request in flight (after expiring tombstones). Once an id was
    /// dropped at the cap the set is never idle again: a dropped request may
    /// still be running, so the wait goes on to its cap.
    pub fn is_idle(&mut self, now_ms: u64) -> (r: bool)
        requires
            old(self).wf(),
        ensures
            final(self).wf(),
            r == idle_of(*old(self)),
            keeps_eviction(*old(self), *final(self)),
            final(self).live() == old(self).live(),
            final(self).tombs() == fresh(old(self).tombs(), now_ms),
            final(self).evicted() == old(self).evicted(),
    {
        self.expire(now_ms);
        self.live.len() == 0 && !self.evicted
    }

    /// Number of requests in flight.
    pub fn len(&self) -> (r: usize)
        ensures
            r == self.live().len(),
    {
        self.live.len()
    }

    pub fn is_empty(&self) -> (r: bool)
        ensures
            r == (self.live().len() == 0),
    {
        self.live.len() == 0
    }
}

/// What `is_idle` reports: no request in flight and no id ever evicted.
pub open spec fn idle_of(f: InFlight) -> bool {
    f.live().len() == 0 && !f.evicted()
}

/// `b` follows `a` keeping its eviction, as `on_request`, `on_done` and
/// `is_idle` each do.
pub open spec fn keeps_eviction(a: InFlight, b: InFlight) -> bool {
    a.evicted() ==> b.evicted()
}

proof fn lemma_evicted_at(states: Seq<InFlight>, k: int)
    requires
        states.len() > 0,
        states[0].evicted(),
        forall|m: int| 0 <= m < states.len() - 1 ==> keeps_eviction(#[trigger] states[m], states[m + 1]),
        0 <= k < states.len(),
    ensures
        states[k].evicted(),
    decreases k,
{
    if k > 0 {
        lemma_evicted_at(states, k - 1);
        assert(keeps_eviction(states[k - 1], states[k]));
    }
}

/// Once a live id has been evicted (an `on_request` at the cap), the
/// tracker never reports idle again: over any later run of `on_request`,
/// `on_done` and `is_idle` calls, `is_idle` is false, so the wait runs to
/// its cap.
pub proof fn lemma_never_idle_after_eviction(states: Seq<InFlight>)
    requires
        states.len() > 0,
        states[0].evicted(),
        forall|m: int| 0 <= m < states.len() - 1 ==> keeps_eviction(#[trigger] states[m], states[m + 1]),
    ensures
        forall|k: int| 0 <= k < states.len() ==> !idle_of(#[trigger] states[k]),
{
    assert forall|k: int| 0 <= k < states.len() implies !idle_of(#[trigger] states[k]) by {
        lemma_evicted_at(states, k);
    }
}

/// The running total of decompressed bytes and whether it passed the limit.
pub struct DecodedBudget {
    max: u64,
    total: u64,
    exceeded: bool,
}

impl DecodedBudget {
    pub closed spec fn max(self) -> u64 {
        self.max
    }

    pub closed spec fn spec_total(self) -> u64 {
        self.total
    }

    pub closed spec fn spec_exceeded(self) -> bool {
        self.exceeded
    }

    pub fn new(max: u64) -> (r: Self)
        ensures
            r.max() == max,
            r.spec_total() == 0,
            !r.spec_exceeded(),
    {
        DecodedBudget { max, total: 0, exceeded: false }
    }

    /// Adds `len` bytes; true once the total has passed the limit (and from
    /// then on).
    pub fn on_data(&mut self, len: u64) -> (r: bool)
        requires
            old(self).spec_total() + len <= u64::MAX,
        ensures
            data_step(*old(self), len, *final(self)),
            r == final(self).spec_exceeded(),
    {
        self.total = self.total + len;
        if self.total > self.max {
            self.exceeded = true;
        }
        self.exceeded
    }

    pub fn exceeded(&self) -> (r: bool)
        ensures
            r == self.spec_exceeded(),
    {
        self.exceeded
    }

    pub fn total(&self) -> (r: u64)
        ensures
            r == self.spec_total(),
    {
        self.total
    }
}

/// What one `on_data(len)` does to a budget `a`, giving `b`: the limit is
/// kept, the total grows by `len`, and the budget is exceeded once the new
/// total passes the limit, and from then on.
pub open spec fn data_step(a: DecodedBudget, len: u64, b: DecodedBudget) -> bool {
    &&& b.max() == a.max()
    &&& b.spec_total() == a.spec_total() + len
    &&& b.spec_exceeded() == (a.spec_exceeded() || a.spec_total() + len > a.max())
}

/// The sum of the lengths.
pub open spec fn len_sum(lens: Seq<u64>) -> nat
    decreases lens.len(),
{
    if lens.len() == 0 {
        0
    } else {
        len_sum(lens.drop_last()) + lens.last() as nat
    }
}

proof fn lemma_len_sum_grows(lens: Seq<u64>, i: int, j: int)
    requires
        0 <= i <= j <= lens.len(),
    ensures
        len_sum(lens.take(i)) <= len_sum(lens.take(j)),
    decreases j - i,
{
    if i < j {
        lemma_len_sum_grows(lens, i, j - 1);
        assert(lens.take(j).drop_last() == lens.take(j - 1));
    }
}

proof fn lemma_budget_step(max: u64, lens: Seq<u64>, states: Seq<DecodedBudget>, k: int)
    requires
        states.len() == lens.len() + 1,
        states[0].max() == max,
        states[0].spec_total() == 0,
        !states[0].spec_exceeded(),
        forall|m: int| 0 <= m < lens.len() ==> data_step(states[m], #[trigger] lens[m], states[m + 1]),
        0 <= k <= lens.len(),
    ensures
        states[k].max() == max,
        states[k].spec_total() == len_sum(lens.take(k)),
        states[k].spec_exceeded() == (len_sum(lens.take(k)) > max),
    decreases k,
{
    if k == 0 {
        assert(lens.take(0).len() == 0);
    } else {
        lemma_budget_step(max, lens, states, k - 1);
        assert(data_step(states[k - 1], lens[k - 1], states[k]));
        assert(lens.take(k).drop_last() == lens.take(k - 1));
        assert(lens.take(k).last() == lens[k - 1]);
        lemma_len_sum_grows(lens, k - 1, k);
    }
}

/// Over a run of `on_data` calls on a budget made by `new(max)`: after the
/// first `k` of them the total is the sum of their lengths, the budget is
/// exceeded exactly when that sum passes `max`, and once exceeded it stays
/// exceeded. Calls from several threads that share the budget behind a lock
/// (each call takes it by `&mut`) form such a run, in the order the lock
/// grants them.
pub proof fn lemma_budget_run(max: u64, lens: Seq<u64>, states: Seq<DecodedBudget>)
    requires
        states.len() == lens.len() + 1,
        states[0].max() == max,
        states[0].spec_total() == 0,
        !states[0].spec_exceeded(),
        forall|m: int| 0 <= m < lens.len() ==> data_step(states[m], #[trigger] lens[m], states[m + 1]),
    ensures
        forall|k: int|
            0 <= k <= lens.len() ==> (#[trigger] states[k]).spec_total() == len_sum(lens.take(k))
                && states[k].spec_exceeded() == (len_sum(lens.take(k)) > max),
        forall|i: int, j: int|
            0 <= i <= j <= lens.len() && (#[trigger] states[i]).spec_exceeded()
                ==> (#[trigger] states[j]).spec_exceeded(),
{
    assert forall|k: int| 0 <= k <= lens.len() implies (#[trigger] states[k]).spec_total()
        == len_sum(lens.take(k)) && states[k].spec_exceeded() == (len_sum(lens.take(k)) > max) by {
        lemma_budget_step(max, lens, states, k);
    }
    assert forall|i: int, j: int|
        0 <= i <= j <= lens.len() && (#[trigger] states[i]).spec_exceeded() implies (
        #[trigger] states[j]).spec_exceeded() by {
        lemma_budget_step(max, lens, states, i);
        lemma_budget_step(max, lens, states, j);
        lemma_len_sum_grows(lens, i, j);
    }
}

/// How long to sleep before the next poll: `POLL_MS`, or what is left of
/// the cap when that is less.
pub fn poll_sleep_ms(cap_ms: u64, elapsed_ms: u64) -> (r: u64)
    ensures
        r == if cap_ms <= elapsed_ms {
            0
        } else if cap_ms - elapsed_ms < POLL_MS {
            (cap_ms - elapsed_ms) as u64
        } else {
            POLL_MS
        },
{
    if cap_ms <= elapsed_ms {
        0
    } else if cap_ms - elapsed_ms < POLL_MS {
        cap_ms - elapsed_ms
    } else {
        POLL_MS
    }
}

/// Whether the wait ends: at the cap in any case; before it, when the
/// network is idle, the text was stable for `STABLE_POLLS` polls, and it has
/// at least `MIN_TEXT_CHARS` characters.
pub fn should_stop(idle: bool, stable_polls: u32, text_len: usize, elapsed_ms: u64, cap_ms: u64) -> (r:
    bool)
    ensures
        r == (elapsed_ms >= cap_ms || (idle && stable_polls >= STABLE_POLLS && text_len
            >= MIN_TEXT_CHARS)),
{
    if elapsed_ms >= cap_ms {
        return true;
    }
    idle && stable_polls >= STABLE_POLLS && text_len >= MIN_TEXT_CHARS
}

/// A main navigation: a `Document` request of the main frame (with the
/// resource type read as "is a document" and frame ids as text).
pub fn is_main_navigation(is_document: bool, frame_id: &str, main_frame_id: &str) -> (r: bool)
    ensures
        r == (is_document && frame_id@ == main_frame_id@),
{
    is_document && crate::text::same(
        crate::text::chars_of(frame_id).as_slice(),
        crate::text::chars_of(main_frame_id).as_slice(),
    )
}

/// The page's measurements between polls: the last one (element count and
/// visible text length) and how many polls in a row repeated it.
pub struct Stability {
    last: Option<(u64, u64)>,
    stable: u32,
}

impl Stability {
    pub closed spec fn spec_last(self) -> Option<(u64, u64)> {
        self.last
    }

    pub closed spec fn spec_stable(self) -> u32 {
        self.stable
    }

    pub fn new() -> (r: Self)
        ensures
            r.spec_last() is None,
            r.spec_stable() == 0,
    {
        Stability { last: None, stable: 0 }
    }

    /// One poll's measurement, or none when it failed: the same as the last
    /// one counts one more stable poll; a different one, or a failure,
    /// starts the count over (a failure keeps the last measurement).
    pub fn observe(&mut self, m: Option<(u64, u64)>)
        ensures
            final(self).spec_last() == (match m {
                Some(c) => Some(c),
                None => old(self).spec_last(),
            }),
            final(self).spec_stable() == (match m {
                Some(c) => if old(self).spec_last() == Some(c) {
                    if old(self).spec_stable() == u32::MAX {
                        u32::MAX
                    } else {
                        (old(self).spec_stable() + 1) as u32
                    }
                } else {
                    0
                },
                None => 0,
            }),
    {
        match m {
            Some(c) => {
                let same_as_last = match self.last {
                    Some(p) => p.0 == c.0 && p.1 == c.1,
                    None => false,
                };
                if same_as_last {
                    self.stable = self.stable.saturating_add(1);
                } else {
                    self.stable = 0;
                }
                self.last = Some(c);
            },
            None => {
                self.stable = 0;
            },
        }
    }

    /// Stable polls in a row.
    pub fn stable_polls(&self) -> (r: u32)
        ensures
            r == self.spec_stable(),
    {
        self.stable
    }

    /// The last visible text length, 0 before any measurement.
    pub fn text_len(&self) -> (r: usize)
        ensures
            r == (match self.spec_last() {
                Some(c) => c.1 as usize,
                None => 0,
            }),
    {
        match self.last {
            Some(c) => c.1 as usize,
            None => 0,
        }
    }
}

} // verus!
