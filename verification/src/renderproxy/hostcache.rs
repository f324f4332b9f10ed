//! The per-run cache of host verdicts that the intercept layer and the proxy
//! share, and the verdict on the addresses a host resolved to. Resolving
//! names, waiting on a pending resolution and locking stay with the caller.
use crate::fetch::first_internal;
use crate::netguard::{deny, deny_range, IpAddress};
use crate::text::{chars_of, lower_seq, lowered, string_of};
use vstd::prelude::*;

verus! {

broadcast use vstd::string::group_string_axioms;

/// The cache never holds more hosts than this: a page that asks for endless
/// subdomains cannot grow it without bound.
pub const MAX_CACHED_HOSTS: usize = 4096;

/// The time limit of one resolution, in milliseconds; over it the host is
/// refused.
pub const RESOLVE_TIMEOUT_MS: u64 = 2000;

/// What resolving a host gave, after the SSRF guard. A refusal keeps the
/// address and the range label, for the detail line of exit code 8.
#[derive(Debug, Clone, Copy, PartialEq, Eq)]
pub enum Resolution {
    /// The first resolved address, with the port.
    Allowed { ip: IpAddress, port: u16 },
    /// A resolved address in a denied range.
    Denied { ip: IpAddress, range: &'static str },
    /// The name did not resolve, or resolved to nothing.
    Unresolved,
    /// Resolution took longer than `RESOLVE_TIMEOUT_MS`.
    Timeout,
}

/// The verdict on the addresses a host resolved to: nothing is unresolved;
/// unless private addresses are allowed, the first address in a denied range
/// refuses the host; otherwise the first address is the one to connect to.
pub fn classify(addrs: &[IpAddress], port: u16, allow_private: bool) -> (r: Resolution)
    ensures
        addrs@.len() == 0 ==> r is Unresolved,
        addrs@.len() > 0 && (allow_private || forall|j: int|
            0 <= j < addrs@.len() ==> deny(#[trigger] addrs@[j]) is None) ==> r
            == (Resolution::Allowed { ip: addrs@[0], port }),
        addrs@.len() > 0 && !allow_private && (exists|j: int|
            0 <= j < addrs@.len() && deny(#[trigger] addrs@[j]) is Some) ==> (r matches Resolution::Denied {
            ip,
            range,
        } && exists|i: int|
            0 <= i < addrs@.len() && ip == addrs@[i] && deny(ip) == Some(range@) && forall|j: int|
                0 <= j < i ==> deny(#[trigger] addrs@[j]) is None),
{
    if addrs.len() == 0 {
        return Resolution::Unresolved;
    }
    if !allow_private {
        match first_internal(addrs) {
            Some(i) => {
                let ip = addrs[i];
                match deny_range(ip) {
                    Some(range) => {
                        return Resolution::Denied { ip, range };
                    },
                    None => {},
                }
            },
            None => {},
        }
    }
    Resolution::Allowed { ip: addrs[0], port }
}

// ---------------------------------------------------------------- the cache

/// Entry `i` holds the key `(h, p)`.
pub open spec fn holds_key<T>(s: Seq<(Seq<char>, u16, T)>, i: int, h: Seq<char>, p: u16) -> bool {
    0 <= i < s.len() && s[i].0 == h && s[i].1 == p
}

/// No key occurs twice.
pub open spec fn unique_keys<T>(s: Seq<(Seq<char>, u16, T)>) -> bool {
    forall|i: int, j: int|
        #![trigger s[i], s[j]]
        0 <= i < s.len() && 0 <= j < s.len() && s[i].0 == s[j].0 && s[i].1 == s[j].1 ==> i == j
}

/// The value stored under `(h, p)`.
pub open spec fn lookup<T>(s: Seq<(Seq<char>, u16, T)>, h: Seq<char>, p: u16) -> Option<T> {
    if exists|i: int| holds_key(s, i, h, p) {
        Some(s[choose|i: int| holds_key(s, i, h, p)].2)
    } else {
        None
    }
}

/// The entries after storing `v` under `(h, p)`: a stored key keeps its
/// place and takes the new value; a new key goes last, and when that makes
/// one entry too many the oldest entry goes.
pub open spec fn inserted<T>(s: Seq<(Seq<char>, u16, T)>, h: Seq<char>, p: u16, v: T) -> Seq<
    (Seq<char>, u16, T),
> {
    if exists|i: int| holds_key(s, i, h, p) {
        s.update(choose|i: int| holds_key(s, i, h, p), (h, p, v))
    } else if s.len() + 1 > MAX_CACHED_HOSTS {
        s.push((h, p, v)).drop_first()
    } else {
        s.push((h, p, v))
    }
}

/// Storing a key that was not there, in a full cache, drops the oldest entry.
pub open spec fn evicts<T>(s: Seq<(Seq<char>, u16, T)>, h: Seq<char>, p: u16) -> bool {
    !(exists|i: int| holds_key(s, i, h, p)) && s.len() + 1 > MAX_CACHED_HOSTS
}

/// Host verdicts (or resolutions still pending) by lowercased host and port,
/// oldest first.
pub struct Cache<T> {
    entries: Vec<(String, u16, T)>,
}

impl<T> View for Cache<T> {
    type V = Seq<(Seq<char>, u16, T)>;

    closed spec fn view(&self) -> Seq<(Seq<char>, u16, T)> {
        self.entries@.map_values(|e: (String, u16, T)| (e.0@, e.1, e.2))
    }
}

/// The key of a host: its ASCII lowercase form.
fn key_of(host: &str) -> (r: String)
    ensures
        r@ == lower_seq(host@),
{
    let low = lowered(chars_of(host).as_slice());
    string_of(low.as_slice())
}

impl<T> Cache<T> {
    /// At most `MAX_CACHED_HOSTS` entries, no key twice.
    pub open spec fn wf(&self) -> bool {
        self@.len() <= MAX_CACHED_HOSTS && unique_keys(self@)
    }

    pub fn new() -> (r: Self)
        ensures
            r.wf(),
            r@ == Seq::<(Seq<char>, u16, T)>::empty(),
    {
        let r = Cache { entries: Vec::new() };
        assert(r@ =~= Seq::<(Seq<char>, u16, T)>::empty());
        r
    }

    /// Number of hosts cached so far.
    pub fn cached_len(&self) -> (r: usize)
        ensures
            r == self@.len(),
    {
        self.entries.len()
    }

    /// The index of the entry with the key `(key, port)`.
    fn find(&self, key: &String, port: u16) -> (r: Option<usize>)
        ensures
            match r {
                Some(i) => holds_key(self@, i as int, key@, port),
                None => forall|i: int| !holds_key(self@, i, key@, port),
            },
    {
        let mut i: usize = 0;
        while i < self.entries.len()
            invariant
                i <= self.entries@.len(),
                self@.len() == self.entries@.len(),
                forall|j: int| 0 <= j < i ==> !holds_key(self@, j, key@, port),
            decreases self.entries.len() - i,
        {
            let e = &self.entries[i];
            assert(self@[i as int] == (e.0@, e.1, e.2));
            if e.0 == *key && e.1 == port {
                return Some(i);
            }
            i = i + 1;
        }
        None
    }

    /// What is stored for `host` (ASCII case ignored) and `port`.
    pub fn get(&self, host: &str, port: u16) -> (r: Option<&T>)
        requires
            self.wf(),
        ensures
            match r {
                Some(x) => lookup(self@, lower_seq(host@), port) == Some(*x),
                None => lookup(self@, lower_seq(host@), port) is None,
            },
    {
        let key = key_of(host);
        match self.find(&key, port) {
            Some(i) => {
                let e = &self.entries[i];
                assert(self@[i as int].2 == e.2);
                let ghost c = choose|j: int| holds_key(self@, j, key@, port);
                assert(holds_key(self@, c, key@, port));
                assert(self@[c].0 == self@[i as int].0 && self@[c].1 == self@[i as int].1);
                Some(&e.2)
            },
            None => None,
        }
    }

    /// Stores `v` for `host` (ASCII case ignored) and `port`, keeping the
    /// cache within `MAX_CACHED_HOSTS` by dropping the oldest entry.
    pub fn insert_bounded(&mut self, host: &str, port: u16, v: T)
        requires
            old(self).wf(),
        ensures
            final(self).wf(),
            final(self)@ == inserted(old(self)@, lower_seq(host@), port, v),
    {
        let key = key_of(host);
        let ghost h = key@;
        let ghost s0 = self@;
        match self.find(&key, port) {
            Some(i) => {
                let ghost c = choose|j: int| holds_key(s0, j, h, port);
                assert(holds_key(s0, c, h, port));
                assert(c == i as int);
                self.entries.set(i, (key, port, v));
                assert(self@ =~= s0.update(i as int, (h, port, v)));
            },
            None => {
                self.entries.push((key, port, v));
                assert(self@ =~= s0.push((h, port, v)));
                if self.entries.len() > MAX_CACHED_HOSTS {
                    let ghost before = self@;
                    let _old = self.entries.remove(0);
                    assert(self@ =~= before.drop_first());
                }
            },
        }
        proof {
            lemma_insert_wf(s0, h, port, v);
        }
    }
}

/// Storing keeps the cache within its bound and its keys unique.
pub proof fn lemma_insert_wf<T>(s: Seq<(Seq<char>, u16, T)>, h: Seq<char>, p: u16, v: T)
    requires
        s.len() <= MAX_CACHED_HOSTS,
        unique_keys(s),
    ensures
        inserted(s, h, p, v).len() <= MAX_CACHED_HOSTS,
        unique_keys(inserted(s, h, p, v)),
{
    let t = inserted(s, h, p, v);
    if exists|i: int| holds_key(s, i, h, p) {
        let c = choose|i: int| holds_key(s, i, h, p);
        assert forall|i: int, j: int|
            0 <= i < t.len() && 0 <= j < t.len() && t[i].0 == t[j].0 && t[i].1 == t[j].1 implies i
            == j by {
            assert(s[c].0 == h && s[c].1 == p);
            if i != c && j != c {
                assert(s[i] == t[i] && s[j] == t[j]);
            } else if i == c && j != c {
                assert(s[j] == t[j]);
                assert(s[c].0 == s[j].0 && s[c].1 == s[j].1);
            } else if i != c && j == c {
                assert(s[i] == t[i]);
                assert(s[c].0 == s[i].0 && s[c].1 == s[i].1);
            }
        }
    } else {
        let a = s.push((h, p, v));
        assert forall|i: int, j: int|
            0 <= i < a.len() && 0 <= j < a.len() && a[i].0 == a[j].0 && a[i].1 == a[j].1 implies i
            == j by {
            if i < s.len() && j < s.len() {
                assert(a[i] == s[i] && a[j] == s[j]);
            } else if i < s.len() {
                assert(a[i] == s[i]);
                assert(!holds_key(s, i, h, p));
            } else if j < s.len() {
                assert(a[j] == s[j]);
                assert(!holds_key(s, j, h, p));
            }
        }
        if s.len() + 1 > MAX_CACHED_HOSTS {
            assert forall|i: int, j: int|
                0 <= i < t.len() && 0 <= j < t.len() && t[i].0 == t[j].0 && t[i].1 == t[j].1 implies i
                == j by {
                assert(t[i] == a[i + 1] && t[j] == a[j + 1]);
            }
        }
    }
}

/// What one stores, a read gives back: after storing `v` under a key, the
/// key reads `v`.
pub proof fn lemma_read_after_insert<T>(s: Seq<(Seq<char>, u16, T)>, h: Seq<char>, p: u16, v: T)
    requires
        s.len() <= MAX_CACHED_HOSTS,
        unique_keys(s),
    ensures
        lookup(inserted(s, h, p, v), h, p) == Some(v),
{
    lemma_insert_wf(s, h, p, v);
    let t = inserted(s, h, p, v);
    if exists|i: int| holds_key(s, i, h, p) {
        let c = choose|i: int| holds_key(s, i, h, p);
        assert(holds_key(t, c, h, p));
        let d = choose|i: int| holds_key(t, i, h, p);
        assert(holds_key(t, d, h, p));
        assert(t[c].0 == t[d].0 && t[c].1 == t[d].1);
    } else {
        let k = t.len() - 1;
        assert(holds_key(t, k, h, p));
        let d = choose|i: int| holds_key(t, i, h, p);
        assert(holds_key(t, d, h, p));
        assert(t[k].0 == t[d].0 && t[k].1 == t[d].1);
    }
}

/// Storing under one key leaves every other key as it was, except the
/// oldest key when a new key fills a full cache: that key is gone.
pub proof fn lemma_insert_keeps_others<T>(
    s: Seq<(Seq<char>, u16, T)>,
    h: Seq<char>,
    p: u16,
    v: T,
    h2: Seq<char>,
    p2: u16,
)
    requires
        s.len() <= MAX_CACHED_HOSTS,
        unique_keys(s),
        h2 != h || p2 != p,
    ensures
        !(evicts(s, h, p) && holds_key(s, 0, h2, p2)) ==> lookup(inserted(s, h, p, v), h2, p2)
            == lookup(s, h2, p2),
        evicts(s, h, p) && holds_key(s, 0, h2, p2) ==> lookup(inserted(s, h, p, v), h2, p2) is None,
{
    lemma_insert_wf(s, h, p, v);
    let t = inserted(s, h, p, v);
    if exists|i: int| holds_key(s, i, h, p) {
        let c = choose|i: int| holds_key(s, i, h, p);
        assert forall|i: int| holds_key(t, i, h2, p2) <==> holds_key(s, i, h2, p2) by {
            if 0 <= i < s.len() && i != c {
                assert(t[i] == s[i]);
            }
        }
        if exists|i: int| holds_key(s, i, h2, p2) {
            let a = choose|i: int| holds_key(s, i, h2, p2);
            let b = choose|i: int| holds_key(t, i, h2, p2);
            assert(holds_key(t, a, h2, p2));
            assert(holds_key(t, b, h2, p2));
            assert(t[a].0 == t[b].0 && t[a].1 == t[b].1);
            assert(t[a] == s[a]);
        }
    } else {
        let a = s.push((h, p, v));
        if s.len() + 1 > MAX_CACHED_HOSTS {
            if holds_key(s, 0, h2, p2) {
                assert forall|i: int| !holds_key(t, i, h2, p2) by {
                    if holds_key(t, i, h2, p2) {
                        assert(t[i] == a[i + 1]);
                        if i + 1 < s.len() {
                            assert(s[i + 1] == a[i + 1]);
                            assert(s[0].0 == s[i + 1].0 && s[0].1 == s[i + 1].1);
                        }
                    }
                }
            } else {
                assert forall|i: int| holds_key(t, i, h2, p2) <==> holds_key(s, i + 1, h2, p2) by {
                    if 0 <= i < t.len() {
                        assert(t[i] == a[i + 1]);
                        if i + 1 < s.len() {
                            assert(a[i + 1] == s[i + 1]);
                        }
                    }
                }
                if exists|i: int| holds_key(s, i, h2, p2) {
                    let w = choose|i: int| holds_key(s, i, h2, p2);
                    assert(w != 0);
                    assert(holds_key(t, w - 1, h2, p2));
                    let b = choose|i: int| holds_key(t, i, h2, p2);
                    assert(holds_key(s, b + 1, h2, p2));
                    assert(s[w].0 == s[b + 1].0 && s[w].1 == s[b + 1].1);
                    assert(t[b] == s[b + 1]);
                } else {
                    assert forall|i: int| !holds_key(t, i, h2, p2) by {
                        if holds_key(t, i, h2, p2) {
                            assert(holds_key(s, i + 1, h2, p2));
                        }
                    }
                }
            }
        } else {
            assert forall|i: int| holds_key(t, i, h2, p2) <==> holds_key(s, i, h2, p2) by {
                if 0 <= i < s.len() {
                    assert(t[i] == s[i]);
                }
            }
            if exists|i: int| holds_key(s, i, h2, p2) {
                let w = choose|i: int| holds_key(s, i, h2, p2);
                let b = choose|i: int| holds_key(t, i, h2, p2);
                assert(holds_key(t, w, h2, p2));
                assert(holds_key(t, b, h2, p2));
                assert(holds_key(s, b, h2, p2));
                assert(s[w].0 == s[b].0 && s[w].1 == s[b].1);
                assert(t[b] == s[b]);
            }
        }
    }
}

} // verus!
