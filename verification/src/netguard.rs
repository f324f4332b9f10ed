//! SSRF guard: which IP addresses are internal, and under which range label.
//!
//! Resolving host names and pinning the address stay with the caller; this
//! module decides, for a given address, whether fetching it must be refused.
use crate::text::{chars_of, decimal, push_decimal, same, string_of};
use vstd::prelude::*;

verus! {

broadcast use vstd::string::group_string_axioms;

/// An IP address: four octets, or eight 16-bit segments.
#[derive(Debug, Clone, Copy, PartialEq, Eq)]
pub enum IpAddress {
    V4([u8; 4]),
    V6([u16; 8]),
}

/// An optional label, by its view.
pub open spec fn label_view(r: Option<&'static str>) -> Option<Seq<char>> {
    match r {
        Some(l) => Some(l@),
        None => None,
    }
}

/// The octets held by two segments.
pub open spec fn octets_of(hi: u16, lo: u16) -> [u8; 4] {
    [(hi / 256) as u8, (hi % 256) as u8, (lo / 256) as u8, (lo % 256) as u8]
}

/// `::ffff:a.b.c.d` (IPv4-mapped).
pub open spec fn is_mapped(s: [u16; 8]) -> bool {
    s[0] == 0 && s[1] == 0 && s[2] == 0 && s[3] == 0 && s[4] == 0 && s[5] == 0xffff
}

/// `::a.b.c.d` (IPv4-compatible); `::1` and `::` stay IPv6.
pub open spec fn is_compatible(s: [u16; 8]) -> bool {
    s[0] == 0 && s[1] == 0 && s[2] == 0 && s[3] == 0 && s[4] == 0 && s[5] == 0 && s[6] != 0
}

/// IPv4-mapped and IPv4-compatible IPv6 addresses are read as the IPv4
/// address they carry; every other address is left as it is.
pub open spec fn normalized(ip: IpAddress) -> IpAddress {
    match ip {
        IpAddress::V6(s) => if is_mapped(s) || is_compatible(s) {
            IpAddress::V4(octets_of(s[6], s[7]))
        } else {
            ip
        },
        IpAddress::V4(_) => ip,
    }
}

/// The first denied IPv4 range that holds `o`.
pub open spec fn deny_v4(o: [u8; 4]) -> Option<Seq<char>> {
    if o[0] == 127 {
        Some("loopback"@)
    } else if o[0] == 169 && o[1] == 254 {
        Some("link-local"@)
    } else if o[0] == 10 || (o[0] == 172 && 16 <= o[1] <= 31) || (o[0] == 192 && o[1] == 168) {
        Some("private"@)
    } else if o[0] == 0 && o[1] == 0 && o[2] == 0 && o[3] == 0 {
        Some("unspecified"@)
    } else if 224 <= o[0] <= 239 {
        Some("multicast"@)
    } else if o[0] == 0 {
        Some("this-network"@)
    } else if o[0] >= 240 {
        Some("reserved"@)
    } else if o[0] == 100 && 64 <= o[1] <= 127 {
        Some("cgn"@)
    } else {
        None
    }
}

/// The IPv4 addresses embedded in IPv6 transition addresses: 6to4
/// (`2002::/16`), the NAT64 well-known prefix (`64:ff9b::/96`) and Teredo
/// (`2001:0::/32`, server and de-obfuscated client).
pub open spec fn embedded(s: [u16; 8]) -> Seq<[u8; 4]> {
    let six_to_four: Seq<[u8; 4]> = if s[0] == 0x2002 {
        seq![octets_of(s[1], s[2])]
    } else {
        Seq::empty()
    };
    let nat64: Seq<[u8; 4]> = if s[0] == 0x64 && s[1] == 0xff9b {
        seq![octets_of(s[6], s[7])]
    } else {
        Seq::empty()
    };
    let teredo: Seq<[u8; 4]> = if s[0] == 0x2001 && s[1] == 0 {
        seq![octets_of(s[2], s[3]), octets_of((0xffff - s[6]) as u16, (0xffff - s[7]) as u16)]
    } else {
        Seq::empty()
    };
    six_to_four + nat64 + teredo
}

/// Some embedded IPv4 address lies in a denied range.
pub open spec fn embeds_denied(s: [u16; 8]) -> bool {
    exists|i: int| 0 <= i < embedded(s).len() && (#[trigger] deny_v4(embedded(s)[i])) is Some
}

/// The first denied IPv6 range that holds `s`.
pub open spec fn deny_v6(s: [u16; 8]) -> Option<Seq<char>> {
    let zero6 = s[0] == 0 && s[1] == 0 && s[2] == 0 && s[3] == 0 && s[4] == 0 && s[5] == 0
        && s[6] == 0;
    if zero6 && s[7] == 1 {
        Some("loopback"@)
    } else if zero6 && s[7] == 0 {
        Some("unspecified"@)
    } else if s[0] >= 0xff00 {
        Some("multicast"@)
    } else if 0xfe80 <= s[0] <= 0xfebf {
        Some("link-local"@)
    } else if 0xfc00 <= s[0] <= 0xfdff {
        Some("ula"@)
    } else if embeds_denied(s) {
        Some("embedded-v4"@)
    } else {
        None
    }
}

/// The label of the first denied range that holds `ip`, after normalization.
pub open spec fn deny(ip: IpAddress) -> Option<Seq<char>> {
    match normalized(ip) {
        IpAddress::V4(o) => deny_v4(o),
        IpAddress::V6(s) => deny_v6(s),
    }
}

fn octets(hi: u16, lo: u16) -> (r: [u8; 4])
    ensures
        r == octets_of(hi, lo),
{
    [(hi / 256) as u8, (hi % 256) as u8, (lo / 256) as u8, (lo % 256) as u8]
}

fn normalize(ip: IpAddress) -> (r: IpAddress)
    ensures
        r == normalized(ip),
{
    match ip {
        IpAddress::V6(s) => {
            let zero5 = s[0] == 0 && s[1] == 0 && s[2] == 0 && s[3] == 0 && s[4] == 0;
            if zero5 && (s[5] == 0xffff || (s[5] == 0 && s[6] != 0)) {
                IpAddress::V4(octets(s[6], s[7]))
            } else {
                ip
            }
        },
        IpAddress::V4(_) => ip,
    }
}

fn deny_range_v4(o: [u8; 4]) -> (r: Option<&'static str>)
    ensures
        label_view(r) == deny_v4(o),
{
    if o[0] == 127 {
        Some("loopback")
    } else if o[0] == 169 && o[1] == 254 {
        Some("link-local")
    } else if o[0] == 10 || (o[0] == 172 && 16 <= o[1] && o[1] <= 31) || (o[0] == 192 && o[1]
        == 168) {
        Some("private")
    } else if o[0] == 0 && o[1] == 0 && o[2] == 0 && o[3] == 0 {
        Some("unspecified")
    } else if 224 <= o[0] && o[0] <= 239 {
        Some("multicast")
    } else if o[0] == 0 {
        Some("this-network")
    } else if o[0] >= 240 {
        Some("reserved")
    } else if o[0] == 100 && 64 <= o[1] && o[1] <= 127 {
        Some("cgn")
    } else {
        None
    }
}

fn embedded_v4(s: [u16; 8]) -> (r: Vec<[u8; 4]>)
    ensures
        r@ == embedded(s),
{
    let mut out: Vec<[u8; 4]> = Vec::new();
    if s[0] == 0x2002 {
        out.push(octets(s[1], s[2]));
    }
    if s[0] == 0x64 && s[1] == 0xff9b {
        out.push(octets(s[6], s[7]));
    }
    if s[0] == 0x2001 && s[1] == 0 {
        out.push(octets(s[2], s[3]));
        out.push(octets(0xffff - s[6], 0xffff - s[7]));
    }
    out
}

fn any_embedded_denied(s: [u16; 8]) -> (r: bool)
    ensures
        r == embeds_denied(s),
{
    let v = embedded_v4(s);
    let mut i: usize = 0;
    while i < v.len()
        invariant
            v@ == embedded(s),
            i <= v.len(),
            forall|j: int| 0 <= j < i ==> (#[trigger] deny_v4(embedded(s)[j])) is None,
        decreases v.len() - i,
    {
        if deny_range_v4(v[i]).is_some() {
            assert(deny_v4(embedded(s)[i as int]) is Some);
            return true;
        }
        i = i + 1;
    }
    false
}

fn deny_range_v6(s: [u16; 8]) -> (r: Option<&'static str>)
    ensures
        label_view(r) == deny_v6(s),
{
    let zero6 = s[0] == 0 && s[1] == 0 && s[2] == 0 && s[3] == 0 && s[4] == 0 && s[5] == 0
        && s[6] == 0;
    if zero6 && s[7] == 1 {
        Some("loopback")
    } else if zero6 && s[7] == 0 {
        Some("unspecified")
    } else if s[0] >= 0xff00 {
        Some("multicast")
    } else if 0xfe80 <= s[0] && s[0] <= 0xfebf {
        Some("link-local")
    } else if 0xfc00 <= s[0] && s[0] <= 0xfdff {
        Some("ula")
    } else if any_embedded_denied(s) {
        Some("embedded-v4")
    } else {
        None
    }
}

/// The label of the first denied range that holds `ip` (for the `range=`
/// token), or `None` where fetching it is allowed. IPv4-mapped and
/// IPv4-compatible addresses are normalized first.
pub fn deny_range(ip: IpAddress) -> (r: Option<&'static str>)
    ensures
        label_view(r) == deny(ip),
{
    match normalize(ip) {
        IpAddress::V4(o) => deny_range_v4(o),
        IpAddress::V6(s) => deny_range_v6(s),
    }
}

/// The address is internal: fetching it must be refused.
pub fn is_internal(ip: IpAddress) -> (r: bool)
    ensures
        r == deny(ip) is Some,
{
    deny_range(ip).is_some()
}

/// The URL scheme is `http` or `https`.
pub fn is_allowed_scheme(scheme: &str) -> (r: bool)
    ensures
        r == (scheme@ == "http"@ || scheme@ == "https"@),
{
    let s = chars_of(scheme);
    let http = chars_of("http");
    let https = chars_of("https");
    same(s.as_slice(), http.as_slice()) || same(s.as_slice(), https.as_slice())
}

/// An IPv4 address written as IPv4-mapped IPv6 (`::ffff:a.b.c.d`) gets the
/// same verdict, and the same label, as the IPv4 address itself.
pub proof fn lemma_mapped_same_verdict(o: [u8; 4])
    ensures
        deny(
            IpAddress::V6(
                [0, 0, 0, 0, 0, 0xffff, (o[0] * 256 + o[1]) as u16, (o[2] * 256 + o[3]) as u16],
            ),
        ) == deny(IpAddress::V4(o)),
{
    let s: [u16; 8] = [0, 0, 0, 0, 0, 0xffff, (o[0] * 256 + o[1]) as u16, (o[2] * 256 + o[3]) as u16];
    assert(octets_of(s[6], s[7]) =~= o);
}

/// The same holds of the IPv4-compatible form (`::a.b.c.d`) whenever its
/// upper two octets are not both zero.
pub proof fn lemma_compatible_same_verdict(o: [u8; 4])
    requires
        o[0] != 0 || o[1] != 0,
    ensures
        deny(
            IpAddress::V6(
                [0, 0, 0, 0, 0, 0, (o[0] * 256 + o[1]) as u16, (o[2] * 256 + o[3]) as u16],
            ),
        ) == deny(IpAddress::V4(o)),
{
    let s: [u16; 8] = [0, 0, 0, 0, 0, 0, (o[0] * 256 + o[1]) as u16, (o[2] * 256 + o[3]) as u16];
    assert(octets_of(s[6], s[7]) =~= o);
}

// ---------------------------------------------------------------- text form

/// The lowercase hexadecimal digit for `d < 16`.
pub open spec fn hex_digit(d: nat) -> char {
    if d < 10 {
        ((d + 48) as u32) as char
    } else {
        ((d + 87) as u32) as char
    }
}

/// Lowercase hexadecimal, without leading zeros.
pub open spec fn hex(n: nat) -> Seq<char>
    decreases n,
{
    if n < 16 {
        seq![hex_digit(n)]
    } else {
        hex(n / 16).push(hex_digit(n % 16))
    }
}

/// `a.b.c.d`.
pub open spec fn v4_text(o: [u8; 4]) -> Seq<char> {
    decimal(o[0] as nat) + seq!['.'] + decimal(o[1] as nat) + seq!['.'] + decimal(o[2] as nat)
        + seq!['.'] + decimal(o[3] as nat)
}

/// Segments in hexadecimal, separated by `:`.
pub open spec fn groups_text(s: Seq<u16>) -> Seq<char>
    decreases s.len(),
{
    if s.len() == 0 {
        Seq::empty()
    } else if s.len() == 1 {
        hex(s[0] as nat)
    } else {
        groups_text(s.drop_last()) + seq![':'] + hex(s.last() as nat)
    }
}

/// The number of zero segments from `i` on, up to the first non-zero one.
pub open spec fn run_len(s: Seq<u16>, i: int) -> nat
    decreases s.len() - i,
{
    if 0 <= i < s.len() && s[i] == 0 {
        1 + run_len(s, i + 1)
    } else {
        0
    }
}

/// Among the first `k` positions, the start of the longest run of zero
/// segments; the leftmost one on a tie.
pub open spec fn best_start(s: Seq<u16>, k: nat) -> int
    decreases k,
{
    if k == 0 {
        0
    } else {
        let b = best_start(s, (k - 1) as nat);
        if run_len(s, k - 1) > run_len(s, b) {
            k - 1
        } else {
            b
        }
    }
}

/// The text form of an IPv6 address (RFC 5952): lowercase hexadecimal
/// segments without leading zeros, the leftmost longest run of two or more
/// zero segments written `::`, and an IPv4-mapped address as `::ffff:a.b.c.d`.
pub open spec fn v6_text(s: [u16; 8]) -> Seq<char> {
    if is_mapped(s) {
        seq![':', ':', 'f', 'f', 'f', 'f', ':'] + v4_text(octets_of(s[6], s[7]))
    } else {
        let b = best_start(s@, 8);
        let n = run_len(s@, b);
        if n >= 2 {
            groups_text(s@.subrange(0, b)) + seq![':', ':'] + groups_text(
                s@.subrange(b + n, 8),
            )
        } else {
            groups_text(s@)
        }
    }
}

/// The text form of an address.
pub open spec fn ip_text(ip: IpAddress) -> Seq<char> {
    match ip {
        IpAddress::V4(o) => v4_text(o),
        IpAddress::V6(s) => v6_text(s),
    }
}

fn push_hex(v: &mut Vec<char>, n: u16)
    ensures
        final(v)@ == old(v)@ + hex(n as nat),
    decreases n,
{
    if n >= 16 {
        push_hex(v, n / 16);
    }
    let d = (n % 16) as u8;
    let c = if d < 10 {
        (d + 48) as char
    } else {
        (d + 87) as char
    };
    v.push(c);
    proof {
        if n >= 16 {
            assert(hex(n as nat) == hex((n / 16) as nat).push(hex_digit((n % 16) as nat)));
        }
    }
}

fn push_v4(v: &mut Vec<char>, o: [u8; 4])
    ensures
        final(v)@ == old(v)@ + v4_text(o),
{
    let ghost v0 = v@;
    push_decimal(v, o[0] as u64);
    v.push('.');
    push_decimal(v, o[1] as u64);
    v.push('.');
    push_decimal(v, o[2] as u64);
    v.push('.');
    push_decimal(v, o[3] as u64);
    assert(v@ =~= v0 + v4_text(o));
}

fn push_groups(v: &mut Vec<char>, s: &[u16; 8], lo: usize, hi: usize)
    requires
        lo <= hi <= 8,
    ensures
        final(v)@ == old(v)@ + groups_text(s@.subrange(lo as int, hi as int)),
{
    let ghost v0 = v@;
    let mut i = lo;
    assert(s@.subrange(lo as int, lo as int) =~= Seq::<u16>::empty());
    while i < hi
        invariant
            lo <= i <= hi <= 8,
            v@ == v0 + groups_text(s@.subrange(lo as int, i as int)),
        decreases hi - i,
    {
        let ghost before = v@;
        if i > lo {
            v.push(':');
        }
        push_hex(v, s[i]);
        proof {
            let t = s@.subrange(lo as int, i + 1);
            assert(t.drop_last() =~= s@.subrange(lo as int, i as int));
            assert(t.last() == s@[i as int]);
            if i > lo {
                assert(v@ =~= v0 + groups_text(t));
            } else {
                assert(s@.subrange(lo as int, i as int).len() == 0);
                assert(v@ =~= v0 + groups_text(t));
            }
        }
        i = i + 1;
    }
}

fn zero_run(s: &[u16; 8], i: usize) -> (r: usize)
    requires
        i <= 8,
    ensures
        r == run_len(s@, i as int),
        r <= 8 - i,
    decreases 8 - i,
{
    if i < 8 && s[i] == 0 {
        1 + zero_run(s, i + 1)
    } else {
        0
    }
}

fn push_v6(v: &mut Vec<char>, s: [u16; 8])
    ensures
        final(v)@ == old(v)@ + v6_text(s),
{
    let ghost v0 = v@;
    if s[0] == 0 && s[1] == 0 && s[2] == 0 && s[3] == 0 && s[4] == 0 && s[5] == 0xffff {
        v.push(':');
        v.push(':');
        v.push('f');
        v.push('f');
        v.push('f');
        v.push('f');
        v.push(':');
        let o: [u8; 4] = [(s[6] / 256) as u8, (s[6] % 256) as u8, (s[7] / 256) as u8, (s[7] % 256) as u8];
        assert(o =~= octets_of(s[6], s[7]));
        push_v4(v, o);
        assert(v@ =~= v0 + v6_text(s));
        return;
    }
    let mut b: usize = 0;
    let mut k: usize = 0;
    while k < 8
        invariant
            k <= 8,
            b < 8,
            b == best_start(s@, k as nat),
        decreases 8 - k,
    {
        if zero_run(&s, k) > zero_run(&s, b) {
            b = k;
        }
        k = k + 1;
    }
    let n = zero_run(&s, b);
    if n >= 2 {
        push_groups(v, &s, 0, b);
        v.push(':');
        v.push(':');
        push_groups(v, &s, b + n, 8);
    } else {
        push_groups(v, &s, 0, 8);
        assert(s@.subrange(0, 8) =~= s@);
    }
    assert(v@ =~= v0 + v6_text(s));
}

/// The address in its usual text form.
pub fn ip_string(ip: IpAddress) -> (r: String)
    ensures
        r@ == ip_text(ip),
{
    let mut v: Vec<char> = Vec::new();
    match ip {
        IpAddress::V4(o) => push_v4(&mut v, o),
        IpAddress::V6(s) => push_v6(&mut v, s),
    }
    string_of(v.as_slice())
}

} // verus!
