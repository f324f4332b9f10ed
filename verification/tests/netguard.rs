use webgrab::netguard::{deny_range, ip_string, is_allowed_scheme, is_internal, IpAddress};

fn v4_octets(s: &str) -> [u8; 4] {
    let parts: Vec<u8> = s.split('.').map(|p| p.parse().unwrap()).collect();
    assert_eq!(parts.len(), 4, "bad IPv4 literal {s}");
    [parts[0], parts[1], parts[2], parts[3]]
}

/// An IP literal, as `IpAddr::from_str` reads it (IPv4 dotted, IPv6 with
/// `::` compression and an optional dotted IPv4 tail).
fn ip(s: &str) -> IpAddress {
    if !s.contains(':') {
        return IpAddress::V4(v4_octets(s));
    }
    fn groups(part: &str) -> Vec<u16> {
        let mut out = Vec::new();
        if part.is_empty() {
            return out;
        }
        for g in part.split(':') {
            if g.contains('.') {
                let o = v4_octets(g);
                out.push(u16::from(o[0]) << 8 | u16::from(o[1]));
                out.push(u16::from(o[2]) << 8 | u16::from(o[3]));
            } else {
                out.push(u16::from_str_radix(g, 16).unwrap());
            }
        }
        out
    }
    let mut seg = [0u16; 8];
    match s.split_once("::") {
        Some((head, tail)) => {
            let h = groups(head);
            let t = groups(tail);
            assert!(h.len() + t.len() <= 7, "bad IPv6 literal {s}");
            seg[..h.len()].copy_from_slice(&h);
            seg[8 - t.len()..].copy_from_slice(&t);
        }
        None => {
            let g = groups(s);
            assert_eq!(g.len(), 8, "bad IPv6 literal {s}");
            seg.copy_from_slice(&g);
        }
    }
    IpAddress::V6(seg)
}

#[test]
fn loopback_and_private_denied() {
    assert!(is_internal(ip("127.0.0.1")));
    assert!(is_internal(ip("10.0.0.1")));
    assert!(is_internal(ip("172.16.5.5")));
    assert!(is_internal(ip("192.168.1.1")));
}

#[test]
fn metadata_endpoint_denied() {
    assert!(is_internal(ip("169.254.169.254")));
}

#[test]
fn cgn_and_zero_denied() {
    assert!(is_internal(ip("100.64.0.1")));
    assert!(is_internal(ip("100.100.0.1")));
    assert!(is_internal(ip("0.0.0.0")));
}

#[test]
fn public_v4_allowed() {
    assert!(!is_internal(ip("8.8.8.8")));
    assert!(!is_internal(ip("1.1.1.1")));
    assert!(!is_internal(ip("93.184.216.34")));
    assert!(!is_internal(ip("100.128.0.1")));
}

#[test]
fn ipv6_loopback_unspecified_denied() {
    assert!(is_internal(ip("::1")));
    assert!(is_internal(ip("::")));
}

#[test]
fn ipv6_link_local_and_ula_denied() {
    assert!(is_internal(ip("fe80::1")));
    assert!(is_internal(ip("fc00::1")));
    assert!(is_internal(ip("fd12:3456::1")));
}

#[test]
fn ipv4_mapped_normalized_then_denied() {
    assert!(is_internal(ip("::ffff:10.0.0.1")));
    assert!(is_internal(ip("::ffff:127.0.0.1")));
    assert!(!is_internal(ip("::ffff:8.8.8.8")));
}

#[test]
fn ipv4_compatible_normalized() {
    assert!(!is_internal(ip("::93.184.216.34")));
    assert!(is_internal(ip("::10.0.0.1")));
}

#[test]
fn public_v6_allowed() {
    assert!(!is_internal(ip("2606:4700:4700::1111")));
}

#[test]
fn embedded_v4_transitions_denied() {
    assert!(is_internal(ip("2002:7f00:0001::")));
    assert!(is_internal(ip("2002:0a00:0001::")));
    assert!(is_internal(ip("64:ff9b::7f00:1")));
    assert!(is_internal(ip("64:ff9b::a00:1")));
    assert!(!is_internal(ip("2002:0808:0808::")));
    assert!(!is_internal(ip("64:ff9b::808:808")));
}

#[test]
fn multicast_and_reserved_v4_denied() {
    assert!(is_internal(ip("224.0.0.1")));
    assert!(is_internal(ip("239.255.255.250")));
    assert!(is_internal(ip("240.0.0.1")));
    assert!(is_internal(ip("255.255.255.255")));
}

#[test]
fn multicast_v6_denied() {
    assert!(is_internal(ip("ff02::1")));
}

#[test]
fn deny_range_labels_first_match() {
    assert_eq!(deny_range(ip("127.0.0.1")), Some("loopback"));
    assert_eq!(deny_range(ip("169.254.1.1")), Some("link-local"));
    assert_eq!(deny_range(ip("10.0.0.1")), Some("private"));
    assert_eq!(deny_range(ip("::1")), Some("loopback"));
    assert_eq!(deny_range(ip("fe80::1")), Some("link-local"));
    assert_eq!(deny_range(ip("fc00::1")), Some("ula"));
    assert_eq!(deny_range(ip("8.8.8.8")), None);
    assert_eq!(deny_range(ip("0.0.0.0")), Some("unspecified"));
    assert_eq!(deny_range(ip("224.0.0.1")), Some("multicast"));
    assert_eq!(deny_range(ip("0.1.2.3")), Some("this-network"));
    assert_eq!(deny_range(ip("240.0.0.1")), Some("reserved"));
    assert_eq!(deny_range(ip("255.255.255.255")), Some("reserved"));
    assert_eq!(deny_range(ip("100.64.0.1")), Some("cgn"));
    assert_eq!(deny_range(ip("::")), Some("unspecified"));
    assert_eq!(deny_range(ip("ff02::1")), Some("multicast"));
    assert_eq!(deny_range(ip("2002:7f00:0001::")), Some("embedded-v4"));
    assert_eq!(deny_range(ip("::ffff:10.0.0.1")), Some("private"));
}

#[test]
fn scheme_check() {
    assert!(is_allowed_scheme("http"));
    assert!(is_allowed_scheme("https"));
    assert!(!is_allowed_scheme("file"));
    assert!(!is_allowed_scheme("ftp"));
}

#[test]
fn teredo_client_is_deobfuscated() {
    // Teredo 2001:0::/32: server 65.54.227.120, client 127.0.0.1 XOR 0xffff.
    assert_eq!(
        deny_range(ip("2001:0:4136:e378:8000:63bf:80ff:fffe")),
        Some("embedded-v4")
    );
    // Public server and public client: allowed.
    assert_eq!(deny_range(ip("2001:0:4136:e378:8000:63bf:f7f7:f7f7")), None);
}

#[test]
fn mapped_form_keeps_the_ipv4_label() {
    for v4 in ["127.0.0.1", "169.254.169.254", "100.64.0.1", "8.8.8.8", "0.1.2.3"] {
        let mapped = format!("::ffff:{v4}");
        assert_eq!(deny_range(ip(&mapped)), deny_range(ip(v4)), "{mapped}");
    }
}

#[test]
fn private_172_range_is_exactly_16_to_31() {
    assert_eq!(deny_range(ip("172.15.255.255")), None);
    assert_eq!(deny_range(ip("172.16.0.0")), Some("private"));
    assert_eq!(deny_range(ip("172.31.255.255")), Some("private"));
    assert_eq!(deny_range(ip("172.32.0.0")), None);
    assert!(!is_allowed_scheme("HTTP"));
}

#[test]
fn ip_text_forms() {
    assert_eq!(ip_string(ip("169.254.169.254")), "169.254.169.254");
    assert_eq!(ip_string(ip("0.0.0.0")), "0.0.0.0");
    assert_eq!(ip_string(ip("::")), "::");
    assert_eq!(ip_string(ip("::1")), "::1");
    assert_eq!(ip_string(ip("fe80::1")), "fe80::1");
    assert_eq!(ip_string(ip("::ffff:10.0.0.1")), "::ffff:10.0.0.1");
    assert_eq!(ip_string(ip("2001:db8:0:0:1:0:0:1")), "2001:db8::1:0:0:1");
    assert_eq!(ip_string(ip("2001:db8:0:1:1:1:1:1")), "2001:db8:0:1:1:1:1:1");
    assert_eq!(ip_string(ip("2001:DB8:0:0:0:0:0:AbCd")), "2001:db8::abcd");
    assert_eq!(ip_string(ip("1:0:0:2:0:0:0:3")), "1:0:0:2::3");
    assert_eq!(ip_string(ip("0:0:1:0:0:0:0:0")), "0:0:1::");
}
