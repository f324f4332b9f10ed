use webgrab::netguard::IpAddress;
use webgrab::renderproxy::hostcache::{classify, Cache, Resolution, MAX_CACHED_HOSTS};

#[test]
fn classify_refuses_first_internal_address() {
    let public = IpAddress::V4([93, 184, 216, 34]);
    let meta = IpAddress::V4([169, 254, 169, 254]);
    let lo6 = IpAddress::V6([0, 0, 0, 0, 0, 0, 0, 1]);
    assert_eq!(classify(&[], 80, false), Resolution::Unresolved);
    assert_eq!(classify(&[public], 443, false), Resolution::Allowed { ip: public, port: 443 });
    assert_eq!(
        classify(&[public, meta, lo6], 80, false),
        Resolution::Denied { ip: meta, range: "link-local" }
    );
    assert_eq!(classify(&[lo6], 80, false), Resolution::Denied { ip: lo6, range: "loopback" });
    assert_eq!(classify(&[meta, public], 80, true), Resolution::Allowed { ip: meta, port: 80 });
}

#[test]
fn cache_keys_ignore_ascii_case_and_keep_ports_apart() {
    let mut c: Cache<u32> = Cache::new();
    c.insert_bounded("Example.COM", 80, 1);
    assert_eq!(c.get("example.com", 80), Some(&1));
    assert_eq!(c.get("EXAMPLE.com", 443), None);
    c.insert_bounded("example.com", 80, 2);
    assert_eq!(c.cached_len(), 1, "storing a stored key again does not add an entry");
    assert_eq!(c.get("example.com", 80), Some(&2));
}

#[test]
fn cache_is_bounded_and_drops_oldest() {
    let mut c: Cache<u16> = Cache::new();
    for port in 1..=(MAX_CACHED_HOSTS as u16 + 1) {
        c.insert_bounded("127.0.0.1", port, port);
    }
    assert_eq!(c.cached_len(), MAX_CACHED_HOSTS);
    assert_eq!(c.get("127.0.0.1", 1), None, "the oldest entry went");
    assert_eq!(c.get("127.0.0.1", 2), Some(&2));
    assert_eq!(c.get("127.0.0.1", MAX_CACHED_HOSTS as u16 + 1), Some(&(MAX_CACHED_HOSTS as u16 + 1)));
}
