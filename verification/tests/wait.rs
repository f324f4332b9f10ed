use webgrab::render::wait::{
    is_main_navigation, poll_sleep_ms, should_stop, POLL_MS, DecodedBudget, InFlight, Stability, MAX_TRACKED, TOMBSTONE_MS,
};

#[test]
fn inflight_is_idempotent_on_redirect_and_unknown_done() {
    let now = 1_000;
    let mut f = InFlight::new();
    f.on_request("a", false, now);
    f.on_request("a", true, now);
    assert_eq!(f.len(), 1);
    f.on_done("zzz", now);
    assert_eq!(f.len(), 1);
    f.on_done("a", now);
    assert!(f.is_idle(now));
}

#[test]
fn tombstone_ignores_late_request_until_expiry() {
    let now = 1_000;
    let mut f = InFlight::new();
    f.on_done("x", now);
    f.on_request("x", false, now + 10);
    assert!(f.is_idle(now + 10));
    f.on_request("x", false, now + TOMBSTONE_MS + 1);
    assert!(!f.is_idle(now + TOMBSTONE_MS + 1));
}

#[test]
fn inflight_caps_tracked_ids() {
    let now = 1_000;
    let mut f = InFlight::new();
    for i in 0..(MAX_TRACKED + 10) {
        f.on_request(&i.to_string(), false, now);
    }
    assert_eq!(f.len(), MAX_TRACKED);
    // The oldest ids made room: id 0 is gone and can be added again.
    f.on_request("0", false, now);
    assert_eq!(f.len(), MAX_TRACKED);
    assert!(!f.is_empty());
}

#[test]
fn decoded_budget_flags_first_exceed_and_stays() {
    let mut b = DecodedBudget::new(100);
    assert!(!b.on_data(60));
    assert!(b.on_data(50));
    assert!(b.on_data(1));
    assert!(b.exceeded());
    assert_eq!(b.total(), 111);
}

#[test]
fn should_stop_matrix() {
    let cap = 5000;
    let t = 1000;
    assert!(should_stop(true, 2, 200, t, cap));
    assert!(!should_stop(false, 2, 200, t, cap));
    assert!(!should_stop(true, 1, 200, t, cap));
    assert!(!should_stop(true, 2, 199, t, cap));
    assert!(should_stop(false, 0, 0, cap, cap), "the cap stops in any case");
}

#[test]
fn tombstone_time_is_refreshed_by_a_second_done() {
    let mut f = InFlight::new();
    f.on_done("x", 1_000);
    f.on_done("x", 2_500);
    // 3_000 is 2_000 after the first finish but only 500 after the second.
    f.on_request("x", false, 3_000);
    assert!(f.is_idle(3_000));
    assert!(f.is_empty());
}

#[test]
fn main_navigation_requires_document_in_main_frame() {
    let main = "F1";
    let other = "F2";
    assert!(is_main_navigation(true, main, main));
    assert!(!is_main_navigation(true, other, main));
    assert!(!is_main_navigation(false, main, main));
}

#[test]
fn stability_counts_repeated_measurements() {
    let mut s = Stability::new();
    assert_eq!((s.stable_polls(), s.text_len()), (0, 0));
    s.observe(Some((10, 150)));
    assert_eq!((s.stable_polls(), s.text_len()), (0, 150));
    s.observe(Some((10, 150)));
    s.observe(Some((10, 150)));
    assert_eq!(s.stable_polls(), 2);
    s.observe(None);
    assert_eq!((s.stable_polls(), s.text_len()), (0, 150), "a failed poll starts over");
    s.observe(Some((10, 150)));
    assert_eq!(s.stable_polls(), 1, "the last measurement survives a failed poll");
    s.observe(Some((11, 150)));
    assert_eq!(s.stable_polls(), 0);
}

#[test]
fn eviction_keeps_the_tracker_busy_until_the_cap() {
    let now = 1_000;
    let mut f = InFlight::new();
    for i in 0..=MAX_TRACKED {
        f.on_request(&i.to_string(), false, now);
    }
    for i in 0..=MAX_TRACKED {
        f.on_done(&i.to_string(), now);
    }
    assert!(f.is_empty());
    assert!(!f.is_idle(now), "an evicted request may still run");
}

#[test]
fn full_tombstones_drop_only_the_oldest() {
    let now = 1_000;
    let mut f = InFlight::new();
    for i in 0..MAX_TRACKED {
        f.on_done(&i.to_string(), now);
    }
    assert!(f.is_idle(now));
    f.on_done("new", now);
    // "0" left; "1" is still a tombstone, so its late request is ignored.
    f.on_request("1", false, now);
    f.on_request("0", false, now);
    assert_eq!(f.len(), 1);
    assert!(!f.is_idle(now));
}

#[test]
fn decoded_budget_over_a_run_of_calls() {
    let mut b = DecodedBudget::new(10);
    assert!(!b.on_data(4));
    assert!(!b.on_data(6));
    assert_eq!(b.total(), 10);
    assert!(!b.exceeded());
    assert!(b.on_data(1));
    assert!(b.on_data(0));
    assert_eq!(b.total(), 11);
    assert!(b.exceeded());
}

#[test]
fn polls_sleep_at_most_what_is_left_of_the_cap() {
    assert_eq!(poll_sleep_ms(10_000, 0), POLL_MS);
    assert_eq!(poll_sleep_ms(10_000, 9_900), 100);
    assert_eq!(poll_sleep_ms(10_000, 10_000), 0);
    assert_eq!(poll_sleep_ms(10_000, 12_000), 0);
}
