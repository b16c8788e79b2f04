use orlhf::ratelimit::{bypasses_gate, Backend, RateLimiter};
use orlhf::text::first_forwarded;

#[test]
fn window_admits_exactly_limit_then_slides() {
    let mut gate = RateLimiter::new_memory(3, true);
    let ip: u128 = 0x7f00_0001;
    assert_eq!(gate.check_and_record(ip, 1_000), Some(true));
    assert_eq!(gate.check_and_record(ip, 1_500), Some(true));
    assert_eq!(gate.check_and_record(ip, 2_000), Some(true));
    assert_eq!(gate.check_and_record(ip, 2_500), Some(false));
    assert_eq!(gate.check_and_record(ip, 60_999), Some(false));
    assert_eq!(gate.get_count(ip, 60_999), 3);
    // exactly one window after the first admission it still counts
    assert_eq!(gate.check_and_record(ip, 61_000), Some(false));
    // one millisecond later it has left the window
    assert_eq!(gate.check_and_record(ip, 61_001), Some(true));
    assert_eq!(gate.get_count(ip, 61_001), 3);
}

#[test]
fn addresses_are_counted_apart() {
    let mut gate = RateLimiter::new_memory(1, true);
    assert_eq!(gate.check_and_record(1, 0), Some(true));
    assert_eq!(gate.check_and_record(2, 0), Some(true));
    assert_eq!(gate.check_and_record(1, 10), Some(false));
    assert_eq!(gate.check_and_record(1, 60_000), Some(false));
    assert_eq!(gate.check_and_record(1, 60_001), Some(true));
}

#[test]
fn disabled_gate_admits_everything() {
    let mut gate = RateLimiter::new_memory(0, false);
    for t in 0..10u64 {
        assert_eq!(gate.check_and_record(9, t), Some(true));
    }
    assert_eq!(gate.get_count(9, 10), 0);
}

#[test]
fn zero_limit_denies() {
    let mut gate = RateLimiter::new_memory(0, true);
    assert_eq!(gate.check_and_record(9, 5), Some(false));
}

#[test]
fn shared_counter_gate_defers_and_fails_open() {
    let mut gate = RateLimiter::new_redis(60, true);
    assert!(gate.is_redis());
    assert_eq!(gate.check_and_record(1, 0), None);
    assert!(gate.counter_verdict(Some(60)));
    assert!(!gate.counter_verdict(Some(61)));
    assert!(gate.counter_verdict(None));
    let mut off = RateLimiter::new_redis(60, false);
    assert_eq!(off.check_and_record(1, 0), Some(true));
    assert_eq!(gate.window_secs(), 60);
    assert_eq!(Backend::Memory, Backend::Memory);
}

#[test]
fn sweep_forgets_idle_addresses() {
    let mut gate = RateLimiter::new_memory(5, true);
    gate.check_and_record(1, 0);
    gate.check_and_record(2, 100_000);
    gate.cleanup(130_000);
    assert_eq!(gate.get_count(1, 0), 0);
    assert_eq!(gate.get_count(2, 100_000), 1);
    // address 1 starts from an empty window
    assert_eq!(gate.check_and_record(1, 130_000), Some(true));
    assert_eq!(gate.get_count(1, 130_000), 1);
}

#[test]
fn forwarded_header_first_entry() {
    assert_eq!(first_forwarded(" 203.0.113.7 , 10.0.0.1"), "203.0.113.7");
    assert_eq!(first_forwarded("198.51.100.2"), "198.51.100.2");
    assert_eq!(first_forwarded(""), "");
    assert_eq!(first_forwarded("\t::1\u{3000},x"), "::1");
}

#[test]
fn probes_bypass_the_gate() {
    assert!(bypasses_gate("/health"));
    assert!(bypasses_gate("/ready"));
    assert!(!bypasses_gate("/api/v1/boards"));
    assert!(!bypasses_gate("/health/"));
}
