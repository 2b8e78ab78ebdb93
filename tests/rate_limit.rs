use cirith::rate_limit::RateLimiter;

const SEC: u64 = 1_000_000_000;
const IP_A: u128 = 0xffff_0a00_0001;
const IP_B: u128 = 0xffff_0a00_0002;

#[test]
fn one_per_second() {
    let mut rl = RateLimiter::new(1, 1);
    assert!(rl.check_at(IP_A, 0));
    assert!(!rl.check_at(IP_A, SEC / 2));
    assert!(!rl.check_at(IP_A, SEC));
    assert!(rl.check_at(IP_A, SEC + SEC / 2));
}

#[test]
fn two_per_minute_third_denied() {
    let mut rl = RateLimiter::new(2, 60);
    assert!(rl.check_at(IP_A, 0));
    assert!(rl.check_at(IP_A, SEC / 3));
    assert!(!rl.check_at(IP_A, 2 * SEC / 3));
    assert!(rl.check_at(IP_B, 2 * SEC / 3));
    assert!(!rl.check_at(IP_A, 59 * SEC));
    assert!(rl.check_at(IP_A, 60 * SEC + 1));
}

#[test]
fn sliding_window_never_exceeds_limit() {
    let max = 3u64;
    let mut rl = RateLimiter::new(max, 10);
    let mut admitted: Vec<u64> = Vec::new();
    for step in 0..200u64 {
        let t = step * SEC / 4;
        if rl.check_at(IP_A, t) {
            admitted.push(t);
        }
        if step % 17 == 0 {
            rl.cleanup_at(t);
        }
    }
    for &end in &admitted {
        let start = end.saturating_sub(10 * SEC);
        let n = admitted.iter().filter(|&&t| t >= start && t <= end).count();
        assert!(n as u64 <= max);
    }
    assert!(admitted.len() > 3);
}

#[test]
fn earlier_clock_reading_counts_as_latest() {
    let mut rl = RateLimiter::new(1, 1);
    assert!(rl.check_at(IP_A, 5 * SEC));
    assert!(!rl.check_at(IP_A, 0));
}

#[test]
fn cleanup_keeps_live_buckets() {
    let mut rl = RateLimiter::new(1, 10);
    assert!(rl.check_at(IP_A, 0));
    rl.cleanup_at(5 * SEC);
    assert!(!rl.check_at(IP_A, 6 * SEC));
    rl.cleanup_at(20 * SEC);
    assert!(rl.check_at(IP_A, 21 * SEC));
}

#[test]
fn clock_driven_check() {
    let mut rl = RateLimiter::new(2, 60);
    assert!(rl.check(IP_A));
    assert!(rl.check(IP_A));
    assert!(!rl.check(IP_A));
    rl.cleanup();
    assert!(!rl.check(IP_A));
}

#[test]
fn huge_window_saturates() {
    let mut rl = RateLimiter::new(1, u64::MAX);
    assert!(rl.check_at(IP_A, 0));
    assert!(!rl.check_at(IP_A, u64::MAX));
}
