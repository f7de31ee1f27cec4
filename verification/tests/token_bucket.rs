use api_rate_limiting::tier::{Route, TierConfig};
use api_rate_limiting::token_bucket::{Admission, TokenBucket};

fn tier(capacity: u32, refill_interval: u64) -> TierConfig {
    TierConfig::new(capacity, refill_interval).unwrap()
}

#[test]
fn a_new_bucket_is_full() {
    let bucket = TokenBucket::new(tier(3, 20_000), 1_234);
    assert_eq!(bucket.capacity(), 3);
    assert_eq!(bucket.refill_interval(), 20_000);
    assert_eq!(bucket.tokens_available(), 3);
    assert_eq!(bucket.last_refill_at(), 1_234);
}

#[test]
fn a_full_bucket_admits_its_capacity_at_once_and_then_denies() {
    for (capacity, interval) in [(1u32, 1u64), (3, 20_000), (60, 1_000), (1200, 50)] {
        let mut bucket = TokenBucket::new(tier(capacity, interval), 500);
        for used in 1..=capacity {
            assert_eq!(bucket.try_admit(500), Admission::Admitted);
            assert_eq!(bucket.tokens_available(), capacity - used);
        }
        assert_eq!(
            bucket.try_admit(500),
            Admission::Denied {
                wait_time: interval
            }
        );
        assert_eq!(bucket.tokens_available(), 0);
        assert_eq!(bucket.last_refill_at(), 500);
    }
}

#[test]
fn a_denial_tells_the_rest_of_the_running_interval() {
    let mut bucket = TokenBucket::new(tier(1, 1_000), 0);
    assert_eq!(bucket.try_admit(0), Admission::Admitted);
    assert_eq!(bucket.try_admit(0), Admission::Denied { wait_time: 1_000 });
    assert_eq!(bucket.try_admit(1), Admission::Denied { wait_time: 999 });
    assert_eq!(bucket.try_admit(400), Admission::Denied { wait_time: 600 });
    assert_eq!(bucket.try_admit(999), Admission::Denied { wait_time: 1 });
    assert_eq!(bucket.last_refill_at(), 0);
    assert_eq!(bucket.try_admit(1_000), Admission::Admitted);
    assert_eq!(bucket.last_refill_at(), 1_000);
}

#[test]
fn the_request_after_the_told_wait_is_admitted() {
    let mut bucket = TokenBucket::new(tier(2, 700), 10);
    assert_eq!(bucket.try_admit(10), Admission::Admitted);
    assert_eq!(bucket.try_admit(20), Admission::Admitted);
    let denied_at = 333;
    let wait_time = match bucket.try_admit(denied_at) {
        Admission::Denied { wait_time } => wait_time,
        Admission::Admitted => panic!("the bucket was empty"),
    };
    assert_eq!(wait_time, 700 - 323);
    assert_eq!(
        bucket.try_admit(denied_at + wait_time - 1),
        Admission::Denied { wait_time: 1 }
    );
    assert_eq!(bucket.try_admit(denied_at + wait_time), Admission::Admitted);
}

#[test]
fn the_request_one_interval_after_a_denial_is_admitted() {
    for made_at in [0u64, 1, 699, 700, 5_000] {
        for late in [0u64, 13, 699] {
            let mut bucket = TokenBucket::new(tier(1, 700), made_at);
            assert_eq!(bucket.try_admit(made_at), Admission::Admitted);
            let denied_at = made_at + late;
            assert_eq!(
                bucket.try_admit(denied_at),
                Admission::Denied {
                    wait_time: 700 - late
                }
            );
            assert_eq!(bucket.try_admit(denied_at + 700), Admission::Admitted);
        }
    }
}

#[test]
fn a_refill_keeps_the_part_of_an_interval_that_has_run() {
    let mut bucket = TokenBucket::new(tier(1, 1_000), 0);
    assert_eq!(bucket.try_admit(0), Admission::Admitted);
    // One and a half intervals: one token, and half an interval kept.
    assert_eq!(bucket.try_admit(1_500), Admission::Admitted);
    assert_eq!(bucket.last_refill_at(), 1_000);
    assert_eq!(bucket.try_admit(1_500), Admission::Denied { wait_time: 500 });
    assert_eq!(bucket.try_admit(2_000), Admission::Admitted);
    assert_eq!(bucket.last_refill_at(), 2_000);
}

#[test]
fn an_idle_bucket_fills_up_to_its_capacity_and_no_further() {
    let mut bucket = TokenBucket::new(tier(3, 20_000), 0);
    for _ in 0..3 {
        assert_eq!(bucket.try_admit(0), Admission::Admitted);
    }
    // Forty intervals later the bucket holds three tokens, not forty.
    assert_eq!(bucket.try_admit(800_000), Admission::Admitted);
    assert_eq!(bucket.tokens_available(), 2);
    assert_eq!(bucket.last_refill_at(), 800_000);
    assert_eq!(bucket.try_admit(800_000), Admission::Admitted);
    assert_eq!(bucket.try_admit(800_000), Admission::Admitted);
    assert_eq!(
        bucket.try_admit(800_000),
        Admission::Denied { wait_time: 20_000 }
    );
}

#[test]
fn a_bucket_that_was_never_used_stays_at_its_capacity() {
    let mut bucket = TokenBucket::new(tier(60, 1_000), 0);
    assert_eq!(bucket.try_admit(u64::MAX), Admission::Admitted);
    assert_eq!(bucket.tokens_available(), 59);
    assert_eq!(bucket.last_refill_at(), u64::MAX - u64::MAX % 1_000);
    assert!(bucket.tokens_available() <= bucket.capacity());
}

#[test]
fn the_largest_limits_do_not_overflow() {
    let mut bucket = TokenBucket::new(tier(u32::MAX, u64::MAX), 0);
    assert_eq!(bucket.try_admit(u64::MAX), Admission::Admitted);
    assert_eq!(bucket.tokens_available(), u32::MAX - 1);
    assert_eq!(bucket.last_refill_at(), u64::MAX);
    let mut bucket = TokenBucket::new(tier(1, u64::MAX), 0);
    assert_eq!(bucket.try_admit(5), Admission::Admitted);
    assert_eq!(
        bucket.try_admit(5),
        Admission::Denied {
            wait_time: u64::MAX - 5
        }
    );
    let mut bucket = TokenBucket::new(tier(u32::MAX, 1), 0);
    assert_eq!(bucket.try_admit(0), Admission::Admitted);
    assert_eq!(bucket.try_admit(u64::MAX), Admission::Admitted);
    assert_eq!(bucket.tokens_available(), u32::MAX - 1);
}

#[test]
fn a_full_bucket_keeps_the_part_of_an_interval_too() {
    let mut bucket = TokenBucket::new(tier(1, 700), 0);
    assert_eq!(bucket.try_admit(699), Admission::Admitted);
    assert_eq!(bucket.last_refill_at(), 0);
    assert_eq!(bucket.try_admit(699), Admission::Denied { wait_time: 1 });
    assert_eq!(bucket.try_admit(700), Admission::Admitted);
    assert_eq!(bucket.last_refill_at(), 700);
}

#[test]
fn a_time_before_the_last_refill_counts_as_no_time() {
    let mut bucket = TokenBucket::new(tier(1, 1_000), 5_000);
    assert_eq!(bucket.try_admit(4_000), Admission::Admitted);
    assert_eq!(bucket.last_refill_at(), 5_000);
    assert_eq!(bucket.try_admit(100), Admission::Denied { wait_time: 1_000 });
    assert_eq!(bucket.try_admit(5_999), Admission::Denied { wait_time: 1 });
    assert_eq!(bucket.try_admit(6_000), Admission::Admitted);
}

#[test]
fn requests_at_the_pace_of_the_refill_are_all_admitted() {
    let mut bucket = TokenBucket::new(Route::CreateItem.tier(), 0);
    for i in 0..100u64 {
        assert_eq!(bucket.try_admit(i * 20_000), Admission::Admitted);
    }
    let mut bucket = TokenBucket::new(tier(1, 20_000), 0);
    for i in 0..100u64 {
        assert_eq!(bucket.try_admit(i * 20_000), Admission::Admitted);
        assert_eq!(bucket.tokens_available(), 0);
    }
}

#[test]
fn a_bucket_admits_no_more_than_its_capacity_and_one_for_each_interval() {
    let mut seed: u64 = 0x2545_f491_4f6c_dd1d;
    for (capacity, interval) in [(1u32, 1u64), (3, 20_000), (60, 1_000), (1200, 50), (5, 7)] {
        let made_at: u64 = 1_000;
        let mut bucket = TokenBucket::new(tier(capacity, interval), made_at);
        let mut now = made_at;
        let mut admitted: u64 = 0;
        for _ in 0..5_000 {
            seed = seed
                .wrapping_mul(6_364_136_223_846_793_005)
                .wrapping_add(1_442_695_040_888_963_407);
            now += (seed >> 33) % (interval / 2 + 2);
            if bucket.try_admit(now) == Admission::Admitted {
                admitted += 1;
            }
            assert!(admitted <= u64::from(capacity) + (now - made_at) / interval);
            assert!(bucket.tokens_available() <= bucket.capacity());
            assert!(bucket.last_refill_at() <= now);
        }
        assert!(admitted >= u64::from(capacity));
    }
}
