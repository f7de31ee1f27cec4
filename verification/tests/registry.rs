use api_rate_limiting::registry::BucketRegistry;
use api_rate_limiting::tier::TierConfig;
use api_rate_limiting::token_bucket::Admission;

fn key(route: &str, credential: &str) -> (String, String) {
    (route.to_string(), credential.to_string())
}

fn tier(capacity: u32, refill_interval: u64) -> TierConfig {
    TierConfig::new(capacity, refill_interval).unwrap()
}

#[test]
fn a_new_registry_holds_no_bucket() {
    let registry = BucketRegistry::new();
    assert!(!registry.contains(&key("/vault", "A")));
    assert!(!registry.contains(&key("", "")));
}

#[test]
fn get_or_create_makes_a_full_bucket_for_a_new_key() {
    let mut registry = BucketRegistry::new();
    let bucket = registry.get_or_create(&key("/vault", "A"), tier(3, 20_000), 77);
    assert_eq!(bucket.capacity(), 3);
    assert_eq!(bucket.refill_interval(), 20_000);
    assert_eq!(bucket.tokens_available(), 3);
    assert_eq!(bucket.last_refill_at(), 77);
    assert!(registry.contains(&key("/vault", "A")));
    assert!(!registry.contains(&key("/vault", "B")));
    assert!(!registry.contains(&key("/vault/items", "A")));
    assert!(!registry.contains(&key("A", "/vault")));
}

#[test]
fn get_or_create_hands_out_the_bucket_it_holds() {
    let mut registry = BucketRegistry::new();
    let k = key("/vault", "A");
    assert_eq!(
        registry.get_or_create(&k, tier(3, 20_000), 0).try_admit(0),
        Admission::Admitted
    );
    let bucket = registry.get_or_create(&k, tier(3, 20_000), 5);
    assert_eq!(bucket.tokens_available(), 2);
    assert_eq!(bucket.last_refill_at(), 0);
}

#[test]
fn the_limits_of_a_key_are_those_of_its_first_request() {
    let mut registry = BucketRegistry::new();
    let k = key("/vault", "A");
    assert_eq!(registry.try_admit(&k, tier(1, 1_000), 0), Admission::Admitted);
    // Other limits for the same key are not applied: the bucket stays as it was made.
    assert_eq!(
        registry.try_admit(&k, tier(50, 10), 0),
        Admission::Denied { wait_time: 1_000 }
    );
    let bucket = registry.get_or_create(&k, tier(50, 10), 0);
    assert_eq!(bucket.capacity(), 1);
    assert_eq!(bucket.refill_interval(), 1_000);
}

#[test]
fn each_key_has_a_bucket_of_its_own() {
    let mut registry = BucketRegistry::new();
    let limits = tier(2, 1_000);
    let keys = [
        key("/vault", "A"),
        key("/vault", "B"),
        key("/vault/items", "A"),
        key("/vault", ""),
        key("", "A"),
        key("/vaultA", ""),
        key("/vault", "a"),
    ];
    for k in &keys {
        assert_eq!(registry.try_admit(k, limits, 0), Admission::Admitted);
        assert_eq!(registry.try_admit(k, limits, 0), Admission::Admitted);
        assert_eq!(
            registry.try_admit(k, limits, 0),
            Admission::Denied { wait_time: 1_000 }
        );
    }
    for k in &keys {
        assert!(registry.contains(k));
        assert_eq!(registry.get_or_create(k, limits, 0).tokens_available(), 0);
    }
}

#[test]
fn exhausting_one_credential_leaves_the_first_request_of_another() {
    let mut registry = BucketRegistry::new();
    let limits = tier(3, 20_000);
    for i in 0..50u64 {
        registry.try_admit(&key("/vault", "A"), limits, i);
    }
    assert_eq!(
        registry.try_admit(&key("/vault", "A"), limits, 50),
        Admission::Denied { wait_time: 19_950 }
    );
    assert_eq!(
        registry.try_admit(&key("/vault", "B"), limits, 50),
        Admission::Admitted
    );
}

#[test]
fn exhausting_one_route_leaves_the_first_request_on_another() {
    let mut registry = BucketRegistry::new();
    let limits = tier(3, 20_000);
    for i in 0..50u64 {
        registry.try_admit(&key("/vault", "A"), limits, i);
    }
    assert_eq!(
        registry.try_admit(&key("/vault/items", "A"), tier(1200, 50), 50),
        Admission::Admitted
    );
    assert_eq!(
        registry.try_admit(&key("/vault", "A"), limits, 50),
        Admission::Denied { wait_time: 19_950 }
    );
}

#[test]
fn requests_of_other_keys_do_not_change_what_a_key_is_told() {
    let limits = tier(2, 1_000);
    let mut quiet = BucketRegistry::new();
    let mut busy = BucketRegistry::new();
    let times = [0u64, 10, 20, 500, 999, 1_000, 1_001, 2_500, 2_500, 2_500, 2_500, 9_000];
    for now in times {
        for other in ["B", "C", "D"] {
            busy.try_admit(&key("/vault", other), limits, now);
            busy.try_admit(&key(other, "A"), limits, now);
        }
        assert_eq!(
            busy.try_admit(&key("/vault", "A"), limits, now),
            quiet.try_admit(&key("/vault", "A"), limits, now)
        );
    }
}

#[test]
fn the_registry_grows_by_one_bucket_for_each_new_key() {
    let mut registry = BucketRegistry::new();
    assert_eq!(registry.len(), 0);
    let limits = tier(1, 1_000);
    for (i, credential) in ["A", "B", "C", "D"].iter().enumerate() {
        for now in 0..5u64 {
            registry.try_admit(&key("/vault", credential), limits, now);
            assert_eq!(registry.len(), i + 1);
        }
    }
    registry.get_or_create(&key("/vault/items", "A"), limits, 9);
    assert_eq!(registry.len(), 5);
    registry.get_or_create(&key("/vault/items", "A"), limits, 10);
    assert_eq!(registry.len(), 5);
    // A long time without requests takes nothing out.
    registry.try_admit(&key("/vault", "A"), limits, u64::MAX);
    assert_eq!(registry.len(), 5);
}
