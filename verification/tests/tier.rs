use api_rate_limiting::tier::{Route, TierConfig};

#[test]
fn a_tier_needs_both_limits_positive() {
    assert_eq!(TierConfig::new(0, 1), None);
    assert_eq!(TierConfig::new(1, 0), None);
    assert_eq!(TierConfig::new(0, 0), None);
    let tier = TierConfig::new(1, 1).unwrap();
    assert_eq!(tier.capacity(), 1);
    assert_eq!(tier.refill_interval(), 1);
    let tier = TierConfig::new(u32::MAX, u64::MAX).unwrap();
    assert_eq!(tier.capacity(), u32::MAX);
    assert_eq!(tier.refill_interval(), u64::MAX);
}

#[test]
fn the_three_routes_have_their_limits() {
    let create = Route::CreateItem.tier();
    assert_eq!(create.capacity(), 3);
    assert_eq!(create.refill_interval(), 20_000);
    let list = Route::ListItems.tier();
    assert_eq!(list.capacity(), 1200);
    assert_eq!(list.refill_interval(), 50);
    let update = Route::UpdateItem.tier();
    assert_eq!(update.capacity(), 60);
    assert_eq!(update.refill_interval(), 1_000);
}

#[test]
fn the_tiers_of_the_routes_are_what_new_gives_for_their_limits() {
    assert_eq!(Some(Route::CreateItem.tier()), TierConfig::new(3, 20_000));
    assert_eq!(Some(Route::ListItems.tier()), TierConfig::new(1200, 50));
    assert_eq!(Some(Route::UpdateItem.tier()), TierConfig::new(60, 1_000));
}

#[test]
fn the_three_routes_have_their_methods_and_patterns() {
    assert_eq!(Route::CreateItem.method(), "POST");
    assert_eq!(Route::CreateItem.pattern(), "/vault");
    assert_eq!(Route::ListItems.method(), "GET");
    assert_eq!(Route::ListItems.pattern(), "/vault/items");
    assert_eq!(Route::UpdateItem.method(), "PUT");
    assert_eq!(Route::UpdateItem.pattern(), "/vault/items/{id}");
}
