use perlica::logic::interest::{
    should_retain, FxU64Hasher, InterestState, OcclusionCache, ReplicationZone, StreamBucket, NPC_CONCURRENT_CAP,
};

/// Whether an enemy `dist_sq` away is beyond the 200 wu sticky cap.
fn beyond_sticky_cap(dist_sq: f32) -> bool {
    dist_sq > 200.0 * 200.0
}

#[test]
fn cache_hit_within_ttl() {
    let mut cache = OcclusionCache::default();
    cache.insert(42, true, 1000);
    assert_eq!(cache.get(42, 1010), Some(true));
}

#[test]
fn cache_miss_after_ttl() {
    let mut cache = OcclusionCache::default();
    cache.insert(42, true, 1000);
    assert_eq!(cache.get(42, 1017), None);
}

#[test]
fn cache_evicts_stale_entries_on_next_insert() {
    let mut cache = OcclusionCache::default();
    cache.insert(1, true, 1000);
    cache.insert(2, false, 1000);
    cache.insert(3, true, 1020);
    assert_eq!(cache.get(1, 1020), None, "stale entry 1 should be evicted");
    assert_eq!(cache.get(2, 1020), None, "stale entry 2 should be evicted");
    assert_eq!(cache.get(3, 1020), Some(true), "new entry should exist");
}

#[test]
fn cache_clear_resets_all_state() {
    let mut cache = OcclusionCache::default();
    cache.insert(99, false, 5000);
    cache.clear();
    assert_eq!(cache.get(99, 5000), None);
}

#[test]
fn fx_hasher_distributes_sequential_u64() {
    let mut a = FxU64Hasher::default();
    a.write_u64(1);
    let mut b = FxU64Hasher::default();
    b.write_u64(2);
    let mut c = FxU64Hasher::default();
    c.write_u64(1000);
    assert_ne!(a.finish(), b.finish());
    assert_ne!(a.finish(), c.finish());
    assert_ne!(b.finish(), c.finish());
}

#[test]
fn cache_edge_of_window() {
    let mut cache = OcclusionCache::new();
    cache.insert(5, false, 100);
    assert_eq!(cache.get(5, 116), Some(false));
    assert_eq!(cache.get(5, 117), None);
    cache.insert(6, true, 116);
    assert_eq!(cache.get(5, 116), Some(false));
    assert_eq!(cache.get(6, 116), Some(true));
}

#[test]
fn touch_or_classify_returns_false_for_unknown_entity() {
    let mut mgr = InterestState::new();
    assert!(!mgr.touch_or_classify(123, ReplicationZone::Combat, 1000));
}

#[test]
fn touch_or_classify_updates_zone_for_known_entity() {
    let mut mgr = InterestState::new();
    mgr.ghost_in(7, ReplicationZone::Background, StreamBucket::Enemy, 1000);
    assert!(mgr.touch_or_classify(7, ReplicationZone::Immediate, 2000));
    assert_eq!(mgr.zone_of(7), Some(ReplicationZone::Immediate));
}

#[test]
fn touch_or_classify_bumps_last_close_when_in_combat_range() {
    let mut mgr = InterestState::new();
    mgr.ghost_in(7, ReplicationZone::Distant, StreamBucket::Enemy, 1000);
    assert_eq!(mgr.entry(7).unwrap().last_close_ms, 0);
    assert!(mgr.touch_or_classify(7, ReplicationZone::Combat, 2000));
    assert_eq!(mgr.entry(7).unwrap().last_close_ms, 2000);
}

#[test]
fn update_zone_bumps_last_close_when_in_combat_range() {
    let mut mgr = InterestState::new();
    mgr.ghost_in(7, ReplicationZone::Distant, StreamBucket::Enemy, 1000);
    mgr.update_zone(7, ReplicationZone::Immediate, 3000);
    assert_eq!(mgr.entry(7).unwrap().last_close_ms, 3000);
    mgr.update_zone(7, ReplicationZone::Distant, 4000);
    assert_eq!(mgr.entry(7).unwrap().last_close_ms, 3000);
}

#[test]
fn ghost_in_at_close_zone_initialises_last_close() {
    let mut mgr = InterestState::new();
    mgr.ghost_in(1, ReplicationZone::Immediate, StreamBucket::Enemy, 5000);
    assert_eq!(mgr.entry(1).unwrap().last_close_ms, 5000);
    mgr.ghost_in(2, ReplicationZone::Combat, StreamBucket::Enemy, 5000);
    assert_eq!(mgr.entry(2).unwrap().last_close_ms, 5000);
    mgr.ghost_in(3, ReplicationZone::Distant, StreamBucket::Enemy, 5000);
    assert_eq!(mgr.entry(3).unwrap().last_close_ms, 0);
}

#[test]
fn ghost_in_increments_bucket_count_once_per_id() {
    let mut mgr = InterestState::new();
    mgr.ghost_in(1, ReplicationZone::Combat, StreamBucket::Enemy, 100);
    mgr.ghost_in(2, ReplicationZone::Combat, StreamBucket::Enemy, 100);
    mgr.ghost_in(1, ReplicationZone::Immediate, StreamBucket::Enemy, 200);
    assert_eq!(mgr.live_count(StreamBucket::Enemy), 2);
    assert_eq!(mgr.live_count(StreamBucket::Interactive), 0);
}

#[test]
fn ghost_out_decrements_bucket_count() {
    let mut mgr = InterestState::new();
    mgr.ghost_in(10, ReplicationZone::Immediate, StreamBucket::Interactive, 0);
    mgr.ghost_in(11, ReplicationZone::Immediate, StreamBucket::Interactive, 0);
    assert_eq!(mgr.live_count(StreamBucket::Interactive), 2);
    let removed = mgr.ghost_out(10);
    assert!(removed.is_some());
    assert_eq!(mgr.live_count(StreamBucket::Interactive), 1);
    let removed = mgr.ghost_out(999);
    assert!(removed.is_none());
    assert_eq!(mgr.live_count(StreamBucket::Interactive), 1);
}

#[test]
fn at_capacity_reflects_live_count() {
    let mut mgr = InterestState::new();
    for i in 0..(NPC_CONCURRENT_CAP - 1) as u64 {
        mgr.ghost_in(i, ReplicationZone::Immediate, StreamBucket::Npc, 0);
    }
    assert!(!mgr.at_capacity(StreamBucket::Npc));
    mgr.ghost_in(999, ReplicationZone::Immediate, StreamBucket::Npc, 0);
    assert!(mgr.at_capacity(StreamBucket::Npc));
}

#[test]
fn should_retain_returns_false_for_distant_enemy_no_recent_engagement() {
    let mut mgr = InterestState::new();
    mgr.ghost_in(1, ReplicationZone::Distant, StreamBucket::Enemy, 1000);
    let entry = mgr.entry(1).unwrap();
    assert!(!should_retain(&entry, beyond_sticky_cap(130.0 * 130.0), 2000, false));
}

#[test]
fn should_retain_keeps_recently_engaged_enemy_open_world() {
    let mut mgr = InterestState::new();
    mgr.ghost_in(1, ReplicationZone::Combat, StreamBucket::Enemy, 1000);
    let entry = mgr.entry(1).unwrap();
    assert!(should_retain(&entry, beyond_sticky_cap(150.0 * 150.0), 2500, false));
}

#[test]
fn should_retain_releases_enemy_after_sticky_grace_expires() {
    let mut mgr = InterestState::new();
    mgr.ghost_in(1, ReplicationZone::Combat, StreamBucket::Enemy, 1000);
    let entry = mgr.entry(1).unwrap();
    assert!(!should_retain(&entry, beyond_sticky_cap(150.0 * 150.0), 7000, false));
}

#[test]
fn should_retain_releases_enemy_beyond_sticky_radius_even_when_engaged() {
    let mut mgr = InterestState::new();
    mgr.ghost_in(1, ReplicationZone::Combat, StreamBucket::Enemy, 1000);
    let entry = mgr.entry(1).unwrap();
    assert!(!should_retain(&entry, beyond_sticky_cap(220.0 * 220.0), 1200, false));
    assert!(!should_retain(&entry, beyond_sticky_cap(220.0 * 220.0), 1200, true));
}

#[test]
fn should_retain_keeps_enemy_in_battle_dungeon_path() {
    let mut mgr = InterestState::new();
    mgr.ghost_in(1, ReplicationZone::Distant, StreamBucket::Enemy, 1000);
    let entry = mgr.entry(1).unwrap();
    assert!(should_retain(&entry, beyond_sticky_cap(150.0 * 150.0), 2000, true));
}

#[test]
fn should_retain_does_not_stick_interactives() {
    let mut mgr = InterestState::new();
    mgr.ghost_in(1, ReplicationZone::Combat, StreamBucket::Interactive, 1000);
    let entry = mgr.entry(1).unwrap();
    assert!(!should_retain(&entry, beyond_sticky_cap(150.0 * 150.0), 1500, true));
}

#[test]
fn should_retain_keeps_always_resident_at_any_distance() {
    let mut mgr = InterestState::new();
    mgr.ghost_in_resident(1, ReplicationZone::Combat, StreamBucket::Interactive, 0);
    let entry = mgr.entry(1).unwrap();
    assert!(should_retain(&entry, beyond_sticky_cap(9_999.0 * 9_999.0), 0, false));
    assert!(should_retain(&entry, beyond_sticky_cap(9_999.0 * 9_999.0), 999_999_999, true));
}

#[test]
fn ghost_in_resident_sets_always_resident_flag() {
    let mut mgr = InterestState::new();
    mgr.ghost_in_resident(42, ReplicationZone::Immediate, StreamBucket::Interactive, 100);
    let entry = mgr.entry(42).unwrap();
    assert!(entry.always_resident);
    assert_eq!(mgr.live_count(StreamBucket::Interactive), 1);
}

#[test]
fn is_zone_due_reflects_last_scheduler_call() {
    let mut mgr = InterestState::new();
    let _ = mgr.zones_due(1000);
    assert!(mgr.is_zone_due(ReplicationZone::Immediate));
    assert!(mgr.is_zone_due(ReplicationZone::Background));
    let _ = mgr.zones_due(1020);
    assert!(mgr.is_zone_due(ReplicationZone::Immediate));
    assert!(!mgr.is_zone_due(ReplicationZone::Combat));
    assert!(!mgr.is_zone_due(ReplicationZone::Distant));
    assert!(!mgr.is_zone_due(ReplicationZone::Background));
}

#[test]
fn outermost_due_zone_follows_scheduler_and_cap() {
    let mut mgr = InterestState::new();
    assert_eq!(mgr.outermost_due_zone(ReplicationZone::Background), None);
    let _ = mgr.zones_due(1000);
    assert_eq!(mgr.outermost_due_zone(ReplicationZone::Background), Some(ReplicationZone::Background));
    assert_eq!(mgr.outermost_due_zone(ReplicationZone::Combat), Some(ReplicationZone::Combat));
    let _ = mgr.zones_due(1020);
    assert_eq!(mgr.outermost_due_zone(ReplicationZone::Background), Some(ReplicationZone::Immediate));
    let _ = mgr.zones_due(1020);
    assert_eq!(mgr.due_mask(), 0);
    assert_eq!(mgr.outermost_due_zone(ReplicationZone::Background), None);
}

#[test]
fn bucket_max_zones() {
    assert_eq!(StreamBucket::Enemy.max_zone(), ReplicationZone::Distant);
    assert_eq!(StreamBucket::Interactive.max_zone(), ReplicationZone::Combat);
    assert_eq!(StreamBucket::Npc.max_zone(), ReplicationZone::Combat);
}
