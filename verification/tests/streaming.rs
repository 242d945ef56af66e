use perlica::logic::interest::{
    InterestEntry, InterestState, ReplicationZone, StreamBucket, ENEMY_CONCURRENT_CAP,
    ENEMY_SPAWN_BUDGET_PER_TICK, NPC_SPAWN_BUDGET_PER_TICK,
};
use perlica::logic::streaming::{should_leave, RespawnLedger, StreamPass, StreamStep};

const ALL_DUE: [bool; 4] = [true, true, true, true];

#[test]
fn pass_admits_up_to_the_spawn_budget() {
    let mut interest = InterestState::new();
    let mut pass = StreamPass::new(StreamBucket::Npc);
    let mut admitted = 0;
    for id in 0..10u64 {
        let step = pass.consider(&mut interest, id, ReplicationZone::Combat, &ALL_DUE, false, 1_000);
        if step == StreamStep::Admitted {
            admitted += 1;
        } else {
            assert_eq!(step, StreamStep::Deferred);
        }
    }
    assert_eq!(admitted, NPC_SPAWN_BUDGET_PER_TICK);
    assert_eq!(pass.budget_left(), 0);
    assert_eq!(interest.live_count(StreamBucket::Npc), NPC_SPAWN_BUDGET_PER_TICK);
}

#[test]
fn zone_not_due_only_reclassifies() {
    let mut interest = InterestState::new();
    interest.ghost_in(1, ReplicationZone::Distant, StreamBucket::Enemy, 10);
    let mut pass = StreamPass::new(StreamBucket::Enemy);
    let due = [true, false, true, true];
    assert_eq!(pass.consider(&mut interest, 1, ReplicationZone::Combat, &due, false, 500), StreamStep::Reclassified);
    assert_eq!(interest.zone_of(1), Some(ReplicationZone::Combat));
    assert_eq!(interest.entry(1).unwrap().last_close_ms, 500);
    assert_eq!(pass.consider(&mut interest, 2, ReplicationZone::Combat, &due, false, 500), StreamStep::Reclassified);
    assert!(!interest.is_ghosted_in(2));
    assert_eq!(pass.budget_left(), ENEMY_SPAWN_BUDGET_PER_TICK);
}

#[test]
fn tracked_candidate_is_refreshed() {
    let mut interest = InterestState::new();
    interest.ghost_in(3, ReplicationZone::Distant, StreamBucket::Enemy, 10);
    let mut pass = StreamPass::new(StreamBucket::Enemy);
    assert_eq!(pass.consider(&mut interest, 3, ReplicationZone::Distant, &ALL_DUE, false, 90), StreamStep::Refreshed);
    assert_eq!(interest.live_count(StreamBucket::Enemy), 1);
    assert_eq!(pass.budget_left(), ENEMY_SPAWN_BUDGET_PER_TICK);
}

#[test]
fn recently_killed_enemy_stays_out() {
    let mut interest = InterestState::new();
    let mut ledger = RespawnLedger::new();
    ledger.record_kill(9, 1_000);
    let mut pass = StreamPass::new(StreamBucket::Enemy);
    let cooling = ledger.contains_key(&9);
    assert_eq!(pass.consider(&mut interest, 9, ReplicationZone::Combat, &ALL_DUE, cooling, 2_000), StreamStep::CoolingDown);
    assert!(!interest.is_ghosted_in(9));
}

#[test]
fn innermost_enemy_waits_for_visibility() {
    let mut interest = InterestState::new();
    let mut pass = StreamPass::new(StreamBucket::Enemy);
    assert_eq!(
        pass.consider(&mut interest, 4, ReplicationZone::Immediate, &ALL_DUE, false, 50),
        StreamStep::CheckVisibility
    );
    assert!(!interest.is_ghosted_in(4));
    assert!(pass.admit_visible(&mut interest, 50));
    assert!(interest.is_ghosted_in(4));
    assert_eq!(pass.budget_left(), ENEMY_SPAWN_BUDGET_PER_TICK - 1);
    assert!(!pass.admit_visible(&mut interest, 50));
}

#[test]
fn occluded_enemy_is_dropped_by_the_next_candidate() {
    let mut interest = InterestState::new();
    let mut pass = StreamPass::new(StreamBucket::Enemy);
    assert_eq!(
        pass.consider(&mut interest, 4, ReplicationZone::Immediate, &ALL_DUE, false, 50),
        StreamStep::CheckVisibility
    );
    assert_eq!(pass.consider(&mut interest, 5, ReplicationZone::Combat, &ALL_DUE, false, 50), StreamStep::Admitted);
    assert!(!pass.admit_visible(&mut interest, 50));
    assert!(!interest.is_ghosted_in(4));
    assert!(interest.is_ghosted_in(5));
}

#[test]
fn interactives_skip_the_visibility_check() {
    let mut interest = InterestState::new();
    let mut pass = StreamPass::new(StreamBucket::Interactive);
    assert_eq!(
        pass.consider(&mut interest, 4, ReplicationZone::Immediate, &ALL_DUE, false, 50),
        StreamStep::Admitted
    );
    assert_eq!(interest.entry(4).unwrap().bucket, StreamBucket::Interactive);
}

#[test]
fn concurrent_cap_ends_the_pass() {
    let mut interest = InterestState::new();
    for id in 0..ENEMY_CONCURRENT_CAP as u64 {
        interest.ghost_in(id, ReplicationZone::Distant, StreamBucket::Enemy, 1);
    }
    let mut pass = StreamPass::new(StreamBucket::Enemy);
    assert_eq!(pass.consider(&mut interest, 1_000, ReplicationZone::Combat, &ALL_DUE, false, 5), StreamStep::Stopped);
    assert!(pass.is_stopped());
    assert_eq!(pass.consider(&mut interest, 0, ReplicationZone::Combat, &ALL_DUE, false, 5), StreamStep::Stopped);
    assert_eq!(interest.zone_of(0), Some(ReplicationZone::Distant));
    assert_eq!(interest.live_count(StreamBucket::Enemy), ENEMY_CONCURRENT_CAP);
}

fn enemy_entry(zone: ReplicationZone, last_close_ms: u64) -> InterestEntry {
    InterestEntry { zone, bucket: StreamBucket::Enemy, always_resident: false, last_sync_ms: 0, last_close_ms }
}

#[test]
fn leave_rules() {
    let e = enemy_entry(ReplicationZone::Distant, 0);
    assert!(should_leave(&e, &ALL_DUE, false, true, false, 100, false));
    assert!(!should_leave(&e, &ALL_DUE, true, true, false, 100, false));
    assert!(should_leave(&e, &ALL_DUE, true, false, true, 100, false));
    assert!(!should_leave(&e, &ALL_DUE, true, false, false, 100, true));
    assert!(!should_leave(&e, &[true, true, false, true], false, false, true, 100, false));
    let recent = enemy_entry(ReplicationZone::Distant, 10_000);
    assert!(!should_leave(&recent, &ALL_DUE, true, false, false, 14_999, false));
    assert!(should_leave(&recent, &ALL_DUE, true, false, false, 15_000, false));
    let resident = InterestEntry { always_resident: true, ..enemy_entry(ReplicationZone::Immediate, 0) };
    assert!(!should_leave(&resident, &ALL_DUE, false, false, true, 100, false));
    let npc = InterestEntry { bucket: StreamBucket::Npc, ..enemy_entry(ReplicationZone::Combat, 0) };
    assert!(should_leave(&npc, &ALL_DUE, true, false, false, 100, true));
}

#[test]
fn sweep_waits_for_the_cleanup_interval() {
    let mut ledger = RespawnLedger::new();
    ledger.record_kill(1, 0);
    assert!(!ledger.sweep(4_999));
    assert!(ledger.sweep(5_000));
    assert!(ledger.contains_key(&1));
    assert!(!ledger.sweep(9_999));
}

#[test]
fn sweep_drops_expired_kills_only() {
    let mut ledger = RespawnLedger::new();
    ledger.record_kill(1, 1_000);
    ledger.record_kill(2, 30_000);
    ledger.record_kill(3, 70_000);
    assert!(ledger.sweep(61_000));
    assert!(!ledger.contains_key(&1));
    assert!(ledger.contains_key(&2));
    assert!(ledger.contains_key(&3));
    assert_eq!(ledger.len(), 2);
    ledger.clear();
    assert!(ledger.is_empty());
}

#[test]
fn young_kill_survives_a_sweep_and_blocks_respawn() {
    let mut ledger = RespawnLedger::new();
    ledger.record_kill(42, 10_000);
    assert!(ledger.sweep(69_999));
    let mut interest = InterestState::new();
    let mut pass = StreamPass::new(StreamBucket::Enemy);
    let step = pass.consider(&mut interest, 42, ReplicationZone::Combat, &ALL_DUE, ledger.contains_key(&42), 69_999);
    assert_eq!(step, StreamStep::CoolingDown);
}
