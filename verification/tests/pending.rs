use perlica::logic::traits::pending::PendingChanges;

#[test]
fn dirty_then_removed_wins() {
    let mut p: PendingChanges<u64> = PendingChanges::new();
    p.mark_dirty(7);
    p.mark_removed(7);
    assert!(p.dirty().is_empty());
    assert!(p.removed().contains(&7));
}

#[test]
fn dirty_after_removed_is_noop() {
    let mut p: PendingChanges<u64> = PendingChanges::new();
    p.mark_removed(3);
    p.mark_dirty(3);
    assert!(p.dirty().is_empty());
    assert!(p.removed().contains(&3));
}

#[test]
fn take_snapshot_clears() {
    let mut p: PendingChanges<u64> = PendingChanges::new();
    p.mark_dirty(1);
    p.mark_dirty(2);
    p.mark_removed(9);
    let snap = p.take_snapshot();
    assert!(!p.has_changes());
    assert_eq!(snap.dirty.len(), 2);
    assert_eq!(snap.removed.len(), 1);
}

#[test]
fn restore_after_failed_commit() {
    let mut p: PendingChanges<u64> = PendingChanges::new();
    p.mark_dirty(1);
    let snap = p.take_snapshot();
    p.mark_dirty(2);
    p.restore_snapshot(snap);
    assert!(p.dirty().contains(&1));
    assert!(p.dirty().contains(&2));
}

#[test]
fn snapshot_then_restore_gives_back_the_same_changes() {
    let mut p: PendingChanges<u64> = PendingChanges::new();
    p.mark_dirty(1);
    p.mark_dirty(2);
    p.mark_removed(3);
    let snap = p.take_snapshot();
    assert!(snap.has_changes());
    p.restore_snapshot(snap);
    assert_eq!(p.dirty_count(), 2);
    assert_eq!(p.removed_count(), 1);
    assert!(p.removed().contains(&3));
    p.clear();
    assert!(!p.has_changes());
}

#[test]
fn a_key_is_never_both_dirty_and_removed() {
    let mut p: PendingChanges<String> = PendingChanges::new();
    p.mark_dirty("a".to_string());
    p.mark_removed("a".to_string());
    p.mark_dirty("a".to_string());
    assert!(!p.dirty().contains("a"));
    assert!(p.removed().contains("a"));
}
