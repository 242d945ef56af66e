use perlica::logic::progression::{calculate_level_from_total_exp, cumulative_exp};

#[test]
fn cumulative_exp_level_1_is_zero() {
    let table = [100, 200, 300];
    assert_eq!(cumulative_exp(&table, 1), 0);
}

#[test]
fn cumulative_exp_sums_correctly() {
    let table = [100, 200, 300];
    assert_eq!(cumulative_exp(&table, 2), 100);
    assert_eq!(cumulative_exp(&table, 3), 300);
    assert_eq!(cumulative_exp(&table, 4), 600);
}

#[test]
fn cumulative_exp_empty_table() {
    let table: [i32; 0] = [];
    assert_eq!(cumulative_exp(&table, 1), 0);
    assert_eq!(cumulative_exp(&table, 5), 0);
}

#[test]
fn cumulative_exp_negative_entry_stops_accumulation() {
    let table = [100, -1, 300];
    assert_eq!(cumulative_exp(&table, 3), 100);
    assert_eq!(cumulative_exp(&table, 4), 100);
}

#[test]
fn cumulative_exp_table_shorter_than_target() {
    let table = [100, 200];
    assert_eq!(cumulative_exp(&table, 4), 300);
}

#[test]
fn calculate_level_no_exp_stays_at_current() {
    let table = [100, 200, 300];
    let (lv, rem) = calculate_level_from_total_exp(&table, 1, 0, 10);
    assert_eq!(lv, 1);
    assert_eq!(rem, 0);
}

#[test]
fn calculate_level_enough_exp_to_level_up() {
    let table = [100, 200, 300];
    let (lv, rem) = calculate_level_from_total_exp(&table, 1, 150, 10);
    assert_eq!(lv, 2);
    assert_eq!(rem, 50);
}

#[test]
fn calculate_level_multiple_level_ups() {
    let table = [100, 200, 300];
    let (lv, rem) = calculate_level_from_total_exp(&table, 1, 600, 10);
    assert_eq!(lv, 4);
    assert_eq!(rem, 0);
}

#[test]
fn calculate_level_respects_max_level() {
    let table = [100, 200, 300, 400];
    let (lv, _rem) = calculate_level_from_total_exp(&table, 1, 1000, 2);
    assert_eq!(lv, 2);
}

#[test]
fn calculate_level_starting_from_higher_level() {
    let table = [100, 200, 300];
    let (lv, rem) = calculate_level_from_total_exp(&table, 2, 500, 10);
    assert_eq!(lv, 3);
    assert_eq!(rem, 200);
}

#[test]
fn calculate_level_negative_entry_caps_progression() {
    let table = [100, -1, 300];
    let (lv, _rem) = calculate_level_from_total_exp(&table, 1, 500, 10);
    assert_eq!(lv, 2);
}

#[test]
fn cumulative_exp_grows_with_target_level() {
    let table = [5, 7, 11, 13];
    let mut prev = cumulative_exp(&table, 1);
    for lv in 2..8 {
        let cur = cumulative_exp(&table, lv);
        assert!(cur >= prev);
        prev = cur;
    }
    assert_eq!(prev, 36);
}

#[test]
fn calculate_level_more_exp_never_lowers_level() {
    let table = [100, 200, 300];
    let mut prev = 0;
    for exp in [0i64, 99, 100, 299, 300, 599, 600, 10_000] {
        let (lv, _) = calculate_level_from_total_exp(&table, 1, exp, 10);
        assert!(lv >= prev);
        prev = lv;
    }
    assert_eq!(prev, 4);
}
