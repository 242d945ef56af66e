//! Character progression: experience accumulation and level calculation.

use vstd::prelude::*;

verus! {

/// Cost of advancing out of level `i + 1` as `cumulative_exp` sees it:
/// entries past the end of the table count as 0.
pub open spec fn table_cost(table: Seq<i32>, i: int) -> int {
    if 0 <= i < table.len() {
        table[i] as int
    } else {
        0
    }
}

/// True once a negative entry has been met among the first `k` entries.
pub open spec fn halted(table: Seq<i32>, k: nat) -> bool
    decreases k,
{
    k > 0 && (halted(table, (k - 1) as nat) || table_cost(table, k - 1) < 0)
}

/// Sum of the first `k` level-up costs, stopping at the first negative entry.
pub open spec fn cum_exp(table: Seq<i32>, k: nat) -> int
    decreases k,
{
    if k == 0 {
        0
    } else if halted(table, k) {
        cum_exp(table, (k - 1) as nat)
    } else {
        cum_exp(table, (k - 1) as nat) + table_cost(table, k - 1)
    }
}

/// Cumulative exp required to reach `target_level` from level 1.
pub open spec fn spec_cumulative_exp(table: Seq<i32>, target_level: int) -> int {
    cum_exp(table, (target_level - 1) as nat)
}

proof fn lemma_cum_exp_bounds(table: Seq<i32>, k: nat)
    ensures
        0 <= cum_exp(table, k) <= k * 0x7fff_ffff,
    decreases k,
{
    if k > 0 {
        lemma_cum_exp_bounds(table, (k - 1) as nat);
    }
}

/// Once a negative entry has been seen, the sum no longer changes.
proof fn lemma_cum_exp_frozen(table: Seq<i32>, j: nat, k: nat)
    requires
        halted(table, j),
        j <= k,
    ensures
        cum_exp(table, k) == cum_exp(table, j),
        halted(table, k),
    decreases k - j,
{
    if k > j {
        lemma_cum_exp_frozen(table, j, (k - 1) as nat);
    }
}

/// Entries past the end of the table contribute nothing.
proof fn lemma_cum_exp_past_end(table: Seq<i32>, k: nat)
    requires
        table.len() <= k,
    ensures
        cum_exp(table, k) == cum_exp(table, table.len()),
        halted(table, k) == halted(table, table.len()),
    decreases k - table.len(),
{
    if k > table.len() {
        lemma_cum_exp_past_end(table, (k - 1) as nat);
    }
}

/// The cumulative exp never decreases as the target level grows.
pub proof fn lemma_cum_exp_monotone(table: Seq<i32>, j: nat, k: nat)
    requires
        j <= k,
    ensures
        cum_exp(table, j) <= cum_exp(table, k),
    decreases k - j,
{
    if k > j {
        lemma_cum_exp_monotone(table, j, (k - 1) as nat);
        lemma_cum_exp_bounds(table, k);
    }
}

/// Cumulative exp required to reach `target_level` from level 1.
///
/// A level-1 target needs no exp; entries missing from `level_up_exp`
/// count as 0; a negative entry stops the accumulation.
pub fn cumulative_exp(level_up_exp: &[i32], target_level: i32) -> (total: i64)
    requires
        target_level >= 1,
    ensures
        total == spec_cumulative_exp(level_up_exp@, target_level as int),
        0 <= total,
{
    let n: usize = (target_level - 1) as usize;
    let len: usize = level_up_exp.len();
    let ghost t = level_up_exp@;
    let mut total: i64 = 0;
    let mut i: usize = 0;
    let mut stopped = false;
    while i < n && i < len && !stopped
        invariant
            t == level_up_exp@,
            len == t.len(),
            n == target_level - 1,
            i <= n,
            i <= len,
            !stopped ==> !halted(t, i as nat),
            stopped ==> i < len && halted(t, (i + 1) as nat) && i < n,
            total == cum_exp(t, i as nat),
            0 <= total <= i * 0x7fff_ffff,
        decreases n - i, (if stopped { 0int } else { 1int }),
    {
        let cost = level_up_exp[i];
        if cost < 0 {
            stopped = true;
        } else {
            total = total + cost as i64;
            i = i + 1;
        }
    }
    proof {
        if stopped {
            assert(cum_exp(t, (i + 1) as nat) == cum_exp(t, i as nat));
            lemma_cum_exp_frozen(t, (i + 1) as nat, n as nat);
        } else if i < n {
            lemma_cum_exp_past_end(t, n as nat);
        }
    }
    total
}

/// Cost of leaving `level` as the level-up loop sees it: a missing entry
/// counts as negative, which stops progression.
pub open spec fn step_cost(table: Seq<i32>, level: int) -> int {
    if 0 <= level - 1 < table.len() {
        table[level - 1] as int
    } else {
        -1
    }
}

/// Whether a character at `level` with `total_exp` moves on to `level + 1`.
pub open spec fn can_advance(table: Seq<i32>, level: int, total_exp: int) -> bool {
    step_cost(table, level) >= 0 && total_exp >= spec_cumulative_exp(table, level + 1)
}

/// `level` is where a character starting at `current` with `total_exp` stops:
/// every level passed could be advanced from, and the stopping level is
/// either the cap or a level that cannot be advanced from.
pub open spec fn is_level_reached(
    table: Seq<i32>,
    current: int,
    total_exp: int,
    max_level: int,
    level: int,
) -> bool {
    &&& current <= level
    &&& current >= max_level ==> level == current
    &&& current < max_level ==> level <= max_level
    &&& forall|l: int| current <= l < level ==> #[trigger] can_advance(table, l, total_exp)
    &&& level < max_level ==> !can_advance(table, level, total_exp)
}

/// Reaching a level never needs less exp than reaching a lower one.
pub proof fn lemma_cumulative_exp_monotone(table: Seq<i32>, lower: int, higher: int)
    requires
        1 <= lower <= higher,
    ensures
        0 <= spec_cumulative_exp(table, lower) <= spec_cumulative_exp(table, higher),
{
    lemma_cum_exp_monotone(table, (lower - 1) as nat, (higher - 1) as nat);
    lemma_cum_exp_bounds(table, (lower - 1) as nat);
}

/// More total exp never yields a lower level: for the same table, start and
/// cap, the level reached is monotone in the total exp.
pub proof fn lemma_level_monotone_in_exp(
    table: Seq<i32>,
    current: int,
    max_level: int,
    less_exp: int,
    more_exp: int,
    level_less: int,
    level_more: int,
)
    requires
        less_exp <= more_exp,
        is_level_reached(table, current, less_exp, max_level, level_less),
        is_level_reached(table, current, more_exp, max_level, level_more),
    ensures
        level_less <= level_more,
{
    if level_less > level_more {
        assert(can_advance(table, level_more, less_exp));
        assert(can_advance(table, level_more, more_exp));
    }
}

/// Advances `current_level` as far as possible given `new_total_exp`, capped at `max_level`.
/// Returns `(achieved_level, remaining_exp_within_that_level)`.
///
/// The achieved level is the first level, starting at `current_level`, that either
/// reaches `max_level`, has no non-negative table entry, or needs more exp than
/// `new_total_exp`; the remainder is the exp beyond that level's cumulative cost,
/// clamped at 0 and truncated to `i32`.
pub fn calculate_level_from_total_exp(
    level_up_exp: &[i32],
    current_level: i32,
    new_total_exp: i64,
    max_level: i32,
) -> (res: (i32, i32))
    requires
        current_level >= 1,
        new_total_exp - spec_cumulative_exp(level_up_exp@, current_level as int) >= i64::MIN,
    ensures
        is_level_reached(
            level_up_exp@,
            current_level as int,
            new_total_exp as int,
            max_level as int,
            res.0 as int,
        ),
        res.1 == ({
            let diff = new_total_exp - spec_cumulative_exp(level_up_exp@, res.0 as int);
            if diff > 0 {
                diff
            } else {
                0
            }
        }) as i32,
{
    let ghost t = level_up_exp@;
    let len: usize = level_up_exp.len();
    let mut lv: i32 = current_level;
    let mut done = false;
    while lv < max_level && !done
        invariant
            t == level_up_exp@,
            len == t.len(),
            current_level >= 1,
            current_level <= lv,
            current_level >= max_level ==> lv == current_level,
            current_level < max_level ==> lv <= max_level,
            forall|l: int|
                current_level <= l < lv ==> #[trigger] can_advance(t, l, new_total_exp as int),
            done ==> !can_advance(t, lv as int, new_total_exp as int),
        decreases max_level - lv, (if done { 0int } else { 1int }),
    {
        let idx: usize = (lv - 1) as usize;
        let cost: i32 = if idx < len {
            level_up_exp[idx]
        } else {
            -1
        };
        if cost < 0 {
            done = true;
        } else {
            let cum_next = cumulative_exp(level_up_exp, lv + 1);
            if new_total_exp >= cum_next {
                lv = lv + 1;
            } else {
                done = true;
            }
        }
    }
    let cum_at_lv = cumulative_exp(level_up_exp, lv);
    proof {
        lemma_cum_exp_monotone(t, (current_level - 1) as nat, (lv - 1) as nat);
        if lv > current_level {
            assert(can_advance(t, lv - 1, new_total_exp as int));
        }
    }
    let diff = new_total_exp - cum_at_lv;
    let clamped = if diff > 0 {
        diff
    } else {
        0
    };
    (lv, clamped as i32)
}

} // verus!
