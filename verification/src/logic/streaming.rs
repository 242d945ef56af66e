//! The per-tick streaming policy: which candidates of a bucket are ghosted
//! in, refreshed or deferred, and which tracked entries leave.
//!
//! Distances and zone classification are computed by the caller from world
//! positions; what is decided here works on the zone each candidate falls in.

use crate::logic::interest::{
    bucket_count, lemma_bucket_count_insert, sat_elapsed, InterestEntry, InterestState,
    ReplicationZone, StreamBucket, STICKY_GRACE_MS,
};
use std::collections::HashMap;
use vstd::prelude::*;

verus! {

broadcast use vstd::std_specs::hash::group_hash_axioms;

/// The entries after a tracked `id` is moved to `zone` at `now_ms`: its
/// engagement stamp is refreshed at Combat range or closer. Untracked ids
/// leave the entries as they are.
pub open spec fn touched_entries(
    m: Map<u64, InterestEntry>,
    id: u64,
    zone: ReplicationZone,
    now_ms: u64,
) -> Map<u64, InterestEntry> {
    if m.contains_key(id) {
        m.insert(
            id,
            InterestEntry {
                zone,
                last_close_ms: if zone.spec_index() <= 1 {
                    now_ms
                } else {
                    m[id].last_close_ms
                },
                ..m[id]
            },
        )
    } else {
        m
    }
}

/// The entry recorded when a streamed entity is ghosted in.
pub open spec fn streamed_entry(zone: ReplicationZone, bucket: StreamBucket, now_ms: u64) -> InterestEntry {
    InterestEntry {
        zone,
        bucket,
        always_resident: false,
        last_sync_ms: now_ms,
        last_close_ms: if zone.spec_index() <= 1 {
            now_ms
        } else {
            0
        },
    }
}

/// Whether every bucket is at or below its concurrent cap.
pub open spec fn within_caps(m: Map<u64, InterestEntry>) -> bool {
    forall|b: StreamBucket| #[trigger] bucket_count(m, b) <= b.spec_concurrent_cap()
}

/// Only enemies entering the innermost zone go through the visibility check.
pub open spec fn needs_visibility_check(bucket: StreamBucket, zone: ReplicationZone) -> bool {
    bucket == StreamBucket::Enemy && zone == ReplicationZone::Immediate
}

/// What a streaming pass did with one candidate.
#[derive(Debug, Clone, Copy, PartialEq, Eq, Structural)]
pub enum StreamStep {
    /// The candidate's zone is not due this tick: only its zone was updated.
    Reclassified,
    /// Already ghosted in: its zone was refreshed.
    Refreshed,
    /// The tick's spawn budget is spent: left for a later tick.
    Deferred,
    /// The bucket is at its concurrent cap: the pass is over.
    Stopped,
    /// Killed too recently to come back.
    CoolingDown,
    /// May come in once the caller's visibility check passes.
    CheckVisibility,
    /// Ghosted in.
    Admitted,
}

/// The outcome the policy gives a candidate of `bucket` in `zone`, in the
/// order the checks run.
pub open spec fn step_for(
    m: Map<u64, InterestEntry>,
    bucket: StreamBucket,
    budget_left: usize,
    id: u64,
    zone: ReplicationZone,
    zone_due: bool,
    cooling_down: bool,
) -> StreamStep {
    if !zone_due {
        StreamStep::Reclassified
    } else if m.contains_key(id) {
        StreamStep::Refreshed
    } else if budget_left == 0 {
        StreamStep::Deferred
    } else if bucket_count(m, bucket) >= bucket.spec_concurrent_cap() {
        StreamStep::Stopped
    } else if cooling_down {
        StreamStep::CoolingDown
    } else if needs_visibility_check(bucket, zone) {
        StreamStep::CheckVisibility
    } else {
        StreamStep::Admitted
    }
}

/// Re-filing a tracked entry under a new zone leaves every bucket's count as it was.
proof fn lemma_touch_keeps_counts(m: Map<u64, InterestEntry>, id: u64, zone: ReplicationZone, now_ms: u64)
    requires
        m.dom().finite(),
    ensures
        touched_entries(m, id, zone, now_ms).dom().finite(),
        forall|b: StreamBucket| #[trigger]
            bucket_count(touched_entries(m, id, zone, now_ms), b) == bucket_count(m, b),
{
    if m.contains_key(id) {
        let e = touched_entries(m, id, zone, now_ms)[id];
        assert forall|b: StreamBucket| #[trigger]
            bucket_count(touched_entries(m, id, zone, now_ms), b) == bucket_count(m, b) by {
            lemma_bucket_count_insert(m, id, e, b);
        }
        lemma_bucket_count_insert(m, id, e, StreamBucket::Enemy);
    }
}

/// Ghosting in a new id under a bucket that is below its cap keeps every bucket within its cap.
proof fn lemma_admission_within_caps(m: Map<u64, InterestEntry>, id: u64, e: InterestEntry)
    requires
        m.dom().finite(),
        !m.contains_key(id),
        bucket_count(m, e.bucket) < e.bucket.spec_concurrent_cap(),
    ensures
        m.insert(id, e).dom().finite(),
        forall|b: StreamBucket|
            bucket_count(m, b) <= b.spec_concurrent_cap() ==> #[trigger] bucket_count(m.insert(id, e), b)
                <= b.spec_concurrent_cap(),
{
    assert forall|b: StreamBucket|
        bucket_count(m, b) <= b.spec_concurrent_cap() implies #[trigger] bucket_count(m.insert(id, e), b)
        <= b.spec_concurrent_cap() by {
        lemma_bucket_count_insert(m, id, e, b);
    }
    lemma_bucket_count_insert(m, id, e, e.bucket);
}

/// One bucket's streaming pass in one tick: the spawn budget left, whether
/// the concurrent cap ended the pass, and the candidate awaiting its
/// visibility check.
#[derive(Debug)]
pub struct StreamPass {
    bucket: StreamBucket,
    budget_left: usize,
    stopped: bool,
    pending: Option<(u64, ReplicationZone)>,
}

impl StreamPass {
    pub closed spec fn spec_bucket(&self) -> StreamBucket {
        self.bucket
    }

    pub closed spec fn spec_budget_left(&self) -> usize {
        self.budget_left
    }

    pub closed spec fn spec_stopped(&self) -> bool {
        self.stopped
    }

    /// The candidate (id and zone) awaiting its visibility check.
    pub closed spec fn spec_pending(&self) -> Option<(u64, ReplicationZone)> {
        self.pending
    }

    /// How many candidates this pass has ghosted in.
    pub open spec fn admitted(&self) -> int {
        self.spec_bucket().spec_spawn_budget() - self.spec_budget_left()
    }

    /// The budget never exceeds the bucket's spawn budget, and a candidate
    /// awaits its visibility check only while budget is left.
    pub closed spec fn wf(&self) -> bool {
        &&& self.budget_left <= self.bucket.spec_spawn_budget()
        &&& (self.pending is Some ==> self.budget_left > 0)
    }

    /// A fresh pass over `bucket` with the bucket's whole spawn budget.
    pub fn new(bucket: StreamBucket) -> (p: Self)
        ensures
            p.wf(),
            p.spec_bucket() == bucket,
            p.spec_budget_left() == bucket.spec_spawn_budget(),
            !p.spec_stopped(),
            p.spec_pending() is None,
            p.admitted() == 0,
    {
        StreamPass { bucket, budget_left: bucket.spawn_budget(), stopped: false, pending: None }
    }

    pub fn budget_left(&self) -> (n: usize)
        ensures
            n == self.spec_budget_left(),
    {
        self.budget_left
    }

    /// Whether the concurrent cap has ended the pass.
    pub fn is_stopped(&self) -> (b: bool)
        ensures
            b == self.spec_stopped(),
    {
        self.stopped
    }

    /// Runs the policy on one candidate `id` that falls in `zone`:
    /// a zone that is not due only reclassifies it; a tracked one is
    /// refreshed; then the spawn budget, the concurrent cap (which ends the
    /// pass), the respawn cooldown and the visibility check decide whether it
    /// is ghosted in. Once the pass has stopped nothing more happens.
    pub fn consider(
        &mut self,
        interest: &mut InterestState,
        id: u64,
        zone: ReplicationZone,
        zones_due: &[bool; 4],
        cooling_down: bool,
        now_ms: u64,
    ) -> (step: StreamStep)
        requires
            old(self).wf(),
            old(interest).wf(),
        ensures
            final(self).wf(),
            final(interest).wf(),
            final(self).spec_bucket() == old(self).spec_bucket(),
            forall|i: int|
                0 <= i < 4 ==> #[trigger] final(interest).spec_zone_last_check(i) == old(
                    interest,
                ).spec_zone_last_check(i),
            final(interest).spec_due_mask() == old(interest).spec_due_mask(),
            within_caps(old(interest).entries_view()) ==> within_caps(final(interest).entries_view()),
            old(self).spec_stopped() ==> {
                &&& step == StreamStep::Stopped
                &&& final(interest).entries_view() == old(interest).entries_view()
                &&& final(self).spec_stopped()
                &&& final(self).spec_budget_left() == old(self).spec_budget_left()
                &&& final(self).spec_pending() == old(self).spec_pending()
            },
            !old(self).spec_stopped() ==> {
                let m = old(interest).entries_view();
                let bucket = old(self).spec_bucket();
                &&& step == step_for(
                    m,
                    bucket,
                    old(self).spec_budget_left(),
                    id,
                    zone,
                    zones_due@[zone.spec_index() as int],
                    cooling_down,
                )
                &&& final(interest).entries_view() == (match step {
                    StreamStep::Reclassified => touched_entries(m, id, zone, now_ms),
                    StreamStep::Refreshed => touched_entries(m, id, zone, now_ms),
                    StreamStep::Admitted => m.insert(id, streamed_entry(zone, bucket, now_ms)),
                    _ => m,
                })
                &&& final(self).spec_stopped() == (step == StreamStep::Stopped)
                &&& final(self).spec_pending() == (if step == StreamStep::CheckVisibility {
                    Some((id, zone))
                } else {
                    None
                })
                &&& final(self).spec_budget_left() == old(self).spec_budget_left() - (if step
                    == StreamStep::Admitted {
                    1int
                } else {
                    0int
                })
            },
    {
        if self.stopped {
            return StreamStep::Stopped;
        }
        self.pending = None;
        let ghost m = interest.entries_view();
        proof {
            interest.lemma_wf_finite();
            lemma_touch_keeps_counts(m, id, zone, now_ms);
        }
        if !zones_due[zone.index()] {
            interest.update_zone(id, zone, now_ms);
            return StreamStep::Reclassified;
        }
        if interest.touch_or_classify(id, zone, now_ms) {
            return StreamStep::Refreshed;
        }
        if self.budget_left == 0 {
            return StreamStep::Deferred;
        }
        if interest.at_capacity(self.bucket) {
            self.stopped = true;
            return StreamStep::Stopped;
        }
        if cooling_down {
            return StreamStep::CoolingDown;
        }
        if self.bucket == StreamBucket::Enemy && zone == ReplicationZone::Immediate {
            self.pending = Some((id, zone));
            return StreamStep::CheckVisibility;
        }
        proof {
            lemma_admission_within_caps(m, id, streamed_entry(zone, self.bucket, now_ms));
        }
        interest.ghost_in(id, zone, self.bucket, now_ms);
        self.budget_left = self.budget_left - 1;
        StreamStep::Admitted
    }

    /// Ghosts in the candidate that passed its visibility check, if it is
    /// still untracked and its bucket still below the cap; returns whether
    /// it came in.
    pub fn admit_visible(&mut self, interest: &mut InterestState, now_ms: u64) -> (admitted: bool)
        requires
            old(self).wf(),
            old(interest).wf(),
        ensures
            final(self).wf(),
            final(interest).wf(),
            final(self).spec_bucket() == old(self).spec_bucket(),
            final(self).spec_stopped() == old(self).spec_stopped(),
            final(self).spec_pending() is None,
            forall|i: int|
                0 <= i < 4 ==> #[trigger] final(interest).spec_zone_last_check(i) == old(
                    interest,
                ).spec_zone_last_check(i),
            final(interest).spec_due_mask() == old(interest).spec_due_mask(),
            within_caps(old(interest).entries_view()) ==> within_caps(final(interest).entries_view()),
            match old(self).spec_pending() {
                Some((id, zone)) => {
                    let m = old(interest).entries_view();
                    let bucket = old(self).spec_bucket();
                    &&& admitted == (!m.contains_key(id) && bucket_count(m, bucket)
                        < bucket.spec_concurrent_cap())
                    &&& final(interest).entries_view() == (if admitted {
                        m.insert(id, streamed_entry(zone, bucket, now_ms))
                    } else {
                        m
                    })
                    &&& final(self).spec_budget_left() == old(self).spec_budget_left() - (if admitted {
                        1int
                    } else {
                        0int
                    })
                },
                None => {
                    &&& !admitted
                    &&& final(interest).entries_view() == old(interest).entries_view()
                    &&& final(self).spec_budget_left() == old(self).spec_budget_left()
                },
            },
    {
        match self.pending {
            Some((id, zone)) => {
                self.pending = None;
                if interest.is_ghosted_in(id) || interest.at_capacity(self.bucket) {
                    return false;
                }
                proof {
                    interest.lemma_wf_finite();
                    lemma_admission_within_caps(
                        interest.entries_view(),
                        id,
                        streamed_entry(zone, self.bucket, now_ms),
                    );
                }
                interest.ghost_in(id, zone, self.bucket, now_ms);
                self.budget_left = self.budget_left - 1;
                true
            },
            None => false,
        }
    }
}

/// Whether a tracked entry leaves this tick: entries installed for the
/// whole scene and entries whose zone is not due stay; an entry whose entity
/// is gone leaves; otherwise it leaves when it has crossed its zone's leave
/// radius and is not retained (an enemy within the sticky cap, during a
/// battle or recently engaged).
pub fn should_leave(
    entry: &InterestEntry,
    zones_due: &[bool; 4],
    entity_present: bool,
    within_leave_radius: bool,
    beyond_sticky_cap: bool,
    now_ms: u64,
    in_battle: bool,
) -> (leave: bool)
    ensures
        leave == (!entry.always_resident && zones_due@[entry.zone.spec_index() as int] && (
        !entity_present || (!within_leave_radius && !(entry.bucket == StreamBucket::Enemy
            && !beyond_sticky_cap && (in_battle || (entry.last_close_ms > 0 && sat_elapsed(
            now_ms,
            entry.last_close_ms,
        ) < STICKY_GRACE_MS)))))),
{
    if entry.always_resident {
        return false;
    }
    if !zones_due[entry.zone.index()] {
        return false;
    }
    if !entity_present {
        return true;
    }
    if within_leave_radius {
        return false;
    }
    !crate::logic::interest::should_retain(entry, beyond_sticky_cap, now_ms, in_battle)
}


/// How long (ms) a killed enemy stays away before it may stream back in.
pub const RESPAWN_COOLDOWN_MS: u64 = 60_000;
/// Minimum time (ms) between two sweeps of the kill records.
pub const CLEANUP_INTERVAL_MS: u64 = 5_000;

/// The kill records kept at `now_ms`: those younger than the respawn cooldown.
pub open spec fn live_kills(m: Map<u64, u64>, now_ms: u64) -> Map<u64, u64> {
    m.restrict(m.dom().filter(|id: u64| sat_elapsed(now_ms, m[id]) < RESPAWN_COOLDOWN_MS))
}

/// When each recently killed enemy died, and when the records were last swept.
#[derive(Debug, Clone)]
pub struct RespawnLedger {
    killed_at: HashMap<u64, u64>,
    last_cleanup_ms: u64,
}

impl RespawnLedger {
    /// Kill time (ms) by entity id.
    pub closed spec fn kills(&self) -> Map<u64, u64> {
        self.killed_at@
    }

    pub closed spec fn spec_last_cleanup(&self) -> u64 {
        self.last_cleanup_ms
    }

    pub fn new() -> (l: Self)
        ensures
            l.kills() == Map::<u64, u64>::empty(),
            l.spec_last_cleanup() == 0,
    {
        RespawnLedger { killed_at: HashMap::new(), last_cleanup_ms: 0 }
    }

    /// Forgets every record, as on a scene change.
    pub fn clear(&mut self)
        ensures
            final(self).kills() == Map::<u64, u64>::empty(),
            final(self).spec_last_cleanup() == 0,
    {
        self.killed_at.clear();
        self.last_cleanup_ms = 0;
    }

    /// Records that `id` was killed at `now_ms`.
    pub fn record_kill(&mut self, id: u64, now_ms: u64)
        ensures
            final(self).kills() == old(self).kills().insert(id, now_ms),
            final(self).spec_last_cleanup() == old(self).spec_last_cleanup(),
    {
        self.killed_at.insert(id, now_ms);
    }

    /// Whether `id` has a kill record, and so may not stream back in yet.
    pub fn contains_key(&self, id: &u64) -> (b: bool)
        ensures
            b == self.kills().contains_key(*id),
    {
        self.killed_at.contains_key(id)
    }

    pub fn is_empty(&self) -> (b: bool)
        ensures
            b == (self.kills().len() == 0),
    {
        self.killed_at.is_empty()
    }

    /// Number of kill records.
    pub fn len(&self) -> (n: usize)
        ensures
            n == self.kills().len(),
    {
        self.killed_at.len()
    }

    /// At most once per cleanup interval, drops the records whose cooldown
    /// has run out at `now_ms`; returns whether the sweep ran.
    pub fn sweep(&mut self, now_ms: u64) -> (ran: bool)
        ensures
            ran == (sat_elapsed(now_ms, old(self).spec_last_cleanup()) >= CLEANUP_INTERVAL_MS),
            final(self).kills() == (if ran {
                live_kills(old(self).kills(), now_ms)
            } else {
                old(self).kills()
            }),
            final(self).spec_last_cleanup() == (if ran {
                now_ms
            } else {
                old(self).spec_last_cleanup()
            }),
    {
        if now_ms.saturating_sub(self.last_cleanup_ms) < CLEANUP_INTERVAL_MS {
            return false;
        }
        let ghost m = self.killed_at@;
        let mut kept: HashMap<u64, u64> = HashMap::new();
        let ghost pairs = vstd::std_specs::iter::IteratorSpec::remaining(
            &vstd::std_specs::hash::spec_hash_map_iter(&self.killed_at),
        );
        for pair in it: self.killed_at.iter()
            invariant
                m == self.killed_at@,
                it.seq() == pairs,
                forall|k: u64| #[trigger] kept@.contains_key(k) ==> m.contains_key(k) && kept@[k] == m[k]
                    && sat_elapsed(now_ms, m[k]) < RESPAWN_COOLDOWN_MS,
                forall|j: int|
                    0 <= j < it.index() && sat_elapsed(now_ms, *it.seq()[j].1) < RESPAWN_COOLDOWN_MS
                        ==> #[trigger] kept@.contains_key(*it.seq()[j].0),
        {
            let (id, at) = pair;
            if now_ms.saturating_sub(*at) < RESPAWN_COOLDOWN_MS {
                kept.insert(*id, *at);
            }
        }
        proof {
            assert forall|k: u64| m.contains_key(k) && sat_elapsed(now_ms, m[k]) < RESPAWN_COOLDOWN_MS implies #[trigger] kept@.contains_key(k) by {
                assert(pairs.contains((&k, &m[k])));
                let j = choose|j: int| 0 <= j < pairs.len() && pairs[j] == (&k, &m[k]);
                assert(kept@.contains_key(*pairs[j].0));
            }
            assert(kept@ =~= live_kills(m, now_ms));
        }
        self.killed_at = kept;
        self.last_cleanup_ms = now_ms;
        true
    }
}


/// A pass never ghosts in more candidates than its bucket's spawn budget.
pub proof fn lemma_admitted_within_budget(p: &StreamPass)
    requires
        p.wf(),
    ensures
        0 <= p.admitted() <= p.spec_bucket().spec_spawn_budget(),
{
}

/// A kill record younger than the respawn cooldown survives a sweep, and a
/// candidate whose cooldown is read from the swept records is neither ghosted
/// in nor sent to the visibility check.
pub proof fn lemma_cooldown_blocks_respawn(
    kills: Map<u64, u64>,
    now_ms: u64,
    id: u64,
    m: Map<u64, InterestEntry>,
    bucket: StreamBucket,
    budget_left: usize,
    zone: ReplicationZone,
    zone_due: bool,
)
    requires
        kills.contains_key(id),
        sat_elapsed(now_ms, kills[id]) < RESPAWN_COOLDOWN_MS,
    ensures
        live_kills(kills, now_ms).contains_key(id),
        step_for(m, bucket, budget_left, id, zone, zone_due, live_kills(kills, now_ms).contains_key(id))
            != StreamStep::Admitted,
        step_for(m, bucket, budget_left, id, zone, zone_due, live_kills(kills, now_ms).contains_key(id))
            != StreamStep::CheckVisibility,
{
}

} // verus!
