//! Interest management bookkeeping: replication zones, streaming buckets,
//! the entity-id hasher and the per-tick occlusion cache.

use std::collections::HashMap;
use vstd::prelude::*;

verus! {

broadcast use vstd::std_specs::hash::group_hash_axioms;

/// Minimum milliseconds between spatial checks for each zone (innermost first).
pub open spec fn spec_zone_tick_ms(i: int) -> u64 {
    if i == 0 {
        16
    } else if i == 1 {
        50
    } else if i == 2 {
        160
    } else {
        500
    }
}

/// Hard ceiling on new enemy spawns per tick.
pub const ENEMY_SPAWN_BUDGET_PER_TICK: usize = 6;
/// Hard ceiling on new interactive spawns per tick.
pub const INTERACTIVE_SPAWN_BUDGET_PER_TICK: usize = 8;
/// Hard ceiling on new NPC spawns per tick.
pub const NPC_SPAWN_BUDGET_PER_TICK: usize = 4;

/// Hard ceiling on concurrently ghosted-in enemies.
pub const ENEMY_CONCURRENT_CAP: usize = 48;
/// Hard ceiling on concurrently ghosted-in interactives. The always-resident
/// interactives installed at scene load count against it, so a scene with many
/// residents leaves correspondingly fewer slots for streamed ones.
pub const INTERACTIVE_CONCURRENT_CAP: usize = 32;
/// Hard ceiling on concurrently ghosted-in NPCs.
pub const NPC_CONCURRENT_CAP: usize = 16;

/// How long (ms) an enemy seen at Combat range or closer stays immune to ghost-out.
pub const STICKY_GRACE_MS: u64 = 5_000;

/// The replication tier an entity currently occupies, innermost first.
#[derive(Debug, Clone, Copy, PartialEq, Eq, Structural)]
pub enum ReplicationZone {
    /// 0–40 wu, 16 ms tick.
    Immediate,
    /// 40–80 wu, 50 ms tick.
    Combat,
    /// 80–150 wu, 160 ms tick.
    Distant,
    /// 150–250 wu, 500 ms tick.
    Background,
}

/// The zone with index `i` (0..=3).
pub open spec fn zone_of_index(i: int) -> ReplicationZone {
    if i == 0 {
        ReplicationZone::Immediate
    } else if i == 1 {
        ReplicationZone::Combat
    } else if i == 2 {
        ReplicationZone::Distant
    } else {
        ReplicationZone::Background
    }
}

impl ReplicationZone {
    pub open spec fn spec_index(self) -> usize {
        match self {
            ReplicationZone::Immediate => 0,
            ReplicationZone::Combat => 1,
            ReplicationZone::Distant => 2,
            ReplicationZone::Background => 3,
        }
    }

    /// Index into the per-zone tables.
    #[verifier::when_used_as_spec(spec_index)]
    pub fn index(self) -> (i: usize)
        ensures
            i == self.spec_index(),
    {
        match self {
            ReplicationZone::Immediate => 0,
            ReplicationZone::Combat => 1,
            ReplicationZone::Distant => 2,
            ReplicationZone::Background => 3,
        }
    }

    /// Minimum milliseconds between checks for this zone.
    pub fn tick_ms(self) -> (ms: u64)
        ensures
            ms == spec_zone_tick_ms(self.spec_index() as int),
    {
        match self {
            ReplicationZone::Immediate => 16,
            ReplicationZone::Combat => 50,
            ReplicationZone::Distant => 160,
            ReplicationZone::Background => 500,
        }
    }

    /// The zone with the given index.
    pub fn from_index(i: usize) -> (z: Self)
        requires
            i < 4,
        ensures
            z == zone_of_index(i as int),
            z.spec_index() == i,
    {
        if i == 0 {
            ReplicationZone::Immediate
        } else if i == 1 {
            ReplicationZone::Combat
        } else if i == 2 {
            ReplicationZone::Distant
        } else {
            ReplicationZone::Background
        }
    }
}

/// Outermost zone enemies may occupy: they are streamed in up to the
/// Distant zone (150 wu), the largest query of any bucket.
pub const ENEMY_MAX_ZONE: ReplicationZone = ReplicationZone::Distant;
/// Outermost zone interactives may occupy.
pub const INTERACTIVE_MAX_ZONE: ReplicationZone = ReplicationZone::Combat;
/// Outermost zone NPCs may occupy.
pub const NPC_MAX_ZONE: ReplicationZone = ReplicationZone::Combat;

/// Streaming buckets tracked separately for budgeting.
#[derive(Debug, Clone, Copy, PartialEq, Eq, Structural)]
pub enum StreamBucket {
    Enemy,
    Interactive,
    Npc,
}

/// Number of streaming buckets.
pub const STREAM_BUCKET_COUNT: usize = 3;

impl StreamBucket {
    pub open spec fn spec_index(self) -> usize {
        match self {
            StreamBucket::Enemy => 0,
            StreamBucket::Interactive => 1,
            StreamBucket::Npc => 2,
        }
    }

    pub open spec fn spec_concurrent_cap(self) -> usize {
        match self {
            StreamBucket::Enemy => ENEMY_CONCURRENT_CAP,
            StreamBucket::Interactive => INTERACTIVE_CONCURRENT_CAP,
            StreamBucket::Npc => NPC_CONCURRENT_CAP,
        }
    }

    #[verifier::when_used_as_spec(spec_index)]
    pub fn index(self) -> (i: usize)
        ensures
            i == self.spec_index(),
    {
        match self {
            StreamBucket::Enemy => 0,
            StreamBucket::Interactive => 1,
            StreamBucket::Npc => 2,
        }
    }

    /// Concurrent ghosted-in cap for this bucket.
    #[verifier::when_used_as_spec(spec_concurrent_cap)]
    pub fn concurrent_cap(self) -> (cap: usize)
        ensures
            cap == self.spec_concurrent_cap(),
    {
        match self {
            StreamBucket::Enemy => ENEMY_CONCURRENT_CAP,
            StreamBucket::Interactive => INTERACTIVE_CONCURRENT_CAP,
            StreamBucket::Npc => NPC_CONCURRENT_CAP,
        }
    }

    pub open spec fn spec_spawn_budget(self) -> usize {
        match self {
            StreamBucket::Enemy => ENEMY_SPAWN_BUDGET_PER_TICK,
            StreamBucket::Interactive => INTERACTIVE_SPAWN_BUDGET_PER_TICK,
            StreamBucket::Npc => NPC_SPAWN_BUDGET_PER_TICK,
        }
    }

    /// Per-tick spawn budget for this bucket.
    #[verifier::when_used_as_spec(spec_spawn_budget)]
    pub fn spawn_budget(self) -> (budget: usize)
        ensures
            budget == self.spec_spawn_budget(),
    {
        match self {
            StreamBucket::Enemy => ENEMY_SPAWN_BUDGET_PER_TICK,
            StreamBucket::Interactive => INTERACTIVE_SPAWN_BUDGET_PER_TICK,
            StreamBucket::Npc => NPC_SPAWN_BUDGET_PER_TICK,
        }
    }

    /// Outermost zone this bucket is allowed to occupy.
    pub fn max_zone(self) -> (z: ReplicationZone)
        ensures
            z == (match self {
                StreamBucket::Enemy => ENEMY_MAX_ZONE,
                StreamBucket::Interactive => INTERACTIVE_MAX_ZONE,
                StreamBucket::Npc => NPC_MAX_ZONE,
            }),
    {
        match self {
            StreamBucket::Enemy => ENEMY_MAX_ZONE,
            StreamBucket::Interactive => INTERACTIVE_MAX_ZONE,
            StreamBucket::Npc => NPC_MAX_ZONE,
        }
    }
}

/// Per-entity interest state.
#[derive(Debug, Clone, Copy, PartialEq, Eq, Structural)]
pub struct InterestEntry {
    /// Current replication zone of the entity.
    pub zone: ReplicationZone,
    /// Streaming bucket the entry is counted in.
    pub bucket: StreamBucket,
    /// Installed at scene load; exempt from leave-radius and orphan sweeps.
    pub always_resident: bool,
    /// When (ms) the entity was last synchronised to the client.
    pub last_sync_ms: u64,
    /// When (ms) the entity was last seen at Combat range or closer; 0 = never.
    pub last_close_ms: u64,
}

/// Multiplier of the FxHash step.
pub const FX_SEED: u64 = 0x517c_c1b7_2722_0a95;

/// Rotation of a 64-bit word left by 5 bits.
pub open spec fn rotl5(h: u64) -> u64 {
    (h << 5u64) | (h >> 59u64)
}

/// The byte-path hash state after folding `bytes` into `h`.
pub open spec fn fx_fold_bytes(h: u64, bytes: Seq<u8>) -> u64
    decreases bytes.len(),
{
    if bytes.len() == 0 {
        h
    } else {
        let h2 = fx_fold_bytes(h, bytes.drop_last());
        rotl5(h2).wrapping_mul(FX_SEED) ^ (bytes.last() as u64)
    }
}

/// Minimal FxHash-style hasher for densely packed `u64` entity ids.
#[derive(Debug, Clone, Copy, PartialEq, Eq, Structural)]
pub struct FxU64Hasher(pub u64);

impl Default for FxU64Hasher {
    fn default() -> (h: Self)
        ensures
            h.0 == 0,
    {
        FxU64Hasher(0)
    }
}

fn rotate_left_5(h: u64) -> (r: u64)
    ensures
        r == rotl5(h),
{
    (h << 5u64) | (h >> 59u64)
}

impl FxU64Hasher {
    /// Generic byte path: one rotate-multiply-xor step per byte.
    pub fn write(&mut self, bytes: &[u8])
        ensures
            final(self).0 == fx_fold_bytes(old(self).0, bytes@),
    {
        let mut h = self.0;
        let mut i: usize = 0;
        while i < bytes.len()
            invariant
                i <= bytes@.len(),
                h == fx_fold_bytes(old(self).0, bytes@.take(i as int)),
            decreases bytes.len() - i,
        {
            assert(bytes@.take(i + 1).drop_last() == bytes@.take(i as int));
            h = rotate_left_5(h).wrapping_mul(FX_SEED) ^ (bytes[i] as u64);
            i = i + 1;
        }
        assert(bytes@.take(bytes@.len() as int) == bytes@);
        self.0 = h;
    }

    /// Single-multiply FxHash step.
    pub fn write_u64(&mut self, n: u64)
        ensures
            final(self).0 == (rotl5(old(self).0) ^ n).wrapping_mul(FX_SEED),
    {
        self.0 = (rotate_left_5(self.0) ^ n).wrapping_mul(FX_SEED);
    }

    pub fn write_u32(&mut self, n: u32)
        ensures
            final(self).0 == (rotl5(old(self).0) ^ (n as u64)).wrapping_mul(FX_SEED),
    {
        self.write_u64(n as u64);
    }

    pub fn finish(&self) -> (h: u64)
        ensures
            h == self.0,
    {
        self.0
    }
}

/// Per-entity occlusion results valid for one Zone 0 tick.
#[derive(Debug, Clone)]
pub struct OcclusionCache {
    results: HashMap<u64, bool>,
    valid_until_ms: u64,
}

impl OcclusionCache {
    /// Cached results, by entity id.
    pub closed spec fn results_view(&self) -> Map<u64, bool> {
        self.results@
    }

    /// Entries are valid while `now_ms <= valid_until()`.
    pub closed spec fn valid_until(&self) -> u64 {
        self.valid_until_ms
    }

    pub fn new() -> (c: Self)
        ensures
            c.results_view() == Map::<u64, bool>::empty(),
            c.valid_until() == 0,
    {
        OcclusionCache { results: HashMap::new(), valid_until_ms: 0 }
    }

    /// The cached result for `entity_id`, or `None` when the cache is stale
    /// at `now_ms` or holds nothing for the entity.
    pub fn get(&self, entity_id: u64, now_ms: u64) -> (r: Option<bool>)
        ensures
            r == (if now_ms <= self.valid_until() && self.results_view().contains_key(entity_id) {
                Some(self.results_view()[entity_id])
            } else {
                None
            }),
    {
        if now_ms <= self.valid_until_ms {
            match self.results.get(&entity_id) {
                Some(b) => Some(*b),
                None => None,
            }
        } else {
            None
        }
    }

    /// The last time at which the cached results are still valid.
    pub fn deadline(&self) -> (d: u64)
        ensures
            d == self.valid_until(),
    {
        self.valid_until_ms
    }

    /// Stores a result; when `now_ms` has passed the deadline, all earlier
    /// entries are evicted first and the deadline moves to `now_ms + 16`.
    pub fn insert(&mut self, entity_id: u64, occluded: bool, now_ms: u64)
        requires
            now_ms > old(self).valid_until() ==> now_ms <= u64::MAX - 16,
        ensures
            now_ms > old(self).valid_until() ==> final(self).valid_until() == now_ms + 16
                && final(self).results_view() == Map::<u64, bool>::empty().insert(
                entity_id,
                occluded,
            ),
            now_ms <= old(self).valid_until() ==> final(self).valid_until() == old(self).valid_until()
                && final(self).results_view() == old(self).results_view().insert(
                entity_id,
                occluded,
            ),
    {
        if now_ms > self.valid_until_ms {
            self.results.clear();
            self.valid_until_ms = now_ms + 16;
        }
        self.results.insert(entity_id, occluded);
    }

    pub fn clear(&mut self)
        ensures
            final(self).results_view() == Map::<u64, bool>::empty(),
            final(self).valid_until() == 0,
    {
        self.results.clear();
        self.valid_until_ms = 0;
    }
}

impl Default for OcclusionCache {
    /// An empty cache.
    fn default() -> (c: Self)
        ensures
            c.results_view() == Map::<u64, bool>::empty(),
            c.valid_until() == 0,
    {
        OcclusionCache::new()
    }
}

/// Ids of the entries counted in bucket `b`.
pub open spec fn bucket_ids(m: Map<u64, InterestEntry>, b: StreamBucket) -> Set<u64> {
    m.dom().filter(|k: u64| m[k].bucket == b)
}

/// Number of entries counted in bucket `b`.
pub open spec fn bucket_count(m: Map<u64, InterestEntry>, b: StreamBucket) -> nat {
    bucket_ids(m, b).len()
}

/// The bucket with index `i` (0..=2).
pub open spec fn bucket_of_index(i: int) -> StreamBucket {
    if i == 0 {
        StreamBucket::Enemy
    } else if i == 1 {
        StreamBucket::Interactive
    } else {
        StreamBucket::Npc
    }
}

pub(crate) proof fn lemma_bucket_count_insert(m: Map<u64, InterestEntry>, k: u64, e: InterestEntry, b: StreamBucket)
    requires
        m.dom().finite(),
    ensures
        m.insert(k, e).dom().finite(),
        bucket_count(m.insert(k, e), b) + (if m.contains_key(k) && m[k].bucket == b { 1int } else { 0int })
            == bucket_count(m, b) + (if e.bucket == b { 1int } else { 0int }),
        bucket_count(m, b) <= m.dom().len(),
{
    let m2 = m.insert(k, e);
    let s1 = bucket_ids(m, b);
    let s2 = bucket_ids(m2, b);
    m.dom().lemma_len_filter(|x: u64| m[x].bucket == b);
    m2.dom().lemma_len_filter(|x: u64| m2[x].bucket == b);
    assert(s1.remove(k) =~= s2.remove(k));
    if s1.contains(k) {
        assert(s1.remove(k).len() + 1 == s1.len());
    } else {
        assert(s1.remove(k) =~= s1);
    }
    if s2.contains(k) {
        assert(s2.remove(k).len() + 1 == s2.len());
    } else {
        assert(s2.remove(k) =~= s2);
    }
}

pub(crate) proof fn lemma_bucket_count_remove(m: Map<u64, InterestEntry>, k: u64, b: StreamBucket)
    requires
        m.dom().finite(),
    ensures
        m.remove(k).dom().finite(),
        bucket_count(m.remove(k), b) + (if m.contains_key(k) && m[k].bucket == b { 1int } else { 0int })
            == bucket_count(m, b),
{
    let m2 = m.remove(k);
    let s1 = bucket_ids(m, b);
    let s2 = bucket_ids(m2, b);
    m.dom().lemma_len_filter(|x: u64| m[x].bucket == b);
    assert(s2 =~= s1.remove(k));
}

/// Ghosting an entity in and straight back out hands back the entry that went in and
/// leaves the tracked entries, and so every bucket's count, as they were before,
/// when the entity was not tracked yet.
pub proof fn lemma_ghost_in_out_round_trip(m: Map<u64, InterestEntry>, id: u64, e: InterestEntry)
    requires
        !m.contains_key(id),
    ensures
        m.insert(id, e).contains_key(id),
        m.insert(id, e)[id] == e,
        m.insert(id, e).remove(id) == m,
        forall|b: StreamBucket| #[trigger] bucket_count(m.insert(id, e).remove(id), b) == bucket_count(m, b),
{
    assert(m.insert(id, e).remove(id) =~= m);
}

/// Integer bookkeeping of the interest manager: ghosted-in entries, the live
/// count per streaming bucket, and the per-zone check scheduler.
#[derive(Debug, Clone)]
pub struct InterestState {
    entries: HashMap<u64, InterestEntry>,
    live_count: [usize; 3],
    zone_last_check: [u64; 4],
    last_due_mask: u8,
}

impl InterestState {
    /// Ghosted-in entries by entity id.
    pub closed spec fn entries_view(&self) -> Map<u64, InterestEntry> {
        self.entries@
    }

    /// The live counter kept for bucket `b`.
    pub closed spec fn spec_live_count(&self, b: StreamBucket) -> usize {
        self.live_count@[b.spec_index() as int]
    }

    /// When zone `i` last ran its spatial check.
    pub closed spec fn spec_zone_last_check(&self, i: int) -> u64 {
        self.zone_last_check@[i]
    }

    /// Due-mask recorded by the last scheduler call.
    pub closed spec fn spec_due_mask(&self) -> u8 {
        self.last_due_mask
    }

    /// Each bucket's live counter equals the number of entries in that bucket.
    pub closed spec fn wf(&self) -> bool {
        &&& self.entries@.dom().finite()
        &&& forall|i: int| 0 <= i < 3 ==> #[trigger] self.live_count@[i] == bucket_count(self.entries@, bucket_of_index(i))
    }

    pub fn new() -> (st: Self)
        ensures
            st.wf(),
            st.entries_view() == Map::<u64, InterestEntry>::empty(),
            forall|i: int| 0 <= i < 4 ==> #[trigger] st.spec_zone_last_check(i) == 0,
            st.spec_due_mask() == 0,
    {
        let st = InterestState {
            entries: HashMap::new(),
            live_count: [0, 0, 0],
            zone_last_check: [0, 0, 0, 0],
            last_due_mask: 0,
        };
        proof {
            assert forall|i: int| 0 <= i < 3 implies #[trigger] st.live_count@[i] == bucket_count(st.entries@, bucket_of_index(i)) by {
                assert(bucket_ids(st.entries@, bucket_of_index(i)) =~= Set::empty());
            }
        }
        st
    }

    /// Discards all state.
    pub fn clear(&mut self)
        ensures
            final(self).wf(),
            final(self).entries_view() == Map::<u64, InterestEntry>::empty(),
            forall|i: int| 0 <= i < 4 ==> #[trigger] final(self).spec_zone_last_check(i) == 0,
            final(self).spec_due_mask() == 0,
    {
        *self = InterestState::new();
    }

    /// Finitely many entities are tracked.
    pub proof fn lemma_wf_finite(&self)
        requires
            self.wf(),
        ensures
            self.entries_view().dom().finite(),
    {
    }

    pub proof fn lemma_live_count(&self, b: StreamBucket)
        requires
            self.wf(),
        ensures
            self.spec_live_count(b) == bucket_count(self.entries_view(), b),
    {
        assert(self.live_count@[b.spec_index() as int] == bucket_count(self.entries@, bucket_of_index(b.spec_index() as int)));
    }

    fn ghost_in_inner(
        &mut self,
        id: u64,
        zone: ReplicationZone,
        bucket: StreamBucket,
        now_ms: u64,
        always_resident: bool,
    )
        requires
            old(self).wf(),
        ensures
            final(self).wf(),
            final(self).entries_view() == old(self).entries_view().insert(
                id,
                InterestEntry {
                    zone,
                    bucket,
                    always_resident,
                    last_sync_ms: now_ms,
                    last_close_ms: if zone.spec_index() <= 1 { now_ms } else { 0 },
                },
            ),
            final(self).zone_last_check == old(self).zone_last_check,
            final(self).last_due_mask == old(self).last_due_mask,
    {
        let last_close_ms = if zone.index() <= 1 {
            now_ms
        } else {
            0
        };
        let ghost m0 = self.entries@;
        let entry = InterestEntry { zone, bucket, always_resident, last_sync_ms: now_ms, last_close_ms };
        let prev = self.entries.insert(id, entry);
        let total = self.entries.len();
        proof {
            lemma_bucket_count_insert(m0, id, entry, StreamBucket::Enemy);
            lemma_bucket_count_insert(m0, id, entry, StreamBucket::Interactive);
            lemma_bucket_count_insert(m0, id, entry, StreamBucket::Npc);
            lemma_bucket_count_insert(self.entries@, id, entry, bucket);
            assert(bucket_of_index(0) == StreamBucket::Enemy);
            assert(bucket_of_index(1) == StreamBucket::Interactive);
            assert(bucket_of_index(2) == StreamBucket::Npc);
        }
        match prev {
            None => {
                let b = bucket.index();
                self.live_count[b] = self.live_count[b] + 1;
            },
            Some(p) => {
                if p.bucket != bucket {
                    let ob = p.bucket.index();
                    self.live_count[ob] = self.live_count[ob].saturating_sub(1);
                    let b = bucket.index();
                    self.live_count[b] = self.live_count[b] + 1;
                }
            },
        }
    }

    /// Registers a ghosted-in entity and counts it in its bucket (once per id;
    /// re-registering under another bucket moves the count).
    pub fn ghost_in(&mut self, id: u64, zone: ReplicationZone, bucket: StreamBucket, now_ms: u64)
        requires
            old(self).wf(),
        ensures
            final(self).wf(),
            final(self).entries_view() == old(self).entries_view().insert(
                id,
                InterestEntry {
                    zone,
                    bucket,
                    always_resident: false,
                    last_sync_ms: now_ms,
                    last_close_ms: if zone.spec_index() <= 1 { now_ms } else { 0 },
                },
            ),
            forall|i: int| 0 <= i < 4 ==> #[trigger] final(self).spec_zone_last_check(i) == old(self).spec_zone_last_check(i),
            final(self).spec_due_mask() == old(self).spec_due_mask(),
    {
        self.ghost_in_inner(id, zone, bucket, now_ms, false);
    }

    /// Like [`Self::ghost_in`], for entities that stay for the whole scene.
    pub fn ghost_in_resident(&mut self, id: u64, zone: ReplicationZone, bucket: StreamBucket, now_ms: u64)
        requires
            old(self).wf(),
        ensures
            final(self).wf(),
            final(self).entries_view() == old(self).entries_view().insert(
                id,
                InterestEntry {
                    zone,
                    bucket,
                    always_resident: true,
                    last_sync_ms: now_ms,
                    last_close_ms: if zone.spec_index() <= 1 { now_ms } else { 0 },
                },
            ),
            forall|i: int| 0 <= i < 4 ==> #[trigger] final(self).spec_zone_last_check(i) == old(self).spec_zone_last_check(i),
            final(self).spec_due_mask() == old(self).spec_due_mask(),
    {
        self.ghost_in_inner(id, zone, bucket, now_ms, true);
    }

    /// Removes a ghosted-in entity, returning its entry.
    pub fn ghost_out(&mut self, id: u64) -> (r: Option<InterestEntry>)
        requires
            old(self).wf(),
        ensures
            final(self).wf(),
            final(self).entries_view() == old(self).entries_view().remove(id),
            r == (if old(self).entries_view().contains_key(id) {
                Some(old(self).entries_view()[id])
            } else {
                None
            }),
            forall|i: int| 0 <= i < 4 ==> #[trigger] final(self).spec_zone_last_check(i) == old(self).spec_zone_last_check(i),
            final(self).spec_due_mask() == old(self).spec_due_mask(),
    {
        let ghost m0 = self.entries@;
        let removed = self.entries.remove(&id);
        proof {
            lemma_bucket_count_remove(m0, id, StreamBucket::Enemy);
            lemma_bucket_count_remove(m0, id, StreamBucket::Interactive);
            lemma_bucket_count_remove(m0, id, StreamBucket::Npc);
            assert(bucket_of_index(0) == StreamBucket::Enemy);
            assert(bucket_of_index(1) == StreamBucket::Interactive);
            assert(bucket_of_index(2) == StreamBucket::Npc);
        }
        match removed {
            Some(entry) => {
                let b = entry.bucket.index();
                self.live_count[b] = self.live_count[b].saturating_sub(1);
                Some(entry)
            },
            None => None,
        }
    }

    /// Number of ghosted-in entities in `bucket`.
    pub fn live_count(&self, bucket: StreamBucket) -> (n: usize)
        requires
            self.wf(),
        ensures
            n == bucket_count(self.entries_view(), bucket),
    {
        proof {
            self.lemma_live_count(bucket);
        }
        self.live_count[bucket.index()]
    }

    /// Whether `bucket` is at or above its concurrent cap.
    pub fn at_capacity(&self, bucket: StreamBucket) -> (b: bool)
        requires
            self.wf(),
        ensures
            b == (bucket_count(self.entries_view(), bucket) >= bucket.spec_concurrent_cap()),
    {
        proof {
            self.lemma_live_count(bucket);
        }
        self.live_count[bucket.index()] >= bucket.concurrent_cap()
    }

    /// Moves a ghosted-in entity to `zone`, refreshing its engagement stamp
    /// when the zone is Combat or closer. Unknown ids are ignored.
    pub fn update_zone(&mut self, id: u64, zone: ReplicationZone, now_ms: u64)
        requires
            old(self).wf(),
        ensures
            final(self).wf(),
            final(self).entries_view() == (if old(self).entries_view().contains_key(id) {
                old(self).entries_view().insert(
                    id,
                    InterestEntry {
                        zone,
                        last_close_ms: if zone.spec_index() <= 1 {
                            now_ms
                        } else {
                            old(self).entries_view()[id].last_close_ms
                        },
                        ..old(self).entries_view()[id]
                    },
                )
            } else {
                old(self).entries_view()
            }),
            forall|i: int| 0 <= i < 4 ==> #[trigger] final(self).spec_zone_last_check(i) == old(self).spec_zone_last_check(i),
            final(self).spec_due_mask() == old(self).spec_due_mask(),
    {
        self.touch_or_classify(id, zone, now_ms);
    }

    /// Like [`Self::update_zone`], returning whether the entity was known.
    pub fn touch_or_classify(&mut self, id: u64, zone: ReplicationZone, now_ms: u64) -> (known: bool)
        requires
            old(self).wf(),
        ensures
            final(self).wf(),
            known == old(self).entries_view().contains_key(id),
            final(self).entries_view() == (if known {
                old(self).entries_view().insert(
                    id,
                    InterestEntry {
                        zone,
                        last_close_ms: if zone.spec_index() <= 1 {
                            now_ms
                        } else {
                            old(self).entries_view()[id].last_close_ms
                        },
                        ..old(self).entries_view()[id]
                    },
                )
            } else {
                old(self).entries_view()
            }),
            forall|i: int| 0 <= i < 4 ==> #[trigger] final(self).spec_zone_last_check(i) == old(self).spec_zone_last_check(i),
            final(self).spec_due_mask() == old(self).spec_due_mask(),
    {
        let found = match self.entries.get(&id) {
            Some(e) => Some(*e),
            None => None,
        };
        match found {
            Some(e) => {
                let mut updated = e;
                updated.zone = zone;
                if zone.index() <= 1 {
                    updated.last_close_ms = now_ms;
                }
                let ghost m0 = self.entries@;
                self.entries.insert(id, updated);
                proof {
                    lemma_bucket_count_insert(m0, id, updated, StreamBucket::Enemy);
                    lemma_bucket_count_insert(m0, id, updated, StreamBucket::Interactive);
                    lemma_bucket_count_insert(m0, id, updated, StreamBucket::Npc);
                    assert(bucket_of_index(0) == StreamBucket::Enemy);
                    assert(bucket_of_index(1) == StreamBucket::Interactive);
                    assert(bucket_of_index(2) == StreamBucket::Npc);
                }
                true
            },
            None => false,
        }
    }

    /// Current zone of a ghosted-in entity.
    pub fn zone_of(&self, id: u64) -> (r: Option<ReplicationZone>)
        ensures
            r == (if self.entries_view().contains_key(id) {
                Some(self.entries_view()[id].zone)
            } else {
                None
            }),
    {
        match self.entries.get(&id) {
            Some(e) => Some(e.zone),
            None => None,
        }
    }

    /// The entry of a ghosted-in entity.
    pub fn entry(&self, id: u64) -> (r: Option<InterestEntry>)
        ensures
            r == (if self.entries_view().contains_key(id) {
                Some(self.entries_view()[id])
            } else {
                None
            }),
    {
        match self.entries.get(&id) {
            Some(e) => Some(*e),
            None => None,
        }
    }

    /// The ids of every tracked entity, each once, in no particular order.
    pub fn tracked_ids(&self) -> (ids: Vec<u64>)
        ensures
            ids@.no_duplicates(),
            forall|id: u64| #[trigger] ids@.contains(id) <==> self.entries_view().contains_key(id),
    {
        let ghost keys = vstd::std_specs::iter::IteratorSpec::remaining(
            &vstd::std_specs::hash::spec_keys_iter(&self.entries),
        );
        let mut ids: Vec<u64> = Vec::new();
        for k in it: self.entries.keys()
            invariant
                it.seq() == keys,
                ids@ == keys.take(it.index() as int).map_values(|r: &u64| *r),
        {
            proof {
                assert(keys.take(it.index() + 1) =~= keys.take(it.index() as int).push(keys[it.index() as int]));
            }
            ids.push(*k);
            proof {
                assert(ids@ =~= keys.take(it.index() + 1).map_values(|r: &u64| *r));
            }
        }
        proof {
            assert(keys.take(keys.len() as int) =~= keys);
            assert(ids@ =~= keys.unref());
        }
        ids
    }

    pub fn is_ghosted_in(&self, id: u64) -> (b: bool)
        ensures
            b == self.entries_view().contains_key(id),
    {
        self.entries.contains_key(&id)
    }

    pub fn ghosted_count(&self) -> (n: usize)
        ensures
            n == self.entries_view().len(),
    {
        self.entries.len()
    }

    /// Runs the per-zone scheduler at `now_ms`: a zone is due when at least its
    /// tick interval has passed since its last check; due zones are stamped
    /// with `now_ms` and recorded in the due mask.
    pub fn zones_due(&mut self, now_ms: u64) -> (due: [bool; 4])
        requires
            old(self).wf(),
        ensures
            final(self).wf(),
            final(self).entries_view() == old(self).entries_view(),
            forall|i: int|
                0 <= i < 4 ==> #[trigger] due@[i] == (sat_elapsed(now_ms, old(self).spec_zone_last_check(i))
                    >= spec_zone_tick_ms(i)),
            forall|i: int|
                0 <= i < 4 ==> #[trigger] final(self).spec_zone_last_check(i) == (if due@[i] {
                    now_ms
                } else {
                    old(self).spec_zone_last_check(i)
                }),
            forall|i: int| 0 <= i < 4 ==> #[trigger] mask_bit(final(self).spec_due_mask(), i) == due@[i],
            final(self).spec_due_mask() < 16,
    {
        let mut due = [false, false, false, false];
        let mut mask: u8 = 0;
        let ghost old_last = self.zone_last_check@;
        let mut i: usize = 0;
        proof {
            assert forall|j: int| 0 <= j < 4 implies !#[trigger] mask_bit(0u8, j) by {
                lemma_bit_nonzero(0u8, j as u8);
            }
        }
        while i < 4
            invariant
                0 <= i <= 4,
                self.wf(),
                self.entries@ == old(self).entries@,
                self.live_count == old(self).live_count,
                old_last == old(self).zone_last_check@,
                self.zone_last_check@.len() == 4,
                due@.len() == 4,
                mask < 16,
                forall|j: int|
                    0 <= j < i ==> #[trigger] due@[j] == (sat_elapsed(now_ms, old_last[j]) >= spec_zone_tick_ms(j)),
                forall|j: int| i <= j < 4 ==> !#[trigger] due@[j],
                forall|j: int|
                    0 <= j < 4 ==> #[trigger] self.zone_last_check@[j] == (if due@[j] {
                        now_ms
                    } else {
                        old_last[j]
                    }),
                forall|j: int| 0 <= j < 4 ==> #[trigger] mask_bit(mask, j) == due@[j],
            decreases 4 - i,
        {
            let tick: u64 = zone_tick_ms_at(i);
            if now_ms.saturating_sub(self.zone_last_check[i]) >= tick {
                due[i] = true;
                proof {
                    assert forall|j: int| 0 <= j < 4 implies #[trigger] mask_bit(mask | (1u8 << (i as u8)), j) == (mask_bit(mask, j) || j == i) by {
                        lemma_set_bit(mask, i as u8, j as u8);
                    }
                    lemma_set_bit_bound(mask, i as u8);
                }
                mask = mask | (1u8 << (i as u8));
                self.zone_last_check[i] = now_ms;
            }
            i = i + 1;
        }
        self.last_due_mask = mask;
        due
    }

    /// Whether `zone` was due in the last scheduler run.
    pub fn is_zone_due(&self, zone: ReplicationZone) -> (b: bool)
        ensures
            b == mask_bit(self.spec_due_mask(), zone.spec_index() as int),
    {
        let i = zone.index() as u8;
        proof {
            lemma_bit_nonzero(self.last_due_mask, i);
        }
        (self.last_due_mask >> i) & 1u8 != 0
    }

    /// Bitmask of the zones due in the last scheduler run.
    pub fn due_mask(&self) -> (m: u8)
        ensures
            m == self.spec_due_mask(),
    {
        self.last_due_mask
    }

    /// The outermost zone, no further out than `kind_max_zone`, that was due in
    /// the last scheduler run; `None` when none of those zones was due.
    pub fn outermost_due_zone(&self, kind_max_zone: ReplicationZone) -> (r: Option<ReplicationZone>)
        ensures
            match r {
                Some(z) => z.spec_index() <= kind_max_zone.spec_index() && mask_bit(
                    self.spec_due_mask(),
                    z.spec_index() as int,
                ) && forall|j: int|
                    z.spec_index() < j <= kind_max_zone.spec_index() ==> !#[trigger] mask_bit(
                        self.spec_due_mask(),
                        j,
                    ),
                None => forall|j: int|
                    0 <= j <= kind_max_zone.spec_index() ==> !#[trigger] mask_bit(self.spec_due_mask(), j),
            },
    {
        let cap = kind_max_zone.index();
        let mut i: usize = cap + 1;
        while i > 0
            invariant
                i <= cap + 1,
                cap == kind_max_zone.spec_index(),
                forall|j: int| i <= j <= cap ==> !#[trigger] mask_bit(self.last_due_mask, j),
            decreases i,
        {
            let k = i - 1;
            proof {
                lemma_bit_nonzero(self.last_due_mask, k as u8);
            }
            if (self.last_due_mask >> (k as u8)) & 1u8 != 0 {
                return Some(ReplicationZone::from_index(k));
            }
            i = k;
        }
        None
    }
}

/// Elapsed time since `since`, saturating at 0.
pub open spec fn sat_elapsed(now: u64, since: u64) -> int {
    if now >= since {
        now - since
    } else {
        0
    }
}

/// Whether bit `i` of `m` is set.
pub open spec fn mask_bit(m: u8, i: int) -> bool {
    (m >> (i as u8)) & 1u8 == 1u8
}

proof fn lemma_set_bit(m: u8, i: u8, j: u8)
    requires
        i < 4,
        j < 4,
    ensures
        ((m | (1u8 << i)) >> j) & 1u8 == 1u8 <==> (((m >> j) & 1u8 == 1u8) || j == i),
{
    assert(((m | (1u8 << i)) >> j) & 1u8 == 1u8 <==> (((m >> j) & 1u8 == 1u8) || j == i)) by (bit_vector)
        requires
            i < 4,
            j < 4,
    ;
}

proof fn lemma_bit_nonzero(m: u8, i: u8)
    ensures
        ((m >> i) & 1u8 != 0u8) == ((m >> i) & 1u8 == 1u8),
        (0u8 >> i) & 1u8 == 0u8,
{
    assert(((m >> i) & 1u8 != 0u8) == ((m >> i) & 1u8 == 1u8)) by (bit_vector);
    assert((0u8 >> i) & 1u8 == 0u8) by (bit_vector);
}

proof fn lemma_set_bit_bound(m: u8, i: u8)
    requires
        i < 4,
        m < 16,
    ensures
        (m | (1u8 << i)) < 16,
{
    assert((m | (1u8 << i)) < 16) by (bit_vector)
        requires
            i < 4,
            m < 16,
    ;
}

fn zone_tick_ms_at(i: usize) -> (t: u64)
    requires
        i < 4,
    ensures
        t == spec_zone_tick_ms(i as int),
{
    ReplicationZone::from_index(i).tick_ms()
}

/// Whether an entry should stay ghosted in although it has crossed its zone's
/// leave radius: always-resident entries stay; otherwise only enemies within
/// the sticky cap (`beyond_sticky_cap` false) stay, when the client reports a
/// battle or the enemy was seen at Combat range less than `STICKY_GRACE_MS` ago.
pub fn should_retain(entry: &InterestEntry, beyond_sticky_cap: bool, now_ms: u64, in_battle: bool) -> (b: bool)
    ensures
        b == (entry.always_resident || (entry.bucket == StreamBucket::Enemy && !beyond_sticky_cap && (
        in_battle || (entry.last_close_ms > 0 && sat_elapsed(now_ms, entry.last_close_ms)
            < STICKY_GRACE_MS)))),
{
    if entry.always_resident {
        return true;
    }
    if entry.bucket != StreamBucket::Enemy {
        return false;
    }
    if beyond_sticky_cap {
        return false;
    }
    if in_battle {
        return true;
    }
    if entry.last_close_ms > 0 && now_ms.saturating_sub(entry.last_close_ms) < STICKY_GRACE_MS {
        return true;
    }
    false
}

} // verus!
