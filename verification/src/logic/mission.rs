//! Guide (tutorial) progress and mission constants.

use crate::logic::text::{
    has_prefix, starts_with,
    find_block, first_block, slice_chars, string_from_chars,
    chars_lt, lemma_seq_lt_asymmetric, lemma_seq_lt_irreflexive, lemma_seq_lt_total,
    lemma_seq_lt_transitive, seq_lt, str_chars,
};
use crate::config::mission::{MissionAssets, MissionDefinition, QuestDefinition};
use crate::logic::str_map::{keys_sorted, lemma_entries_map, value_of, StrMap};
use vstd::prelude::*;

verus! {

/// The mission every new player starts with.
pub const PROLOGUE_MISSION_ID: &'static str = "mission_mai_e0m1";

/// The first quest of the prologue mission.
pub const PROLOGUE_FIRST_QUEST_ID: &'static str = "mission_mai_e0m1_q#2";

/// Guide-group state reported for completed groups.
pub const GUIDE_STATE_COMPLETED: i32 = 3;

/// The character sequences of a list of strings.
pub open spec fn strings_view(v: Seq<String>) -> Seq<Seq<char>> {
    v.map_values(|s: String| s@)
}

/// Every element sorts strictly before every later one: the list is
/// ordered and holds no duplicates.
pub open spec fn strictly_sorted(s: Seq<Seq<char>>) -> bool {
    forall|i: int, j: int| 0 <= i < j < s.len() ==> seq_lt(#[trigger] s[i], #[trigger] s[j])
}

/// Inserts `id` into the strictly sorted list `v` unless it is already there.
fn insert_sorted(v: &mut Vec<String>, id: &str)
    requires
        strictly_sorted(strings_view(old(v)@)),
    ensures
        strictly_sorted(strings_view(final(v)@)),
        strings_view(final(v)@).to_set() == strings_view(old(v)@).to_set().insert(id@),
        strings_view(old(v)@).contains(id@) ==> final(v)@ == old(v)@,
        !strings_view(old(v)@).contains(id@) ==> final(v)@.len() == old(v)@.len() + 1,
{
    let ghost old_v = strings_view(v@);
    let key = str_chars(id);
    let mut p: usize = 0;
    let mut stop = false;
    while p < v.len() && !stop
        invariant
            p <= v@.len(),
            old_v == strings_view(v@),
            key@ == id@,
            forall|k: int| 0 <= k < p ==> seq_lt(#[trigger] old_v[k], id@),
            stop ==> p < v@.len() && !seq_lt(old_v[p as int], id@),
        decreases v.len() - p, (if stop { 0int } else { 1int }),
    {
        let here = str_chars(v[p].as_str());
        if chars_lt(&here, &key) {
            p = p + 1;
        } else {
            stop = true;
        }
    }
    if stop {
        let here = str_chars(v[p].as_str());
        if !chars_lt(&key, &here) {
            proof {
                lemma_seq_lt_total(old_v[p as int], id@);
                assert(old_v[p as int] == id@);
                assert(old_v.contains(id@));
                assert(old_v.to_set().insert(id@) =~= old_v.to_set());
            }
            return;
        }
    }
    proof {
        // `id` is not in the list: everything before `p` is smaller, everything from `p` on is larger.
        assert forall|k: int| p <= k < old_v.len() implies seq_lt(id@, #[trigger] old_v[k]) by {
            if p < old_v.len() {
                if k > p {
                    lemma_seq_lt_transitive(id@, old_v[p as int], old_v[k]);
                }
            }
        }
        assert forall|k: int| 0 <= k < old_v.len() implies #[trigger] old_v[k] != id@ by {
            if k < p {
                lemma_seq_lt_irreflexive(id@);
            } else {
                lemma_seq_lt_irreflexive(id@);
            }
        }
    }
    v.insert(p, String::from_str(id));
    proof {
        let nv = strings_view(v@);
        assert(nv =~= old_v.take(p as int).push(id@) + old_v.skip(p as int));
        assert forall|i: int, j: int| 0 <= i < j < nv.len() implies seq_lt(
            #[trigger] nv[i],
            #[trigger] nv[j],
        ) by {
            if j < p {
                assert(nv[i] == old_v[i] && nv[j] == old_v[j]);
            } else if j == p {
                assert(nv[i] == old_v[i]);
            } else if i == p {
                assert(nv[j] == old_v[j - 1]);
            } else if i < p {
                assert(nv[i] == old_v[i] && nv[j] == old_v[j - 1]);
                lemma_seq_lt_transitive(old_v[i], id@, old_v[j - 1]);
            } else {
                assert(nv[i] == old_v[i - 1] && nv[j] == old_v[j - 1]);
            }
        }
        assert forall|x: Seq<char>| #[trigger] nv.contains(x) <==> old_v.to_set().insert(id@).contains(x) by {
            if nv.contains(x) {
                let i = choose|i: int| 0 <= i < nv.len() && nv[i] == x;
                if i < p {
                    assert(old_v[i] == x);
                } else if i > p {
                    assert(old_v[i - 1] == x);
                }
            }
            if old_v.contains(x) {
                let i = choose|i: int| 0 <= i < old_v.len() && old_v[i] == x;
                if i < p {
                    assert(nv[i] == x);
                } else {
                    assert(nv[i + 1] == x);
                }
            }
            if x == id@ {
                assert(nv[p as int] == x);
            }
        }
        assert(nv.to_set() =~= old_v.to_set().insert(id@));
        assert(!old_v.contains(id@));
    }
}

/// A strictly sorted list is determined by its elements: the guide lists depend only on
/// which ids were marked, not on the order or how often they were marked.
pub proof fn lemma_sorted_lists_equal(a: Seq<Seq<char>>, b: Seq<Seq<char>>)
    requires
        strictly_sorted(a),
        strictly_sorted(b),
        a.to_set() == b.to_set(),
    ensures
        a == b,
    decreases a.len(),
{
    if a.len() == 0 {
        if b.len() > 0 {
            assert(b.to_set().contains(b[0]));
        }
        assert(a =~= b);
    } else {
        assert(a.to_set().contains(a[0]));
        assert(b.len() > 0);
        assert(b.to_set().contains(b[0]));
        let j = choose|j: int| 0 <= j < b.len() && b[j] == a[0];
        let k = choose|k: int| 0 <= k < a.len() && a[k] == b[0];
        if j > 0 {
            assert(seq_lt(b[0], b[j]));
            if k == 0 {
                lemma_seq_lt_irreflexive(b[0]);
            } else {
                assert(seq_lt(a[0], a[k]));
                lemma_seq_lt_asymmetric(b[0], a[0]);
            }
        }
        assert(a[0] == b[0]);
        let ra = a.drop_first();
        let rb = b.drop_first();
        assert forall|x: Seq<char>| ra.to_set().contains(x) <==> rb.to_set().contains(x) by {
            if ra.to_set().contains(x) {
                let i = choose|i: int| 0 <= i < ra.len() && ra[i] == x;
                assert(a[i + 1] == x);
                assert(seq_lt(a[0], a[i + 1]));
                lemma_seq_lt_irreflexive(x);
                assert(a.to_set().contains(x));
                let m = choose|m: int| 0 <= m < b.len() && b[m] == x;
                assert(m != 0);
                assert(rb[m - 1] == x);
            }
            if rb.to_set().contains(x) {
                let i = choose|i: int| 0 <= i < rb.len() && rb[i] == x;
                assert(b[i + 1] == x);
                assert(seq_lt(b[0], b[i + 1]));
                lemma_seq_lt_irreflexive(x);
                assert(b.to_set().contains(x));
                let m = choose|m: int| 0 <= m < a.len() && a[m] == x;
                assert(m != 0);
                assert(ra[m - 1] == x);
            }
        }
        assert(ra.to_set() =~= rb.to_set());
        assert forall|i: int, j2: int| 0 <= i < j2 < ra.len() implies seq_lt(#[trigger] ra[i], #[trigger] ra[j2]) by {
            assert(ra[i] == a[i + 1] && ra[j2] == a[j2 + 1]);
        }
        assert forall|i: int, j2: int| 0 <= i < j2 < rb.len() implies seq_lt(#[trigger] rb[i], #[trigger] rb[j2]) by {
            assert(rb[i] == b[i + 1] && rb[j2] == b[j2 + 1]);
        }
        lemma_sorted_lists_equal(ra, rb);
        assert(a.len() == ra.len() + 1 && b.len() == rb.len() + 1);
        assert forall|i: int| 0 <= i < a.len() implies a[i] == b[i] by {
            if i > 0 {
                assert(a[i] == ra[i - 1] && b[i] == rb[i - 1]);
            }
        }
        assert(a =~= b);
    }
}

/// Completed guide groups and repeat-accept key steps, each kept sorted and
/// free of duplicates.
#[derive(Debug)]
pub struct GuideManager {
    completed_groups: Vec<String>,
    completed_key_steps: Vec<String>,
}

impl GuideManager {
    #[verifier::type_invariant]
    spec fn inv(self) -> bool {
        &&& strictly_sorted(strings_view(self.completed_groups@))
        &&& strictly_sorted(strings_view(self.completed_key_steps@))
    }

    /// Completed guide groups, in order.
    pub closed spec fn groups_view(&self) -> Seq<Seq<char>> {
        strings_view(self.completed_groups@)
    }

    /// Completed key steps, in order.
    pub closed spec fn key_steps_view(&self) -> Seq<Seq<char>> {
        strings_view(self.completed_key_steps@)
    }

    /// Records a completed guide group; the list stays sorted and duplicate-free.
    pub fn mark_group_completed(&mut self, guide_group_id: &str)
        ensures
            strictly_sorted(final(self).groups_view()),
            final(self).groups_view().to_set() == old(self).groups_view().to_set().insert(
                guide_group_id@,
            ),
            old(self).groups_view().contains(guide_group_id@) ==> final(self).groups_view()
                == old(self).groups_view(),
            !old(self).groups_view().contains(guide_group_id@) ==> final(self).groups_view().len()
                == old(self).groups_view().len() + 1,
            final(self).key_steps_view() == old(self).key_steps_view(),
    {
        proof {
            use_type_invariant(&*self);
        }
        let mut list: Vec<String> = Vec::new();
        std::mem::swap(&mut list, &mut self.completed_groups);
        insert_sorted(&mut list, guide_group_id);
        self.completed_groups = list;
    }

    /// Records a completed key step; the list stays sorted and duplicate-free.
    pub fn mark_key_step_completed(&mut self, guide_group_id: &str)
        ensures
            strictly_sorted(final(self).key_steps_view()),
            final(self).key_steps_view().to_set() == old(self).key_steps_view().to_set().insert(
                guide_group_id@,
            ),
            old(self).key_steps_view().contains(guide_group_id@) ==> final(self).key_steps_view()
                == old(self).key_steps_view(),
            !old(self).key_steps_view().contains(guide_group_id@)
                ==> final(self).key_steps_view().len() == old(self).key_steps_view().len() + 1,
            final(self).groups_view() == old(self).groups_view(),
    {
        proof {
            use_type_invariant(&*self);
        }
        let mut list: Vec<String> = Vec::new();
        std::mem::swap(&mut list, &mut self.completed_key_steps);
        insert_sorted(&mut list, guide_group_id);
        self.completed_key_steps = list;
    }

    pub fn completed_groups(&self) -> (r: &[String])
        ensures
            strings_view(r@) == self.groups_view(),
    {
        self.completed_groups.as_slice()
    }

    pub fn completed_key_steps(&self) -> (r: &[String])
        ensures
            strings_view(r@) == self.key_steps_view(),
    {
        self.completed_key_steps.as_slice()
    }
}

/// A completed guide group as the client is told of it.
#[derive(Debug)]
pub struct GuideGroupInfo {
    pub guide_group_id: String,
    pub guide_state: i32,
}

/// What the client is told of the player's guides.
#[derive(Debug)]
pub struct GuideSync {
    pub guide_group_list: Vec<GuideGroupInfo>,
    pub completed_repeat_accept_guide_group_list: Vec<String>,
}

impl GuideManager {
    /// Every completed group, in order, marked completed; and the completed
    /// key steps.
    pub fn sync_packet(&self) -> (p: GuideSync)
        ensures
            p.guide_group_list@.len() == self.groups_view().len(),
            forall|i: int|
                0 <= i < p.guide_group_list@.len() ==> (#[trigger] p.guide_group_list@[i]).guide_group_id@
                    == self.groups_view()[i] && p.guide_group_list@[i].guide_state == GUIDE_STATE_COMPLETED,
            strings_view(p.completed_repeat_accept_guide_group_list@) == self.key_steps_view(),
    {
        let groups = self.completed_groups();
        let mut list: Vec<GuideGroupInfo> = Vec::new();
        let mut i: usize = 0;
        while i < groups.len()
            invariant
                i <= groups@.len(),
                strings_view(groups@) == self.groups_view(),
                list@.len() == i,
                forall|j: int|
                    0 <= j < i ==> (#[trigger] list@[j]).guide_group_id@ == groups@[j]@ && list@[j].guide_state
                        == GUIDE_STATE_COMPLETED,
            decreases groups.len() - i,
        {
            list.push(GuideGroupInfo { guide_group_id: groups[i].clone(), guide_state: GUIDE_STATE_COMPLETED });
            i = i + 1;
        }
        let steps = self.completed_key_steps.clone();
        proof {
            assert(steps@ =~= self.completed_key_steps@);
        }
        GuideSync { guide_group_list: list, completed_repeat_accept_guide_group_list: steps }
    }
}

impl Clone for GuideManager {
    fn clone(&self) -> (c: Self)
        ensures
            c.groups_view() == self.groups_view(),
            c.key_steps_view() == self.key_steps_view(),
    {
        proof {
            use_type_invariant(self);
        }
        let groups = self.completed_groups.clone();
        let steps = self.completed_key_steps.clone();
        assert(groups@ =~= self.completed_groups@);
        assert(steps@ =~= self.completed_key_steps@);
        GuideManager { completed_groups: groups, completed_key_steps: steps }
    }
}

impl Default for GuideManager {
    fn default() -> (g: Self)
        ensures
            g.groups_view().len() == 0,
            g.key_steps_view().len() == 0,
    {
        GuideManager { completed_groups: Vec::new(), completed_key_steps: Vec::new() }
    }
}

/// A mission as the client is told of it.
#[derive(Debug)]
pub struct MissionInfo {
    pub mission_id: String,
    pub mission_state: MissionState,
    pub succeed_id: i32,
}

/// A live quest as the client is told of it.
#[derive(Debug)]
pub struct QuestInfo {
    pub quest_id: String,
    pub quest_state: QuestState,
    pub quest_objectives: Vec<QuestObjective>,
}

/// What the client is told of the player's missions.
#[derive(Debug)]
pub struct MissionSync {
    pub track_mission_id: String,
    pub missions: StrMap<MissionInfo>,
    pub cur_quests: StrMap<QuestInfo>,
}

/// Progress state of a mission.
#[derive(Debug, Clone, Copy, PartialEq, Eq, Structural)]
pub enum MissionState {
    Msprocessing,
    Mscompleted,
}

/// Progress state of a quest.
#[derive(Debug, Clone, Copy, PartialEq, Eq, Structural)]
pub enum QuestState {
    Qsprocessing,
    Qscompleted,
}

/// One objective of a live quest: its counters and whether it is done.
#[derive(Debug)]
pub struct QuestObjective {
    pub condition_id: String,
    pub is_complete: bool,
    pub values: StrMap<i32>,
}

/// A counter update sent for one objective: add `value` or set it.
#[derive(Debug)]
pub struct ObjectiveValueOp {
    pub condition_id: String,
    pub value: i32,
    pub is_add: bool,
}

/// A mission the player has, with its state.
#[derive(Debug)]
pub struct MissionProgress {
    pub mission_id: String,
    pub mission_state: MissionState,
    pub succeed_id: i32,
}

/// A live quest and its objectives, by condition id.
#[derive(Debug)]
pub struct QuestProgress {
    pub quest_id: String,
    pub quest_state: QuestState,
    pub objectives: StrMap<QuestObjective>,
}

/// What an objective looks like to the rules: its completion flag and counters.
pub open spec fn objective_view(o: QuestObjective) -> (bool, Map<Seq<char>, i32>) {
    (o.is_complete, o.values.as_map())
}

/// A deep copy of an objective.
pub fn copy_objective(o: &QuestObjective) -> (c: QuestObjective)
    ensures
        c.condition_id@ == o.condition_id@,
        objective_view(c) == objective_view(*o),
{
    let c = QuestObjective { condition_id: o.condition_id.clone(), is_complete: o.is_complete, values: o.values.duplicate() };
    proof {
        assert(c.values.as_map() =~= o.values.as_map());
    }
    c
}

/// Copies of a quest's objectives, in condition-id order.
pub fn copy_objectives(q: &QuestProgress) -> (v: Vec<QuestObjective>)
    ensures
        lists_objectives(v@, objective_map(q.objectives)),
        v@.len() == q.objectives.entries_view().len(),
        forall|i: int|
            0 <= i < v@.len() ==> (#[trigger] v@[i]).condition_id@ == q.objectives.entries_view()[i].1.condition_id@
                && objective_view(v@[i]) == objective_view(q.objectives.entries_view()[i].1),
{
    let entries = q.objectives.entries();
    let mut v: Vec<QuestObjective> = Vec::new();
    let mut i: usize = 0;
    while i < entries.len()
        invariant
            i <= entries@.len(),
            entries@ == q.objectives.entries_view(),
            v@.len() == i,
            forall|j: int|
                0 <= j < i ==> (#[trigger] v@[j]).condition_id@ == entries@[j].1.condition_id@ && objective_view(v@[j])
                    == objective_view(entries@[j].1),
        decreases entries.len() - i,
    {
        v.push(copy_objective(&entries[i].1));
        i = i + 1;
    }
    proof {
        lemma_entries_map(entries@);
        assert forall|j: int| 0 <= j < v@.len() implies is_objective_of(objective_map(q.objectives), objective_view(#[trigger] v@[j])) by {
            let k = entries@[j].0@;
            assert(q.objectives.spec_get(k) == Some(entries@[j].1));
            assert(q.objectives.as_map().contains_key(k));
            assert(q.objectives.as_map()[k] == entries@[j].1);
            assert(objective_map(q.objectives).contains_key(k));
            assert(objective_map(q.objectives)[k] == objective_view(entries@[j].1));
            assert(objective_view(v@[j]) == objective_view(entries@[j].1));
        }
        assert(lists_objectives(v@, objective_map(q.objectives)));
    }
    v
}

/// The player's missions, live quests and tracked mission.
#[derive(Debug)]
pub struct MissionManager {
    track_mission_id: String,
    missions: StrMap<MissionProgress>,
    current_quests: StrMap<QuestProgress>,
}

impl Default for MissionManager {
    /// No missions, no quests, nothing tracked.
    fn default() -> (m: Self)
        ensures
            m.track_view().len() == 0,
            m.missions_view().len() == 0,
            m.quests_view().len() == 0,
    {
        MissionManager { track_mission_id: String::new(), missions: StrMap::new(), current_quests: StrMap::new() }
    }
}

impl MissionManager {
    /// The tracked mission id (empty when none).
    pub closed spec fn track_view(&self) -> Seq<char> {
        self.track_mission_id@
    }

    /// The missions, by mission id in ascending order.
    pub closed spec fn missions_view(&self) -> Seq<(String, MissionProgress)> {
        self.missions.entries_view()
    }

    /// The live quests, by quest id in ascending order.
    pub closed spec fn quests_view(&self) -> Seq<(String, QuestProgress)> {
        self.current_quests.entries_view()
    }

    /// The mission stored under `id`.
    pub open spec fn spec_mission(&self, id: Seq<char>) -> Option<MissionProgress> {
        value_of(self.missions_view(), id)
    }

    /// The live quest stored under `id`.
    pub open spec fn spec_quest(&self, id: Seq<char>) -> Option<QuestProgress> {
        value_of(self.quests_view(), id)
    }

    pub fn track_mission_id(&self) -> (t: &str)
        ensures
            t@ == self.track_view(),
    {
        self.track_mission_id.as_str()
    }

    pub fn has_mission(&self, mission_id: &str) -> (b: bool)
        ensures
            b == self.spec_mission(mission_id@) is Some,
    {
        self.missions.contains_key(mission_id)
    }

    pub fn update_track_mission(&mut self, mission_id: &str)
        ensures
            final(self).track_view() == mission_id@,
            final(self).missions_view() == old(self).missions_view(),
            final(self).quests_view() == old(self).quests_view(),
    {
        self.track_mission_id = String::from_str(mission_id);
    }

    pub fn stop_tracking(&mut self)
        ensures
            final(self).track_view().len() == 0,
            final(self).missions_view() == old(self).missions_view(),
            final(self).quests_view() == old(self).quests_view(),
    {
        self.track_mission_id = String::new();
    }

    /// Every mission as `(id, state, succeed id)`, by id.
    pub fn snapshot_missions(&self) -> (out: Vec<(String, MissionState, i32)>)
        ensures
            out@.len() == self.missions_view().len(),
            forall|i: int|
                0 <= i < out@.len() ==> (#[trigger] out@[i]).0@ == self.missions_view()[i].1.mission_id@
                    && out@[i].1 == self.missions_view()[i].1.mission_state && out@[i].2
                    == self.missions_view()[i].1.succeed_id,
    {
        let entries = self.missions.entries();
        let mut out: Vec<(String, MissionState, i32)> = Vec::new();
        let mut i: usize = 0;
        while i < entries.len()
            invariant
                i <= entries@.len(),
                entries@ == self.missions_view(),
                out@.len() == i,
                forall|j: int|
                    0 <= j < i ==> (#[trigger] out@[j]).0@ == entries@[j].1.mission_id@ && out@[j].1
                        == entries@[j].1.mission_state && out@[j].2 == entries@[j].1.succeed_id,
            decreases entries.len() - i,
        {
            let m = &entries[i].1;
            out.push((m.mission_id.clone(), m.mission_state, m.succeed_id));
            i = i + 1;
        }
        out
    }

    /// Every live quest as `(id, state, objectives)`, by quest id; objectives by condition id.
    pub fn snapshot_quests(&self) -> (out: Vec<(String, QuestState, Vec<QuestObjective>)>)
        ensures
            out@.len() == self.quests_view().len(),
            forall|i: int|
                0 <= i < out@.len() ==> (#[trigger] out@[i]).0@ == self.quests_view()[i].1.quest_id@
                    && out@[i].1 == self.quests_view()[i].1.quest_state && out@[i].2@.len()
                    == self.quests_view()[i].1.objectives.entries_view().len() && forall|j: int|
                    0 <= j < out@[i].2@.len() ==> objective_view(#[trigger] out@[i].2@[j]) == objective_view(
                        self.quests_view()[i].1.objectives.entries_view()[j].1,
                    ),
    {
        let entries = self.current_quests.entries();
        let mut out: Vec<(String, QuestState, Vec<QuestObjective>)> = Vec::new();
        let mut i: usize = 0;
        while i < entries.len()
            invariant
                i <= entries@.len(),
                entries@ == self.quests_view(),
                out@.len() == i,
                forall|k: int|
                    0 <= k < i ==> (#[trigger] out@[k]).0@ == entries@[k].1.quest_id@ && out@[k].1
                        == entries@[k].1.quest_state && out@[k].2@.len()
                        == entries@[k].1.objectives.entries_view().len() && forall|j: int|
                        0 <= j < out@[k].2@.len() ==> objective_view(#[trigger] out@[k].2@[j]) == objective_view(
                            entries@[k].1.objectives.entries_view()[j].1,
                        ),
            decreases entries.len() - i,
        {
            let q = &entries[i].1;
            out.push((q.quest_id.clone(), q.quest_state, copy_objectives(q)));
            i = i + 1;
        }
        out
    }

    /// What the client is told of the player's missions: the tracked mission,
    /// every mission by id, and every live quest by id with its objectives.
    pub fn sync_packet(&self) -> (p: MissionSync)
        ensures
            p.track_mission_id@ == self.track_view(),
            p.missions.entries_view().len() == self.missions_view().len(),
            forall|i: int|
                0 <= i < self.missions_view().len() ==> {
                    let (k, m) = #[trigger] p.missions.entries_view()[i];
                    &&& k@ == self.missions_view()[i].0@
                    &&& m.mission_id@ == self.missions_view()[i].1.mission_id@
                    &&& m.mission_state == self.missions_view()[i].1.mission_state
                    &&& m.succeed_id == self.missions_view()[i].1.succeed_id
                },
            p.cur_quests.entries_view().len() == self.quests_view().len(),
            forall|i: int|
                0 <= i < self.quests_view().len() ==> {
                    let (k, q) = #[trigger] p.cur_quests.entries_view()[i];
                    let src = self.quests_view()[i].1;
                    &&& k@ == self.quests_view()[i].0@
                    &&& q.quest_id@ == src.quest_id@
                    &&& q.quest_state == src.quest_state
                    &&& q.quest_objectives@.len() == src.objectives.entries_view().len()
                    &&& forall|j: int|
                        0 <= j < q.quest_objectives@.len() ==> objective_view(#[trigger] q.quest_objectives@[j])
                            == objective_view(src.objectives.entries_view()[j].1)
                },
    {
        let ms = self.missions.entries();
        let mut missions: Vec<(String, MissionInfo)> = Vec::new();
        let mut i: usize = 0;
        while i < ms.len()
            invariant
                i <= ms@.len(),
                ms@ == self.missions_view(),
                keys_sorted(ms@),
                missions@.len() == i,
                forall|j: int|
                    0 <= j < i ==> {
                        let (k, m) = #[trigger] missions@[j];
                        &&& k@ == ms@[j].0@
                        &&& m.mission_id@ == ms@[j].1.mission_id@
                        &&& m.mission_state == ms@[j].1.mission_state
                        &&& m.succeed_id == ms@[j].1.succeed_id
                    },
            decreases ms.len() - i,
        {
            let (k, m) = &ms[i];
            missions.push(
                (
                    k.clone(),
                    MissionInfo {
                        mission_id: m.mission_id.clone(),
                        mission_state: m.mission_state,
                        succeed_id: m.succeed_id,
                    },
                ),
            );
            i = i + 1;
        }
        proof {
            assert forall|a: int, b: int| 0 <= a < b < missions@.len() implies crate::logic::text::seq_lt(
                (#[trigger] missions@[a]).0@,
                (#[trigger] missions@[b]).0@,
            ) by {
                assert(missions@[a].0@ == ms@[a].0@ && missions@[b].0@ == ms@[b].0@);
            }
        }
        let qs = self.current_quests.entries();
        let mut quests: Vec<(String, QuestInfo)> = Vec::new();
        let mut i: usize = 0;
        while i < qs.len()
            invariant
                i <= qs@.len(),
                qs@ == self.quests_view(),
                keys_sorted(qs@),
                quests@.len() == i,
                forall|j: int|
                    0 <= j < i ==> {
                        let (k, q) = #[trigger] quests@[j];
                        let src = qs@[j].1;
                        &&& k@ == qs@[j].0@
                        &&& q.quest_id@ == src.quest_id@
                        &&& q.quest_state == src.quest_state
                        &&& q.quest_objectives@.len() == src.objectives.entries_view().len()
                        &&& forall|l: int|
                            0 <= l < q.quest_objectives@.len() ==> objective_view(#[trigger] q.quest_objectives@[l])
                                == objective_view(src.objectives.entries_view()[l].1)
                    },
            decreases qs.len() - i,
        {
            let (k, q) = &qs[i];
            quests.push(
                (
                    k.clone(),
                    QuestInfo {
                        quest_id: q.quest_id.clone(),
                        quest_state: q.quest_state,
                        quest_objectives: copy_objectives(q),
                    },
                ),
            );
            i = i + 1;
        }
        proof {
            assert forall|a: int, b: int| 0 <= a < b < quests@.len() implies crate::logic::text::seq_lt(
                (#[trigger] quests@[a]).0@,
                (#[trigger] quests@[b]).0@,
            ) by {
                assert(quests@[a].0@ == qs@[a].0@ && quests@[b].0@ == qs@[b].0@);
            }
        }
        MissionSync {
            track_mission_id: self.track_mission_id.clone(),
            missions: StrMap::from_sorted_entries(missions),
            cur_quests: StrMap::from_sorted_entries(quests),
        }
    }

    /// Adds or replaces the mission `mission_id` with the given state (loading saves).
    pub fn insert_loaded_mission(&mut self, mission_id: String, mission_state: MissionState, succeed_id: i32)
        ensures
            final(self).spec_mission(mission_id@) matches Some(m) && m.mission_id@ == mission_id@
                && m.mission_state == mission_state && m.succeed_id == succeed_id,
            forall|k: Seq<char>| k != mission_id@ ==> #[trigger] final(self).spec_mission(k) == old(self).spec_mission(k),
            final(self).quests_view() == old(self).quests_view(),
            final(self).track_view() == old(self).track_view(),
    {
        let key = mission_id.clone();
        let ghost id = mission_id@;
        let ghost before = self.missions;
        self.missions.insert(key, MissionProgress { mission_id, mission_state, succeed_id });
        proof {
            assert forall|k: Seq<char>| k != id implies #[trigger] self.spec_mission(k) == old(self).spec_mission(k) by {
                assert(self.missions.spec_get(k) == before.spec_get(k));
            }
        }
    }

    /// Adds or replaces the live quest `quest_id` with the given objectives, keyed by
    /// condition id (a later objective replaces an earlier one with the same id).
    pub fn insert_loaded_quest(&mut self, quest_id: String, quest_state: QuestState, objectives: Vec<QuestObjective>)
        ensures
            final(self).spec_quest(quest_id@) matches Some(q) && q.quest_id@ == quest_id@ && q.quest_state == quest_state
                && (forall|k: Seq<char>| #[trigger] q.objectives.as_map().contains_key(k) <==> exists|i: int|
                    0 <= i < objectives@.len() && (#[trigger] objectives@[i]).condition_id@ == k),
            forall|k: Seq<char>| k != quest_id@ ==> #[trigger] final(self).spec_quest(k) == old(self).spec_quest(k),
            final(self).missions_view() == old(self).missions_view(),
            final(self).track_view() == old(self).track_view(),
    {
        let ghost objs = objectives@;
        let total: usize = objectives.len();
        let mut map: StrMap<QuestObjective> = StrMap::new();
        let mut rest = objectives;
        let mut n: usize = 0;
        while rest.len() > 0
            invariant
                objs.len() == total,
                n + rest@.len() == objs.len(),
                rest@ == objs.skip(n as int),
                forall|k: Seq<char>| #[trigger] map.as_map().contains_key(k) <==> exists|i: int|
                    0 <= i < n && (#[trigger] objs[i]).condition_id@ == k,
            decreases rest.len(),
        {
            let o = rest.remove(0);
            proof {
                assert(o == objs[n as int]);
                assert(rest@ == objs.skip(n + 1));
            }
            let key = o.condition_id.clone();
            let ghost kv = key@;
            let ghost m0 = map;
            map.insert(key, o);
            proof {
                assert forall|k: Seq<char>| #[trigger] map.as_map().contains_key(k) <==> exists|i: int|
                    0 <= i < n + 1 && (#[trigger] objs[i]).condition_id@ == k by {
                    if k == kv {
                        assert(objs[n as int].condition_id@ == k);
                        assert(map.spec_get(k) is Some);
                    } else {
                        assert(map.spec_get(k) == m0.spec_get(k));
                        assert(map.as_map().contains_key(k) == m0.as_map().contains_key(k));
                        if exists|i: int| 0 <= i < n + 1 && (#[trigger] objs[i]).condition_id@ == k {
                            let i = choose|i: int| 0 <= i < n + 1 && (#[trigger] objs[i]).condition_id@ == k;
                            assert(i < n);
                        }
                    }
                }
            }
            n = n + 1;
        }
        let key = quest_id.clone();
        let ghost id = quest_id@;
        let ghost before = self.current_quests;
        self.current_quests.insert(key, QuestProgress { quest_id, quest_state, objectives: map });
        proof {
            assert forall|k: Seq<char>| k != id implies #[trigger] self.spec_quest(k) == old(self).spec_quest(k) by {
                assert(self.current_quests.spec_get(k) == before.spec_get(k));
            }
        }
    }
}

/// `a + b`, clamped to the `i32` range (what `i32::saturating_add` computes).
pub open spec fn sat_add(a: i32, b: i32) -> i32 {
    if a + b > i32::MAX {
        i32::MAX
    } else if a + b < i32::MIN {
        i32::MIN
    } else {
        (a + b) as i32
    }
}

fn saturating_add_i32(a: i32, b: i32) -> (r: i32)
    ensures
        r == sat_add(a, b),
{
    let s: i64 = a as i64 + b as i64;
    if s > i32::MAX as i64 {
        i32::MAX
    } else if s < i32::MIN as i64 {
        i32::MIN
    } else {
        s as i32
    }
}

/// The objectives of a live quest as the rules see them, by condition id.
pub open spec fn objective_map(m: StrMap<QuestObjective>) -> Map<Seq<char>, (bool, Map<Seq<char>, i32>)> {
    m.as_map().map_values(|o: QuestObjective| objective_view(o))
}

/// The counter `c` of an objective's counters (0 when absent).
pub open spec fn counter_of(values: Map<Seq<char>, i32>, c: Seq<char>) -> i32 {
    if values.contains_key(c) {
        values[c]
    } else {
        0
    }
}

/// One counter update: the objective `c` (a fresh one when missing) gets counter `c`
/// set to `v`, or raised by `v` (saturating) when `add`; it is complete once positive.
pub open spec fn apply_op(
    m: Map<Seq<char>, (bool, Map<Seq<char>, i32>)>,
    c: Seq<char>,
    v: i32,
    add: bool,
) -> Map<Seq<char>, (bool, Map<Seq<char>, i32>)> {
    let cur = if m.contains_key(c) {
        m[c]
    } else {
        (false, Map::<Seq<char>, i32>::empty().insert(c, 0i32))
    };
    let next = if add {
        sat_add(counter_of(cur.1, c), v)
    } else {
        v
    };
    m.insert(c, (next > 0, cur.1.insert(c, next)))
}

/// The counter updates `ops`, applied in order.
pub open spec fn apply_ops(
    m: Map<Seq<char>, (bool, Map<Seq<char>, i32>)>,
    ops: Seq<ObjectiveValueOp>,
) -> Map<Seq<char>, (bool, Map<Seq<char>, i32>)>
    decreases ops.len(),
{
    if ops.len() == 0 {
        m
    } else {
        let o = ops.last();
        apply_op(apply_ops(m, ops.drop_last()), o.condition_id@, o.value, o.is_add)
    }
}

/// Every objective exists and is complete.
pub open spec fn all_complete(m: Map<Seq<char>, (bool, Map<Seq<char>, i32>)>) -> bool {
    (exists|k: Seq<char>| #[trigger] m.contains_key(k)) && forall|k: Seq<char>| #[trigger] m.contains_key(k) ==> m[k].0
}

/// A fresh objective for condition `c`: not complete, its counter at 0.
pub fn empty_objective(c: &str) -> (o: QuestObjective)
    ensures
        o.condition_id@ == c@,
        objective_view(o) == (false, Map::<Seq<char>, i32>::empty().insert(c@, 0i32)),
{
    let mut values: StrMap<i32> = StrMap::new();
    let ghost v0 = values;
    values.insert(String::from_str(c), 0);
    proof {
        assert forall|k: Seq<char>| k != c@ implies values.spec_get(k) is None by {
            assert(values.spec_get(k) == v0.spec_get(k));
        }
        assert(values.as_map() =~= Map::<Seq<char>, i32>::empty().insert(c@, 0i32));
    }
    QuestObjective { condition_id: String::from_str(c), is_complete: false, values }
}

/// Applies one counter update to a quest's objectives.
fn apply_op_to(objectives: &mut StrMap<QuestObjective>, op: &ObjectiveValueOp)
    ensures
        objective_map(*final(objectives)) == apply_op(objective_map(*old(objectives)), op.condition_id@, op.value, op.is_add),
{
    let ghost m0 = *objectives;
    let c = op.condition_id.as_str();
    let mut obj = match objectives.remove(c) {
        Some(o) => o,
        None => empty_objective(c),
    };
    let ghost cur = objective_view(obj);
    let ghost o0 = obj;
    let prev: i32 = match obj.values.get(c) {
        Some(v) => *v,
        None => 0,
    };
    let next = if op.is_add {
        saturating_add_i32(prev, op.value)
    } else {
        op.value
    };
    obj.values.insert(String::from_str(c), next);
    obj.is_complete = next > 0;
    let ghost m1 = *objectives;
    objectives.insert(op.condition_id.clone(), obj);
    proof {
        assert(cur == (if objective_map(m0).contains_key(c@) {
            objective_map(m0)[c@]
        } else {
            (false, Map::<Seq<char>, i32>::empty().insert(c@, 0i32))
        }));
        assert(prev == counter_of(cur.1, c@));
        assert forall|k: Seq<char>| k != c@ implies #[trigger] obj.values.spec_get(k) == o0.values.spec_get(k) by {}
        assert(obj.values.as_map() =~= cur.1.insert(c@, next));
        assert forall|k: Seq<char>| k != c@ implies #[trigger] objectives.spec_get(k) == m0.spec_get(k) by {
            assert(objectives.spec_get(k) == m1.spec_get(k));
            assert(m1.spec_get(k) == m0.spec_get(k));
        }
        assert(objective_map(*objectives) =~= apply_op(objective_map(m0), c@, op.value, op.is_add));
    }
}

/// Unicode white space, as `char::is_whitespace` classifies it.
pub open spec fn is_ws(c: char) -> bool {
    ('\u{9}' <= c && c <= '\u{d}') || c == ' ' || c == '\u{85}' || c == '\u{a0}' || c == '\u{1680}' || (
    '\u{2000}' <= c && c <= '\u{200a}') || c == '\u{2028}' || c == '\u{2029}' || c == '\u{202f}' || c
        == '\u{205f}' || c == '\u{3000}'
}

/// Nothing but white space (what `trim().is_empty()` tests).
pub open spec fn is_blank(s: Seq<char>) -> bool {
    forall|i: int| 0 <= i < s.len() ==> is_ws(#[trigger] s[i])
}

fn blank(s: &str) -> (b: bool)
    ensures
        b == is_blank(s@),
{
    let cs = str_chars(s);
    let mut i: usize = 0;
    while i < cs.len()
        invariant
            i <= cs@.len(),
            cs@ == s@,
            forall|j: int| 0 <= j < i ==> is_ws(#[trigger] cs@[j]),
        decreases cs.len() - i,
    {
        let c = cs[i];
        let ws = ('\u{9}' <= c && c <= '\u{d}') || c == ' ' || c == '\u{85}' || c == '\u{a0}' || c == '\u{1680}' || (
        '\u{2000}' <= c && c <= '\u{200a}') || c == '\u{2028}' || c == '\u{2029}' || c == '\u{202f}' || c
            == '\u{205f}' || c == '\u{3000}';
        if !ws {
            return false;
        }
        i = i + 1;
    }
    true
}

/// The objectives a quest starts with: one fresh objective per non-blank objective key.
pub open spec fn start_objectives(keys: Seq<String>) -> Map<Seq<char>, (bool, Map<Seq<char>, i32>)> {
    Map::new(
        |k: Seq<char>| !is_blank(k) && exists|i: int| 0 <= i < keys.len() && (#[trigger] keys[i])@ == k,
        |k: Seq<char>| (false, Map::<Seq<char>, i32>::empty().insert(k, 0i32)),
    )
}

/// A live quest started from its definition.
pub fn build_quest_progress(qd: &QuestDefinition) -> (q: QuestProgress)
    ensures
        q.quest_id@ == qd.quest_id@,
        q.quest_state == QuestState::Qsprocessing,
        objective_map(q.objectives) == start_objectives(qd.objective_keys@),
{
    let keys = &qd.objective_keys;
    let mut objectives: StrMap<QuestObjective> = StrMap::new();
    let mut i: usize = 0;
    while i < keys.len()
        invariant
            i <= keys@.len(),
            objective_map(objectives) == start_objectives(keys@.take(i as int)),
        decreases keys.len() - i,
    {
        let ghost pre = keys@.take(i as int);
        let ghost post = keys@.take(i + 1);
        proof {
            assert(post == pre.push(keys@[i as int]));
        }
        if !blank(keys[i].as_str()) {
            let ghost m0 = objectives;
            let o = empty_objective(keys[i].as_str());
            objectives.insert(keys[i].clone(), o);
            proof {
                let kv = keys@[i as int]@;
                assert forall|k: Seq<char>| k != kv implies #[trigger] objectives.spec_get(k) == m0.spec_get(k) by {}
                assert forall|k: Seq<char>| #[trigger] start_objectives(post).contains_key(k) <==> (start_objectives(pre).contains_key(k) || k == kv) by {
                    if start_objectives(post).contains_key(k) {
                        let j = choose|j: int| 0 <= j < post.len() && (#[trigger] post[j])@ == k;
                        if j < pre.len() {
                            assert(pre[j] == post[j]);
                        }
                    }
                    if start_objectives(pre).contains_key(k) {
                        let j = choose|j: int| 0 <= j < pre.len() && (#[trigger] pre[j])@ == k;
                        assert(post[j] == pre[j]);
                    }
                    if k == kv {
                        assert(post[i as int]@ == k);
                    }
                }
                assert forall|k: Seq<char>| #[trigger] objective_map(objectives).contains_key(k) == start_objectives(post).contains_key(k)
                    && (objective_map(objectives).contains_key(k) ==> objective_map(objectives)[k] == start_objectives(post)[k]) by {
                    assert(start_objectives(post).contains_key(k) <==> (start_objectives(pre).contains_key(k) || k == kv));
                    if k == kv {
                        assert(objectives.spec_get(k) == Some(o));
                        assert(!is_blank(kv));
                        assert(objective_map(objectives).contains_key(k));
                        assert(objective_map(objectives)[k] == objective_view(o));
                    } else {
                        assert(objectives.spec_get(k) == m0.spec_get(k));
                        assert(objective_map(objectives).contains_key(k) == objective_map(m0).contains_key(k));
                        if objective_map(objectives).contains_key(k) {
                            assert(objective_map(objectives)[k] == objective_map(m0)[k]);
                        }
                    }
                }
                assert(objective_map(objectives) =~= start_objectives(post));
            }
        } else {
            proof {
                assert forall|k: Seq<char>| #[trigger] start_objectives(post).contains_key(k) <==> start_objectives(pre).contains_key(k) by {
                    if start_objectives(post).contains_key(k) {
                        let j = choose|j: int| 0 <= j < post.len() && (#[trigger] post[j])@ == k;
                        if j < pre.len() {
                            assert(pre[j] == post[j]);
                        }
                    }
                    if start_objectives(pre).contains_key(k) {
                        let j = choose|j: int| 0 <= j < pre.len() && (#[trigger] pre[j])@ == k;
                        assert(post[j] == pre[j]);
                    }
                }
                assert(start_objectives(post) =~= start_objectives(pre));
            }
        }
        i = i + 1;
    }
    proof {
        assert(keys@.take(keys@.len() as int) == keys@);
    }
    QuestProgress { quest_id: qd.quest_id.clone(), quest_state: QuestState::Qsprocessing, objectives }
}

/// The mission id a quest id belongs to: its part before the first `_q#` (all of it
/// when there is none).
pub open spec fn mission_prefix(qid: Seq<char>) -> Seq<char> {
    match first_block(qid, "_q#"@) {
        Some(i) => qid.take(i),
        None => qid,
    }
}

/// Position of the first quest with id `qid` in the quest list `qs`.
pub open spec fn quest_position(qs: Seq<QuestDefinition>, qid: Seq<char>) -> Option<int> {
    if exists|i: int| 0 <= i < qs.len() && (#[trigger] qs[i]).quest_id@ == qid {
        Some(choose|i: int| 0 <= i < qs.len() && (#[trigger] qs[i]).quest_id@ == qid && forall|j: int|
            0 <= j < i ==> (#[trigger] qs[j]).quest_id@ != qid)
    } else {
        None
    }
}

proof fn lemma_quest_position(qs: Seq<QuestDefinition>, qid: Seq<char>, i: int)
    requires
        0 <= i < qs.len(),
        qs[i].quest_id@ == qid,
        forall|j: int| 0 <= j < i ==> (#[trigger] qs[j]).quest_id@ != qid,
    ensures
        quest_position(qs, qid) == Some(i),
{
    let c = choose|c: int| 0 <= c < qs.len() && (#[trigger] qs[c]).quest_id@ == qid && forall|j: int|
        0 <= j < c ==> (#[trigger] qs[j]).quest_id@ != qid;
    assert(0 <= c < qs.len() && qs[c].quest_id@ == qid && forall|j: int| 0 <= j < c ==> (#[trigger] qs[j]).quest_id@ != qid);
    if c < i {
        assert(qs[c].quest_id@ != qid);
    } else if c > i {
        assert(qs[i].quest_id@ != qid);
    }
}

/// Where finishing quest `qid` leads: its mission's definition and the quest's place in
/// it; `None` when the catalog has no such mission or the mission no such quest.
pub open spec fn next_step(assets: MissionAssets, qid: Seq<char>) -> Option<(MissionDefinition, int)> {
    match assets.spec_get(mission_prefix(qid)) {
        None => None,
        Some(def) => match quest_position(def.quests@, qid) {
            None => None,
            Some(pos) => Some((def, pos)),
        },
    }
}

/// The mission id part of a quest id, as a string.
fn mission_id_of(quest_id: &str) -> (m: String)
    ensures
        m@ == mission_prefix(quest_id@),
{
    let q = str_chars(quest_id);
    let sep = str_chars("_q#");
    proof {
        reveal_strlit("_q#");
    }
    match find_block(&q, &sep) {
        Some(i) => {
            let head = slice_chars(&q, 0, i);
            proof {
                assert(head@ == q@.take(i as int));
            }
            string_from_chars(head.as_slice())
        },
        None => string_from_chars(q.as_slice()),
    }
}

impl MissionManager {
    /// Moves past the finished quest `quest_id`: drops it and starts the next quest of
    /// its mission, or, when it was the last, marks the mission completed. Returns the
    /// mission id and the next quest id (empty when there is none); `None`, changing
    /// nothing, when the catalog does not know the quest.
    #[verifier::rlimit(30)]
    pub fn advance_to_next_quest(&mut self, quest_id: &str, assets: &MissionAssets) -> (r: Option<(String, String)>)
        ensures
            final(self).track_view() == old(self).track_view(),
            match next_step(*assets, quest_id@) {
                None => r is None && final(self).missions_view() == old(self).missions_view()
                    && final(self).quests_view() == old(self).quests_view(),
                Some((def, pos)) => r matches Some((m, n)) && m@ == mission_prefix(quest_id@) && if pos + 1
                    < def.quests@.len() {
                    let next = def.quests@[pos + 1];
                    &&& n@ == next.quest_id@
                    &&& final(self).spec_quest(n@) matches Some(q) && q.quest_id@ == n@ && q.quest_state
                        == QuestState::Qsprocessing && objective_map(q.objectives) == start_objectives(
                        next.objective_keys@,
                    )
                    &&& (quest_id@ != n@ ==> final(self).spec_quest(quest_id@) is None)
                    &&& forall|k: Seq<char>|
                        k != quest_id@ && k != n@ ==> #[trigger] final(self).spec_quest(k) == old(self).spec_quest(k)
                    &&& final(self).missions_view() == old(self).missions_view()
                } else {
                    &&& n@.len() == 0
                    &&& final(self).spec_quest(quest_id@) is None
                    &&& forall|k: Seq<char>| k != quest_id@ ==> #[trigger] final(self).spec_quest(k) == old(self).spec_quest(k)
                    &&& match old(self).spec_mission(m@) {
                        None => final(self).missions_view() == old(self).missions_view(),
                        Some(mp) => final(self).spec_mission(m@) matches Some(mp2) && mp2.mission_id@
                            == mp.mission_id@ && mp2.mission_state == MissionState::Mscompleted
                            && mp2.succeed_id == mp.succeed_id,
                    }
                    &&& forall|k: Seq<char>| k != m@ ==> #[trigger] final(self).spec_mission(k) == old(self).spec_mission(k)
                },
            },
    {
        let mission_id = mission_id_of(quest_id);
        let def = match assets.get(mission_id.as_str()) {
            Some(d) => d,
            None => return None,
        };
        let qid = quest_id.to_owned();
        let mut pos: usize = 0;
        while pos < def.quests.len()
            invariant_except_break
                pos <= def.quests@.len(),
                qid@ == quest_id@,
                forall|j: int| 0 <= j < pos ==> (#[trigger] def.quests@[j]).quest_id@ != quest_id@,
            ensures
                pos <= def.quests@.len(),
                forall|j: int| 0 <= j < pos ==> (#[trigger] def.quests@[j]).quest_id@ != quest_id@,
                pos < def.quests@.len() ==> def.quests@[pos as int].quest_id@ == quest_id@,
            decreases def.quests.len() - pos,
        {
            if def.quests[pos].quest_id == qid {
                break;
            }
            pos = pos + 1;
        }
        if pos == def.quests.len() {
            proof {
                if exists|i: int| 0 <= i < def.quests@.len() && (#[trigger] def.quests@[i]).quest_id@ == quest_id@ {
                    let i = choose|i: int| 0 <= i < def.quests@.len() && (#[trigger] def.quests@[i]).quest_id@ == quest_id@;
                    assert(def.quests@[i].quest_id@ != quest_id@);
                }
            }
            return None;
        }
        proof {
            lemma_quest_position(def.quests@, quest_id@, pos as int);
        }
        let ghost q0 = self.current_quests;
        self.current_quests.remove(quest_id);
        if pos + 1 < def.quests.len() {
            let next = &def.quests[pos + 1];
            let progress = build_quest_progress(next);
            let ghost q1 = self.current_quests;
            self.current_quests.insert(next.quest_id.clone(), progress);
            proof {
                assert forall|k: Seq<char>| k != quest_id@ && k != next.quest_id@ implies #[trigger] self.spec_quest(k) == old(self).spec_quest(k) by {
                    assert(self.current_quests.spec_get(k) == q1.spec_get(k));
                    assert(q1.spec_get(k) == q0.spec_get(k));
                }
                if quest_id@ != next.quest_id@ {
                    assert(self.current_quests.spec_get(quest_id@) == q1.spec_get(quest_id@));
                }
            }
            Some((mission_id, next.quest_id.clone()))
        } else {
            let ghost m0 = self.missions;
            match self.missions.remove(mission_id.as_str()) {
                Some(mp) => {
                    let key = mission_id.clone();
                    let ghost m1 = self.missions;
                    self.missions.insert(
                        key,
                        MissionProgress { mission_id: mp.mission_id, mission_state: MissionState::Mscompleted, succeed_id: mp.succeed_id },
                    );
                    proof {
                        assert forall|k: Seq<char>| k != mission_id@ implies #[trigger] self.spec_mission(k) == old(self).spec_mission(k) by {
                            assert(self.missions.spec_get(k) == m1.spec_get(k));
                            assert(m1.spec_get(k) == m0.spec_get(k));
                        }
                    }
                },
                None => {},
            }
            proof {
                assert forall|k: Seq<char>| k != quest_id@ implies #[trigger] self.spec_quest(k) == old(self).spec_quest(k) by {
                    assert(self.current_quests.spec_get(k) == q0.spec_get(k));
                }
            }
            Some((mission_id, String::new()))
        }
    }
}

/// The objectives of a quest, sent after they change.
#[derive(Debug)]
pub struct QuestObjectivesUpdate {
    pub quest_id: String,
    pub quest_objectives: Vec<QuestObjective>,
}

/// A quest's new state.
#[derive(Debug)]
pub struct QuestStateUpdate {
    pub quest_id: String,
    pub quest_state: QuestState,
}

/// A mission's new state.
#[derive(Debug)]
pub struct MissionStateUpdate {
    pub mission_id: String,
    pub mission_state: MissionState,
    pub succeed_id: i32,
}

/// Everything an objective update has to tell the client.
#[derive(Debug)]
pub struct MissionUpdate {
    pub reply_objective_update: Option<QuestObjectivesUpdate>,
    pub notify_objective_updates: Vec<QuestObjectivesUpdate>,
    pub state_updates: Vec<QuestStateUpdate>,
    pub mission_updates: Vec<MissionStateUpdate>,
}

impl MissionUpdate {
    /// Nothing to report.
    pub open spec fn is_empty(&self) -> bool {
        &&& self.reply_objective_update is None
        &&& self.notify_objective_updates@.len() == 0
        &&& self.state_updates@.len() == 0
        &&& self.mission_updates@.len() == 0
    }
}

impl Default for MissionUpdate {
    fn default() -> (u: Self)
        ensures
            u.is_empty(),
    {
        MissionUpdate {
            reply_objective_update: None,
            notify_objective_updates: Vec::new(),
            state_updates: Vec::new(),
            mission_updates: Vec::new(),
        }
    }
}

/// `objs` are the objectives of map `m`, each as the rules see it.
pub open spec fn lists_objectives(objs: Seq<QuestObjective>, m: Map<Seq<char>, (bool, Map<Seq<char>, i32>)>) -> bool {
    forall|j: int| 0 <= j < objs.len() ==> is_objective_of(m, objective_view(#[trigger] objs[j]))
}

/// `x` is one of the objectives of `m`.
pub open spec fn is_objective_of(m: Map<Seq<char>, (bool, Map<Seq<char>, i32>)>, x: (bool, Map<Seq<char>, i32>)) -> bool {
    exists|k: Seq<char>| #[trigger] m.contains_key(k) && m[k] == x
}

/// Whether every objective of `m` exists and is complete.
fn objectives_complete(m: &StrMap<QuestObjective>) -> (b: bool)
    ensures
        b == all_complete(objective_map(*m)),
{
    let entries = m.entries();
    proof {
        lemma_entries_map(entries@);
    }
    if entries.len() == 0 {
        proof {
            if exists|k: Seq<char>| #[trigger] objective_map(*m).contains_key(k) {
                let k = choose|k: Seq<char>| #[trigger] objective_map(*m).contains_key(k);
                assert(m.spec_get(k) is Some);
            }
        }
        return false;
    }
    let mut i: usize = 0;
    while i < entries.len()
        invariant
            i <= entries@.len(),
            entries@ == m.entries_view(),
            keys_sorted(entries@),
            forall|j: int| 0 <= j < i ==> (#[trigger] entries@[j]).1.is_complete,
        decreases entries.len() - i,
    {
        if !entries[i].1.is_complete {
            proof {
                lemma_entries_map(entries@);
                let k = entries@[i as int].0@;
                assert(value_of(entries@, k) == Some(entries@[i as int].1));
                assert(objective_map(*m).contains_key(k));
            }
            return false;
        }
        i = i + 1;
    }
    proof {
        let k0 = entries@[0].0@;
        assert(value_of(entries@, k0) == Some(entries@[0].1));
        assert(objective_map(*m).contains_key(k0));
        assert forall|k: Seq<char>| #[trigger] objective_map(*m).contains_key(k) implies objective_map(*m)[k].0 by {
            let j = choose|j: int| 0 <= j < entries@.len() && (#[trigger] entries@[j]).0@ == k;
            assert(value_of(entries@, k) == Some(entries@[j].1));
        }
    }
    true
}

/// Quest `q` is live, processing, and has objectives `objs`, with quest id `qid`.
pub open spec fn started_as(q: Option<QuestProgress>, qid: Seq<char>, objs: Map<Seq<char>, (bool, Map<Seq<char>, i32>)>) -> bool {
    q matches Some(q) && q.quest_id@ == qid && q.quest_state == QuestState::Qsprocessing && objective_map(q.objectives) == objs
}


/// What applying the counter updates `ops` to live quest `qid` does, given the mission
/// catalog: the state before and after, and the update reported.
#[verifier::opaque]
pub open spec fn ops_outcome(
    before: MissionManager,
    after: MissionManager,
    qid: Seq<char>,
    ops: Seq<ObjectiveValueOp>,
    assets: MissionAssets,
    u: MissionUpdate,
) -> bool {
            match before.spec_quest(qid) {
                None => u.is_empty() && after.missions_view() == before.missions_view()
                    && after.quests_view() == before.quests_view(),
                Some(q) => {
                    let m1 = apply_ops(objective_map(q.objectives), ops);
                    &&& u.reply_objective_update matches Some(r) && r.quest_id@ == q.quest_id@ && lists_objectives(r.quest_objectives@, m1)
                    &&& if !all_complete(m1) {
                        &&& after.spec_quest(qid) matches Some(q2) && q2.quest_id@ == q.quest_id@
                            && q2.quest_state == q.quest_state && objective_map(q2.objectives) == m1
                        &&& forall|k: Seq<char>| k != qid ==> #[trigger] after.spec_quest(k) == before.spec_quest(k)
                        &&& after.missions_view() == before.missions_view()
                        &&& u.state_updates@.len() == 0 && u.notify_objective_updates@.len() == 0 && u.mission_updates@.len() == 0
                    } else {
                        &&& u.state_updates@.len() >= 1
                        &&& u.state_updates@[0].quest_id@ == q.quest_id@ && u.state_updates@[0].quest_state == QuestState::Qscompleted
                        &&& match next_step(assets, qid) {
                            None => {
                                &&& after.spec_quest(qid) matches Some(q2) && q2.quest_id@ == q.quest_id@
                                    && q2.quest_state == QuestState::Qscompleted && objective_map(q2.objectives) == m1
                                &&& forall|k: Seq<char>| k != qid ==> #[trigger] after.spec_quest(k) == before.spec_quest(k)
                                &&& after.missions_view() == before.missions_view()
                                &&& u.state_updates@.len() == 1 && u.notify_objective_updates@.len() == 0 && u.mission_updates@.len() == 0
                            },
                            Some((def, pos)) => if pos + 1 < def.quests@.len() {
                                let next = def.quests@[pos + 1];
                                let objs = start_objectives(next.objective_keys@);
                                &&& started_as(after.spec_quest(next.quest_id@), next.quest_id@, objs)
                                &&& (qid != next.quest_id@ ==> after.spec_quest(qid) is None)
                                &&& forall|k: Seq<char>|
                                    k != qid && k != next.quest_id@ ==> #[trigger] after.spec_quest(k) == before.spec_quest(k)
                                &&& after.missions_view() == before.missions_view()
                                &&& u.state_updates@.len() == 2 && u.state_updates@[1].quest_id@ == next.quest_id@
                                    && u.state_updates@[1].quest_state == QuestState::Qsprocessing
                                &&& u.notify_objective_updates@.len() == 1 && u.notify_objective_updates@[0].quest_id@ == next.quest_id@
                                    && lists_objectives(u.notify_objective_updates@[0].quest_objectives@, objs)
                                &&& match before.spec_mission(mission_prefix(qid)) {
                                    None => u.mission_updates@.len() == 0,
                                    Some(mp) => u.mission_updates@.len() == 1 && u.mission_updates@[0].mission_id@ == mp.mission_id@
                                        && u.mission_updates@[0].mission_state == mp.mission_state && u.mission_updates@[0].succeed_id == mp.succeed_id,
                                }
                            } else {
                                &&& after.spec_quest(qid) is None
                                &&& forall|k: Seq<char>| k != qid ==> #[trigger] after.spec_quest(k) == before.spec_quest(k)
                                &&& forall|k: Seq<char>| k != mission_prefix(qid) ==> #[trigger] after.spec_mission(k) == before.spec_mission(k)
                                &&& match before.spec_mission(mission_prefix(qid)) {
                                    None => after.missions_view() == before.missions_view() && u.mission_updates@.len() == 0,
                                    Some(mp) => after.spec_mission(mission_prefix(qid)) matches Some(mp2) && mp2.mission_id@ == mp.mission_id@
                                        && mp2.mission_state == MissionState::Mscompleted && mp2.succeed_id == mp.succeed_id
                                        && u.mission_updates@.len() == 1 && u.mission_updates@[0].mission_id@ == mp.mission_id@
                                        && u.mission_updates@[0].mission_state == MissionState::Mscompleted
                                        && u.mission_updates@[0].succeed_id == mp.succeed_id,
                                }
                            },
                        }
                    }
                },
            }
}

impl MissionManager {
    /// Applies the counter updates `objective_ops` to live quest `quest_id`. When that
    /// completes every objective, the quest is marked completed and the mission moves on
    /// (see `advance_to_next_quest`); the returned update lists what changed.
    #[verifier::rlimit(60)]
    pub fn apply_objective_ops(&mut self, quest_id: &str, objective_ops: &[ObjectiveValueOp], mission_assets: &MissionAssets) -> (u: MissionUpdate)
        ensures
            final(self).track_view() == old(self).track_view(),
            ops_outcome(*old(self), *final(self), quest_id@, objective_ops@, *mission_assets, u),
    {
        reveal(ops_outcome);
        let ghost q_before = self.current_quests;
        let mut quest = match self.current_quests.remove(quest_id) {
            Some(q) => q,
            None => return MissionUpdate::default(),
        };
        let ghost q_removed = self.current_quests;
        let ghost m0 = objective_map(quest.objectives);
        let ghost q0 = quest;
        let mut i: usize = 0;
        while i < objective_ops.len()
            invariant
                i <= objective_ops@.len(),
                quest.quest_id == q0.quest_id,
                quest.quest_state == q0.quest_state,
                objective_map(quest.objectives) == apply_ops(m0, objective_ops@.take(i as int)),
            decreases objective_ops.len() - i,
        {
            proof {
                let pre = objective_ops@.take(i as int);
                let post = objective_ops@.take(i + 1);
                assert(post.drop_last() == pre);
                assert(post.last() == objective_ops@[i as int]);
            }
            apply_op_to(&mut quest.objectives, &objective_ops[i]);
            i = i + 1;
        }
        proof {
            assert(objective_ops@.take(objective_ops@.len() as int) == objective_ops@);
        }
        let mut update = MissionUpdate::default();
        update.reply_objective_update = Some(QuestObjectivesUpdate { quest_id: quest.quest_id.clone(), quest_objectives: copy_objectives(&quest) });
        if !objectives_complete(&quest.objectives) {
            let key = String::from_str(quest_id);
            let ghost qv = quest;
            self.current_quests.insert(key, quest);
            proof {
                assert forall|k: Seq<char>| k != quest_id@ implies #[trigger] self.spec_quest(k) == old(self).spec_quest(k) by {
                    assert(self.current_quests.spec_get(k) == q_removed.spec_get(k));
                    assert(q_removed.spec_get(k) == q_before.spec_get(k));
                }
            }
            return update;
        }
        quest.quest_state = QuestState::Qscompleted;
        update.state_updates.push(QuestStateUpdate { quest_id: quest.quest_id.clone(), quest_state: QuestState::Qscompleted });
        let key = String::from_str(quest_id);
        self.current_quests.insert(key, quest);
        let ghost mid_quests = self.current_quests;
        let ghost mid_missions = self.missions;
        proof {
            assert forall|k: Seq<char>| k != quest_id@ implies #[trigger] self.spec_quest(k) == old(self).spec_quest(k) by {
                assert(self.current_quests.spec_get(k) == q_removed.spec_get(k));
                assert(q_removed.spec_get(k) == q_before.spec_get(k));
            }
        }
        let ghost mid = *self;
        match self.advance_to_next_quest(quest_id, mission_assets) {
            Some((mission_id, next_quest_id)) => {
                match self.current_quests.get(next_quest_id.as_str()) {
                    Some(next_quest) => {
                        update.state_updates.push(QuestStateUpdate { quest_id: next_quest.quest_id.clone(), quest_state: QuestState::Qsprocessing });
                        let objs = copy_objectives(next_quest);
                        update.notify_objective_updates.push(QuestObjectivesUpdate { quest_id: next_quest.quest_id.clone(), quest_objectives: objs });
                    },
                    None => {},
                }
                match self.missions.get(mission_id.as_str()) {
                    Some(m) => {
                        update.mission_updates.push(MissionStateUpdate { mission_id: m.mission_id.clone(), mission_state: m.mission_state, succeed_id: m.succeed_id });
                    },
                    None => {},
                }
            },
            None => {
                proof {
                    assert forall|k: Seq<char>| k != quest_id@ implies #[trigger] self.spec_quest(k) == old(self).spec_quest(k) by {
                        assert(self.spec_quest(k) == mid.spec_quest(k));
                    }
                }
            },
        }
        update
    }
}

/// Live quest entry `e` belongs to the tracked mission `track`, is in progress and has an
/// objective left.
pub open spec fn is_live_step(e: (String, QuestProgress), track: Seq<char>) -> bool {
    &&& has_prefix(e.0@, track)
    &&& e.1.quest_state == QuestState::Qsprocessing
    &&& exists|j: int| 0 <= j < e.1.objectives.entries_view().len() && !(#[trigger] e.1.objectives.entries_view()[j]).1.is_complete
}

/// The first live step of the tracked mission: the first such quest (by quest id) and its
/// first open objective (by condition id).
pub open spec fn first_live_step(qs: Seq<(String, QuestProgress)>, track: Seq<char>) -> Option<(int, int)> {
    if exists|i: int| 0 <= i < qs.len() && is_live_step(#[trigger] qs[i], track) {
        let i = choose|i: int| 0 <= i < qs.len() && is_live_step(#[trigger] qs[i], track) && forall|k: int|
            0 <= k < i ==> !is_live_step(#[trigger] qs[k], track);
        let os = qs[i].1.objectives.entries_view();
        let j = choose|j: int| 0 <= j < os.len() && !(#[trigger] os[j]).1.is_complete && forall|k: int|
            0 <= k < j ==> (#[trigger] os[k]).1.is_complete;
        Some((i, j))
    } else {
        None
    }
}

impl MissionManager {
    /// Advances the tracked mission by one step: completes the first open objective of its
    /// first live quest, as an objective update adding 1 would. Nothing happens when the
    /// tracked mission has no live step.
    #[verifier::rlimit(40)]
    pub fn advance_tracked_quest_step(&mut self, mission_assets: &MissionAssets) -> (u: MissionUpdate)
        ensures
            match first_live_step(old(self).quests_view(), old(self).track_view()) {
                None => u.is_empty() && *final(self) == *old(self),
                Some((i, j)) => {
                    let e = old(self).quests_view()[i];
                    let o = e.1.objectives.entries_view()[j].1;
                    &&& final(self).track_view() == old(self).track_view()
                    &&& ops_outcome(
                        *old(self),
                        *final(self),
                        e.0@,
                        seq![ObjectiveValueOp { condition_id: o.condition_id, value: 1, is_add: true }],
                        *mission_assets,
                        u,
                    )
                },
            },
    {
        let entries = self.current_quests.entries();
        let track = str_chars(self.track_mission_id.as_str());
        let mut i: usize = 0;
        while i < entries.len()
            invariant
                i <= entries@.len(),
                *self == *old(self),
                entries@ == self.quests_view(),
                track@ == self.track_view(),
                forall|k: int| 0 <= k < i ==> !is_live_step(#[trigger] entries@[k], track@),
            decreases entries.len() - i,
        {
            let e = &entries[i];
            let qc = str_chars(e.0.as_str());
            if starts_with(&qc, &track) && e.1.quest_state == QuestState::Qsprocessing {
                let objs = e.1.objectives.entries();
                match first_open(objs) {
                    Some(j) => {
                        let quest_id = e.0.clone();
                        let op = ObjectiveValueOp { condition_id: objs[j].1.condition_id.clone(), value: 1, is_add: true };
                        let ghost ov = op;
                        proof {
                            let qs = entries@;
                            assert(is_live_step(qs[i as int], track@));
                            let ci = choose|c: int| 0 <= c < qs.len() && is_live_step(#[trigger] qs[c], track@) && forall|k: int|
                                0 <= k < c ==> !is_live_step(#[trigger] qs[k], track@);
                            if ci < i {
                                assert(!is_live_step(qs[ci], track@));
                            } else if ci > i {
                                assert(!is_live_step(qs[i as int], track@));
                            }
                            let os = qs[i as int].1.objectives.entries_view();
                            let cj = choose|c: int| 0 <= c < os.len() && !(#[trigger] os[c]).1.is_complete && forall|k: int|
                                0 <= k < c ==> (#[trigger] os[k]).1.is_complete;
                            if cj < j {
                                assert(os[cj].1.is_complete);
                            } else if cj > j {
                                assert(os[j as int].1.is_complete);
                            }
                            assert(first_live_step(qs, track@) == Some((i as int, j as int)));
                        }
                        let ops = vec![op];
                        proof {
                            assert(ops@ == seq![ov]);
                        }
                        return self.apply_objective_ops(quest_id.as_str(), ops.as_slice(), mission_assets);
                    },
                    None => {},
                }
            }
            i = i + 1;
        }
        proof {
            if exists|c: int| 0 <= c < entries@.len() && is_live_step(#[trigger] entries@[c], track@) {
                let c = choose|c: int| 0 <= c < entries@.len() && is_live_step(#[trigger] entries@[c], track@);
            }
        }
        MissionUpdate::default()
    }
}

/// Position of the first objective not yet complete.
fn first_open(objs: &[(String, QuestObjective)]) -> (r: Option<usize>)
    ensures
        match r {
            Some(j) => j < objs@.len() && !objs@[j as int].1.is_complete && forall|k: int| 0 <= k < j ==> (#[trigger] objs@[k]).1.is_complete,
            None => forall|k: int| 0 <= k < objs@.len() ==> (#[trigger] objs@[k]).1.is_complete,
        },
{
    let mut j: usize = 0;
    while j < objs.len()
        invariant
            j <= objs@.len(),
            forall|k: int| 0 <= k < j ==> (#[trigger] objs@[k]).1.is_complete,
        decreases objs.len() - j,
    {
        if !objs[j].1.is_complete {
            return Some(j);
        }
        j = j + 1;
    }
    None
}

/// A quest can open a mission: it has objective keys and at least one is not blank.
pub open spec fn bootable(q: QuestDefinition) -> bool {
    q.objective_keys@.len() > 0 && exists|k: Seq<char>| #[trigger] start_objectives(q.objective_keys@).contains_key(k)
}

/// The mission a fresh player starts with: the prologue when the catalog has it,
/// else the catalog's first mission; empty when the catalog is empty.
pub open spec fn bootstrap_mission(assets: MissionAssets) -> Seq<char> {
    if assets.spec_get(PROLOGUE_MISSION_ID@) is Some {
        PROLOGUE_MISSION_ID@
    } else if assets.missions_view().len() > 0 {
        assets.missions_view()[0].mission_id@
    } else {
        Seq::empty()
    }
}

/// Whether a built quest has any objective.
fn has_objectives(q: &QuestProgress) -> (b: bool)
    ensures
        b == exists|k: Seq<char>| #[trigger] objective_map(q.objectives).contains_key(k),
{
    let entries = q.objectives.entries();
    proof {
        lemma_entries_map(entries@);
        if entries@.len() > 0 {
            assert(objective_map(q.objectives).contains_key(entries@[0].0@));
        } else if exists|k: Seq<char>| #[trigger] objective_map(q.objectives).contains_key(k) {
            let k = choose|k: Seq<char>| #[trigger] objective_map(q.objectives).contains_key(k);
            assert(q.objectives.spec_get(k) is Some);
        }
    }
    entries.len() > 0
}

impl MissionManager {
    /// Gives a player without missions a starting mission: tracks it, records it as
    /// in progress and starts its first quest that has objectives. Does nothing when the
    /// player already has missions or the catalog is empty.
    #[verifier::rlimit(40)]
    pub fn ensure_bootstrap(&mut self, mission_assets: &MissionAssets)
        ensures
            ({
                let mid = bootstrap_mission(*mission_assets);
                if old(self).missions_view().len() > 0 || mid.len() == 0 {
                    *final(self) == *old(self)
                } else {
                    &&& final(self).track_view() == mid
                    &&& final(self).missions_view().len() == 1
                    &&& final(self).missions_view()[0].0@ == mid
                    &&& final(self).missions_view()[0].1.mission_id@ == mid
                    &&& final(self).missions_view()[0].1.mission_state == MissionState::Msprocessing
                    &&& final(self).missions_view()[0].1.succeed_id == 0
                    &&& match mission_assets.spec_get(mid) {
                        None => final(self).quests_view() == old(self).quests_view(),
                        Some(def) => if exists|i: int| 0 <= i < def.quests@.len() && bootable(#[trigger] def.quests@[i]) {
                            let i = choose|i: int| 0 <= i < def.quests@.len() && bootable(#[trigger] def.quests@[i])
                                && forall|k: int| 0 <= k < i ==> !bootable(#[trigger] def.quests@[k]);
                            let q = def.quests@[i];
                            &&& started_as(final(self).spec_quest(q.quest_id@), q.quest_id@, start_objectives(q.objective_keys@))
                            &&& forall|k: Seq<char>| k != q.quest_id@ ==> #[trigger] final(self).spec_quest(k) == old(self).spec_quest(k)
                        } else {
                            final(self).quests_view() == old(self).quests_view()
                        },
                    }
                }
            }),
    {
        if !self.missions.is_empty() {
            return;
        }
        let mission_id: String = if mission_assets.get(PROLOGUE_MISSION_ID).is_some() {
            String::from_str(PROLOGUE_MISSION_ID)
        } else {
            let all = mission_assets.missions();
            if all.len() > 0 {
                all[0].mission_id.clone()
            } else {
                String::new()
            }
        };
        if mission_id.as_str().is_empty() {
            return;
        }
        self.track_mission_id = mission_id.clone();
        self.missions.insert(
            mission_id.clone(),
            MissionProgress { mission_id: mission_id.clone(), mission_state: MissionState::Msprocessing, succeed_id: 0 },
        );
        proof {
            assert(self.missions.entries_view().len() == 1);
        }
        let mission = match mission_assets.get(mission_id.as_str()) {
            Some(m) => m,
            None => return,
        };
        match first_bootable(&mission.quests) {
            Some((i, progress)) => {
                let ghost q0 = self.current_quests;
                let key = mission.quests[i].quest_id.clone();
                self.current_quests.insert(key, progress);
                proof {
                    let qid = mission.quests@[i as int].quest_id@;
                    assert forall|k: Seq<char>| k != qid implies #[trigger] self.spec_quest(k) == old(self).spec_quest(k) by {
                        assert(self.current_quests.spec_get(k) == q0.spec_get(k));
                    }
                }
            },
            None => {},
        }
    }
}

/// The first quest that can open a mission, started.
fn first_bootable(quests: &Vec<QuestDefinition>) -> (r: Option<(usize, QuestProgress)>)
    ensures
        match r {
            None => forall|k: int| 0 <= k < quests@.len() ==> !bootable(#[trigger] quests@[k]),
            Some((i, q)) => {
                &&& i < quests@.len()
                &&& bootable(quests@[i as int])
                &&& forall|k: int| 0 <= k < i ==> !bootable(#[trigger] quests@[k])
                &&& (exists|c: int| 0 <= c < quests@.len() && bootable(#[trigger] quests@[c]))
                &&& i == choose|c: int| 0 <= c < quests@.len() && bootable(#[trigger] quests@[c]) && forall|k: int|
                    0 <= k < c ==> !bootable(#[trigger] quests@[k])
                &&& started_as(Some(q), quests@[i as int].quest_id@, start_objectives(quests@[i as int].objective_keys@))
            },
        },
{
    let mut i: usize = 0;
    while i < quests.len()
        invariant
            i <= quests@.len(),
            forall|k: int| 0 <= k < i ==> !bootable(#[trigger] quests@[k]),
        decreases quests.len() - i,
    {
        let quest = &quests[i];
        if quest.objective_keys.len() > 0 {
            let progress = build_quest_progress(quest);
            if has_objectives(&progress) {
                proof {
                    assert(bootable(quests@[i as int]));
                    let qs = quests@;
                    let c = choose|c: int| 0 <= c < qs.len() && bootable(#[trigger] qs[c]) && forall|k: int|
                        0 <= k < c ==> !bootable(#[trigger] qs[k]);
                    if c < i {
                        assert(!bootable(qs[c]));
                    } else if c > i {
                        assert(!bootable(qs[i as int]));
                    }
                }
                return Some((i, progress));
            }
        }
        proof {
            assert(!bootable(quests@[i as int]));
        }
        i = i + 1;
    }
    None
}

} // verus!
