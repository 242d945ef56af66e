//! The character bag: characters, their indexes and object ids, and teams.

use crate::logic::error::LogicError;
use crate::logic::item::{
    equip_loaded, equip_owner_checked, gem_loaded, gem_weapon_checked, lemma_weapon_loaded_distinct, weapon_ids,
    weapon_loaded, weapon_owner_checked, weapon_position,
    EquipDepot, EquipInstance, GemDepot, GemInstance, WeaponDepot, WeaponInstance,
};
use crate::logic::item::WeaponInstId;
use crate::config::item::ItemDepotType;
use crate::config::weapon::{Weapon, WeaponAssets};
use crate::logic::skill::{initial_skill_levels, SkillBundle};
use crate::logic::str_map::StrMap;
use crate::logic::text::{decimal_chars, u64_to_string};
use std::collections::HashMap;
use vstd::prelude::*;

verus! {

/// Position of a character in the bag. Its object id on the wire is the
/// index plus one, so object id 0 never names a character.
#[derive(Debug, Clone, Copy, PartialEq, Eq, Structural, Hash)]
pub struct CharIndex(pub u64);

impl Default for CharIndex {
    fn default() -> (i: Self)
        ensures
            i.0 == 0,
    {
        CharIndex(0)
    }
}

impl CharIndex {
    pub fn object_id(self) -> (id: u64)
        requires
            self.0 < u64::MAX,
        ensures
            id == self.0 + 1,
    {
        self.0 + 1
    }

    pub fn from_object_id(id: u64) -> (i: Self)
        requires
            id >= 1,
        ensures
            i.0 == id - 1,
    {
        CharIndex(id - 1)
    }

    pub fn from_usize(idx: usize) -> (i: Self)
        ensures
            i.0 == idx,
    {
        CharIndex(idx as u64)
    }

    pub fn as_usize(self) -> (idx: usize)
        ensures
            idx == self.0 as usize,
    {
        self.0 as usize
    }
}

/// Object ids and character indexes translate back and forth without loss.
pub proof fn lemma_object_id_round_trip(index: u64, object_id: u64)
    requires
        index < u64::MAX,
        object_id >= 1,
    ensures
        (index + 1) - 1 == index,
        (object_id - 1) + 1 == object_id,
{
}

/// One of a team's member slots.
#[derive(Debug, Clone, Copy, PartialEq, Eq, Structural)]
pub enum TeamSlot {
    Empty,
    Occupied(CharIndex),
}

impl Default for TeamSlot {
    fn default() -> (s: Self)
        ensures
            s == TeamSlot::Empty,
    {
        TeamSlot::Empty
    }
}

impl TeamSlot {
    pub fn char_index(&self) -> (r: Option<CharIndex>)
        ensures
            r == (match *self {
                TeamSlot::Occupied(idx) => Some(idx),
                TeamSlot::Empty => None,
            }),
    {
        match self {
            TeamSlot::Occupied(idx) => Some(*idx),
            TeamSlot::Empty => None,
        }
    }

    pub fn object_id(&self) -> (r: Option<u64>)
        requires
            *self matches TeamSlot::Occupied(idx) ==> idx.0 < u64::MAX,
        ensures
            r == (match *self {
                TeamSlot::Occupied(idx) => Some((idx.0 + 1) as u64),
                TeamSlot::Empty => None,
            }),
    {
        match self.char_index() {
            Some(idx) => Some(idx.object_id()),
            None => None,
        }
    }
}

/// Number of member slots in a team.
pub const TEAM_SLOTS_COUNT: usize = 4;

/// A named team of up to four characters and its leader.
#[derive(Debug, Clone)]
pub struct Team {
    pub name: String,
    pub char_team: [TeamSlot; 4],
    pub leader_index: CharIndex,
}

impl Default for Team {
    fn default() -> (t: Self)
        ensures
            t.name@.len() == 0,
            forall|i: int| 0 <= i < 4 ==> #[trigger] t.char_team@[i] == TeamSlot::Empty,
            t.leader_index.0 == 0,
    {
        Team {
            name: String::new(),
            char_team: [TeamSlot::Empty, TeamSlot::Empty, TeamSlot::Empty, TeamSlot::Empty],
            leader_index: CharIndex(0),
        }
    }
}

/// Bag-level settings.
#[derive(Debug, Clone)]
pub struct Meta {
    pub curr_team_index: u32,
}

impl Default for Meta {
    fn default() -> (m: Self)
        ensures
            m.curr_team_index == 0,
    {
        Meta { curr_team_index: 0 }
    }
}

/// A character's level in one skill, with that skill's cap.
#[derive(Debug, Clone)]
pub struct SkillLevelState {
    pub skill_id: String,
    pub skill_level: i32,
    pub skill_max_level: i32,
}

/// What the client is told about one team.
#[derive(Debug, Clone)]
pub struct TeamSyncState {
    pub name: String,
    pub char_ids: Vec<u64>,
    pub leader_id: u64,
    pub member_skills: HashMap<u64, String>,
}

/// A character the player owns. Its battle values travel as floats; the bag
/// holds their bit patterns and never computes with them.
#[derive(Debug)]
pub struct Char {
    pub template_id: String,
    pub level: i32,
    pub exp: i32,
    pub break_stage: u32,
    pub is_dead: bool,
    pub hp_bits: u64,
    pub ultimate_sp_bits: u32,
    pub cached_weapon_inst_id: Option<WeaponInstId>,
    pub own_time: i64,
    pub skill_levels: StrMap<u32>,
}

/// The player's characters, teams, weapons, gems and equipment.
#[derive(Debug)]
pub struct CharBag {
    pub teams: Vec<Team>,
    pub chars: Vec<Char>,
    pub meta: Meta,
    pub weapons: WeaponDepot,
    pub gems: GemDepot,
    pub equips: EquipDepot,
    pub special_items: StrMap<u32>,
    pub mission_items: StrMap<u32>,
    pub factory_items: StrMap<u32>,
}

/// The name of the team at position `k` (counting from 0): `Team 1`, `Team 2`, ...
pub open spec fn team_name(k: nat) -> Seq<char> {
    "Team "@ + decimal_chars(k + 1)
}

/// The members the first team gets: in order, each of `names` that the roster
/// holds, until the team's four slots are full.
pub open spec fn team_members(roster: Map<Seq<char>, CharIndex>, names: Seq<String>) -> Seq<CharIndex>
    decreases names.len(),
{
    if names.len() == 0 {
        Seq::empty()
    } else {
        let prev = team_members(roster, names.drop_last());
        let n = names.last()@;
        if roster.contains_key(n) && prev.len() < 4 {
            prev.push(roster[n])
        } else {
            prev
        }
    }
}

proof fn lemma_team_members_bounded(roster: Map<Seq<char>, CharIndex>, names: Seq<String>)
    ensures
        team_members(roster, names).len() <= 4,
    decreases names.len(),
{
    if names.len() > 0 {
        lemma_team_members_bounded(roster, names.drop_last());
    }
}

/// The slots of a team holding `members` in order, the rest empty.
pub open spec fn slots_hold(slots: Seq<TeamSlot>, members: Seq<CharIndex>) -> bool {
    &&& slots.len() == 4
    &&& forall|i: int|
        0 <= i < 4 ==> #[trigger] slots[i] == if i < members.len() {
            TeamSlot::Occupied(members[i])
        } else {
            TeamSlot::Empty
        }
}

fn team_named(k: u64) -> (name: String)
    requires
        k < u64::MAX,
    ensures
        name@ == team_name(k as nat),
{
    let mut name = String::from_str("Team ");
    let num = u64_to_string(k + 1);
    name.append(num.as_str());
    proof {
        reveal_strlit("Team ");
    }
    name
}

/// The teams of a new bag: the first holds, in order, up to four of
/// `default_team`'s characters that `roster` (template id to character index)
/// holds, led by the first of them (index 0 where there is none); four empty
/// teams follow, so that the client finds a team at each of the five positions.
pub fn build_default_teams(roster: &StrMap<CharIndex>, default_team: &[String]) -> (teams: Vec<Team>)
    ensures
        teams@.len() == 5,
        ({
            let members = team_members(roster.as_map(), default_team@);
            &&& teams@[0].name@ == team_name(0)
            &&& slots_hold(teams@[0].char_team@, members)
            &&& teams@[0].leader_index == if members.len() > 0 {
                members[0]
            } else {
                CharIndex(0)
            }
        }),
        forall|k: int|
            1 <= k < 5 ==> (#[trigger] teams@[k]).name@ == team_name(k as nat) && slots_hold(
                teams@[k].char_team@,
                Seq::empty(),
            ) && teams@[k].leader_index == CharIndex(0),
{
    let mut slots = [TeamSlot::Empty, TeamSlot::Empty, TeamSlot::Empty, TeamSlot::Empty];
    let mut slot: usize = 0;
    let mut leader: Option<CharIndex> = None;
    let mut i: usize = 0;
    while i < default_team.len()
        invariant
            i <= default_team@.len(),
            slot == team_members(roster.as_map(), default_team@.take(i as int)).len(),
            slot <= 4,
            slots_hold(slots@, team_members(roster.as_map(), default_team@.take(i as int))),
            leader == if slot > 0 {
                Some(team_members(roster.as_map(), default_team@.take(i as int))[0])
            } else {
                None::<CharIndex>
            },
        decreases default_team.len() - i,
    {
        let ghost before = team_members(roster.as_map(), default_team@.take(i as int));
        proof {
            let next = default_team@.take(i + 1);
            assert(next.drop_last() =~= default_team@.take(i as int));
            assert(next.last() == default_team@[i as int]);
        }
        match roster.get(default_team[i].as_str()) {
            Some(idx) => {
                if slot < 4 {
                    slots[slot] = TeamSlot::Occupied(*idx);
                    if leader.is_none() {
                        leader = Some(*idx);
                    }
                    slot = slot + 1;
                    proof {
                        let after = team_members(roster.as_map(), default_team@.take(i + 1));
                        assert(after == before.push(*idx));
                        assert forall|j: int| 0 <= j < 4 implies #[trigger] slots@[j] == if j < after.len() {
                            TeamSlot::Occupied(after[j])
                        } else {
                            TeamSlot::Empty
                        } by {}
                    }
                }
            },
            None => {},
        }
        i = i + 1;
    }
    proof {
        assert(default_team@.take(default_team@.len() as int) =~= default_team@);
    }
    let first = Team {
        name: team_named(0),
        char_team: slots,
        leader_index: match leader {
            Some(l) => l,
            None => CharIndex(0),
        },
    };
    let mut teams: Vec<Team> = Vec::new();
    teams.push(first);
    let mut k: u64 = 1;
    while k < 5
        invariant
            1 <= k <= 5,
            teams@.len() == k,
            ({
                let members = team_members(roster.as_map(), default_team@);
                &&& teams@[0].name@ == team_name(0)
                &&& slots_hold(teams@[0].char_team@, members)
                &&& teams@[0].leader_index == if members.len() > 0 {
                    members[0]
                } else {
                    CharIndex(0)
                }
            }),
            forall|j: int|
                1 <= j < k ==> (#[trigger] teams@[j]).name@ == team_name(j as nat) && slots_hold(
                    teams@[j].char_team@,
                    Seq::empty(),
                ) && teams@[j].leader_index == CharIndex(0),
        decreases 5 - k,
    {
        teams.push(
            Team {
                name: team_named(k),
                char_team: [TeamSlot::Empty, TeamSlot::Empty, TeamSlot::Empty, TeamSlot::Empty],
                leader_index: CharIndex(0),
            },
        );
        k = k + 1;
    }
    teams
}

/// The position `idx` names in a sequence of length `len`, if it is inside.
pub open spec fn char_slot(idx: CharIndex, len: nat) -> Option<int> {
    if (idx.0 as usize) < len {
        Some((idx.0 as usize) as int)
    } else {
        None
    }
}

/// Object ids of the members in `slots` whose characters are dead, in slot order.
pub open spec fn dead_members(slots: Seq<TeamSlot>, chars: Seq<Char>) -> Seq<u64>
    decreases slots.len(),
{
    if slots.len() == 0 {
        Seq::empty()
    } else {
        let prev = dead_members(slots.drop_last(), chars);
        match slots.last() {
            TeamSlot::Occupied(idx) => if chars[idx.0 as int].is_dead {
                prev.push((idx.0 + 1) as u64)
            } else {
                prev
            },
            TeamSlot::Empty => prev,
        }
    }
}

/// The object id slot `slot` contributes to a revival: the member's id when
/// it holds a dead character, nothing otherwise.
pub open spec fn dead_in_slot(slot: TeamSlot, chars: Seq<Char>) -> Seq<u64> {
    match slot {
        TeamSlot::Occupied(idx) => if chars[idx.0 as int].is_dead {
            seq![(idx.0 + 1) as u64]
        } else {
            Seq::empty()
        },
        TeamSlot::Empty => Seq::empty(),
    }
}

/// Slot `slot` holds a dead character whose object id is `x`.
pub open spec fn is_dead_member(slot: TeamSlot, chars: Seq<Char>, x: u64) -> bool {
    match slot {
        TeamSlot::Occupied(idx) => chars[idx.0 as int].is_dead && x == (idx.0 + 1) as u64,
        TeamSlot::Empty => false,
    }
}

/// The dead members of a four-slot team are those of slot 0, then slot 1,
/// then slot 2, then slot 3: a member is listed exactly when its character
/// is dead, whichever slot holds it, and every listed id is such a member.
pub proof fn lemma_dead_members_every_slot(slots: Seq<TeamSlot>, chars: Seq<Char>)
    requires
        slots.len() == 4,
    ensures
        dead_members(slots, chars) == dead_in_slot(slots[0], chars) + dead_in_slot(slots[1], chars)
            + dead_in_slot(slots[2], chars) + dead_in_slot(slots[3], chars),
        forall|k: int|
            0 <= k < 4 ==> match #[trigger] slots[k] {
                TeamSlot::Occupied(idx) => chars[idx.0 as int].is_dead ==> dead_members(slots, chars).contains(
                    (idx.0 + 1) as u64,
                ),
                TeamSlot::Empty => true,
            },
        forall|x: u64|
            #[trigger] dead_members(slots, chars).contains(x) ==> exists|k: int|
                0 <= k < 4 && is_dead_member(#[trigger] slots[k], chars, x),
{
    let s0 = dead_in_slot(slots[0], chars);
    let s1 = dead_in_slot(slots[1], chars);
    let s2 = dead_in_slot(slots[2], chars);
    let s3 = dead_in_slot(slots[3], chars);
    assert(slots.take(1).drop_last() =~= slots.take(0));
    assert(slots.take(2).drop_last() =~= slots.take(1));
    assert(slots.take(3).drop_last() =~= slots.take(2));
    assert(slots.take(4).drop_last() =~= slots.take(3));
    assert(slots.take(4) =~= slots);
    assert(dead_members(slots.take(0), chars) =~= Seq::<u64>::empty());
    assert(dead_members(slots.take(1), chars) =~= s0);
    assert(dead_members(slots.take(2), chars) =~= s0 + s1);
    assert(dead_members(slots.take(3), chars) =~= s0 + s1 + s2);
    assert(dead_members(slots, chars) =~= s0 + s1 + s2 + s3);
    let all = s0 + s1 + s2 + s3;
    assert forall|k: int| 0 <= k < 4 implies match #[trigger] slots[k] {
        TeamSlot::Occupied(idx) => chars[idx.0 as int].is_dead ==> all.contains((idx.0 + 1) as u64),
        TeamSlot::Empty => true,
    } by {
        if let TeamSlot::Occupied(idx) = slots[k] {
            if chars[idx.0 as int].is_dead {
                let x = (idx.0 + 1) as u64;
                if k == 0 {
                    assert(all[0] == x);
                } else if k == 1 {
                    assert(all[s0.len() as int] == x);
                } else if k == 2 {
                    assert(all[(s0.len() + s1.len()) as int] == x);
                } else {
                    assert(all[(s0.len() + s1.len() + s2.len()) as int] == x);
                }
            }
        }
    }
    assert forall|x: u64| #[trigger] all.contains(x) implies exists|k: int|
        0 <= k < 4 && is_dead_member(#[trigger] slots[k], chars, x) by {
        let i = choose|i: int| 0 <= i < all.len() && all[i] == x;
        if i < s0.len() {
            assert(is_dead_member(slots[0], chars, x));
        } else if i < s0.len() + s1.len() {
            assert(is_dead_member(slots[1], chars, x));
        } else if i < s0.len() + s1.len() + s2.len() {
            assert(is_dead_member(slots[2], chars, x));
        } else {
            assert(is_dead_member(slots[3], chars, x));
        }
    }
}

/// Object ids of the occupied slots of `slots`, in slot order.
pub open spec fn slot_ids(slots: Seq<TeamSlot>) -> Seq<u64>
    decreases slots.len(),
{
    if slots.len() == 0 {
        Seq::empty()
    } else {
        let prev = slot_ids(slots.drop_last());
        match slots.last() {
            TeamSlot::Occupied(idx) => prev.push((idx.0 + 1) as u64),
            TeamSlot::Empty => prev,
        }
    }
}

/// The normal skill `normal_skills` names for template `t` (empty when none).
pub open spec fn normal_skill_of(normal_skills: Map<Seq<char>, String>, t: Seq<char>) -> Seq<char> {
    if normal_skills.contains_key(t) {
        normal_skills[t]@
    } else {
        Seq::empty()
    }
}

/// A character's liveness and battle values (as bit patterns), by object id.
#[derive(Debug, Clone, Copy, PartialEq, Eq, Structural)]
pub struct CharSyncStatus {
    pub objid: u64,
    pub is_dead: bool,
    pub hp_bits: u64,
    pub ultimate_sp_bits: u32,
}

/// Whether `c` is the blank character that fills a gap in a restored bag:
/// empty template, every number 0, alive, no cached weapon, no skills.
pub open spec fn is_placeholder(c: Char) -> bool {
    &&& is_bare_char(c)
    &&& c.skill_levels.as_map() == Map::<Seq<char>, u32>::empty()
}

/// Whether `c` is blank in everything but its skill levels.
pub open spec fn is_bare_char(c: Char) -> bool {
    &&& c.template_id@.len() == 0
    &&& c.level == 0
    &&& c.exp == 0
    &&& c.break_stage == 0
    &&& !c.is_dead
    &&& c.hp_bits == 0
    &&& c.ultimate_sp_bits == 0
    &&& c.cached_weapon_inst_id is None
    &&& c.own_time == 0
}

/// A value that fills the gaps when stored rows are put back at their
/// indexes.
pub trait Blank: Sized {
    spec fn is_blank(&self) -> bool;

    fn blank() -> (b: Self)
        ensures
            b.is_blank(),
    ;
}

impl Blank for Char {
    open spec fn is_blank(&self) -> bool {
        is_placeholder(*self)
    }

    fn blank() -> (c: Char) {
        let skills: StrMap<u32> = StrMap::new();
        proof {
            assert(skills.as_map() =~= Map::<Seq<char>, u32>::empty());
        }
        Char {
            template_id: String::new(),
            level: 0,
            exp: 0,
            break_stage: 0,
            is_dead: false,
            hp_bits: 0,
            ultimate_sp_bits: 0,
            cached_weapon_inst_id: None,
            own_time: 0,
            skill_levels: skills,
        }
    }
}

/// Whether `t` is the blank team that fills a gap in a restored bag: no
/// name, every slot empty, led by index 0.
pub open spec fn is_blank_team(t: Team) -> bool {
    &&& t.name@.len() == 0
    &&& forall|s: int| 0 <= s < 4 ==> #[trigger] t.char_team@[s] == TeamSlot::Empty
    &&& t.leader_index.0 == 0
}

impl Blank for Team {
    open spec fn is_blank(&self) -> bool {
        is_blank_team(*self)
    }

    fn blank() -> (t: Team) {
        Team {
            name: String::new(),
            char_team: [TeamSlot::Empty, TeamSlot::Empty, TeamSlot::Empty, TeamSlot::Empty],
            leader_index: CharIndex(0),
        }
    }
}

/// Number of places restored rows need: one past the largest stored index
/// (0 when nothing is stored).
pub open spec fn slots_needed<T>(rows: Seq<(u64, T)>) -> nat
    decreases rows.len(),
{
    if rows.len() == 0 {
        0
    } else {
        let prev = slots_needed(rows.drop_last());
        let here = (rows.last().0 + 1) as nat;
        if here > prev {
            here
        } else {
            prev
        }
    }
}

/// Whether row `k` is the last row stored at its index.
pub open spec fn is_last_row<T>(rows: Seq<(u64, T)>, k: int) -> bool {
    &&& 0 <= k < rows.len()
    &&& forall|j: int| k < j < rows.len() ==> #[trigger] rows[j].0 != rows[k].0
}

/// Whether no row is stored at index `i`.
pub open spec fn is_gap<T>(rows: Seq<(u64, T)>, i: int) -> bool {
    forall|k: int| 0 <= k < rows.len() ==> #[trigger] rows[k].0 != i
}

proof fn lemma_slots_needed<T>(rows: Seq<(u64, T)>)
    ensures
        forall|k: int| 0 <= k < rows.len() ==> (#[trigger] rows[k]).0 < slots_needed(rows),
    decreases rows.len(),
{
    if rows.len() > 0 {
        let p = rows.drop_last();
        lemma_slots_needed(p);
        assert forall|k: int| 0 <= k < rows.len() implies (#[trigger] rows[k]).0 < slots_needed(rows) by {
            if k < p.len() {
                assert(rows[k] == p[k]);
            }
        }
    }
}

/// Values restored from `(index, value)` rows: each stored value at its
/// stored index (the last row wins where two share one), blanks in the gaps,
/// one past the largest index in all.
fn place_rows<T: Blank>(rows: Vec<(u64, T)>) -> (placed: Vec<T>)
    requires
        forall|k: int| 0 <= k < rows@.len() ==> (#[trigger] rows@[k]).0 < usize::MAX,
    ensures
        placed@.len() == slots_needed(rows@),
        forall|k: int| #[trigger] is_last_row(rows@, k) ==> placed@[rows@[k].0 as int] == rows@[k].1,
        forall|i: int| 0 <= i < placed@.len() && is_gap(rows@, i) ==> (#[trigger] placed@[i]).is_blank(),
{
    let ghost all = rows@;
    proof {
        lemma_slots_needed(all);
    }
    let mut n: usize = 0;
    let mut i: usize = 0;
    while i < rows.len()
        invariant
            i <= rows@.len(),
            all == rows@,
            forall|k: int| 0 <= k < rows@.len() ==> (#[trigger] rows@[k]).0 < usize::MAX,
            n == slots_needed(rows@.take(i as int)),
        decreases rows.len() - i,
    {
        proof {
            assert(rows@.take(i + 1).drop_last() =~= rows@.take(i as int));
        }
        let here = (rows[i].0 + 1) as usize;
        if here > n {
            n = here;
        }
        i = i + 1;
    }
    assert(rows@.take(rows@.len() as int) =~= rows@);
    let mut placed: Vec<T> = Vec::new();
    let mut filled: Vec<bool> = Vec::new();
    while placed.len() < n
        invariant
            placed@.len() == filled@.len(),
            placed@.len() <= n,
            forall|j: int| 0 <= j < placed@.len() ==> (#[trigger] placed@[j]).is_blank() && !filled@[j],
        decreases n - placed.len(),
    {
        placed.push(T::blank());
        filled.push(false);
    }
    proof {
        assert forall|j: int| 0 <= j < n implies !filled@[j] by {
            assert(placed@[j].is_blank());
        }
    }
    let mut rest = rows;
    while rest.len() > 0
        invariant
            rest@.len() <= all.len(),
            rest@ == all.take(rest@.len() as int),
            n == slots_needed(all),
            placed@.len() == n,
            filled@.len() == n,
            forall|k: int| 0 <= k < all.len() ==> (#[trigger] all[k]).0 < n,
            forall|j: int|
                0 <= j < n ==> (#[trigger] filled@[j] <==> exists|k: int|
                    rest@.len() <= k < all.len() && #[trigger] all[k].0 == j),
            forall|j: int| 0 <= j < n && !filled@[j] ==> (#[trigger] placed@[j]).is_blank(),
            forall|k: int|
                rest@.len() <= k < all.len() && #[trigger] is_last_row(all, k) ==> placed@[all[k].0 as int]
                    == all[k].1,
        decreases rest@.len(),
    {
        let ghost m = rest@.len() as int;
        let row = rest.pop().unwrap();
        assert(all.take(m)[m - 1] == all[m - 1]);
        assert(row == all[m - 1]);
        let (idx, v) = row;
        let x = idx as usize;
        if !filled[x] {
            proof {
                assert forall|j: int| m - 1 < j < all.len() implies #[trigger] all[j].0 != all[m - 1].0 by {
                    if all[j].0 == all[m - 1].0 {
                        assert(filled@[x as int]);
                    }
                }
                assert(is_last_row(all, m - 1));
            }
            placed.set(x, v);
            filled.set(x, true);
            proof {
                assert forall|k: int|
                    m - 1 <= k < all.len() && #[trigger] is_last_row(all, k) implies placed@[all[k].0 as int]
                        == all[k].1 by {
                    if k > m - 1 {
                        if all[k].0 == x {
                            assert(filled@[x as int]);
                        }
                    }
                }
                assert forall|j: int|
                    0 <= j < n implies (#[trigger] filled@[j] <==> exists|k: int|
                        m - 1 <= k < all.len() && #[trigger] all[k].0 == j) by {
                    if j == x {
                        assert(all[m - 1].0 == j);
                    }
                }
            }
        } else {
            proof {
                let w = choose|k: int| m <= k < all.len() && #[trigger] all[k].0 == x;
                assert(!is_last_row(all, m - 1)) by {
                    assert(all[w].0 == all[m - 1].0);
                }
                assert forall|j: int|
                    0 <= j < n implies (#[trigger] filled@[j] <==> exists|k: int|
                        m - 1 <= k < all.len() && #[trigger] all[k].0 == j) by {
                    if j == x {
                        assert(all[w].0 == j);
                    }
                    if exists|k: int| m - 1 <= k < all.len() && #[trigger] all[k].0 == j {
                        let k = choose|k: int| m - 1 <= k < all.len() && #[trigger] all[k].0 == j;
                        if k == m - 1 {
                            assert(all[w].0 == j);
                        }
                    }
                }
            }
        }
        proof {
            assert(rest@ =~= all.take(rest@.len() as int));
        }
    }
    proof {
        assert forall|j: int| 0 <= j < placed@.len() && is_gap(all, j) implies (#[trigger] placed@[j]).is_blank() by {
            if filled@[j] {
                let k = choose|k: int| 0 <= k < all.len() && #[trigger] all[k].0 == j;
            }
        }
    }
    placed
}

/// A stored skill level of the character at `char_index`.
#[derive(Debug, Clone)]
pub struct SkillRecord {
    pub char_index: u64,
    pub skill_id: String,
    pub skill_level: u32,
}

/// A stored member slot: slot `slot_index` of the team at `team_index`
/// holds the character at `char_index`, or nobody.
#[derive(Debug, Clone, Copy)]
pub struct SlotRecord {
    pub team_index: u64,
    pub slot_index: u64,
    pub char_index: Option<u64>,
}

/// A stored count of a stackable item in the depot of code `depot_type`.
#[derive(Debug, Clone)]
pub struct StackRecord {
    pub depot_type: i64,
    pub template_id: String,
    pub count: u32,
}

/// Everything a saved bag is restored from.
#[derive(Debug)]
pub struct BagRecords {
    pub chars: Vec<(u64, Char)>,
    pub skills: Vec<SkillRecord>,
    pub teams: Vec<(u64, Team)>,
    pub slots: Vec<SlotRecord>,
    pub meta: Meta,
    pub weapons: Vec<WeaponInstance>,
    pub gems: Vec<GemInstance>,
    pub equips: Vec<EquipInstance>,
    pub stacks: Vec<StackRecord>,
}

/// The skill levels of the character at `idx` after `rows`, starting from
/// `base`: each row naming it stores its level under its skill, later rows
/// replacing earlier ones.
pub open spec fn skills_after(rows: Seq<SkillRecord>, idx: int, base: Map<Seq<char>, u32>) -> Map<Seq<char>, u32>
    decreases rows.len(),
{
    if rows.len() == 0 {
        base
    } else {
        let prev = skills_after(rows.drop_last(), idx, base);
        if rows.last().char_index == idx {
            prev.insert(rows.last().skill_id@, rows.last().skill_level)
        } else {
            prev
        }
    }
}

/// Whether two characters agree in everything but their skill levels.
pub open spec fn same_but_skills(a: Char, b: Char) -> bool {
    a == Char { skill_levels: a.skill_levels, ..b }
}

/// Slot `s` of the team at `t` after `rows`, starting from `base`: the last
/// row naming that slot decides it.
pub open spec fn slot_after(rows: Seq<SlotRecord>, t: int, s: int, base: TeamSlot) -> TeamSlot
    decreases rows.len(),
{
    if rows.len() == 0 {
        base
    } else {
        let r = rows.last();
        if r.team_index == t && r.slot_index == s {
            match r.char_index {
                Some(c) => TeamSlot::Occupied(CharIndex(c)),
                None => TeamSlot::Empty,
            }
        } else {
            slot_after(rows.drop_last(), t, s, base)
        }
    }
}

/// The counts of the depot of code `code` after `rows`, starting from
/// `base`: each row of that depot stores its count under its item, later
/// rows replacing earlier ones.
pub open spec fn stacks_after(rows: Seq<StackRecord>, code: int, base: Map<Seq<char>, u32>) -> Map<Seq<char>, u32>
    decreases rows.len(),
{
    if rows.len() == 0 {
        base
    } else {
        let prev = stacks_after(rows.drop_last(), code, base);
        if rows.last().depot_type == code {
            prev.insert(rows.last().template_id@, rows.last().count)
        } else {
            prev
        }
    }
}

/// Whether a stored stackable row names one of the three stackable depots.
pub open spec fn is_stack_depot(code: i64) -> bool {
    code == ItemDepotType::SpecialItem.spec_as_u32() || code == ItemDepotType::MissionItem.spec_as_u32() || code
        == ItemDepotType::Factory.spec_as_u32()
}

/// Merges the stored skill levels into the characters they name; rows
/// naming no character are passed over.
fn apply_skill_records(chars: &mut Vec<Char>, rows: Vec<SkillRecord>)
    ensures
        final(chars)@.len() == old(chars)@.len(),
        forall|i: int|
            0 <= i < old(chars)@.len() ==> same_but_skills(#[trigger] final(chars)@[i], old(chars)@[i])
                && final(chars)@[i].skill_levels.as_map() == skills_after(
                rows@,
                i,
                old(chars)@[i].skill_levels.as_map(),
            ),
{
    let ghost start = chars@;
    let mut j: usize = 0;
    while j < rows.len()
        invariant
            j <= rows@.len(),
            chars@.len() == start.len(),
            forall|i: int|
                0 <= i < start.len() ==> same_but_skills(#[trigger] chars@[i], start[i])
                    && chars@[i].skill_levels.as_map() == skills_after(
                    rows@.take(j as int),
                    i,
                    start[i].skill_levels.as_map(),
                ),
        decreases rows.len() - j,
    {
        proof {
            assert(rows@.take(j + 1).drop_last() =~= rows@.take(j as int));
        }
        let r = &rows[j];
        let ghost before = chars@;
        if r.char_index < chars.len() as u64 {
            let x = r.char_index as usize;
            let mut c = chars.remove(x);
            let ghost old_map = c.skill_levels.as_map();
            c.skill_levels.insert(r.skill_id.clone(), r.skill_level);
            proof {
                assert(c.skill_levels.as_map() =~= old_map.insert(r.skill_id@, r.skill_level));
            }
            chars.insert(x, c);
            proof {
                assert forall|i: int| 0 <= i < start.len() implies same_but_skills(#[trigger] chars@[i], start[i])
                    && chars@[i].skill_levels.as_map() == skills_after(
                    rows@.take(j + 1),
                    i,
                    start[i].skill_levels.as_map(),
                ) by {
                    if i != x {
                        assert(chars@[i] == before[i]);
                    }
                }
            }
        }
        j = j + 1;
    }
    assert(rows@.take(rows@.len() as int) =~= rows@);
}

/// Writes the stored member slots into the teams they name; rows naming no
/// team or no slot are passed over.
fn apply_slot_records(teams: &mut Vec<Team>, rows: Vec<SlotRecord>)
    ensures
        final(teams)@.len() == old(teams)@.len(),
        forall|i: int|
            0 <= i < old(teams)@.len() ==> {
                &&& (#[trigger] final(teams)@[i]).name == old(teams)@[i].name
                &&& final(teams)@[i].leader_index == old(teams)@[i].leader_index
                &&& forall|s: int|
                    0 <= s < 4 ==> #[trigger] final(teams)@[i].char_team@[s] == slot_after(
                        rows@,
                        i,
                        s,
                        old(teams)@[i].char_team@[s],
                    )
            },
{
    let ghost start = teams@;
    let mut j: usize = 0;
    while j < rows.len()
        invariant
            j <= rows@.len(),
            teams@.len() == start.len(),
            forall|i: int|
                0 <= i < start.len() ==> {
                    &&& (#[trigger] teams@[i]).name == start[i].name
                    &&& teams@[i].leader_index == start[i].leader_index
                    &&& forall|s: int|
                        0 <= s < 4 ==> #[trigger] teams@[i].char_team@[s] == slot_after(
                            rows@.take(j as int),
                            i,
                            s,
                            start[i].char_team@[s],
                        )
                },
        decreases rows.len() - j,
    {
        proof {
            assert(rows@.take(j + 1).drop_last() =~= rows@.take(j as int));
            assert(rows@.take(j + 1).last() == rows@[j as int]);
        }
        let r = rows[j];
        let ghost before = teams@;
        if r.team_index < teams.len() as u64 && r.slot_index < 4 {
            let x = r.team_index as usize;
            let s = r.slot_index as usize;
            let mut t = teams.remove(x);
            t.char_team[s] = match r.char_index {
                Some(c) => TeamSlot::Occupied(CharIndex(c)),
                None => TeamSlot::Empty,
            };
            teams.insert(x, t);
            proof {
                assert forall|i: int| 0 <= i < start.len() implies {
                    &&& (#[trigger] teams@[i]).name == start[i].name
                    &&& teams@[i].leader_index == start[i].leader_index
                    &&& forall|s2: int|
                        0 <= s2 < 4 ==> #[trigger] teams@[i].char_team@[s2] == slot_after(
                            rows@.take(j + 1),
                            i,
                            s2,
                            start[i].char_team@[s2],
                        )
                } by {
                    if i != x {
                        assert(teams@[i] == before[i]);
                    }
                }
            }
        }
        j = j + 1;
    }
    assert(rows@.take(rows@.len() as int) =~= rows@);
}

/// The three stackable depots restored from stored rows, or the code of the
/// first row that names no stackable depot.
fn place_stack_records(rows: Vec<StackRecord>) -> (r: Result<(StrMap<u32>, StrMap<u32>, StrMap<u32>), i64>)
    ensures
        r is Ok == forall|k: int| 0 <= k < rows@.len() ==> is_stack_depot(#[trigger] rows@[k].depot_type),
        r matches Ok((special, mission, factory)) ==> {
            &&& special.as_map() == stacks_after(rows@, ItemDepotType::SpecialItem.spec_as_u32() as int, Map::empty())
            &&& mission.as_map() == stacks_after(rows@, ItemDepotType::MissionItem.spec_as_u32() as int, Map::empty())
            &&& factory.as_map() == stacks_after(rows@, ItemDepotType::Factory.spec_as_u32() as int, Map::empty())
        },
{
    let special_code = ItemDepotType::SpecialItem.as_u32() as i64;
    let mission_code = ItemDepotType::MissionItem.as_u32() as i64;
    let factory_code = ItemDepotType::Factory.as_u32() as i64;
    let mut special: StrMap<u32> = StrMap::new();
    let mut mission: StrMap<u32> = StrMap::new();
    let mut factory: StrMap<u32> = StrMap::new();
    proof {
        assert(special.as_map() =~= Map::<Seq<char>, u32>::empty());
        assert(mission.as_map() =~= Map::<Seq<char>, u32>::empty());
        assert(factory.as_map() =~= Map::<Seq<char>, u32>::empty());
    }
    let mut j: usize = 0;
    while j < rows.len()
        invariant
            j <= rows@.len(),
            special_code == ItemDepotType::SpecialItem.spec_as_u32(),
            mission_code == ItemDepotType::MissionItem.spec_as_u32(),
            factory_code == ItemDepotType::Factory.spec_as_u32(),
            forall|k: int| 0 <= k < j ==> is_stack_depot(#[trigger] rows@[k].depot_type),
            special.as_map() == stacks_after(rows@.take(j as int), special_code as int, Map::empty()),
            mission.as_map() == stacks_after(rows@.take(j as int), mission_code as int, Map::empty()),
            factory.as_map() == stacks_after(rows@.take(j as int), factory_code as int, Map::empty()),
        decreases rows.len() - j,
    {
        proof {
            assert(rows@.take(j + 1).drop_last() =~= rows@.take(j as int));
            assert(rows@.take(j + 1).last() == rows@[j as int]);
        }
        let r = &rows[j];
        if r.depot_type == special_code {
            let ghost m = special.as_map();
            special.insert(r.template_id.clone(), r.count);
            assert(special.as_map() =~= m.insert(r.template_id@, r.count));
        } else if r.depot_type == mission_code {
            let ghost m = mission.as_map();
            mission.insert(r.template_id.clone(), r.count);
            assert(mission.as_map() =~= m.insert(r.template_id@, r.count));
        } else if r.depot_type == factory_code {
            let ghost m = factory.as_map();
            factory.insert(r.template_id.clone(), r.count);
            assert(factory.as_map() =~= m.insert(r.template_id@, r.count));
        } else {
            return Err(r.depot_type);
        }
        j = j + 1;
    }
    assert(rows@.take(rows@.len() as int) =~= rows@);
    Ok((special, mission, factory))
}

/// The bag a saved player is restored to from plain records:
/// - each stored character at its stored index (the last record wins where
///   two share one), blanks in the gaps, with the stored skill levels merged
///   into the character each names;
/// - each stored team at its stored index in the same way, blank teams in the
///   gaps, with the stored member slots written into the slot each names;
/// - the settings as stored, and each instance depot holding its rows (the
///   last row with an id giving its instance; counters start at 1 until the
///   saved ones are restored);
/// - the three stackable depots holding the stored counts.
///
/// A stackable row whose depot code names none of those three depots makes
/// the whole restore fail.
pub fn char_bag_from_records(records: BagRecords) -> (r: Result<CharBag, LogicError>)
    requires
        forall|k: int| 0 <= k < records.chars@.len() ==> (#[trigger] records.chars@[k]).0 < usize::MAX,
        forall|k: int| 0 <= k < records.teams@.len() ==> (#[trigger] records.teams@[k]).0 < usize::MAX,
    ensures
        r is Ok == forall|k: int| 0 <= k < records.stacks@.len() ==> is_stack_depot(#[trigger] records.stacks@[k].depot_type),
        r matches Ok(b) ==> {
            let cs = records.chars@;
            let ts = records.teams@;
            &&& b.chars@.len() == slots_needed(cs)
            &&& forall|k: int| #[trigger] is_last_row(cs, k) ==> {
                let c = b.chars@[cs[k].0 as int];
                &&& same_but_skills(c, cs[k].1)
                &&& c.skill_levels.as_map() == skills_after(records.skills@, cs[k].0 as int, cs[k].1.skill_levels.as_map())
            }
            &&& forall|i: int| 0 <= i < b.chars@.len() && is_gap(cs, i) ==> {
                let c = #[trigger] b.chars@[i];
                &&& is_bare_char(c)
                &&& c.skill_levels.as_map() == skills_after(records.skills@, i, Map::empty())
            }
            &&& b.teams@.len() == slots_needed(ts)
            &&& forall|k: int| #[trigger] is_last_row(ts, k) ==> {
                let t = b.teams@[ts[k].0 as int];
                &&& t.name == ts[k].1.name
                &&& t.leader_index == ts[k].1.leader_index
                &&& forall|s: int| 0 <= s < 4 ==> #[trigger] t.char_team@[s] == slot_after(records.slots@, ts[k].0 as int, s, ts[k].1.char_team@[s])
            }
            &&& forall|i: int| 0 <= i < b.teams@.len() && is_gap(ts, i) ==> {
                let t = #[trigger] b.teams@[i];
                &&& t.name@.len() == 0
                &&& t.leader_index.0 == 0
                &&& forall|s: int| 0 <= s < 4 ==> #[trigger] t.char_team@[s] == slot_after(records.slots@, i, s, TeamSlot::Empty)
            }
            &&& b.meta == records.meta
            &&& b.weapons.items_view() == weapon_loaded(records.weapons@)
            &&& b.gems.items_view() == gem_loaded(records.gems@)
            &&& b.equips.items_view() == equip_loaded(records.equips@)
            &&& b.special_items.as_map() == stacks_after(records.stacks@, ItemDepotType::SpecialItem.spec_as_u32() as int, Map::empty())
            &&& b.mission_items.as_map() == stacks_after(records.stacks@, ItemDepotType::MissionItem.spec_as_u32() as int, Map::empty())
            &&& b.factory_items.as_map() == stacks_after(records.stacks@, ItemDepotType::Factory.spec_as_u32() as int, Map::empty())
        },
{
    let BagRecords { chars, skills, teams, slots, meta, weapons, gems, equips, stacks } = records;
    let (special_items, mission_items, factory_items) = match place_stack_records(stacks) {
        Ok(depots) => depots,
        Err(_) => {
            return Err(LogicError::InvalidOperation(String::from_str("unexpected stackable depot type")));
        },
    };
    let ghost cs = chars@;
    let ghost ts = teams@;
    let ghost sk = skills@;
    let ghost sl = slots@;
    proof {
        lemma_slots_needed(cs);
        lemma_slots_needed(ts);
    }
    let mut placed_chars = place_rows(chars);
    let ghost bare_chars = placed_chars@;
    apply_skill_records(&mut placed_chars, skills);
    let mut placed_teams = place_rows(teams);
    let ghost bare_teams = placed_teams@;
    apply_slot_records(&mut placed_teams, slots);
    proof {
        assert forall|k: int| #[trigger] is_last_row(cs, k) implies {
            let c = placed_chars@[cs[k].0 as int];
            &&& same_but_skills(c, cs[k].1)
            &&& c.skill_levels.as_map() == skills_after(sk, cs[k].0 as int, cs[k].1.skill_levels.as_map())
        } by {
            assert(bare_chars[cs[k].0 as int] == cs[k].1);
        }
        assert forall|i: int| 0 <= i < placed_chars@.len() && is_gap(cs, i) implies {
            let c = #[trigger] placed_chars@[i];
            &&& is_bare_char(c)
            &&& c.skill_levels.as_map() == skills_after(sk, i, Map::empty())
        } by {
            assert(bare_chars[i].is_blank());
        }
        assert forall|k: int| #[trigger] is_last_row(ts, k) implies {
            let t = placed_teams@[ts[k].0 as int];
            &&& t.name == ts[k].1.name
            &&& t.leader_index == ts[k].1.leader_index
            &&& forall|s: int| 0 <= s < 4 ==> #[trigger] t.char_team@[s] == slot_after(sl, ts[k].0 as int, s, ts[k].1.char_team@[s])
        } by {
            assert(bare_teams[ts[k].0 as int] == ts[k].1);
        }
        assert forall|i: int| 0 <= i < placed_teams@.len() && is_gap(ts, i) implies {
            let t = #[trigger] placed_teams@[i];
            &&& t.name@.len() == 0
            &&& t.leader_index.0 == 0
            &&& forall|s: int| 0 <= s < 4 ==> #[trigger] t.char_team@[s] == slot_after(sl, i, s, TeamSlot::Empty)
        } by {
            assert(bare_teams[i].is_blank());
        }
    }
    Ok(CharBag {
        teams: placed_teams,
        chars: placed_chars,
        meta,
        weapons: WeaponDepot::from_loaded(weapons),
        gems: GemDepot::from_loaded(gems),
        equips: EquipDepot::from_loaded(equips),
        special_items,
        mission_items,
        factory_items,
    })
}

/// A character with its cached weapon dropped unless `weapons` holds that
/// weapon and it is equipped by object `objid`.
pub open spec fn cache_checked(c: Char, weapons: Seq<WeaponInstance>, objid: u64) -> Char {
    match c.cached_weapon_inst_id {
        Some(w) => if weapon_position(weapons, w.0) is Some && weapons[weapon_position(weapons, w.0).unwrap()].equip_char_id
            == objid {
            c
        } else {
            Char { cached_weapon_inst_id: None, ..c }
        },
        None => c,
    }
}

/// A character's level-1 values, as the character table gives them (health
/// as its bit pattern).
#[derive(Debug, Clone, Copy)]
pub struct LevelOneStats {
    pub level: i32,
    pub break_stage: u32,
    pub hp_bits: u64,
}

/// A character template of the game tables, as a new bag reads it: its
/// weapon type, its skill bundles, and its level-1 values where the table
/// has them.
#[derive(Debug)]
pub struct CharacterTemplate {
    pub template_id: String,
    pub weapon_type: u32,
    pub skills: Vec<SkillBundle>,
    pub level_one: Option<LevelOneStats>,
}

/// Whether a template becomes a character of a new bag: it has skills and
/// level-1 values (the others are placeholders of the tables).
pub open spec fn joins_new_bag(t: CharacterTemplate) -> bool {
    t.skills@.len() > 0 && t.level_one is Some
}

/// The templates that become characters of a new bag, in table order.
pub open spec fn new_bag_members(ts: Seq<CharacterTemplate>) -> Seq<CharacterTemplate> {
    ts.filter(|t: CharacterTemplate| joins_new_bag(t))
}

/// Template id to character index over `members` (the last of a template wins).
pub open spec fn roster_of(members: Seq<CharacterTemplate>) -> Map<Seq<char>, CharIndex>
    decreases members.len(),
{
    if members.len() == 0 {
        Map::empty()
    } else {
        roster_of(members.drop_last()).insert(members.last().template_id@, CharIndex((members.len() - 1) as u64))
    }
}

/// The skill level a new character starts with in `k`: 1 for the first skill
/// of each of its bundles.
pub open spec fn initial_level(bundles: Seq<SkillBundle>, k: Seq<char>) -> Option<u32> {
    if exists|i: int| 0 <= i < bundles.len() && bundles[i].entries@.len() > 0 && bundles[i].entries@[0].skill_id@ == k {
        Some(1u32)
    } else {
        None
    }
}

/// Whether `w` is the weapon a new character of weapon type `t` is given:
/// the rarest weapon of that type (the last in table order among equally rare
/// ones), or the table's `wpn_0002` when the type has none.
pub open spec fn is_default_weapon(ws: WeaponAssets, t: u32, w: Weapon) -> bool {
    let f = ws.weapons().filter(|x: Weapon| x.weapon_type == t);
    if f.len() > 0 {
        exists|k: int|
            0 <= k < f.len() && f[k] == w && (forall|j: int| 0 <= j < f.len() ==> (#[trigger] f[j]).rarity <= w.rarity)
                && (forall|j: int| k < j < f.len() ==> (#[trigger] f[j]).rarity < w.rarity)
    } else {
        ws.spec_get("wpn_0002"@) == Some(w)
    }
}

/// Whether a weapon can be found for every character a new bag would hold.
pub open spec fn default_weapons_exist(ts: Seq<CharacterTemplate>, ws: WeaponAssets) -> bool {
    forall|i: int|
        0 <= i < ts.len() && joins_new_bag(#[trigger] ts[i]) ==> ws.weapons().filter(
            |x: Weapon| x.weapon_type == ts[i].weapon_type,
        ).len() > 0 || ws.spec_get("wpn_0002"@) is Some
}

fn default_weapon_id(weapons: &WeaponAssets, weapon_type: u32) -> (id: String)
    requires
        weapons.weapons().filter(|x: Weapon| x.weapon_type == weapon_type).len() > 0 || weapons.spec_get(
            "wpn_0002"@,
        ) is Some,
    ensures
        exists|w: Weapon| is_default_weapon(*weapons, weapon_type, w) && id@ == w.weapon_id@,
{
    match weapons.get_best_for_char(weapon_type) {
        Some(w) => {
            let id = w.weapon_id.clone();
            assert(is_default_weapon(*weapons, weapon_type, *w));
            id
        },
        None => {
            let fallback = weapons.get("wpn_0002");
            match fallback {
                Some(w) => {
                    let id = w.weapon_id.clone();
                    assert(is_default_weapon(*weapons, weapon_type, *w));
                    id
                },
                None => {
                    assert(false);
                    String::new()
                },
            }
        },
    }
}

proof fn lemma_members_step(ts: Seq<CharacterTemplate>, i: int)
    requires
        0 <= i < ts.len(),
    ensures
        new_bag_members(ts.take(i + 1)) == if joins_new_bag(ts[i]) {
            new_bag_members(ts.take(i)).push(ts[i])
        } else {
            new_bag_members(ts.take(i))
        },
{
    assert(ts.take(i + 1).drop_last() =~= ts.take(i));
    reveal_with_fuel(Seq::filter, 1);
}

/// The bag of a new player: every template with skills and level-1 values
/// becomes a character, in table order, at level-1 values with each bundle's
/// first skill at level 1, alive, with no exp, no ultimate charge and the
/// given ownership time; each is given a new weapon of its weapon type (see
/// [`is_default_weapon`]), equipped, with instance ids 1, 2, ... in bag
/// order; the first team holds the characters `default_team` names and four
/// empty teams follow; the current team is the first.
pub fn new_bag(
    templates: &[CharacterTemplate],
    weapons: &WeaponAssets,
    default_team: &[String],
    own_time: i64,
) -> (r: Result<CharBag, LogicError>)
    requires
        default_weapons_exist(templates@, *weapons),
        templates@.len() < usize::MAX,
    ensures
        r matches Ok(b) && {
            let members = new_bag_members(templates@);
            &&& b.chars@.len() == members.len()
            &&& forall|i: int|
                0 <= i < members.len() ==> {
                    let c = #[trigger] b.chars@[i];
                    let t = members[i];
                    &&& c.template_id@ == t.template_id@
                    &&& c.level == t.level_one.unwrap().level
                    &&& c.break_stage == t.level_one.unwrap().break_stage
                    &&& c.hp_bits == t.level_one.unwrap().hp_bits
                    &&& c.exp == 0
                    &&& !c.is_dead
                    &&& c.ultimate_sp_bits == 0
                    &&& c.cached_weapon_inst_id is None
                    &&& c.own_time == own_time
                    &&& forall|k: Seq<char>| #[trigger] c.skill_levels.spec_get(k) == initial_level(t.skills@, k)
                }
            &&& b.weapons.items_view().len() == members.len()
            &&& b.weapons.spec_next_inst_id() == members.len() + 1
            &&& forall|i: int|
                0 <= i < members.len() ==> {
                    let w = #[trigger] b.weapons.items_view()[i];
                    &&& w.inst_id.0 == i + 1
                    &&& w.equip_char_id == i + 1
                    &&& exists|d: Weapon| is_default_weapon(*weapons, members[i].weapon_type, d) && w.template_id@ == d.weapon_id@
                    &&& w.own_time == own_time
                    &&& !w.is_lock
                    &&& w.is_new
                    &&& w.breakthrough_lv == 0
                }
            &&& b.gems.items_view().len() == 0
            &&& b.equips.items_view().len() == 0
            &&& b.meta.curr_team_index == 0
            &&& b.teams@.len() == 5
            &&& ({
                let team = team_members(roster_of(members), default_team@);
                &&& b.teams@[0].name@ == team_name(0)
                &&& slots_hold(b.teams@[0].char_team@, team)
                &&& b.teams@[0].leader_index == if team.len() > 0 {
                    team[0]
                } else {
                    CharIndex(0)
                }
            })
            &&& forall|k: int|
                1 <= k < 5 ==> (#[trigger] b.teams@[k]).name@ == team_name(k as nat) && slots_hold(
                    b.teams@[k].char_team@,
                    Seq::empty(),
                ) && b.teams@[k].leader_index == CharIndex(0)
        },
{
    let mut bag = CharBag::new_empty();
    let mut roster: StrMap<CharIndex> = StrMap::new();
    let mut kinds: Vec<u32> = Vec::new();
    proof {
        assert(roster.as_map() =~= roster_of(new_bag_members(templates@.take(0))));
        assert(new_bag_members(templates@.take(0)) =~= Seq::<CharacterTemplate>::empty());
    }
    let mut i: usize = 0;
    while i < templates.len()
        invariant
            i <= templates@.len(),
            default_weapons_exist(templates@, *weapons),
            bag.chars@.len() == new_bag_members(templates@.take(i as int)).len(),
            kinds@.len() == bag.chars@.len(),
            bag.chars@.len() <= i,
            roster.as_map() == roster_of(new_bag_members(templates@.take(i as int))),
            bag.weapons.items_view().len() == 0,
            bag.gems.items_view().len() == 0,
            bag.equips.items_view().len() == 0,
            bag.meta.curr_team_index == 0,
            bag.teams@.len() == 0,
            forall|j: int|
                0 <= j < bag.chars@.len() ==> {
                    let c = #[trigger] bag.chars@[j];
                    let t = new_bag_members(templates@.take(i as int))[j];
                    &&& c.template_id@ == t.template_id@
                    &&& c.level == t.level_one.unwrap().level
                    &&& c.break_stage == t.level_one.unwrap().break_stage
                    &&& c.hp_bits == t.level_one.unwrap().hp_bits
                    &&& c.exp == 0
                    &&& !c.is_dead
                    &&& c.ultimate_sp_bits == 0
                    &&& c.cached_weapon_inst_id is None
                    &&& c.own_time == own_time
                    &&& forall|k: Seq<char>| #[trigger] c.skill_levels.spec_get(k) == initial_level(t.skills@, k)
                    &&& kinds@[j] == t.weapon_type
                },
            forall|j: int|
                0 <= j < bag.chars@.len() ==> (weapons.weapons().filter(
                    |x: Weapon| x.weapon_type == #[trigger] kinds@[j],
                ).len() > 0 || weapons.spec_get("wpn_0002"@) is Some),
        decreases templates.len() - i,
    {
        let t = &templates[i];
        proof {
            lemma_members_step(templates@, i as int);
        }
        if t.skills.len() > 0 && t.level_one.is_some() {
            let stats = t.level_one.unwrap();
            let levels = initial_skill_levels(t.skills.as_slice());
            let c = Char {
                template_id: t.template_id.clone(),
                level: stats.level,
                exp: 0,
                break_stage: stats.break_stage,
                is_dead: false,
                hp_bits: stats.hp_bits,
                ultimate_sp_bits: 0,
                cached_weapon_inst_id: None,
                own_time,
                skill_levels: levels,
            };
            let ghost before = roster.as_map();
            let idx = bag.add_char(c);
            roster.insert(t.template_id.clone(), idx);
            kinds.push(t.weapon_type);
            proof {
                let m = new_bag_members(templates@.take(i + 1));
                assert(m.last() == templates@[i as int]);
                assert(m.drop_last() =~= new_bag_members(templates@.take(i as int)));
                assert(roster.as_map() =~= before.insert(t.template_id@, idx));
            }
        }
        i = i + 1;
    }
    assert(templates@.take(templates@.len() as int) =~= templates@);
    let ghost members = new_bag_members(templates@);
    let n = bag.chars.len();
    proof {
        assert forall|j: int| 0 <= j < n implies kinds@[j] == members[j].weapon_type by {
            let c = bag.chars@[j];
        }
    }
    let mut insts: Vec<WeaponInstance> = Vec::new();
    let mut k: usize = 0;
    while k < n
        invariant
            k <= n,
            n == bag.chars@.len(),
            n == members.len(),
            kinds@.len() == n,
            n <= templates@.len(),
            insts@.len() == k,
            forall|j: int| 0 <= j < n ==> kinds@[j] == members[j].weapon_type,
            forall|j: int|
                0 <= j < n ==> (weapons.weapons().filter(
                    |x: Weapon| x.weapon_type == #[trigger] kinds@[j],
                ).len() > 0 || weapons.spec_get("wpn_0002"@) is Some),
            forall|j: int|
                0 <= j < k ==> {
                    let w = #[trigger] insts@[j];
                    &&& w.inst_id.0 == j + 1
                    &&& w.equip_char_id == j + 1
                    &&& exists|d: Weapon| is_default_weapon(*weapons, members[j].weapon_type, d) && w.template_id@ == d.weapon_id@
                    &&& w.own_time == own_time
                    &&& !w.is_lock
                    &&& w.is_new
                    &&& w.breakthrough_lv == 0
                },
        decreases n - k,
    {
        let id = default_weapon_id(weapons, kinds[k]);
        let objid: u64 = (k as u64) + 1;
        insts.push(WeaponInstance {
            inst_id: WeaponInstId(objid),
            template_id: id,
            is_lock: false,
            is_new: true,
            own_time,
            equip_char_id: objid,
            breakthrough_lv: 0,
        });
        k = k + 1;
    }
    proof {
        assert(weapon_ids(insts@).no_duplicates()) by {
            assert forall|a: int, c: int| 0 <= a < c < weapon_ids(insts@).len() implies weapon_ids(insts@)[a] != weapon_ids(insts@)[c] by {
                assert(insts@[a].inst_id.0 == a + 1);
                assert(insts@[c].inst_id.0 == c + 1);
            }
        }
    }
    proof {
        lemma_weapon_loaded_distinct(insts@);
    }
    let mut depot = WeaponDepot::from_loaded(insts);
    depot.set_next_inst_id((n as u64) + 1);
    bag.weapons = depot;
    bag.teams = build_default_teams(&roster, default_team);
    bag.meta.curr_team_index = 0;
    Ok(bag)
}

impl CharBag {
    /// An empty bag: no characters, no teams, current team 0, and empty
    /// depots whose first instances get id 1.
    pub fn new_empty() -> (b: Self)
        ensures
            b.teams@.len() == 0,
            b.chars@.len() == 0,
            b.meta.curr_team_index == 0,
            b.weapons.items_view().len() == 0,
            b.weapons.spec_next_inst_id() == 1,
            b.gems.items_view().len() == 0,
            b.gems.spec_next_inst_id() == 1,
            b.equips.items_view().len() == 0,
            b.equips.spec_next_inst_id() == 1,
            b.special_items.as_map() == Map::<Seq<char>, u32>::empty(),
            b.mission_items.as_map() == Map::<Seq<char>, u32>::empty(),
            b.factory_items.as_map() == Map::<Seq<char>, u32>::empty(),
    {
        let special_items: StrMap<u32> = StrMap::new();
        let mission_items: StrMap<u32> = StrMap::new();
        let factory_items: StrMap<u32> = StrMap::new();
        proof {
            assert(special_items.as_map() =~= Map::<Seq<char>, u32>::empty());
            assert(mission_items.as_map() =~= Map::<Seq<char>, u32>::empty());
            assert(factory_items.as_map() =~= Map::<Seq<char>, u32>::empty());
        }
        CharBag {
            teams: Vec::new(),
            chars: Vec::new(),
            meta: Meta { curr_team_index: 0 },
            weapons: WeaponDepot::new(),
            gems: GemDepot::new(),
            equips: EquipDepot::new(),
            special_items,
            mission_items,
            factory_items,
        }
    }

    /// Appends a character and answers its index.
    pub fn add_char(&mut self, c: Char) -> (idx: CharIndex)
        ensures
            idx.0 == old(self).chars@.len(),
            final(self).chars@ == old(self).chars@.push(c),
            final(self).teams@ == old(self).teams@,
            final(self).meta == old(self).meta,
            final(self).weapons == old(self).weapons,
            final(self).gems == old(self).gems,
            final(self).equips == old(self).equips,
            final(self).special_items == old(self).special_items,
            final(self).mission_items == old(self).mission_items,
            final(self).factory_items == old(self).factory_items,
    {
        let idx = CharIndex::from_usize(self.chars.len());
        self.chars.push(c);
        idx
    }

    /// The character at index `idx`.
    pub fn get_char(&self, idx: CharIndex) -> (r: Option<&Char>)
        ensures
            match char_slot(idx, self.chars@.len()) {
                Some(i) => r == Some(&self.chars@[i]),
                None => r is None,
            },
    {
        let i = idx.as_usize();
        if i < self.chars.len() {
            Some(&self.chars[i])
        } else {
            None
        }
    }

    /// The index of the first character with template `template_id`.
    pub fn char_index_by_id(&self, template_id: &str) -> (r: Option<CharIndex>)
        ensures
            match r {
                Some(i) => i.0 < self.chars@.len() && self.chars@[i.0 as int].template_id@ == template_id@
                    && forall|j: int| 0 <= j < i.0 ==> (#[trigger] self.chars@[j]).template_id@ != template_id@,
                None => forall|j: int| 0 <= j < self.chars@.len() ==> (#[trigger] self.chars@[j]).template_id@ != template_id@,
            },
    {
        let mut i: usize = 0;
        while i < self.chars.len()
            invariant
                i <= self.chars@.len(),
                forall|j: int| 0 <= j < i ==> (#[trigger] self.chars@[j]).template_id@ != template_id@,
            decreases self.chars.len() - i,
        {
            if self.chars[i].template_id == template_id.to_owned() {
                return Some(CharIndex::from_usize(i));
            }
            i = i + 1;
        }
        None
    }

    /// The character with object id `objid`.
    pub fn get_char_by_objid(&self, objid: u64) -> (r: Option<&Char>)
        requires
            objid >= 1,
        ensures
            match char_slot(CharIndex((objid - 1) as u64), self.chars@.len()) {
                Some(i) => r == Some(&self.chars@[i]),
                None => r is None,
            },
    {
        self.get_char(CharIndex::from_object_id(objid))
    }

    /// Object ids of the current team's members that are dead, in slot order.
    pub fn dead_team_members(&self) -> (ids: Vec<u64>)
        requires
            (self.meta.curr_team_index as int) < self.teams@.len(),
            forall|k: int|
                0 <= k < 4 ==> match #[trigger] self.teams@[self.meta.curr_team_index as int].char_team@[k] {
                    TeamSlot::Occupied(idx) => (idx.0 as int) < self.chars@.len(),
                    TeamSlot::Empty => true,
                },
        ensures
            ids@ == dead_members(self.teams@[self.meta.curr_team_index as int].char_team@, self.chars@),
            ({
                let slots = self.teams@[self.meta.curr_team_index as int].char_team@;
                ids@ == dead_in_slot(slots[0], self.chars@) + dead_in_slot(slots[1], self.chars@) + dead_in_slot(
                    slots[2],
                    self.chars@,
                ) + dead_in_slot(slots[3], self.chars@)
            }),
    {
        let team = &self.teams[self.meta.curr_team_index as usize];
        let n: usize = self.chars.len();
        let mut ids: Vec<u64> = Vec::new();
        let mut k: usize = 0;
        while k < 4
            invariant
                k <= 4,
                n == self.chars@.len(),
                *team == self.teams@[self.meta.curr_team_index as int],
                forall|j: int|
                    0 <= j < 4 ==> match #[trigger] team.char_team@[j] {
                        TeamSlot::Occupied(idx) => (idx.0 as int) < self.chars@.len(),
                        TeamSlot::Empty => true,
                    },
                ids@ == dead_members(team.char_team@.take(k as int), self.chars@),
            decreases 4 - k,
        {
            proof {
                assert(team.char_team@.take(k + 1).drop_last() =~= team.char_team@.take(k as int));
            }
            match team.char_team[k] {
                TeamSlot::Occupied(idx) => {
                    assert(team.char_team@[k as int] == TeamSlot::Occupied(idx));
                    let i = idx.as_usize();
                    assert(i as int == idx.0 as int);
                    if self.chars[i].is_dead {
                        ids.push(idx.object_id());
                    }
                },
                TeamSlot::Empty => {},
            }
            k = k + 1;
        }
        assert(team.char_team@.take(4) =~= team.char_team@);
        proof {
            lemma_dead_members_every_slot(team.char_team@, self.chars@);
        }
        ids
    }

    /// Brings the character with object id `objid` back to life with the
    /// given health (as a bit pattern); a bag without it is left as it is.
    pub fn revive(&mut self, objid: u64, hp_bits: u64)
        requires
            objid >= 1,
        ensures
            final(self).teams@ == old(self).teams@,
            final(self).meta == old(self).meta,
            final(self).weapons == old(self).weapons,
            final(self).gems == old(self).gems,
            final(self).equips == old(self).equips,
            final(self).special_items == old(self).special_items,
            final(self).mission_items == old(self).mission_items,
            final(self).factory_items == old(self).factory_items,
            final(self).chars@.len() == old(self).chars@.len(),
            forall|j: int|
                0 <= j < old(self).chars@.len() && Some(j) != char_slot(
                    CharIndex((objid - 1) as u64),
                    old(self).chars@.len(),
                ) ==> #[trigger] final(self).chars@[j] == old(self).chars@[j],
            match char_slot(CharIndex((objid - 1) as u64), old(self).chars@.len()) {
                Some(i) => final(self).chars@[i] == (Char { is_dead: false, hp_bits, ..old(self).chars@[i] }),
                None => true,
            },
    {
        let i = CharIndex::from_object_id(objid).as_usize();
        if i < self.chars.len() {
            let mut c = self.chars.remove(i);
            c.is_dead = false;
            c.hp_bits = hp_bits;
            self.chars.insert(i, c);
            proof {
                assert forall|j: int| 0 <= j < old(self).chars@.len() && j != i implies #[trigger] self.chars@[j]
                    == old(self).chars@[j] by {}
            }
        }
    }

    /// Every character's liveness and battle values, in bag order.
    pub fn char_status(&self) -> (r: Vec<CharSyncStatus>)
        ensures
            r@.len() == self.chars@.len(),
            forall|i: int|
                0 <= i < r@.len() ==> #[trigger] r@[i] == (CharSyncStatus {
                    objid: (i + 1) as u64,
                    is_dead: self.chars@[i].is_dead,
                    hp_bits: self.chars@[i].hp_bits,
                    ultimate_sp_bits: self.chars@[i].ultimate_sp_bits,
                }),
    {
        let mut r: Vec<CharSyncStatus> = Vec::new();
        let mut i: usize = 0;
        while i < self.chars.len()
            invariant
                i <= self.chars@.len(),
                r@.len() == i,
                forall|j: int|
                    0 <= j < i ==> #[trigger] r@[j] == (CharSyncStatus {
                        objid: (j + 1) as u64,
                        is_dead: self.chars@[j].is_dead,
                        hp_bits: self.chars@[j].hp_bits,
                        ultimate_sp_bits: self.chars@[j].ultimate_sp_bits,
                    }),
            decreases self.chars.len() - i,
        {
            let c = &self.chars[i];
            r.push(CharSyncStatus {
                objid: CharIndex::from_usize(i).object_id(),
                is_dead: c.is_dead,
                hp_bits: c.hp_bits,
                ultimate_sp_bits: c.ultimate_sp_bits,
            });
            i = i + 1;
        }
        r
    }

    /// What the client is told about each team: its name, its members' object
    /// ids in slot order, its leader, and each member's normal skill as
    /// `normal_skills` names it for the member's template.
    pub fn team_sync_states(&self, normal_skills: &StrMap<String>) -> (r: Vec<TeamSyncState>)
        requires
            forall|t: int, k: int|
                0 <= t < self.teams@.len() && 0 <= k < 4 ==> match #[trigger] self.teams@[t].char_team@[k] {
                    TeamSlot::Occupied(idx) => (idx.0 as int) < self.chars@.len(),
                    TeamSlot::Empty => true,
                },
            forall|t: int| 0 <= t < self.teams@.len() ==> #[trigger] self.teams@[t].leader_index.0 < u64::MAX,
        ensures
            r@.len() == self.teams@.len(),
            forall|t: int|
                0 <= t < r@.len() ==> {
                    &&& (#[trigger] r@[t]).name@ == self.teams@[t].name@
                    &&& r@[t].char_ids@ == slot_ids(self.teams@[t].char_team@)
                    &&& r@[t].leader_id == self.teams@[t].leader_index.0 + 1
                    &&& forall|id: u64|
                        #[trigger] r@[t].member_skills@.contains_key(id) <==> slot_ids(
                            self.teams@[t].char_team@,
                        ).contains(id)
                    &&& forall|id: u64|
                        #[trigger] r@[t].member_skills@.contains_key(id) ==> r@[t].member_skills@[id]@
                            == normal_skill_of(normal_skills.as_map(), self.chars@[id - 1].template_id@)
                },
    {
        let mut r: Vec<TeamSyncState> = Vec::new();
        let mut t: usize = 0;
        while t < self.teams.len()
            invariant
                t <= self.teams@.len(),
                r@.len() == t,
                forall|t2: int, k: int|
                    0 <= t2 < self.teams@.len() && 0 <= k < 4 ==> match #[trigger] self.teams@[t2].char_team@[k] {
                        TeamSlot::Occupied(idx) => (idx.0 as int) < self.chars@.len(),
                        TeamSlot::Empty => true,
                    },
                forall|t2: int| 0 <= t2 < self.teams@.len() ==> #[trigger] self.teams@[t2].leader_index.0 < u64::MAX,
                forall|u: int|
                    0 <= u < t ==> {
                        &&& (#[trigger] r@[u]).name@ == self.teams@[u].name@
                        &&& r@[u].char_ids@ == slot_ids(self.teams@[u].char_team@)
                        &&& r@[u].leader_id == self.teams@[u].leader_index.0 + 1
                        &&& forall|id: u64|
                            #[trigger] r@[u].member_skills@.contains_key(id) <==> slot_ids(
                                self.teams@[u].char_team@,
                            ).contains(id)
                        &&& forall|id: u64|
                            #[trigger] r@[u].member_skills@.contains_key(id) ==> r@[u].member_skills@[id]@
                                == normal_skill_of(normal_skills.as_map(), self.chars@[id - 1].template_id@)
                    },
            decreases self.teams.len() - t,
        {
            let state = self.team_sync_state(t, normal_skills);
            r.push(state);
            t = t + 1;
        }
        r
    }

    fn team_sync_state(&self, t: usize, normal_skills: &StrMap<String>) -> (s: TeamSyncState)
        requires
            t < self.teams@.len(),
            forall|k: int|
                0 <= k < 4 ==> match #[trigger] self.teams@[t as int].char_team@[k] {
                    TeamSlot::Occupied(idx) => (idx.0 as int) < self.chars@.len(),
                    TeamSlot::Empty => true,
                },
            self.teams@[t as int].leader_index.0 < u64::MAX,
        ensures
            s.name@ == self.teams@[t as int].name@,
            s.char_ids@ == slot_ids(self.teams@[t as int].char_team@),
            s.leader_id == self.teams@[t as int].leader_index.0 + 1,
            forall|id: u64|
                #[trigger] s.member_skills@.contains_key(id) <==> slot_ids(self.teams@[t as int].char_team@).contains(id),
            forall|id: u64|
                #[trigger] s.member_skills@.contains_key(id) ==> s.member_skills@[id]@ == normal_skill_of(
                    normal_skills.as_map(),
                    self.chars@[id - 1].template_id@,
                ),
    {
        let team = &self.teams[t];
        let ghost slots = team.char_team@;
        let n: usize = self.chars.len();
        let mut char_ids: Vec<u64> = Vec::new();
        let mut member_skills: HashMap<u64, String> = HashMap::new();
        let mut k: usize = 0;
        while k < 4
            invariant
                k <= 4,
                slots == team.char_team@,
                n == self.chars@.len(),
                forall|j: int|
                    0 <= j < 4 ==> match #[trigger] slots[j] {
                        TeamSlot::Occupied(idx) => (idx.0 as int) < self.chars@.len(),
                        TeamSlot::Empty => true,
                    },
                char_ids@ == slot_ids(slots.take(k as int)),
                forall|id: u64| #[trigger] member_skills@.contains_key(id) <==> slot_ids(slots.take(k as int)).contains(id),
                forall|id: u64|
                    #[trigger] member_skills@.contains_key(id) ==> 1 <= id && id - 1 < self.chars@.len()
                        && member_skills@[id]@ == normal_skill_of(normal_skills.as_map(), self.chars@[id - 1].template_id@),
            decreases 4 - k,
        {
            let ghost before = slot_ids(slots.take(k as int));
            proof {
                assert(slots.take(k + 1).drop_last() =~= slots.take(k as int));
            }
            match team.char_team[k] {
                TeamSlot::Occupied(idx) => {
                    assert(slots[k as int] == TeamSlot::Occupied(idx));
                    let i = idx.as_usize();
                    assert(i as int == idx.0 as int);
                    let objid = idx.object_id();
                    let template = self.chars[i].template_id.as_str();
                    let skill = match normal_skills.get(template) {
                        Some(s) => s.clone(),
                        None => String::new(),
                    };
                    proof {
                        assert(normal_skills.as_map().contains_key(template@) == (normal_skills.spec_get(template@) is Some));
                    }
                    char_ids.push(objid);
                    member_skills.insert(objid, skill);
                    proof {
                        assert(slot_ids(slots.take(k + 1)) == before.push(objid));
                        assert forall|id: u64| #[trigger] member_skills@.contains_key(id) <==> slot_ids(slots.take(k + 1)).contains(id) by {
                            if id == objid {
                                assert(before.push(objid)[before.len() as int] == id);
                            }
                            if before.push(objid).contains(id) && id != objid {
                                let q = choose|q: int| 0 <= q < before.push(objid).len() && before.push(objid)[q] == id;
                                assert(before[q] == id);
                            }
                            if before.contains(id) {
                                let q = choose|q: int| 0 <= q < before.len() && before[q] == id;
                                assert(before.push(objid)[q] == id);
                            }
                        }
                    }
                },
                TeamSlot::Empty => {},
            }
            k = k + 1;
        }
        assert(slots.take(4) =~= slots);
        TeamSyncState {
            name: team.name.clone(),
            char_ids,
            leader_id: team.leader_index.object_id(),
            member_skills,
        }
    }

    /// Repairs references after a load: a weapon or equipment piece owned by
    /// no character of the bag loses its owner, a gem attached to a weapon
    /// the bag does not hold is detached, and a character's cached weapon is
    /// dropped unless that weapon exists and is equipped by the character.
    pub fn validate_after_load(&mut self)
        ensures
            final(self).teams@ == old(self).teams@,
            final(self).meta == old(self).meta,
            final(self).chars@.len() == old(self).chars@.len(),
            final(self).weapons.items_view() == old(self).weapons.items_view().map_values(
                |w: WeaponInstance| weapon_owner_checked(w, old(self).chars@.len() as u64),
            ),
            final(self).gems.items_view() == old(self).gems.items_view().map_values(
                |g: GemInstance| gem_weapon_checked(g, final(self).weapons.items_view()),
            ),
            final(self).equips.items_view() == old(self).equips.items_view().map_values(
                |e: EquipInstance| equip_owner_checked(e, old(self).chars@.len() as u64),
            ),
            forall|i: int|
                0 <= i < old(self).chars@.len() ==> #[trigger] final(self).chars@[i] == cache_checked(
                    old(self).chars@[i],
                    final(self).weapons.items_view(),
                    (i + 1) as u64,
                ),
            final(self).weapons.spec_next_inst_id() == old(self).weapons.spec_next_inst_id(),
            final(self).gems.spec_next_inst_id() == old(self).gems.spec_next_inst_id(),
            final(self).equips.spec_next_inst_id() == old(self).equips.spec_next_inst_id(),
            final(self).special_items == old(self).special_items,
            final(self).mission_items == old(self).mission_items,
            final(self).factory_items == old(self).factory_items,
            forall|i: int|
                0 <= i < final(self).chars@.len() ==> ((#[trigger] final(self).chars@[i]).cached_weapon_inst_id matches Some(
                    w,
                ) ==> (final(self).weapons.lookup(w.0) matches Some(x) && x.equip_char_id == i + 1)),
            forall|k: int|
                0 <= k < final(self).weapons.items_view().len() ==> (#[trigger] final(self).weapons.items_view()[k]).equip_char_id
                    <= final(self).chars@.len(),
            forall|k: int|
                0 <= k < final(self).equips.items_view().len() ==> (#[trigger] final(self).equips.items_view()[k]).equip_char_id
                    <= final(self).chars@.len(),
            forall|k: int|
                0 <= k < final(self).gems.items_view().len() ==> (#[trigger] final(self).gems.items_view()[k]).attach_weapon_id
                    == 0 || final(self).weapons.lookup(final(self).gems.items_view()[k].attach_weapon_id) is Some,
    {
        let n: u64 = self.chars.len() as u64;
        self.weapons.release_unknown_owners(n);
        self.gems.release_missing_weapons(&self.weapons);
        self.equips.release_unknown_owners(n);
        let ghost ws = self.weapons.items_view();
        let ghost wd = self.weapons;
        let ghost gs = self.gems;
        let ghost es = self.equips;
        let mut i: usize = 0;
        while i < self.chars.len()
            invariant
                i <= self.chars@.len(),
                self.chars@.len() == old(self).chars@.len(),
                self.weapons.items_view() == ws,
                self.teams@ == old(self).teams@,
                self.meta == old(self).meta,
                self.weapons == wd,
                self.gems == gs,
                self.equips == es,
                self.special_items == old(self).special_items,
                self.mission_items == old(self).mission_items,
                self.factory_items == old(self).factory_items,
                forall|j: int| 0 <= j < i ==> #[trigger] self.chars@[j] == cache_checked(old(self).chars@[j], ws, (j + 1) as u64),
                forall|j: int| i <= j < self.chars@.len() ==> #[trigger] self.chars@[j] == old(self).chars@[j],
            decreases self.chars.len() - i,
        {
            let objid: u64 = (i as u64) + 1;
            let keep = match self.chars[i].cached_weapon_inst_id {
                Some(w) => match self.weapons.get(w) {
                    Some(x) => x.equip_char_id == objid,
                    None => false,
                },
                None => true,
            };
            if !keep {
                let mut c = self.chars.remove(i);
                c.cached_weapon_inst_id = None;
                self.chars.insert(i, c);
            }
            i = i + 1;
        }
    }

    /// Records the battle values (as bit patterns) of the character with object
    /// id `objid`; a bag without that character is left as it is.
    pub fn update_battle_info(&mut self, objid: u64, hp_bits: u64, ultimate_sp_bits: u32)
        requires
            objid >= 1,
        ensures
            final(self).teams@ == old(self).teams@,
            final(self).meta == old(self).meta,
            final(self).weapons == old(self).weapons,
            final(self).gems == old(self).gems,
            final(self).equips == old(self).equips,
            final(self).special_items == old(self).special_items,
            final(self).mission_items == old(self).mission_items,
            final(self).factory_items == old(self).factory_items,
            final(self).chars@.len() == old(self).chars@.len(),
            forall|j: int|
                0 <= j < old(self).chars@.len() && Some(j) != char_slot(
                    CharIndex((objid - 1) as u64),
                    old(self).chars@.len(),
                ) ==> #[trigger] final(self).chars@[j] == old(self).chars@[j],
            match char_slot(CharIndex((objid - 1) as u64), old(self).chars@.len()) {
                Some(i) => {
                    let (o, n) = (old(self).chars@[i], final(self).chars@[i]);
                    &&& n.hp_bits == hp_bits
                    &&& n.ultimate_sp_bits == ultimate_sp_bits
                    &&& n.template_id == o.template_id
                    &&& n.level == o.level
                    &&& n.exp == o.exp
                    &&& n.break_stage == o.break_stage
                    &&& n.is_dead == o.is_dead
                    &&& n.cached_weapon_inst_id == o.cached_weapon_inst_id
                    &&& n.own_time == o.own_time
                    &&& n.skill_levels == o.skill_levels
                },
                None => true,
            },
    {
        let i = CharIndex::from_object_id(objid).as_usize();
        if i < self.chars.len() {
            let mut c = self.chars.remove(i);
            c.hp_bits = hp_bits;
            c.ultimate_sp_bits = ultimate_sp_bits;
            self.chars.insert(i, c);
            proof {
                assert forall|j: int| 0 <= j < old(self).chars@.len() && j != i implies #[trigger] self.chars@[j]
                    == old(self).chars@[j] by {}
            }
        }
    }

    /// The bag's weapon depot.
    pub fn item_manager_weapons(&self) -> (d: &WeaponDepot)
        ensures
            *d == self.weapons,
    {
        &self.weapons
    }

    /// The bag's weapon depot, to change.
    pub fn item_manager_weapons_mut(&mut self) -> (d: &mut WeaponDepot)
        ensures
            *d == old(self).weapons,
            final(self).weapons == *final(d),
            final(self).chars@ == old(self).chars@,
            final(self).teams@ == old(self).teams@,
            final(self).meta == old(self).meta,
            final(self).gems == old(self).gems,
            final(self).equips == old(self).equips,
            final(self).special_items == old(self).special_items,
            final(self).mission_items == old(self).mission_items,
            final(self).factory_items == old(self).factory_items,
    {
        &mut self.weapons
    }

    /// Object id of the current team's leader.
    pub fn current_leader_id(&self) -> (id: u64)
        requires
            (self.meta.curr_team_index as int) < self.teams@.len(),
            self.teams@[self.meta.curr_team_index as int].leader_index.0 < u64::MAX,
        ensures
            id == self.teams@[self.meta.curr_team_index as int].leader_index.0 + 1,
    {
        self.teams[self.meta.curr_team_index as usize].leader_index.object_id()
    }
}

} // verus!
