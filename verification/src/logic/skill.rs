//! Character skills: the level caps of skill bundles, a character's normal
//! attack, and the skill levels the client is shown.

use crate::logic::char_bag::SkillLevelState;
use crate::logic::str_map::StrMap;
use crate::logic::text::{contains_block, has_block, str_chars};
use vstd::prelude::*;

verus! {

/// One level of a skill, as the skill table lists it.
#[derive(Debug, Clone)]
pub struct SkillEntry {
    pub skill_id: String,
    pub level: u32,
}

/// The levels of one of a character's skills, lowest first as the table lists them.
#[derive(Debug, Clone)]
pub struct SkillBundle {
    pub entries: Vec<SkillEntry>,
}

/// The highest level among `es` (0 for none).
pub open spec fn max_level(es: Seq<SkillEntry>) -> u32
    decreases es.len(),
{
    if es.len() == 0 {
        0
    } else {
        let rest = max_level(es.drop_last());
        if es.last().level > rest {
            es.last().level
        } else {
            rest
        }
    }
}

/// `es` lists skill `id`.
pub open spec fn lists_skill(es: Seq<SkillEntry>, id: Seq<char>) -> bool {
    exists|j: int| 0 <= j < es.len() && (#[trigger] es[j]).skill_id@ == id
}

/// `i` is the first bundle that lists skill `id`.
pub open spec fn is_first_bundle_with(bs: Seq<SkillBundle>, id: Seq<char>, i: int) -> bool {
    &&& 0 <= i < bs.len()
    &&& lists_skill(bs[i].entries@, id)
    &&& forall|j: int| 0 <= j < i ==> !lists_skill(#[trigger] bs[j].entries@, id)
}

/// The level cap of skill `id`: the highest level of the first bundle that
/// lists it, or 1 where no bundle does.
pub open spec fn skill_cap(bs: Seq<SkillBundle>, id: Seq<char>) -> u32 {
    if exists|i: int| is_first_bundle_with(bs, id, i) {
        max_level(bs[choose|i: int| is_first_bundle_with(bs, id, i)].entries@)
    } else {
        1
    }
}

fn max_level_of(es: &Vec<SkillEntry>) -> (m: u32)
    ensures
        m == max_level(es@),
{
    let mut m: u32 = 0;
    let mut i: usize = 0;
    while i < es.len()
        invariant
            i <= es@.len(),
            m == max_level(es@.take(i as int)),
        decreases es.len() - i,
    {
        proof {
            assert(es@.take(i + 1).drop_last() =~= es@.take(i as int));
            assert(es@.take(i + 1).last() == es@[i as int]);
        }
        if es[i].level > m {
            m = es[i].level;
        }
        i = i + 1;
    }
    assert(es@.take(es@.len() as int) =~= es@);
    m
}

fn lists_skill_id(es: &Vec<SkillEntry>, id: &str) -> (b: bool)
    ensures
        b == lists_skill(es@, id@),
{
    let mut i: usize = 0;
    while i < es.len()
        invariant
            i <= es@.len(),
            forall|j: int| 0 <= j < i ==> (#[trigger] es@[j]).skill_id@ != id@,
        decreases es.len() - i,
    {
        if es[i].skill_id == id.to_owned() {
            return true;
        }
        i = i + 1;
    }
    false
}

/// The level cap of skill `skill_id` among a character's skill bundles.
pub fn max_skill_level(bundles: &[SkillBundle], skill_id: &str) -> (m: u32)
    ensures
        m == skill_cap(bundles@, skill_id@),
{
    let mut i: usize = 0;
    while i < bundles.len()
        invariant
            i <= bundles@.len(),
            forall|j: int| 0 <= j < i ==> !lists_skill(#[trigger] bundles@[j].entries@, skill_id@),
        decreases bundles.len() - i,
    {
        if lists_skill_id(&bundles[i].entries, skill_id) {
            proof {
                assert(is_first_bundle_with(bundles@, skill_id@, i as int));
                let c = choose|k: int| is_first_bundle_with(bundles@, skill_id@, k);
                assert(c == i as int);
            }
            return max_level_of(&bundles[i].entries);
        }
        i = i + 1;
    }
    proof {
        assert(!exists|k: int| is_first_bundle_with(bundles@, skill_id@, k));
    }
    1
}

/// `i` is the first bundle whose first entry names a normal attack.
pub open spec fn is_first_normal(bs: Seq<SkillBundle>, i: int) -> bool {
    &&& 0 <= i < bs.len()
    &&& bs[i].entries@.len() > 0 && contains_block(bs[i].entries@[0].skill_id@, "normal_skill"@)
    &&& forall|j: int|
        0 <= j < i ==> !(bs[j].entries@.len() > 0 && contains_block(
            (#[trigger] bs[j].entries@)[0].skill_id@,
            "normal_skill"@,
        ))
}

/// The character's normal attack: the first entry of the first bundle whose
/// first entry's id contains `normal_skill`; empty where there is none.
pub open spec fn normal_skill(bs: Seq<SkillBundle>) -> Seq<char> {
    if exists|i: int| is_first_normal(bs, i) {
        bs[choose|i: int| is_first_normal(bs, i)].entries@[0].skill_id@
    } else {
        Seq::empty()
    }
}

/// The character's normal attack among its skill bundles.
pub fn get_normal_skill(bundles: &[SkillBundle]) -> (s: String)
    ensures
        s@ == normal_skill(bundles@),
{
    let needle = str_chars("normal_skill");
    let mut i: usize = 0;
    while i < bundles.len()
        invariant
            i <= bundles@.len(),
            needle@ == "normal_skill"@,
            forall|j: int|
                0 <= j < i ==> !(bundles@[j].entries@.len() > 0 && contains_block(
                    (#[trigger] bundles@[j].entries@)[0].skill_id@,
                    "normal_skill"@,
                )),
        decreases bundles.len() - i,
    {
        let es = &bundles[i].entries;
        if es.len() > 0 && has_block(&str_chars(es[0].skill_id.as_str()), &needle) {
            proof {
                assert(is_first_normal(bundles@, i as int));
                let c = choose|k: int| is_first_normal(bundles@, k);
                assert(c == i as int);
            }
            return es[0].skill_id.clone();
        }
        i = i + 1;
    }
    proof {
        assert(!exists|k: int| is_first_normal(bundles@, k));
    }
    String::new()
}

/// The level a character has in a bundle: the level stored under the
/// bundle's first skill id, or 1.
pub open spec fn current_level(levels: Map<Seq<char>, u32>, id: Seq<char>) -> u32 {
    if levels.contains_key(id) {
        levels[id]
    } else {
        1
    }
}

/// `j` is the first entry of `es` at level `lv`.
pub open spec fn is_first_at_level(es: Seq<SkillEntry>, lv: u32, j: int) -> bool {
    &&& 0 <= j < es.len()
    &&& es[j].level == lv
    &&& forall|k: int| 0 <= k < j ==> (#[trigger] es[k]).level != lv
}

/// What the client is shown of one bundle: the entry at the character's
/// level, with the bundle's cap; nothing for an empty bundle or a level the
/// bundle does not list.
pub open spec fn bundle_state(es: Seq<SkillEntry>, levels: Map<Seq<char>, u32>) -> Option<(Seq<char>, i32, i32)> {
    if es.len() == 0 {
        None
    } else {
        let lv = current_level(levels, es[0].skill_id@);
        if exists|j: int| is_first_at_level(es, lv, j) {
            let e = es[choose|j: int| is_first_at_level(es, lv, j)];
            Some((e.skill_id@, e.level as i32, max_level(es) as i32))
        } else {
            None
        }
    }
}

/// What the client is shown of the bundles, in order, skipping those with nothing to show.
pub open spec fn bundle_states(bs: Seq<SkillBundle>, levels: Map<Seq<char>, u32>) -> Seq<(Seq<char>, i32, i32)>
    decreases bs.len(),
{
    if bs.len() == 0 {
        Seq::empty()
    } else {
        let prev = bundle_states(bs.drop_last(), levels);
        match bundle_state(bs.last().entries@, levels) {
            Some(s) => prev.push(s),
            None => prev,
        }
    }
}

pub open spec fn state_view(s: SkillLevelState) -> (Seq<char>, i32, i32) {
    (s.skill_id@, s.skill_level, s.skill_max_level)
}

/// The skill levels a character with `levels` (skill id to level) is shown
/// for its bundles.
pub fn skill_level_states(bundles: &[SkillBundle], levels: &StrMap<u32>) -> (r: Vec<SkillLevelState>)
    ensures
        r@.map_values(|s: SkillLevelState| state_view(s)) == bundle_states(bundles@, levels.as_map()),
{
    let mut r: Vec<SkillLevelState> = Vec::new();
    let mut i: usize = 0;
    while i < bundles.len()
        invariant
            i <= bundles@.len(),
            r@.map_values(|s: SkillLevelState| state_view(s)) == bundle_states(
                bundles@.take(i as int),
                levels.as_map(),
            ),
        decreases bundles.len() - i,
    {
        proof {
            assert(bundles@.take(i + 1).drop_last() =~= bundles@.take(i as int));
            assert(bundles@.take(i + 1).last() == bundles@[i as int]);
        }
        let es = &bundles[i].entries;
        if es.len() > 0 {
            let lv: u32 = match levels.get(es[0].skill_id.as_str()) {
                Some(l) => *l,
                None => 1,
            };
            let mut j: usize = 0;
            while j < es.len() && es[j].level != lv
                invariant
                    j <= es@.len(),
                    forall|k: int| 0 <= k < j ==> (#[trigger] es@[k]).level != lv,
                decreases es.len() - j,
            {
                j = j + 1;
            }
            if j < es.len() {
                proof {
                    assert(is_first_at_level(es@, lv, j as int));
                    let c = choose|k: int| is_first_at_level(es@, lv, k);
                    assert(c == j as int);
                }
                let max = max_level_of(es);
                let ghost before = r@;
                r.push(
                    SkillLevelState {
                        skill_id: es[j].skill_id.clone(),
                        skill_level: #[verifier::truncate] (es[j].level as i32),
                        skill_max_level: #[verifier::truncate] (max as i32),
                    },
                );
                proof {
                    assert(r@.map_values(|s: SkillLevelState| state_view(s)) =~= before.map_values(
                        |s: SkillLevelState| state_view(s),
                    ).push(state_view(r@[before.len() as int])));
                }
            } else {
                proof {
                    assert(!exists|k: int| is_first_at_level(es@, lv, k));
                }
            }
        }
        i = i + 1;
    }
    proof {
        assert(bundles@.take(bundles@.len() as int) =~= bundles@);
    }
    r
}

/// The skill levels of a new character: each bundle's first skill at level 1.
pub fn initial_skill_levels(bundles: &[SkillBundle]) -> (m: StrMap<u32>)
    ensures
        forall|k: Seq<char>|
            #[trigger] m.spec_get(k) == if exists|i: int|
                0 <= i < bundles@.len() && bundles@[i].entries@.len() > 0 && bundles@[i].entries@[0].skill_id@
                    == k {
                Some(1u32)
            } else {
                None
            },
{
    let mut m: StrMap<u32> = StrMap::new();
    let mut i: usize = 0;
    while i < bundles.len()
        invariant
            i <= bundles@.len(),
            forall|k: Seq<char>|
                #[trigger] m.spec_get(k) == if exists|b: int|
                    0 <= b < i && bundles@[b].entries@.len() > 0 && bundles@[b].entries@[0].skill_id@ == k {
                    Some(1u32)
                } else {
                    None
                },
        decreases bundles.len() - i,
    {
        let es = &bundles[i].entries;
        if es.len() > 0 {
            m.insert(es[0].skill_id.clone(), 1);
            proof {
                assert forall|k: Seq<char>|
                    #[trigger] m.spec_get(k) == if exists|b: int|
                        0 <= b < i + 1 && bundles@[b].entries@.len() > 0 && bundles@[b].entries@[0].skill_id@ == k {
                        Some(1u32)
                    } else {
                        None
                    } by {
                    if k == bundles@[i as int].entries@[0].skill_id@ {
                        assert(0 <= i < i + 1 && bundles@[i as int].entries@.len() > 0);
                    } else if exists|b: int|
                        0 <= b < i + 1 && bundles@[b].entries@.len() > 0 && bundles@[b].entries@[0].skill_id@ == k {
                        let b = choose|b: int|
                            0 <= b < i + 1 && bundles@[b].entries@.len() > 0 && bundles@[b].entries@[0].skill_id@ == k;
                        assert(b < i);
                    }
                }
            }
        } else {
            proof {
                assert forall|k: Seq<char>|
                    #[trigger] m.spec_get(k) == if exists|b: int|
                        0 <= b < i + 1 && bundles@[b].entries@.len() > 0 && bundles@[b].entries@[0].skill_id@ == k {
                        Some(1u32)
                    } else {
                        None
                    } by {
                    if exists|b: int|
                        0 <= b < i + 1 && bundles@[b].entries@.len() > 0 && bundles@[b].entries@[0].skill_id@ == k {
                        let b = choose|b: int|
                            0 <= b < i + 1 && bundles@[b].entries@.len() > 0 && bundles@[b].entries@[0].skill_id@ == k;
                        assert(b < i);
                    }
                }
            }
        }
        i = i + 1;
    }
    m
}

} // verus!
