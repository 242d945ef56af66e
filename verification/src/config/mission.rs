//! Mission catalog: missions and their quests, derived from the text-table keys.

use crate::logic::text::{
    lemma_seq_lt_asymmetric, lemma_seq_lt_irreflexive, lemma_seq_lt_total, lemma_seq_lt_transitive, chars_lt,
    is_first_block, lemma_first_block_found, block_at, contains_block, ends_with, find_block, first_block, has_block, has_prefix, has_suffix,
    parse_u32, parse_u32_spec, seq_lt, slice_chars, starts_with, str_chars, string_from_chars,
};
use vstd::prelude::*;

verus! {

/// Mission category, from the second `_`-separated field of the mission id.
#[derive(Debug, Clone)]
pub enum MissionKind {
    Main,
    Bloc,
    Side,
    Dungeon,
    Factory,
    Gameplay,
    Unknown(String),
}

/// One quest of a mission.
#[derive(Debug, Clone)]
pub struct QuestDefinition {
    pub quest_id: String,
    pub ordinal_key: String,
    pub numeric_ordinal: Option<u32>,
    pub objective_keys: Vec<String>,
}

/// A mission and its quests, in play order.
#[derive(Debug, Clone)]
pub struct MissionDefinition {
    pub mission_id: String,
    pub kind: MissionKind,
    pub name_key: String,
    pub description_key: Option<String>,
    pub quests: Vec<QuestDefinition>,
}

/// The field after the first `_` of `s`, up to the next `_` (or the end); `None`
/// when `s` has no `_`.
pub open spec fn second_field(s: Seq<char>) -> Option<Seq<char>> {
    match first_block(s, seq!['_']) {
        None => None,
        Some(i) => {
            let rest = s.skip(i + 1);
            match first_block(rest, seq!['_']) {
                None => Some(rest),
                Some(j) => Some(rest.take(j)),
            }
        },
    }
}

/// `k` is the kind a mission with id `id` belongs to.
pub open spec fn kind_of(k: MissionKind, id: Seq<char>) -> bool {
    match second_field(id) {
        None => k matches MissionKind::Unknown(s) && s@.len() == 0,
        Some(f) => if f == "mai"@ {
            k is Main
        } else if f == "blc"@ {
            k is Bloc
        } else if f == "sid"@ {
            k is Side
        } else if f == "dgn"@ {
            k is Dungeon
        } else if f == "fac"@ {
            k is Factory
        } else if f == "gpl"@ {
            k is Gameplay
        } else {
            k matches MissionKind::Unknown(s) && s@ == f
        },
    }
}

fn chars_eq(a: &Vec<char>, b: &Vec<char>) -> (r: bool)
    ensures
        r == (a@ == b@),
{
    if a.len() != b.len() {
        return false;
    }
    let r = block_at(a, b, 0);
    proof {
        assert(a@.subrange(0, b@.len() as int) == a@);
    }
    r
}

/// The second `_`-separated field of `s`.
fn second_field_of(s: &Vec<char>) -> (r: Option<Vec<char>>)
    ensures
        match r {
            None => second_field(s@) is None,
            Some(f) => second_field(s@) == Some(f@),
        },
{
    let sep = str_chars("_");
    proof {
        reveal_strlit("_");
        assert(sep@ == seq!['_']);
    }
    let i = match find_block(s, &sep) {
        Some(i) => i,
        None => return None,
    };
    assert(is_first_block(s@, sep@, i as int));
    assert(sep@.len() == 1);
    assert(i + 1 <= s@.len());
    assert(s@.len() == s.len());
    let rest = slice_chars(s, i + 1, s.len());
    proof {
        assert(rest@ == s@.skip(i + 1));
    }
    match find_block(&rest, &sep) {
        None => Some(rest),
        Some(j) => {
            let f = slice_chars(&rest, 0, j);
            proof {
                assert(f@ == rest@.take(j as int));
            }
            Some(f)
        },
    }
}

impl MissionKind {
    /// The kind a mission id names.
    pub fn from_mission_id(mission_id: &str) -> (k: MissionKind)
        ensures
            kind_of(k, mission_id@),
    {
        let id = str_chars(mission_id);
        match second_field_of(&id) {
            None => MissionKind::Unknown(String::new()),
            Some(f) => {
                let mai = str_chars("mai");
                let blc = str_chars("blc");
                let sid = str_chars("sid");
                let dgn = str_chars("dgn");
                let fac = str_chars("fac");
                let gpl = str_chars("gpl");
                if chars_eq(&f, &mai) {
                    MissionKind::Main
                } else if chars_eq(&f, &blc) {
                    MissionKind::Bloc
                } else if chars_eq(&f, &sid) {
                    MissionKind::Side
                } else if chars_eq(&f, &dgn) {
                    MissionKind::Dungeon
                } else if chars_eq(&f, &fac) {
                    MissionKind::Factory
                } else if chars_eq(&f, &gpl) {
                    MissionKind::Gameplay
                } else {
                    MissionKind::Unknown(string_from_chars(f.as_slice()))
                }
            },
        }
    }
}

/// A quest-objective description key `mission_<..>_q#<ordinal>_obj_<..>_description`
/// split into its mission id, quest id and ordinal text.
pub open spec fn quest_key_parts(k: Seq<char>) -> Option<(Seq<char>, Seq<char>, Seq<char>)> {
    if has_prefix(k, "mission_"@) && has_suffix(k, "_description"@) && contains_block(k, "_obj_"@) {
        match first_block(k, "_q#"@) {
            None => None,
            Some(i) => {
                let tail = k.skip(i + 3);
                match first_block(tail, "_obj_"@) {
                    None => None,
                    Some(j) => Some((k.take(i), k.take(i + 3 + j), tail.take(j))),
                }
            },
        }
    } else {
        None
    }
}

/// `q` is the quest definition parsed from quest id `quest_id` with ordinal `ordinal`:
/// the ordinal is both its sort key and its single objective key.
pub open spec fn quest_from_parts(q: QuestDefinition, quest_id: Seq<char>, ordinal: Seq<char>) -> bool {
    &&& q.quest_id@ == quest_id
    &&& q.ordinal_key@ == ordinal
    &&& q.numeric_ordinal == parse_u32_spec(ordinal)
    &&& q.objective_keys@.len() == 1
    &&& q.objective_keys@[0]@ == ordinal
}

/// Splits a quest-objective description key into the mission id and the quest it
/// describes; `None` for any other key.
pub fn parse_quest_key(key: &str) -> (r: Option<(String, QuestDefinition)>)
    ensures
        match quest_key_parts(key@) {
            None => r is None,
            Some((m, qid, ord)) => r matches Some((mid, q)) && mid@ == m && quest_from_parts(q, qid, ord),
        },
{
    let k = str_chars(key);
    let prefix = str_chars("mission_");
    let suffix = str_chars("_description");
    let obj = str_chars("_obj_");
    let qmark = str_chars("_q#");
    if !starts_with(&k, &prefix) || !ends_with(&k, &suffix) || !has_block(&k, &obj) {
        return None;
    }
    proof {
        reveal_strlit("_q#");
        reveal_strlit("_obj_");
    }
    let i = match find_block(&k, &qmark) {
        Some(i) => i,
        None => return None,
    };
    assert(is_first_block(k@, qmark@, i as int));
    assert(qmark@.len() == 3);
    assert(i + 3 <= k@.len());
    assert(k@.len() == k.len());
    let tail = slice_chars(&k, i + 3, k.len());
    proof {
        assert(tail@ == k@.skip(i + 3));
    }
    let j = match find_block(&tail, &obj) {
        Some(j) => j,
        None => return None,
    };
    let mission = slice_chars(&k, 0, i);
    let quest_id = slice_chars(&k, 0, i + 3 + j);
    let ordinal = slice_chars(&tail, 0, j);
    proof {
        assert(mission@ == k@.take(i as int));
        assert(quest_id@ == k@.take(i + 3 + j));
        assert(ordinal@ == tail@.take(j as int));
    }
    let numeric = parse_u32(&ordinal);
    let mut objective_keys: Vec<String> = Vec::new();
    objective_keys.push(string_from_chars(ordinal.as_slice()));
    Some((
        string_from_chars(mission.as_slice()),
        QuestDefinition {
            quest_id: string_from_chars(quest_id.as_slice()),
            ordinal_key: string_from_chars(ordinal.as_slice()),
            numeric_ordinal: numeric,
            objective_keys,
        },
    ))
}

/// The mission a `<mission id>_name` key names.
pub open spec fn name_target(k: Seq<char>) -> Option<Seq<char>> {
    if has_suffix(k, "_name"@) {
        let m = k.take(k.len() - 5);
        if has_prefix(m, "mission_"@) {
            Some(m)
        } else {
            None
        }
    } else {
        None
    }
}

/// The mission a `<mission id>_description` key describes (not a quest's description).
pub open spec fn desc_target(k: Seq<char>) -> Option<Seq<char>> {
    if !has_suffix(k, "_name"@) && has_suffix(k, "_description"@) {
        let m = k.take(k.len() - 12);
        if has_prefix(m, "mission_"@) && !contains_block(m, "_q#"@) {
            Some(m)
        } else {
            None
        }
    } else {
        None
    }
}

/// The quest a key describes, when it is neither a name nor a mission description key.
pub open spec fn quest_target(k: Seq<char>) -> Option<(Seq<char>, Seq<char>, Seq<char>)> {
    if has_suffix(k, "_name"@) || desc_target(k) is Some {
        None
    } else {
        quest_key_parts(k)
    }
}

/// The mission a key contributes to, if any.
pub open spec fn target_mission(k: Seq<char>) -> Option<Seq<char>> {
    match name_target(k) {
        Some(m) => Some(m),
        None => match desc_target(k) {
            Some(m) => Some(m),
            None => match quest_target(k) {
                Some(p) => Some(p.0),
                None => None,
            },
        },
    }
}

/// Some key of `keys` is the description key of mission `id`.
pub open spec fn has_desc_key(keys: Seq<Seq<char>>, id: Seq<char>) -> bool {
    exists|j: int| 0 <= j < keys.len() && desc_target(#[trigger] keys[j]) == Some(id)
}

/// The first key of `keys` that contributes to mission `id` is one of its quest keys
/// (a mission first met through a quest gets its description key at once).
pub open spec fn opened_by_quest(keys: Seq<Seq<char>>, id: Seq<char>) -> bool {
    exists|j: int|
        0 <= j < keys.len() && target_mission(#[trigger] keys[j]) == Some(id) && quest_target(keys[j]) is Some
            && forall|i: int| 0 <= i < j ==> target_mission(#[trigger] keys[i]) != Some(id)
}

/// Key `k` yields quest `q` of mission `id`.
pub open spec fn yields_quest(k: Seq<char>, id: Seq<char>, q: QuestDefinition) -> bool {
    quest_target(k) matches Some(p) && p.0 == id && quest_from_parts(q, p.1, p.2)
}

/// The id of the quest of mission `id` that key `k` describes, if any.
pub open spec fn quest_id_for(k: Seq<char>, id: Seq<char>) -> Option<Seq<char>> {
    match quest_target(k) {
        Some(p) => if p.0 == id {
            Some(p.1)
        } else {
            None
        },
        None => None,
    }
}

/// `a` is ordered before `b` by `None < Some`, then by value.
pub open spec fn opt_lt(a: Option<u32>, b: Option<u32>) -> bool {
    match (a, b) {
        (None, Some(_)) => true,
        (Some(x), Some(y)) => x < y,
        _ => false,
    }
}

/// Play order of quests: by numeric ordinal, then ordinal text, then quest id.
pub open spec fn quest_before(a: QuestDefinition, b: QuestDefinition) -> bool {
    opt_lt(a.numeric_ordinal, b.numeric_ordinal) || (a.numeric_ordinal == b.numeric_ordinal && (
    seq_lt(a.ordinal_key@, b.ordinal_key@) || (a.ordinal_key@ == b.ordinal_key@ && seq_lt(
        a.quest_id@,
        b.quest_id@,
    ))))
}

/// The quests of mission `id` are exactly those its keys yield, once each, in play order.
pub open spec fn quests_ok(keys: Seq<Seq<char>>, id: Seq<char>, qs: Seq<QuestDefinition>) -> bool {
    &&& forall|a: int, b: int| 0 <= a < b < qs.len() ==> quest_before(#[trigger] qs[a], #[trigger] qs[b])
    &&& forall|a: int, b: int| 0 <= a < b < qs.len() ==> (#[trigger] qs[a]).quest_id@ != (#[trigger] qs[b]).quest_id@
    &&& forall|a: int| 0 <= a < qs.len() ==> exists|j: int| 0 <= j < keys.len() && yields_quest(#[trigger] keys[j], id, #[trigger] qs[a])
    &&& forall|j: int|
        0 <= j < keys.len() && (#[trigger] quest_id_for(keys[j], id)) is Some ==> exists|a: int|
            0 <= a < qs.len() && (#[trigger] qs[a]).quest_id@ == quest_id_for(keys[j], id).unwrap()
}

/// The mission definition `d` is the one `keys` describe for its id.
pub open spec fn mission_ok(keys: Seq<Seq<char>>, d: MissionDefinition) -> bool {
    let id = d.mission_id@;
    &&& kind_of(d.kind, id)
    &&& d.name_key@ == id + "_name"@
    &&& match d.description_key {
        Some(x) => x@ == id + "_description"@ && (has_desc_key(keys, id) || opened_by_quest(keys, id)),
        None => !has_desc_key(keys, id) && !opened_by_quest(keys, id),
    }
    &&& quests_ok(keys, id, d.quests@)
}

/// `ms` is the mission catalog of `keys`: one definition per mission some key
/// contributes to, each as `keys` describe it.
pub open spec fn is_catalog(keys: Seq<Seq<char>>, ms: Seq<MissionDefinition>) -> bool {
    &&& forall|a: int, b: int| 0 <= a < b < ms.len() ==> (#[trigger] ms[a]).mission_id@ != (#[trigger] ms[b]).mission_id@
    &&& forall|a: int| 0 <= a < ms.len() ==> exists|j: int| 0 <= j < keys.len() && target_mission(#[trigger] keys[j]) == Some((#[trigger] ms[a]).mission_id@)
    &&& forall|j: int| 0 <= j < keys.len() && (#[trigger] target_mission(keys[j])) is Some ==> exists|a: int|
        0 <= a < ms.len() && (#[trigger] ms[a]).mission_id@ == target_mission(keys[j]).unwrap()
    &&& forall|a: int| 0 <= a < ms.len() ==> mission_ok(keys, #[trigger] ms[a])
}

/// `t` holds a string with text `v`.
pub open spec fn text_is(t: Option<String>, v: Seq<char>) -> bool {
    t matches Some(x) && x@ == v
}

/// A key that neither describes mission `id` nor yields one of its quests, and is not
/// the first key met for it, leaves its definition as it was.
#[verifier::spinoff_prover]
#[verifier::rlimit(40)]
proof fn lemma_mission_ok_push(pre: Seq<Seq<char>>, k: Seq<char>, d: MissionDefinition)
    requires
        mission_ok(pre, d),
        desc_target(k) != Some(d.mission_id@),
        quest_id_for(k, d.mission_id@) is None,
        target_mission(k) == Some(d.mission_id@) ==> exists|j: int|
            0 <= j < pre.len() && target_mission(#[trigger] pre[j]) == Some(d.mission_id@),
    ensures
        mission_ok(pre.push(k), d),
{
    let id = d.mission_id@;
    let keys = pre.push(k);
    assert forall|j: int| 0 <= j < pre.len() implies #[trigger] keys[j] == pre[j] by {}
    assert(keys[pre.len() as int] == k);
    assert(has_desc_key(keys, id) == has_desc_key(pre, id)) by {
        if has_desc_key(keys, id) {
            let j = choose|j: int| 0 <= j < keys.len() && desc_target(#[trigger] keys[j]) == Some(id);
            assert(j < pre.len());
            assert(desc_target(pre[j]) == Some(id));
        }
        if has_desc_key(pre, id) {
            let j = choose|j: int| 0 <= j < pre.len() && desc_target(#[trigger] pre[j]) == Some(id);
            assert(desc_target(keys[j]) == Some(id));
        }
    }
    assert(opened_by_quest(keys, id) == opened_by_quest(pre, id)) by {
        if opened_by_quest(keys, id) {
            let j = choose|j: int|
                0 <= j < keys.len() && target_mission(#[trigger] keys[j]) == Some(id) && quest_target(keys[j]) is Some
                    && forall|i: int| 0 <= i < j ==> target_mission(#[trigger] keys[i]) != Some(id);
            if j == pre.len() {
                assert(quest_id_for(k, id) is Some);
            }
            assert forall|i: int| 0 <= i < j implies target_mission(#[trigger] pre[i]) != Some(id) by {
                assert(keys[i] == pre[i]);
            }
            assert(target_mission(pre[j]) == Some(id) && quest_target(pre[j]) is Some);
        }
        if opened_by_quest(pre, id) {
            let j = choose|j: int|
                0 <= j < pre.len() && target_mission(#[trigger] pre[j]) == Some(id) && quest_target(pre[j]) is Some
                    && forall|i: int| 0 <= i < j ==> target_mission(#[trigger] pre[i]) != Some(id);
            assert forall|i: int| 0 <= i < j implies target_mission(#[trigger] keys[i]) != Some(id) by {
                assert(keys[i] == pre[i]);
            }
            assert(target_mission(keys[j]) == Some(id) && quest_target(keys[j]) is Some);
        }
    }
    let qs = d.quests@;
    assert forall|a: int| 0 <= a < qs.len() implies exists|j: int| 0 <= j < keys.len() && yields_quest(#[trigger] keys[j], id, #[trigger] qs[a]) by {
        let j = choose|j: int| 0 <= j < pre.len() && yields_quest(#[trigger] pre[j], id, #[trigger] qs[a]);
        assert(keys[j] == pre[j]);
    }
    assert forall|j: int|
        0 <= j < keys.len() && (#[trigger] quest_id_for(keys[j], id)) is Some implies exists|a: int|
            0 <= a < qs.len() && (#[trigger] qs[a]).quest_id@ == quest_id_for(keys[j], id).unwrap() by {
        assert(j < pre.len());
        assert(keys[j] == pre[j]);
        assert(quest_id_for(pre[j], id) is Some);
    }
}

/// A catalog stays one when a key contributing to no mission is added.
proof fn lemma_catalog_unrelated(pre: Seq<Seq<char>>, k: Seq<char>, ms: Seq<MissionDefinition>)
    requires
        is_catalog(pre, ms),
        target_mission(k) is None,
    ensures
        is_catalog(pre.push(k), ms),
{
    let keys = pre.push(k);
    assert forall|j: int| 0 <= j < pre.len() implies #[trigger] keys[j] == pre[j] by {}
    assert forall|a: int| 0 <= a < ms.len() implies mission_ok(keys, #[trigger] ms[a]) by {
        lemma_mission_ok_push(pre, k, ms[a]);
    }
    assert forall|a: int| 0 <= a < ms.len() implies exists|j: int|
        0 <= j < keys.len() && target_mission(#[trigger] keys[j]) == Some((#[trigger] ms[a]).mission_id@) by {
        let j = choose|j: int| 0 <= j < pre.len() && target_mission(#[trigger] pre[j]) == Some(ms[a].mission_id@);
        assert(keys[j] == pre[j]);
    }
    assert forall|j: int| 0 <= j < keys.len() && (#[trigger] target_mission(keys[j])) is Some implies exists|a: int|
        0 <= a < ms.len() && (#[trigger] ms[a]).mission_id@ == target_mission(keys[j]).unwrap() by {
        assert(j < pre.len());
        assert(target_mission(pre[j]) is Some);
    }
}

/// A catalog stays one when a key for mission `ms[a]` is added and that definition
/// becomes `d2`, correct for the longer key list.
#[verifier::spinoff_prover]
#[verifier::rlimit(40)]
proof fn lemma_catalog_update(pre: Seq<Seq<char>>, k: Seq<char>, ms: Seq<MissionDefinition>, a: int, d2: MissionDefinition)
    requires
        is_catalog(pre, ms),
        0 <= a < ms.len(),
        target_mission(k) == Some(ms[a].mission_id@),
        d2.mission_id@ == ms[a].mission_id@,
        mission_ok(pre.push(k), d2),
    ensures
        is_catalog(pre.push(k), ms.update(a, d2)),
{
    let keys = pre.push(k);
    let ms2 = ms.update(a, d2);
    assert forall|j: int| 0 <= j < pre.len() implies #[trigger] keys[j] == pre[j] by {}
    assert forall|b: int| 0 <= b < ms2.len() implies (#[trigger] ms2[b]).mission_id@ == ms[b].mission_id@ by {}
    assert forall|b: int| 0 <= b < ms2.len() implies mission_ok(keys, #[trigger] ms2[b]) by {
        if b != a {
            assert(ms2[b] == ms[b]);
            assert(ms[b].mission_id@ != ms[a].mission_id@);
            lemma_mission_ok_push(pre, k, ms[b]);
        }
    }
    assert forall|b1: int, b2: int| 0 <= b1 < b2 < ms2.len() implies (#[trigger] ms2[b1]).mission_id@ != (#[trigger] ms2[b2]).mission_id@ by {
        assert(ms2[b1].mission_id@ == ms[b1].mission_id@);
        assert(ms2[b2].mission_id@ == ms[b2].mission_id@);
    }
    assert forall|b: int| 0 <= b < ms2.len() implies exists|j: int|
        0 <= j < keys.len() && target_mission(#[trigger] keys[j]) == Some((#[trigger] ms2[b]).mission_id@) by {
        let j = choose|j: int| 0 <= j < pre.len() && target_mission(#[trigger] pre[j]) == Some(ms[b].mission_id@);
        assert(keys[j] == pre[j]);
        assert(ms2[b].mission_id@ == ms[b].mission_id@);
    }
    assert forall|j: int| 0 <= j < keys.len() && (#[trigger] target_mission(keys[j])) is Some implies exists|b: int|
        0 <= b < ms2.len() && (#[trigger] ms2[b]).mission_id@ == target_mission(keys[j]).unwrap() by {
        if j < pre.len() {
            assert(target_mission(pre[j]) is Some);
            let b = choose|b: int| 0 <= b < ms.len() && (#[trigger] ms[b]).mission_id@ == target_mission(pre[j]).unwrap();
            assert(ms2[b].mission_id@ == ms[b].mission_id@);
        } else {
            assert(ms2[a].mission_id@ == ms[a].mission_id@);
        }
    }
}

/// A catalog stays one when a key for a mission not in it yet is added together with
/// that mission's definition `d2`, correct for the longer key list.
#[verifier::spinoff_prover]
#[verifier::rlimit(40)]
proof fn lemma_catalog_append(pre: Seq<Seq<char>>, k: Seq<char>, ms: Seq<MissionDefinition>, d2: MissionDefinition)
    requires
        is_catalog(pre, ms),
        target_mission(k) == Some(d2.mission_id@),
        forall|b: int| 0 <= b < ms.len() ==> (#[trigger] ms[b]).mission_id@ != d2.mission_id@,
        mission_ok(pre.push(k), d2),
    ensures
        is_catalog(pre.push(k), ms.push(d2)),
{
    let keys = pre.push(k);
    let ms2 = ms.push(d2);
    assert forall|j: int| 0 <= j < pre.len() implies #[trigger] keys[j] == pre[j] by {}
    assert forall|b: int| 0 <= b < ms.len() implies #[trigger] ms2[b] == ms[b] by {}
    assert(ms2[ms.len() as int] == d2);
    assert forall|b: int| 0 <= b < ms2.len() implies mission_ok(keys, #[trigger] ms2[b]) by {
        if b < ms.len() {
            lemma_mission_ok_push(pre, k, ms[b]);
        }
    }
    assert forall|b: int| 0 <= b < ms2.len() implies exists|j: int|
        0 <= j < keys.len() && target_mission(#[trigger] keys[j]) == Some((#[trigger] ms2[b]).mission_id@) by {
        if b < ms.len() {
            let j = choose|j: int| 0 <= j < pre.len() && target_mission(#[trigger] pre[j]) == Some(ms[b].mission_id@);
            assert(keys[j] == pre[j]);
        } else {
            assert(keys[pre.len() as int] == k);
        }
    }
    assert forall|j: int| 0 <= j < keys.len() && (#[trigger] target_mission(keys[j])) is Some implies exists|b: int|
        0 <= b < ms2.len() && (#[trigger] ms2[b]).mission_id@ == target_mission(keys[j]).unwrap() by {
        if j < pre.len() {
            assert(target_mission(pre[j]) is Some);
            let b = choose|b: int| 0 <= b < ms.len() && (#[trigger] ms[b]).mission_id@ == target_mission(pre[j]).unwrap();
            assert(ms2[b] == ms[b]);
        } else {
            assert(keys[j] == k);
            assert(ms2[ms.len() as int].mission_id@ == d2.mission_id@);
        }
    }
}

/// No key of a catalog's key list contributes to a mission missing from the catalog.
proof fn lemma_fresh_mission(pre: Seq<Seq<char>>, ms: Seq<MissionDefinition>, m: Seq<char>)
    requires
        is_catalog(pre, ms),
        forall|b: int| 0 <= b < ms.len() ==> (#[trigger] ms[b]).mission_id@ != m,
    ensures
        forall|j: int| 0 <= j < pre.len() ==> target_mission(#[trigger] pre[j]) != Some(m),
        !has_desc_key(pre, m),
        !opened_by_quest(pre, m),
{
    assert forall|j: int| 0 <= j < pre.len() implies target_mission(#[trigger] pre[j]) != Some(m) by {
        if target_mission(pre[j]) == Some(m) {
            let b = choose|b: int| 0 <= b < ms.len() && (#[trigger] ms[b]).mission_id@ == target_mission(pre[j]).unwrap();
        }
    }
    if has_desc_key(pre, m) {
        let j = choose|j: int| 0 <= j < pre.len() && desc_target(#[trigger] pre[j]) == Some(m);
        assert(target_mission(pre[j]) == Some(m));
    }
}

proof fn lemma_quest_before_transitive(a: QuestDefinition, b: QuestDefinition, c: QuestDefinition)
    requires
        quest_before(a, b),
        quest_before(b, c),
    ensures
        quest_before(a, c),
{
    lemma_seq_lt_irreflexive(a.ordinal_key@);
    lemma_seq_lt_irreflexive(b.ordinal_key@);
    if a.numeric_ordinal == b.numeric_ordinal && b.numeric_ordinal == c.numeric_ordinal {
        if seq_lt(a.ordinal_key@, b.ordinal_key@) && seq_lt(b.ordinal_key@, c.ordinal_key@) {
            lemma_seq_lt_transitive(a.ordinal_key@, b.ordinal_key@, c.ordinal_key@);
        }
        if a.ordinal_key@ == b.ordinal_key@ && b.ordinal_key@ == c.ordinal_key@ {
            lemma_seq_lt_transitive(a.quest_id@, b.quest_id@, c.quest_id@);
        }
    }
}

proof fn lemma_quest_before_total(a: QuestDefinition, b: QuestDefinition)
    requires
        a.quest_id@ != b.quest_id@,
    ensures
        quest_before(a, b) || quest_before(b, a),
{
    lemma_seq_lt_total(a.ordinal_key@, b.ordinal_key@);
    lemma_seq_lt_total(a.quest_id@, b.quest_id@);
}

/// Whether `a` comes before `b` in play order.
fn quest_lt(a: &QuestDefinition, b: &QuestDefinition) -> (r: bool)
    ensures
        r == quest_before(*a, *b),
{
    match (a.numeric_ordinal, b.numeric_ordinal) {
        (None, Some(_)) => return true,
        (Some(_), None) => return false,
        (Some(x), Some(y)) => {
            if x < y {
                return true;
            }
            if x > y {
                return false;
            }
        },
        (None, None) => {},
    }
    let ao = str_chars(a.ordinal_key.as_str());
    let bo = str_chars(b.ordinal_key.as_str());
    if chars_lt(&ao, &bo) {
        return true;
    }
    if !chars_eq(&ao, &bo) {
        return false;
    }
    let aq = str_chars(a.quest_id.as_str());
    let bq = str_chars(b.quest_id.as_str());
    chars_lt(&aq, &bq)
}

/// The quests are in strict play order, each quest id once.
pub open spec fn quests_sorted(qs: Seq<QuestDefinition>) -> bool {
    &&& forall|a: int, b: int| 0 <= a < b < qs.len() ==> quest_before(#[trigger] qs[a], #[trigger] qs[b])
    &&& forall|a: int, b: int| 0 <= a < b < qs.len() ==> (#[trigger] qs[a]).quest_id@ != (#[trigger] qs[b]).quest_id@
}

/// Inserts `q`, whose quest id is new, at its place in play order.
fn insert_quest(qs: &mut Vec<QuestDefinition>, q: QuestDefinition)
    requires
        quests_sorted(old(qs)@),
        forall|a: int| 0 <= a < old(qs)@.len() ==> (#[trigger] old(qs)@[a]).quest_id@ != q.quest_id@,
    ensures
        quests_sorted(final(qs)@),
        exists|p: int| 0 <= p <= old(qs)@.len() && final(qs)@ == old(qs)@.take(p).push(q) + old(qs)@.skip(p),
{
    let ghost old_qs = qs@;
    let mut p: usize = 0;
    while p < qs.len()
        invariant_except_break
            p <= qs@.len(),
            qs@ == old_qs,
            forall|a: int| 0 <= a < p ==> quest_before(#[trigger] old_qs[a], q),
        ensures
            p <= qs@.len(),
            qs@ == old_qs,
            forall|a: int| 0 <= a < p ==> quest_before(#[trigger] old_qs[a], q),
            p < qs@.len() ==> !quest_before(old_qs[p as int], q),
        decreases qs.len() - p,
    {
        if !quest_lt(&qs[p], &q) {
            break;
        }
        p = p + 1;
    }
    proof {
        assert forall|a: int| p <= a < old_qs.len() implies quest_before(q, #[trigger] old_qs[a]) by {
            lemma_quest_before_total(old_qs[p as int], q);
            if a > p {
                lemma_quest_before_transitive(q, old_qs[p as int], old_qs[a]);
            }
        }
    }
    qs.insert(p, q);
    proof {
        let nq = qs@;
        assert(nq =~= old_qs.take(p as int).push(q) + old_qs.skip(p as int));
        assert forall|a: int, b: int| 0 <= a < b < nq.len() implies quest_before(#[trigger] nq[a], #[trigger] nq[b]) by {
            if b < p {
                assert(nq[a] == old_qs[a] && nq[b] == old_qs[b]);
            } else if b == p {
                assert(nq[a] == old_qs[a]);
            } else if a == p {
                assert(nq[b] == old_qs[b - 1]);
            } else if a < p {
                assert(nq[a] == old_qs[a] && nq[b] == old_qs[b - 1]);
                lemma_quest_before_transitive(old_qs[a], q, old_qs[b - 1]);
            } else {
                assert(nq[a] == old_qs[a - 1] && nq[b] == old_qs[b - 1]);
            }
        }
        assert forall|a: int, b: int| 0 <= a < b < nq.len() implies (#[trigger] nq[a]).quest_id@ != (#[trigger] nq[b]).quest_id@ by {
            if b < p {
                assert(nq[a] == old_qs[a] && nq[b] == old_qs[b]);
            } else if b == p {
                assert(nq[a] == old_qs[a]);
            } else if a == p {
                assert(nq[b] == old_qs[b - 1]);
            } else if a < p {
                assert(nq[a] == old_qs[a] && nq[b] == old_qs[b - 1]);
            } else {
                assert(nq[a] == old_qs[a - 1] && nq[b] == old_qs[b - 1]);
            }
        }
    }
}

proof fn lemma_split_suffix(k: Seq<char>, sfx: Seq<char>)
    requires
        has_suffix(k, sfx),
    ensures
        k == k.take(k.len() - sfx.len()) + sfx,
{
    assert(k =~= k.take(k.len() - sfx.len()) + k.skip(k.len() - sfx.len()));
}

/// Definition `d2` of a mission first met through key `k` is the one the longer key
/// list describes.
#[verifier::spinoff_prover]
#[verifier::rlimit(40)]
proof fn lemma_new_mission_ok(pre: Seq<Seq<char>>, ms: Seq<MissionDefinition>, k: Seq<char>, d2: MissionDefinition)
    requires
        is_catalog(pre, ms),
        forall|b: int| 0 <= b < ms.len() ==> (#[trigger] ms[b]).mission_id@ != d2.mission_id@,
        target_mission(k) == Some(d2.mission_id@),
        kind_of(d2.kind, d2.mission_id@),
        d2.name_key@ == d2.mission_id@ + "_name"@,
        name_target(k) is Some ==> d2.description_key is None && d2.quests@.len() == 0,
        desc_target(k) is Some ==> text_is(d2.description_key, d2.mission_id@ + "_description"@)
            && d2.quests@.len() == 0,
        quest_target(k) is Some ==> text_is(d2.description_key, d2.mission_id@ + "_description"@)
            && d2.quests@.len() == 1 && quest_from_parts(d2.quests@[0], quest_target(k).unwrap().1, quest_target(k).unwrap().2),
    ensures
        mission_ok(pre.push(k), d2),
{
    let m = d2.mission_id@;
    let keys = pre.push(k);
    lemma_fresh_mission(pre, ms, m);
    assert forall|j: int| 0 <= j < pre.len() implies #[trigger] keys[j] == pre[j] by {}
    assert(keys[pre.len() as int] == k);
    assert forall|j: int| 0 <= j < pre.len() implies quest_id_for(#[trigger] keys[j], m) is None && desc_target(keys[j]) != Some(m) by {
        assert(target_mission(pre[j]) != Some(m));
    }
    if name_target(k) is Some {
        assert(!has_desc_key(keys, m));
        if opened_by_quest(keys, m) {
            let j = choose|j: int|
                0 <= j < keys.len() && target_mission(#[trigger] keys[j]) == Some(m) && quest_target(keys[j]) is Some
                    && forall|i: int| 0 <= i < j ==> target_mission(#[trigger] keys[i]) != Some(m);
            assert(j == pre.len());
        }
    } else if desc_target(k) is Some {
        assert(has_desc_key(keys, m));
    } else {
        let p = quest_target(k).unwrap();
        assert(opened_by_quest(keys, m)) by {
            assert forall|i: int| 0 <= i < pre.len() implies target_mission(#[trigger] keys[i]) != Some(m) by {}
        }
        let qs = d2.quests@;
        assert(yields_quest(keys[pre.len() as int], m, qs[0]));
        assert forall|j: int|
            0 <= j < keys.len() && (#[trigger] quest_id_for(keys[j], m)) is Some implies exists|a: int|
                0 <= a < qs.len() && (#[trigger] qs[a]).quest_id@ == quest_id_for(keys[j], m).unwrap() by {
            assert(j == pre.len());
            assert(qs[0].quest_id@ == p.1);
        }
    }
}

/// Definition `d2`, `d` with its description key set from description key `k`, is the
/// one the longer key list describes.
proof fn lemma_desc_key_ok(pre: Seq<Seq<char>>, k: Seq<char>, d: MissionDefinition, d2: MissionDefinition)
    requires
        mission_ok(pre, d),
        desc_target(k) == Some(d.mission_id@),
        d2 == (MissionDefinition { description_key: d2.description_key, ..d }),
        text_is(d2.description_key, k),
    ensures
        mission_ok(pre.push(k), d2),
{
    let m = d.mission_id@;
    let keys = pre.push(k);
    assert forall|j: int| 0 <= j < pre.len() implies #[trigger] keys[j] == pre[j] by {}
    assert(keys[pre.len() as int] == k);
    reveal_strlit("_description");
    lemma_split_suffix(k, "_description"@);
    assert(has_desc_key(keys, m));
    let qs = d.quests@;
    assert forall|a: int| 0 <= a < qs.len() implies exists|j: int| 0 <= j < keys.len() && yields_quest(#[trigger] keys[j], m, #[trigger] qs[a]) by {
        let j = choose|j: int| 0 <= j < pre.len() && yields_quest(#[trigger] pre[j], m, #[trigger] qs[a]);
        assert(keys[j] == pre[j]);
    }
    assert forall|j: int|
        0 <= j < keys.len() && (#[trigger] quest_id_for(keys[j], m)) is Some implies exists|a: int|
            0 <= a < qs.len() && (#[trigger] qs[a]).quest_id@ == quest_id_for(keys[j], m).unwrap() by {
        assert(j < pre.len());
        assert(quest_id_for(pre[j], m) is Some);
    }
}

/// Quest key `k` of a known mission whose quest is already listed changes nothing.
#[verifier::spinoff_prover]
#[verifier::rlimit(40)]
proof fn lemma_known_quest_ok(pre: Seq<Seq<char>>, k: Seq<char>, d: MissionDefinition, b: int)
    requires
        mission_ok(pre, d),
        quest_id_for(k, d.mission_id@) is Some,
        0 <= b < d.quests@.len(),
        d.quests@[b].quest_id@ == quest_id_for(k, d.mission_id@).unwrap(),
        exists|j: int| 0 <= j < pre.len() && target_mission(#[trigger] pre[j]) == Some(d.mission_id@),
    ensures
        mission_ok(pre.push(k), d),
{
    let m = d.mission_id@;
    let keys = pre.push(k);
    assert forall|j: int| 0 <= j < pre.len() implies #[trigger] keys[j] == pre[j] by {}
    assert(keys[pre.len() as int] == k);
    assert(has_desc_key(keys, m) == has_desc_key(pre, m)) by {
        if has_desc_key(keys, m) {
            let j = choose|j: int| 0 <= j < keys.len() && desc_target(#[trigger] keys[j]) == Some(m);
            assert(j < pre.len());
            assert(desc_target(pre[j]) == Some(m));
        }
        if has_desc_key(pre, m) {
            let j = choose|j: int| 0 <= j < pre.len() && desc_target(#[trigger] pre[j]) == Some(m);
            assert(desc_target(keys[j]) == Some(m));
        }
    }
    assert(opened_by_quest(keys, m) == opened_by_quest(pre, m)) by {
        let w = choose|j: int| 0 <= j < pre.len() && target_mission(#[trigger] pre[j]) == Some(m);
        if opened_by_quest(keys, m) {
            let j = choose|j: int|
                0 <= j < keys.len() && target_mission(#[trigger] keys[j]) == Some(m) && quest_target(keys[j]) is Some
                    && forall|i: int| 0 <= i < j ==> target_mission(#[trigger] keys[i]) != Some(m);
            if j == pre.len() {
                assert(target_mission(keys[w]) == Some(m));
            }
            assert forall|i: int| 0 <= i < j implies target_mission(#[trigger] pre[i]) != Some(m) by {
                assert(keys[i] == pre[i]);
            }
            assert(target_mission(pre[j]) == Some(m) && quest_target(pre[j]) is Some);
        }
        if opened_by_quest(pre, m) {
            let j = choose|j: int|
                0 <= j < pre.len() && target_mission(#[trigger] pre[j]) == Some(m) && quest_target(pre[j]) is Some
                    && forall|i: int| 0 <= i < j ==> target_mission(#[trigger] pre[i]) != Some(m);
            assert forall|i: int| 0 <= i < j implies target_mission(#[trigger] keys[i]) != Some(m) by {
                assert(keys[i] == pre[i]);
            }
            assert(target_mission(keys[j]) == Some(m) && quest_target(keys[j]) is Some);
        }
    }
    let qs = d.quests@;
    assert forall|a: int| 0 <= a < qs.len() implies exists|j: int| 0 <= j < keys.len() && yields_quest(#[trigger] keys[j], m, #[trigger] qs[a]) by {
        let j = choose|j: int| 0 <= j < pre.len() && yields_quest(#[trigger] pre[j], m, #[trigger] qs[a]);
        assert(keys[j] == pre[j]);
    }
    assert forall|j: int|
        0 <= j < keys.len() && (#[trigger] quest_id_for(keys[j], m)) is Some implies exists|a: int|
            0 <= a < qs.len() && (#[trigger] qs[a]).quest_id@ == quest_id_for(keys[j], m).unwrap() by {
        if j < pre.len() {
            assert(quest_id_for(pre[j], m) is Some);
        } else {
            assert(qs[b].quest_id@ == quest_id_for(keys[j], m).unwrap());
        }
    }
}

/// Quest key `k` of a known mission whose quest is new adds that quest in play order.
#[verifier::spinoff_prover]
#[verifier::rlimit(40)]
proof fn lemma_new_quest_ok(pre: Seq<Seq<char>>, k: Seq<char>, d: MissionDefinition, d2: MissionDefinition, q: QuestDefinition, pos: int)
    requires
        mission_ok(pre, d),
        quest_id_for(k, d.mission_id@) is Some,
        quest_from_parts(q, quest_target(k).unwrap().1, quest_target(k).unwrap().2),
        exists|j: int| 0 <= j < pre.len() && target_mission(#[trigger] pre[j]) == Some(d.mission_id@),
        0 <= pos <= d.quests@.len(),
        d2 == (MissionDefinition { quests: d2.quests, ..d }),
        d2.quests@ == d.quests@.take(pos).push(q) + d.quests@.skip(pos),
        quests_sorted(d2.quests@),
    ensures
        mission_ok(pre.push(k), d2),
{
    let m = d.mission_id@;
    let keys = pre.push(k);
    assert forall|j: int| 0 <= j < pre.len() implies #[trigger] keys[j] == pre[j] by {}
    assert(keys[pre.len() as int] == k);
    assert(has_desc_key(keys, m) == has_desc_key(pre, m)) by {
        if has_desc_key(keys, m) {
            let j = choose|j: int| 0 <= j < keys.len() && desc_target(#[trigger] keys[j]) == Some(m);
            assert(j < pre.len());
            assert(desc_target(pre[j]) == Some(m));
        }
        if has_desc_key(pre, m) {
            let j = choose|j: int| 0 <= j < pre.len() && desc_target(#[trigger] pre[j]) == Some(m);
            assert(desc_target(keys[j]) == Some(m));
        }
    }
    assert(opened_by_quest(keys, m) == opened_by_quest(pre, m)) by {
        let w = choose|j: int| 0 <= j < pre.len() && target_mission(#[trigger] pre[j]) == Some(m);
        if opened_by_quest(keys, m) {
            let j = choose|j: int|
                0 <= j < keys.len() && target_mission(#[trigger] keys[j]) == Some(m) && quest_target(keys[j]) is Some
                    && forall|i: int| 0 <= i < j ==> target_mission(#[trigger] keys[i]) != Some(m);
            if j == pre.len() {
                assert(target_mission(keys[w]) == Some(m));
            }
            assert forall|i: int| 0 <= i < j implies target_mission(#[trigger] pre[i]) != Some(m) by {
                assert(keys[i] == pre[i]);
            }
            assert(target_mission(pre[j]) == Some(m) && quest_target(pre[j]) is Some);
        }
        if opened_by_quest(pre, m) {
            let j = choose|j: int|
                0 <= j < pre.len() && target_mission(#[trigger] pre[j]) == Some(m) && quest_target(pre[j]) is Some
                    && forall|i: int| 0 <= i < j ==> target_mission(#[trigger] pre[i]) != Some(m);
            assert forall|i: int| 0 <= i < j implies target_mission(#[trigger] keys[i]) != Some(m) by {
                assert(keys[i] == pre[i]);
            }
            assert(target_mission(keys[j]) == Some(m) && quest_target(keys[j]) is Some);
        }
    }
    let qs = d.quests@;
    let qs2 = d2.quests@;
    assert forall|a: int| 0 <= a < qs2.len() implies exists|j: int| 0 <= j < keys.len() && yields_quest(#[trigger] keys[j], m, #[trigger] qs2[a]) by {
        if a < pos {
            assert(qs2[a] == qs[a]);
            let j = choose|j: int| 0 <= j < pre.len() && yields_quest(#[trigger] pre[j], m, #[trigger] qs[a]);
            assert(keys[j] == pre[j]);
        } else if a == pos {
            assert(qs2[a] == q);
            assert(yields_quest(keys[pre.len() as int], m, qs2[a]));
        } else {
            assert(qs2[a] == qs[a - 1]);
            let j = choose|j: int| 0 <= j < pre.len() && yields_quest(#[trigger] pre[j], m, #[trigger] qs[a - 1]);
            assert(keys[j] == pre[j]);
        }
    }
    assert forall|j: int|
        0 <= j < keys.len() && (#[trigger] quest_id_for(keys[j], m)) is Some implies exists|a: int|
            0 <= a < qs2.len() && (#[trigger] qs2[a]).quest_id@ == quest_id_for(keys[j], m).unwrap() by {
        if j < pre.len() {
            assert(quest_id_for(pre[j], m) is Some);
            let a = choose|a: int| 0 <= a < qs.len() && (#[trigger] qs[a]).quest_id@ == quest_id_for(pre[j], m).unwrap();
            if a < pos {
                assert(qs2[a] == qs[a]);
            } else {
                assert(qs2[a + 1] == qs[a]);
            }
        } else {
            assert(qs2[pos] == q);
        }
    }
}

/// Position of the mission with id `id`.
fn find_mission(ms: &Vec<MissionDefinition>, id: &String) -> (r: Option<usize>)
    ensures
        match r {
            Some(a) => a < ms@.len() && ms@[a as int].mission_id@ == id@,
            None => forall|a: int| 0 <= a < ms@.len() ==> (#[trigger] ms@[a]).mission_id@ != id@,
        },
{
    let mut a: usize = 0;
    while a < ms.len()
        invariant
            a <= ms@.len(),
            forall|b: int| 0 <= b < a ==> (#[trigger] ms@[b]).mission_id@ != id@,
        decreases ms.len() - a,
    {
        if ms[a].mission_id == *id {
            return Some(a);
        }
        a = a + 1;
    }
    None
}

/// Position of the quest with id `id`.
fn find_quest(qs: &Vec<QuestDefinition>, id: &String) -> (r: Option<usize>)
    ensures
        match r {
            Some(a) => a < qs@.len() && qs@[a as int].quest_id@ == id@,
            None => forall|a: int| 0 <= a < qs@.len() ==> (#[trigger] qs@[a]).quest_id@ != id@,
        },
{
    let mut a: usize = 0;
    while a < qs.len()
        invariant
            a <= qs@.len(),
            forall|b: int| 0 <= b < a ==> (#[trigger] qs@[b]).quest_id@ != id@,
        decreases qs.len() - a,
    {
        if qs[a].quest_id == *id {
            return Some(a);
        }
        a = a + 1;
    }
    None
}

/// `m` followed by `suffix`, as a string.
fn with_suffix(m: &Vec<char>, suffix: &str) -> (s: String)
    ensures
        s@ == m@ + suffix@,
{
    let mut s = string_from_chars(m.as_slice());
    s.append(suffix);
    s
}

/// Folds one text-table key into the catalog.
#[verifier::rlimit(40)]
fn add_key(ms: &mut Vec<MissionDefinition>, key: &String, Ghost(pre): Ghost<Seq<Seq<char>>>)
    requires
        is_catalog(pre, old(ms)@),
    ensures
        is_catalog(pre.push(key@), final(ms)@),
{
    let k = str_chars(key.as_str());
    let name_sfx = str_chars("_name");
    let desc_sfx = str_chars("_description");
    let prefix = str_chars("mission_");
    let qmark = str_chars("_q#");
    proof {
        reveal_strlit("_name");
        reveal_strlit("_description");
    }
    if ends_with(&k, &name_sfx) {
        let m = slice_chars(&k, 0, k.len() - 5);
        if !starts_with(&m, &prefix) {
            proof {
                lemma_catalog_unrelated(pre, key@, ms@);
            }
            return;
        }
        let id = string_from_chars(m.as_slice());
        match find_mission(ms, &id) {
            Some(a) => {
                proof {
                    let d = ms@[a as int];
                    lemma_mission_ok_push(pre, key@, d);
                    lemma_catalog_update(pre, key@, ms@, a as int, d);
                    assert(ms@.update(a as int, d) == ms@);
                }
            },
            None => {
                let kind = MissionKind::from_mission_id(id.as_str());
                let d = MissionDefinition {
                    mission_id: id,
                    kind,
                    name_key: key.clone(),
                    description_key: None,
                    quests: Vec::new(),
                };
                proof {
                    lemma_split_suffix(key@, "_name"@);
                    lemma_new_mission_ok(pre, ms@, key@, d);
                    lemma_catalog_append(pre, key@, ms@, d);
                }
                ms.push(d);
            },
        }
        return;
    }
    if ends_with(&k, &desc_sfx) {
        let m = slice_chars(&k, 0, k.len() - 12);
        if starts_with(&m, &prefix) && !has_block(&m, &qmark) {
            let id = string_from_chars(m.as_slice());
            match find_mission(ms, &id) {
                Some(a) => {
                    let ghost old_ms = ms@;
                    let ghost d = ms@[a as int];
                    ms[a].description_key = Some(key.clone());
                    proof {
                        assert(ms@ == old_ms.update(a as int, ms@[a as int]));
                        lemma_desc_key_ok(pre, key@, d, ms@[a as int]);
                        lemma_catalog_update(pre, key@, old_ms, a as int, ms@[a as int]);
                    }
                },
                None => {
                    let kind = MissionKind::from_mission_id(id.as_str());
                    let name_key = with_suffix(&m, "_name");
                    let d = MissionDefinition {
                        mission_id: id,
                        kind,
                        name_key,
                        description_key: Some(key.clone()),
                        quests: Vec::new(),
                    };
                    proof {
                        lemma_split_suffix(key@, "_description"@);
                        lemma_new_mission_ok(pre, ms@, key@, d);
                        lemma_catalog_append(pre, key@, ms@, d);
                    }
                    ms.push(d);
                },
            }
            return;
        }
    }
    match parse_quest_key(key.as_str()) {
        None => {
            proof {
                lemma_catalog_unrelated(pre, key@, ms@);
            }
        },
        Some((mid, q)) => {
            match find_mission(ms, &mid) {
                Some(a) => match find_quest(&ms[a].quests, &q.quest_id) {
                    Some(b) => {
                        proof {
                            let d = ms@[a as int];
                            let j = choose|j: int| 0 <= j < pre.len() && target_mission(#[trigger] pre[j]) == Some(d.mission_id@);
                            lemma_known_quest_ok(pre, key@, d, b as int);
                            lemma_catalog_update(pre, key@, ms@, a as int, d);
                            assert(ms@.update(a as int, d) == ms@);
                        }
                    },
                    None => {
                        let ghost old_ms = ms@;
                        let ghost d = ms@[a as int];
                        let ghost qv = q;
                        insert_quest(&mut ms[a].quests, q);
                        proof {
                            assert(ms@ == old_ms.update(a as int, ms@[a as int]));
                            let pos = choose|p: int|
                                0 <= p <= d.quests@.len() && ms@[a as int].quests@ == d.quests@.take(p).push(qv) + d.quests@.skip(p);
                            let j = choose|j: int| 0 <= j < pre.len() && target_mission(#[trigger] pre[j]) == Some(d.mission_id@);
                            lemma_new_quest_ok(pre, key@, d, ms@[a as int], qv, pos);
                            lemma_catalog_update(pre, key@, old_ms, a as int, ms@[a as int]);
                        }
                    },
                },
                None => {
                    let m = str_chars(mid.as_str());
                    let kind = MissionKind::from_mission_id(mid.as_str());
                    let name_key = with_suffix(&m, "_name");
                    let description = with_suffix(&m, "_description");
                    let mut quests: Vec<QuestDefinition> = Vec::new();
                    quests.push(q);
                    let d = MissionDefinition {
                        mission_id: mid,
                        kind,
                        name_key,
                        description_key: Some(description),
                        quests,
                    };
                    proof {
                        lemma_new_mission_ok(pre, ms@, key@, d);
                        lemma_catalog_append(pre, key@, ms@, d);
                    }
                    ms.push(d);
                },
            }
        },
    }
}

/// The first definition in `ms` with id `id`.
pub open spec fn first_mission(ms: Seq<MissionDefinition>, id: Seq<char>) -> Option<MissionDefinition> {
    if exists|a: int| 0 <= a < ms.len() && (#[trigger] ms[a]).mission_id@ == id {
        Some(
            ms[choose|a: int|
                0 <= a < ms.len() && (#[trigger] ms[a]).mission_id@ == id && forall|b: int|
                    0 <= b < a ==> (#[trigger] ms[b]).mission_id@ != id],
        )
    } else {
        None
    }
}

proof fn lemma_first_mission(ms: Seq<MissionDefinition>, id: Seq<char>, a: int)
    requires
        0 <= a < ms.len(),
        ms[a].mission_id@ == id,
        forall|b: int| 0 <= b < a ==> (#[trigger] ms[b]).mission_id@ != id,
    ensures
        first_mission(ms, id) == Some(ms[a]),
{
    let c = choose|c: int|
        0 <= c < ms.len() && (#[trigger] ms[c]).mission_id@ == id && forall|b: int|
            0 <= b < c ==> (#[trigger] ms[b]).mission_id@ != id;
    assert(0 <= c < ms.len() && ms[c].mission_id@ == id && forall|b: int|
            0 <= b < c ==> (#[trigger] ms[b]).mission_id@ != id);
    if c < a {
        assert(ms[c].mission_id@ != id);
    } else if c > a {
        assert(ms[a].mission_id@ != id);
    }
}

/// The mission catalog: every mission named, described or given quests by the text
/// table, with its quests in play order.
#[derive(Debug, Clone)]
pub struct MissionAssets {
    missions: Vec<MissionDefinition>,
}

impl Default for MissionAssets {
    /// An empty catalog.
    fn default() -> (a: Self)
        ensures
            a.missions_view().len() == 0,
    {
        MissionAssets { missions: Vec::new() }
    }
}

impl MissionAssets {
    pub closed spec fn missions_view(&self) -> Seq<MissionDefinition> {
        self.missions@
    }

    /// A catalog holding exactly `missions`.
    pub fn from_missions(missions: Vec<MissionDefinition>) -> (a: Self)
        ensures
            a.missions_view() == missions@,
    {
        MissionAssets { missions }
    }

    /// Builds the catalog from the `mission_` keys of the text tables.
    pub fn from_keys(keys: &[String]) -> (a: Self)
        ensures
            is_catalog(keys@.map_values(|s: String| s@), a.missions_view()),
    {
        let ghost ks = keys@.map_values(|s: String| s@);
        let mut ms: Vec<MissionDefinition> = Vec::new();
        let mut i: usize = 0;
        proof {
            assert(ks.take(0) =~= Seq::<Seq<char>>::empty());
        }
        while i < keys.len()
            invariant
                i <= keys@.len(),
                ks == keys@.map_values(|s: String| s@),
                is_catalog(ks.take(i as int), ms@),
            decreases keys.len() - i,
        {
            proof {
                assert(ks.take(i + 1) == ks.take(i as int).push(keys@[i as int]@));
            }
            add_key(&mut ms, &keys[i], Ghost(ks.take(i as int)));
            i = i + 1;
        }
        proof {
            assert(ks.take(keys@.len() as int) == ks);
        }
        MissionAssets { missions: ms }
    }

    /// The first mission with id `id`.
    pub open spec fn spec_get(&self, id: Seq<char>) -> Option<MissionDefinition> {
        first_mission(self.missions_view(), id)
    }

    /// The first mission with id `mission_id`.
    pub fn get(&self, mission_id: &str) -> (r: Option<&MissionDefinition>)
        ensures
            match r {
                Some(d) => self.spec_get(mission_id@) == Some(*d) && d.mission_id@ == mission_id@,
                None => self.spec_get(mission_id@) is None,
            },
    {
        let id = mission_id.to_owned();
        let mut a: usize = 0;
        while a < self.missions.len()
            invariant
                a <= self.missions@.len(),
                id@ == mission_id@,
                forall|b: int| 0 <= b < a ==> (#[trigger] self.missions@[b]).mission_id@ != mission_id@,
            decreases self.missions.len() - a,
        {
            if self.missions[a].mission_id == id {
                proof {
                    lemma_first_mission(self.missions@, mission_id@, a as int);
                }
                return Some(&self.missions[a]);
            }
            a = a + 1;
        }
        None
    }

    /// Every mission, in catalog order.
    pub fn missions(&self) -> (s: &[MissionDefinition])
        ensures
            s@ == self.missions_view(),
    {
        self.missions.as_slice()
    }

    pub fn is_empty(&self) -> (b: bool)
        ensures
            b == (self.missions_view().len() == 0),
    {
        self.missions.len() == 0
    }
}

/// Some string of `v` has text `y`.
pub open spec fn holds(v: Seq<String>, y: Seq<char>) -> bool {
    exists|i: int| 0 <= i < v.len() && (#[trigger] v[i])@ == y
}

/// One of the first `n` text-table entries has key `x`.
pub open spec fn table_key_in(table: Seq<(String, Option<String>)>, n: int, x: Seq<char>) -> bool {
    exists|k: int| 0 <= k < n && (#[trigger] table[k]).0@ == x
}

/// One of the first `n` text-table entries has text id `x`.
pub open spec fn table_text_in(table: Seq<(String, Option<String>)>, n: int, x: Seq<char>) -> bool {
    exists|k: int| 0 <= k < n && text_is((#[trigger] table[k]).1, x)
}

/// The strings of `v` are pairwise different.
pub open spec fn distinct_texts(v: Seq<String>) -> bool {
    forall|a: int, b: int| 0 <= a < b < v.len() ==> (#[trigger] v[a])@ != (#[trigger] v[b])@
}

/// `x` is a mission key the tables offer: a text-table key or text id, or an i18n key,
/// that starts with `mission_`.
pub open spec fn offered_key(table: Seq<(String, Option<String>)>, i18n_keys: Seq<String>, x: Seq<char>) -> bool {
    has_prefix(x, "mission_"@) && (table_key_in(table, table.len() as int, x) || table_text_in(
        table,
        table.len() as int,
        x,
    ) || holds(i18n_keys, x))
}

/// Whether `s` holds a string with text `x`.
fn holds_text(s: &Vec<String>, x: &String) -> (b: bool)
    ensures
        b == holds(s@, x@),
{
    let mut i: usize = 0;
    while i < s.len()
        invariant
            i <= s@.len(),
            forall|k: int| 0 <= k < i ==> (#[trigger] s@[k])@ != x@,
        decreases s.len() - i,
    {
        if s[i] == *x {
            return true;
        }
        i = i + 1;
    }
    false
}

/// Appends `x` to `out` when it starts with `mission_` and is not there yet.
fn offer(out: &mut Vec<String>, x: &String)
    ensures
        forall|y: Seq<char>| #[trigger] holds(final(out)@, y) <==> (holds(old(out)@, y) || (y == x@ && has_prefix(x@, "mission_"@))),
        distinct_texts(old(out)@) ==> distinct_texts(final(out)@),
{
    let prefix = str_chars("mission_");
    let xc = str_chars(x.as_str());
    let ghost before = out@;
    if starts_with(&xc, &prefix) && !holds_text(out, x) {
        out.push(x.clone());
        proof {
            assert forall|y: Seq<char>| #[trigger] holds(out@, y) <==> (holds(before, y) || (y == x@ && has_prefix(x@, "mission_"@))) by {
                if holds(out@, y) {
                    let i = choose|i: int| 0 <= i < out@.len() && (#[trigger] out@[i])@ == y;
                    if i < before.len() {
                        assert(out@[i] == before[i]);
                    }
                }
                if holds(before, y) {
                    let i = choose|i: int| 0 <= i < before.len() && (#[trigger] before[i])@ == y;
                    assert(out@[i] == before[i]);
                }
                if y == x@ {
                    assert(out@[before.len() as int]@ == x@);
                }
            }
            assert forall|a: int, b: int| distinct_texts(before) && 0 <= a < b < out@.len() implies (#[trigger] out@[a])@ != (#[trigger] out@[b])@ by {
                if b == before.len() {
                    assert(out@[a] == before[a]);
                } else {
                    assert(out@[a] == before[a] && out@[b] == before[b]);
                }
            }
        }
    } else {
        proof {
            assert forall|y: Seq<char>| #[trigger] holds(out@, y) <==> (holds(before, y) || (y == x@ && has_prefix(x@, "mission_"@))) by {}
        }
    }
}

/// The distinct `mission_` keys offered by the text table (its keys and text ids)
/// and by the i18n tables' keys, in order of first appearance.
pub fn mission_keys(table: &[(String, Option<String>)], i18n_keys: &[String]) -> (out: Vec<String>)
    ensures
        forall|x: Seq<char>| #[trigger] holds(out@, x) <==> offered_key(table@, i18n_keys@, x),
        distinct_texts(out@),
{
    let mut out: Vec<String> = Vec::new();
    let mut j: usize = 0;
    while j < table.len()
        invariant
            j <= table@.len(),
            forall|x: Seq<char>| #[trigger] holds(out@, x) <==> (has_prefix(x, "mission_"@) && (table_key_in(table@, j as int, x)
                || table_text_in(table@, j as int, x))),
            distinct_texts(out@),
        decreases table.len() - j,
    {
        offer(&mut out, &table[j].0);
        match &table[j].1 {
            Some(t) => offer(&mut out, t),
            None => {},
        }
        proof {
            assert forall|x: Seq<char>| #[trigger] holds(out@, x) <==> (has_prefix(x, "mission_"@) && (table_key_in(table@, j + 1, x)
                || table_text_in(table@, j + 1, x))) by {
                if table_key_in(table@, j + 1, x) {
                    let k = choose|k: int| 0 <= k < j + 1 && (#[trigger] table@[k]).0@ == x;
                    if k < j {
                        assert(table_key_in(table@, j as int, x));
                    }
                }
                if table_text_in(table@, j + 1, x) {
                    let k = choose|k: int| 0 <= k < j + 1 && text_is((#[trigger] table@[k]).1, x);
                    if k < j {
                        assert(table_text_in(table@, j as int, x));
                    }
                }
                if table_key_in(table@, j as int, x) {
                    let k = choose|k: int| 0 <= k < j && (#[trigger] table@[k]).0@ == x;
                    assert(table_key_in(table@, j + 1, x));
                }
                if table_text_in(table@, j as int, x) {
                    let k = choose|k: int| 0 <= k < j && text_is((#[trigger] table@[k]).1, x);
                    assert(table_text_in(table@, j + 1, x));
                }
                if x == table@[j as int].0@ {
                    assert(table_key_in(table@, j + 1, x));
                }
                if text_is(table@[j as int].1, x) {
                    assert(table_text_in(table@, j + 1, x));
                }
            }
        }
        j = j + 1;
    }
    let mut n: usize = 0;
    while n < i18n_keys.len()
        invariant
            n <= i18n_keys@.len(),
            j == table@.len(),
            forall|x: Seq<char>| #[trigger] holds(out@, x) <==> (has_prefix(x, "mission_"@) && (table_key_in(table@, j as int, x)
                || table_text_in(table@, j as int, x) || holds(i18n_keys@.take(n as int), x))),
            distinct_texts(out@),
        decreases i18n_keys.len() - n,
    {
        offer(&mut out, &i18n_keys[n]);
        proof {
            let pre = i18n_keys@.take(n as int);
            let post = i18n_keys@.take(n + 1);
            assert forall|x: Seq<char>| #[trigger] holds(post, x) <==> (holds(pre, x) || x == i18n_keys@[n as int]@) by {
                if holds(post, x) {
                    let i = choose|i: int| 0 <= i < post.len() && (#[trigger] post[i])@ == x;
                    if i < n {
                        assert(pre[i] == post[i]);
                    }
                }
                if holds(pre, x) {
                    let i = choose|i: int| 0 <= i < pre.len() && (#[trigger] pre[i])@ == x;
                    assert(post[i] == pre[i]);
                }
                if x == i18n_keys@[n as int]@ {
                    assert(post[n as int] == i18n_keys@[n as int]);
                }
            }
        }
        n = n + 1;
    }
    proof {
        assert(i18n_keys@.take(n as int) == i18n_keys@);
    }
    out
}

proof fn lemma_quest_key_prefix(k: Seq<char>)
    ensures
        quest_key_parts(k) matches Some(p) ==> has_prefix(p.1, p.0 + "_q#"@),
{
    reveal_strlit("_q#");
    if quest_key_parts(k) is Some {
        lemma_first_block_found(k, "_q#"@);
        let i = first_block(k, "_q#"@).unwrap();
        let p = quest_key_parts(k).unwrap();
        let tail = k.skip(i + 3);
        let j = first_block(tail, "_obj_"@).unwrap();
        assert(contains_block(tail, "_obj_"@));
        lemma_first_block_found(tail, "_obj_"@);
        assert(p.1.take((p.0 + "_q#"@).len() as int) =~= p.0 + "_q#"@) by {
            assert(k.subrange(i, i + 3) == "_q#"@);
            assert forall|x: int| 0 <= x < i + 3 implies #[trigger] p.1[x] == (p.0 + "_q#"@)[x] by {
                if x >= i {
                    assert(k.subrange(i, i + 3)[x - i] == k[x]);
                }
            }
        }
    }
}

/// The id of every quest of a catalog's mission begins with the mission's id
/// followed by `_q#`.
pub proof fn lemma_quest_ids_extend_mission_id(keys: Seq<Seq<char>>, ms: Seq<MissionDefinition>)
    requires
        is_catalog(keys, ms),
    ensures
        forall|a: int, b: int|
            0 <= a < ms.len() && 0 <= b < ms[a].quests@.len() ==> has_prefix(
                (#[trigger] ms[a].quests@[b]).quest_id@,
                ms[a].mission_id@ + "_q#"@,
            ),
{
    assert forall|a: int, b: int| 0 <= a < ms.len() && 0 <= b < ms[a].quests@.len() implies has_prefix(
        (#[trigger] ms[a].quests@[b]).quest_id@,
        ms[a].mission_id@ + "_q#"@,
    ) by {
        let d = ms[a];
        let id = d.mission_id@;
        let q = d.quests@[b];
        assert(mission_ok(keys, d));
        assert(quests_ok(keys, id, d.quests@));
        let j = choose|j: int| 0 <= j < keys.len() && yields_quest(#[trigger] keys[j], id, q);
        lemma_quest_key_prefix(keys[j]);
    }
}


} // verus!
