//! Scene enumerations, the always-resident interactive rule, and how level
//! properties become script parameters.

use crate::logic::enums::{param_real_type_from_code, ParamRealType};
use crate::logic::char_bag::{char_slot, dead_in_slot, dead_members, Char, CharBag, CharIndex, TeamSlot};
use crate::logic::clock::now_ms;
use crate::logic::traits::item::Identifiable;
use std::collections::HashSet;
use crate::logic::entity::{EntityManager, SceneEntity};
use crate::logic::interest::{InterestState, ReplicationZone, StreamBucket};
use crate::logic::level_script::{
    props_view, synced_scenes, sync_scripts, LevelScriptDef, LevelScriptManager, ParamValue,
    ParamView, RuntimeView,
};
use crate::logic::spatial::CellGrid;
use crate::logic::streaming::RespawnLedger;
use std::collections::HashMap;
use crate::logic::str_map::StrMap;
use crate::logic::text::{ascii_lower_seq, contains_block, has_block, str_chars, to_ascii_lower_char};
use vstd::prelude::*;

verus! {

broadcast use vstd::std_specs::hash::group_hash_axioms;

/// Why a `ScSelfSceneInfo` is sent.
#[derive(Debug, Clone, Copy, PartialEq, Eq, Structural)]
pub enum SelfInfoReason {
    EnterScene,
    ReviveDead,
    ReviveRest,
    ChangeTeam,
    ReviveByItem,
    ResetDungeon,
}

impl SelfInfoReason {
    pub open spec fn spec_as_i32(self) -> i32 {
        match self {
            SelfInfoReason::EnterScene => 0,
            SelfInfoReason::ReviveDead => 1,
            SelfInfoReason::ReviveRest => 2,
            SelfInfoReason::ChangeTeam => 3,
            SelfInfoReason::ReviveByItem => 4,
            SelfInfoReason::ResetDungeon => 5,
        }
    }

    /// The protocol's integer code for this reason.
    #[verifier::when_used_as_spec(spec_as_i32)]
    pub fn as_i32(self) -> (code: i32)
        ensures
            code == self.spec_as_i32(),
    {
        match self {
            SelfInfoReason::EnterScene => 0,
            SelfInfoReason::ReviveDead => 1,
            SelfInfoReason::ReviveRest => 2,
            SelfInfoReason::ChangeTeam => 3,
            SelfInfoReason::ReviveByItem => 4,
            SelfInfoReason::ResetDungeon => 5,
        }
    }
}

/// Why an entity leaves the scene.
#[derive(Debug, Clone, Copy, PartialEq, Eq, Structural)]
pub enum EntityDestroyReason {
    Immediately,
    Dead,
}

impl EntityDestroyReason {
    pub open spec fn spec_as_i32(self) -> i32 {
        match self {
            EntityDestroyReason::Immediately => 0,
            EntityDestroyReason::Dead => 1,
        }
    }

    /// The protocol's integer code for this reason.
    #[verifier::when_used_as_spec(spec_as_i32)]
    pub fn as_i32(self) -> (code: i32)
        ensures
            code == self.spec_as_i32(),
    {
        match self {
            EntityDestroyReason::Immediately => 0,
            EntityDestroyReason::Dead => 1,
        }
    }
}

/// Where a dead team is revived.
#[derive(Debug, Clone, Copy, PartialEq, Eq, Structural)]
pub enum RevivalMode {
    Default,
    RepatriatePoint,
    CheckPoint,
}

impl RevivalMode {
    pub open spec fn spec_as_i32(self) -> i32 {
        match self {
            RevivalMode::Default => 0,
            RevivalMode::RepatriatePoint => 1,
            RevivalMode::CheckPoint => 2,
        }
    }

    /// The protocol's integer code for this mode.
    #[verifier::when_used_as_spec(spec_as_i32)]
    pub fn as_i32(self) -> (code: i32)
        ensures
            code == self.spec_as_i32(),
    {
        match self {
            RevivalMode::Default => 0,
            RevivalMode::RepatriatePoint => 1,
            RevivalMode::CheckPoint => 2,
        }
    }
}

impl Default for RevivalMode {
    fn default() -> (m: Self)
        ensures
            m == RevivalMode::Default,
    {
        RevivalMode::Default
    }
}

/// Progress of the current scene load.
#[derive(Debug, Clone, Copy, PartialEq, Eq, Structural)]
pub enum SceneLoadingState {
    Idle,
    Loading,
    Active,
}

impl Default for SceneLoadingState {
    fn default() -> (s: Self)
        ensures
            s == SceneLoadingState::Idle,
    {
        SceneLoadingState::Idle
    }
}

/// Template-id substrings that mark an interactive as always resident
/// (teleports, campfires, gates and the like).
pub open spec fn resident_template_patterns() -> Seq<Seq<char>> {
    seq![
        "campfire"@,
        "teleport"@,
        "_tp_"@,
        "save_point"@,
        "save_group"@,
        "checkpoint"@,
        "repatriate"@,
        "dungeon_entry"@,
        "barrierwall"@,
        "blockage"@,
        "levelgate"@,
        "locked_door"@,
        "_edoor"@,
    ]
}

/// Entity types that are always resident; none are configured.
pub open spec fn resident_entity_types() -> Seq<i32> {
    Seq::empty()
}

fn resident_pattern_list() -> (v: Vec<Vec<char>>)
    ensures
        v@.len() == resident_template_patterns().len(),
        forall|k: int| 0 <= k < v@.len() ==> #[trigger] v@[k]@ == resident_template_patterns()[k],
{
    let mut v: Vec<Vec<char>> = Vec::new();
    v.push(str_chars("campfire"));
    v.push(str_chars("teleport"));
    v.push(str_chars("_tp_"));
    v.push(str_chars("save_point"));
    v.push(str_chars("save_group"));
    v.push(str_chars("checkpoint"));
    v.push(str_chars("repatriate"));
    v.push(str_chars("dungeon_entry"));
    v.push(str_chars("barrierwall"));
    v.push(str_chars("blockage"));
    v.push(str_chars("levelgate"));
    v.push(str_chars("locked_door"));
    v.push(str_chars("_edoor"));
    v
}

/// Whether an interactive must stay replicated for the whole scene: its entity
/// type is listed, or its ASCII-lower-cased template id contains one of the
/// non-empty resident patterns.
pub open spec fn resident_interactive(template_id: Seq<char>, entity_type: i32) -> bool {
    resident_entity_types().contains(entity_type) || exists|k: int|
        0 <= k < resident_template_patterns().len() && resident_template_patterns()[k].len() > 0
            && contains_block(ascii_lower_seq(template_id), #[trigger] resident_template_patterns()[k])
}

/// Whether an interactive must stay replicated for the whole scene: its entity
/// type is listed, or its ASCII-lower-cased template id contains one of the
/// non-empty resident patterns.
pub fn is_always_resident_interactive(template_id: &str, entity_type: i32) -> (b: bool)
    ensures
        b == resident_interactive(template_id@, entity_type),
{
    let types: Vec<i32> = Vec::new();
    assert(types@ =~= resident_entity_types());
    let mut t: usize = 0;
    while t < types.len()
        invariant
            types@ == resident_entity_types(),
            t <= types.len(),
            forall|j: int| 0 <= j < t ==> types@[j] != entity_type,
        decreases types.len() - t,
    {
        if types[t] == entity_type {
            return true;
        }
        t = t + 1;
    }
    let raw = str_chars(template_id);
    let mut lower: Vec<char> = Vec::new();
    let mut i: usize = 0;
    while i < raw.len()
        invariant
            i <= raw.len(),
            raw@ == template_id@,
            lower@ == ascii_lower_seq(raw@.take(i as int)),
        decreases raw.len() - i,
    {
        lower.push(to_ascii_lower_char(raw[i]));
        assert(ascii_lower_seq(raw@.take(i + 1)) =~= ascii_lower_seq(raw@.take(i as int)).push(
            crate::logic::text::ascii_lower(raw@[i as int]),
        ));
        i = i + 1;
    }
    assert(raw@.take(raw.len() as int) == raw@);
    let patterns = resident_pattern_list();
    let mut k: usize = 0;
    while k < patterns.len()
        invariant
            k <= patterns@.len(),
            patterns@.len() == resident_template_patterns().len(),
            forall|j: int| 0 <= j < patterns@.len() ==> #[trigger] patterns@[j]@ == resident_template_patterns()[j],
            lower@ == ascii_lower_seq(template_id@),
            forall|j: int|
                0 <= j < k ==> !(resident_template_patterns()[j].len() > 0 && contains_block(
                    lower@,
                    #[trigger] resident_template_patterns()[j],
                )),
        decreases patterns.len() - k,
    {
        if patterns[k].len() > 0 && has_block(&lower, &patterns[k]) {
            assert(patterns@[k as int]@ == resident_template_patterns()[k as int]);
            return true;
        }
        k = k + 1;
    }
    false
}

/// One entry of a level property's value array: its `valueBit64` integer (0
/// where missing) and its `valueString` (empty where missing).
#[derive(Debug, Clone)]
pub struct ParamEntry {
    pub bit64: i64,
    pub string: String,
}

/// A property of a level entity or script: its key, its `type` code (0 where
/// missing) and its value array.
#[derive(Debug)]
pub struct LvProperty {
    pub key: String,
    pub type_code: i64,
    pub entries: Vec<ParamEntry>,
}

pub open spec fn entry_bools(es: Seq<ParamEntry>) -> Seq<bool> {
    es.map_values(|e: ParamEntry| e.bit64 != 0)
}

pub open spec fn entry_ints(es: Seq<ParamEntry>) -> Seq<i64> {
    es.map_values(|e: ParamEntry| e.bit64)
}

/// The entries as 32-bit float bit patterns: the low 32 bits of each integer.
pub open spec fn entry_bits(es: Seq<ParamEntry>) -> Seq<u32> {
    es.map_values(|e: ParamEntry| e.bit64 as u32)
}

pub open spec fn entry_strings(es: Seq<ParamEntry>) -> Seq<String> {
    es.map_values(|e: ParamEntry| e.string)
}

/// The parameter a property with real-type code `code` and entries `es`
/// becomes: which list it fills and the value type it declares follow its real
/// type; a float whose first entry is negative is kept as an integer.
pub open spec fn param_of(code: i32, es: Seq<ParamEntry>) -> ParamView {
    let none_b = Seq::<bool>::empty();
    let none_i = Seq::<i64>::empty();
    let none_f = Seq::<u32>::empty();
    let none_s = Seq::<String>::empty();
    match param_real_type_from_code(code) {
        ParamRealType::Invalid | ParamRealType::ENum => (0, code, none_b, none_i, none_f, none_s),
        ParamRealType::Bool | ParamRealType::BoolList => (code, code, entry_bools(es), none_i, none_f, none_s),
        ParamRealType::Int | ParamRealType::EntityPtr | ParamRealType::UInt | ParamRealType::FromContextCurrent
        | ParamRealType::FromContextMsg | ParamRealType::FromContextInteractive1
        | ParamRealType::FromContextInteractive2 | ParamRealType::FromContextInteractive3
        | ParamRealType::LevelScriptPtr | ParamRealType::UInt64 | ParamRealType::Node | ParamRealType::Buff => (
            3,
            code,
            none_b,
            entry_ints(es),
            none_f,
            none_s,
        ),
        ParamRealType::IntList | ParamRealType::EntityPtrList | ParamRealType::UIntList
        | ParamRealType::LevelScriptPtrList | ParamRealType::UInt64List | ParamRealType::NodeList
        | ParamRealType::BuffList => (4, code, none_b, entry_ints(es), none_f, none_s),
        ParamRealType::Float => if es.len() > 0 && es[0].bit64 < 0 {
            (3, code, none_b, entry_ints(es), none_f, none_s)
        } else {
            (5, code, none_b, none_i, entry_bits(es), none_s)
        },
        ParamRealType::FloatList | ParamRealType::Vector3 | ParamRealType::Vector3List => (
            6,
            code,
            none_b,
            none_i,
            entry_bits(es),
            none_s,
        ),
        ParamRealType::StringList | ParamRealType::PathList | ParamRealType::TagList
        | ParamRealType::LangKeyList => (8, code, none_b, none_i, none_f, entry_strings(es)),
        ParamRealType::String | ParamRealType::Path | ParamRealType::Tag | ParamRealType::LangKey
        | ParamRealType::Bytes => (7, code, none_b, none_i, none_f, entry_strings(es)),
    }
}

fn bools_from(es: &Vec<ParamEntry>) -> (r: Vec<bool>)
    ensures
        r@ == entry_bools(es@),
{
    let mut r: Vec<bool> = Vec::new();
    let mut i: usize = 0;
    while i < es.len()
        invariant
            i <= es@.len(),
            r@ == entry_bools(es@.take(i as int)),
        decreases es.len() - i,
    {
        r.push(es[i].bit64 != 0);
        proof {
            assert(entry_bools(es@.take(i + 1)) =~= entry_bools(es@.take(i as int)).push(es@[i as int].bit64 != 0));
        }
        i = i + 1;
    }
    assert(es@.take(es@.len() as int) =~= es@);
    r
}

fn ints_from(es: &Vec<ParamEntry>) -> (r: Vec<i64>)
    ensures
        r@ == entry_ints(es@),
{
    let mut r: Vec<i64> = Vec::new();
    let mut i: usize = 0;
    while i < es.len()
        invariant
            i <= es@.len(),
            r@ == entry_ints(es@.take(i as int)),
        decreases es.len() - i,
    {
        r.push(es[i].bit64);
        proof {
            assert(entry_ints(es@.take(i + 1)) =~= entry_ints(es@.take(i as int)).push(es@[i as int].bit64));
        }
        i = i + 1;
    }
    assert(es@.take(es@.len() as int) =~= es@);
    r
}

fn bits_from(es: &Vec<ParamEntry>) -> (r: Vec<u32>)
    ensures
        r@ == entry_bits(es@),
{
    let mut r: Vec<u32> = Vec::new();
    let mut i: usize = 0;
    while i < es.len()
        invariant
            i <= es@.len(),
            r@ == entry_bits(es@.take(i as int)),
        decreases es.len() - i,
    {
        r.push(#[verifier::truncate] (es[i].bit64 as u32));
        proof {
            assert(entry_bits(es@.take(i + 1)) =~= entry_bits(es@.take(i as int)).push(es@[i as int].bit64 as u32));
        }
        i = i + 1;
    }
    assert(es@.take(es@.len() as int) =~= es@);
    r
}

fn strings_from(es: &Vec<ParamEntry>) -> (r: Vec<String>)
    ensures
        r@ == entry_strings(es@),
{
    let mut r: Vec<String> = Vec::new();
    let mut i: usize = 0;
    while i < es.len()
        invariant
            i <= es@.len(),
            r@ == entry_strings(es@.take(i as int)),
        decreases es.len() - i,
    {
        r.push(es[i].string.clone());
        proof {
            assert(entry_strings(es@.take(i + 1)) =~= entry_strings(es@.take(i as int)).push(es@[i as int].string));
        }
        i = i + 1;
    }
    assert(es@.take(es@.len() as int) =~= es@);
    r
}

fn param(value_type: i32, real_type: i32, bools: Vec<bool>, ints: Vec<i64>, bits: Vec<u32>, strings: Vec<String>) -> (p:
    ParamValue)
    ensures
        p@ == (value_type, real_type, bools@, ints@, bits@, strings@),
{
    ParamValue {
        value_type,
        real_type,
        value_bool_list: bools,
        value_int_list: ints,
        value_float_bits: bits,
        value_string_list: strings,
    }
}

/// The script parameter the property `prop` becomes.
pub fn lv_property_to_dynamic_param(prop: &LvProperty) -> (p: ParamValue)
    ensures
        p@ == param_of(prop.type_code as i32, prop.entries@),
{
    let code: i32 = #[verifier::truncate] (prop.type_code as i32);
    let es = &prop.entries;
    let kind = ParamRealType::from(code);
    proof {
        assert(kind == param_real_type_from_code(code));
    }
    match kind {
        ParamRealType::Invalid | ParamRealType::ENum => param(0, code, Vec::new(), Vec::new(), Vec::new(), Vec::new()),
        ParamRealType::Bool | ParamRealType::BoolList => param(code, code, bools_from(es), Vec::new(), Vec::new(), Vec::new()),
        ParamRealType::Int | ParamRealType::EntityPtr | ParamRealType::UInt | ParamRealType::FromContextCurrent
        | ParamRealType::FromContextMsg | ParamRealType::FromContextInteractive1
        | ParamRealType::FromContextInteractive2 | ParamRealType::FromContextInteractive3
        | ParamRealType::LevelScriptPtr | ParamRealType::UInt64 | ParamRealType::Node | ParamRealType::Buff => param(
            3,
            code,
            Vec::new(),
            ints_from(es),
            Vec::new(),
            Vec::new(),
        ),
        ParamRealType::IntList | ParamRealType::EntityPtrList | ParamRealType::UIntList
        | ParamRealType::LevelScriptPtrList | ParamRealType::UInt64List | ParamRealType::NodeList
        | ParamRealType::BuffList => param(4, code, Vec::new(), ints_from(es), Vec::new(), Vec::new()),
        ParamRealType::Float => {
            let first: i64 = if es.len() > 0 {
                es[0].bit64
            } else {
                0
            };
            if first < 0 {
                param(3, code, Vec::new(), ints_from(es), Vec::new(), Vec::new())
            } else {
                param(5, code, Vec::new(), Vec::new(), bits_from(es), Vec::new())
            }
        },
        ParamRealType::FloatList | ParamRealType::Vector3 | ParamRealType::Vector3List => param(
            6,
            code,
            Vec::new(),
            Vec::new(),
            bits_from(es),
            Vec::new(),
        ),
        ParamRealType::StringList | ParamRealType::PathList | ParamRealType::TagList
        | ParamRealType::LangKeyList => param(8, code, Vec::new(), Vec::new(), Vec::new(), strings_from(es)),
        ParamRealType::String | ParamRealType::Path | ParamRealType::Tag | ParamRealType::LangKey
        | ParamRealType::Bytes => param(7, code, Vec::new(), Vec::new(), Vec::new(), strings_from(es)),
    }
}

/// The parameters of a property list, key by key; of two properties with one
/// key the later wins.
pub open spec fn props_of(ps: Seq<LvProperty>) -> Map<Seq<char>, ParamView>
    decreases ps.len(),
{
    if ps.len() == 0 {
        Map::empty()
    } else {
        let p = ps.last();
        props_of(ps.drop_last()).insert(p.key@, param_of(p.type_code as i32, p.entries@))
    }
}

/// The parameters of a property list, key by key.
pub fn lv_props_to_map(props: &[LvProperty]) -> (m: StrMap<ParamValue>)
    ensures
        props_view(m) == props_of(props@),
{
    let mut m: StrMap<ParamValue> = StrMap::new();
    proof {
        assert(props_view(m) =~= Map::<Seq<char>, ParamView>::empty());
    }
    let mut i: usize = 0;
    while i < props.len()
        invariant
            i <= props@.len(),
            props_view(m) == props_of(props@.take(i as int)),
        decreases props.len() - i,
    {
        let ghost before = m;
        let v = lv_property_to_dynamic_param(&props[i]);
        m.insert(props[i].key.clone(), v);
        proof {
            let next = props@.take(i + 1);
            assert(next.drop_last() =~= props@.take(i as int));
            assert(next.last() == props@[i as int]);
            assert(props_view(m) =~= props_view(before).insert(props@[i as int].key@, param_of(props@[i as int].type_code as i32, props@[i as int].entries@)));
        }
        i = i + 1;
    }
    assert(props@.take(props@.len() as int) =~= props@);
    m
}


/// The scene the player starts in.
pub open spec fn default_scene_name() -> Seq<char> {
    "map01_lv001"@
}

/// The player's scene state: the scene and its load progress, battle and
/// revival settings, the saved checkpoint (a `C`), the level scripts, the
/// recent kills, the interest bookkeeping and the scene cache.
pub struct SceneManager<C> {
    pub current_scene: String,
    pub scene_id: u64,
    pub loading_state: SceneLoadingState,
    pub in_battle: bool,
    pub checkpoint: Option<C>,
    pub current_revival_mode: RevivalMode,
    pub level_scripts: LevelScriptManager,
    /// When each recently killed enemy died.
    pub dead_entities: RespawnLedger,
    /// Ghosted-in entities and the zone scheduler, reset on every scene change.
    pub interest: InterestState,
    /// Lookups for the loaded scene; none while a scene change is under way.
    pub scene_cache: Option<SceneCache>,
}

/// The entry an always-resident interactive is tracked under.
pub open spec fn resident_entry(now_ms: u64) -> crate::logic::interest::InterestEntry {
    crate::logic::interest::InterestEntry {
        zone: ReplicationZone::Immediate,
        bucket: StreamBucket::Interactive,
        always_resident: true,
        last_sync_ms: now_ms,
        last_close_ms: now_ms,
    }
}

/// The interest entries of `residents`, one per id.
pub open spec fn resident_entries<T>(residents: Seq<SceneEntity<T>>, now_ms: u64) -> Map<u64, crate::logic::interest::InterestEntry> {
    Map::new(
        |k: u64| exists|i: int| 0 <= i < residents.len() && #[trigger] residents[i].id == k,
        |k: u64| resident_entry(now_ms),
    )
}

/// Whether `i` is the last entity of `s` with its id.
pub open spec fn last_entity_with_its_id<T>(s: Seq<SceneEntity<T>>, i: int) -> bool {
    &&& 0 <= i < s.len()
    &&& forall|k: int| i < k < s.len() ==> #[trigger] s[k].id != s[i].id
}

proof fn lemma_resident_entries_push<T>(s: Seq<SceneEntity<T>>, r: SceneEntity<T>, now_ms: u64)
    ensures
        resident_entries(s.push(r), now_ms) == resident_entries(s, now_ms).insert(r.id, resident_entry(now_ms)),
{
    assert forall|k: u64| #[trigger] resident_entries(s.push(r), now_ms).contains_key(k) <==> resident_entries(s, now_ms).insert(r.id, resident_entry(now_ms)).contains_key(k) by {
        if exists|i: int| 0 <= i < s.len() && #[trigger] s[i].id == k {
            let i = choose|i: int| 0 <= i < s.len() && #[trigger] s[i].id == k;
            assert(s.push(r)[i].id == k);
        }
        if k == r.id {
            assert(s.push(r)[s.len() as int].id == k);
        }
        if exists|i: int| 0 <= i < s.push(r).len() && #[trigger] s.push(r)[i].id == k {
            let i = choose|i: int| 0 <= i < s.push(r).len() && #[trigger] s.push(r)[i].id == k;
            if i < s.len() {
                assert(s[i].id == k);
            }
        }
    }
    assert(resident_entries(s.push(r), now_ms) =~= resident_entries(s, now_ms).insert(r.id, resident_entry(now_ms)));
}

/// What a scene change leaves and enters.
#[derive(Debug, Clone, PartialEq, Eq)]
pub struct SceneSwitch {
    pub left_scene: String,
    pub left_scene_id: u64,
    pub entered_scene: String,
    pub entered_scene_id: u64,
}

/// One object leaving the client's view.
#[derive(Debug, Clone, Copy, PartialEq, Eq, Structural)]
pub struct LeaveObjectInfo {
    pub obj_type: i32,
    pub obj_id: u64,
}

/// The objects leaving the client's view in a scene.
#[derive(Debug, Clone)]
pub struct ObjectLeaveView {
    pub scene_name: String,
    pub scene_id: u64,
    pub obj_list: Vec<LeaveObjectInfo>,
}

/// An entity to be destroyed, and why.
#[derive(Debug, Clone)]
pub struct SceneDestroyEntity {
    pub scene_name: String,
    pub id: u64,
    pub reason: i32,
}

/// An entity to be created.
#[derive(Debug, Clone)]
pub struct SceneCreateEntity {
    pub scene_name: String,
    pub id: u64,
}

impl<C> SceneManager<C> {
    /// Idle in the starting scene, with nothing tracked.
    pub fn new() -> (m: Self)
        ensures
            m.current_scene@ == default_scene_name(),
            m.scene_id == 0,
            m.loading_state == SceneLoadingState::Idle,
            !m.in_battle,
            m.checkpoint is None,
            m.current_revival_mode == RevivalMode::Default,
            m.level_scripts.current_scene() == Seq::<char>::empty(),
            m.level_scripts.scenes() == Map::<Seq<char>, Map<i32, RuntimeView>>::empty(),
            m.dead_entities.kills() == Map::<u64, u64>::empty(),
            m.dead_entities.spec_last_cleanup() == 0,
            m.interest.wf(),
            m.interest.entries_view() == Map::<u64, crate::logic::interest::InterestEntry>::empty(),
            m.scene_cache is None,
    {
        SceneManager {
            current_scene: String::from_str("map01_lv001"),
            scene_id: 0,
            loading_state: SceneLoadingState::Idle,
            in_battle: false,
            checkpoint: None,
            current_revival_mode: RevivalMode::Default,
            level_scripts: LevelScriptManager::new(),
            dead_entities: RespawnLedger::new(),
            interest: InterestState::new(),
            scene_cache: None,
        }
    }

    pub fn set_revival_mode(&mut self, mode: RevivalMode)
        ensures
            final(self).current_revival_mode == mode,
            final(self).current_scene == old(self).current_scene,
            final(self).scene_id == old(self).scene_id,
            final(self).loading_state == old(self).loading_state,
            final(self).in_battle == old(self).in_battle,
            final(self).checkpoint == old(self).checkpoint,
    {
        self.current_revival_mode = mode;
    }

    pub fn set_battle_mode(&mut self, in_battle: bool)
        ensures
            final(self).in_battle == in_battle,
            final(self).current_scene == old(self).current_scene,
            final(self).scene_id == old(self).scene_id,
            final(self).loading_state == old(self).loading_state,
            final(self).current_revival_mode == old(self).current_revival_mode,
            final(self).checkpoint == old(self).checkpoint,
    {
        self.in_battle = in_battle;
    }

    /// Starts a revival: switches to `revival_mode` when one is given and
    /// returns the object ids of the current team's dead members, which the
    /// caller then brings back with [`CharBag::revive`].
    pub fn revival_targets(&mut self, char_bag: &CharBag, revival_mode: Option<RevivalMode>) -> (ids: Vec<u64>)
        requires
            (char_bag.meta.curr_team_index as int) < char_bag.teams@.len(),
            forall|k: int|
                0 <= k < 4 ==> match #[trigger] char_bag.teams@[char_bag.meta.curr_team_index as int].char_team@[k] {
                    TeamSlot::Occupied(idx) => (idx.0 as int) < char_bag.chars@.len(),
                    TeamSlot::Empty => true,
                },
        ensures
            ids@ == dead_members(char_bag.teams@[char_bag.meta.curr_team_index as int].char_team@, char_bag.chars@),
            ({
                let slots = char_bag.teams@[char_bag.meta.curr_team_index as int].char_team@;
                ids@ == dead_in_slot(slots[0], char_bag.chars@) + dead_in_slot(slots[1], char_bag.chars@)
                    + dead_in_slot(slots[2], char_bag.chars@) + dead_in_slot(slots[3], char_bag.chars@)
            }),
            final(self).current_revival_mode == (match revival_mode {
                Some(m) => m,
                None => old(self).current_revival_mode,
            }),
            final(self).current_scene == old(self).current_scene,
            final(self).scene_id == old(self).scene_id,
            final(self).loading_state == old(self).loading_state,
            final(self).in_battle == old(self).in_battle,
    {
        if let Some(mode) = revival_mode {
            self.set_revival_mode(mode);
        }
        char_bag.dead_team_members()
    }

    /// The leave notice for `entity_ids`, in order, each with object type 0.
    pub fn object_leave_view(&self, entity_ids: Vec<u64>) -> (v: ObjectLeaveView)
        ensures
            v.scene_name@ == self.current_scene@,
            v.scene_id == self.scene_id,
            v.obj_list@.len() == entity_ids@.len(),
            forall|i: int|
                0 <= i < entity_ids@.len() ==> #[trigger] v.obj_list@[i] == (LeaveObjectInfo {
                    obj_type: 0,
                    obj_id: entity_ids@[i],
                }),
    {
        let mut obj_list: Vec<LeaveObjectInfo> = Vec::new();
        let mut i: usize = 0;
        while i < entity_ids.len()
            invariant
                i <= entity_ids@.len(),
                obj_list@.len() == i,
                forall|j: int|
                    0 <= j < i ==> #[trigger] obj_list@[j] == (LeaveObjectInfo {
                        obj_type: 0,
                        obj_id: entity_ids@[j],
                    }),
            decreases entity_ids.len() - i,
        {
            obj_list.push(LeaveObjectInfo { obj_type: 0, obj_id: entity_ids[i] });
            i = i + 1;
        }
        ObjectLeaveView { scene_name: self.current_scene.clone(), scene_id: self.scene_id, obj_list }
    }

    /// The notice destroying `entity_id` in the current scene.
    pub fn destroy_entity(&self, entity_id: u64, reason: EntityDestroyReason) -> (d: SceneDestroyEntity)
        ensures
            d.scene_name@ == self.current_scene@,
            d.id == entity_id,
            d.reason == reason.spec_as_i32(),
    {
        SceneDestroyEntity { scene_name: self.current_scene.clone(), id: entity_id, reason: reason.as_i32() }
    }

    /// The notice creating `entity_id` in the current scene.
    pub fn create_entity(&self, entity_id: u64) -> (c: SceneCreateEntity)
        ensures
            c.scene_name@ == self.current_scene@,
            c.id == entity_id,
    {
        SceneCreateEntity { scene_name: self.current_scene.clone(), id: entity_id }
    }

    /// Whether the current scene has finished loading.
    pub fn is_in_scene(&self) -> (b: bool)
        ensures
            b == (self.loading_state == SceneLoadingState::Active),
    {
        self.loading_state == SceneLoadingState::Active
    }

    pub fn scene_name(&self) -> (s: &str)
        ensures
            s@ == self.current_scene@,
    {
        self.current_scene.as_str()
    }

    pub fn set_checkpoint(&mut self, checkpoint: C)
        ensures
            final(self).checkpoint == Some(checkpoint),
            final(self).current_scene == old(self).current_scene,
            final(self).scene_id == old(self).scene_id,
            final(self).loading_state == old(self).loading_state,
            final(self).current_revival_mode == old(self).current_revival_mode,
    {
        self.checkpoint = Some(checkpoint);
    }

    pub fn get_checkpoint(&self) -> (c: Option<&C>)
        ensures
            c == (match self.checkpoint {
                Some(cp) => Some(&cp),
                None => None,
            }),
    {
        match &self.checkpoint {
            Some(cp) => Some(cp),
            None => None,
        }
    }

    /// Records that enemy `level_logic_id` was killed at `now_ms` (so it
    /// does not stream back in before its respawn cooldown) and frees its
    /// interest slot.
    pub fn on_entity_killed_at(&mut self, level_logic_id: u64, now_ms: u64)
        requires
            old(self).interest.wf(),
        ensures
            final(self).interest.wf(),
            final(self).dead_entities.kills() == old(self).dead_entities.kills().insert(level_logic_id, now_ms),
            final(self).dead_entities.spec_last_cleanup() == old(self).dead_entities.spec_last_cleanup(),
            final(self).interest.entries_view() == old(self).interest.entries_view().remove(level_logic_id),
            final(self).current_scene == old(self).current_scene,
            final(self).loading_state == old(self).loading_state,
    {
        self.dead_entities.record_kill(level_logic_id, now_ms);
        self.interest.ghost_out(level_logic_id);
    }

    /// Like [`Self::on_entity_killed_at`], at the current time.
    pub fn on_entity_killed(&mut self, level_logic_id: u64)
        requires
            old(self).interest.wf(),
        ensures
            final(self).interest.wf(),
            final(self).dead_entities.kills().contains_key(level_logic_id),
            final(self).dead_entities.kills().remove(level_logic_id) == old(self).dead_entities.kills().remove(
                level_logic_id,
            ),
            final(self).interest.entries_view() == old(self).interest.entries_view().remove(level_logic_id),
            final(self).current_scene == old(self).current_scene,
            final(self).loading_state == old(self).loading_state,
    {
        let now = now_ms();
        self.on_entity_killed_at(level_logic_id, now);
        proof {
            assert(self.dead_entities.kills().remove(level_logic_id) =~= old(self).dead_entities.kills().remove(
                level_logic_id,
            ));
        }
    }

    /// Frees the interest slot of a non-enemy entity the client destroyed,
    /// with no respawn cooldown.
    pub fn on_entity_despawned(&mut self, level_logic_id: u64)
        requires
            old(self).interest.wf(),
        ensures
            final(self).interest.wf(),
            final(self).interest.entries_view() == old(self).interest.entries_view().remove(level_logic_id),
            final(self).dead_entities.kills() == old(self).dead_entities.kills(),
            final(self).current_scene == old(self).current_scene,
            final(self).loading_state == old(self).loading_state,
    {
        self.interest.ghost_out(level_logic_id);
    }

    /// Starts moving to `new_scene` (filed under `scene_id`, 0 when the
    /// scene has no id): drops every entity, kill record and interest entry
    /// of the old scene, marks the load as started and resets the new
    /// scene's level scripts from `defs`. Returns the scenes left and entered.
    pub fn begin_scene_transition<T>(
        &mut self,
        new_scene: &str,
        scene_id: Option<u64>,
        defs: &[LevelScriptDef],
        entities: &mut EntityManager<T>,
    ) -> (sw: SceneSwitch)
        ensures
            sw.left_scene == old(self).current_scene,
            sw.left_scene_id == old(self).scene_id,
            sw.entered_scene@ == new_scene@,
            sw.entered_scene_id == (match scene_id {
                Some(id) => id,
                None => 0,
            }),
            final(self).current_scene@ == new_scene@,
            final(self).scene_id == sw.entered_scene_id,
            final(self).loading_state == SceneLoadingState::Loading,
            final(self).in_battle == old(self).in_battle,
            final(self).checkpoint == old(self).checkpoint,
            final(self).current_revival_mode == old(self).current_revival_mode,
            final(self).dead_entities.kills() == Map::<u64, u64>::empty(),
            final(self).dead_entities.spec_last_cleanup() == 0,
            final(self).interest.wf(),
            final(self).interest.entries_view() == Map::<u64, crate::logic::interest::InterestEntry>::empty(),
            final(self).scene_cache is None,
            final(self).level_scripts.current_scene() == new_scene@,
            final(self).level_scripts.scenes() == old(self).level_scripts.scenes().insert(
                new_scene@,
                sync_scripts(Map::empty(), new_scene@, defs@),
            ),
            final(entities).wf(),
            final(entities).slots().len() == 0,
            final(entities).counter() == 0,
    {
        entities.clear();
        self.dead_entities.clear();
        self.scene_cache = None;
        self.interest.clear();
        let left_scene = self.current_scene.clone();
        let left_scene_id = self.scene_id;
        self.current_scene = new_scene.to_owned();
        self.scene_id = match scene_id {
            Some(id) => id,
            None => 0,
        };
        self.loading_state = SceneLoadingState::Loading;
        self.level_scripts.reset_scene(new_scene, defs);
        SceneSwitch {
            left_scene,
            left_scene_id,
            entered_scene: new_scene.to_owned(),
            entered_scene_id: self.scene_id,
        }
    }

    /// Completes loading the current scene: it becomes active under
    /// `scene_id` (0 without one), its level scripts are brought in line
    /// with `defs`, `cache` becomes the scene cache, and each of `residents`
    /// is stored in `entities` (the last one with an id wins) and tracked for
    /// the whole scene in the innermost zone of the interactive bucket.
    pub fn finish_scene_load<T>(
        &mut self,
        scene_id: Option<u64>,
        defs: &[LevelScriptDef],
        cache: SceneCache,
        residents: Vec<SceneEntity<T>>,
        entities: &mut EntityManager<T>,
        now_ms: u64,
    )
        requires
            old(self).interest.wf(),
            old(entities).wf(),
        ensures
            final(self).loading_state == SceneLoadingState::Active,
            final(self).scene_id == (match scene_id {
                Some(id) => id,
                None => 0,
            }),
            final(self).current_scene == old(self).current_scene,
            final(self).level_scripts.current_scene() == old(self).current_scene@,
            final(self).level_scripts.scenes() == synced_scenes(
                old(self).level_scripts.scenes(),
                old(self).current_scene@,
                defs@,
            ),
            final(self).scene_cache == Some(cache),
            final(self).interest.wf(),
            final(self).interest.entries_view() == old(self).interest.entries_view().union_prefer_right(
                resident_entries(residents@, now_ms),
            ),
            final(entities).wf(),
            forall|i: int| #[trigger] last_entity_with_its_id(residents@, i) ==> final(entities).lookup(
                residents@[i].id,
            ) == Some(residents@[i]),
            forall|k: u64|
                !resident_entries(residents@, now_ms).contains_key(k) ==> #[trigger] final(entities).lookup(k)
                    == old(entities).lookup(k),
    {
        self.loading_state = SceneLoadingState::Active;
        self.scene_id = match scene_id {
            Some(id) => id,
            None => 0,
        };
        self.level_scripts.sync_scene(self.current_scene.as_str(), defs);
        self.scene_cache = Some(cache);
        self.install_residents(residents, entities, now_ms);
    }

    fn install_residents<T>(&mut self, residents: Vec<SceneEntity<T>>, entities: &mut EntityManager<T>, now_ms: u64)
        requires
            old(self).interest.wf(),
            old(entities).wf(),
        ensures
            final(self).interest.wf(),
            final(self).interest.entries_view() == old(self).interest.entries_view().union_prefer_right(
                resident_entries(residents@, now_ms),
            ),
            final(self).loading_state == old(self).loading_state,
            final(self).scene_id == old(self).scene_id,
            final(self).current_scene == old(self).current_scene,
            final(self).level_scripts == old(self).level_scripts,
            final(self).scene_cache == old(self).scene_cache,
            final(entities).wf(),
            forall|i: int| #[trigger] last_entity_with_its_id(residents@, i) ==> final(entities).lookup(
                residents@[i].id,
            ) == Some(residents@[i]),
            forall|k: u64|
                !resident_entries(residents@, now_ms).contains_key(k) ==> #[trigger] final(entities).lookup(k)
                    == old(entities).lookup(k),
    {
        let ghost rs = residents@;
        let ghost n = rs.len();
        let mut pending = residents;
        let mut reversed: Vec<SceneEntity<T>> = Vec::new();
        while pending.len() > 0
            invariant
                n == rs.len(),
                pending@.len() + reversed@.len() == n,
                pending@ == rs.take(pending@.len() as int),
                forall|j: int| 0 <= j < reversed@.len() ==> #[trigger] reversed@[j] == rs[n - 1 - j],
            decreases pending@.len(),
        {
            let ghost len0 = pending@.len();
            let r = pending.pop().unwrap();
            assert(r == rs[len0 - 1]);
            reversed.push(r);
            assert(pending@ =~= rs.take(pending@.len() as int));
        }
        let ghost entries0 = self.interest.entries_view();
        let ghost lookup0 = entities;
        while reversed.len() > 0
            invariant
                n == rs.len(),
                reversed@.len() <= n,
                forall|j: int| 0 <= j < reversed@.len() ==> #[trigger] reversed@[j] == rs[n - 1 - j],
                self.interest.wf(),
                entities.wf(),
                self.interest.entries_view() == entries0.union_prefer_right(
                    resident_entries(rs.take(n - reversed@.len()), now_ms),
                ),
                forall|i: int|
                    #[trigger] last_entity_with_its_id(rs.take(n - reversed@.len()), i) ==> entities.lookup(rs[i].id)
                        == Some(rs[i]),
                forall|k: u64|
                    !resident_entries(rs.take(n - reversed@.len()), now_ms).contains_key(k) ==> #[trigger] entities.lookup(k)
                        == lookup0.lookup(k),
                self.loading_state == old(self).loading_state,
                self.scene_id == old(self).scene_id,
                self.current_scene == old(self).current_scene,
                self.level_scripts == old(self).level_scripts,
                self.scene_cache == old(self).scene_cache,
            decreases reversed@.len(),
        {
            let ghost done = (n - reversed@.len()) as int;
            let r = reversed.pop().unwrap();
            assert(r == rs[done]);
            let id = r.id;
            let ghost before = entities;
            self.interest.ghost_in_resident(id, ReplicationZone::Immediate, StreamBucket::Interactive, now_ms);
            entities.insert(r);
            proof {
                let prev = rs.take(done);
                let next = rs.take(done + 1);
                assert(next =~= prev.push(rs[done]));
                lemma_resident_entries_push(prev, rs[done], now_ms);
                assert(self.interest.entries_view() =~= entries0.union_prefer_right(resident_entries(next, now_ms)));
                assert forall|i: int| #[trigger] last_entity_with_its_id(next, i) implies entities.lookup(rs[i].id)
                    == Some(rs[i]) by {
                    if i < done {
                        assert(next[done].id != next[i].id);
                        assert(last_entity_with_its_id(prev, i));
                    }
                }
                assert forall|k: u64|
                    !resident_entries(next, now_ms).contains_key(k) implies #[trigger] entities.lookup(k)
                        == lookup0.lookup(k) by {
                    assert(!resident_entries(prev, now_ms).contains_key(k));
                }
            }
        }
        assert(rs.take(n as int) =~= rs);
    }

    /// Sets property `key` of interactive `id` in the scene cache to
    /// `value`, returning the value it replaced; without a scene cache or
    /// such an interactive nothing changes and the result is `None`.
    pub fn update_interactive_property(&mut self, id: u64, key: &str, value: ParamValue) -> (r: Option<ParamValue>)
        ensures
            old(self).scene_cache is None ==> r is None && final(self).scene_cache is None,
            old(self).scene_cache matches Some(c) ==> final(self).scene_cache matches Some(c2) && {
                &&& c2.residents() == c.residents()
                &&& c2.enemy_cells() == c.enemy_cells()
                &&& c2.interactive_cells() == c.interactive_cells()
                &&& c2.npc_cells() == c.npc_cells()
                &&& c.properties().contains_key(id) ==> {
                    &&& c2.properties() == c.properties().insert(id, c.properties()[id].insert(key@, value@))
                    &&& match r {
                        Some(v) => c.properties()[id].contains_key(key@) && v@ == c.properties()[id][key@],
                        None => !c.properties()[id].contains_key(key@),
                    }
                }
                &&& !c.properties().contains_key(id) ==> r is None && c2.properties() == c.properties()
            },
            final(self).current_scene == old(self).current_scene,
            final(self).loading_state == old(self).loading_state,
    {
        match &mut self.scene_cache {
            Some(cache) => cache.update_interactive_property(id, key, value),
            None => None,
        }
    }

    /// The current properties of interactive `id`, when a scene cache is
    /// loaded and knows it.
    pub fn get_interactive_properties(&self, id: u64) -> (r: Option<&StrMap<ParamValue>>)
        ensures
            match self.scene_cache {
                Some(c) => match r {
                    Some(p) => c.properties().contains_key(id) && props_view(*p) == c.properties()[id],
                    None => !c.properties().contains_key(id),
                },
                None => r is None,
            },
    {
        match &self.scene_cache {
            Some(cache) => cache.interactive_properties(id),
            None => None,
        }
    }

    /// Moves to the scene a saved world state names (filed under `scene_id`,
    /// 0 when it has none) and brings its level scripts in line with `defs`.
    pub fn update_from_world(&mut self, last_scene: &str, scene_id: Option<u64>, defs: &[LevelScriptDef])
        ensures
            final(self).current_scene@ == last_scene@,
            final(self).scene_id == (match scene_id {
                Some(id) => id,
                None => 0,
            }),
            final(self).loading_state == old(self).loading_state,
            final(self).level_scripts.current_scene() == last_scene@,
            final(self).level_scripts.scenes() == synced_scenes(old(self).level_scripts.scenes(), last_scene@, defs@),
    {
        self.current_scene = last_scene.to_owned();
        self.scene_id = match scene_id {
            Some(id) => id,
            None => 0,
        };
        self.level_scripts.sync_scene(last_scene, defs);
    }
}

impl<C> Default for SceneManager<C> {
    fn default() -> (m: Self)
        ensures
            m.current_scene@ == default_scene_name(),
            m.scene_id == 0,
            m.loading_state == SceneLoadingState::Idle,
            !m.in_battle,
            m.checkpoint is None,
            m.current_revival_mode == RevivalMode::Default,
            m.dead_entities.kills() == Map::<u64, u64>::empty(),
            m.interest.wf(),
            m.interest.entries_view() == Map::<u64, crate::logic::interest::InterestEntry>::empty(),
    {
        SceneManager::new()
    }
}


/// Whether object `objid` names a character of `chars` that is alive.
pub open spec fn char_alive(chars: Seq<Char>, objid: u64) -> bool {
    match char_slot(CharIndex((objid - 1) as u64), chars.len()) {
        Some(i) => !chars[i].is_dead,
        None => false,
    }
}

/// How the scene changes when the active team goes from one list of
/// character object ids to another.
#[derive(Debug, Clone, PartialEq, Eq)]
pub struct TeamChange {
    /// Old members, alive, that are not in the new team: they leave the view.
    pub leaving: Vec<u64>,
    /// New members, alive, that were not in the old team: they enter the view.
    pub entering: Vec<u64>,
    /// Every alive member of the new team, in team order.
    pub alive: Vec<u64>,
}

fn is_alive(char_bag: &CharBag, objid: u64) -> (b: bool)
    requires
        objid >= 1,
    ensures
        b == char_alive(char_bag.chars@, objid),
{
    match char_bag.get_char_by_objid(objid) {
        Some(c) => !c.is_dead,
        None => false,
    }
}

fn id_set(ids: &[u64]) -> (set: HashSet<u64>)
    ensures
        set@ == ids@.to_set(),
{
    let mut set: HashSet<u64> = HashSet::new();
    let mut i: usize = 0;
    while i < ids.len()
        invariant
            i <= ids@.len(),
            set@ == ids@.take(i as int).to_set(),
        decreases ids.len() - i,
    {
        proof {
            lemma_take_push_to_set(ids@, i as int);
        }
        set.insert(ids[i]);
        i = i + 1;
    }
    assert(ids@.take(ids@.len() as int) =~= ids@);
    set
}

proof fn lemma_take_push_to_set(s: Seq<u64>, i: int)
    requires
        0 <= i < s.len(),
    ensures
        s.take(i + 1).to_set() == s.take(i).to_set().insert(s[i]),
{
    assert(s.take(i + 1) =~= s.take(i).push(s[i]));
    assert(s.take(i).push(s[i]).to_set() =~= s.take(i).to_set().insert(s[i])) by {
        assert forall|x: u64| #[trigger] s.take(i).push(s[i]).to_set().contains(x) <==> s.take(i).to_set().insert(s[i]).contains(x) by {
            if s.take(i).push(s[i]).contains(x) {
                let k = choose|k: int| 0 <= k < s.take(i).push(s[i]).len() && s.take(i).push(s[i])[k] == x;
                if k < i {
                    assert(s.take(i)[k] == x);
                }
            }
            if s.take(i).contains(x) {
                let k = choose|k: int| 0 <= k < s.take(i).len() && s.take(i)[k] == x;
                assert(s.take(i).push(s[i])[k] == x);
            }
            if x == s[i] {
                assert(s.take(i).push(s[i])[i] == x);
            }
        }
    }
}

proof fn lemma_filter_step(ids: Seq<u64>, i: int, keep: spec_fn(u64) -> bool)
    requires
        0 <= i < ids.len(),
    ensures
        ids.take(i + 1).filter(keep) == (if keep(ids[i]) {
            ids.take(i).filter(keep).push(ids[i])
        } else {
            ids.take(i).filter(keep)
        }),
{
    assert(ids.take(i + 1).drop_last() =~= ids.take(i));
    reveal_with_fuel(Seq::filter, 1);
}

/// Keeps the ids outside `others` whose characters in `chars` are alive.
pub open spec fn alive_and_not_in(others: Set<u64>, chars: Seq<Char>) -> spec_fn(u64) -> bool {
    |id: u64| !others.contains(id) && char_alive(chars, id)
}

/// The ids of `ids` absent from `others` whose characters are alive, in order.
fn alive_ids_not_in(ids: &[u64], others: &HashSet<u64>, char_bag: &CharBag) -> (r: Vec<u64>)
    requires
        forall|j: int| 0 <= j < ids@.len() ==> #[trigger] ids@[j] >= 1,
    ensures
        r@ == ids@.filter(alive_and_not_in(others@, char_bag.chars@)),
{
    let ghost keep = alive_and_not_in(others@, char_bag.chars@);
    let mut r: Vec<u64> = Vec::new();
    let mut i: usize = 0;
    while i < ids.len()
        invariant
            i <= ids@.len(),
            forall|j: int| 0 <= j < ids@.len() ==> #[trigger] ids@[j] >= 1,
            keep == alive_and_not_in(others@, char_bag.chars@),
            r@ == ids@.take(i as int).filter(keep),
        decreases ids.len() - i,
    {
        proof {
            lemma_filter_step(ids@, i as int, keep);
        }
        let id = ids[i];
        if !others.contains(&id) && is_alive(char_bag, id) {
            r.push(id);
        }
        i = i + 1;
    }
    assert(ids@.take(ids@.len() as int) =~= ids@);
    r
}

/// Splits a switch of the active team from `old_team_ids` to `new_team_ids`
/// into the alive characters that leave, those that enter, and the alive
/// members of the new team.
pub fn team_change(old_team_ids: &[u64], new_team_ids: &[u64], char_bag: &CharBag) -> (c: TeamChange)
    requires
        forall|j: int| 0 <= j < old_team_ids@.len() ==> #[trigger] old_team_ids@[j] >= 1,
        forall|j: int| 0 <= j < new_team_ids@.len() ==> #[trigger] new_team_ids@[j] >= 1,
    ensures
        c.leaving@ == old_team_ids@.filter(alive_and_not_in(new_team_ids@.to_set(), char_bag.chars@)),
        c.entering@ == new_team_ids@.filter(alive_and_not_in(old_team_ids@.to_set(), char_bag.chars@)),
        c.alive@ == new_team_ids@.filter(alive_and_not_in(Set::empty(), char_bag.chars@)),
{
    let new_set = id_set(new_team_ids);
    let old_set = id_set(old_team_ids);
    let none: HashSet<u64> = HashSet::new();
    let leaving = alive_ids_not_in(old_team_ids, &new_set, char_bag);
    let entering = alive_ids_not_in(new_team_ids, &old_set, char_bag);
    let alive = alive_ids_not_in(new_team_ids, &none, char_bag);
    TeamChange { leaving, entering, alive }
}

/// Whether `p` is where the first element with id `id` stands in `s`.
pub open spec fn first_with_id<T: Identifiable<Id = u64>>(s: Seq<T>, id: u64, p: int) -> bool {
    &&& 0 <= p < s.len()
    &&& s[p].spec_id() == id
    &&& forall|j: int| 0 <= j < p ==> #[trigger] s[j].spec_id() != id
}

/// Brings the first element with id `leader_id` to the front, the elements
/// before it moving back one place; without such an element nothing moves.
pub fn move_leader_to_front<T: Identifiable<Id = u64>>(chars: &mut Vec<T>, leader_id: u64)
    ensures
        forall|p: int|
            first_with_id(old(chars)@, leader_id, p) ==> final(chars)@ == seq![old(chars)@[p]]
                + old(chars)@.take(p) + old(chars)@.skip(p + 1),
        (forall|p: int| !first_with_id(old(chars)@, leader_id, p)) ==> final(chars)@ == old(chars)@,
{
    let mut i: usize = 0;
    while i < chars.len()
        invariant
            i <= chars@.len(),
            chars@ == old(chars)@,
            forall|j: int| 0 <= j < i ==> #[trigger] chars@[j].spec_id() != leader_id,
        decreases chars.len() - i,
    {
        if chars[i].id() == leader_id {
            proof {
                assert(first_with_id(old(chars)@, leader_id, i as int));
                assert forall|p: int| first_with_id(old(chars)@, leader_id, p) implies p == i by {
                    if p < i {
                        assert(old(chars)@[p].spec_id() != leader_id);
                    } else if p > i {
                        assert(old(chars)@[i as int].spec_id() != leader_id);
                    }
                }
            }
            if i > 0 {
                let leader = chars.remove(i);
                chars.insert(0, leader);
                assert(chars@ =~= seq![old(chars)@[i as int]] + old(chars)@.take(i as int) + old(chars)@.skip(i + 1));
            } else {
                assert(chars@ =~= seq![old(chars)@[0]] + old(chars)@.take(0) + old(chars)@.skip(1));
            }
            return;
        }
        i = i + 1;
    }
    proof {
        assert forall|p: int| !first_with_id(old(chars)@, leader_id, p) by {
            if 0 <= p < old(chars)@.len() {
                assert(old(chars)@[p].spec_id() != leader_id);
            }
        }
    }
}


/// One of a scene's interactives, as the scene cache reads it.
#[derive(Debug)]
pub struct InteractiveSpawn {
    pub level_logic_id: u64,
    pub template_id: String,
    pub entity_type: i32,
    pub properties: Vec<LvProperty>,
}

/// Ids of the interactives of `spawns` that stay for the whole scene.
pub open spec fn resident_ids_of(spawns: Seq<InteractiveSpawn>) -> Set<u64> {
    Set::new(
        |id: u64|
            exists|i: int|
                0 <= i < spawns.len() && #[trigger] spawns[i].level_logic_id == id && resident_interactive(
                    spawns[i].template_id@,
                    spawns[i].entity_type,
                ),
    )
}

/// Whether `i` is the last interactive of `spawns` with its id.
pub open spec fn last_with_its_id(spawns: Seq<InteractiveSpawn>, i: int) -> bool {
    &&& 0 <= i < spawns.len()
    &&& forall|k: int| i < k < spawns.len() ==> #[trigger] spawns[k].level_logic_id != spawns[i].level_logic_id
}

/// Per-scene lookups built when the scene finishes loading: a cell grid per
/// streamed bucket, the ids of the always-resident interactives and each
/// interactive's current properties.
pub struct SceneCache {
    enemy_grid: CellGrid,
    interactive_grid: CellGrid,
    npc_grid: CellGrid,
    resident_ids: HashSet<u64>,
    interactive_props: HashMap<u64, StrMap<ParamValue>>,
}

impl SceneCache {
    /// The cell of each enemy spawn, by index.
    pub closed spec fn enemy_cells(&self) -> Seq<(i32, i32)> {
        self.enemy_grid@
    }

    /// The cell of each interactive, by index.
    pub closed spec fn interactive_cells(&self) -> Seq<(i32, i32)> {
        self.interactive_grid@
    }

    /// The cell of each NPC, by index.
    pub closed spec fn npc_cells(&self) -> Seq<(i32, i32)> {
        self.npc_grid@
    }

    pub fn enemy_grid(&self) -> (g: &CellGrid)
        ensures
            g@ == self.enemy_cells(),
    {
        &self.enemy_grid
    }

    pub fn interactive_grid(&self) -> (g: &CellGrid)
        ensures
            g@ == self.interactive_cells(),
    {
        &self.interactive_grid
    }

    pub fn npc_grid(&self) -> (g: &CellGrid)
        ensures
            g@ == self.npc_cells(),
    {
        &self.npc_grid
    }

    /// Ids of the always-resident interactives.
    pub closed spec fn residents(&self) -> Set<u64> {
        self.resident_ids@
    }

    /// Properties by interactive id.
    pub closed spec fn properties(&self) -> Map<u64, Map<Seq<char>, ParamView>> {
        self.interactive_props@.map_values(|p: StrMap<ParamValue>| props_view(p))
    }

    /// Files each bucket's objects under the given cells and records, for
    /// `interactives`, which stay resident and their properties (the last
    /// interactive with an id gives that id's properties).
    pub fn build(
        enemy_cells: &Vec<(i32, i32)>,
        interactive_cells: &Vec<(i32, i32)>,
        npc_cells: &Vec<(i32, i32)>,
        interactives: &[InteractiveSpawn],
    ) -> (c: Self)
        ensures
            c.enemy_cells() == enemy_cells@,
            c.interactive_cells() == interactive_cells@,
            c.npc_cells() == npc_cells@,
            c.residents() == resident_ids_of(interactives@),
            forall|id: u64|
                #[trigger] c.properties().contains_key(id) <==> exists|i: int|
                    0 <= i < interactives@.len() && interactives@[i].level_logic_id == id,
            forall|i: int|
                #[trigger] last_with_its_id(interactives@, i) ==> c.properties()[interactives@[i].level_logic_id]
                    == props_of(interactives@[i].properties@),
    {
        let mut resident_ids: HashSet<u64> = HashSet::new();
        let mut interactive_props: HashMap<u64, StrMap<ParamValue>> = HashMap::new();
        let ghost sp = interactives@;
        let mut i: usize = 0;
        while i < interactives.len()
            invariant
                i <= sp.len(),
                sp == interactives@,
                forall|id: u64|
                    #[trigger] resident_ids@.contains(id) <==> exists|j: int|
                        0 <= j < i && #[trigger] sp[j].level_logic_id == id && resident_interactive(
                            sp[j].template_id@,
                            sp[j].entity_type,
                        ),
                forall|id: u64|
                    #[trigger] interactive_props@.contains_key(id) <==> exists|j: int|
                        0 <= j < i && #[trigger] sp[j].level_logic_id == id,
                forall|j: int|
                    0 <= j < i && (forall|k: int| j < k < i ==> #[trigger] sp[k].level_logic_id != sp[j].level_logic_id)
                        ==> props_view(#[trigger] interactive_props@[sp[j].level_logic_id]) == props_of(
                        sp[j].properties@,
                    ),
            decreases sp.len() - i,
        {
            let spawn = &interactives[i];
            let id = spawn.level_logic_id;
            if is_always_resident_interactive(spawn.template_id.as_str(), spawn.entity_type) {
                resident_ids.insert(id);
            }
            let props = lv_props_to_map(spawn.properties.as_slice());
            interactive_props.insert(id, props);
            proof {
                assert forall|x: u64|
                    #[trigger] resident_ids@.contains(x) <==> exists|j: int|
                        0 <= j < i + 1 && #[trigger] sp[j].level_logic_id == x && resident_interactive(
                            sp[j].template_id@,
                            sp[j].entity_type,
                        ) by {
                    if x == id && resident_interactive(sp[i as int].template_id@, sp[i as int].entity_type) {
                        assert(sp[i as int].level_logic_id == x);
                    }
                }
                assert forall|x: u64|
                    #[trigger] interactive_props@.contains_key(x) <==> exists|j: int|
                        0 <= j < i + 1 && #[trigger] sp[j].level_logic_id == x by {
                    if x == id {
                        assert(sp[i as int].level_logic_id == x);
                    }
                }
            }
            i = i + 1;
        }
        let c = SceneCache {
            enemy_grid: CellGrid::build(enemy_cells),
            interactive_grid: CellGrid::build(interactive_cells),
            npc_grid: CellGrid::build(npc_cells),
            resident_ids,
            interactive_props,
        };
        proof {
            assert(c.residents() =~= resident_ids_of(interactives@));
            assert forall|j: int| #[trigger] last_with_its_id(interactives@, j) implies c.properties()[interactives@[j].level_logic_id]
                == props_of(interactives@[j].properties@) by {
                assert(interactive_props@.contains_key(sp[j].level_logic_id));
            }
        }
        c
    }

    /// Whether interactive `id` stays for the whole scene.
    pub fn is_resident(&self, id: u64) -> (b: bool)
        ensures
            b == self.residents().contains(id),
    {
        self.resident_ids.contains(&id)
    }

    /// The current properties of interactive `id`.
    pub fn interactive_properties(&self, id: u64) -> (r: Option<&StrMap<ParamValue>>)
        ensures
            match r {
                Some(p) => self.properties().contains_key(id) && props_view(*p) == self.properties()[id],
                None => !self.properties().contains_key(id),
            },
    {
        self.interactive_props.get(&id)
    }

    /// Sets property `key` of interactive `id` to `value`, returning the value
    /// it replaced; an unknown interactive is left alone and gives `None`.
    pub fn update_interactive_property(&mut self, id: u64, key: &str, value: ParamValue) -> (r: Option<ParamValue>)
        ensures
            final(self).residents() == old(self).residents(),
            final(self).enemy_cells() == old(self).enemy_cells(),
            final(self).interactive_cells() == old(self).interactive_cells(),
            final(self).npc_cells() == old(self).npc_cells(),
            old(self).properties().contains_key(id) ==> {
                &&& final(self).properties() == old(self).properties().insert(
                    id,
                    old(self).properties()[id].insert(key@, value@),
                )
                &&& match r {
                    Some(v) => old(self).properties()[id].contains_key(key@) && v@ == old(self).properties()[id][key@],
                    None => !old(self).properties()[id].contains_key(key@),
                }
            },
            !old(self).properties().contains_key(id) ==> r is None && final(self).properties()
                == old(self).properties(),
    {
        let ghost before = self.interactive_props@;
        match self.interactive_props.remove(&id) {
            Some(mut props) => {
                let prev = match props.get(key) {
                    Some(v) => Some(v.clone()),
                    None => None,
                };
                let ghost old_props = props;
                props.insert(key.to_owned(), value);
                proof {
                    assert(props_view(props) =~= props_view(old_props).insert(key@, value@)) by {
                        assert forall|k: Seq<char>| #[trigger] props.as_map().contains_key(k) <==> old_props.as_map().insert(key@, value).contains_key(k) by {}
                    }
                }
                self.interactive_props.insert(id, props);
                proof {
                    assert(self.interactive_props@ =~= before.insert(id, props));
                    assert(self.properties() =~= old(self).properties().insert(id, props_view(props)));
                }
                prev
            },
            None => {
                proof {
                    assert(self.interactive_props@ =~= before);
                }
                None
            },
        }
    }
}

} // verus!
