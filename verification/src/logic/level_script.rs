//! Level scripts: what their action maps trigger on, how their start
//! conditions read the stored properties, and their runtime state per scene.

use crate::logic::str_map::StrMap;
use crate::logic::text::{chars_eq, slice_chars, str_chars};
use std::collections::BTreeMap;
use vstd::prelude::*;

verus! {

broadcast use {vstd::std_specs::btree::group_btree_axioms, vstd::laws_cmp::group_laws_cmp};

/// Runtime state of a level script.
#[derive(Debug, Clone, Copy, PartialEq, Eq, Structural)]
pub enum LevelScriptState {
    Unset,
    Disabled,
    Enabled,
    Active,
}

impl LevelScriptState {
    pub open spec fn spec_as_i32(self) -> i32 {
        match self {
            LevelScriptState::Unset => 0,
            LevelScriptState::Disabled => 1,
            LevelScriptState::Enabled => 2,
            LevelScriptState::Active => 3,
        }
    }

    /// The protocol's integer code for this state.
    #[verifier::when_used_as_spec(spec_as_i32)]
    pub fn as_i32(self) -> (code: i32)
        ensures
            code == self.spec_as_i32(),
    {
        match self {
            LevelScriptState::Unset => 0,
            LevelScriptState::Disabled => 1,
            LevelScriptState::Enabled => 2,
            LevelScriptState::Active => 3,
        }
    }
}

impl Default for LevelScriptState {
    fn default() -> (s: Self)
        ensures
            s == LevelScriptState::Enabled,
    {
        LevelScriptState::Enabled
    }
}

/// What a property value holds: its value type, its real type, and its bool,
/// integer, float (as bit patterns) and string lists.
pub type ParamView = (i32, i32, Seq<bool>, Seq<i64>, Seq<u32>, Seq<String>);

/// One property value of a level script, as the protocol carries it. Float
/// values are held as their IEEE-754 bit patterns; nothing here computes with them.
#[derive(Debug)]
pub struct ParamValue {
    pub value_type: i32,
    pub real_type: i32,
    pub value_bool_list: Vec<bool>,
    pub value_int_list: Vec<i64>,
    pub value_float_bits: Vec<u32>,
    pub value_string_list: Vec<String>,
}

impl View for ParamValue {
    type V = ParamView;

    open spec fn view(&self) -> ParamView {
        (
            self.value_type,
            self.real_type,
            self.value_bool_list@,
            self.value_int_list@,
            self.value_float_bits@,
            self.value_string_list@,
        )
    }
}

impl Clone for ParamValue {
    fn clone(&self) -> (r: Self)
        ensures
            r@ == self@,
    {
        let bools = self.value_bool_list.clone();
        let ints = self.value_int_list.clone();
        let floats = self.value_float_bits.clone();
        let strings = self.value_string_list.clone();
        proof {
            assert(bools@ =~= self.value_bool_list@);
            assert(ints@ =~= self.value_int_list@);
            assert(floats@ =~= self.value_float_bits@);
            assert(strings@ =~= self.value_string_list@);
        }
        ParamValue {
            value_type: self.value_type,
            real_type: self.real_type,
            value_bool_list: bools,
            value_int_list: ints,
            value_float_bits: floats,
            value_string_list: strings,
        }
    }
}

/// The first entry of a property's bool list.
pub open spec fn first_bool(p: ParamView) -> Option<bool> {
    if p.2.len() > 0 {
        Some(p.2[0])
    } else {
        None
    }
}

impl ParamValue {
    /// The first entry of the bool list, if there is one.
    pub fn first_bool(&self) -> (r: Option<bool>)
        ensures
            r == first_bool(self@),
    {
        if self.value_bool_list.len() > 0 {
            Some(self.value_bool_list[0])
        } else {
            None
        }
    }
}

/// The properties of a script, key by key.
pub open spec fn props_view(p: StrMap<ParamValue>) -> Map<Seq<char>, ParamView> {
    p.as_map().map_values(|v: ParamValue| v@)
}

/// One entry of an action map's header list, reduced to the fields the server
/// reads: `$type` and `_ID` where they are a string and an integer, the
/// `constValue` strings of `_eventKey`, `_filtedQuestId` and `_filtedMissionId`,
/// the `constValue` integer of `_filtedNewState`, and the `idRef` integer of `_validate`.
#[derive(Debug, Clone)]
pub struct ActionHeader {
    pub kind_name: Option<String>,
    pub id: Option<i64>,
    pub event_key: Option<String>,
    pub quest_id: Option<String>,
    pub mission_id: Option<String>,
    pub new_state: Option<i64>,
    pub validate_ref: Option<i64>,
}

/// One entry of an action map's getter list: `_ID` and `$type`, and the
/// `path` string and `idRef` integer under `_value`.
#[derive(Debug, Clone)]
pub struct ActionGetter {
    pub id: Option<i64>,
    pub kind_name: Option<String>,
    pub value_path: Option<String>,
    pub value_ref: Option<i64>,
}

/// A level script of a scene, as the level data defines it. `headers` and
/// `getters` are empty where the script has no parsable embedded action map.
#[derive(Debug)]
pub struct LevelScriptDef {
    pub script_id: u64,
    /// Whether the script has a start shape or an active shape.
    pub has_shapes: bool,
    /// Whether the level data lets the script tick from the start (`allowTick`).
    pub allow_tick: bool,
    pub properties: StrMap<ParamValue>,
    pub headers: Vec<ActionHeader>,
    pub getters: Vec<ActionGetter>,
}

// ---------------------------------------------------------------------------
// Short type names: `A.B.Name, Assembly` names `Name`.
// ---------------------------------------------------------------------------

pub open spec fn is_first_comma(s: Seq<char>, i: int) -> bool {
    &&& 0 <= i < s.len()
    &&& s[i] == ','
    &&& forall|j: int| 0 <= j < i ==> s[j] != ','
}

/// Length of the part of `s` before its first comma.
pub open spec fn head_end(s: Seq<char>) -> int {
    if exists|i: int| is_first_comma(s, i) {
        choose|i: int| is_first_comma(s, i)
    } else {
        s.len() as int
    }
}

pub open spec fn is_last_dot(s: Seq<char>, i: int) -> bool {
    &&& 0 <= i < s.len()
    &&& s[i] == '.'
    &&& forall|j: int| i < j < s.len() ==> s[j] != '.'
}

/// Where the part of `s` after its last dot begins.
pub open spec fn tail_start(s: Seq<char>) -> int {
    if exists|i: int| is_last_dot(s, i) {
        (choose|i: int| is_last_dot(s, i)) + 1
    } else {
        0
    }
}

/// The short name of a type name: of the part before the first comma, the part
/// after the last dot.
pub open spec fn short_type_name(s: Seq<char>) -> Seq<char> {
    let head = s.take(head_end(s));
    head.skip(tail_start(head))
}

/// The short name of the type name `s`.
pub fn short_type_name_of(s: &Vec<char>) -> (r: Vec<char>)
    ensures
        r@ == short_type_name(s@),
{
    let mut end: usize = 0;
    while end < s.len() && s[end] != ','
        invariant
            end <= s.len(),
            forall|j: int| 0 <= j < end ==> s@[j] != ',',
        decreases s.len() - end,
    {
        end = end + 1;
    }
    proof {
        if end < s.len() {
            assert(is_first_comma(s@, end as int));
            let c = choose|i: int| is_first_comma(s@, i);
            assert(c == end as int);
        } else {
            assert(!exists|i: int| is_first_comma(s@, i));
        }
    }
    let ghost head = s@.take(end as int);
    assert(head_end(s@) == end as int);
    let mut start: usize = end;
    while start > 0 && s[start - 1] != '.'
        invariant
            start <= end <= s.len(),
            head == s@.take(end as int),
            forall|j: int| start <= j < end ==> s@[j] != '.',
        decreases start,
    {
        start = start - 1;
    }
    proof {
        if start > 0 {
            assert(is_last_dot(head, start - 1));
            let d = choose|i: int| is_last_dot(head, i);
            assert(d == start - 1);
        } else {
            assert(!exists|i: int| is_last_dot(head, i));
        }
        assert(tail_start(head) == start as int);
        assert(head.skip(start as int) =~= s@.subrange(start as int, end as int));
    }
    slice_chars(s, start, end)
}

/// The characters of an optional type name; a missing one is empty.
pub open spec fn type_chars(t: Option<String>) -> Seq<char> {
    match t {
        Some(s) => s@,
        None => Seq::empty(),
    }
}

fn opt_chars(t: &Option<String>) -> (r: Vec<char>)
    ensures
        r@ == type_chars(*t),
{
    match t {
        Some(s) => str_chars(s.as_str()),
        None => Vec::new(),
    }
}

// ---------------------------------------------------------------------------
// Triggers
// ---------------------------------------------------------------------------

/// What starts a level script, as its action map's headers declare it. State
/// filters hold the code as the map carries it; a code that names no state
/// never equals the code of a state change.
#[derive(Debug, Clone, PartialEq, Eq)]
pub enum TriggerKind {
    ScriptStart,
    ScriptActive,
    CustomEvent(String),
    GuideGroupComplete,
    ServerDialogExit,
    QuestStateChanged { quest_id: Option<String>, new_state: Option<i32> },
    MissionStateChanged { mission_id: Option<String>, new_state: Option<i32> },
}

pub open spec fn state_filter(v: Option<i64>) -> Option<i32> {
    match v {
        Some(x) => Some(x as i32),
        None => None,
    }
}

/// The trigger a header declares, if any.
pub open spec fn header_trigger(h: ActionHeader) -> Option<TriggerKind> {
    let n = short_type_name(type_chars(h.kind_name));
    if n == "OnScriptStart"@ {
        Some(TriggerKind::ScriptStart)
    } else if n == "OnScriptActive"@ {
        Some(TriggerKind::ScriptActive)
    } else if n == "OnCustomEvent"@ {
        match h.event_key {
            Some(e) => if e@.len() > 0 {
                Some(TriggerKind::CustomEvent(e))
            } else {
                None
            },
            None => None,
        }
    } else if n == "OnGuideGroupComplete"@ {
        Some(TriggerKind::GuideGroupComplete)
    } else if n == "OnServerDialogExit"@ {
        Some(TriggerKind::ServerDialogExit)
    } else if n == "OnQuestStateChanged"@ {
        Some(
            TriggerKind::QuestStateChanged {
                quest_id: h.quest_id,
                new_state: state_filter(h.new_state),
            },
        )
    } else if n == "OnMissionStateChanged"@ {
        Some(
            TriggerKind::MissionStateChanged {
                mission_id: h.mission_id,
                new_state: state_filter(h.new_state),
            },
        )
    } else {
        None
    }
}

/// The triggers of a header list, in header order.
pub open spec fn header_triggers(hs: Seq<ActionHeader>) -> Seq<TriggerKind>
    decreases hs.len(),
{
    if hs.len() == 0 {
        Seq::empty()
    } else {
        let prev = header_triggers(hs.drop_last());
        match header_trigger(hs.last()) {
            Some(t) => prev.push(t),
            None => prev,
        }
    }
}

fn clone_opt(s: &Option<String>) -> (r: Option<String>)
    ensures
        r == *s,
{
    match s {
        Some(x) => Some(x.clone()),
        None => None,
    }
}

fn state_filter_of(v: Option<i64>) -> (r: Option<i32>)
    ensures
        r == state_filter(v),
{
    match v {
        Some(x) => Some(#[verifier::truncate] (x as i32)),
        None => None,
    }
}

/// The trigger the header `h` declares, if any.
pub fn trigger_of_header(h: &ActionHeader) -> (r: Option<TriggerKind>)
    ensures
        r == header_trigger(*h),
{
    let n = short_type_name_of(&opt_chars(&h.kind_name));
    if chars_eq(&n, &str_chars("OnScriptStart")) {
        Some(TriggerKind::ScriptStart)
    } else if chars_eq(&n, &str_chars("OnScriptActive")) {
        Some(TriggerKind::ScriptActive)
    } else if chars_eq(&n, &str_chars("OnCustomEvent")) {
        match &h.event_key {
            Some(e) => if e.as_str().unicode_len() > 0 {
                Some(TriggerKind::CustomEvent(e.clone()))
            } else {
                None
            },
            None => None,
        }
    } else if chars_eq(&n, &str_chars("OnGuideGroupComplete")) {
        Some(TriggerKind::GuideGroupComplete)
    } else if chars_eq(&n, &str_chars("OnServerDialogExit")) {
        Some(TriggerKind::ServerDialogExit)
    } else if chars_eq(&n, &str_chars("OnQuestStateChanged")) {
        Some(
            TriggerKind::QuestStateChanged {
                quest_id: clone_opt(&h.quest_id),
                new_state: state_filter_of(h.new_state),
            },
        )
    } else if chars_eq(&n, &str_chars("OnMissionStateChanged")) {
        Some(
            TriggerKind::MissionStateChanged {
                mission_id: clone_opt(&h.mission_id),
                new_state: state_filter_of(h.new_state),
            },
        )
    } else {
        None
    }
}

/// The state a script's headers leave it in, from `start`: a root
/// `OnScriptStart` header (`_ID` 0) makes it Active, an `OnScriptActive`
/// header makes it Enabled, each over the ones before it.
pub open spec fn header_initial_state(start: LevelScriptState, hs: Seq<ActionHeader>) -> LevelScriptState
    decreases hs.len(),
{
    if hs.len() == 0 {
        start
    } else {
        let prev = header_initial_state(start, hs.drop_last());
        let h = hs.last();
        let n = short_type_name(type_chars(h.kind_name));
        if n == "OnScriptStart"@ && h.id == Some(0i64) {
            LevelScriptState::Active
        } else if n == "OnScriptActive"@ {
            LevelScriptState::Enabled
        } else {
            prev
        }
    }
}

/// The state a script starts in: Enabled whenever it has a start or active
/// shape (the client then decides when it becomes Active); otherwise what its
/// headers leave it in, starting from Active when it may tick and Enabled
/// when not.
pub open spec fn script_start_state(d: LevelScriptDef) -> LevelScriptState {
    if d.has_shapes {
        LevelScriptState::Enabled
    } else {
        header_initial_state(
            if d.allow_tick {
                LevelScriptState::Active
            } else {
                LevelScriptState::Enabled
            },
            d.headers@,
        )
    }
}

/// A script's starting state and the triggers its action map declares.
#[derive(Debug, Clone, PartialEq, Eq)]
pub struct ScriptTriggerSet {
    pub initial_state: LevelScriptState,
    pub triggers: Vec<TriggerKind>,
}

fn header_trigger_list(def: &LevelScriptDef) -> (r: Vec<TriggerKind>)
    ensures
        r@ == header_triggers(def.headers@),
{
    let mut r: Vec<TriggerKind> = Vec::new();
    let mut i: usize = 0;
    while i < def.headers.len()
        invariant
            i <= def.headers@.len(),
            r@ == header_triggers(def.headers@.take(i as int)),
        decreases def.headers.len() - i,
    {
        let t = trigger_of_header(&def.headers[i]);
        proof {
            let next = def.headers@.take(i + 1);
            assert(next.drop_last() =~= def.headers@.take(i as int));
            assert(next.last() == def.headers@[i as int]);
        }
        match t {
            Some(t) => r.push(t),
            None => {},
        }
        i = i + 1;
    }
    assert(def.headers@.take(def.headers@.len() as int) =~= def.headers@);
    r
}

/// The state a script starts in and the triggers its action map declares,
/// in header order.
pub fn build_trigger_set(def: &LevelScriptDef) -> (r: ScriptTriggerSet)
    ensures
        r.initial_state == script_start_state(*def),
        r.triggers@ == header_triggers(def.headers@),
{
    let triggers = header_trigger_list(def);
    let start = if def.allow_tick {
        LevelScriptState::Active
    } else {
        LevelScriptState::Enabled
    };
    let mut state = start;
    let mut i: usize = 0;
    while i < def.headers.len()
        invariant
            i <= def.headers@.len(),
            state == header_initial_state(start, def.headers@.take(i as int)),
        decreases def.headers.len() - i,
    {
        let h = &def.headers[i];
        proof {
            let next = def.headers@.take(i + 1);
            assert(next.drop_last() =~= def.headers@.take(i as int));
            assert(next.last() == def.headers@[i as int]);
        }
        let n = short_type_name_of(&opt_chars(&h.kind_name));
        if chars_eq(&n, &str_chars("OnScriptStart")) && h.id == Some(0i64) {
            state = LevelScriptState::Active;
        } else if chars_eq(&n, &str_chars("OnScriptActive")) {
            state = LevelScriptState::Enabled;
        }
        i = i + 1;
    }
    assert(def.headers@.take(def.headers@.len() as int) =~= def.headers@);
    if def.has_shapes {
        state = LevelScriptState::Enabled;
    }
    ScriptTriggerSet { initial_state: state, triggers }
}

/// The kinds of server-side event that level scripts can be waiting for.
#[derive(Debug, Clone, Copy, PartialEq, Eq, Structural)]
pub enum ScriptEventKind {
    CustomEvent,
    DialogFinished,
    GuideGroupCompleted,
    QuestStateChanged,
    MissionStateChanged,
}

/// An event's kind, the name it carries (the custom event, quest or mission;
/// empty for the others) and the state code it carries (0 where none).
pub type EventView = (ScriptEventKind, Seq<char>, i32);

/// A server-side event that level scripts can be waiting for.
#[derive(Debug)]
pub struct ScriptEvent {
    pub kind: ScriptEventKind,
    pub name: String,
    pub state: i32,
}

impl View for ScriptEvent {
    type V = EventView;

    open spec fn view(&self) -> EventView {
        (self.kind, self.name@, self.state)
    }
}

/// Whether the trigger `t` fires on the event `e`.
pub open spec fn trigger_fires(t: TriggerKind, e: EventView) -> bool {
    match e.0 {
        ScriptEventKind::CustomEvent => t matches TriggerKind::CustomEvent(x) && x@ == e.1,
        ScriptEventKind::DialogFinished => t is ServerDialogExit,
        ScriptEventKind::GuideGroupCompleted => t is GuideGroupComplete,
        ScriptEventKind::QuestStateChanged => match t {
            TriggerKind::QuestStateChanged { quest_id: Some(x), new_state: Some(y) } => x@ == e.1 && y == e.2,
            _ => false,
        },
        ScriptEventKind::MissionStateChanged => match t {
            TriggerKind::MissionStateChanged { mission_id: Some(x), new_state: Some(y) } => x@ == e.1 && y
                == e.2,
            _ => false,
        },
    }
}

fn same_text(a: &String, b: &String) -> (r: bool)
    ensures
        r == (a@ == b@),
{
    chars_eq(&str_chars(a.as_str()), &str_chars(b.as_str()))
}

/// Whether the trigger `t` fires on the event `e`.
pub fn trigger_fires_on(t: &TriggerKind, e: &ScriptEvent) -> (r: bool)
    ensures
        r == trigger_fires(*t, e@),
{
    match e.kind {
        ScriptEventKind::CustomEvent => match t {
            TriggerKind::CustomEvent(x) => same_text(x, &e.name),
            _ => false,
        },
        ScriptEventKind::DialogFinished => match t {
            TriggerKind::ServerDialogExit => true,
            _ => false,
        },
        ScriptEventKind::GuideGroupCompleted => match t {
            TriggerKind::GuideGroupComplete => true,
            _ => false,
        },
        ScriptEventKind::QuestStateChanged => match t {
            TriggerKind::QuestStateChanged { quest_id: Some(x), new_state: Some(y) } => same_text(x, &e.name)
                && *y == e.state,
            _ => false,
        },
        ScriptEventKind::MissionStateChanged => match t {
            TriggerKind::MissionStateChanged { mission_id: Some(x), new_state: Some(y) } => same_text(
                x,
                &e.name,
            ) && *y == e.state,
            _ => false,
        },
    }
}

// ---------------------------------------------------------------------------
// Start conditions
// ---------------------------------------------------------------------------

/// `i` is the first getter with the `_ID` `id`.
pub open spec fn is_first_getter(gs: Seq<ActionGetter>, id: i32, i: int) -> bool {
    &&& 0 <= i < gs.len()
    &&& gs[i].id == Some(id as i64)
    &&& forall|j: int| 0 <= j < i ==> gs[j].id != Some(id as i64)
}

/// The property key a bool getter reads: its path after `self_bb.`.
pub open spec fn blackboard_key(path: Seq<char>) -> Option<Seq<char>> {
    let p = "self_bb."@;
    if p.len() <= path.len() && path.take(p.len() as int) == p {
        Some(path.skip(p.len() as int))
    } else {
        None
    }
}

/// What a bool getter with path `path` reads from the stored properties: the
/// first bool of the property it names (false where there is none), or true
/// for a path outside the script's blackboard.
pub open spec fn bool_getter_value(path: Option<String>, props: Option<Map<Seq<char>, ParamView>>) -> bool {
    let chars = type_chars(path);
    match blackboard_key(chars) {
        Some(key) => match props {
            Some(m) => if m.contains_key(key) {
                match first_bool(m[key]) {
                    Some(b) => b,
                    None => false,
                }
            } else {
                false
            },
            None => false,
        },
        None => true,
    }
}

/// The getter an inverting getter negates: its `idRef`, or else the getter
/// just before it.
pub open spec fn inner_getter_id(g: ActionGetter, id: i32) -> i32 {
    (match g.value_ref {
        Some(r) => r as int,
        None => id as int - 1,
    }) as i32
}

/// The value of getter `id`, following at most `fuel` inverting getters;
/// `None` when the chain is longer. A missing getter and a getter of another
/// kind read as true.
pub open spec fn getter_value(
    id: i32,
    gs: Seq<ActionGetter>,
    props: Option<Map<Seq<char>, ParamView>>,
    fuel: nat,
) -> Option<bool>
    decreases fuel,
{
    if exists|i: int| is_first_getter(gs, id, i) {
        let g = gs[choose|i: int| is_first_getter(gs, id, i)];
        let n = short_type_name(type_chars(g.kind_name));
        if n == "BoolGetter"@ {
            Some(bool_getter_value(g.value_path, props))
        } else if n == "BoolGetterInvert"@ {
            if fuel == 0 {
                None
            } else {
                match getter_value(inner_getter_id(g, id), gs, props, (fuel - 1) as nat) {
                    Some(b) => Some(!b),
                    None => None,
                }
            }
        } else {
            Some(true)
        }
    } else {
        Some(true)
    }
}

/// Whether the chain of getters from `id` ends within `fuel` inversions does
/// not depend on the stored properties.
pub proof fn lemma_getter_chain_ignores_props(
    id: i32,
    gs: Seq<ActionGetter>,
    p1: Option<Map<Seq<char>, ParamView>>,
    p2: Option<Map<Seq<char>, ParamView>>,
    fuel: nat,
)
    ensures
        getter_value(id, gs, p1, fuel) is Some <==> getter_value(id, gs, p2, fuel) is Some,
    decreases fuel,
{
    if fuel > 0 && exists|i: int| is_first_getter(gs, id, i) {
        let g = gs[choose|i: int| is_first_getter(gs, id, i)];
        lemma_getter_chain_ignores_props(inner_getter_id(g, id), gs, p1, p2, (fuel - 1) as nat);
    }
}

pub open spec fn props_opt_view(p: Option<&StrMap<ParamValue>>) -> Option<Map<Seq<char>, ParamView>> {
    match p {
        Some(m) => Some(props_view(*m)),
        None => None,
    }
}

fn stored_bool(path: &Option<String>, props: Option<&StrMap<ParamValue>>) -> (r: bool)
    ensures
        r == bool_getter_value(*path, props_opt_view(props)),
{
    let chars = opt_chars(path);
    let prefix = str_chars("self_bb.");
    if prefix.len() <= chars.len() && chars_eq(&slice_chars(&chars, 0, prefix.len()), &prefix) {
        proof {
            assert(chars@.subrange(0, prefix@.len() as int) =~= chars@.take(prefix@.len() as int));
        }
        let key_chars = slice_chars(&chars, prefix.len(), chars.len());
        let key = crate::logic::text::string_from_chars(key_chars.as_slice());
        proof {
            assert(key_chars@ =~= chars@.skip(prefix@.len() as int));
        }
        match props {
            Some(m) => match m.get(key.as_str()) {
                Some(v) => match v.first_bool() {
                    Some(b) => b,
                    None => false,
                },
                None => false,
            },
            None => false,
        }
    } else {
        proof {
            if prefix@.len() <= chars@.len() {
                assert(chars@.subrange(0, prefix@.len() as int) =~= chars@.take(prefix@.len() as int));
            }
        }
        true
    }
}

fn has_id(o: Option<i64>, x: i64) -> (b: bool)
    ensures
        b == (o == Some(x)),
{
    match o {
        Some(v) => v == x,
        None => false,
    }
}

/// The value of getter `id`, following at most `fuel` inverting getters.
pub fn eval_getter(id: i32, gs: &Vec<ActionGetter>, props: Option<&StrMap<ParamValue>>, fuel: usize) -> (r:
    Option<bool>)
    ensures
        r == getter_value(id, gs@, props_opt_view(props), fuel as nat),
    decreases fuel,
{
    let mut i: usize = 0;
    while i < gs.len() && !has_id(gs[i].id, id as i64)
        invariant
            i <= gs@.len(),
            forall|j: int| 0 <= j < i ==> gs@[j].id != Some(id as i64),
        decreases gs.len() - i,
    {
        i = i + 1;
    }
    if i == gs.len() {
        proof {
            assert(!exists|k: int| is_first_getter(gs@, id, k));
        }
        return Some(true);
    }
    proof {
        assert(is_first_getter(gs@, id, i as int));
        let c = choose|k: int| is_first_getter(gs@, id, k);
        assert(c == i as int);
    }
    let g = &gs[i];
    let n = short_type_name_of(&opt_chars(&g.kind_name));
    if chars_eq(&n, &str_chars("BoolGetter")) {
        Some(stored_bool(&g.value_path, props))
    } else if chars_eq(&n, &str_chars("BoolGetterInvert")) {
        if fuel == 0 {
            return None;
        }
        let inner: i64 = match g.value_ref {
            Some(r) => r,
            None => id as i64 - 1,
        };
        match eval_getter(#[verifier::truncate] (inner as i32), gs, props, fuel - 1) {
            Some(b) => Some(!b),
            None => None,
        }
    } else {
        Some(true)
    }
}

/// `h` is named `name` and sits at the root of the action graph (`_ID` 0).
pub open spec fn is_root_header(h: ActionHeader, name: Seq<char>) -> bool {
    short_type_name(type_chars(h.kind_name)) == name && h.id == Some(0i64)
}

pub open spec fn is_first_root_start(hs: Seq<ActionHeader>, i: int) -> bool {
    &&& 0 <= i < hs.len()
    &&& is_root_header(hs[i], "OnScriptStart"@)
    &&& forall|j: int| 0 <= j < i ==> !is_root_header(hs[j], "OnScriptStart"@)
}

/// The action map starts the script from its root.
pub open spec fn has_root_start(hs: Seq<ActionHeader>) -> bool {
    exists|i: int| 0 <= i < hs.len() && is_root_header(hs[i], "OnScriptStart"@)
}

/// The action map's root header is an `OnScriptActive`.
pub open spec fn has_root_active(hs: Seq<ActionHeader>) -> bool {
    exists|i: int| 0 <= i < hs.len() && is_root_header(hs[i], "OnScriptActive"@)
}

/// Whether the first root `OnScriptStart` header's validate condition holds
/// (true where there is no such header or it has no condition), with at most
/// `fuel` inverting getters followed.
pub open spec fn start_condition(
    hs: Seq<ActionHeader>,
    gs: Seq<ActionGetter>,
    props: Option<Map<Seq<char>, ParamView>>,
    fuel: nat,
) -> Option<bool> {
    if exists|i: int| is_first_root_start(hs, i) {
        let h = hs[choose|i: int| is_first_root_start(hs, i)];
        match h.validate_ref {
            Some(r) => getter_value(r as i32, gs, props, fuel),
            None => Some(true),
        }
    } else {
        Some(true)
    }
}

/// The script's start condition can be evaluated: its getter chain ends.
pub open spec fn start_condition_ends(d: LevelScriptDef) -> bool {
    start_condition(d.headers@, d.getters@, None, d.getters@.len()) is Some
}

fn root_header_index(hs: &Vec<ActionHeader>, name: &Vec<char>) -> (r: Option<usize>)
    ensures
        match r {
            Some(i) => i < hs@.len() && is_root_header(hs@[i as int], name@) && forall|j: int|
                0 <= j < i ==> !is_root_header(hs@[j], name@),
            None => forall|j: int| 0 <= j < hs@.len() ==> !is_root_header(hs@[j], name@),
        },
{
    let mut i: usize = 0;
    while i < hs.len()
        invariant
            i <= hs@.len(),
            forall|j: int| 0 <= j < i ==> !is_root_header(hs@[j], name@),
        decreases hs.len() - i,
    {
        let n = short_type_name_of(&opt_chars(&hs[i].kind_name));
        if chars_eq(&n, name) && has_id(hs[i].id, 0) {
            return Some(i);
        }
        i = i + 1;
    }
    None
}

/// Whether the action map starts the script from its root.
pub fn has_root_on_script_start(hs: &Vec<ActionHeader>) -> (b: bool)
    ensures
        b == has_root_start(hs@),
{
    root_header_index(hs, &str_chars("OnScriptStart")).is_some()
}

/// Whether the start condition holds, given the stored properties.
pub fn on_script_start_validate_passes(
    hs: &Vec<ActionHeader>,
    gs: &Vec<ActionGetter>,
    props: Option<&StrMap<ParamValue>>,
) -> (r: bool)
    requires
        start_condition(hs@, gs@, None, gs@.len()) is Some,
    ensures
        Some(r) == start_condition(hs@, gs@, props_opt_view(props), gs@.len()),
{
    let name = str_chars("OnScriptStart");
    match root_header_index(hs, &name) {
        Some(i) => {
            proof {
                assert(is_first_root_start(hs@, i as int));
                let c = choose|k: int| is_first_root_start(hs@, k);
                assert(c == i as int);
            }
            match hs[i].validate_ref {
                Some(r) => {
                    proof {
                        lemma_getter_chain_ignores_props(
                            r as i32,
                            gs@,
                            None,
                            props_opt_view(props),
                            gs@.len(),
                        );
                    }
                    match eval_getter(#[verifier::truncate] (r as i32), gs, props, gs.len()) {
                        Some(b) => b,
                        None => true,
                    }
                },
                None => true,
            }
        },
        None => {
            proof {
                assert(!exists|k: int| is_first_root_start(hs@, k));
            }
            true
        },
    }
}

impl LevelScriptDef {
    /// Whether the start condition of this script can be evaluated, that is
    /// its chain of inverting getters does not run in a circle.
    pub fn start_condition_ends(&self) -> (b: bool)
        ensures
            b == start_condition_ends(*self),
    {
        let name = str_chars("OnScriptStart");
        match root_header_index(&self.headers, &name) {
            Some(i) => {
                proof {
                    assert(is_first_root_start(self.headers@, i as int));
                    let c = choose|k: int| is_first_root_start(self.headers@, k);
                    assert(c == i as int);
                }
                match self.headers[i].validate_ref {
                    Some(r) => eval_getter(#[verifier::truncate] (r as i32), &self.getters, None, self.getters.len()).is_some(),
                    None => true,
                }
            },
            None => {
                proof {
                    assert(!exists|k: int| is_first_root_start(self.headers@, k));
                }
                true
            },
        }
    }
}

// ---------------------------------------------------------------------------
// Runtime state
// ---------------------------------------------------------------------------

/// A script's runtime state: its state, its properties, the number of cache
/// steps committed, and the progression flags and server events consumed.
pub type RuntimeView = (LevelScriptState, Map<Seq<char>, ParamView>, u32, Set<Seq<char>>, Set<Seq<char>>);

/// The runtime state of one level script.
#[derive(Debug)]
pub struct ScriptRuntime {
    pub state: LevelScriptState,
    pub properties: StrMap<ParamValue>,
    pub committed_cache_steps: u32,
    pub consumed_progression_flags: StrMap<()>,
    pub consumed_server_events: StrMap<()>,
}

impl View for ScriptRuntime {
    type V = RuntimeView;

    open spec fn view(&self) -> RuntimeView {
        (
            self.state,
            props_view(self.properties),
            self.committed_cache_steps,
            self.consumed_progression_flags.as_map().dom(),
            self.consumed_server_events.as_map().dom(),
        )
    }
}

/// A runtime state that nothing has touched yet.
pub open spec fn fresh_runtime(state: LevelScriptState, props: Map<Seq<char>, ParamView>) -> RuntimeView {
    (state, props, 0, Set::empty(), Set::empty())
}

/// The runtime state a script gets when first touched outside a scene sync.
pub open spec fn default_runtime() -> RuntimeView {
    fresh_runtime(LevelScriptState::Enabled, Map::empty())
}

proof fn lemma_new_map_empty<V>(m: StrMap<V>)
    requires
        m.entries_view().len() == 0,
    ensures
        m.as_map() == Map::<Seq<char>, V>::empty(),
{
    assert(m.as_map() =~= Map::<Seq<char>, V>::empty());
}

proof fn lemma_props_empty(p: StrMap<ParamValue>)
    ensures
        (p.entries_view().len() == 0) <==> (props_view(p) == Map::<Seq<char>, ParamView>::empty()),
{
    if p.entries_view().len() == 0 {
        assert(props_view(p) =~= Map::<Seq<char>, ParamView>::empty());
    } else {
        let k = p.entries_view()[0].0@;
        assert(p.spec_get(k) is Some);
        assert(props_view(p).contains_key(k));
    }
}

fn clone_props(p: &StrMap<ParamValue>) -> (r: StrMap<ParamValue>)
    ensures
        props_view(r) == props_view(*p),
{
    let r = p.cloned_map();
    proof {
        assert forall|k: Seq<char>| #[trigger] props_view(r).contains_key(k) == props_view(*p).contains_key(k)
            && (props_view(r).contains_key(k) ==> props_view(r)[k] == props_view(*p)[k]) by {
            if p.spec_get(k) is Some {
                assert(cloned::<ParamValue>(p.spec_get(k).unwrap(), r.spec_get(k).unwrap()));
            }
        }
        assert(props_view(r) =~= props_view(*p));
    }
    r
}

impl ScriptRuntime {
    fn fresh(state: LevelScriptState, properties: StrMap<ParamValue>) -> (r: Self)
        ensures
            r@ == fresh_runtime(state, props_view(properties)),
    {
        let flags: StrMap<()> = StrMap::new();
        let events: StrMap<()> = StrMap::new();
        proof {
            lemma_new_map_empty(flags);
            lemma_new_map_empty(events);
        }
        ScriptRuntime {
            state,
            properties,
            committed_cache_steps: 0,
            consumed_progression_flags: flags,
            consumed_server_events: events,
        }
    }
}

/// The runtime states of a scene's scripts, by script id.
pub open spec fn scripts_view(m: BTreeMap<i32, ScriptRuntime>) -> Map<i32, RuntimeView> {
    m@.map_values(|r: ScriptRuntime| r@)
}

/// The scripts of `scene`; none where the scene has not been touched.
pub open spec fn scripts_in(scenes: Map<Seq<char>, Map<i32, RuntimeView>>, scene: Seq<char>) -> Map<
    i32,
    RuntimeView,
> {
    if scenes.contains_key(scene) {
        scenes[scene]
    } else {
        Map::empty()
    }
}

/// The runtime state of script `id` of `scene`, or the untouched one.
pub open spec fn runtime_in(scenes: Map<Seq<char>, Map<i32, RuntimeView>>, scene: Seq<char>, id: i32) -> RuntimeView {
    let m = scripts_in(scenes, scene);
    if m.contains_key(id) {
        m[id]
    } else {
        default_runtime()
    }
}

/// The properties stored for script `id` of `scene`, if it has a runtime state.
pub open spec fn stored_props(scenes: Map<Seq<char>, Map<i32, RuntimeView>>, scene: Seq<char>, id: i32) -> Option<
    Map<Seq<char>, ParamView>,
> {
    let m = scripts_in(scenes, scene);
    if m.contains_key(id) {
        Some(m[id].1)
    } else {
        None
    }
}

/// `scenes` with script `id` of `scene` holding `r`.
pub open spec fn put_runtime(
    scenes: Map<Seq<char>, Map<i32, RuntimeView>>,
    scene: Seq<char>,
    id: i32,
    r: RuntimeView,
) -> Map<Seq<char>, Map<i32, RuntimeView>> {
    scenes.insert(scene, scripts_in(scenes, scene).insert(id, r))
}

pub open spec fn with_state(r: RuntimeView, s: LevelScriptState) -> RuntimeView {
    (s, r.1, r.2, r.3, r.4)
}

/// What setting the state of script `id` to `s` answers: the new state, or
/// nothing where it was already `s`.
pub open spec fn set_state_result(
    scenes: Map<Seq<char>, Map<i32, RuntimeView>>,
    scene: Seq<char>,
    id: i32,
    s: LevelScriptState,
) -> Option<LevelScriptState> {
    if runtime_in(scenes, scene, id).0 == s {
        None
    } else {
        Some(s)
    }
}

/// The scenes after setting the state of script `id` to `s`.
pub open spec fn set_state_scenes(
    scenes: Map<Seq<char>, Map<i32, RuntimeView>>,
    scene: Seq<char>,
    id: i32,
    s: LevelScriptState,
) -> Map<Seq<char>, Map<i32, RuntimeView>> {
    put_runtime(scenes, scene, id, with_state(runtime_in(scenes, scene, id), s))
}

/// The state a script starts in: a few scripts of the first dungeon and the
/// first open level start active, all others enabled.
pub open spec fn initial_state(scene: Seq<char>, id: i32) -> LevelScriptState {
    if (scene == "map01_dg003"@ && (id == 5 || id == 19)) || (scene == "map01_lv001"@ && (id == 70001
        || id == 70010 || id == 30018)) {
        LevelScriptState::Active
    } else {
        LevelScriptState::Enabled
    }
}

/// The id a script is known by at run time.
pub open spec fn def_id(d: LevelScriptDef) -> i32 {
    d.script_id as i32
}

/// A script's runtime state after a scene sync: a new one in the initial state
/// with the defined properties, or the stored one with an unset state and
/// empty properties filled in.
pub open spec fn synced_runtime(
    old: Option<RuntimeView>,
    init: LevelScriptState,
    props: Map<Seq<char>, ParamView>,
) -> RuntimeView {
    match old {
        Some(r) => (
            if r.0 == LevelScriptState::Unset {
                init
            } else {
                r.0
            },
            if r.1 == Map::<Seq<char>, ParamView>::empty() {
                props
            } else {
                r.1
            },
            r.2,
            r.3,
            r.4,
        ),
        None => fresh_runtime(init, props),
    }
}

/// A scene's scripts after syncing them, definition by definition, with `defs`.
pub open spec fn sync_scripts(m: Map<i32, RuntimeView>, scene: Seq<char>, defs: Seq<LevelScriptDef>) -> Map<
    i32,
    RuntimeView,
>
    decreases defs.len(),
{
    if defs.len() == 0 {
        m
    } else {
        let prev = sync_scripts(m, scene, defs.drop_last());
        let d = defs.last();
        let id = def_id(d);
        prev.insert(
            id,
            synced_runtime(
                if prev.contains_key(id) {
                    Some(prev[id])
                } else {
                    None
                },
                initial_state(scene, id),
                props_view(d.properties),
            ),
        )
    }
}

/// The scenes after syncing `scene` with `defs`.
pub open spec fn synced_scenes(
    scenes: Map<Seq<char>, Map<i32, RuntimeView>>,
    scene: Seq<char>,
    defs: Seq<LevelScriptDef>,
) -> Map<Seq<char>, Map<i32, RuntimeView>> {
    scenes.insert(scene, sync_scripts(scripts_in(scenes, scene), scene, defs))
}

fn initial_state_of(scene: &str, id: i32) -> (s: LevelScriptState)
    ensures
        s == initial_state(scene@, id),
{
    let name = str_chars(scene);
    if (chars_eq(&name, &str_chars("map01_dg003")) && (id == 5 || id == 19)) || (chars_eq(
        &name,
        &str_chars("map01_lv001"),
    ) && (id == 70001 || id == 70010 || id == 30018)) {
        LevelScriptState::Active
    } else {
        LevelScriptState::Enabled
    }
}

fn take_script(m: &mut BTreeMap<i32, ScriptRuntime>, id: i32) -> (r: ScriptRuntime)
    ensures
        r@ == (if scripts_view(*old(m)).contains_key(id) {
            scripts_view(*old(m))[id]
        } else {
            default_runtime()
        }),
        scripts_view(*final(m)) == scripts_view(*old(m)).remove(id),
{
    let r = match m.remove(&id) {
        Some(r) => r,
        None => {
            let p: StrMap<ParamValue> = StrMap::new();
            proof {
                lemma_props_empty(p);
            }
            ScriptRuntime::fresh(LevelScriptState::Enabled, p)
        },
    };
    proof {
        assert(scripts_view(*m) =~= scripts_view(*old(m)).remove(id));
    }
    r
}

fn put_script(m: &mut BTreeMap<i32, ScriptRuntime>, id: i32, r: ScriptRuntime)
    ensures
        scripts_view(*final(m)) == scripts_view(*old(m)).insert(id, r@),
{
    let ghost rv = r@;
    m.insert(id, r);
    assert(scripts_view(*m) =~= scripts_view(*old(m)).insert(id, rv));
}

fn note_key(set: &mut StrMap<()>, key: &str) -> (fresh: bool)
    ensures
        fresh == !old(set).as_map().dom().contains(key@),
        final(set).as_map().dom() == old(set).as_map().dom().insert(key@),
{
    if set.contains_key(key) {
        assert(set.as_map().dom() =~= old(set).as_map().dom().insert(key@));
        false
    } else {
        set.insert(key.to_owned(), ());
        assert(set.as_map().dom() =~= old(set).as_map().dom().insert(key@));
        true
    }
}

pub open spec fn consume_flag(r: RuntimeView, f: Seq<char>) -> RuntimeView {
    (r.0, r.1, r.2, r.3.insert(f), r.4)
}

pub open spec fn consume_event(r: RuntimeView, e: Seq<char>) -> RuntimeView {
    (r.0, r.1, r.2, r.3, r.4.insert(e))
}


/// A script's runtime state with `props` merged over its properties.
pub open spec fn with_props(r: RuntimeView, props: Map<Seq<char>, ParamView>) -> RuntimeView {
    (r.0, r.1.union_prefer_right(props), r.2, r.3, r.4)
}

/// A script's runtime state with one more committed cache step (saturating).
pub open spec fn with_cache_step(r: RuntimeView) -> RuntimeView {
    (r.0, r.1, if r.2 == u32::MAX { u32::MAX } else { (r.2 + 1) as u32 }, r.3, r.4)
}

proof fn lemma_props_view_at(m: StrMap<ParamValue>, k: Seq<char>)
    ensures
        props_view(m).contains_key(k) == (m.spec_get(k) is Some),
        m.spec_get(k) is Some ==> props_view(m)[k] == m.spec_get(k).unwrap()@,
{
}

fn merge_props(into: &mut StrMap<ParamValue>, from: &StrMap<ParamValue>)
    ensures
        props_view(*final(into)) == props_view(*old(into)).union_prefer_right(props_view(*from)),
{
    let es = from.entries();
    let ghost base = props_view(*old(into));
    let mut i: usize = 0;
    while i < es.len()
        invariant
            i <= es@.len(),
            es@ == from.entries_view(),
            crate::logic::str_map::keys_sorted(es@),
            forall|k: Seq<char>|
                #[trigger] props_view(*into).contains_key(k) == (base.contains_key(k) || exists|j: int|
                    0 <= j < i && es@[j].0@ == k),
            forall|j: int| 0 <= j < i ==> props_view(*into)[(#[trigger] es@[j]).0@] == es@[j].1@,
            forall|k: Seq<char>|
                #[trigger] base.contains_key(k) && !(exists|j: int| 0 <= j < i && es@[j].0@ == k) ==> props_view(
                    *into,
                )[k] == base[k],
        decreases es.len() - i,
    {
        let k = es[i].0.clone();
        let v = es[i].1.clone();
        let ghost prev = props_view(*into);
        let ghost pm = *into;
        into.insert(k, v);
        proof {
            assert forall|j: int| 0 <= j < i + 1 implies props_view(*into)[(#[trigger] es@[j]).0@] == es@[j].1@ by {
                lemma_props_view_at(*into, es@[j].0@);
                lemma_props_view_at(pm, es@[j].0@);
                if j < i {
                    assert(crate::logic::text::seq_lt(es@[j].0@, es@[i as int].0@));
                    if es@[j].0@ == es@[i as int].0@ {
                        crate::logic::text::lemma_seq_lt_irreflexive(es@[j].0@);
                    }
                }
            }
            assert forall|k: Seq<char>| #[trigger] props_view(*into).contains_key(k) == (base.contains_key(k)
                || exists|j: int| 0 <= j < i + 1 && es@[j].0@ == k) by {
                lemma_props_view_at(*into, k);
                lemma_props_view_at(pm, k);
                if k == es@[i as int].0@ {
                    assert(0 <= i < i + 1 && es@[i as int].0@ == k);
                } else if exists|j: int| 0 <= j < i + 1 && es@[j].0@ == k {
                    let j = choose|j: int| 0 <= j < i + 1 && es@[j].0@ == k;
                    assert(0 <= j < i);
                }
            }
            assert forall|k: Seq<char>|
                #[trigger] base.contains_key(k) && !(exists|j: int| 0 <= j < i + 1 && es@[j].0@ == k) implies props_view(
                *into,
            )[k] == base[k] by {
                lemma_props_view_at(*into, k);
                lemma_props_view_at(pm, k);
                assert(k != es@[i as int].0@);
                assert(!(exists|j: int| 0 <= j < i && es@[j].0@ == k)) by {
                    if exists|j: int| 0 <= j < i && es@[j].0@ == k {
                        let j = choose|j: int| 0 <= j < i && es@[j].0@ == k;
                        assert(0 <= j < i + 1);
                    }
                }
            }
        }
        i = i + 1;
    }
    proof {
        crate::logic::str_map::lemma_entries_map(es@);
        let target = base.union_prefer_right(props_view(*from));
        assert forall|k: Seq<char>| #[trigger] props_view(*into).contains_key(k) == target.contains_key(k) by {
            if exists|j: int| 0 <= j < es@.len() && es@[j].0@ == k {
                let j = choose|j: int| 0 <= j < es@.len() && es@[j].0@ == k;
                assert(crate::logic::str_map::value_of(es@, es@[j].0@) == Some(es@[j].1));
                assert(from.spec_get(k) is Some);
            } else if from.spec_get(k) is Some {
                assert(exists|j: int| 0 <= j < es@.len() && (#[trigger] es@[j]).0@ == k);
            }
        }
        assert forall|k: Seq<char>| #[trigger] props_view(*into).contains_key(k) implies props_view(*into)[k]
            == target[k] by {
            if exists|j: int| 0 <= j < es@.len() && es@[j].0@ == k {
                let j = choose|j: int| 0 <= j < es@.len() && es@[j].0@ == k;
                assert(props_view(*into)[es@[j].0@] == es@[j].1@);
                assert(crate::logic::str_map::value_of(es@, es@[j].0@) == Some(es@[j].1));
            } else if from.spec_get(k) is Some {
                assert(exists|j: int| 0 <= j < es@.len() && (#[trigger] es@[j]).0@ == k);
            }
        }
        assert(props_view(*into) =~= target);
    }
}

/// The level scripts of every scene the player has been in, with their
/// runtime state, and the scene the player is in.
#[derive(Debug)]
pub struct LevelScriptManager {
    current_scene: String,
    runtime_by_scene: StrMap<BTreeMap<i32, ScriptRuntime>>,
}

impl LevelScriptManager {
    /// The scene last synced.
    pub closed spec fn current_scene(&self) -> Seq<char> {
        self.current_scene@
    }

    /// The runtime states of every touched scene's scripts.
    pub closed spec fn scenes(&self) -> Map<Seq<char>, Map<i32, RuntimeView>> {
        self.runtime_by_scene.as_map().map_values(|m: BTreeMap<i32, ScriptRuntime>| scripts_view(m))
    }

    /// A manager that has touched no scene.
    pub fn new() -> (m: Self)
        ensures
            m.current_scene() == Seq::<char>::empty(),
            m.scenes() == Map::<Seq<char>, Map<i32, RuntimeView>>::empty(),
    {
        let r: StrMap<BTreeMap<i32, ScriptRuntime>> = StrMap::new();
        let m = LevelScriptManager { current_scene: String::new(), runtime_by_scene: r };
        proof {
            lemma_new_map_empty(r);
            assert(m.scenes() =~= Map::<Seq<char>, Map<i32, RuntimeView>>::empty());
        }
        m
    }

    fn take_scene(&mut self, scene: &str) -> (m: BTreeMap<i32, ScriptRuntime>)
        ensures
            scripts_view(m) == scripts_in(old(self).scenes(), scene@),
            final(self).scenes() == old(self).scenes().remove(scene@),
            final(self).current_scene() == old(self).current_scene(),
    {
        let r = self.runtime_by_scene.remove(scene);
        proof {
            assert(self.scenes() =~= old(self).scenes().remove(scene@));
        }
        match r {
            Some(m) => m,
            None => {
                let m: BTreeMap<i32, ScriptRuntime> = BTreeMap::new();
                assert(scripts_view(m) =~= Map::<i32, RuntimeView>::empty());
                m
            },
        }
    }

    fn put_scene(&mut self, scene: &str, m: BTreeMap<i32, ScriptRuntime>)
        ensures
            final(self).scenes() == old(self).scenes().insert(scene@, scripts_view(m)),
            final(self).current_scene() == old(self).current_scene(),
    {
        let ghost mv = scripts_view(m);
        self.runtime_by_scene.insert(scene.to_owned(), m);
        proof {
            assert(self.scenes() =~= old(self).scenes().insert(scene@, mv));
        }
    }

    /// Takes out the runtime state of script `id` of `scene` (the untouched one
    /// where there is none), leaving the scene's other scripts in place.
    fn take_runtime(&mut self, scene: &str, id: i32) -> (r: (BTreeMap<i32, ScriptRuntime>, ScriptRuntime))
        ensures
            r.1@ == runtime_in(old(self).scenes(), scene@, id),
            scripts_view(r.0) == scripts_in(old(self).scenes(), scene@).remove(id),
            final(self).scenes() == old(self).scenes().remove(scene@),
            final(self).current_scene() == old(self).current_scene(),
    {
        let mut m = self.take_scene(scene);
        let rt = take_script(&mut m, id);
        (m, rt)
    }

    /// Puts back what `take_runtime` took out, with `rt` in place of the script.
    fn put_runtime(&mut self, scene: &str, id: i32, m: BTreeMap<i32, ScriptRuntime>, rt: ScriptRuntime)
        requires
            !old(self).scenes().contains_key(scene@),
        ensures
            final(self).scenes() == old(self).scenes().insert(scene@, scripts_view(m).insert(id, rt@)),
            final(self).current_scene() == old(self).current_scene(),
    {
        let mut m = m;
        put_script(&mut m, id, rt);
        self.put_scene(scene, m);
    }

    /// Sets the state of script `id` of `scene` to `next`, creating its runtime
    /// state where there is none; answers the new state, or nothing where it
    /// already was `next`.
    fn set_state(&mut self, scene: &str, id: i32, next: LevelScriptState) -> (r: Option<LevelScriptState>)
        ensures
            r == set_state_result(old(self).scenes(), scene@, id, next),
            final(self).scenes() == set_state_scenes(old(self).scenes(), scene@, id, next),
            final(self).current_scene() == old(self).current_scene(),
    {
        let (m, mut rt) = self.take_runtime(scene, id);
        let r = if rt.state == next {
            None
        } else {
            rt.state = next;
            Some(next)
        };
        self.put_runtime(scene, id, m, rt);
        proof {
            let o = old(self).scenes();
            assert(scripts_in(o, scene@).remove(id).insert(id, with_state(runtime_in(o, scene@, id), next))
                =~= scripts_in(o, scene@).insert(id, with_state(runtime_in(o, scene@, id), next)));
            assert(o.remove(scene@).insert(scene@, scripts_in(o, scene@).insert(id, with_state(runtime_in(o, scene@, id), next)))
                =~= set_state_scenes(o, scene@, id, next));
        }
        r
    }

    /// The state of script `id` of `scene`: enabled where it has none.
    fn get_state(&self, scene: &str, id: i32) -> (s: LevelScriptState)
        ensures
            s == runtime_in(self.scenes(), scene@, id).0,
    {
        match self.runtime_by_scene.get(scene) {
            Some(m) => match m.get(&id) {
                Some(r) => r.state,
                None => LevelScriptState::Enabled,
            },
            None => LevelScriptState::Enabled,
        }
    }
}

/// A progression flag is consumed once: after a script's flag has been
/// consumed, consuming it again answers false, and its other flags and
/// server events are as they were.
pub proof fn lemma_progression_flag_consumed_once(
    scenes: Map<Seq<char>, Map<i32, RuntimeView>>,
    scene: Seq<char>,
    id: i32,
    flag: Seq<char>,
    other: Seq<char>,
)
    requires
        other != flag,
    ensures
        ({
            let before = runtime_in(scenes, scene, id);
            let after = runtime_in(put_runtime(scenes, scene, id, consume_flag(before, flag)), scene, id);
            &&& after.3.contains(flag)
            &&& after.3.contains(other) == before.3.contains(other)
            &&& after.4 == before.4
        }),
{
}

/// A server event is handled once: after a script's event has been consumed,
/// consuming it again answers false, and its other events and progression
/// flags are as they were.
pub proof fn lemma_server_event_consumed_once(
    scenes: Map<Seq<char>, Map<i32, RuntimeView>>,
    scene: Seq<char>,
    id: i32,
    event: Seq<char>,
    other: Seq<char>,
)
    requires
        other != event,
    ensures
        ({
            let before = runtime_in(scenes, scene, id);
            let after = runtime_in(put_runtime(scenes, scene, id, consume_event(before, event)), scene, id);
            &&& after.4.contains(event)
            &&& after.4.contains(other) == before.4.contains(other)
            &&& after.3 == before.3
        }),
{
}

/// Setting a script's state answers a change only once: setting the same
/// state again answers nothing.
pub proof fn lemma_set_state_twice(
    scenes: Map<Seq<char>, Map<i32, RuntimeView>>,
    scene: Seq<char>,
    id: i32,
    s: LevelScriptState,
)
    ensures
        set_state_result(set_state_scenes(scenes, scene, id, s), scene, id, s) is None,
        runtime_in(set_state_scenes(scenes, scene, id, s), scene, id).0 == s,
{
}

impl LevelScriptManager {
    /// Marks a progression flag of a script as consumed. Answers true when it
    /// had not been consumed before (the caller should advance the quest one
    /// step) and false when it had (a replayed or cascaded update to skip).
    pub fn try_consume_progression_flag(&mut self, scene_name: &str, script_id: i32, flag_key: &str) -> (fresh: bool)
        ensures
            fresh == !runtime_in(old(self).scenes(), scene_name@, script_id).3.contains(flag_key@),
            final(self).scenes() == put_runtime(
                old(self).scenes(),
                scene_name@,
                script_id,
                consume_flag(runtime_in(old(self).scenes(), scene_name@, script_id), flag_key@),
            ),
            final(self).current_scene() == old(self).current_scene(),
    {
        let (m, mut rt) = self.take_runtime(scene_name, script_id);
        let fresh = note_key(&mut rt.consumed_progression_flags, flag_key);
        let ghost nv = rt@;
        self.put_runtime(scene_name, script_id, m, rt);
        proof {
            let o = old(self).scenes();
            assert(scripts_in(o, scene_name@).remove(script_id).insert(script_id, nv) =~= scripts_in(
                o,
                scene_name@,
            ).insert(script_id, nv));
        }
        fresh
    }

    /// Marks a server event of a script as handled. Answers true on the first
    /// call for the pair (the caller should process it) and false afterwards.
    pub fn try_consume_server_event(&mut self, scene_name: &str, script_id: i32, event_name: &str) -> (fresh: bool)
        ensures
            fresh == !runtime_in(old(self).scenes(), scene_name@, script_id).4.contains(event_name@),
            final(self).scenes() == put_runtime(
                old(self).scenes(),
                scene_name@,
                script_id,
                consume_event(runtime_in(old(self).scenes(), scene_name@, script_id), event_name@),
            ),
            final(self).current_scene() == old(self).current_scene(),
    {
        let (m, mut rt) = self.take_runtime(scene_name, script_id);
        let fresh = note_key(&mut rt.consumed_server_events, event_name);
        let ghost nv = rt@;
        self.put_runtime(scene_name, script_id, m, rt);
        proof {
            let o = old(self).scenes();
            assert(scripts_in(o, scene_name@).remove(script_id).insert(script_id, nv) =~= scripts_in(
                o,
                scene_name@,
            ).insert(script_id, nv));
        }
        fresh
    }

    /// Makes `scene_name` the current scene and gives each of its scripts a
    /// runtime state: new scripts start in their initial state with their
    /// defined properties; known ones keep theirs, with an unset state and
    /// empty properties filled in.
    pub fn sync_scene(&mut self, scene_name: &str, defs: &[LevelScriptDef])
        ensures
            final(self).current_scene() == scene_name@,
            final(self).scenes() == synced_scenes(old(self).scenes(), scene_name@, defs@),
    {
        self.current_scene = scene_name.to_owned();
        let ghost base = scripts_in(old(self).scenes(), scene_name@);
        let mut m = self.take_scene(scene_name);
        let ghost rest = self.scenes();
        let mut i: usize = 0;
        while i < defs.len()
            invariant
                i <= defs@.len(),
                scripts_view(m) == sync_scripts(base, scene_name@, defs@.take(i as int)),
                self.scenes() == rest,
                self.current_scene() == scene_name@,
                rest == old(self).scenes().remove(scene_name@),
            decreases defs.len() - i,
        {
            let d = &defs[i];
            let id: i32 = #[verifier::truncate] (d.script_id as i32);
            let init = initial_state_of(scene_name, id);
            let ghost prev = scripts_view(m);
            let had = m.contains_key(&id);
            let mut rt = take_script(&mut m, id);
            if had {
                if rt.state == LevelScriptState::Unset {
                    rt.state = init;
                }
                proof {
                    lemma_props_empty(rt.properties);
                }
                if rt.properties.is_empty() {
                    rt.properties = clone_props(&d.properties);
                }
            } else {
                rt = ScriptRuntime::fresh(init, clone_props(&d.properties));
            }
            let ghost nv = rt@;
            put_script(&mut m, id, rt);
            proof {
                let next = defs@.take(i + 1);
                assert(next.drop_last() =~= defs@.take(i as int));
                assert(next.last() == defs@[i as int]);
                assert(prev.remove(id).insert(id, nv) =~= prev.insert(id, nv));
            }
            i = i + 1;
        }
        proof {
            assert(defs@.take(defs@.len() as int) =~= defs@);
        }
        self.put_scene(scene_name, m);
        proof {
            assert(self.scenes() =~= synced_scenes(old(self).scenes(), scene_name@, defs@));
        }
    }

    /// Forgets the runtime state of `scene_name` and syncs it afresh.
    pub fn reset_scene(&mut self, scene_name: &str, defs: &[LevelScriptDef])
        ensures
            final(self).current_scene() == scene_name@,
            final(self).scenes() == old(self).scenes().insert(
                scene_name@,
                sync_scripts(Map::empty(), scene_name@, defs@),
            ),
    {
        let _ = self.take_scene(scene_name);
        self.sync_scene(scene_name, defs);
        proof {
            assert(self.scenes() =~= old(self).scenes().insert(
                scene_name@,
                sync_scripts(Map::empty(), scene_name@, defs@),
            ));
        }
    }
}

/// What the client is told of a script: its id, its state's code and its properties.
#[derive(Debug)]
pub struct LevelScriptInfo {
    pub script_id: i32,
    pub state: i32,
    pub properties: StrMap<ParamValue>,
}

/// What the client is told when a script's state changes.
#[derive(Debug)]
pub struct LevelScriptStateNotice {
    pub scene_name: String,
    pub script_id: i32,
    pub state: i32,
}

/// The runtime state the client is shown for `d`: the stored one, or else a
/// fresh one in its initial state with its defined properties.
pub open spec fn shown_runtime(scenes: Map<Seq<char>, Map<i32, RuntimeView>>, scene: Seq<char>, d: LevelScriptDef) -> RuntimeView {
    let m = scripts_in(scenes, scene);
    if m.contains_key(def_id(d)) {
        m[def_id(d)]
    } else {
        fresh_runtime(initial_state(scene, def_id(d)), props_view(d.properties))
    }
}

impl LevelScriptManager {
    /// Syncs the scene, then sets the script active or back to enabled as the
    /// client reports; answers the new state, or nothing where it did not change.
    pub fn set_client_active(&mut self, scene_name: &str, script_id: i32, is_active: bool, defs: &[LevelScriptDef]) -> (r:
        Option<LevelScriptState>)
        ensures
            ({
                let mid = synced_scenes(old(self).scenes(), scene_name@, defs@);
                let next = if is_active {
                    LevelScriptState::Active
                } else {
                    LevelScriptState::Enabled
                };
                &&& r == set_state_result(mid, scene_name@, script_id, next)
                &&& final(self).scenes() == set_state_scenes(mid, scene_name@, script_id, next)
            }),
            final(self).current_scene() == scene_name@,
    {
        self.sync_scene(scene_name, defs);
        let next = if is_active {
            LevelScriptState::Active
        } else {
            LevelScriptState::Enabled
        };
        self.set_state(scene_name, script_id, next)
    }

    /// Syncs the scene, then merges the client's `properties` over the script's.
    pub fn update_properties(
        &mut self,
        scene_name: &str,
        script_id: i32,
        properties: &StrMap<ParamValue>,
        defs: &[LevelScriptDef],
    )
        ensures
            ({
                let mid = synced_scenes(old(self).scenes(), scene_name@, defs@);
                final(self).scenes() == put_runtime(
                    mid,
                    scene_name@,
                    script_id,
                    with_props(runtime_in(mid, scene_name@, script_id), props_view(*properties)),
                )
            }),
            final(self).current_scene() == scene_name@,
    {
        self.sync_scene(scene_name, defs);
        let ghost mid = self.scenes();
        let (m, mut rt) = self.take_runtime(scene_name, script_id);
        merge_props(&mut rt.properties, properties);
        let ghost nv = rt@;
        self.put_runtime(scene_name, script_id, m, rt);
        proof {
            assert(scripts_in(mid, scene_name@).remove(script_id).insert(script_id, nv) =~= scripts_in(
                mid,
                scene_name@,
            ).insert(script_id, nv));
        }
    }

    /// Syncs the scene, counts one more committed cache step for the script and
    /// sets it back to enabled; answers the new state, or nothing where it
    /// already was enabled.
    pub fn commit_cache_step(&mut self, scene_name: &str, script_id: i32, defs: &[LevelScriptDef]) -> (r: Option<
        LevelScriptState,
    >)
        ensures
            ({
                let mid = synced_scenes(old(self).scenes(), scene_name@, defs@);
                let stepped = put_runtime(
                    mid,
                    scene_name@,
                    script_id,
                    with_cache_step(runtime_in(mid, scene_name@, script_id)),
                );
                &&& r == set_state_result(stepped, scene_name@, script_id, LevelScriptState::Enabled)
                &&& final(self).scenes() == set_state_scenes(
                    stepped,
                    scene_name@,
                    script_id,
                    LevelScriptState::Enabled,
                )
            }),
            final(self).current_scene() == scene_name@,
    {
        self.sync_scene(scene_name, defs);
        let ghost mid = self.scenes();
        let (m, mut rt) = self.take_runtime(scene_name, script_id);
        rt.committed_cache_steps = rt.committed_cache_steps.saturating_add(1);
        let ghost nv = rt@;
        self.put_runtime(scene_name, script_id, m, rt);
        proof {
            assert(scripts_in(mid, scene_name@).remove(script_id).insert(script_id, nv) =~= scripts_in(
                mid,
                scene_name@,
            ).insert(script_id, nv));
        }
        self.set_state(scene_name, script_id, LevelScriptState::Enabled)
    }

    /// The state-change notice for a script that has a runtime state.
    pub fn state_notify(&self, scene_name: &str, script_id: i32) -> (r: Option<LevelScriptStateNotice>)
        ensures
            match r {
                Some(n) => scripts_in(self.scenes(), scene_name@).contains_key(script_id) && self.scenes().contains_key(
                    scene_name@,
                ) && n.scene_name@ == scene_name@ && n.script_id == script_id && n.state == scripts_in(
                    self.scenes(),
                    scene_name@,
                )[script_id].0.spec_as_i32(),
                None => !scripts_in(self.scenes(), scene_name@).contains_key(script_id),
            },
    {
        match self.runtime_by_scene.get(scene_name) {
            Some(m) => match m.get(&script_id) {
                Some(rt) => Some(
                    LevelScriptStateNotice {
                        scene_name: scene_name.to_owned(),
                        script_id,
                        state: rt.state.as_i32(),
                    },
                ),
                None => None,
            },
            None => None,
        }
    }

    /// What the client is told of the scene's scripts, in definition order: the
    /// stored runtime state of each, or a fresh one where there is none.
    pub fn packed_level_scripts(&self, scene_name: &str, defs: &[LevelScriptDef]) -> (r: Vec<LevelScriptInfo>)
        ensures
            r@.len() == defs@.len(),
            forall|i: int|
                0 <= i < defs@.len() ==> {
                    let shown = shown_runtime(self.scenes(), scene_name@, defs@[i]);
                    &&& (#[trigger] r@[i]).script_id == def_id(defs@[i])
                    &&& r@[i].state == shown.0.spec_as_i32()
                    &&& props_view(r@[i].properties) == shown.1
                },
    {
        let scene = self.runtime_by_scene.get(scene_name);
        let mut r: Vec<LevelScriptInfo> = Vec::new();
        let mut i: usize = 0;
        while i < defs.len()
            invariant
                i <= defs@.len(),
                r@.len() == i,
                match scene {
                    Some(m) => self.runtime_by_scene.spec_get(scene_name@) == Some(*m),
                    None => self.runtime_by_scene.spec_get(scene_name@) is None,
                },
                forall|j: int|
                    0 <= j < i ==> {
                        let shown = shown_runtime(self.scenes(), scene_name@, defs@[j]);
                        &&& (#[trigger] r@[j]).script_id == def_id(defs@[j])
                        &&& r@[j].state == shown.0.spec_as_i32()
                        &&& props_view(r@[j].properties) == shown.1
                    },
            decreases defs.len() - i,
        {
            let d = &defs[i];
            let id: i32 = #[verifier::truncate] (d.script_id as i32);
            let stored = match scene {
                Some(m) => m.get(&id),
                None => None,
            };
            let info = match stored {
                Some(rt) => LevelScriptInfo {
                    script_id: id,
                    state: rt.state.as_i32(),
                    properties: clone_props(&rt.properties),
                },
                None => LevelScriptInfo {
                    script_id: id,
                    state: initial_state_of(scene_name, id).as_i32(),
                    properties: clone_props(&d.properties),
                },
            };
            r.push(info);
            i = i + 1;
        }
        r
    }
}

/// Every id comes before every later one.
pub open spec fn strictly_increasing(s: Seq<i32>) -> bool {
    forall|a: int, b: int| 0 <= a < b < s.len() ==> s[a] < s[b]
}

fn insert_sorted(v: &mut Vec<i32>, x: i32)
    requires
        strictly_increasing(old(v)@),
    ensures
        strictly_increasing(final(v)@),
        forall|y: i32| final(v)@.contains(y) <==> (old(v)@.contains(y) || y == x),
{
    let mut p: usize = 0;
    while p < v.len() && v[p] < x
        invariant
            p <= v@.len(),
            forall|j: int| 0 <= j < p ==> v@[j] < x,
        decreases v.len() - p,
    {
        p = p + 1;
    }
    if p < v.len() && v[p] == x {
        assert(v@[p as int] == x);
        assert(v@.contains(x));
        return;
    }
    let ghost o = v@;
    v.insert(p, x);
    proof {
        assert forall|a: int, b: int| 0 <= a < b < v@.len() implies v@[a] < v@[b] by {
            if b < p {
            } else if b == p {
            } else if a < p {
                assert(v@[b] == o[b - 1]);
                if p < o.len() {
                    assert(o[p as int] > x);
                    assert(o[p as int] <= o[b - 1] || p == b - 1);
                }
            } else if a == p {
                assert(v@[b] == o[b - 1]);
                assert(o[p as int] > x);
                assert(p == b - 1 || o[p as int] < o[b - 1]);
            } else {
                assert(v@[a] == o[a - 1] && v@[b] == o[b - 1]);
            }
        }
        assert forall|y: i32| v@.contains(y) <==> (o.contains(y) || y == x) by {
            if v@.contains(y) {
                let k = choose|k: int| 0 <= k < v@.len() && v@[k] == y;
                if k < p {
                    assert(o[k] == y);
                } else if k > p {
                    assert(o[k - 1] == y);
                }
            }
            if o.contains(y) {
                let k = choose|k: int| 0 <= k < o.len() && o[k] == y;
                if k < p {
                    assert(v@[k] == y);
                } else {
                    assert(v@[k + 1] == y);
                }
            }
            if y == x {
                assert(v@[p as int] == x);
            }
        }
        assert(v@[p as int] == x);
        assert(v@.contains(x));
    }
}

/// Whether any trigger of `d` fires on `e`.
pub open spec fn def_fires(d: LevelScriptDef, e: EventView) -> bool {
    exists|i: int|
        0 <= i < header_triggers(d.headers@).len() && trigger_fires(#[trigger] header_triggers(d.headers@)[i], e)
}

/// The scenes after setting active, definition by definition, every script of
/// `defs` that fires on `e`.
pub open spec fn activate_firing(
    scenes: Map<Seq<char>, Map<i32, RuntimeView>>,
    scene: Seq<char>,
    defs: Seq<LevelScriptDef>,
    e: EventView,
) -> Map<Seq<char>, Map<i32, RuntimeView>>
    decreases defs.len(),
{
    if defs.len() == 0 {
        scenes
    } else {
        let prev = activate_firing(scenes, scene, defs.drop_last(), e);
        if def_fires(defs.last(), e) {
            set_state_scenes(prev, scene, def_id(defs.last()), LevelScriptState::Active)
        } else {
            prev
        }
    }
}

/// The ids of the scripts of `defs` that fire on `e`.
pub open spec fn firing_ids(defs: Seq<LevelScriptDef>, e: EventView, y: i32) -> bool {
    exists|i: int| 0 <= i < defs.len() && def_fires(#[trigger] defs[i], e) && def_id(defs[i]) == y
}

/// Which events each trigger fires on: the guide-group trigger on every
/// guide-group completion, the dialog trigger on every dialog end, a custom
/// trigger on the custom event of its name, a quest or mission trigger on a
/// change of its quest or mission to its state (both filters set), and the
/// start and active triggers on none.
pub proof fn lemma_trigger_events(e: EventView)
    ensures
        trigger_fires(TriggerKind::GuideGroupComplete, e) <==> e.0 == ScriptEventKind::GuideGroupCompleted,
        trigger_fires(TriggerKind::ServerDialogExit, e) <==> e.0 == ScriptEventKind::DialogFinished,
        !trigger_fires(TriggerKind::ScriptStart, e),
        !trigger_fires(TriggerKind::ScriptActive, e),
        forall|x: String|
            #[trigger] trigger_fires(TriggerKind::CustomEvent(x), e) <==> (e.0 == ScriptEventKind::CustomEvent && x@
                == e.1),
        forall|q: Option<String>, s: Option<i32>|
            #[trigger] trigger_fires(TriggerKind::QuestStateChanged { quest_id: q, new_state: s }, e) <==> (e.0
                == ScriptEventKind::QuestStateChanged && q is Some && q.unwrap()@ == e.1 && s == Some(e.2)),
        forall|m: Option<String>, s: Option<i32>|
            #[trigger] trigger_fires(TriggerKind::MissionStateChanged { mission_id: m, new_state: s }, e) <==> (e.0
                == ScriptEventKind::MissionStateChanged && m is Some && m.unwrap()@ == e.1 && s == Some(e.2)),
{
}

/// A header's trigger is among the triggers of the header list holding it.
pub proof fn lemma_header_trigger_listed(hs: Seq<ActionHeader>, j: int)
    requires
        0 <= j < hs.len(),
        header_trigger(hs[j]) is Some,
    ensures
        header_triggers(hs).contains(header_trigger(hs[j]).unwrap()),
    decreases hs.len(),
{
    let p = hs.drop_last();
    let t = header_trigger(hs[j]).unwrap();
    if j == hs.len() - 1 {
        assert(header_triggers(hs) == header_triggers(p).push(t));
        assert(header_triggers(hs)[header_triggers(p).len() as int] == t);
    } else {
        assert(p[j] == hs[j]);
        lemma_header_trigger_listed(p, j);
        let k = choose|k: int| 0 <= k < header_triggers(p).len() && header_triggers(p)[k] == t;
        assert(header_triggers(hs)[k] == t);
    }
}

/// A script with a header whose trigger fires on `e` is among the scripts
/// `e` fires.
pub proof fn lemma_header_fires_script(defs: Seq<LevelScriptDef>, e: EventView, i: int, j: int)
    requires
        0 <= i < defs.len(),
        0 <= j < defs[i].headers@.len(),
        header_trigger(defs[i].headers@[j]) matches Some(t) && trigger_fires(t, e),
    ensures
        firing_ids(defs, e, def_id(defs[i])),
{
    lemma_header_trigger_listed(defs[i].headers@, j);
    let ts = header_triggers(defs[i].headers@);
    let k = choose|k: int| 0 <= k < ts.len() && ts[k] == header_trigger(defs[i].headers@[j]).unwrap();
    assert(trigger_fires(ts[k], e));
    assert(def_fires(defs[i], e));
}

/// Setting active the scripts that fire on `e` leaves each script that fires
/// active and every other script as it was.
pub proof fn lemma_activate_firing(
    scenes: Map<Seq<char>, Map<i32, RuntimeView>>,
    scene: Seq<char>,
    defs: Seq<LevelScriptDef>,
    e: EventView,
    y: i32,
)
    ensures
        firing_ids(defs, e, y) ==> runtime_in(activate_firing(scenes, scene, defs, e), scene, y).0
            == LevelScriptState::Active,
        !firing_ids(defs, e, y) ==> runtime_in(activate_firing(scenes, scene, defs, e), scene, y) == runtime_in(
            scenes,
            scene,
            y,
        ),
    decreases defs.len(),
{
    if defs.len() > 0 {
        let p = defs.drop_last();
        lemma_activate_firing(scenes, scene, p, e, y);
        if firing_ids(p, e, y) {
            let k = choose|k: int| 0 <= k < p.len() && def_fires(#[trigger] p[k], e) && def_id(p[k]) == y;
            assert(defs[k] == p[k]);
            assert(firing_ids(defs, e, y));
        }
        if firing_ids(defs, e, y) && !firing_ids(p, e, y) {
            let k = choose|k: int| 0 <= k < defs.len() && def_fires(#[trigger] defs[k], e) && def_id(defs[k]) == y;
            if k < p.len() {
                assert(p[k] == defs[k]);
                assert(firing_ids(p, e, y));
            }
        }
    }
}

/// A header named `OnGuideGroupComplete` declares the guide-group trigger.
pub proof fn lemma_guide_group_header(h: ActionHeader)
    requires
        short_type_name(type_chars(h.kind_name)) == "OnGuideGroupComplete"@,
    ensures
        header_trigger(h) == Some(TriggerKind::GuideGroupComplete),
{
    reveal_strlit("OnScriptStart");
    reveal_strlit("OnScriptActive");
    reveal_strlit("OnCustomEvent");
    reveal_strlit("OnGuideGroupComplete");
    let n = short_type_name(type_chars(h.kind_name));
    assert(n.len() == 20);
    assert(n != "OnScriptStart"@ && n != "OnScriptActive"@ && n != "OnCustomEvent"@) by {
        assert("OnScriptStart"@.len() == 13 && "OnScriptActive"@.len() == 14 && "OnCustomEvent"@.len() == 13);
    }
}

/// A header named `OnServerDialogExit` declares the dialog trigger.
pub proof fn lemma_dialog_exit_header(h: ActionHeader)
    requires
        short_type_name(type_chars(h.kind_name)) == "OnServerDialogExit"@,
    ensures
        header_trigger(h) == Some(TriggerKind::ServerDialogExit),
{
    reveal_strlit("OnScriptStart");
    reveal_strlit("OnScriptActive");
    reveal_strlit("OnCustomEvent");
    reveal_strlit("OnGuideGroupComplete");
    reveal_strlit("OnServerDialogExit");
    let n = short_type_name(type_chars(h.kind_name));
    assert(n.len() == 18);
    assert(n != "OnScriptStart"@ && n != "OnScriptActive"@ && n != "OnCustomEvent"@ && n
        != "OnGuideGroupComplete"@) by {
        assert("OnScriptStart"@.len() == 13 && "OnScriptActive"@.len() == 14 && "OnCustomEvent"@.len() == 13
            && "OnGuideGroupComplete"@.len() == 20);
    }
}

/// The triggers declared by headers named `OnCustomEvent`,
/// `OnQuestStateChanged` and `OnMissionStateChanged`.
pub proof fn lemma_filtered_headers(h: ActionHeader)
    ensures
        short_type_name(type_chars(h.kind_name)) == "OnCustomEvent"@ && h.event_key is Some
            && h.event_key.unwrap()@.len() > 0 ==> header_trigger(h) == Some(
            TriggerKind::CustomEvent(h.event_key.unwrap()),
        ),
        short_type_name(type_chars(h.kind_name)) == "OnQuestStateChanged"@ ==> header_trigger(h) == Some(
            TriggerKind::QuestStateChanged { quest_id: h.quest_id, new_state: state_filter(h.new_state) },
        ),
        short_type_name(type_chars(h.kind_name)) == "OnMissionStateChanged"@ ==> header_trigger(h) == Some(
            TriggerKind::MissionStateChanged { mission_id: h.mission_id, new_state: state_filter(h.new_state) },
        ),
{
    reveal_strlit("OnScriptStart");
    reveal_strlit("OnScriptActive");
    reveal_strlit("OnCustomEvent");
    reveal_strlit("OnGuideGroupComplete");
    reveal_strlit("OnServerDialogExit");
    reveal_strlit("OnQuestStateChanged");
    reveal_strlit("OnMissionStateChanged");
    let n = short_type_name(type_chars(h.kind_name));
    assert("OnCustomEvent"@[2] != "OnScriptStart"@[2]);
    if n == "OnQuestStateChanged"@ || n == "OnMissionStateChanged"@ {
        assert(n.len() == 19 || n.len() == 21);
    }
}

/// A script with a header whose trigger fires on `e` is among the scripts
/// `e` fires, and setting active the firing scripts leaves it active.
proof fn lemma_header_activates(
    scenes: Map<Seq<char>, Map<i32, RuntimeView>>,
    scene: Seq<char>,
    defs: Seq<LevelScriptDef>,
    e: EventView,
    i: int,
    j: int,
)
    requires
        0 <= i < defs.len(),
        0 <= j < defs[i].headers@.len(),
        header_trigger(defs[i].headers@[j]) matches Some(t) && trigger_fires(t, e),
    ensures
        firing_ids(defs, e, def_id(defs[i])),
        runtime_in(activate_firing(scenes, scene, defs, e), scene, def_id(defs[i])).0 == LevelScriptState::Active,
{
    lemma_header_fires_script(defs, e, i, j);
    lemma_activate_firing(scenes, scene, defs, e, def_id(defs[i]));
}

/// Whether `d` can be started where the player stands: it is enabled, the
/// player is inside one of its shapes, its action map starts it from the root
/// and its start condition holds over the stored properties.
pub open spec fn proximate_ready(
    scenes: Map<Seq<char>, Map<i32, RuntimeView>>,
    scene: Seq<char>,
    d: LevelScriptDef,
    in_zone: bool,
) -> bool {
    let id = def_id(d);
    &&& runtime_in(scenes, scene, id).0 == LevelScriptState::Enabled
    &&& in_zone
    &&& has_root_start(d.headers@)
    &&& start_condition(d.headers@, d.getters@, stored_props(scenes, scene, id), d.getters@.len()) == Some(true)
}

/// The scenes and the ids set active after going through the first `n`
/// definitions, starting each script that can be started where the player stands.
pub open spec fn proximate_fold(
    scenes: Map<Seq<char>, Map<i32, RuntimeView>>,
    scene: Seq<char>,
    defs: Seq<LevelScriptDef>,
    zones: Seq<bool>,
    n: nat,
) -> (Map<Seq<char>, Map<i32, RuntimeView>>, Seq<i32>)
    decreases n,
{
    if n == 0 {
        (scenes, Seq::empty())
    } else {
        let (prev, ids) = proximate_fold(scenes, scene, defs, zones, (n - 1) as nat);
        let d = defs[n - 1];
        if proximate_ready(prev, scene, d, zones[n - 1]) {
            (set_state_scenes(prev, scene, def_id(d), LevelScriptState::Active), ids.push(def_id(d)))
        } else {
            (prev, ids)
        }
    }
}

/// The property `isOver` is stored and its first bool is true.
pub open spec fn is_over(p: Option<Map<Seq<char>, ParamView>>) -> bool {
    match p {
        Some(m) => m.contains_key("isOver"@) && first_bool(m["isOver"@]) == Some(true),
        None => false,
    }
}

/// Whether the server itself starts `d`: it is enabled, has no shapes, its
/// action map's root header is an `OnScriptActive`, and it is not over.
pub open spec fn server_ready(scenes: Map<Seq<char>, Map<i32, RuntimeView>>, scene: Seq<char>, d: LevelScriptDef) -> bool {
    let id = def_id(d);
    &&& runtime_in(scenes, scene, id).0 == LevelScriptState::Enabled
    &&& !d.has_shapes
    &&& has_root_active(d.headers@)
    &&& !is_over(stored_props(scenes, scene, id))
}

/// The scenes and the ids set active after going through the first `n`
/// definitions, starting each script the server itself starts.
pub open spec fn server_fold(
    scenes: Map<Seq<char>, Map<i32, RuntimeView>>,
    scene: Seq<char>,
    defs: Seq<LevelScriptDef>,
    n: nat,
) -> (Map<Seq<char>, Map<i32, RuntimeView>>, Seq<i32>)
    decreases n,
{
    if n == 0 {
        (scenes, Seq::empty())
    } else {
        let (prev, ids) = server_fold(scenes, scene, defs, (n - 1) as nat);
        let d = defs[n - 1];
        if server_ready(prev, scene, d) {
            (set_state_scenes(prev, scene, def_id(d), LevelScriptState::Active), ids.push(def_id(d)))
        } else {
            (prev, ids)
        }
    }
}

impl LevelScriptManager {
    fn stored_properties(&self, scene: &str, id: i32) -> (r: Option<&StrMap<ParamValue>>)
        ensures
            props_opt_view(r) == stored_props(self.scenes(), scene@, id),
    {
        match self.runtime_by_scene.get(scene) {
            Some(m) => match m.get(&id) {
                Some(rt) => Some(&rt.properties),
                None => None,
            },
            None => None,
        }
    }

    fn fires_on(def: &LevelScriptDef, e: &ScriptEvent) -> (b: bool)
        ensures
            b == def_fires(*def, e@),
    {
        let ts = header_trigger_list(def);
        let mut j: usize = 0;
        while j < ts.len()
            invariant
                j <= ts@.len(),
                ts@ == header_triggers(def.headers@),
                forall|k: int| 0 <= k < j ==> !trigger_fires(ts@[k], e@),
            decreases ts.len() - j,
        {
            if trigger_fires_on(&ts[j], e) {
                return true;
            }
            j = j + 1;
        }
        false
    }

    /// Syncs the scene and sets active every script with a trigger that fires
    /// on `e`; answers their ids, ascending and each once.
    fn matching_scripts(&mut self, scene_name: &str, defs: &[LevelScriptDef], e: &ScriptEvent) -> (r: Vec<i32>)
        ensures
            final(self).scenes() == activate_firing(
                synced_scenes(old(self).scenes(), scene_name@, defs@),
                scene_name@,
                defs@,
                e@,
            ),
            final(self).current_scene() == scene_name@,
            strictly_increasing(r@),
            forall|y: i32| r@.contains(y) <==> firing_ids(defs@, e@, y),
    {
        self.sync_scene(scene_name, defs);
        let ghost mid = self.scenes();
        let mut ids: Vec<i32> = Vec::new();
        let mut i: usize = 0;
        while i < defs.len()
            invariant
                i <= defs@.len(),
                self.scenes() == activate_firing(mid, scene_name@, defs@.take(i as int), e@),
                self.current_scene() == scene_name@,
                strictly_increasing(ids@),
                forall|y: i32| ids@.contains(y) <==> firing_ids(defs@.take(i as int), e@, y),
            decreases defs.len() - i,
        {
            let d = &defs[i];
            let fires = Self::fires_on(d, e);
            let ghost pre = defs@.take(i as int);
            let ghost next = defs@.take(i + 1);
            proof {
                assert(next.drop_last() =~= pre);
                assert(next.last() == defs@[i as int]);
            }
            if fires {
                let id: i32 = #[verifier::truncate] (d.script_id as i32);
                let _ = self.set_state(scene_name, id, LevelScriptState::Active);
                insert_sorted(&mut ids, id);
            }
            proof {
                assert forall|y: i32| ids@.contains(y) <==> firing_ids(next, e@, y) by {
                    if firing_ids(next, e@, y) {
                        let k = choose|k: int| 0 <= k < next.len() && def_fires(#[trigger] next[k], e@) && def_id(next[k]) == y;
                        if k < i {
                            assert(pre[k] == next[k]);
                            assert(firing_ids(pre, e@, y));
                        }
                    }
                    if firing_ids(pre, e@, y) {
                        let k = choose|k: int| 0 <= k < pre.len() && def_fires(#[trigger] pre[k], e@) && def_id(pre[k]) == y;
                        assert(next[k] == pre[k]);
                        assert(firing_ids(next, e@, y));
                    }
                    if fires && y == def_id(defs@[i as int]) {
                        assert(def_fires(next[i as int], e@));
                        assert(firing_ids(next, e@, y));
                    }
                }
            }
            i = i + 1;
        }
        proof {
            assert(defs@.take(defs@.len() as int) =~= defs@);
        }
        ids
    }

    /// Sets active the scripts waiting for the custom event `event_name`;
    /// answers their ids, ascending.
    pub fn on_custom_event(&mut self, scene_name: &str, event_name: &str, defs: &[LevelScriptDef]) -> (r: Vec<i32>)
        ensures
            ({
                let e = (ScriptEventKind::CustomEvent, event_name@, 0i32);
                &&& final(self).scenes() == activate_firing(
                    synced_scenes(old(self).scenes(), scene_name@, defs@),
                    scene_name@,
                    defs@,
                    e,
                )
                &&& forall|y: i32| r@.contains(y) <==> firing_ids(defs@, e, y)
            }),
            final(self).current_scene() == scene_name@,
            strictly_increasing(r@),
            forall|i: int, j: int|
                0 <= i < defs@.len() && 0 <= j < defs@[i].headers@.len() && (short_type_name(type_chars(defs@[i].headers@[j].kind_name)) == "OnCustomEvent"@ && defs@[i].headers@[j].event_key is Some && defs@[i].headers@[j].event_key.unwrap()@ == event_name@ && event_name@.len() > 0) ==> r@.contains(
                    def_id(defs@[i]),
                ) && runtime_in(final(self).scenes(), scene_name@, def_id(defs@[i])).0 == LevelScriptState::Active,
    {
        let e = ScriptEvent { kind: ScriptEventKind::CustomEvent, name: event_name.to_owned(), state: 0 };
        let r = self.matching_scripts(scene_name, defs, &e);
        proof {
            assert forall|i: int, j: int|
                0 <= i < defs@.len() && 0 <= j < defs@[i].headers@.len() && (short_type_name(type_chars(defs@[i].headers@[j].kind_name)) == "OnCustomEvent"@ && defs@[i].headers@[j].event_key is Some && defs@[i].headers@[j].event_key.unwrap()@ == event_name@ && event_name@.len() > 0) implies r@.contains(
                    def_id(defs@[i]),
                ) && runtime_in(self.scenes(), scene_name@, def_id(defs@[i])).0 == LevelScriptState::Active by {
                lemma_filtered_headers(defs@[i].headers@[j]);
                lemma_trigger_events(e@);
                lemma_header_activates(synced_scenes(old(self).scenes(), scene_name@, defs@), scene_name@, defs@, e@, i, j);
            }
        }
        r
    }

    /// Sets active the scripts waiting for a server dialog to end; answers
    /// their ids, ascending.
    pub fn on_dialog_finished(&mut self, scene_name: &str, defs: &[LevelScriptDef]) -> (r: Vec<i32>)
        ensures
            ({
                let e = (ScriptEventKind::DialogFinished, Seq::<char>::empty(), 0i32);
                &&& final(self).scenes() == activate_firing(
                    synced_scenes(old(self).scenes(), scene_name@, defs@),
                    scene_name@,
                    defs@,
                    e,
                )
                &&& forall|y: i32| r@.contains(y) <==> firing_ids(defs@, e, y)
            }),
            final(self).current_scene() == scene_name@,
            strictly_increasing(r@),
            forall|i: int, j: int|
                0 <= i < defs@.len() && 0 <= j < defs@[i].headers@.len() && (short_type_name(type_chars(defs@[i].headers@[j].kind_name)) == "OnServerDialogExit"@) ==> r@.contains(
                    def_id(defs@[i]),
                ) && runtime_in(final(self).scenes(), scene_name@, def_id(defs@[i])).0 == LevelScriptState::Active,
    {
        let e = ScriptEvent { kind: ScriptEventKind::DialogFinished, name: String::new(), state: 0 };
        let r = self.matching_scripts(scene_name, defs, &e);
        proof {
            assert forall|i: int, j: int|
                0 <= i < defs@.len() && 0 <= j < defs@[i].headers@.len() && (short_type_name(type_chars(defs@[i].headers@[j].kind_name)) == "OnServerDialogExit"@) implies r@.contains(
                    def_id(defs@[i]),
                ) && runtime_in(self.scenes(), scene_name@, def_id(defs@[i])).0 == LevelScriptState::Active by {
                lemma_dialog_exit_header(defs@[i].headers@[j]);
                lemma_trigger_events(e@);
                lemma_header_activates(synced_scenes(old(self).scenes(), scene_name@, defs@), scene_name@, defs@, e@, i, j);
            }
        }
        r
    }

    /// Sets active the scripts waiting for a guide group to complete; answers
    /// their ids, ascending.
    pub fn on_guide_group_completed(&mut self, scene_name: &str, defs: &[LevelScriptDef]) -> (r: Vec<i32>)
        ensures
            ({
                let e = (ScriptEventKind::GuideGroupCompleted, Seq::<char>::empty(), 0i32);
                &&& final(self).scenes() == activate_firing(
                    synced_scenes(old(self).scenes(), scene_name@, defs@),
                    scene_name@,
                    defs@,
                    e,
                )
                &&& forall|y: i32| r@.contains(y) <==> firing_ids(defs@, e, y)
            }),
            final(self).current_scene() == scene_name@,
            strictly_increasing(r@),
            forall|i: int, j: int|
                0 <= i < defs@.len() && 0 <= j < defs@[i].headers@.len() && (short_type_name(type_chars(defs@[i].headers@[j].kind_name)) == "OnGuideGroupComplete"@) ==> r@.contains(
                    def_id(defs@[i]),
                ) && runtime_in(final(self).scenes(), scene_name@, def_id(defs@[i])).0 == LevelScriptState::Active,
    {
        let e = ScriptEvent { kind: ScriptEventKind::GuideGroupCompleted, name: String::new(), state: 0 };
        let r = self.matching_scripts(scene_name, defs, &e);
        proof {
            assert forall|i: int, j: int|
                0 <= i < defs@.len() && 0 <= j < defs@[i].headers@.len() && (short_type_name(type_chars(defs@[i].headers@[j].kind_name)) == "OnGuideGroupComplete"@) implies r@.contains(
                    def_id(defs@[i]),
                ) && runtime_in(self.scenes(), scene_name@, def_id(defs@[i])).0 == LevelScriptState::Active by {
                lemma_guide_group_header(defs@[i].headers@[j]);
                lemma_trigger_events(e@);
                lemma_header_activates(synced_scenes(old(self).scenes(), scene_name@, defs@), scene_name@, defs@, e@, i, j);
            }
        }
        r
    }

    /// Sets active the scripts waiting for quest `quest_id` to reach the state
    /// with code `new_state`; answers their ids, ascending.
    pub fn on_quest_state_changed(
        &mut self,
        scene_name: &str,
        quest_id: &str,
        new_state: i32,
        defs: &[LevelScriptDef],
    ) -> (r: Vec<i32>)
        ensures
            ({
                let e = (ScriptEventKind::QuestStateChanged, quest_id@, new_state);
                &&& final(self).scenes() == activate_firing(
                    synced_scenes(old(self).scenes(), scene_name@, defs@),
                    scene_name@,
                    defs@,
                    e,
                )
                &&& forall|y: i32| r@.contains(y) <==> firing_ids(defs@, e, y)
            }),
            final(self).current_scene() == scene_name@,
            strictly_increasing(r@),
            forall|i: int, j: int|
                0 <= i < defs@.len() && 0 <= j < defs@[i].headers@.len() && (short_type_name(type_chars(defs@[i].headers@[j].kind_name)) == "OnQuestStateChanged"@ && defs@[i].headers@[j].quest_id is Some && defs@[i].headers@[j].quest_id.unwrap()@ == quest_id@ && state_filter(defs@[i].headers@[j].new_state) == Some(new_state)) ==> r@.contains(
                    def_id(defs@[i]),
                ) && runtime_in(final(self).scenes(), scene_name@, def_id(defs@[i])).0 == LevelScriptState::Active,
    {
        let e = ScriptEvent { kind: ScriptEventKind::QuestStateChanged, name: quest_id.to_owned(), state: new_state };
        let r = self.matching_scripts(scene_name, defs, &e);
        proof {
            assert forall|i: int, j: int|
                0 <= i < defs@.len() && 0 <= j < defs@[i].headers@.len() && (short_type_name(type_chars(defs@[i].headers@[j].kind_name)) == "OnQuestStateChanged"@ && defs@[i].headers@[j].quest_id is Some && defs@[i].headers@[j].quest_id.unwrap()@ == quest_id@ && state_filter(defs@[i].headers@[j].new_state) == Some(new_state)) implies r@.contains(
                    def_id(defs@[i]),
                ) && runtime_in(self.scenes(), scene_name@, def_id(defs@[i])).0 == LevelScriptState::Active by {
                lemma_filtered_headers(defs@[i].headers@[j]);
                lemma_trigger_events(e@);
                lemma_header_activates(synced_scenes(old(self).scenes(), scene_name@, defs@), scene_name@, defs@, e@, i, j);
            }
        }
        r
    }

    /// Sets active the scripts waiting for mission `mission_id` to reach the
    /// state with code `new_state`; answers their ids, ascending.
    pub fn on_mission_state_changed(
        &mut self,
        scene_name: &str,
        mission_id: &str,
        new_state: i32,
        defs: &[LevelScriptDef],
    ) -> (r: Vec<i32>)
        ensures
            ({
                let e = (ScriptEventKind::MissionStateChanged, mission_id@, new_state);
                &&& final(self).scenes() == activate_firing(
                    synced_scenes(old(self).scenes(), scene_name@, defs@),
                    scene_name@,
                    defs@,
                    e,
                )
                &&& forall|y: i32| r@.contains(y) <==> firing_ids(defs@, e, y)
            }),
            final(self).current_scene() == scene_name@,
            strictly_increasing(r@),
            forall|i: int, j: int|
                0 <= i < defs@.len() && 0 <= j < defs@[i].headers@.len() && (short_type_name(type_chars(defs@[i].headers@[j].kind_name)) == "OnMissionStateChanged"@ && defs@[i].headers@[j].mission_id is Some && defs@[i].headers@[j].mission_id.unwrap()@ == mission_id@ && state_filter(defs@[i].headers@[j].new_state) == Some(new_state)) ==> r@.contains(
                    def_id(defs@[i]),
                ) && runtime_in(final(self).scenes(), scene_name@, def_id(defs@[i])).0 == LevelScriptState::Active,
    {
        let e = ScriptEvent {
            kind: ScriptEventKind::MissionStateChanged,
            name: mission_id.to_owned(),
            state: new_state,
        };
        let r = self.matching_scripts(scene_name, defs, &e);
        proof {
            assert forall|i: int, j: int|
                0 <= i < defs@.len() && 0 <= j < defs@[i].headers@.len() && (short_type_name(type_chars(defs@[i].headers@[j].kind_name)) == "OnMissionStateChanged"@ && defs@[i].headers@[j].mission_id is Some && defs@[i].headers@[j].mission_id.unwrap()@ == mission_id@ && state_filter(defs@[i].headers@[j].new_state) == Some(new_state)) implies r@.contains(
                    def_id(defs@[i]),
                ) && runtime_in(self.scenes(), scene_name@, def_id(defs@[i])).0 == LevelScriptState::Active by {
                lemma_filtered_headers(defs@[i].headers@[j]);
                lemma_trigger_events(e@);
                lemma_header_activates(synced_scenes(old(self).scenes(), scene_name@, defs@), scene_name@, defs@, e@, i, j);
            }
        }
        r
    }

    /// Syncs the scene and starts, in definition order, each script that can be
    /// started where the player stands (`in_zone[i]` tells whether the player
    /// is inside a shape of `defs[i]`); answers the ids set active, in that order.
    pub fn activate_eligible_proximate_scripts(
        &mut self,
        scene_name: &str,
        in_zone: &[bool],
        defs: &[LevelScriptDef],
    ) -> (r: Vec<i32>)
        requires
            in_zone@.len() == defs@.len(),
            forall|i: int|
                0 <= i < defs@.len() && in_zone@[i] && has_root_start(defs@[i].headers@) ==> start_condition_ends(
                    #[trigger] defs@[i],
                ),
        ensures
            ({
                let res = proximate_fold(
                    synced_scenes(old(self).scenes(), scene_name@, defs@),
                    scene_name@,
                    defs@,
                    in_zone@,
                    defs@.len(),
                );
                &&& final(self).scenes() == res.0
                &&& r@ == res.1
            }),
            final(self).current_scene() == scene_name@,
    {
        self.sync_scene(scene_name, defs);
        let ghost mid = self.scenes();
        let mut ids: Vec<i32> = Vec::new();
        let mut i: usize = 0;
        while i < defs.len()
            invariant
                i <= defs@.len(),
                in_zone@.len() == defs@.len(),
                forall|k: int|
                    0 <= k < defs@.len() && in_zone@[k] && has_root_start(defs@[k].headers@) ==> start_condition_ends(
                        #[trigger] defs@[k],
                    ),
                self.current_scene() == scene_name@,
                ({
                    let res = proximate_fold(mid, scene_name@, defs@, in_zone@, i as nat);
                    &&& self.scenes() == res.0
                    &&& ids@ == res.1
                }),
            decreases defs.len() - i,
        {
            let d = &defs[i];
            let id: i32 = #[verifier::truncate] (d.script_id as i32);
            if self.get_state(scene_name, id) == LevelScriptState::Enabled && in_zone[i] && has_root_on_script_start(
                &d.headers,
            ) {
                proof {
                    assert(start_condition_ends(defs@[i as int]));
                }
                let passes = on_script_start_validate_passes(
                    &d.headers,
                    &d.getters,
                    self.stored_properties(scene_name, id),
                );
                if passes {
                    let _ = self.set_state(scene_name, id, LevelScriptState::Active);
                    ids.push(id);
                }
            }
            i = i + 1;
        }
        ids
    }

    /// Syncs the scene and starts, in definition order, each script the server
    /// itself starts: enabled, without shapes, with an `OnScriptActive` root
    /// header, and not over; answers the ids set active, in that order.
    pub fn activate_server_triggered_scripts(&mut self, scene_name: &str, defs: &[LevelScriptDef]) -> (r: Vec<i32>)
        ensures
            ({
                let res = server_fold(
                    synced_scenes(old(self).scenes(), scene_name@, defs@),
                    scene_name@,
                    defs@,
                    defs@.len(),
                );
                &&& final(self).scenes() == res.0
                &&& r@ == res.1
            }),
            final(self).current_scene() == scene_name@,
    {
        self.sync_scene(scene_name, defs);
        let ghost mid = self.scenes();
        let active = str_chars("OnScriptActive");
        let over_key = "isOver";
        let mut ids: Vec<i32> = Vec::new();
        let mut i: usize = 0;
        while i < defs.len()
            invariant
                i <= defs@.len(),
                active@ == "OnScriptActive"@,
                over_key@ == "isOver"@,
                self.current_scene() == scene_name@,
                ({
                    let res = server_fold(mid, scene_name@, defs@, i as nat);
                    &&& self.scenes() == res.0
                    &&& ids@ == res.1
                }),
            decreases defs.len() - i,
        {
            let d = &defs[i];
            let id: i32 = #[verifier::truncate] (d.script_id as i32);
            if self.get_state(scene_name, id) == LevelScriptState::Enabled && !d.has_shapes && root_header_index(
                &d.headers,
                &active,
            ).is_some() {
                let over = match self.stored_properties(scene_name, id) {
                    Some(p) => {
                        proof {
                            lemma_props_view_at(*p, over_key@);
                        }
                        match p.get(over_key) {
                            Some(v) => match v.first_bool() {
                                Some(b) => b,
                                None => false,
                            },
                            None => false,
                        }
                    },
                    None => false,
                };
                if !over {
                    let _ = self.set_state(scene_name, id, LevelScriptState::Active);
                    ids.push(id);
                }
            }
            i = i + 1;
        }
        ids
    }

}

} // verus!
