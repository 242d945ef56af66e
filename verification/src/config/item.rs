//! Item configuration: depot kinds, craft slots and per-item settings.

use crate::config::table::{find_key, get, has_key, is_first_key, lookup, lemma_lookup_first};
use vstd::prelude::*;

verus! {

/// Craft/showing category of an item (which UI panel or equip slot it belongs to).
#[derive(Debug, Clone, Copy, PartialEq, Eq, Structural, Hash)]
pub enum CraftShowingType {
    Unset,
    SourceMachine,
    BasicMachine,
    AssembleMachine,
    FarmMachine,
    UtilMachine,
    ExpCard,
    EquipHead,
    EquipBody,
    EquipRing,
    RankupMaterial,
    ManualCraftFactory,
    ManualCraftEquip,
    ManualCraftMedic,
    ExpCardProc,
    WeaponGemNormal,
    WeaponGemSpc,
}

impl CraftShowingType {
    /// The table's integer code for this variant.
    pub open spec fn spec_as_u32(self) -> u32 {
        match self {
            CraftShowingType::Unset => 0,
            CraftShowingType::SourceMachine => 1,
            CraftShowingType::BasicMachine => 2,
            CraftShowingType::AssembleMachine => 3,
            CraftShowingType::FarmMachine => 4,
            CraftShowingType::UtilMachine => 5,
            CraftShowingType::ExpCard => 6,
            CraftShowingType::EquipHead => 7,
            CraftShowingType::EquipBody => 8,
            CraftShowingType::EquipRing => 9,
            CraftShowingType::RankupMaterial => 10,
            CraftShowingType::ManualCraftFactory => 11,
            CraftShowingType::ManualCraftEquip => 12,
            CraftShowingType::ManualCraftMedic => 13,
            CraftShowingType::ExpCardProc => 14,
            CraftShowingType::WeaponGemNormal => 15,
            CraftShowingType::WeaponGemSpc => 16,
        }
    }

    /// The table's integer code for this variant.
    #[verifier::when_used_as_spec(spec_as_u32)]
    pub fn as_u32(self) -> (code: u32)
        ensures
            code == self.spec_as_u32(),
    {
        match self {
            CraftShowingType::Unset => 0,
            CraftShowingType::SourceMachine => 1,
            CraftShowingType::BasicMachine => 2,
            CraftShowingType::AssembleMachine => 3,
            CraftShowingType::FarmMachine => 4,
            CraftShowingType::UtilMachine => 5,
            CraftShowingType::ExpCard => 6,
            CraftShowingType::EquipHead => 7,
            CraftShowingType::EquipBody => 8,
            CraftShowingType::EquipRing => 9,
            CraftShowingType::RankupMaterial => 10,
            CraftShowingType::ManualCraftFactory => 11,
            CraftShowingType::ManualCraftEquip => 12,
            CraftShowingType::ManualCraftMedic => 13,
            CraftShowingType::ExpCardProc => 14,
            CraftShowingType::WeaponGemNormal => 15,
            CraftShowingType::WeaponGemSpc => 16,
        }
    }
}

/// The variant with code `v`, or `v` itself when no variant has it.
pub open spec fn craft_showing_type_from_u32(v: u32) -> Result<CraftShowingType, u32> {
    match v {
        0 => Ok(CraftShowingType::Unset),
        1 => Ok(CraftShowingType::SourceMachine),
        2 => Ok(CraftShowingType::BasicMachine),
        3 => Ok(CraftShowingType::AssembleMachine),
        4 => Ok(CraftShowingType::FarmMachine),
        5 => Ok(CraftShowingType::UtilMachine),
        6 => Ok(CraftShowingType::ExpCard),
        7 => Ok(CraftShowingType::EquipHead),
        8 => Ok(CraftShowingType::EquipBody),
        9 => Ok(CraftShowingType::EquipRing),
        10 => Ok(CraftShowingType::RankupMaterial),
        11 => Ok(CraftShowingType::ManualCraftFactory),
        12 => Ok(CraftShowingType::ManualCraftEquip),
        13 => Ok(CraftShowingType::ManualCraftMedic),
        14 => Ok(CraftShowingType::ExpCardProc),
        15 => Ok(CraftShowingType::WeaponGemNormal),
        16 => Ok(CraftShowingType::WeaponGemSpc),
        other => Err(other),
    }
}

impl TryFrom<u32> for CraftShowingType {
    type Error = u32;

    fn try_from(v: u32) -> (r: Result<Self, u32>) {
        match v {
            0 => Ok(CraftShowingType::Unset),
            1 => Ok(CraftShowingType::SourceMachine),
            2 => Ok(CraftShowingType::BasicMachine),
            3 => Ok(CraftShowingType::AssembleMachine),
            4 => Ok(CraftShowingType::FarmMachine),
            5 => Ok(CraftShowingType::UtilMachine),
            6 => Ok(CraftShowingType::ExpCard),
            7 => Ok(CraftShowingType::EquipHead),
            8 => Ok(CraftShowingType::EquipBody),
            9 => Ok(CraftShowingType::EquipRing),
            10 => Ok(CraftShowingType::RankupMaterial),
            11 => Ok(CraftShowingType::ManualCraftFactory),
            12 => Ok(CraftShowingType::ManualCraftEquip),
            13 => Ok(CraftShowingType::ManualCraftMedic),
            14 => Ok(CraftShowingType::ExpCardProc),
            15 => Ok(CraftShowingType::WeaponGemNormal),
            16 => Ok(CraftShowingType::WeaponGemSpc),
            other => Err(other),
        }
    }
}

impl vstd::std_specs::convert::TryFromSpecImpl<u32> for CraftShowingType {
    open spec fn obeys_try_from_spec() -> bool {
        true
    }

    open spec fn try_from_spec(v: u32) -> Result<Self, u32> {
        craft_showing_type_from_u32(v)
    }
}

impl Default for CraftShowingType {
    fn default() -> (r: Self)
        ensures
            r == CraftShowingType::Unset,
    {
        CraftShowingType::Unset
    }
}

impl CraftShowingType {
    /// Head, body and ring are the equipment slots.
    pub fn is_equip_slot(self) -> (b: bool)
        ensures
            b == (self == CraftShowingType::EquipHead || self == CraftShowingType::EquipBody
                || self == CraftShowingType::EquipRing),
    {
        match self {
            CraftShowingType::EquipHead | CraftShowingType::EquipBody | CraftShowingType::EquipRing => true,
            _ => false,
        }
    }

    /// Signed variant of the `u32` conversion: negative codes are rejected as-is,
    /// other unknown codes are returned as the original `i32`.
    pub fn try_from_i32(v: i32) -> (r: Result<Self, i32>)
        ensures
            r == craft_showing_type_from_i32(v),
    {
        if v < 0 {
            return Err(v);
        }
        match CraftShowingType::try_from(v as u32) {
            Ok(t) => Ok(t),
            Err(_) => Err(v),
        }
    }
}

/// Signed decoding: negative codes and unknown codes are returned as-is.
pub open spec fn craft_showing_type_from_i32(v: i32) -> Result<CraftShowingType, i32> {
    if v < 0 {
        Err(v)
    } else {
        match craft_showing_type_from_u32(v as u32) {
            Ok(t) => Ok(t),
            Err(_) => Err(v),
        }
    }
}

impl TryFrom<i32> for CraftShowingType {
    type Error = i32;

    fn try_from(v: i32) -> (r: Result<Self, i32>) {
        CraftShowingType::try_from_i32(v)
    }
}

impl vstd::std_specs::convert::TryFromSpecImpl<i32> for CraftShowingType {
    open spec fn obeys_try_from_spec() -> bool {
        true
    }

    open spec fn try_from_spec(v: i32) -> Result<Self, i32> {
        craft_showing_type_from_i32(v)
    }
}

/// Which depot (inventory tab) an item lives in.
#[derive(Debug, Clone, Copy, PartialEq, Eq, Structural, Hash)]
pub enum ItemDepotType {
    Invalid,
    Weapon,
    WeaponGem,
    Equip,
    SpecialItem,
    MissionItem,
    Factory,
}

impl ItemDepotType {
    /// The table's integer code for this variant.
    pub open spec fn spec_as_u32(self) -> u32 {
        match self {
            ItemDepotType::Invalid => 0,
            ItemDepotType::Weapon => 1,
            ItemDepotType::WeaponGem => 2,
            ItemDepotType::Equip => 3,
            ItemDepotType::SpecialItem => 4,
            ItemDepotType::MissionItem => 5,
            ItemDepotType::Factory => 6,
        }
    }

    /// The table's integer code for this variant.
    #[verifier::when_used_as_spec(spec_as_u32)]
    pub fn as_u32(self) -> (code: u32)
        ensures
            code == self.spec_as_u32(),
    {
        match self {
            ItemDepotType::Invalid => 0,
            ItemDepotType::Weapon => 1,
            ItemDepotType::WeaponGem => 2,
            ItemDepotType::Equip => 3,
            ItemDepotType::SpecialItem => 4,
            ItemDepotType::MissionItem => 5,
            ItemDepotType::Factory => 6,
        }
    }
}

/// The variant with code `v`, or `v` itself when no variant has it.
pub open spec fn item_depot_type_from_u32(v: u32) -> Result<ItemDepotType, u32> {
    match v {
        0 => Ok(ItemDepotType::Invalid),
        1 => Ok(ItemDepotType::Weapon),
        2 => Ok(ItemDepotType::WeaponGem),
        3 => Ok(ItemDepotType::Equip),
        4 => Ok(ItemDepotType::SpecialItem),
        5 => Ok(ItemDepotType::MissionItem),
        6 => Ok(ItemDepotType::Factory),
        other => Err(other),
    }
}

impl TryFrom<u32> for ItemDepotType {
    type Error = u32;

    fn try_from(v: u32) -> (r: Result<Self, u32>) {
        match v {
            0 => Ok(ItemDepotType::Invalid),
            1 => Ok(ItemDepotType::Weapon),
            2 => Ok(ItemDepotType::WeaponGem),
            3 => Ok(ItemDepotType::Equip),
            4 => Ok(ItemDepotType::SpecialItem),
            5 => Ok(ItemDepotType::MissionItem),
            6 => Ok(ItemDepotType::Factory),
            other => Err(other),
        }
    }
}

impl vstd::std_specs::convert::TryFromSpecImpl<u32> for ItemDepotType {
    open spec fn obeys_try_from_spec() -> bool {
        true
    }

    open spec fn try_from_spec(v: u32) -> Result<Self, u32> {
        item_depot_type_from_u32(v)
    }
}

/// Every depot except `Invalid`, in code order.
pub open spec fn spec_all_valid_depots() -> Seq<ItemDepotType> {
    seq![
        ItemDepotType::Weapon,
        ItemDepotType::WeaponGem,
        ItemDepotType::Equip,
        ItemDepotType::SpecialItem,
        ItemDepotType::MissionItem,
        ItemDepotType::Factory,
    ]
}

impl ItemDepotType {
    /// Every depot except `Invalid`, in code order.
    pub fn all_valid() -> (v: Vec<ItemDepotType>)
        ensures
            v@ == spec_all_valid_depots(),
    {
        let mut v: Vec<ItemDepotType> = Vec::new();
        v.push(ItemDepotType::Weapon);
        v.push(ItemDepotType::WeaponGem);
        v.push(ItemDepotType::Equip);
        v.push(ItemDepotType::SpecialItem);
        v.push(ItemDepotType::MissionItem);
        v.push(ItemDepotType::Factory);
        assert(v@ =~= spec_all_valid_depots());
        v
    }

    /// The variant name, as `{:?}` prints it.
    pub open spec fn spec_name(self) -> Seq<char> {
        match self {
            ItemDepotType::Invalid => "Invalid"@,
            ItemDepotType::Weapon => "Weapon"@,
            ItemDepotType::WeaponGem => "WeaponGem"@,
            ItemDepotType::Equip => "Equip"@,
            ItemDepotType::SpecialItem => "SpecialItem"@,
            ItemDepotType::MissionItem => "MissionItem"@,
            ItemDepotType::Factory => "Factory"@,
        }
    }

    /// The variant name, as `{:?}` prints it.
    pub fn name(self) -> (s: &'static str)
        ensures
            s@ == self.spec_name(),
    {
        match self {
            ItemDepotType::Invalid => "Invalid",
            ItemDepotType::Weapon => "Weapon",
            ItemDepotType::WeaponGem => "WeaponGem",
            ItemDepotType::Equip => "Equip",
            ItemDepotType::SpecialItem => "SpecialItem",
            ItemDepotType::MissionItem => "MissionItem",
            ItemDepotType::Factory => "Factory",
        }
    }
}

/// A depot's code decodes back to it, and every code that decodes names a depot
/// whose code it is.
pub proof fn lemma_depot_code_round_trip(d: ItemDepotType, v: u32)
    ensures
        item_depot_type_from_u32(d.spec_as_u32()) == Ok::<ItemDepotType, u32>(d),
        item_depot_type_from_u32(v) matches Ok(e) ==> e.spec_as_u32() == v,
{
}

/// A craft slot's code decodes back to it, and every code that decodes names a slot
/// whose code it is.
pub proof fn lemma_craft_code_round_trip(c: CraftShowingType, v: u32)
    ensures
        craft_showing_type_from_u32(c.spec_as_u32()) == Ok::<CraftShowingType, u32>(c),
        craft_showing_type_from_u32(v) matches Ok(e) ==> e.spec_as_u32() == v,
{
}

/// What kind of item a config row describes, with the data each kind carries.
#[derive(Debug, Clone, Copy, PartialEq, Eq, Structural)]
pub enum ItemKind {
    Weapon,
    WeaponGem { craft_slot: CraftShowingType },
    Equip { slot: CraftShowingType },
    SpecialItem,
    MissionItem,
    Factory,
    Unknown { raw_tab_type: u32 },
}

impl ItemKind {
    pub open spec fn spec_is_instanced(self) -> bool {
        self is Weapon || self is WeaponGem || self is Equip
    }

    pub open spec fn spec_is_stackable(self) -> bool {
        self is SpecialItem || self is MissionItem || self is Factory
    }

    pub open spec fn spec_depot_type(self) -> ItemDepotType {
        match self {
            ItemKind::Weapon => ItemDepotType::Weapon,
            ItemKind::WeaponGem { .. } => ItemDepotType::WeaponGem,
            ItemKind::Equip { .. } => ItemDepotType::Equip,
            ItemKind::SpecialItem => ItemDepotType::SpecialItem,
            ItemKind::MissionItem => ItemDepotType::MissionItem,
            ItemKind::Factory => ItemDepotType::Factory,
            ItemKind::Unknown { .. } => ItemDepotType::Invalid,
        }
    }

    /// Weapons, gems and equipment exist as individual instances.
    pub fn is_instanced(&self) -> (b: bool)
        ensures
            b == self.spec_is_instanced(),
    {
        match self {
            ItemKind::Weapon | ItemKind::WeaponGem { .. } | ItemKind::Equip { .. } => true,
            _ => false,
        }
    }

    /// Special, mission and factory items are kept as stack counts.
    pub fn is_stackable(&self) -> (b: bool)
        ensures
            b == self.spec_is_stackable(),
    {
        match self {
            ItemKind::SpecialItem | ItemKind::MissionItem | ItemKind::Factory => true,
            _ => false,
        }
    }

    /// The depot items of this kind are stored in.
    pub fn depot_type(&self) -> (d: ItemDepotType)
        ensures
            d == self.spec_depot_type(),
    {
        match self {
            ItemKind::Weapon => ItemDepotType::Weapon,
            ItemKind::WeaponGem { .. } => ItemDepotType::WeaponGem,
            ItemKind::Equip { .. } => ItemDepotType::Equip,
            ItemKind::SpecialItem => ItemDepotType::SpecialItem,
            ItemKind::MissionItem => ItemDepotType::MissionItem,
            ItemKind::Factory => ItemDepotType::Factory,
            ItemKind::Unknown { .. } => ItemDepotType::Invalid,
        }
    }
}

/// A localised text reference of the item table.
#[derive(Debug, Clone)]
pub struct I18nText {
    pub id: String,
    pub text: String,
}

/// One row of the item table, as stored.
#[derive(Debug)]
pub struct RawItemEntry {
    pub id: String,
    pub item_type: u32,
    pub name: I18nText,
    pub desc: I18nText,
    pub rarity: u32,
    pub sort_id1: i32,
    pub sort_id2: i32,
    pub icon_id: String,
    pub model_key: String,
    pub max_backpack_stack_count: i32,
    pub max_stack_count: i32,
    pub backpack_can_discard: bool,
    pub price: u64,
    pub obtain_way_ids: Vec<String>,
    pub valuable_tab_type: u32,
    pub showing_type: u32,
}

/// Per-item configuration.
#[derive(Debug)]
pub struct ItemConfig {
    pub id: String,
    pub item_type: u32,
    pub name: I18nText,
    pub desc: I18nText,
    pub rarity: u32,
    pub sort_id1: i32,
    pub sort_id2: i32,
    pub icon_id: String,
    pub model_key: String,
    /// -1 = unlimited.
    pub max_backpack_stack_count: i32,
    /// -1 = unlimited; 1 = non-stackable / instanced.
    pub max_stack_count: i32,
    pub can_discard: bool,
    pub price: u64,
    pub obtain_way_ids: Vec<String>,
    pub depot_type: ItemDepotType,
    pub kind: ItemKind,
}

impl ItemConfig {
    pub fn is_instanced(&self) -> (b: bool)
        ensures
            b == self.kind.spec_is_instanced(),
    {
        self.kind.is_instanced()
    }

    pub fn is_stackable(&self) -> (b: bool)
        ensures
            b == self.kind.spec_is_stackable(),
    {
        self.kind.is_stackable()
    }
}

/// The depot a raw tab code names; unknown codes fall back to `Invalid`.
pub open spec fn depot_of_code(v: u32) -> ItemDepotType {
    match item_depot_type_from_u32(v) {
        Ok(d) => d,
        Err(_) => ItemDepotType::Invalid,
    }
}

/// The craft slot a raw showing code names; unknown codes fall back to `Unset`.
pub open spec fn craft_of_code(v: u32) -> CraftShowingType {
    match craft_showing_type_from_u32(v) {
        Ok(c) => c,
        Err(_) => CraftShowingType::Unset,
    }
}

/// The kind of an item stored in `depot`, with its craft slot and raw tab code.
pub open spec fn kind_for(depot: ItemDepotType, craft: CraftShowingType, raw_tab_type: u32) -> ItemKind {
    match depot {
        ItemDepotType::Weapon => ItemKind::Weapon,
        ItemDepotType::WeaponGem => ItemKind::WeaponGem { craft_slot: craft },
        ItemDepotType::Equip => ItemKind::Equip { slot: craft },
        ItemDepotType::SpecialItem => ItemKind::SpecialItem,
        ItemDepotType::MissionItem => ItemKind::MissionItem,
        ItemDepotType::Factory => ItemKind::Factory,
        ItemDepotType::Invalid => ItemKind::Unknown { raw_tab_type },
    }
}

/// The configuration a raw row describes.
pub open spec fn config_of(r: RawItemEntry) -> ItemConfig {
    ItemConfig {
        id: r.id,
        item_type: r.item_type,
        name: r.name,
        desc: r.desc,
        rarity: r.rarity,
        sort_id1: r.sort_id1,
        sort_id2: r.sort_id2,
        icon_id: r.icon_id,
        model_key: r.model_key,
        max_backpack_stack_count: r.max_backpack_stack_count,
        max_stack_count: r.max_stack_count,
        can_discard: r.backpack_can_discard,
        price: r.price,
        obtain_way_ids: r.obtain_way_ids,
        depot_type: depot_of_code(r.valuable_tab_type),
        kind: kind_for(
            depot_of_code(r.valuable_tab_type),
            craft_of_code(r.showing_type),
            r.valuable_tab_type,
        ),
    }
}

impl From<RawItemEntry> for ItemConfig {
    fn from(r: RawItemEntry) -> (c: Self) {
        let depot_type = match ItemDepotType::try_from(r.valuable_tab_type) {
            Ok(d) => d,
            Err(_) => ItemDepotType::Invalid,
        };
        let craft_showing = match CraftShowingType::try_from(r.showing_type) {
            Ok(c) => c,
            Err(_) => CraftShowingType::Unset,
        };
        let kind = match depot_type {
            ItemDepotType::Weapon => ItemKind::Weapon,
            ItemDepotType::WeaponGem => ItemKind::WeaponGem { craft_slot: craft_showing },
            ItemDepotType::Equip => ItemKind::Equip { slot: craft_showing },
            ItemDepotType::SpecialItem => ItemKind::SpecialItem,
            ItemDepotType::MissionItem => ItemKind::MissionItem,
            ItemDepotType::Factory => ItemKind::Factory,
            ItemDepotType::Invalid => ItemKind::Unknown { raw_tab_type: r.valuable_tab_type },
        };
        ItemConfig {
            id: r.id,
            item_type: r.item_type,
            name: r.name,
            desc: r.desc,
            rarity: r.rarity,
            sort_id1: r.sort_id1,
            sort_id2: r.sort_id2,
            icon_id: r.icon_id,
            model_key: r.model_key,
            max_backpack_stack_count: r.max_backpack_stack_count,
            max_stack_count: r.max_stack_count,
            can_discard: r.backpack_can_discard,
            price: r.price,
            obtain_way_ids: r.obtain_way_ids,
            depot_type,
            kind,
        }
    }
}

impl vstd::std_specs::convert::FromSpecImpl<RawItemEntry> for ItemConfig {
    open spec fn obeys_from_spec() -> bool {
        true
    }

    open spec fn from_spec(r: RawItemEntry) -> ItemConfig {
        config_of(r)
    }
}

/// `a` sorts no later than `b`: by `sort_id1`, then `sort_id2`.
pub open spec fn sorts_before_or_with(a: ItemConfig, b: ItemConfig) -> bool {
    a.sort_id1 < b.sort_id1 || (a.sort_id1 == b.sort_id1 && a.sort_id2 <= b.sort_id2)
}

/// `ord` lists, each once, exactly the positions of `items` whose depot is `depot`,
/// ordered by sort ids.
pub open spec fn is_depot_order(items: Seq<(String, ItemConfig)>, depot: ItemDepotType, ord: Seq<usize>) -> bool {
    &&& forall|i: int| 0 <= i < ord.len() ==> (#[trigger] ord[i]) < items.len() && items[ord[i] as int].1.depot_type == depot
    &&& forall|i: int, j: int| 0 <= i < j < ord.len() ==> (#[trigger] ord[i]) != (#[trigger] ord[j])
    &&& forall|k: int| 0 <= k < items.len() && (#[trigger] items[k]).1.depot_type == depot ==> ord.contains(k as usize)
    &&& forall|i: int, j: int|
        0 <= i < j < ord.len() ==> sorts_before_or_with(items[(#[trigger] ord[i]) as int].1, items[(#[trigger] ord[j]) as int].1)
}

/// The depot whose code is `d`.
pub open spec fn depot_at(d: int) -> ItemDepotType {
    depot_of_code(d as u32)
}


/// Whether an entry's item is stored in depot `d`.
pub open spec fn in_depot(d: ItemDepotType) -> spec_fn((String, ItemConfig)) -> bool {
    |e: (String, ItemConfig)| e.1.depot_type == d
}

/// Number of entries of `items` whose item is stored in depot `d`.
pub open spec fn depot_count(items: Seq<(String, ItemConfig)>, d: ItemDepotType) -> nat {
    items.filter(in_depot(d)).len()
}

/// The depot counts summed over every depot type.
pub open spec fn all_depot_count(items: Seq<(String, ItemConfig)>) -> nat {
    depot_count(items, ItemDepotType::Invalid) + depot_count(items, ItemDepotType::Weapon) + depot_count(
        items,
        ItemDepotType::WeaponGem,
    ) + depot_count(items, ItemDepotType::Equip) + depot_count(items, ItemDepotType::SpecialItem)
        + depot_count(items, ItemDepotType::MissionItem) + depot_count(items, ItemDepotType::Factory)
}

/// Positions below `n` of the entries stored in `d`, in order.
pub open spec fn depot_positions(items: Seq<(String, ItemConfig)>, d: ItemDepotType, n: nat) -> Seq<usize>
    decreases n,
{
    if n == 0 {
        Seq::empty()
    } else {
        let prev = depot_positions(items, d, (n - 1) as nat);
        if items[n - 1].1.depot_type == d {
            prev.push((n - 1) as usize)
        } else {
            prev
        }
    }
}

proof fn lemma_depot_positions(items: Seq<(String, ItemConfig)>, d: ItemDepotType, n: nat)
    requires
        n <= items.len(),
        items.len() <= usize::MAX,
    ensures
        depot_positions(items, d, n).no_duplicates(),
        forall|k: usize| #[trigger] depot_positions(items, d, n).contains(k) <==> (k < n && items[k as int].1.depot_type == d),
        depot_positions(items, d, n).len() == items.take(n as int).filter(in_depot(d)).len(),
    decreases n,
{
    if n > 0 {
        let m = (n - 1) as nat;
        lemma_depot_positions(items, d, m);
        let prev = depot_positions(items, d, m);
        assert(items.take(n as int) =~= items.take(m as int).push(items[m as int]));
        items.take(m as int).lemma_filter_push(items[m as int], in_depot(d));
        if items[m as int].1.depot_type == d {
            let last = m as usize;
            assert(!prev.contains(last));
            assert forall|a: int, b: int| 0 <= a < b < prev.push(last).len() implies prev.push(last)[a] != prev.push(last)[b] by {
                if b == prev.len() {
                    assert(prev.contains(prev[a]));
                }
            }
            assert forall|k: usize| #[trigger] prev.push(last).contains(k) <==> (k < n && items[k as int].1.depot_type == d) by {
                if k == last {
                    assert(prev.push(last)[prev.len() as int] == k);
                } else if prev.push(last).contains(k) {
                    let q = choose|q: int| 0 <= q < prev.push(last).len() && prev.push(last)[q] == k;
                    assert(prev.contains(prev[q]));
                } else if k < n && items[k as int].1.depot_type == d {
                    assert(prev.contains(k));
                    let q = choose|q: int| 0 <= q < prev.len() && prev[q] == k;
                    assert(prev.push(last)[q] == k);
                }
            }
        }
    }
}

/// A depot order lists as many positions as the table has entries in that depot.
proof fn lemma_depot_order_len(items: Seq<(String, ItemConfig)>, d: ItemDepotType, ord: Seq<usize>)
    requires
        is_depot_order(items, d, ord),
        items.len() <= usize::MAX,
    ensures
        ord.len() == depot_count(items, d),
{
    let pos = depot_positions(items, d, items.len());
    lemma_depot_positions(items, d, items.len());
    assert(items.take(items.len() as int) =~= items);
    assert(ord.no_duplicates()) by {
        assert forall|a: int, b: int| 0 <= a < ord.len() && 0 <= b < ord.len() && a != b implies ord[a] != ord[b] by {
            if a < b {
                assert(ord[a] != ord[b]);
            } else {
                assert(ord[b] != ord[a]);
            }
        }
    }
    assert(ord.to_set() =~= pos.to_set()) by {
        assert forall|k: usize| #[trigger] ord.to_set().contains(k) <==> pos.to_set().contains(k) by {
            if ord.contains(k) {
                let q = choose|q: int| 0 <= q < ord.len() && ord[q] == k;
                assert(ord[q] < items.len() && items[ord[q] as int].1.depot_type == d);
            }
            if pos.contains(k) {
                assert(items[k as int].1.depot_type == d);
                assert(ord.contains(k as int as usize));
            }
        }
    }
    ord.unique_seq_to_set();
    pos.unique_seq_to_set();
}

/// Every entry is stored in exactly one depot, so the depot counts add up to
/// the number of entries.
pub proof fn lemma_depot_counts_sum(items: Seq<(String, ItemConfig)>)
    ensures
        all_depot_count(items) == items.len(),
    decreases items.len(),
{
    if items.len() > 0 {
        let r = items.drop_last();
        let x = items.last();
        lemma_depot_counts_sum(r);
        assert(r.push(x) =~= items);
        r.lemma_filter_push(x, in_depot(ItemDepotType::Invalid));
        r.lemma_filter_push(x, in_depot(ItemDepotType::Weapon));
        r.lemma_filter_push(x, in_depot(ItemDepotType::WeaponGem));
        r.lemma_filter_push(x, in_depot(ItemDepotType::Equip));
        r.lemma_filter_push(x, in_depot(ItemDepotType::SpecialItem));
        r.lemma_filter_push(x, in_depot(ItemDepotType::MissionItem));
        r.lemma_filter_push(x, in_depot(ItemDepotType::Factory));
    }
}

/// Item configuration, keyed by item id, with per-depot id lists and exp-card values.
pub struct ItemAssets {
    by_id: Vec<(String, ItemConfig)>,
    order: Vec<Vec<usize>>,
    by_depot: Vec<Vec<String>>,
    exp_by_id: Vec<(String, i64)>,
}

impl ItemAssets {
    pub closed spec fn items_view(&self) -> Seq<(String, ItemConfig)> {
        self.by_id@
    }

    pub closed spec fn exp_view(&self) -> Seq<(String, i64)> {
        self.exp_by_id@
    }

    #[verifier::type_invariant]
    closed spec fn wf(&self) -> bool {
        &&& self.order@.len() == 7
        &&& self.by_depot@.len() == 7
        &&& forall|d: int| 0 <= d < 7 ==> is_depot_order(self.by_id@, depot_at(d), (#[trigger] self.order@[d])@)
        &&& forall|d: int| 0 <= d < 7 ==> (#[trigger] self.by_depot@[d])@.len() == self.order@[d]@.len()
        &&& forall|d: int, i: int|
            0 <= d < 7 && 0 <= i < self.order@[d]@.len() ==> (#[trigger] self.by_depot@[d]@[i]) == self.by_id@[self.order@[d]@[i] as int].0
    }

    pub open spec fn spec_get(&self, id: Seq<char>) -> Option<ItemConfig> {
        lookup(self.items_view(), id)
    }

    /// Positions of the items of `depot`, sorted by their sort ids.
    #[verifier::rlimit(40)]
    fn depot_order(items: &Vec<(String, ItemConfig)>, depot: ItemDepotType) -> (ord: Vec<usize>)
        ensures
            is_depot_order(items@, depot, ord@),
    {
        let mut ord: Vec<usize> = Vec::new();
        let mut k: usize = 0;
        while k < items.len()
            invariant
                k <= items@.len(),
                forall|i: int| 0 <= i < ord@.len() ==> (#[trigger] ord@[i]) < k && items@[ord@[i] as int].1.depot_type == depot,
                forall|i: int, j: int| 0 <= i < j < ord@.len() ==> (#[trigger] ord@[i]) != (#[trigger] ord@[j]),
                forall|m: int| 0 <= m < k && (#[trigger] items@[m]).1.depot_type == depot ==> ord@.contains(m as usize),
                forall|i: int, j: int|
                    0 <= i < j < ord@.len() ==> sorts_before_or_with(
                        items@[(#[trigger] ord@[i]) as int].1,
                        items@[(#[trigger] ord@[j]) as int].1,
                    ),
            decreases items.len() - k,
        {
            if items[k].1.depot_type == depot {
                let a1 = items[k].1.sort_id1;
                let a2 = items[k].1.sort_id2;
                let mut p: usize = 0;
                while p < ord.len()
                    invariant_except_break
                        p <= ord@.len(),
                        k < items@.len(),
                        a1 == items@[k as int].1.sort_id1,
                        a2 == items@[k as int].1.sort_id2,
                        forall|i: int| 0 <= i < ord@.len() ==> (#[trigger] ord@[i]) < items@.len(),
                        forall|i: int| 0 <= i < p ==> sorts_before_or_with(items@[(#[trigger] ord@[i]) as int].1, items@[k as int].1),
                    ensures
                        p <= ord@.len(),
                        forall|i: int| 0 <= i < p ==> sorts_before_or_with(items@[(#[trigger] ord@[i]) as int].1, items@[k as int].1),
                        p < ord@.len() ==> !sorts_before_or_with(items@[ord@[p as int] as int].1, items@[k as int].1),
                    decreases ord.len() - p,
                {
                    let c = &items[ord[p]].1;
                    if !(c.sort_id1 < a1 || (c.sort_id1 == a1 && c.sort_id2 <= a2)) {
                        break;
                    }
                    p = p + 1;
                }
                let ghost before = ord@;
                ord.insert(p, k);
                proof {
                    assert forall|i: int, j: int| 0 <= i < j < ord@.len() implies sorts_before_or_with(
                        items@[(#[trigger] ord@[i]) as int].1,
                        items@[(#[trigger] ord@[j]) as int].1,
                    ) by {
                        if j < p {
                            assert(ord@[i] == before[i] && ord@[j] == before[j]);
                        } else if j == p {
                            assert(ord@[i] == before[i]);
                        } else if i < p {
                            assert(ord@[i] == before[i] && ord@[j] == before[j - 1]);
                            if p < before.len() {
                                assert(!sorts_before_or_with(items@[before[p as int] as int].1, items@[k as int].1));
                                assert(sorts_before_or_with(items@[before[p as int] as int].1, items@[before[j - 1] as int].1)
                                    || p == j - 1);
                            }
                        } else if i == p {
                            assert(ord@[j] == before[j - 1]);
                            assert(!sorts_before_or_with(items@[before[p as int] as int].1, items@[k as int].1));
                            assert(p == j - 1 || sorts_before_or_with(items@[before[p as int] as int].1, items@[before[j - 1] as int].1));
                        } else {
                            assert(ord@[i] == before[i - 1] && ord@[j] == before[j - 1]);
                        }
                    }
                    assert forall|m: int| 0 <= m < k + 1 && (#[trigger] items@[m]).1.depot_type == depot implies ord@.contains(m as usize) by {
                        if m < k {
                            let w = choose|w: int| 0 <= w < before.len() && before[w] == m as usize;
                            if w < p {
                                assert(ord@[w] == m as usize);
                            } else {
                                assert(ord@[w + 1] == m as usize);
                            }
                        } else {
                            assert(ord@[p as int] == k);
                        }
                    }
                    assert forall|i: int, j: int| 0 <= i < j < ord@.len() implies (#[trigger] ord@[i]) != (#[trigger] ord@[j]) by {
                        if i == p {
                            assert(ord@[j] == before[j - 1]);
                        } else if j == p {
                            assert(ord@[i] == before[i]);
                        } else {
                            let bi = if i < p { i } else { i - 1 };
                            let bj = if j < p { j } else { j - 1 };
                            assert(ord@[i] == before[bi] && ord@[j] == before[bj]);
                        }
                    }
                }
            }
            k = k + 1;
        }
        ord
    }
    /// Ids of the depot's items, in the given order.
    fn ids_for(items: &Vec<(String, ItemConfig)>, ord: &Vec<usize>) -> (ids: Vec<String>)
        requires
            forall|i: int| 0 <= i < ord@.len() ==> (#[trigger] ord@[i]) < items@.len(),
        ensures
            ids@.len() == ord@.len(),
            forall|i: int| 0 <= i < ord@.len() ==> (#[trigger] ids@[i]) == items@[ord@[i] as int].0,
    {
        let mut ids: Vec<String> = Vec::new();
        let mut i: usize = 0;
        while i < ord.len()
            invariant
                i <= ord@.len(),
                forall|j: int| 0 <= j < ord@.len() ==> (#[trigger] ord@[j]) < items@.len(),
                ids@.len() == i,
                forall|j: int| 0 <= j < i ==> (#[trigger] ids@[j]) == items@[ord@[j] as int].0,
            decreases ord.len() - i,
        {
            ids.push(items[ord[i]].0.clone());
            i = i + 1;
        }
        ids
    }

    /// Builds the asset set from the item rows and the `(item id, exp)` pairs of the
    /// exp-card table.
    pub fn from_raw(entries: Vec<RawItemEntry>, exp: Vec<(String, i64)>) -> (a: Self)
        ensures
            a.items_view().len() == entries@.len(),
            forall|k: int|
                0 <= k < entries@.len() ==> (#[trigger] a.items_view()[k]) == (
                    config_of(entries@[k]).id,
                    config_of(entries@[k]),
                ),
            a.exp_view() == exp@,
    {
        let ghost rows = entries@;
        let total: usize = entries.len();
        let mut rest = entries;
        let mut by_id: Vec<(String, ItemConfig)> = Vec::new();
        let mut k: usize = 0;
        while rest.len() > 0
            invariant
                rows.len() == total,
                k + rest@.len() == rows.len(),
                rest@ == rows.skip(k as int),
                by_id@.len() == k,
                forall|j: int| 0 <= j < k ==> (#[trigger] by_id@[j]) == (config_of(rows[j]).id, config_of(rows[j])),
            decreases rest.len(),
        {
            let r = rest.remove(0);
            proof {
                assert(r == rows[k as int]);
                assert(rest@ == rows.skip(k + 1));
            }
            let cfg = ItemConfig::from(r);
            by_id.push((cfg.id.clone(), cfg));
            k = k + 1;
        }
        let mut order: Vec<Vec<usize>> = Vec::new();
        let mut by_depot: Vec<Vec<String>> = Vec::new();
        let mut d: u32 = 0;
        while d < 7
            invariant
                d <= 7,
                order@.len() == d,
                by_depot@.len() == d,
                forall|e: int| 0 <= e < d ==> is_depot_order(by_id@, depot_at(e), (#[trigger] order@[e])@),
                forall|e: int| 0 <= e < d ==> (#[trigger] by_depot@[e])@.len() == order@[e]@.len(),
                forall|e: int, i: int|
                    0 <= e < d && 0 <= i < order@[e]@.len() ==> (#[trigger] by_depot@[e]@[i]) == by_id@[order@[e]@[i] as int].0,
            decreases 7 - d,
        {
            let depot = match ItemDepotType::try_from(d) {
                Ok(x) => x,
                Err(_) => ItemDepotType::Invalid,
            };
            let ord = Self::depot_order(&by_id, depot);
            let ids = Self::ids_for(&by_id, &ord);
            order.push(ord);
            by_depot.push(ids);
            d = d + 1;
        }
        ItemAssets { by_id, order, by_depot, exp_by_id: exp }
    }

    /// Ids of the items stored in `depot`, in their sort order.
    pub closed spec fn depot_ids(&self, depot: ItemDepotType) -> Seq<String> {
        self.by_depot@[depot.spec_as_u32() as int]@
    }

    pub fn get(&self, id: &str) -> (r: Option<&ItemConfig>)
        ensures
            match r {
                Some(c) => self.spec_get(id@) == Some(*c),
                None => self.spec_get(id@) is None,
            },
    {
        get(self.by_id.as_slice(), id)
    }

    /// Ids of the items stored in `depot`, ordered by `sort_id1` then `sort_id2`.
    pub fn ids_by_depot(&self, depot: ItemDepotType) -> (ids: &[String])
        ensures
            ids@ == self.depot_ids(depot),
            exists|ord: Seq<usize>|
                is_depot_order(self.items_view(), depot, ord) && ids@.len() == ord.len() && forall|i: int|
                    0 <= i < ord.len() ==> (#[trigger] ids@[i]) == self.items_view()[ord[i] as int].0,
    {
        proof {
            use_type_invariant(self);
        }
        let d = depot.as_u32() as usize;
        let ids = self.by_depot[d].as_slice();
        proof {
            assert(depot_at(d as int) == depot);
            let ord = self.order@[d as int]@;
            assert(is_depot_order(self.by_id@, depot_at(d as int), ord));
            assert(is_depot_order(self.items_view(), depot, ord));
            assert(ids@.len() == ord.len());
            assert(forall|i: int| 0 <= i < ord.len() ==> (#[trigger] ids@[i]) == self.items_view()[ord[i] as int].0);
        }
        ids
    }

    /// Number of items stored in `depot`.
    pub fn count_by_depot(&self, depot: ItemDepotType) -> (n: usize)
        ensures
            n == self.depot_ids(depot).len(),
            n == depot_count(self.items_view(), depot),
            exists|ord: Seq<usize>| is_depot_order(self.items_view(), depot, ord) && n == ord.len(),
    {
        let _total = self.by_id.len();
        proof {
            use_type_invariant(self);
            let d = depot.spec_as_u32() as int;
            assert(depot_at(d) == depot);
            lemma_depot_order_len(self.by_id@, depot, self.order@[d]@);
        }
        self.ids_by_depot(depot).len()
    }
    /// The configurations of the items stored in `depot`, in `ids_by_depot` order.
    pub fn iter_by_depot(&self, depot: ItemDepotType) -> (out: Vec<&ItemConfig>)
        ensures
            exists|ord: Seq<usize>|
                is_depot_order(self.items_view(), depot, ord) && out@.len() == ord.len() && forall|i: int|
                    0 <= i < ord.len() ==> Some(*(#[trigger] out@[i])) == self.spec_get(
                        self.items_view()[ord[i] as int].0@,
                    ),
    {
        let ids = self.ids_by_depot(depot);
        let ghost ord = choose|ord: Seq<usize>|
            is_depot_order(self.items_view(), depot, ord) && ids@.len() == ord.len() && forall|i: int|
                0 <= i < ord.len() ==> (#[trigger] ids@[i]) == self.items_view()[ord[i] as int].0;
        let mut out: Vec<&ItemConfig> = Vec::new();
        let mut i: usize = 0;
        while i < ids.len()
            invariant
                i <= ids@.len(),
                is_depot_order(self.items_view(), depot, ord),
                ids@.len() == ord.len(),
                forall|j: int| 0 <= j < ord.len() ==> (#[trigger] ids@[j]) == self.items_view()[ord[j] as int].0,
                out@.len() == i,
                forall|j: int|
                    0 <= j < i ==> Some(*(#[trigger] out@[j])) == self.spec_get(self.items_view()[ord[j] as int].0@),
            decreases ids.len() - i,
        {
            proof {
                let k = ord[i as int] as int;
                assert(0 <= k < self.items_view().len());
                assert(self.items_view()[k].0@ == ids@[i as int]@);
                assert(has_key(self.items_view(), ids@[i as int]@));
            }
            match self.get(ids[i].as_str()) {
                Some(c) => out.push(c),
                None => {},
            }
            i = i + 1;
        }
        out
    }

    pub fn contains(&self, id: &str) -> (b: bool)
        ensures
            b == self.spec_get(id@) is Some,
    {
        find_key(self.by_id.as_slice(), id).is_some()
    }

    /// Number of item rows.
    pub fn count(&self) -> (n: usize)
        ensures
            n == self.items_view().len(),
    {
        self.by_id.len()
    }

    /// Every `(item id, configuration)` entry, in table order.
    pub fn iter(&self) -> (s: &[(String, ItemConfig)])
        ensures
            s@ == self.items_view(),
    {
        self.by_id.as_slice()
    }

    /// The character exp one `item_id` grants; 0 for items that are not exp cards.
    pub fn char_exp_for_item(&self, item_id: &str) -> (exp: i64)
        ensures
            exp == match lookup(self.exp_view(), item_id@) {
                Some(e) => e,
                None => 0i64,
            },
    {
        match get(self.exp_by_id.as_slice(), item_id) {
            Some(e) => *e,
            None => 0,
        }
    }
}


/// For assets whose entries each carry their item's own id (as `from_raw`
/// builds them), the configuration a lookup finds carries the id looked up,
/// and a lookup (`get`, `contains`) finds something exactly when some entry
/// that `iter` yields has that id.
pub proof fn lemma_item_lookup_agrees(a: &ItemAssets, id: Seq<char>)
    requires
        forall|k: int| 0 <= k < a.items_view().len() ==> (#[trigger] a.items_view()[k]).0 == a.items_view()[k].1.id,
    ensures
        a.spec_get(id) matches Some(c) ==> c.id@ == id,
        a.spec_get(id) is Some <==> exists|k: int| 0 <= k < a.items_view().len() && (#[trigger] a.items_view()[k]).1.id@ == id,
{
    let s = a.items_view();
    if has_key(s, id) {
        let i = choose|i: int| 0 <= i < s.len() && (#[trigger] s[i]).0@ == id;
        let first = choose|j: int| is_first_key(s, id, j);
        assert(exists|j: int| is_first_key(s, id, j)) by {
            lemma_first_key_exists(s, id, i);
        }
        assert(is_first_key(s, id, first));
        assert(s[first].0 == s[first].1.id);
        assert(s[i].0 == s[i].1.id);
    } else {
        assert forall|k: int| 0 <= k < s.len() implies (#[trigger] s[k]).1.id@ != id by {
            assert(s[k].0 == s[k].1.id);
        }
    }
}

proof fn lemma_first_key_exists(s: Seq<(String, ItemConfig)>, id: Seq<char>, i: int)
    requires
        0 <= i < s.len(),
        s[i].0@ == id,
    ensures
        exists|j: int| is_first_key(s, id, j),
    decreases i,
{
    if exists|j: int| 0 <= j < i && (#[trigger] s[j]).0@ == id {
        let j = choose|j: int| 0 <= j < i && (#[trigger] s[j]).0@ == id;
        lemma_first_key_exists(s, id, j);
    } else {
        assert(is_first_key(s, id, i));
    }
}

} // verus!
