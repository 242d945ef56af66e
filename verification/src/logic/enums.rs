//! Game enumerations and their protocol integer codes.

use vstd::prelude::*;

verus! {

/// Beyond.GEnums.SystemType
#[derive(Debug, Clone, Copy, PartialEq, Eq, Structural)]
pub enum SystemType {
    Depot,
    DelBuilding,
    Drone,
    Equip,
    LevelBreak,
    LevelUpgrade,
    TeamSprint,
    NormalSkill,
    UltimateSkill,
    MarkTarget,
    ItemQuickStash,
    FacBus,
    FacBelt,
    FacPort,
    FacBridge,
    FacConverger,
    FacSplitter,
    FacHubButton,
    FacQuickBar,
    WorldBuildOnPoleBase,
    WorldBuildOnMine,
}

impl SystemType {
    /// The protocol's integer code for this variant.
    pub open spec fn spec_as_i32(self) -> i32 {
        match self {
            SystemType::Depot => 0,
            SystemType::DelBuilding => 1,
            SystemType::Drone => 5,
            SystemType::Equip => 7,
            SystemType::LevelBreak => 8,
            SystemType::LevelUpgrade => 9,
            SystemType::TeamSprint => 11,
            SystemType::NormalSkill => 12,
            SystemType::UltimateSkill => 13,
            SystemType::MarkTarget => 14,
            SystemType::ItemQuickStash => 16,
            SystemType::FacBus => 101,
            SystemType::FacBelt => 102,
            SystemType::FacPort => 103,
            SystemType::FacBridge => 111,
            SystemType::FacConverger => 112,
            SystemType::FacSplitter => 113,
            SystemType::FacHubButton => 120,
            SystemType::FacQuickBar => 121,
            SystemType::WorldBuildOnPoleBase => 1000,
            SystemType::WorldBuildOnMine => 1001,
        }
    }

    /// The protocol's integer code for this variant.
    #[verifier::when_used_as_spec(spec_as_i32)]
    pub fn as_i32(self) -> (code: i32)
        ensures
            code == self.spec_as_i32(),
    {
        match self {
            SystemType::Depot => 0,
            SystemType::DelBuilding => 1,
            SystemType::Drone => 5,
            SystemType::Equip => 7,
            SystemType::LevelBreak => 8,
            SystemType::LevelUpgrade => 9,
            SystemType::TeamSprint => 11,
            SystemType::NormalSkill => 12,
            SystemType::UltimateSkill => 13,
            SystemType::MarkTarget => 14,
            SystemType::ItemQuickStash => 16,
            SystemType::FacBus => 101,
            SystemType::FacBelt => 102,
            SystemType::FacPort => 103,
            SystemType::FacBridge => 111,
            SystemType::FacConverger => 112,
            SystemType::FacSplitter => 113,
            SystemType::FacHubButton => 120,
            SystemType::FacQuickBar => 121,
            SystemType::WorldBuildOnPoleBase => 1000,
            SystemType::WorldBuildOnMine => 1001,
        }
    }
}

/// Beyond.GEnums.UnlockSystemType
#[derive(Debug, Clone, Copy, PartialEq, Eq, Structural)]
pub enum UnlockSystemType {
    WorldMap,
    Inventory,
    Watch,
    ValuableDepot,
    Shop,
    Gacha,
    Dungeon,
    BlocMission,
    Mail,
    Wiki,
    Prts,
    SubmitEther,
    Scan,
    CharUi,
    FacBuildingPin,
    FacCraftPin,
    FacMode,
    FacTechTree,
    FacOverview,
    FacYieldStats,
    FacConveyor,
    FacTransferPort,
    FacBridge,
    FacSplitter,
    FacMerger,
    FacBus,
    FacZone,
    FacSystem,
    ManualCraft,
    ItemUse,
    ItemQuickBar,
    Weapon,
    Equip,
    NormalAttack,
    NormalSkill,
    UltimateSkill,
    Unset,
}

impl UnlockSystemType {
    /// The protocol's integer code for this variant.
    pub open spec fn spec_as_i32(self) -> i32 {
        match self {
            UnlockSystemType::WorldMap => 0,
            UnlockSystemType::Inventory => 1,
            UnlockSystemType::Watch => 2,
            UnlockSystemType::ValuableDepot => 3,
            UnlockSystemType::Shop => 4,
            UnlockSystemType::Gacha => 51,
            UnlockSystemType::Dungeon => 52,
            UnlockSystemType::BlocMission => 53,
            UnlockSystemType::Mail => 54,
            UnlockSystemType::Wiki => 55,
            UnlockSystemType::Prts => 56,
            UnlockSystemType::SubmitEther => 57,
            UnlockSystemType::Scan => 58,
            UnlockSystemType::CharUi => 59,
            UnlockSystemType::FacBuildingPin => 101,
            UnlockSystemType::FacCraftPin => 102,
            UnlockSystemType::FacMode => 103,
            UnlockSystemType::FacTechTree => 104,
            UnlockSystemType::FacOverview => 105,
            UnlockSystemType::FacYieldStats => 106,
            UnlockSystemType::FacConveyor => 107,
            UnlockSystemType::FacTransferPort => 108,
            UnlockSystemType::FacBridge => 109,
            UnlockSystemType::FacSplitter => 110,
            UnlockSystemType::FacMerger => 111,
            UnlockSystemType::FacBus => 112,
            UnlockSystemType::FacZone => 113,
            UnlockSystemType::FacSystem => 114,
            UnlockSystemType::ManualCraft => 201,
            UnlockSystemType::ItemUse => 202,
            UnlockSystemType::ItemQuickBar => 203,
            UnlockSystemType::Weapon => 251,
            UnlockSystemType::Equip => 252,
            UnlockSystemType::NormalAttack => 301,
            UnlockSystemType::NormalSkill => 302,
            UnlockSystemType::UltimateSkill => 303,
            UnlockSystemType::Unset => 10000000,
        }
    }

    /// The protocol's integer code for this variant.
    #[verifier::when_used_as_spec(spec_as_i32)]
    pub fn as_i32(self) -> (code: i32)
        ensures
            code == self.spec_as_i32(),
    {
        match self {
            UnlockSystemType::WorldMap => 0,
            UnlockSystemType::Inventory => 1,
            UnlockSystemType::Watch => 2,
            UnlockSystemType::ValuableDepot => 3,
            UnlockSystemType::Shop => 4,
            UnlockSystemType::Gacha => 51,
            UnlockSystemType::Dungeon => 52,
            UnlockSystemType::BlocMission => 53,
            UnlockSystemType::Mail => 54,
            UnlockSystemType::Wiki => 55,
            UnlockSystemType::Prts => 56,
            UnlockSystemType::SubmitEther => 57,
            UnlockSystemType::Scan => 58,
            UnlockSystemType::CharUi => 59,
            UnlockSystemType::FacBuildingPin => 101,
            UnlockSystemType::FacCraftPin => 102,
            UnlockSystemType::FacMode => 103,
            UnlockSystemType::FacTechTree => 104,
            UnlockSystemType::FacOverview => 105,
            UnlockSystemType::FacYieldStats => 106,
            UnlockSystemType::FacConveyor => 107,
            UnlockSystemType::FacTransferPort => 108,
            UnlockSystemType::FacBridge => 109,
            UnlockSystemType::FacSplitter => 110,
            UnlockSystemType::FacMerger => 111,
            UnlockSystemType::FacBus => 112,
            UnlockSystemType::FacZone => 113,
            UnlockSystemType::FacSystem => 114,
            UnlockSystemType::ManualCraft => 201,
            UnlockSystemType::ItemUse => 202,
            UnlockSystemType::ItemQuickBar => 203,
            UnlockSystemType::Weapon => 251,
            UnlockSystemType::Equip => 252,
            UnlockSystemType::NormalAttack => 301,
            UnlockSystemType::NormalSkill => 302,
            UnlockSystemType::UltimateSkill => 303,
            UnlockSystemType::Unset => 10000000,
        }
    }
}

/// Codes of the systems a new player starts with unlocked.
pub open spec fn spec_default_unlocked() -> Seq<i32> {
    seq![0i32, 1i32, 2i32, 3i32, 4i32, 52i32, 54i32, 55i32, 56i32, 57i32, 58i32, 59i32, 201i32, 202i32, 203i32, 251i32, 252i32, 301i32, 302i32, 303i32]
}

/// Codes of every unlockable system (all variants but `None`).
pub open spec fn spec_all_unlock_systems() -> Seq<i32> {
    seq![0i32, 1i32, 2i32, 3i32, 4i32, 51i32, 52i32, 53i32, 54i32, 55i32, 56i32, 57i32, 58i32, 59i32, 101i32, 102i32, 103i32, 104i32, 105i32, 106i32, 107i32, 108i32, 109i32, 110i32, 111i32, 112i32, 113i32, 114i32, 201i32, 202i32, 203i32, 251i32, 252i32, 301i32, 302i32, 303i32]
}

impl UnlockSystemType {
    /// All systems that should be unlocked by default for a new player.
    pub fn default_unlocked() -> (v: Vec<i32>)
        ensures
            v@ == spec_default_unlocked(),
    {
        let mut v: Vec<i32> = Vec::new();
        v.push(UnlockSystemType::WorldMap.as_i32());
        v.push(UnlockSystemType::Inventory.as_i32());
        v.push(UnlockSystemType::Watch.as_i32());
        v.push(UnlockSystemType::ValuableDepot.as_i32());
        v.push(UnlockSystemType::Shop.as_i32());
        v.push(UnlockSystemType::Dungeon.as_i32());
        v.push(UnlockSystemType::Mail.as_i32());
        v.push(UnlockSystemType::Wiki.as_i32());
        v.push(UnlockSystemType::Prts.as_i32());
        v.push(UnlockSystemType::SubmitEther.as_i32());
        v.push(UnlockSystemType::Scan.as_i32());
        v.push(UnlockSystemType::CharUi.as_i32());
        v.push(UnlockSystemType::ManualCraft.as_i32());
        v.push(UnlockSystemType::ItemUse.as_i32());
        v.push(UnlockSystemType::ItemQuickBar.as_i32());
        v.push(UnlockSystemType::Weapon.as_i32());
        v.push(UnlockSystemType::Equip.as_i32());
        v.push(UnlockSystemType::NormalAttack.as_i32());
        v.push(UnlockSystemType::NormalSkill.as_i32());
        v.push(UnlockSystemType::UltimateSkill.as_i32());
        assert(v@ =~= spec_default_unlocked());
        v
    }

    /// Every unlockable system.
    pub fn all() -> (v: Vec<i32>)
        ensures
            v@ == spec_all_unlock_systems(),
    {
        let mut v: Vec<i32> = Vec::new();
        v.push(UnlockSystemType::WorldMap.as_i32());
        v.push(UnlockSystemType::Inventory.as_i32());
        v.push(UnlockSystemType::Watch.as_i32());
        v.push(UnlockSystemType::ValuableDepot.as_i32());
        v.push(UnlockSystemType::Shop.as_i32());
        v.push(UnlockSystemType::Gacha.as_i32());
        v.push(UnlockSystemType::Dungeon.as_i32());
        v.push(UnlockSystemType::BlocMission.as_i32());
        v.push(UnlockSystemType::Mail.as_i32());
        v.push(UnlockSystemType::Wiki.as_i32());
        v.push(UnlockSystemType::Prts.as_i32());
        v.push(UnlockSystemType::SubmitEther.as_i32());
        v.push(UnlockSystemType::Scan.as_i32());
        v.push(UnlockSystemType::CharUi.as_i32());
        v.push(UnlockSystemType::FacBuildingPin.as_i32());
        v.push(UnlockSystemType::FacCraftPin.as_i32());
        v.push(UnlockSystemType::FacMode.as_i32());
        v.push(UnlockSystemType::FacTechTree.as_i32());
        v.push(UnlockSystemType::FacOverview.as_i32());
        v.push(UnlockSystemType::FacYieldStats.as_i32());
        v.push(UnlockSystemType::FacConveyor.as_i32());
        v.push(UnlockSystemType::FacTransferPort.as_i32());
        v.push(UnlockSystemType::FacBridge.as_i32());
        v.push(UnlockSystemType::FacSplitter.as_i32());
        v.push(UnlockSystemType::FacMerger.as_i32());
        v.push(UnlockSystemType::FacBus.as_i32());
        v.push(UnlockSystemType::FacZone.as_i32());
        v.push(UnlockSystemType::FacSystem.as_i32());
        v.push(UnlockSystemType::ManualCraft.as_i32());
        v.push(UnlockSystemType::ItemUse.as_i32());
        v.push(UnlockSystemType::ItemQuickBar.as_i32());
        v.push(UnlockSystemType::Weapon.as_i32());
        v.push(UnlockSystemType::Equip.as_i32());
        v.push(UnlockSystemType::NormalAttack.as_i32());
        v.push(UnlockSystemType::NormalSkill.as_i32());
        v.push(UnlockSystemType::UltimateSkill.as_i32());
        assert(v@ =~= spec_all_unlock_systems());
        v
    }
}

/// Every system unlocked by default is among all systems, and the `None`
/// placeholder is in neither list.
pub proof fn lemma_default_unlocked_within_all()
    ensures
        forall|c: i32| spec_default_unlocked().contains(c) ==> spec_all_unlock_systems().contains(c),
        !spec_default_unlocked().contains(UnlockSystemType::Unset.spec_as_i32()),
        !spec_all_unlock_systems().contains(UnlockSystemType::Unset.spec_as_i32()),
{
    let d = spec_default_unlocked();
    let a = spec_all_unlock_systems();
    assert forall|c: i32| d.contains(c) implies a.contains(c) by {
        let i = choose|i: int| 0 <= i < d.len() && d[i] == c;
        if i == 0 { assert(a[0] == c); }
        if i == 1 { assert(a[1] == c); }
        if i == 2 { assert(a[2] == c); }
        if i == 3 { assert(a[3] == c); }
        if i == 4 { assert(a[4] == c); }
        if i == 5 { assert(a[6] == c); }
        if i == 6 { assert(a[8] == c); }
        if i == 7 { assert(a[9] == c); }
        if i == 8 { assert(a[10] == c); }
        if i == 9 { assert(a[11] == c); }
        if i == 10 { assert(a[12] == c); }
        if i == 11 { assert(a[13] == c); }
        if i == 12 { assert(a[28] == c); }
        if i == 13 { assert(a[29] == c); }
        if i == 14 { assert(a[30] == c); }
        if i == 15 { assert(a[31] == c); }
        if i == 16 { assert(a[32] == c); }
        if i == 17 { assert(a[33] == c); }
        if i == 18 { assert(a[34] == c); }
        if i == 19 { assert(a[35] == c); }
    }
    assert forall|i: int| 0 <= i < d.len() implies d[i] != 10000000 by {}
    assert forall|i: int| 0 <= i < a.len() implies a[i] != 10000000 by {}
}

/// Beyond.GEnums.AttributeType
#[derive(Debug, Clone, Copy, PartialEq, Eq, Structural)]
pub enum AttributeType {
    Level,
    Hp,
    Atk,
    Def,
    PhysicalResistance,
    FireResistance,
    PulseResistance,
    CrystResistance,
    Weight,
    CriticalRate,
    CriticalDamage,
    Hatred,
    NormalAttackRange,
    MoveSpeedMultiplier,
    TurnRateMultiplier,
    AttackRate,
    CooldownMultiplier,
    SightRange,
    FieldOfView,
    DamageTakenScalar,
    HpRecoveryPerSec,
    HpRecoveryPerSecByMaxHpRatio,
    MaxPoise,
    PoiseRecTime,
    MaxUltimateSp,
    PoiseDamageResistScalar,
    MaxAp,
    ApRecoveryPerSec,
    PoiseDamageTakenScalar,
    PoiseProtectTime,
    SpawnEnergyShardEfficiency,
    PoiseZeroStun,
    PoiseZeroDamageViaMaxHp,
    Pen,
    HealScalar,
    HealTakenScalar,
    PoiseRecTimeMultiplier,
    PoiseBreakDamageIncrease,
    PoiseBreakDamageTakenIncrease,
    KnockDownTimeAddition,
    FireEnergyShardProb,
    PulseEnergyShardProb,
    CrystEnergyShardProb,
    FusionShardPreserveProb,
    Enum,
}

impl AttributeType {
    /// The protocol's integer code for this variant.
    pub open spec fn spec_as_i32(self) -> i32 {
        match self {
            AttributeType::Level => 0,
            AttributeType::Hp => 1,
            AttributeType::Atk => 2,
            AttributeType::Def => 3,
            AttributeType::PhysicalResistance => 4,
            AttributeType::FireResistance => 5,
            AttributeType::PulseResistance => 6,
            AttributeType::CrystResistance => 7,
            AttributeType::Weight => 8,
            AttributeType::CriticalRate => 9,
            AttributeType::CriticalDamage => 10,
            AttributeType::Hatred => 11,
            AttributeType::NormalAttackRange => 12,
            AttributeType::MoveSpeedMultiplier => 13,
            AttributeType::TurnRateMultiplier => 14,
            AttributeType::AttackRate => 15,
            AttributeType::CooldownMultiplier => 16,
            AttributeType::SightRange => 17,
            AttributeType::FieldOfView => 18,
            AttributeType::DamageTakenScalar => 19,
            AttributeType::HpRecoveryPerSec => 20,
            AttributeType::HpRecoveryPerSecByMaxHpRatio => 21,
            AttributeType::MaxPoise => 22,
            AttributeType::PoiseRecTime => 23,
            AttributeType::MaxUltimateSp => 24,
            AttributeType::PoiseDamageResistScalar => 25,
            AttributeType::MaxAp => 26,
            AttributeType::ApRecoveryPerSec => 27,
            AttributeType::PoiseDamageTakenScalar => 28,
            AttributeType::PoiseProtectTime => 29,
            AttributeType::SpawnEnergyShardEfficiency => 30,
            AttributeType::PoiseZeroStun => 31,
            AttributeType::PoiseZeroDamageViaMaxHp => 32,
            AttributeType::Pen => 33,
            AttributeType::HealScalar => 34,
            AttributeType::HealTakenScalar => 35,
            AttributeType::PoiseRecTimeMultiplier => 36,
            AttributeType::PoiseBreakDamageIncrease => 37,
            AttributeType::PoiseBreakDamageTakenIncrease => 38,
            AttributeType::KnockDownTimeAddition => 39,
            AttributeType::FireEnergyShardProb => 40,
            AttributeType::PulseEnergyShardProb => 41,
            AttributeType::CrystEnergyShardProb => 42,
            AttributeType::FusionShardPreserveProb => 43,
            AttributeType::Enum => 44,
        }
    }

    /// The protocol's integer code for this variant.
    #[verifier::when_used_as_spec(spec_as_i32)]
    pub fn as_i32(self) -> (code: i32)
        ensures
            code == self.spec_as_i32(),
    {
        match self {
            AttributeType::Level => 0,
            AttributeType::Hp => 1,
            AttributeType::Atk => 2,
            AttributeType::Def => 3,
            AttributeType::PhysicalResistance => 4,
            AttributeType::FireResistance => 5,
            AttributeType::PulseResistance => 6,
            AttributeType::CrystResistance => 7,
            AttributeType::Weight => 8,
            AttributeType::CriticalRate => 9,
            AttributeType::CriticalDamage => 10,
            AttributeType::Hatred => 11,
            AttributeType::NormalAttackRange => 12,
            AttributeType::MoveSpeedMultiplier => 13,
            AttributeType::TurnRateMultiplier => 14,
            AttributeType::AttackRate => 15,
            AttributeType::CooldownMultiplier => 16,
            AttributeType::SightRange => 17,
            AttributeType::FieldOfView => 18,
            AttributeType::DamageTakenScalar => 19,
            AttributeType::HpRecoveryPerSec => 20,
            AttributeType::HpRecoveryPerSecByMaxHpRatio => 21,
            AttributeType::MaxPoise => 22,
            AttributeType::PoiseRecTime => 23,
            AttributeType::MaxUltimateSp => 24,
            AttributeType::PoiseDamageResistScalar => 25,
            AttributeType::MaxAp => 26,
            AttributeType::ApRecoveryPerSec => 27,
            AttributeType::PoiseDamageTakenScalar => 28,
            AttributeType::PoiseProtectTime => 29,
            AttributeType::SpawnEnergyShardEfficiency => 30,
            AttributeType::PoiseZeroStun => 31,
            AttributeType::PoiseZeroDamageViaMaxHp => 32,
            AttributeType::Pen => 33,
            AttributeType::HealScalar => 34,
            AttributeType::HealTakenScalar => 35,
            AttributeType::PoiseRecTimeMultiplier => 36,
            AttributeType::PoiseBreakDamageIncrease => 37,
            AttributeType::PoiseBreakDamageTakenIncrease => 38,
            AttributeType::KnockDownTimeAddition => 39,
            AttributeType::FireEnergyShardProb => 40,
            AttributeType::PulseEnergyShardProb => 41,
            AttributeType::CrystEnergyShardProb => 42,
            AttributeType::FusionShardPreserveProb => 43,
            AttributeType::Enum => 44,
        }
    }
}

/// Type tag of a level-script parameter as stored in level data.
#[derive(Debug, Clone, Copy, PartialEq, Eq, Structural)]
pub enum ParamRealType {
    Invalid,
    Bool,
    BoolList,
    Int,
    IntList,
    Float,
    FloatList,
    String,
    StringList,
    Path,
    PathList,
    Vector3,
    Vector3List,
    EntityPtr,
    EntityPtrList,
    Tag,
    TagList,
    UInt,
    UIntList,
    FromContextCurrent,
    FromContextMsg,
    FromContextInteractive1,
    FromContextInteractive2,
    FromContextInteractive3,
    LevelScriptPtr,
    LevelScriptPtrList,
    UInt64,
    UInt64List,
    LangKey,
    LangKeyList,
    Node,
    NodeList,
    Buff,
    BuffList,
    Bytes,
    ENum,
}

impl ParamRealType {
    /// The protocol's integer code for this variant.
    pub open spec fn spec_as_i32(self) -> i32 {
        match self {
            ParamRealType::Invalid => 0,
            ParamRealType::Bool => 1,
            ParamRealType::BoolList => 2,
            ParamRealType::Int => 3,
            ParamRealType::IntList => 4,
            ParamRealType::Float => 5,
            ParamRealType::FloatList => 6,
            ParamRealType::String => 7,
            ParamRealType::StringList => 8,
            ParamRealType::Path => 9,
            ParamRealType::PathList => 10,
            ParamRealType::Vector3 => 11,
            ParamRealType::Vector3List => 12,
            ParamRealType::EntityPtr => 13,
            ParamRealType::EntityPtrList => 14,
            ParamRealType::Tag => 15,
            ParamRealType::TagList => 16,
            ParamRealType::UInt => 17,
            ParamRealType::UIntList => 18,
            ParamRealType::FromContextCurrent => 19,
            ParamRealType::FromContextMsg => 20,
            ParamRealType::FromContextInteractive1 => 21,
            ParamRealType::FromContextInteractive2 => 22,
            ParamRealType::FromContextInteractive3 => 23,
            ParamRealType::LevelScriptPtr => 24,
            ParamRealType::LevelScriptPtrList => 25,
            ParamRealType::UInt64 => 26,
            ParamRealType::UInt64List => 27,
            ParamRealType::LangKey => 28,
            ParamRealType::LangKeyList => 29,
            ParamRealType::Node => 30,
            ParamRealType::NodeList => 31,
            ParamRealType::Buff => 32,
            ParamRealType::BuffList => 33,
            ParamRealType::Bytes => 34,
            ParamRealType::ENum => 35,
        }
    }

    /// The protocol's integer code for this variant.
    #[verifier::when_used_as_spec(spec_as_i32)]
    pub fn as_i32(self) -> (code: i32)
        ensures
            code == self.spec_as_i32(),
    {
        match self {
            ParamRealType::Invalid => 0,
            ParamRealType::Bool => 1,
            ParamRealType::BoolList => 2,
            ParamRealType::Int => 3,
            ParamRealType::IntList => 4,
            ParamRealType::Float => 5,
            ParamRealType::FloatList => 6,
            ParamRealType::String => 7,
            ParamRealType::StringList => 8,
            ParamRealType::Path => 9,
            ParamRealType::PathList => 10,
            ParamRealType::Vector3 => 11,
            ParamRealType::Vector3List => 12,
            ParamRealType::EntityPtr => 13,
            ParamRealType::EntityPtrList => 14,
            ParamRealType::Tag => 15,
            ParamRealType::TagList => 16,
            ParamRealType::UInt => 17,
            ParamRealType::UIntList => 18,
            ParamRealType::FromContextCurrent => 19,
            ParamRealType::FromContextMsg => 20,
            ParamRealType::FromContextInteractive1 => 21,
            ParamRealType::FromContextInteractive2 => 22,
            ParamRealType::FromContextInteractive3 => 23,
            ParamRealType::LevelScriptPtr => 24,
            ParamRealType::LevelScriptPtrList => 25,
            ParamRealType::UInt64 => 26,
            ParamRealType::UInt64List => 27,
            ParamRealType::LangKey => 28,
            ParamRealType::LangKeyList => 29,
            ParamRealType::Node => 30,
            ParamRealType::NodeList => 31,
            ParamRealType::Buff => 32,
            ParamRealType::BuffList => 33,
            ParamRealType::Bytes => 34,
            ParamRealType::ENum => 35,
        }
    }
}

/// The variant whose code is `value`; unknown codes map to `Invalid`.
pub open spec fn param_real_type_from_code(value: i32) -> ParamRealType {
    match value {
        0 => ParamRealType::Invalid,
        1 => ParamRealType::Bool,
        2 => ParamRealType::BoolList,
        3 => ParamRealType::Int,
        4 => ParamRealType::IntList,
        5 => ParamRealType::Float,
        6 => ParamRealType::FloatList,
        7 => ParamRealType::String,
        8 => ParamRealType::StringList,
        9 => ParamRealType::Path,
        10 => ParamRealType::PathList,
        11 => ParamRealType::Vector3,
        12 => ParamRealType::Vector3List,
        13 => ParamRealType::EntityPtr,
        14 => ParamRealType::EntityPtrList,
        15 => ParamRealType::Tag,
        16 => ParamRealType::TagList,
        17 => ParamRealType::UInt,
        18 => ParamRealType::UIntList,
        19 => ParamRealType::FromContextCurrent,
        20 => ParamRealType::FromContextMsg,
        21 => ParamRealType::FromContextInteractive1,
        22 => ParamRealType::FromContextInteractive2,
        23 => ParamRealType::FromContextInteractive3,
        24 => ParamRealType::LevelScriptPtr,
        25 => ParamRealType::LevelScriptPtrList,
        26 => ParamRealType::UInt64,
        27 => ParamRealType::UInt64List,
        28 => ParamRealType::LangKey,
        29 => ParamRealType::LangKeyList,
        30 => ParamRealType::Node,
        31 => ParamRealType::NodeList,
        32 => ParamRealType::Buff,
        33 => ParamRealType::BuffList,
        34 => ParamRealType::Bytes,
        35 => ParamRealType::ENum,
        _ => ParamRealType::Invalid,
    }
}

impl From<i32> for ParamRealType {
    fn from(value: i32) -> (r: Self) {
        match value {
            0 => ParamRealType::Invalid,
            1 => ParamRealType::Bool,
            2 => ParamRealType::BoolList,
            3 => ParamRealType::Int,
            4 => ParamRealType::IntList,
            5 => ParamRealType::Float,
            6 => ParamRealType::FloatList,
            7 => ParamRealType::String,
            8 => ParamRealType::StringList,
            9 => ParamRealType::Path,
            10 => ParamRealType::PathList,
            11 => ParamRealType::Vector3,
            12 => ParamRealType::Vector3List,
            13 => ParamRealType::EntityPtr,
            14 => ParamRealType::EntityPtrList,
            15 => ParamRealType::Tag,
            16 => ParamRealType::TagList,
            17 => ParamRealType::UInt,
            18 => ParamRealType::UIntList,
            19 => ParamRealType::FromContextCurrent,
            20 => ParamRealType::FromContextMsg,
            21 => ParamRealType::FromContextInteractive1,
            22 => ParamRealType::FromContextInteractive2,
            23 => ParamRealType::FromContextInteractive3,
            24 => ParamRealType::LevelScriptPtr,
            25 => ParamRealType::LevelScriptPtrList,
            26 => ParamRealType::UInt64,
            27 => ParamRealType::UInt64List,
            28 => ParamRealType::LangKey,
            29 => ParamRealType::LangKeyList,
            30 => ParamRealType::Node,
            31 => ParamRealType::NodeList,
            32 => ParamRealType::Buff,
            33 => ParamRealType::BuffList,
            34 => ParamRealType::Bytes,
            35 => ParamRealType::ENum,
            _ => ParamRealType::Invalid,
        }
    }
}

impl vstd::std_specs::convert::FromSpecImpl<i32> for ParamRealType {
    open spec fn obeys_from_spec() -> bool {
        true
    }

    open spec fn from_spec(v: i32) -> Self {
        param_real_type_from_code(v)
    }
}

/// Decoding a variant's own code gives the variant back.
pub proof fn lemma_param_real_type_round_trip(t: ParamRealType)
    ensures
        param_real_type_from_code(t.spec_as_i32()) == t,
{
}

/// Type tag of a dynamic parameter value on the wire.
#[derive(Debug, Clone, Copy, PartialEq, Eq, Structural)]
pub enum ParamValueType {
    Invalid,
    Bool,
    BoolList,
    Int,
    IntList,
    Float,
    FloatList,
    String,
    StringList,
}

impl ParamValueType {
    /// The protocol's integer code for this variant.
    pub open spec fn spec_as_i32(self) -> i32 {
        match self {
            ParamValueType::Invalid => 0,
            ParamValueType::Bool => 1,
            ParamValueType::BoolList => 2,
            ParamValueType::Int => 3,
            ParamValueType::IntList => 4,
            ParamValueType::Float => 5,
            ParamValueType::FloatList => 6,
            ParamValueType::String => 7,
            ParamValueType::StringList => 8,
        }
    }

    /// The protocol's integer code for this variant.
    #[verifier::when_used_as_spec(spec_as_i32)]
    pub fn as_i32(self) -> (code: i32)
        ensures
            code == self.spec_as_i32(),
    {
        match self {
            ParamValueType::Invalid => 0,
            ParamValueType::Bool => 1,
            ParamValueType::BoolList => 2,
            ParamValueType::Int => 3,
            ParamValueType::IntList => 4,
            ParamValueType::Float => 5,
            ParamValueType::FloatList => 6,
            ParamValueType::String => 7,
            ParamValueType::StringList => 8,
        }
    }
}

/// The variant whose code is `value`; unknown codes map to `Invalid`.
pub open spec fn param_value_type_from_code(value: i32) -> ParamValueType {
    match value {
        0 => ParamValueType::Invalid,
        1 => ParamValueType::Bool,
        2 => ParamValueType::BoolList,
        3 => ParamValueType::Int,
        4 => ParamValueType::IntList,
        5 => ParamValueType::Float,
        6 => ParamValueType::FloatList,
        7 => ParamValueType::String,
        8 => ParamValueType::StringList,
        _ => ParamValueType::Invalid,
    }
}

impl From<i32> for ParamValueType {
    fn from(value: i32) -> (r: Self) {
        match value {
            0 => ParamValueType::Invalid,
            1 => ParamValueType::Bool,
            2 => ParamValueType::BoolList,
            3 => ParamValueType::Int,
            4 => ParamValueType::IntList,
            5 => ParamValueType::Float,
            6 => ParamValueType::FloatList,
            7 => ParamValueType::String,
            8 => ParamValueType::StringList,
            _ => ParamValueType::Invalid,
        }
    }
}

impl vstd::std_specs::convert::FromSpecImpl<i32> for ParamValueType {
    open spec fn obeys_from_spec() -> bool {
        true
    }

    open spec fn from_spec(v: i32) -> Self {
        param_value_type_from_code(v)
    }
}

/// Decoding a variant's own code gives the variant back.
pub proof fn lemma_param_value_type_round_trip(t: ParamValueType)
    ensures
        param_value_type_from_code(t.spec_as_i32()) == t,
{
}

} // verus!
