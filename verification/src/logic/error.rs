//! Errors raised by the player-state logic.

use crate::config::item::ItemDepotType;
use crate::logic::item::{EquipInstId, GemInstId, WeaponInstId};
use crate::logic::text::{decimal_chars, u64_to_string};
use vstd::prelude::*;

verus! {

#[derive(Debug)]
pub enum LogicError {
    NotFound(String),
    InvalidOperation(String),
    Insufficient { item_id: String, have: u32, need: u32 },
    WeaponNotFound(WeaponInstId),
    WeaponEquipped(WeaponInstId),
    WeaponAlreadyEquipped(WeaponInstId, u64),
    WeaponLocked(WeaponInstId),
    WeaponFodderSelf(WeaponInstId),
    WeaponFodderNotFound(WeaponInstId),
    WeaponFodderLocked(WeaponInstId),
    WeaponFodderEquipped(WeaponInstId),
    WeaponMaxBreakthrough(WeaponInstId),
    WeaponBreakthroughLevelTooLow { id: WeaponInstId, current: u64, required: u64 },
    WeaponRefineTargetLocked(WeaponInstId),
    WeaponRefineTypeMismatch,
    WeaponRefineMaxLevel(WeaponInstId),
    WeaponModifyLocked(WeaponInstId),
    WeaponNoAttachedGem(WeaponInstId),
    GemNotFound(GemInstId),
    GemSocketed(GemInstId),
    GemLocked(GemInstId),
    EquipNotFound(EquipInstId),
    EquipEquipped(EquipInstId),
    EquipLocked(EquipInstId),
    EquipAlreadyEquipped(EquipInstId, u64),
    DepotInstanced(ItemDepotType),
}

pub type Result<T> = core::result::Result<T, LogicError>;

/// The human-readable message of an error.
pub open spec fn spec_message(e: LogicError) -> Seq<char> {
    match e {
        LogicError::NotFound(f0) => f0@,
        LogicError::InvalidOperation(f0) => f0@,
        LogicError::Insufficient { item_id, have, need } => "Insufficient "@ + item_id@ + ": have "@ + decimal_chars(have as nat) + ", need "@ + decimal_chars(need as nat),
        LogicError::WeaponNotFound(f0) => "Weapon "@ + decimal_chars(f0.0 as nat) + " not found"@,
        LogicError::WeaponEquipped(f0) => "Weapon "@ + decimal_chars(f0.0 as nat) + " is currently equipped and cannot be removed"@,
        LogicError::WeaponAlreadyEquipped(f0, f1) => "Weapon "@ + decimal_chars(f0.0 as nat) + " is already equipped to character "@ + decimal_chars(f1 as nat),
        LogicError::WeaponLocked(f0) => "Weapon "@ + decimal_chars(f0.0 as nat) + " is locked and cannot be removed"@,
        LogicError::WeaponFodderSelf(f0) => "Cannot use weapon "@ + decimal_chars(f0.0 as nat) + " as its own fodder"@,
        LogicError::WeaponFodderNotFound(f0) => "Fodder weapon "@ + decimal_chars(f0.0 as nat) + " not found"@,
        LogicError::WeaponFodderLocked(f0) => "Fodder weapon "@ + decimal_chars(f0.0 as nat) + " is locked and cannot be used"@,
        LogicError::WeaponFodderEquipped(f0) => "Fodder weapon "@ + decimal_chars(f0.0 as nat) + " is equipped and cannot be used"@,
        LogicError::WeaponMaxBreakthrough(f0) => "Weapon "@ + decimal_chars(f0.0 as nat) + " is already at max breakthrough level"@,
        LogicError::WeaponBreakthroughLevelTooLow { id, current, required } => "Weapon "@ + decimal_chars(id.0 as nat) + " level "@ + decimal_chars(current as nat) + " is below required "@ + decimal_chars(required as nat) + " for next breakthrough"@,
        LogicError::WeaponRefineTargetLocked(f0) => "Weapon "@ + decimal_chars(f0.0 as nat) + " is locked and cannot be refined"@,
        LogicError::WeaponRefineTypeMismatch => "Refinement requires the same weapon template as the target"@,
        LogicError::WeaponRefineMaxLevel(f0) => "Weapon "@ + decimal_chars(f0.0 as nat) + " is already at max refinement level"@,
        LogicError::WeaponModifyLocked(f0) => "Weapon "@ + decimal_chars(f0.0 as nat) + " is locked and cannot be modified"@,
        LogicError::WeaponNoAttachedGem(f0) => "Weapon "@ + decimal_chars(f0.0 as nat) + " has no attached gem"@,
        LogicError::GemNotFound(f0) => "Gem "@ + decimal_chars(f0.0 as nat) + " not found"@,
        LogicError::GemSocketed(f0) => "Gem "@ + decimal_chars(f0.0 as nat) + " is socketed and cannot be removed"@,
        LogicError::GemLocked(f0) => "Gem "@ + decimal_chars(f0.0 as nat) + " is locked and cannot be removed"@,
        LogicError::EquipNotFound(f0) => "Equip piece "@ + decimal_chars(f0.0 as nat) + " not found"@,
        LogicError::EquipEquipped(f0) => "Equip piece "@ + decimal_chars(f0.0 as nat) + " is currently equipped and cannot be removed"@,
        LogicError::EquipLocked(f0) => "Equip piece "@ + decimal_chars(f0.0 as nat) + " is locked and cannot be removed"@,
        LogicError::EquipAlreadyEquipped(f0, f1) => "Equip piece "@ + decimal_chars(f0.0 as nat) + " is already equipped to character "@ + decimal_chars(f1 as nat),
        LogicError::DepotInstanced(f0) => "Depot "@ + f0.spec_name() + " is instanced, expected stackable"@,
    }
}

impl LogicError {
    /// The human-readable message of this error.
    pub fn message(&self) -> (s: String)
        ensures
            s@ == spec_message(*self),
    {
        match self {
            LogicError::NotFound(f0) => {
                let mut s = String::from_str(f0.as_str());
                s
            },
            LogicError::InvalidOperation(f0) => {
                let mut s = String::from_str(f0.as_str());
                s
            },
            LogicError::Insufficient { item_id, have, need } => {
                let mut s = String::from_str("Insufficient ");
                s.append(item_id.as_str());
                s.append(": have ");
                s.append(u64_to_string(*have as u64).as_str());
                s.append(", need ");
                s.append(u64_to_string(*need as u64).as_str());
                s
            },
            LogicError::WeaponNotFound(f0) => {
                let mut s = String::from_str("Weapon ");
                s.append(u64_to_string(f0.0).as_str());
                s.append(" not found");
                s
            },
            LogicError::WeaponEquipped(f0) => {
                let mut s = String::from_str("Weapon ");
                s.append(u64_to_string(f0.0).as_str());
                s.append(" is currently equipped and cannot be removed");
                s
            },
            LogicError::WeaponAlreadyEquipped(f0, f1) => {
                let mut s = String::from_str("Weapon ");
                s.append(u64_to_string(f0.0).as_str());
                s.append(" is already equipped to character ");
                s.append(u64_to_string(*f1 as u64).as_str());
                s
            },
            LogicError::WeaponLocked(f0) => {
                let mut s = String::from_str("Weapon ");
                s.append(u64_to_string(f0.0).as_str());
                s.append(" is locked and cannot be removed");
                s
            },
            LogicError::WeaponFodderSelf(f0) => {
                let mut s = String::from_str("Cannot use weapon ");
                s.append(u64_to_string(f0.0).as_str());
                s.append(" as its own fodder");
                s
            },
            LogicError::WeaponFodderNotFound(f0) => {
                let mut s = String::from_str("Fodder weapon ");
                s.append(u64_to_string(f0.0).as_str());
                s.append(" not found");
                s
            },
            LogicError::WeaponFodderLocked(f0) => {
                let mut s = String::from_str("Fodder weapon ");
                s.append(u64_to_string(f0.0).as_str());
                s.append(" is locked and cannot be used");
                s
            },
            LogicError::WeaponFodderEquipped(f0) => {
                let mut s = String::from_str("Fodder weapon ");
                s.append(u64_to_string(f0.0).as_str());
                s.append(" is equipped and cannot be used");
                s
            },
            LogicError::WeaponMaxBreakthrough(f0) => {
                let mut s = String::from_str("Weapon ");
                s.append(u64_to_string(f0.0).as_str());
                s.append(" is already at max breakthrough level");
                s
            },
            LogicError::WeaponBreakthroughLevelTooLow { id, current, required } => {
                let mut s = String::from_str("Weapon ");
                s.append(u64_to_string(id.0).as_str());
                s.append(" level ");
                s.append(u64_to_string(*current as u64).as_str());
                s.append(" is below required ");
                s.append(u64_to_string(*required as u64).as_str());
                s.append(" for next breakthrough");
                s
            },
            LogicError::WeaponRefineTargetLocked(f0) => {
                let mut s = String::from_str("Weapon ");
                s.append(u64_to_string(f0.0).as_str());
                s.append(" is locked and cannot be refined");
                s
            },
            LogicError::WeaponRefineTypeMismatch => {
                let mut s = String::from_str("Refinement requires the same weapon template as the target");
                s
            },
            LogicError::WeaponRefineMaxLevel(f0) => {
                let mut s = String::from_str("Weapon ");
                s.append(u64_to_string(f0.0).as_str());
                s.append(" is already at max refinement level");
                s
            },
            LogicError::WeaponModifyLocked(f0) => {
                let mut s = String::from_str("Weapon ");
                s.append(u64_to_string(f0.0).as_str());
                s.append(" is locked and cannot be modified");
                s
            },
            LogicError::WeaponNoAttachedGem(f0) => {
                let mut s = String::from_str("Weapon ");
                s.append(u64_to_string(f0.0).as_str());
                s.append(" has no attached gem");
                s
            },
            LogicError::GemNotFound(f0) => {
                let mut s = String::from_str("Gem ");
                s.append(u64_to_string(f0.0).as_str());
                s.append(" not found");
                s
            },
            LogicError::GemSocketed(f0) => {
                let mut s = String::from_str("Gem ");
                s.append(u64_to_string(f0.0).as_str());
                s.append(" is socketed and cannot be removed");
                s
            },
            LogicError::GemLocked(f0) => {
                let mut s = String::from_str("Gem ");
                s.append(u64_to_string(f0.0).as_str());
                s.append(" is locked and cannot be removed");
                s
            },
            LogicError::EquipNotFound(f0) => {
                let mut s = String::from_str("Equip piece ");
                s.append(u64_to_string(f0.0).as_str());
                s.append(" not found");
                s
            },
            LogicError::EquipEquipped(f0) => {
                let mut s = String::from_str("Equip piece ");
                s.append(u64_to_string(f0.0).as_str());
                s.append(" is currently equipped and cannot be removed");
                s
            },
            LogicError::EquipLocked(f0) => {
                let mut s = String::from_str("Equip piece ");
                s.append(u64_to_string(f0.0).as_str());
                s.append(" is locked and cannot be removed");
                s
            },
            LogicError::EquipAlreadyEquipped(f0, f1) => {
                let mut s = String::from_str("Equip piece ");
                s.append(u64_to_string(f0.0).as_str());
                s.append(" is already equipped to character ");
                s.append(u64_to_string(*f1 as u64).as_str());
                s
            },
            LogicError::DepotInstanced(f0) => {
                let mut s = String::from_str("Depot ");
                s.append(f0.name());
                s.append(" is instanced, expected stackable");
                s
            },
        }
    }
}

} // verus!
