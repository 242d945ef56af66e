//! Static game configuration loaded from the asset tables.

pub mod factory;
pub mod item;
pub mod mission;
pub mod reward;
pub mod table;
pub mod weapon;
