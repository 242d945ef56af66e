//! Player-state logic.

pub mod progression;
pub mod clock;
pub mod mail;
pub mod wallet;
pub mod enums;
pub mod item;
pub mod traits;
pub mod text;
pub mod error;
pub mod scene;
pub mod str_map;
pub mod entity;
pub mod level_script;
pub mod movement;
pub mod char_bag;
pub mod skill;
pub mod mission;
pub mod interest;
pub mod spatial;
pub mod streaming;
