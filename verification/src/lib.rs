//! A model of trading-card-game cards: a verified mana-cost grammar with its
//! rules-driven mana value, and a verified codec between typed per-card-type
//! data and the flat document shape used by card databases.

pub mod digits;
pub mod strutil;
pub mod mana;
pub mod mana_parse;
pub mod mana_laws;
pub mod subtypes;
pub mod card_types;
pub mod flat;
pub mod decode;
pub mod codec_laws;
pub mod card;
pub mod effect;
