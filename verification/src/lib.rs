//! A verified loader for a trading-card catalog: it turns a JSON document
//! (one object mapping card names to card records) into a validated,
//! strongly-typed in-memory catalog, or reports the first error found.
//!
//! The two central pieces are the mana-cost mini-language parser and the
//! multi-face card resolution pass, which cross-links split, flip and
//! double-faced cards into shared face records.

pub mod adapter;
pub mod card;
pub mod catalog;
pub mod json;
pub mod laws;
pub mod mana;

pub use adapter::from_str;
pub use card::CardFace;
pub use card::CardLayout;
pub use card::ExtraInfo;
pub use catalog::BuilderError;
pub use catalog::Card;
pub use catalog::Catalog;
pub use catalog::from_json;
pub use json::CardError;
pub use json::Field;
pub use json::JsonObject;
pub use json::JsonValue;
pub use mana::Color;
pub use mana::Mana;
pub use mana::read_color_ch;
pub use mana::read_color_st;
pub use mana::read_mana_st;
