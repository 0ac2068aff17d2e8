//! Locale-aware resource management for Fluent localization: a memoizing
//! store of parsed resources, bundle construction along a locale fallback
//! chain, and selection of message variants.

pub mod bundle;
pub mod locale;
pub mod manager;
pub mod number;
pub mod path;
pub mod plural;
pub mod resource;
pub mod search;
pub mod select;
pub mod text;
