//! Verified core of a codec for a game engine's binary asset packages.

pub mod archive;
pub mod error;
pub mod custom_version;
pub mod names;
pub mod types;
pub mod asset;
pub mod properties;
pub mod exports;
pub mod md5_hash;
pub mod mods;
