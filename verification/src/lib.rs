//! Reading Minecraft Java Edition region files: a byte cursor, the NBT
//! decoder, the region container decoder with its diagnostic report, name
//! queries over decoded trees, and the save-wide walker that ties them
//! together.

pub mod cursor;
pub mod nbt;
pub mod region;
pub mod text;
pub mod config;
pub mod engine;
pub mod gestalt;
