//! An in-memory voxel world built from Anvil region files, and its conversion
//! into a sparse map of target block ids keyed by relative coordinates.

pub mod anvil;
pub mod convert;
pub mod coords;
pub mod ingest;
pub mod key;
pub mod laws;
pub mod nbt;
pub mod palette;
pub mod rules;
pub mod sound;
pub mod world;
