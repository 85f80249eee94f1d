//! Character packs: their ids, assets and the registry built from the packs
//! found under the character-pack root.

pub mod assets;
pub mod requirements;
pub mod registry;
pub mod laws;
