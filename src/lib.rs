//! Search for sequences of player actions that drive a deterministic
//! outbreak spawner into producing a wanted entity.

pub mod advance;
pub mod calculations;
pub mod generation;
pub mod permuter;
pub mod results;
pub mod spawn_info;
pub mod spawn_state;
pub mod text;
pub mod xoroshiro;

pub use spawn_state::SpawnState;
pub use xoroshiro::Xoroshiro;
