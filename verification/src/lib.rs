//! Procedural asteroid-field spawning around moving frames of reference.
//!
//! World space is cut into cubic cells. Each tick a frame that entered a new
//! cell scans the cube of cells around it, skips what the previous scan
//! covered, asks a seeded cellular noise field about every other cell and
//! queues a spawn request for each cell whose noise exceeds the cutoff. The
//! queue is drained into positioned asteroids, and asteroids that no frame
//! keeps in range are swept away.

pub mod address;
pub mod arena;
pub mod coverage;
pub mod field;
pub mod queue;
pub mod relay;
pub mod sample;
pub mod spawner;

pub use address::{
    address_to_translation, intersecting, translation_to_address, MapAddress, Translation,
};
pub use arena::{
    clean_up_map, despawn_cubes, is_in_range, spawn_from_queue, spawn_setup, tick, Asteroid,
    TickChanges,
};
pub use field::SpawnHashTable;
pub use queue::{AsteroidData, SpawnQueue};
pub use relay::{damage_player, destroy_asteroids, DamageEvent};
pub use sample::NoiseSample;
pub use spawner::{scan_frame, worley_spawner, MapSpawnerBundle, PreviousSpawnUpdate, SpawnArea};
