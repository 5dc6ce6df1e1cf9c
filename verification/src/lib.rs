//! Simulation core of a turn-based dungeon crawl: a tile grid, a procedural
//! room-and-tunnel generator, a field-of-view engine with persistent
//! exploration marks, an entity registry with capability slots, and a turn
//! engine resolving player commands, reactive AI, combat and death.
//!
//! Rendering, window handling and input polling are collaborators outside this
//! crate; the core consumes one discrete command per cycle and exposes
//! read-only views of entity and tile state.

use vstd::prelude::*;

pub mod color;
pub mod components;
pub mod engine;
pub mod fov;
pub mod mapgen;
pub mod object;
pub mod reach;
mod rng;
pub mod resources;
pub mod systems;
pub mod text;
pub mod tile;

pub use color::Color;
pub use engine::PlayerAction;
pub use engine::ai_take_turn;
pub use engine::handle_keys;
pub use engine::names_at;
pub use engine::run_cycle;
pub use fov::Fov;
pub use fov::compute_fov;
pub use mapgen::Rect;
pub use mapgen::make_map;
pub use mapgen::make_map_with_rooms;
pub use mapgen::place_objects;
pub use object::Ai;
pub use object::create_player;
pub use object::is_blocked;
pub use object::DeathCallback;
pub use object::HitPoints;
pub use object::Item;
pub use object::Melee;
pub use object::Object;
pub use components::MapRenderable;
pub use components::Player;
pub use components::Position;
pub use resources::InputMapping;
pub use resources::MesLogs;
pub use resources::Messages;
pub use resources::PlayerExit;
pub use resources::VirtualKey;
pub use resources::add_message;
pub use systems::Exit;
pub use systems::Movement;
pub use text::u64_to_string;
pub use tile::Tile;
pub use tile::TileGrid;

verus! {

} // verus!
