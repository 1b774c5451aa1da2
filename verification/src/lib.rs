//! Game world core: tile map generation, the keyed game store, player sessions
//! and the wire-level entity tags of the game server.
pub mod text;
pub mod lists;
pub mod grid;
pub mod store;
pub mod session;
pub mod server;
pub mod tiles;
pub mod tile_map;
pub mod tile_sets;
pub mod protocol;
pub mod entity;
pub mod command;
