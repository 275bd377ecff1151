//! Core rules of a vertically-scrolling shooter client and its companion
//! server: input baking, loop-state voting, the game-state stack, progress
//! accounting, the tile-map file format and the datagram header.

pub mod bound;
pub mod config;
pub mod game;
pub mod game_loop;
pub mod input;
pub mod keys;
pub mod loading;
pub mod loop_state;
pub mod menu;
pub mod network;
pub mod progress;
pub mod render;
pub mod resource;
pub mod shell;
pub mod states;
pub mod uth_map;
pub mod uth_map_bytes;
pub mod wire;
