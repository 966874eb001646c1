//! Simulation core of a turn-based dungeon crawler: procedural level
//! layout, line-traced visibility, per-actor behavior, and combat with
//! equipment-modified stats. Rendering and input are left to callers.
pub mod ai;
pub mod events;
pub mod fov;
pub mod game;
pub mod item;
pub mod map_gen;
pub mod object;
pub mod object_gen;
mod rng;
pub mod tile;
