//! Turn-driven simulation core of a grid dungeon crawler: visibility,
//! enemy decisions, combat, floor ingestion and the per-turn orchestration.
pub mod chance;
pub mod enemy;
pub mod events;
pub mod floor;
pub mod fov;
pub mod item;
pub mod player;
pub mod pos;
pub mod state;
