//! Game rules of a real-time strategy on a square grid: terrain and
//! movement costs, line of sight, A* path search, the economy, the AI
//! commander's decisions, the map editor with its undo/redo history, the
//! map file format, robot order queues, unit selection, the scout's
//! collisions and interface texts.

pub mod types;
pub mod grid;
pub mod pathfinding;
pub mod economy;
pub mod ai;
pub mod loader;
pub mod text;
pub mod editor;
pub mod save;
pub mod command;
pub mod localization;
pub mod selection;
pub mod collision;
