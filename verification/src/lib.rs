//! Core logic for small top-down tile games: an axis-aligned bounding-box
//! collision resolver that pushes an actor out of static obstacles, and a
//! sprite-sheet animation player with looping, one-shot and horizontal-flip
//! playback. World geometry is kept on an integer grid so that every
//! computation is exact.

pub mod animation;
pub mod collision;
pub mod gamestate;
pub mod geom;
pub mod sprites;
pub mod world;
