//! A stochastic hill-climbing image approximator: random translucent-free
//! circles are proposed one per iteration, scored against a target pixel
//! grid, and committed to the canvas only when they strictly reduce the
//! aggregate per-pixel color error over their bounding box.

pub mod color;
pub mod rng;
pub mod shape;
pub mod canvas;
pub mod score;
pub mod engine;
