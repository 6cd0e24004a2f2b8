//! Verified building blocks of a path-tracing renderer.

pub mod accumulate;
pub mod nearest;
pub mod path;
pub mod pixel;
pub mod pool;
pub mod ppm;
pub mod scene;
pub mod schedule;
pub mod text;
