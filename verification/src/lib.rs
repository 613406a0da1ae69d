//! Self-similar plane figures in fixed-point arithmetic.
//!
//! The library builds the geometry of a shrinking spiral, the Koch curve and
//! snowflake, the Sierpinski triangle and a binary tree that sways, and it
//! advances the small amount of state that animates them. Every coordinate
//! is a fixed-point number with 32 fractional bits held in an `i64`, and
//! every cosine, sine and ratio one with 56, so each figure is a function of
//! its parameters alone and is described, segment by segment, by the
//! contracts of the functions that build it. Drawing is left
//! to the caller, who receives plain lists of strokes and triangles.

pub mod animation;
pub mod error;
pub mod fixed;
pub mod koch;
pub mod length;
pub mod scene;
pub mod shape;
pub mod sierpinski;
pub mod snowflake;
pub mod spiral;
pub mod sway;
pub mod tree;
pub mod vector;
