//! Pixel shuffling along a space-filling curve.
//!
//! The crate computes a generalized Hilbert traversal of an arbitrary
//! rectangular pixel grid, turns it into a path of byte offsets into an RGBA
//! buffer, and rotates the colors of the buffer along that path, tick by
//! tick.

pub mod bignat;
pub mod gilbert;
pub mod handlers;
pub mod messaging;
pub mod paths;
pub mod renderer;
pub mod rotation;
pub mod utils;
pub mod worker;
