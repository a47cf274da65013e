//! Core of a simulator for a small motion-control command language.
//!
//! The library turns textual move instructions (straight lines and
//! clockwise / counter-clockwise arcs) into the discretized sequence of
//! intermediate tool positions, stopping early once a designated stop
//! point is reached.
//!
//! All coordinates are fixed-point integers counted in micro-units
//! (one millionth of a coordinate unit), so every computation here is
//! exact integer arithmetic with a precise contract.

pub mod geom;
pub mod trig;
pub mod motion;
pub mod parse;
pub mod interp;
