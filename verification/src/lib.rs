//! Verified core of a snake-chain simulation.
//!
//! A snake is a chain of segments: the head (index 0) is steered toward a
//! target point, and every trailing segment follows the segment ahead of it
//! with distance-dependent speed. This crate holds the chain registry, the
//! head-steering rules and the follower-propagation rules, all stated over
//! fixed-point integers (milli-units for lengths, milli-degrees for angles)
//! so that every step of the motion is exact and provable. A thin driver
//! around the crate supplies input, elapsed time and trigonometry, and maps
//! segment transforms to a visual representation.

pub mod angle;
pub mod geom;
pub mod motion;
pub mod registry;
pub mod sim;
