//! The core of a two-dimensional Barnes–Hut N-body simulator: a quadtree that
//! keeps the total mass and centre of mass of every subdivided region, and the
//! traversal that decides, for each body, which bodies and clusters act on it.
//!
//! Positions live on an integer grid and masses are integers. A cluster keeps
//! its total mass and its first moments (`Σ m·x`, `Σ m·y`) exactly, so its
//! centre of mass `moment / mass` is exact; the traversal measures distances
//! to that exact centre and hands each acting body or cluster out as such a
//! point mass (mass and moments). A bound keeps its corner and size
//! in steps of `1 / unit` (see [`bound::Bound`]), so subdividing halves a
//! region exactly at any depth.
//!
//! A body that lies exactly on a midline of a region goes to the quadrant east
//! or south of it: each node owns its cell closed on the top and left edges
//! and open on the bottom and right edges, so no body inside the root is lost.
//! The root admits only bodies strictly inside its boundary; the world's root
//! (see [`simulation::world_bound`]) reaches half a grid unit beyond the
//! world's closed square, so it admits exactly the bodies a step keeps.
//!
//! The force kernel and the time integration work on floating-point numbers
//! and are not part of this crate: [`traversal`] gives, for each body, the
//! exact list of point masses whose forces make up its net force.

use vstd::prelude::*;

pub mod body;
pub mod bound;
pub mod laws;
pub mod lemmas;
pub mod quadtree;
pub mod simulation;
pub mod traversal;
pub mod vec_2d;
pub mod wide;

verus! {

} // verus!
