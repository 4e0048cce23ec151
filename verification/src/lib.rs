//! Discrete collision detection and resolution for a game on a tile grid.
//!
//! Entities move freely through a grid of tiles. After they have moved, one
//! step of collisions finds what overlaps ([`contact`], [`level`]), puts the
//! contacts in order ([`sorting`]), pushes entities out of solid tiles and
//! lets projectiles bounce ([`response`]), and applies the hits of projectiles
//! ([`damage`]). [`game`] holds the state of play and ties the step together.
//!
//! Positions and sizes are whole numbers of world units; a coordinate is an
//! `i32`, and arithmetic on coordinates saturates at the ends of that range.
//! Directions are vectors, so that a reflection is a change of sign. Every
//! type has a model over unbounded integers, its view; the contracts are
//! stated on the models, and the laws that relate several functions are
//! proof functions beside them.
//!
//! The penetration of two boxes is exact. That of a circle with a box or with
//! another circle approximates the direction in which to part them, and may
//! leave them overlapping after one resolution.

pub mod contact;
pub mod damage;
pub mod entity;
pub mod game;
pub mod geom;
pub mod layout;
pub mod level;
pub mod response;
pub mod rows;
pub mod sorting;
pub mod sprite;
pub mod steer;
