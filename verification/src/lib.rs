//! Procedural fern geometry.
//!
//! The crate builds 2D vector paths for the three anatomical parts of a fern
//! plant — a tapering stem and two rows of leaflets — from a small record of
//! shape parameters.  Generation is a pure function of the parameter record
//! and the selected part: the same inputs always produce the same command
//! sequence.  Coordinates are saturating decimal fixed-point numbers, so the
//! whole pipeline is exact and free of rounding surprises.
//!
//! A host is expected to hand the emitted path to a fill/triangulation
//! collaborator of its choice and to place the three resulting meshes; that
//! side is deliberately outside this crate.

pub mod fern;
pub mod fixed;
pub mod laws;
pub mod path;
pub mod settings;
