//! Program synthesis for a small solid-modeling language.
//!
//! The crate searches for a short sequence of solid primitives (cube, sphere,
//! cylinder), each with ten integer parameters, whose rendered point cloud
//! approximates a target point cloud.  Rendering is delegated to an external
//! oracle behind the [`controller::RenderOracle`] capability; everything the
//! search itself decides — the chamfer-distance scoring, candidate proposal,
//! counterexample extraction, coordinate-descent refinement and the
//! counterexample-guided outer loop — is verified here.

pub mod controller;
pub mod domain;
pub mod extract;
pub mod geometry;
pub mod propose;
pub mod refine;
pub mod rng;
pub mod score;
