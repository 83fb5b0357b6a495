//! Occlusion culling for pen-plotter paths.
//!
//! A document is an ordered stack of paths (painter's order). A later, closed,
//! filled path hides the parts of earlier strokes that lie under its fill.
//! This crate splits the earlier paths exactly where visibility changes and
//! discards the hidden pieces, and it reads and writes the three-line `svgcom`
//! plotter command format.
//!
//! Coordinates are `kurbo` values and stay opaque to the verifier; every
//! floating-point operation happens inside the trusted wrappers of [`ext`].
//! Everything discrete — path structure, cut bookkeeping, fill rules, the
//! culling sweep, and the text format — is verified.

pub mod cover;
pub mod cull;
pub mod cut;
pub mod ext;
pub mod geom;
pub mod intersect;
pub mod path;
pub mod svgcom;
pub mod text;
