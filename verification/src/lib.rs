//! Editing core of an interactive 2D planar-graph (mesh skeleton) editor.
//!
//! The crate keeps a planar graph of positioned vertices with symmetric
//! adjacency, per-edge scalar attributes and a cached derived triangulation,
//! together with the transient state of an edit session (pending draw points,
//! selection rectangle, selection set, snap highlight, drag anchor).  Every
//! operation is specified and verified: adjacency stays symmetric, no
//! unordered vertex pair is connected twice, and structural edits clear the
//! derived caches.
//!
//! All geometry is carried in fixed-point coordinates (see [`geom`]); the
//! surrounding application converts to and from its floating-point world
//! space at the boundary.

pub mod control;
pub mod geom;
pub mod graph;
pub mod laws;
pub mod render;
pub mod session;
