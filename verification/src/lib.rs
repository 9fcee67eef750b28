//! Instantiates a tile/entity-based level format into an explicit scene
//! graph and keeps that graph consistent as the set of desired levels
//! changes over time.
//!
//! The crate is organised around five concerns:
//!
//! - [`coords`]: lossless conversions between signed grid coordinates,
//!   unsigned tile positions, flat int-grid indices and a signed spatial
//!   vector, together with componentwise arithmetic.
//! - [`ldtk`]: the immutable level/world description handed over by the
//!   external loader.
//! - [`components`]: the per-node metadata attached to spawned scene nodes.
//! - [`level_set`] and [`reconcile`]: the desired-set model and the diff
//!   that decides which levels to spawn, despawn or leave untouched.
//! - [`world`]: the live scene graph, the worldly-entity tracker and the
//!   reconciliation pass itself.

pub mod components;
pub mod coords;
pub mod ldtk;
pub mod level_set;
pub mod reconcile;
pub mod world;
