//! A verified entity/component store together with the fixed-timestep
//! sphere/plane collision engine that operates over it.
//!
//! The store (`world`) keeps an open-ended set of per-entity columns, each
//! either dense (one slot per entity) or sparse (keyed by entity id), and
//! hands out exclusive, checked-out access to single columns. The collision
//! side (`geom`, `collision`) works on fixed-point coordinates: contact
//! generation is an exhaustive pairwise overlap test, and the two resolvers
//! push bodies apart and correct velocities and momenta along contact
//! normals.

pub mod components;
pub mod world;
pub mod geom;
pub mod collision;
pub mod render;

pub use geom::DT;
