//! A geospatial proximity cache for a weather service.
//!
//! Results fetched for one place are reused for queries that fall within a
//! configured distance of it, until they expire. Places are points of a
//! fixed-point grid laid over the unit sphere; the nearest cached point is
//! found by a k-d tree.

pub mod cache;
pub mod clock;
pub mod geometry;
pub mod guarantees;
pub mod index;
pub mod store;
pub mod weather;
