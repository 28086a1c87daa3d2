//! Instance batching and indirect-draw compaction.
//!
//! Meshes that share a structural key are concatenated into mesh batches,
//! materials are grouped by batch key, visible instances are grouped, sorted and
//! packed per batch, and one indirect draw record is produced per mesh that has
//! instances, split where a capacity-bound instance buffer runs full.
pub mod batching;
pub mod bytes;
pub mod events;
pub mod frame;
pub mod indirect;
pub mod material;
pub mod mesh;
pub mod packing;
pub mod properties;
pub mod slices;
pub mod submit;
pub mod table;

