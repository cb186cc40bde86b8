//! Reconciliation of a chunk-partitioned logical tile grid with its realized
//! (materialized) mirror.
//!
//! The world is split into square chunks of `CHUNK_LENGTH` tile slots. An
//! external authority mutates the logical tiles and marks them changed; this
//! crate computes, per chunk, the minimal sequence of create / update /
//! destroy requests against a materialization backend, together with the
//! updated shadow state that mirrors what the backend now holds.
//!
//! The backend itself (the owner of meshes, materials and realized objects)
//! is outside this crate: requests are recorded as plain [`backend::BackendCall`]
//! values for a surrounding presentation layer to perform.

pub mod backend;
pub mod map_data;
pub mod properties;
pub mod spawning;
