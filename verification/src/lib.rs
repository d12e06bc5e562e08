//! Verified core logic of a voxel asteroid-mining game: deterministic
//! hashing, chunk streaming bookkeeping, dense voxel sprite models and the
//! small state machines that drive a play session.

pub mod asteroid;
pub mod chunk_queue;
pub mod chunk_set;
pub mod chunks;
pub mod hash;
pub mod rng;
pub mod impact;
pub mod model_file;
pub mod session;
pub mod streaming;
pub mod sky;
pub mod sprites;
pub mod voxel_edit;
pub mod voxel_model;
