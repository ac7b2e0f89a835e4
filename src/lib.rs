//! An instanced mesh model: a handle-indexed registry of instances whose
//! visible members form a contiguous prefix, procedural mesh topology, and
//! the sizing and draw decisions that feed GPU buffers.

pub mod buffer;
pub mod device;
pub mod layout;
pub mod mesh;
pub mod model;

pub use model::{DrawCall, InvalidHandle, Model};
