//! The drivers that a rig can be built from.
pub mod arm;
pub mod lock_position;
pub mod maintain_distance;
pub mod position;
pub mod rotation;
pub mod smooth;
