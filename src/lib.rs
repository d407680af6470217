//! Retargets the bone indices stored in a skinned model asset from one
//! skeleton rig to another with a different bone order.
pub mod bytes;
pub mod error;
pub mod rig;
pub mod remap;
pub mod model;
pub mod patch;
pub mod sidecar;
pub mod convert;
