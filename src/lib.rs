//! Camera rigs: an ordered pipeline of drivers, each turning the transform
//! handed on by the stage before it into a new one, once per frame.
//!
//! All quantities are integers. Positions count a length unit that the host
//! picks; quaternion components are fixed-point numbers with scale
//! `math::QUAT_ONE`; elapsed time counts a time unit that the host picks,
//! and smoothing time constants count the same unit.
pub mod composite;
pub mod drivers;
pub mod math;
pub mod rig;
pub mod transform;
