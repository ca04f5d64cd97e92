//! Routing core of a MAVLink message router: the frame codec, the resolver of
//! target-field offsets, and the per-endpoint target database.

pub mod endpoint;
pub mod mavlink;
