//! What an endpoint knows and decides: the peers it has learned, and what
//! its receiver and its sender do with a frame.

pub mod lock;
pub mod receiver;
pub mod sender;
pub mod target_database;
