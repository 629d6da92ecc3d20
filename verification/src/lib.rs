//! A registry of servers and portals: the stores that keep the records
//! unique and consistent, the validation in front of them, and the rules
//! that turn a connection attempt into a liveness verdict.

pub mod api;
pub mod error;
pub mod id;
pub mod portal;
pub mod registry;
pub mod server;
pub mod status;
pub mod validate;
