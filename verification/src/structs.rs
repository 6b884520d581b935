//! The values that pass through one exchange with a client.

pub mod command;
pub mod error;
pub mod file;
pub mod request;
pub mod response;
pub mod server;
