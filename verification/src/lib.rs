//! A minimal HTTP/1.0 file server, as a library of verified decisions.
//!
//! The library reads no socket and no disk. It is handed the lines of a
//! request and what was found on disk, and says what to do next and which
//! bytes to answer with.

pub mod gr_conn_handler;
pub mod gr_file_handler;
pub mod structs;
pub mod text;
