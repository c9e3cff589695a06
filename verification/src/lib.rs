//! Driving a transfer daemon for a package manager: the commands that
//! start it and hand it transfers, the decoding of the report it prints,
//! the entries that are kept of its transfers, and the wait for one of
//! them to finish.

pub mod bytes;
pub mod client;
pub mod command;
pub mod download;
pub mod entry;
pub mod error;
pub mod process;
pub mod report;
pub mod server;
pub mod text;
pub mod transmission;

pub use transmission::{Transmission, TransmissionOpts};
