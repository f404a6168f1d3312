//! What the commands decide.

pub mod buckify;
pub mod config_check;
pub mod context;
pub mod debug;
pub mod init;
pub mod round_trip;
pub mod stub;
pub mod toolchain;
pub mod vendor;
