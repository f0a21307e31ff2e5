//! The synchronization strategies.
pub mod atomic;
pub mod evmap;
pub mod flash_park_token;
pub mod flashmap;
pub mod hazad_flash;
pub mod hazard;
pub mod hazard_evmap;
pub mod outline_writer;
pub mod park_token;
pub mod simple;
pub mod simple_async;
