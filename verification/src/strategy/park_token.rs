//! The tokens of the flash strategies, under their shorter path.
pub use super::flash_park_token::{AdaptiveParkToken, AsyncParkToken, Parker, Seal, ThreadParkToken};
