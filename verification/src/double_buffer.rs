//! A writer that applies each operation at once and replays it on the other
//! buffer when the buffers are swapped.
pub mod op;
