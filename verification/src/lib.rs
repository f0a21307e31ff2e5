//! Double-buffered values with one writer and many readers.
//!
//! A payload holds two cells of the same type. The writer mutates one cell
//! while readers observe the other; a *swap* exchanges the two roles. Which
//! readers may still pin a cell, and when a swap counts as finished, is
//! decided by a pluggable [`interface::Strategy`].
//!
//! # How the crate is built
//!
//! Every strategy in this crate is a state machine over plain values: each
//! call is one step of the protocol, taken as a whole, and the contracts say
//! exactly how a step changes the state. The abstract state that all
//! strategies share is [`protocol::Protocol`]; what holds of every run of the
//! protocol is proved there.
//!
//! The payload, [`raw::DoubleBufferData`], owns the cells and the strategy.
//! The handles ([`raw::Writer`], [`raw::Reader`], [`raw::ReaderGuard`]) own
//! only their ids and are handed the payload for each step. Whoever shares a
//! payload between threads or tasks keeps it behind a lock and takes the
//! steps under it.
//!
//! No step waits. A step that would have to wait says so and leaves
//! everything in order: the caller waits and takes the step again. So that
//! the caller is woken, a strategy keeps a token
//! ([`strategy::flash_park_token`], [`strategy::atomic::park_token`]). A
//! task's waker is woken by the step of the reader that makes way. A thread
//! cannot be woken from here: the token records that a wake-up is due, and
//! the caller delivers it.
//!
//! # What is in it
//!
//! * [`strategy`]: the strategies, and the pool of reader slots that two of
//!   them use ([`strategy::hazard`]).
//! * [`raw`]: the payload and the handles.
//! * [`delay`]: a writer that starts a swap early and finishes it late.
//! * [`op`]: a writer that keeps a log of operations and applies each to
//!   both buffers.
//! * [`chmap`]: a hash map with a table in each buffer, on top of [`op`].
//! * [`double_buffer`]: a writer that applies operations at once and replays
//!   them when it swaps.
//! * [`perf`]: the description of a load on a map.
pub mod protocol;
pub mod interface;
pub mod strategy;
pub mod raw;
pub mod ext;
pub mod perf;
pub mod chmap;
pub mod delay;
pub mod double_buffer;
pub mod macros;
pub mod op;
pub mod vec_drain;
