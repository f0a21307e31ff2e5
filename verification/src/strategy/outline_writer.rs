//! A wrapper around another strategy that keeps the writer's id beside the
//! strategy, so that the writer itself carries only a marker.
//!
//! Every step is the step of the strategy inside, driven with the id that
//! is kept here.
use vstd::prelude::*;
use crate::interface::{reader_frame, writer_frame, Strategy, StrategyModel};
use crate::protocol::Protocol;

verus! {

pub struct OutlineWriterStrategy<S: StrategyModel> {
    writer_id: S::WriterId,
    strategy: S,
}

/// The marker that the writer carries in place of an id.
#[non_exhaustive]
pub struct OutlineWriterId;

impl<S: StrategyModel> OutlineWriterStrategy<S> {
    /// The strategy inside.
    pub closed spec fn inner(&self) -> S {
        self.strategy
    }

    /// The id with which the strategy inside is driven.
    pub closed spec fn kept_id(&self) -> S::WriterId {
        self.writer_id
    }
}

impl<S: Strategy> OutlineWriterStrategy<S> {
    /// Wraps `strategy` and mints the id with which it will be driven.
    pub fn new(strategy: S) -> (outline: Self)
        requires
            strategy.wf(),
        ensures
            outline.wf(),
            outline.protocol() == strategy.protocol(),
            S::minted(&strategy, &outline.inner(), &outline.kept_id()),
    {
        let mut strategy = strategy;
        let writer_id = strategy.create_writer_id();
        Self { writer_id, strategy }
    }

    fn writer_id(&self, writer: &OutlineWriterId) -> (id: &S::WriterId)
        ensures
            *id == self.kept_id(),
    {
        &self.writer_id
    }
}

impl<S: Strategy> StrategyModel for OutlineWriterStrategy<S> {
    type WriterId = OutlineWriterId;

    type ReaderId = S::ReaderId;

    type Swap = S::Swap;

    type SwapError = S::SwapError;

    type ReadGuard = S::ReadGuard;

    open spec fn wf(&self) -> bool {
        &&& self.inner().wf()
        &&& self.inner().writer_valid(&self.kept_id())
    }

    open spec fn protocol(&self) -> Protocol {
        self.inner().protocol()
    }

    open spec fn writer_valid(&self, writer: &OutlineWriterId) -> bool {
        true
    }

    open spec fn reader_ready(&self, reader: &S::ReaderId) -> bool {
        self.inner().reader_ready(reader)
    }

    open spec fn has_room(&self, reader: &S::ReaderId) -> bool {
        self.inner().has_room(reader)
    }

    open spec fn reader_holds(&self, reader: &S::ReaderId, guard: &S::ReadGuard) -> bool {
        self.inner().reader_holds(reader, guard)
    }

    open spec fn same_reader(a: &S::ReaderId, b: &S::ReaderId) -> bool {
        S::same_reader(a, b)
    }

    open spec fn guard_parity(guard: &S::ReadGuard) -> bool {
        S::guard_parity(guard)
    }

    open spec fn swap_valid(&self, writer: &OutlineWriterId, swap: &S::Swap) -> bool {
        self.inner().swap_valid(&self.kept_id(), swap)
    }

    open spec fn swap_target(&self, swap: &S::Swap) -> bool {
        self.inner().swap_target(swap)
    }

    open spec fn placeholder(reader: &S::ReaderId) -> bool {
        S::placeholder(reader)
    }

    /// Minting the marker changes nothing: the id inside was minted when the
    /// strategy was wrapped.
    open spec fn minted(pre: &Self, post: &Self, writer: &OutlineWriterId) -> bool {
        &&& post.inner() == pre.inner()
        &&& post.kept_id() == pre.kept_id()
    }

    open spec fn created(pre: &Self, post: &Self, reader: &S::ReaderId) -> bool {
        &&& S::created(&pre.inner(), &post.inner(), reader)
        &&& post.kept_id() == pre.kept_id()
    }

    open spec fn dropped(pre: &Self, reader: &S::ReaderId, post: &Self) -> bool {
        &&& S::dropped(&pre.inner(), reader, &post.inner())
        &&& post.kept_id() == pre.kept_id()
    }

    open spec fn acquired(
        pre: &Self,
        pre_reader: &S::ReaderId,
        post: &Self,
        post_reader: &S::ReaderId,
        guard: &S::ReadGuard,
    ) -> bool {
        &&& S::acquired(&pre.inner(), pre_reader, &post.inner(), post_reader, guard)
        &&& post.kept_id() == pre.kept_id()
    }

    open spec fn released(
        pre: &Self,
        pre_reader: &S::ReaderId,
        guard: &S::ReadGuard,
        post: &Self,
        post_reader: &S::ReaderId,
    ) -> bool {
        &&& S::released(&pre.inner(), pre_reader, guard, &post.inner(), post_reader)
        &&& post.kept_id() == pre.kept_id()
    }

    open spec fn started(
        pre: &Self,
        pre_writer: &OutlineWriterId,
        post: &Self,
        post_writer: &OutlineWriterId,
        result: &Result<S::Swap, S::SwapError>,
    ) -> bool {
        S::started(&pre.inner(), &pre.kept_id(), &post.inner(), &post.kept_id(), result)
    }

    open spec fn probed(
        pre: &Self,
        pre_writer: &OutlineWriterId,
        pre_swap: &S::Swap,
        post: &Self,
        post_writer: &OutlineWriterId,
        post_swap: &S::Swap,
    ) -> bool {
        S::probed(
            &pre.inner(),
            &pre.kept_id(),
            pre_swap,
            &post.inner(),
            &post.kept_id(),
            post_swap,
        )
    }
}

impl<S: Strategy> Strategy for OutlineWriterStrategy<S> {
    fn create_writer_id(&mut self) -> (writer: OutlineWriterId) {
        OutlineWriterId
    }

    fn create_reader_id_from_writer(&mut self, writer: &OutlineWriterId) -> (reader: S::ReaderId) {
        let reader = self.strategy.create_reader_id_from_writer(&self.writer_id);
        proof {
            assert(old(self).inner().writer_valid(&self.kept_id()));
            assert forall|s: S::Swap| #[trigger]
                old(self).inner().swap_valid(&self.kept_id(), &s) implies self.inner().swap_valid(
                &self.kept_id(),
                &s,
            ) by {}
        }
        reader
    }

    fn create_reader_id_from_reader(&mut self, reader: &S::ReaderId) -> (fresh: S::ReaderId) {
        let fresh = self.strategy.create_reader_id_from_reader(reader);
        proof {
            assert(old(self).inner().writer_valid(&self.kept_id()));
        }
        fresh
    }

    fn create_invalid_reader_id() -> (reader: S::ReaderId) {
        S::create_invalid_reader_id()
    }

    fn drop_reader_id(&mut self, reader: S::ReaderId) {
        self.strategy.drop_reader_id(reader);
        proof {
            assert(old(self).inner().writer_valid(&self.kept_id()));
        }
    }

    fn is_swapped_writer(&self, writer: &OutlineWriterId) -> (swapped: bool) {
        self.strategy.is_swapped_writer(self.writer_id(writer))
    }

    fn is_swapped(&self, reader: &S::ReaderId, guard: &S::ReadGuard) -> (swapped: bool) {
        self.strategy.is_swapped(reader, guard)
    }

    fn try_start_swap(&mut self, writer: &mut OutlineWriterId) -> (result: Result<
        S::Swap,
        S::SwapError,
    >) {
        self.strategy.try_start_swap(&mut self.writer_id)
    }

    fn is_swap_finished(&mut self, writer: &mut OutlineWriterId, swap: &mut S::Swap) -> (finished:
        bool) {
        self.strategy.is_swap_finished(&mut self.writer_id, swap)
    }

    fn acquire_read_guard(&mut self, reader: &mut S::ReaderId) -> (guard: S::ReadGuard) {
        let guard = self.strategy.acquire_read_guard(reader);
        proof {
            assert(old(self).inner().writer_valid(&self.kept_id()));
        }
        guard
    }

    fn release_read_guard(&mut self, reader: &mut S::ReaderId, guard: S::ReadGuard) {
        self.strategy.release_read_guard(reader, guard);
        proof {
            assert(old(self).inner().writer_valid(&self.kept_id()));
        }
    }
}

} // verus!
