//! A strategy for one thread whose writer is a task: two counters, a
//! parity, and the waker of the task that waits for a swap.
//!
//! A swap always starts. It is finished when no guard is left on the cell
//! that it handed to the writer; the reader that gives back the last guard
//! of a cell wakes the task.
use vstd::prelude::*;
use core::task::{Context, Poll, Waker};
use crate::interface::{AsyncStrategy, Strategy, StrategyModel};
use crate::protocol::Protocol;
use super::flash_park_token::{clone_waker, wake_task, waker_of};

verus! {

pub struct SimpleAsyncStrategy {
    /// Outstanding guards, by the cell that they pin.
    num_readers: [u32; 2],
    swapped: bool,
    waker: Option<Waker>,
}

/// The index of a cell into the counters.
pub open spec fn slot(cell: bool) -> int {
    if cell {
        1
    } else {
        0
    }
}

fn slot_of(cell: bool) -> (i: usize)
    ensures
        i == slot(cell),
{
    if cell {
        1
    } else {
        0
    }
}

impl SimpleAsyncStrategy {
    /// Guards that pin `cell`.
    pub closed spec fn readers(&self, cell: bool) -> nat {
        self.num_readers[slot(cell)] as nat
    }

    /// The parity.
    pub closed spec fn parity(&self) -> bool {
        self.swapped
    }

    /// A task waits to be woken.
    pub closed spec fn waiting(&self) -> bool {
        self.waker is Some
    }

    /// A strategy without readers, not swapped, nobody waiting.
    #[inline]
    pub fn new() -> (strategy: Self)
        ensures
            strategy.wf(),
            strategy.protocol() == Protocol::init(),
            !strategy.waiting(),
    {
        Self { num_readers: [0, 0], swapped: false, waker: None }
    }
}

impl StrategyModel for SimpleAsyncStrategy {
    type WriterId = ();

    type ReaderId = ();

    type Swap = ();

    type SwapError = core::convert::Infallible;

    /// The cell that the guard pins.
    type ReadGuard = bool;

    open spec fn wf(&self) -> bool {
        true
    }

    open spec fn protocol(&self) -> Protocol {
        Protocol {
            swapped: self.parity(),
            held_plain: self.readers(true),
            held_swapped: self.readers(false),
        }
    }

    open spec fn writer_valid(&self, writer: &()) -> bool {
        true
    }

    open spec fn reader_ready(&self, reader: &()) -> bool {
        true
    }

    open spec fn has_room(&self, reader: &()) -> bool {
        self.readers(!self.parity()) < u32::MAX
    }

    open spec fn reader_holds(&self, reader: &(), guard: &bool) -> bool {
        self.readers(*guard) > 0
    }

    open spec fn same_reader(a: &(), b: &()) -> bool {
        true
    }

    open spec fn guard_parity(guard: &bool) -> bool {
        !*guard
    }

    open spec fn swap_valid(&self, writer: &(), swap: &()) -> bool {
        true
    }

    open spec fn swap_target(&self, swap: &()) -> bool {
        self.parity()
    }

    /// Every id is as good as any other.
    open spec fn placeholder(reader: &()) -> bool {
        true
    }

    open spec fn minted(pre: &Self, post: &Self, writer: &()) -> bool {
        &&& post.protocol() == pre.protocol()
        &&& post.waiting() == pre.waiting()
    }

    open spec fn created(pre: &Self, post: &Self, reader: &()) -> bool {
        &&& post.protocol() == pre.protocol()
        &&& post.waiting() == pre.waiting()
    }

    open spec fn dropped(pre: &Self, reader: &(), post: &Self) -> bool {
        &&& post.protocol() == pre.protocol()
        &&& post.waiting() == pre.waiting()
    }

    open spec fn acquired(pre: &Self, pre_reader: &(), post: &Self, post_reader: &(), guard: &bool)
        -> bool {
        &&& *guard == !pre.parity()
        &&& post.protocol() == pre.protocol().acquire()
        &&& post.waiting() == pre.waiting()
    }

    /// The reader that gives back the last guard of a cell wakes the task.
    open spec fn released(pre: &Self, pre_reader: &(), guard: &bool, post: &Self, post_reader: &())
        -> bool {
        &&& post.protocol() == pre.protocol().release(!*guard)
        &&& post.waiting() == (pre.waiting() && pre.readers(*guard) != 1)
    }

    /// A swap always starts, and exchanges the parity.
    open spec fn started(
        pre: &Self,
        pre_writer: &(),
        post: &Self,
        post_writer: &(),
        result: &Result<(), core::convert::Infallible>,
    ) -> bool {
        &&& result is Ok
        &&& post.protocol() == pre.protocol().toggle()
        &&& post.waiting() == pre.waiting()
    }

    open spec fn probed(
        pre: &Self,
        pre_writer: &(),
        pre_swap: &(),
        post: &Self,
        post_writer: &(),
        post_swap: &(),
    ) -> bool {
        &&& post.protocol() == pre.protocol()
        &&& post.waiting() == pre.waiting()
    }
}

impl Strategy for SimpleAsyncStrategy {
    #[inline]
    fn create_writer_id(&mut self) -> (writer: ()) {
        ()
    }

    #[inline]
    fn create_reader_id_from_writer(&mut self, writer: &()) -> (reader: ()) {
        ()
    }

    #[inline]
    fn create_reader_id_from_reader(&mut self, reader: &()) -> (fresh: ()) {
        ()
    }

    #[inline]
    fn create_invalid_reader_id() -> (reader: ()) {
        ()
    }

    #[inline]
    fn drop_reader_id(&mut self, reader: ()) {
    }

    #[inline]
    fn is_swapped_writer(&self, writer: &()) -> (swapped: bool) {
        self.swapped
    }

    #[inline]
    fn is_swapped(&self, reader: &(), guard: &bool) -> (swapped: bool) {
        !*guard
    }

    #[inline]
    fn try_start_swap(&mut self, writer: &mut ()) -> (result: Result<(), core::convert::Infallible>) {
        let next_swap = !self.swapped;
        self.swapped = next_swap;
        Ok(())
    }

    #[inline]
    fn is_swap_finished(&mut self, writer: &mut (), swap: &mut ()) -> (finished: bool) {
        self.num_readers[slot_of(self.swapped)] == 0
    }

    #[inline]
    fn acquire_read_guard(&mut self, reader: &mut ()) -> (guard: bool) {
        let swapped = !self.swapped;
        let i = slot_of(swapped);
        let n: u32 = self.num_readers[i];
        self.num_readers[i] = n + 1;
        swapped
    }

    #[inline]
    fn release_read_guard(&mut self, reader: &mut (), guard: bool) {
        let swapped = guard;
        let i = slot_of(swapped);
        let n: u32 = self.num_readers[i];
        self.num_readers[i] = n - 1;
        if self.num_readers[i] == 0 {
            if let Some(waker) = self.waker.take() {
                wake_task(waker)
            }
        }
    }
}

impl AsyncStrategy for SimpleAsyncStrategy {
    open spec fn registered(&self) -> bool {
        self.waiting()
    }

    #[inline]
    fn register_context(&mut self, writer: &mut (), swap: &mut (), ctx: &mut Context<'_>) -> (out:
        Poll<()>)
        ensures
            out is Pending,
            final(self).waiting(),
    {
        self.waker = Some(clone_waker(waker_of(ctx)));
        Poll::Pending
    }
}

} // verus!
