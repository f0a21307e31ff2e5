//! A strategy for one thread: two counters and a parity.
//!
//! A swap is refused while a guard pins the cell that it would hand to the
//! writer, so a swap that starts is finished at once.
use vstd::prelude::*;
use crate::interface::{BlockingStrategy, Strategy, StrategyModel};
use crate::protocol::Protocol;

verus! {

pub struct SimpleStrategy {
    /// Outstanding guards, by the parity under which they were taken.
    num_readers: [u32; 2],
    swapped: bool,
}

/// The index of a parity into the counters.
pub open spec fn slot(parity: bool) -> int {
    if parity {
        1
    } else {
        0
    }
}

fn slot_of(parity: bool) -> (i: usize)
    ensures
        i == slot(parity),
{
    if parity {
        1
    } else {
        0
    }
}

impl SimpleStrategy {
    /// Guards outstanding under `parity`.
    pub closed spec fn readers(&self, parity: bool) -> nat {
        self.num_readers[slot(parity)] as nat
    }

    /// The parity.
    pub closed spec fn parity(&self) -> bool {
        self.swapped
    }

    /// A strategy without readers, not swapped.
    #[inline]
    pub fn new() -> (strategy: Self)
        ensures
            strategy.wf(),
            strategy.protocol() == Protocol::init(),
    {
        Self { num_readers: [0, 0], swapped: false }
    }
}

impl StrategyModel for SimpleStrategy {
    type WriterId = ();

    type ReaderId = ();

    type Swap = ();

    type SwapError = ();

    type ReadGuard = bool;

    /// No guard ever pins the writer's cell.
    open spec fn wf(&self) -> bool {
        self.readers(!self.parity()) == 0
    }

    open spec fn protocol(&self) -> Protocol {
        Protocol {
            swapped: self.parity(),
            held_plain: self.readers(false),
            held_swapped: self.readers(true),
        }
    }

    open spec fn writer_valid(&self, writer: &()) -> bool {
        true
    }

    open spec fn reader_ready(&self, reader: &()) -> bool {
        true
    }

    open spec fn has_room(&self, reader: &()) -> bool {
        self.readers(self.parity()) < u32::MAX
    }

    open spec fn reader_holds(&self, reader: &(), guard: &bool) -> bool {
        self.readers(*guard) > 0
    }

    open spec fn same_reader(a: &(), b: &()) -> bool {
        true
    }

    open spec fn guard_parity(guard: &bool) -> bool {
        *guard
    }

    open spec fn swap_valid(&self, writer: &(), swap: &()) -> bool {
        true
    }

    open spec fn swap_target(&self, swap: &()) -> bool {
        self.parity()
    }

    /// Every id is as good as any other.
    open spec fn placeholder(reader: &()) -> bool {
        true
    }

    open spec fn minted(pre: &Self, post: &Self, writer: &()) -> bool {
        post.protocol() == pre.protocol()
    }

    open spec fn created(pre: &Self, post: &Self, reader: &()) -> bool {
        post.protocol() == pre.protocol()
    }

    open spec fn dropped(pre: &Self, reader: &(), post: &Self) -> bool {
        &&& post.protocol() == pre.protocol()
    }

    open spec fn acquired(pre: &Self, pre_reader: &(), post: &Self, post_reader: &(), guard: &bool)
        -> bool {
        &&& *guard == pre.parity()
        &&& post.protocol() == pre.protocol().acquire()
    }

    open spec fn released(pre: &Self, pre_reader: &(), guard: &bool, post: &Self, post_reader: &())
        -> bool {
        post.protocol() == pre.protocol().release(*guard)
    }

    /// The swap is refused exactly when a guard pins the readers' cell.
    open spec fn started(
        pre: &Self,
        pre_writer: &(),
        post: &Self,
        post_writer: &(),
        result: &Result<(), ()>,
    ) -> bool {
        &&& result.is_ok() <==> pre.readers(pre.parity()) == 0
        &&& post.protocol() == if result.is_ok() {
            pre.protocol().toggle()
        } else {
            pre.protocol()
        }
    }

    open spec fn probed(
        pre: &Self,
        pre_writer: &(),
        pre_swap: &(),
        post: &Self,
        post_writer: &(),
        post_swap: &(),
    ) -> bool {
        post.protocol() == pre.protocol()
    }

}

impl Strategy for SimpleStrategy {
    #[inline]
    fn create_writer_id(&mut self) -> (writer: ()) {
        ()
    }

    #[inline]
    fn create_reader_id_from_writer(&mut self, writer: &()) -> (reader: ()) {
        ()
    }

    #[inline]
    fn create_reader_id_from_reader(&mut self, reader: &()) -> (fresh: ()) {
        ()
    }

    #[inline]
    fn create_invalid_reader_id() -> (reader: ()) {
        ()
    }

    #[inline]
    fn drop_reader_id(&mut self, reader: ()) {
    }

    #[inline]
    fn is_swapped_writer(&self, writer: &()) -> (swapped: bool) {
        self.swapped
    }

    #[inline]
    fn is_swapped(&self, reader: &(), guard: &bool) -> (swapped: bool) {
        self.swapped
    }

    #[inline]
    fn try_start_swap(&mut self, writer: &mut ()) -> (result: Result<(), ()>) {
        if self.num_readers[slot_of(self.swapped)] != 0 {
            Err(())
        } else {
            self.swapped = !self.swapped;
            Ok(())
        }
    }

    #[inline]
    fn is_swap_finished(&mut self, writer: &mut (), swap: &mut ()) -> (finished: bool) {
        true
    }

    #[inline]
    fn acquire_read_guard(&mut self, reader: &mut ()) -> (guard: bool) {
        let swapped = self.swapped;
        let i = slot_of(swapped);
        let n: u32 = self.num_readers[i];
        self.num_readers[i] = n + 1;
        swapped
    }

    #[inline]
    fn release_read_guard(&mut self, reader: &mut (), guard: bool) {
        let i = slot_of(guard);
        let n: u32 = self.num_readers[i];
        self.num_readers[i] = n - 1;
    }
}

impl BlockingStrategy for SimpleStrategy {
    #[inline]
    fn finish_swap(&mut self, writer: &mut (), swap: ()) -> (result: Result<(), ()>) {
        Ok(())
    }
}

} // verus!
