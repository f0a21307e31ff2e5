//! A strategy with two counters of readers, one for each cell.
//!
//! Starting a swap changes nothing: it only names the parity to go to. The
//! swap is carried out when it is asked whether it is finished and no guard
//! is left on the cell that it hands to the writer; until then new readers
//! still go to that cell.
//!
//! A counter doubles as a lock. To carry a swap out the writer exchanges a
//! count of zero for the largest count, exchanges the parity, and puts the
//! zero back. A reader that finds the largest count, or finds the count or
//! the parity changed under its hands, looks again. Since a step of this
//! strategy is taken as a whole, no reader ever finds any of that: the
//! second look is never taken.
use vstd::prelude::*;
use core::task::{Context, Poll};
use crate::interface::{AsyncStrategy, BlockingStrategy, Strategy, StrategyModel};
use crate::protocol::Protocol;

pub mod park_token;

use park_token::{AdaptiveParkToken, AsyncParkToken, Parker, ThreadParkToken};

verus! {

pub struct AtomicStrategy<P> {
    /// Outstanding guards, by the cell that they pin.
    num_readers: [u64; 2],
    which: bool,
    parker: P,
}

/// The index of a cell into the counters.
pub open spec fn slot(cell: bool) -> int {
    if cell {
        1
    } else {
        0
    }
}

/// Puts `new` in place of `current`, if `current` is what `cell` holds.
/// What `cell` held comes back, as `Ok` if it was exchanged.
fn compare_exchange(cell: &mut u64, current: u64, new: u64) -> (result: Result<u64, u64>)
    ensures
        result is Ok <==> *old(cell) == current,
        result == if *old(cell) == current {
            Ok::<u64, u64>(*old(cell))
        } else {
            Err::<u64, u64>(*old(cell))
        },
        *final(cell) == if *old(cell) == current {
            new
        } else {
            *old(cell)
        },
{
    let held = *cell;
    if held == current {
        *cell = new;
        Ok(held)
    } else {
        Err(held)
    }
}

fn slot_of(cell: bool) -> (i: usize)
    ensures
        i == slot(cell),
{
    if cell {
        1
    } else {
        0
    }
}

impl AtomicStrategy<ThreadParkToken> {
    /// A strategy whose writer waits as a thread.
    pub fn new_blocking() -> (strategy: Self)
        ensures
            strategy.wf(),
            strategy.protocol() == Protocol::init(),
    {
        Self::with_park_token()
    }
}

impl AtomicStrategy<AsyncParkToken> {
    /// A strategy whose writer waits as a task.
    pub fn new_async() -> (strategy: Self)
        ensures
            strategy.wf(),
            strategy.protocol() == Protocol::init(),
    {
        Self::with_park_token()
    }
}

impl AtomicStrategy<AdaptiveParkToken> {
    /// A strategy whose writer waits either way.
    pub fn new() -> (strategy: Self)
        ensures
            strategy.wf(),
            strategy.protocol() == Protocol::init(),
    {
        Self::with_park_token()
    }
}

impl<P> AtomicStrategy<P> {
    /// Guards that pin `cell`.
    pub closed spec fn readers(&self, cell: bool) -> nat {
        self.num_readers[slot(cell)] as nat
    }

    /// The parity.
    pub closed spec fn parity(&self) -> bool {
        self.which
    }

    /// The token.
    pub closed spec fn parker(&self) -> P {
        self.parker
    }

    /// The token, to register with it or to take what it has recorded.
    pub fn parker_mut(&mut self) -> (parker: &mut P)
        ensures
            *parker == old(self).parker(),
            final(self).parker() == *final(parker),
            final(self).parity() == old(self).parity(),
            final(self).readers(true) == old(self).readers(true),
            final(self).readers(false) == old(self).readers(false),
    {
        &mut self.parker
    }

    /// Carries the swap out if no guard is left on the cell `next_swap`,
    /// which it hands to the writer.
    fn settle(&mut self, next_swap: bool) -> (finished: bool)
        requires
            old(self).readers(old(self).parity()) == 0,
        ensures
            final(self).readers(final(self).parity()) == 0,
            finished == (old(self).readers(next_swap) == 0),
            final(self).readers(true) == old(self).readers(true),
            final(self).readers(false) == old(self).readers(false),
            final(self).parity() == if finished {
                next_swap
            } else {
                old(self).parity()
            },
            final(self).parker() == old(self).parker(),
    {
        let i = slot_of(next_swap);
        let mut num_readers: u64 = self.num_readers[i];
        // lock the number of readers
        let locked = compare_exchange(&mut num_readers, 0, u64::MAX).is_ok();
        if locked {
            self.which = next_swap;
            num_readers = 0;
        }
        self.num_readers[i] = num_readers;
        locked
    }
}

impl<P: Parker> AtomicStrategy<P> {
    #[inline]
    fn with_park_token() -> (strategy: Self)
        ensures
            strategy.wf(),
            strategy.protocol() == Protocol::init(),
    {
        Self { num_readers: [0, 0], which: false, parker: P::fresh() }
    }
}

impl<P: Parker> StrategyModel for AtomicStrategy<P> {
    type WriterId = ();

    type ReaderId = ();

    /// The parity that the swap goes to.
    type Swap = bool;

    type SwapError = ();

    /// The cell that the guard pins.
    type ReadGuard = bool;

    /// No guard ever pins the writer's cell.
    open spec fn wf(&self) -> bool {
        self.readers(self.parity()) == 0
    }

    open spec fn protocol(&self) -> Protocol {
        Protocol {
            swapped: self.parity(),
            held_plain: self.readers(true),
            held_swapped: self.readers(false),
        }
    }

    open spec fn writer_valid(&self, writer: &()) -> bool {
        true
    }

    open spec fn reader_ready(&self, reader: &()) -> bool {
        true
    }

    open spec fn has_room(&self, reader: &()) -> bool {
        self.readers(!self.parity()) < u64::MAX
    }

    open spec fn reader_holds(&self, reader: &(), guard: &bool) -> bool {
        self.readers(*guard) > 0
    }

    open spec fn same_reader(a: &(), b: &()) -> bool {
        true
    }

    open spec fn guard_parity(guard: &bool) -> bool {
        !*guard
    }

    open spec fn swap_valid(&self, writer: &(), swap: &bool) -> bool {
        true
    }

    open spec fn swap_target(&self, swap: &bool) -> bool {
        *swap
    }

    /// Every id is as good as any other.
    open spec fn placeholder(reader: &()) -> bool {
        true
    }

    open spec fn minted(pre: &Self, post: &Self, writer: &()) -> bool {
        &&& post.protocol() == pre.protocol()
        &&& post.parker() == pre.parker()
    }

    open spec fn created(pre: &Self, post: &Self, reader: &()) -> bool {
        &&& post.protocol() == pre.protocol()
        &&& post.parker() == pre.parker()
    }

    open spec fn dropped(pre: &Self, reader: &(), post: &Self) -> bool {
        &&& post.protocol() == pre.protocol()
        &&& post.parker() == pre.parker()
    }

    open spec fn acquired(pre: &Self, pre_reader: &(), post: &Self, post_reader: &(), guard: &bool)
        -> bool {
        &&& *guard == !pre.parity()
        &&& post.protocol() == pre.protocol().acquire()
        &&& post.parker() == pre.parker()
    }

    open spec fn released(pre: &Self, pre_reader: &(), guard: &bool, post: &Self, post_reader: &())
        -> bool {
        &&& post.protocol() == pre.protocol().release(!*guard)
        &&& post.parker() == pre.parker()
    }

    /// A swap always starts, and changes nothing yet.
    open spec fn started(
        pre: &Self,
        pre_writer: &(),
        post: &Self,
        post_writer: &(),
        result: &Result<bool, ()>,
    ) -> bool {
        &&& *result == Ok::<bool, ()>(!pre.parity())
        &&& post.protocol() == pre.protocol()
        &&& post.parker() == pre.parker()
    }

    /// Asking carries the swap out if it can be.
    open spec fn probed(
        pre: &Self,
        pre_writer: &(),
        pre_swap: &bool,
        post: &Self,
        post_writer: &(),
        post_swap: &bool,
    ) -> bool {
        &&& *post_swap == *pre_swap
        &&& post.protocol() == if pre.readers(*pre_swap) == 0 {
            pre.protocol().with_parity(*pre_swap)
        } else {
            pre.protocol()
        }
        &&& post.parker() == pre.parker()
    }
}

impl<P: Parker> Strategy for AtomicStrategy<P> {
    #[inline]
    fn create_writer_id(&mut self) -> (writer: ()) {
        ()
    }

    #[inline]
    fn create_reader_id_from_writer(&mut self, writer: &()) -> (reader: ()) {
        ()
    }

    #[inline]
    fn create_reader_id_from_reader(&mut self, reader: &()) -> (fresh: ()) {
        ()
    }

    #[inline]
    fn create_invalid_reader_id() -> (reader: ()) {
        ()
    }

    #[inline]
    fn drop_reader_id(&mut self, reader: ()) {
    }

    #[inline]
    fn is_swapped_writer(&self, writer: &()) -> (swapped: bool) {
        self.which
    }

    #[inline]
    fn is_swapped(&self, reader: &(), guard: &bool) -> (swapped: bool) {
        !*guard
    }

    #[inline]
    fn try_start_swap(&mut self, writer: &mut ()) -> (result: Result<bool, ()>) {
        let next_swap = !self.is_swapped_writer(writer);
        Ok(next_swap)
    }

    #[inline]
    fn is_swap_finished(&mut self, writer: &mut (), next_swap: &mut bool) -> (finished: bool) {
        self.settle(*next_swap)
    }

    /// Raises the count of the readers' cell. The count that was read is still
    /// the count when it is raised, and the parity that was read is still the
    /// parity when the guard is handed out, so the first try succeeds.
    #[inline]
    fn acquire_read_guard(&mut self, reader: &mut ()) -> (guard: bool) {
        let mut swapped = !self.which;
        let mut num_readers: u64 = self.num_readers[slot_of(swapped)];
        loop
            invariant
                *self == *old(self),
                self.wf(),
                self.has_room(reader),
                swapped == !self.parity(),
                num_readers == self.readers(swapped),
            decreases 0int,
        {
            let next_num_readers: u64 = match num_readers.checked_add(1) {
                Some(next) => next,
                None => {
                    // the writer locked the readers and swapped the buffers
                    // so refresh everything
                    swapped = !self.which;
                    num_readers = self.num_readers[slot_of(swapped)];
                    continue ;
                },
            };
            let i = slot_of(swapped);
            let mut count: u64 = self.num_readers[i];
            let exchanged = compare_exchange(&mut count, num_readers, next_num_readers);
            self.num_readers[i] = count;
            match exchanged {
                Ok(_) => {
                    let current_swapped = !self.which;
                    if current_swapped == swapped {
                        return swapped;
                    }
                    self.num_readers[i] = count - 1;
                },
                Err(current) => {
                    num_readers = current;
                },
            }
        }
    }

    #[inline]
    fn release_read_guard(&mut self, reader: &mut (), guard: bool) {
        let swapped = guard;
        let i = slot_of(swapped);
        let num_readers: u64 = self.num_readers[i];
        self.num_readers[i] = num_readers - 1;
    }
}

impl AsyncStrategy for AtomicStrategy<AsyncParkToken> {
    open spec fn registered(&self) -> bool {
        self.parker().is_waiting()
    }

    #[inline]
    fn register_context(&mut self, writer: &mut (), swap: &mut bool, ctx: &mut Context<'_>) -> (out:
        Poll<()>)
        ensures
            out is Ready <==> old(self).readers(*old(swap)) == 0,
            out is Pending ==> final(self).parker().is_waiting(),
    {
        if self.settle(*swap) {
            Poll::Ready(())
        } else {
            self.parker.set(ctx);
            Poll::Pending
        }
    }
}

impl BlockingStrategy for AtomicStrategy<ThreadParkToken> {
    fn finish_swap(&mut self, writer: &mut (), swap: bool) -> (result: Result<(), bool>) {
        if self.settle(swap) {
            Ok(())
        } else {
            Err(swap)
        }
    }
}

impl AsyncStrategy for AtomicStrategy<AdaptiveParkToken> {
    open spec fn registered(&self) -> bool {
        self.parker().async_token.is_waiting()
    }

    #[inline]
    fn register_context(&mut self, writer: &mut (), swap: &mut bool, ctx: &mut Context<'_>) -> (out:
        Poll<()>)
        ensures
            out is Ready <==> old(self).readers(*old(swap)) == 0,
            out is Pending ==> final(self).parker().async_token.is_waiting(),
    {
        if self.settle(*swap) {
            Poll::Ready(())
        } else {
            self.parker.async_token.set(ctx);
            Poll::Pending
        }
    }
}

impl BlockingStrategy for AtomicStrategy<AdaptiveParkToken> {
    fn finish_swap(&mut self, writer: &mut (), swap: bool) -> (result: Result<(), bool>) {
        if self.settle(swap) {
            Ok(())
        } else {
            Err(swap)
        }
    }
}

} // verus!
