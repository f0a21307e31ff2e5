//! The payload and the raw reader and writer handles.
//!
//! The payload owns the two cells, the strategy and the extras. The handles
//! own nothing but their id: every operation is handed the payload it works
//! on. A handle belongs to the payload that minted its id, which the
//! contracts state as `wf(data)`.
use vstd::prelude::*;
use crate::interface::StrategyModel;
use crate::protocol::Protocol;

pub mod reader;
pub mod writer;

pub use reader::{Reader, ReaderGuard};
pub use writer::{new_writer, WaitForSwap, Writer};

verus! {

/// The payload of a double buffer: the two cells, the strategy, and some
/// extra data for the user.
pub struct DoubleBufferData<T, S, Extras = ()> {
    buffers: DoubleBufferCell<T>,
    pub strategy: S,
    pub extras: Extras,
}

/// The two cells. Under parity `swapped` the writer owns cell `swapped` and
/// the readers see cell `!swapped`.
struct DoubleBufferCell<T> {
    plain: T,
    other: T,
}

impl<T> DoubleBufferCell<T> {
    spec fn cell(&self, index: bool) -> T {
        if index {
            self.other
        } else {
            self.plain
        }
    }

    /// The readers' cell and the writer's cell, in that order.
    fn get(&self, swapped: bool) -> (pair: (&T, &T))
        ensures
            *pair.0 == self.cell(!swapped),
            *pair.1 == self.cell(swapped),
    {
        if swapped {
            (&self.plain, &self.other)
        } else {
            (&self.other, &self.plain)
        }
    }

    /// The readers' cell, shared, and the writer's cell, exclusive.
    fn get_mut(&mut self, swapped: bool) -> (pair: (&T, &mut T))
        ensures
            *pair.0 == old(self).cell(!swapped),
            *pair.1 == old(self).cell(swapped),
            final(self).cell(!swapped) == old(self).cell(!swapped),
            final(self).cell(swapped) == *final(pair.1),
    {
        if swapped {
            (&self.plain, &mut self.other)
        } else {
            (&self.other, &mut self.plain)
        }
    }
}

impl<T, S> DoubleBufferData<T, S> {
    /// A payload whose readers first see `back` while the writer owns `front`.
    #[inline]
    pub fn new(back: T, front: T, strategy: S) -> (data: Self)
        ensures
            data.cell(true) == back,
            data.cell(false) == front,
            data.strategy() == strategy,
            data.extras() == (),
    {
        Self::with_extras(back, front, strategy, ())
    }
}

impl<T, S, Extras> DoubleBufferData<T, S, Extras> {
    /// A payload with the given cells, strategy and extra value. Readers
    /// first see `back` while the writer owns `front`.
    pub fn with_extras(back: T, front: T, strategy: S, extras: Extras) -> (data: Self)
        ensures
            data.cell(true) == back,
            data.cell(false) == front,
            data.strategy() == strategy,
            data.extras() == extras,
    {
        Self { buffers: DoubleBufferCell { plain: front, other: back }, strategy, extras }
    }

    /// The value in cell `index`.
    pub closed spec fn cell(&self, index: bool) -> T {
        self.buffers.cell(index)
    }

    /// The strategy.
    pub closed spec fn strategy(&self) -> S {
        self.strategy
    }

    /// The extra value.
    pub closed spec fn extras(&self) -> Extras {
        self.extras
    }

    /// Both cells and the extras of `self` are those of `other`.
    pub open spec fn same_values(&self, other: &Self) -> bool {
        &&& self.cell(false) == other.cell(false)
        &&& self.cell(true) == other.cell(true)
        &&& self.extras() == other.extras()
    }
}

impl<T, S: StrategyModel, Extras> DoubleBufferData<T, S, Extras> {
    /// The strategy's invariant holds.
    pub open spec fn wf(&self) -> bool {
        self.strategy().wf()
    }

    /// The abstract state of the strategy.
    pub open spec fn protocol(&self) -> Protocol {
        self.strategy().protocol()
    }

    /// The value that the writer owns.
    pub open spec fn write_value(&self) -> T {
        self.cell(self.protocol().swapped)
    }

    /// The value that new guards see.
    pub open spec fn read_value(&self) -> T {
        self.cell(!self.protocol().swapped)
    }
}

/// After a swap that exchanges the parity, a guard taken from then on sees
/// what the writer left in its buffer, and the writer owns what the readers
/// saw before.
pub proof fn lemma_swap_publishes<T, S: StrategyModel, Extras>(
    before: DoubleBufferData<T, S, Extras>,
    after: DoubleBufferData<T, S, Extras>,
)
    requires
        after.same_values(&before),
        after.protocol() == before.protocol().toggle(),
    ensures
        after.read_value() == before.write_value(),
        after.write_value() == before.read_value(),
        after.cell(after.protocol().acquire().read_cell()) == before.write_value(),
{
}

/// Two swaps in a row, each exchanging the parity, bring both sides back to
/// the values they showed at first.
pub proof fn lemma_two_swaps_restore<T, S: StrategyModel, Extras>(
    first: DoubleBufferData<T, S, Extras>,
    second: DoubleBufferData<T, S, Extras>,
    third: DoubleBufferData<T, S, Extras>,
)
    requires
        second.same_values(&first),
        second.protocol() == first.protocol().toggle(),
        third.same_values(&second),
        third.protocol() == second.protocol().toggle(),
    ensures
        third.protocol() == first.protocol(),
        third.read_value() == first.read_value(),
        third.write_value() == first.write_value(),
{
}

/// The values stored in the buffers, returned by [`Writer::split`].
#[non_exhaustive]
pub struct Split<'a, T, Extras> {
    pub read: &'a T,
    pub write: &'a T,
    pub extras: &'a Extras,
}

/// The values stored in the buffers, returned by [`Writer::split_mut`].
#[non_exhaustive]
pub struct SplitMut<'a, T, Extras> {
    pub read: &'a T,
    pub write: &'a mut T,
    pub extras: &'a Extras,
}

} // verus!
