//! A writer that starts a swap early and finishes it late.
//!
//! The idea is to start a swap right after a batch of writes and to finish
//! it right before the next batch. Most readers will have left the retired
//! cell by then, so the writer seldom waits. The delay writer keeps the swap
//! that is under way, and hands out the writer for mutation only when no
//! swap is.
use vstd::prelude::*;
use core::task::{Context, Poll};
use crate::interface::{reader_frame, AsyncStrategy, BlockingStrategy, Strategy, StrategyModel};
use crate::raw::writer::start_succeeds;
use crate::raw::{DoubleBufferData, Writer};

verus! {

/// A batched-writer primitive: a writer and the swap that is under way, if
/// one is.
pub struct DelayWriter<S: StrategyModel> {
    writer: Writer<S>,
    swap: Option<S::Swap>,
}

impl<S: StrategyModel> DelayWriter<S> {
    /// The writer inside.
    pub closed spec fn inner(&self) -> Writer<S> {
        self.writer
    }

    /// The swap that is under way.
    pub closed spec fn pending(&self) -> Option<S::Swap> {
        self.swap
    }

    /// The writer drives `data`; the swap under way is its latest; and
    /// without a swap under way no guard pins the writer's cell.
    pub open spec fn wf<T, Extras>(&self, data: &DoubleBufferData<T, S, Extras>) -> bool {
        &&& self.inner().wf(data)
        &&& match self.pending() {
            Some(swap) => data.strategy().swap_valid(&self.inner().id(), &swap),
            None => data.protocol().write_free(),
        }
    }

    /// Whether the swap under way, if one is, could finish in `data` as it is.
    pub open spec fn settled<T, Extras>(&self, data: &DoubleBufferData<T, S, Extras>) -> bool {
        match self.pending() {
            Some(swap) => data.protocol().settled(data.strategy().swap_target(&swap)),
            None => true,
        }
    }

    /// The parity once the swap under way, if one is, has finished.
    pub open spec fn target<T, Extras>(&self, data: &DoubleBufferData<T, S, Extras>) -> bool {
        match self.pending() {
            Some(swap) => data.strategy().swap_target(&swap),
            None => data.protocol().swapped,
        }
    }

    /// Constructs a delay writer without a swap under way.
    pub fn from_writer(writer: Writer<S>) -> (delay: Self)
        ensures
            delay.inner() == writer,
            delay.pending() is None,
    {
        Self { writer, swap: None }
    }

    /// Whether a swap is under way.
    #[inline]
    pub fn has_swap(&mut self) -> (has: bool)
        ensures
            has == old(self).pending() is Some,
            *final(self) == *old(self),
    {
        self.swap.is_some()
    }

    /// The writer inside, unless a swap is under way.
    pub fn try_into_writer(self) -> (result: Result<Writer<S>, Self>)
        ensures
            match result {
                Ok(writer) => self.pending() is None && writer == self.inner(),
                Err(delay) => self.pending() is Some && delay == self,
            },
    {
        match self.swap {
            Some(_) => Err(self),
            None => Ok(self.writer),
        }
    }

    /// The writer inside, to read through.
    pub fn as_writer(&self) -> (writer: &Writer<S>)
        ensures
            *writer == self.inner(),
    {
        &self.writer
    }
}

impl<S: Strategy> DelayWriter<S> {
    /// Starts a swap unless one is under way: then nothing changes.
    ///
    /// Where the strategy refuses the swap, its error comes back and no swap
    /// is under way.
    pub fn try_start_swap<T, Extras>(&mut self, data: &mut DoubleBufferData<T, S, Extras>) -> (result:
        Result<(), S::SwapError>)
        requires
            old(self).wf(old(data)),
        ensures
            final(self).wf(final(data)),
            final(data).same_values(old(data)),
            reader_frame(&old(data).strategy(), &final(data).strategy()),
            final(data).protocol().held_plain == old(data).protocol().held_plain,
            final(data).protocol().held_swapped == old(data).protocol().held_swapped,
            old(self).pending() is Some ==> {
                &&& result is Ok
                &&& *final(self) == *old(self)
                &&& final(data).strategy() == old(data).strategy()
            },
            old(self).pending() is None ==> match result {
                Ok(_) => {
                    &&& final(self).pending() matches Some(swap)
                    &&& final(data).strategy().swap_target(&swap) == !old(data).protocol().swapped
                    &&& S::started(
                        &old(data).strategy(),
                        &old(self).inner().id(),
                        &final(data).strategy(),
                        &final(self).inner().id(),
                        &Ok(swap),
                    )
                },
                Err(e) => {
                    &&& final(self).pending() is None
                    &&& final(data).protocol() == old(data).protocol()
                    &&& S::started(
                        &old(data).strategy(),
                        &old(self).inner().id(),
                        &final(data).strategy(),
                        &final(self).inner().id(),
                        &Err(e),
                    )
                },
            },
    {
        if self.swap.is_none() {
            match self.writer.try_start_swap(data) {
                Ok(swap) => {
                    self.swap = Some(swap);
                },
                Err(e) => {
                    return Err(e);
                },
            }
        }
        Ok(())
    }

    /// Starts a swap unless one is under way: then nothing changes. The
    /// strategy must not refuse the swap.
    pub fn start_swap<T, Extras>(&mut self, data: &mut DoubleBufferData<T, S, Extras>)
        requires
            old(self).wf(old(data)),
            old(self).pending() is None ==> start_succeeds(
                &old(data).strategy(),
                &old(self).inner().id(),
            ),
        ensures
            final(self).wf(final(data)),
            final(data).same_values(old(data)),
            reader_frame(&old(data).strategy(), &final(data).strategy()),
            final(data).protocol().held_plain == old(data).protocol().held_plain,
            final(data).protocol().held_swapped == old(data).protocol().held_swapped,
            final(self).pending() is Some,
            old(self).pending() is Some ==> {
                &&& *final(self) == *old(self)
                &&& final(data).strategy() == old(data).strategy()
            },
            old(self).pending() is None ==> {
                &&& final(data).strategy().swap_target(&final(self).pending()->Some_0) == !old(
                    data,
                ).protocol().swapped
                &&& S::started(
                    &old(data).strategy(),
                    &old(self).inner().id(),
                    &final(data).strategy(),
                    &final(self).inner().id(),
                    &Ok(final(self).pending()->Some_0),
                )
            },
    {
        let result = self.try_start_swap(data);
        assert(result is Ok);
    }

    /// Whether the writer is not in the middle of a swap: asks about the swap
    /// under way, if one is, and forgets it once it has finished.
    #[inline]
    pub fn is_swap_finished<T, Extras>(&mut self, data: &mut DoubleBufferData<T, S, Extras>) -> (finished:
        bool)
        requires
            old(self).wf(old(data)),
        ensures
            final(self).wf(final(data)),
            final(data).same_values(old(data)),
            reader_frame(&old(data).strategy(), &final(data).strategy()),
            finished == old(self).settled(old(data)),
            finished == final(self).pending() is None,
            final(data).protocol() == if finished {
                old(data).protocol().with_parity(old(self).target(old(data)))
            } else {
                old(data).protocol()
            },
            final(self).target(final(data)) == old(self).target(old(data)),
    {
        match &mut self.swap {
            Some(swap) => {
                let b = self.writer.is_swap_finished(data, swap);
                if b {
                    self.swap = None;
                }
                b
            },
            None => true,
        }
    }

    /// The writer inside, for mutation, unless a swap is under way that has
    /// not finished.
    pub fn get_writer_mut<T, Extras>(&mut self, data: &mut DoubleBufferData<T, S, Extras>) -> (writer:
        Option<&mut Writer<S>>)
        requires
            old(self).wf(old(data)),
        ensures
            final(data).wf(),
            final(data).same_values(old(data)),
            reader_frame(&old(data).strategy(), &final(data).strategy()),
            writer is Some <==> old(self).settled(old(data)),
            final(data).protocol() == if writer is Some {
                old(data).protocol().with_parity(old(self).target(old(data)))
            } else {
                old(data).protocol()
            },
            match writer {
                Some(w) => {
                    &&& w.wf(final(data))
                    &&& final(data).protocol().write_free()
                    &&& final(self).pending() is None
                    &&& final(self).inner() == *final(w)
                },
                None => final(self).wf(final(data)) && final(self).pending() is Some,
            },
    {
        self.is_swap_finished(data);
        match self.swap {
            Some(_) => None,
            None => Some(&mut self.writer),
        }
    }

    /// One poll of the swap under way: `Ready` when no swap is under way any
    /// more. While the answer is `Pending` the swap is kept, so a later call
    /// resumes it wherever this one was left.
    pub fn afinish_swap<T, Extras>(
        &mut self,
        data: &mut DoubleBufferData<T, S, Extras>,
        cx: &mut Context<'_>,
    ) -> (out: Poll<()>) where S: AsyncStrategy
        requires
            old(self).wf(old(data)),
        ensures
            final(self).wf(final(data)),
            final(data).same_values(old(data)),
            reader_frame(&old(data).strategy(), &final(data).strategy()),
            out is Ready <==> old(self).settled(old(data)),
            out is Ready <==> final(self).pending() is None,
            out is Pending ==> final(data).strategy().registered(),
            final(data).protocol() == if out is Ready {
                old(data).protocol().with_parity(old(self).target(old(data)))
            } else {
                old(data).protocol()
            },
            final(self).target(final(data)) == old(self).target(old(data)),
    {
        match &mut self.swap {
            Some(swap) => {
                let mut wait = self.writer.afinish_swap(data, swap);
                let out = wait.poll(cx);
                match out {
                    Poll::Ready(_) => {
                        // the swap is driven to completion, so now it can be forgotten
                        self.swap = None;
                        Poll::Ready(())
                    },
                    Poll::Pending => Poll::Pending,
                }
            },
            None => Poll::Ready(()),
        }
    }

    /// Finishes the swap under way if it can finish, and takes the writer
    /// out. Otherwise the delay writer comes back as it is, with the waker of
    /// `cx` registered.
    pub fn ainto_writer<T, Extras>(
        self,
        data: &mut DoubleBufferData<T, S, Extras>,
        cx: &mut Context<'_>,
    ) -> (result: Result<Writer<S>, Self>) where S: AsyncStrategy
        requires
            self.wf(old(data)),
        ensures
            final(data).same_values(old(data)),
            reader_frame(&old(data).strategy(), &final(data).strategy()),
            result is Ok <==> self.settled(old(data)),
            match result {
                Ok(writer) => {
                    &&& writer.wf(final(data))
                    &&& final(data).protocol().write_free()
                    &&& final(data).protocol() == old(data).protocol().with_parity(
                        self.target(old(data)),
                    )
                },
                Err(delay) => {
                    &&& delay.wf(final(data))
                    &&& delay.pending() is Some
                    &&& final(data).protocol() == old(data).protocol()
                    &&& final(data).strategy().registered()
                },
            },
    {
        let mut delay = self;
        match delay.afinish_swap(data, cx) {
            Poll::Ready(_) => Ok(delay.writer),
            Poll::Pending => Err(delay),
        }
    }
}

impl<S: BlockingStrategy> DelayWriter<S> {
    /// Finishes the swap under way, if one is and it can finish, and hands
    /// out the writer. While a guard still pins the cell that the swap hands
    /// over, nothing is handed out: the caller waits to be woken and asks again.
    pub fn finish_swap<T, Extras>(&mut self, data: &mut DoubleBufferData<T, S, Extras>) -> (writer:
        Option<&mut Writer<S>>)
        requires
            old(self).wf(old(data)),
        ensures
            final(data).wf(),
            final(data).same_values(old(data)),
            reader_frame(&old(data).strategy(), &final(data).strategy()),
            writer is Some <==> old(self).settled(old(data)),
            final(data).protocol() == if writer is Some {
                old(data).protocol().with_parity(old(self).target(old(data)))
            } else {
                old(data).protocol()
            },
            match writer {
                Some(w) => {
                    &&& w.wf(final(data))
                    &&& final(data).protocol().write_free()
                    &&& final(self).pending() is None
                    &&& final(self).inner() == *final(w)
                },
                None => final(self).wf(final(data)) && final(self).pending() is Some,
            },
    {
        if let Some(swap) = self.swap.take() {
            match self.writer.finish_swap(data, swap) {
                Ok(_) => {},
                Err(back) => {
                    self.swap = Some(back);
                    return None;
                },
            }
        }
        Some(&mut self.writer)
    }

    /// Finishes the swap under way if it can finish, and takes the writer
    /// out. Otherwise the delay writer comes back as it is.
    pub fn into_writer<T, Extras>(self, data: &mut DoubleBufferData<T, S, Extras>) -> (result: Result<
        Writer<S>,
        Self,
    >)
        requires
            self.wf(old(data)),
        ensures
            final(data).same_values(old(data)),
            reader_frame(&old(data).strategy(), &final(data).strategy()),
            result is Ok <==> self.settled(old(data)),
            match result {
                Ok(writer) => {
                    &&& writer.wf(final(data))
                    &&& final(data).protocol().write_free()
                    &&& final(data).protocol() == old(data).protocol().with_parity(
                        self.target(old(data)),
                    )
                },
                Err(delay) => {
                    &&& delay.wf(final(data))
                    &&& delay.pending() is Some
                    &&& final(data).protocol() == old(data).protocol()
                },
            },
    {
        let mut delay = self;
        let done = delay.finish_swap(data).is_some();
        if done {
            Ok(delay.writer)
        } else {
            Err(delay)
        }
    }
}

} // verus!
