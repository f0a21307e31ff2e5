//! The writer handle.
use vstd::prelude::*;
use core::task::{Context, Poll};
use crate::interface::{reader_frame, writer_frame, AsyncStrategy, BlockingStrategy, Strategy, StrategyModel};
use super::reader::Reader;
use super::{DoubleBufferData, Split, SplitMut};

verus! {

/// A writer to a double buffer.
pub struct Writer<S: StrategyModel> {
    id: S::WriterId,
}

/// Whatever way a swap started in `pre` goes, it succeeds.
pub open spec fn start_succeeds<S: StrategyModel>(pre: &S, writer: &S::WriterId) -> bool {
    forall|post: S, after: S::WriterId, result: Result<S::Swap, S::SwapError>| #[trigger]
        S::started(pre, writer, &post, &after, &result) ==> result is Ok
}

/// Whatever way a swap started in `pre` goes, if it succeeds then the swap
/// can finish without waiting for a reader.
pub open spec fn start_settles<S: StrategyModel>(pre: &S, writer: &S::WriterId) -> bool {
    forall|post: S, after: S::WriterId, result: Result<S::Swap, S::SwapError>| #[trigger]
        S::started(pre, writer, &post, &after, &result) && result is Ok
            ==> post.protocol().settled(post.swap_target(&result->Ok_0))
}

/// Creates the writer of `data`.
pub fn new_writer<T, S: Strategy, Extras>(data: &mut DoubleBufferData<T, S, Extras>) -> (writer:
    Writer<S>)
    requires
        old(data).wf(),
    ensures
        writer.wf(final(data)),
        final(data).protocol() == old(data).protocol(),
        final(data).same_values(old(data)),
        S::minted(&old(data).strategy(), &final(data).strategy(), &writer.id()),
{
    let id = data.strategy.create_writer_id();
    Writer { id }
}

impl<S: StrategyModel> Writer<S> {
    /// The writer's id.
    pub closed spec fn id(&self) -> S::WriterId {
        self.id
    }

    /// This writer drives `data`.
    pub open spec fn wf<T, Extras>(&self, data: &DoubleBufferData<T, S, Extras>) -> bool {
        &&& data.wf()
        &&& data.strategy().writer_valid(&self.id())
    }
}

impl<S: Strategy> Writer<S> {
    /// Creates the writer of `data`.
    pub fn new<T, Extras>(data: &mut DoubleBufferData<T, S, Extras>) -> (writer: Self)
        requires
            old(data).wf(),
        ensures
            writer.wf(final(data)),
            final(data).protocol() == old(data).protocol(),
            final(data).same_values(old(data)),
            S::minted(&old(data).strategy(), &final(data).strategy(), &writer.id()),
    {
        new_writer(data)
    }

    /// Creates a new reader of the payload that this writer drives.
    pub fn reader<T, Extras>(&self, data: &mut DoubleBufferData<T, S, Extras>) -> (reader: Reader<
        S,
    >)
        requires
            self.wf(old(data)),
        ensures
            self.wf(final(data)),
            reader.wf(final(data)),
            final(data).protocol() == old(data).protocol(),
            final(data).same_values(old(data)),
            writer_frame(&old(data).strategy(), &final(data).strategy()),
            reader_frame(&old(data).strategy(), &final(data).strategy()),
            S::created(&old(data).strategy(), &final(data).strategy(), &reader.id()),
    {
        let id = data.strategy.create_reader_id_from_writer(&self.id);
        Reader::from_raw_parts(id)
    }

    /// The writer's half of the double buffer, shared.
    #[inline]
    pub fn get<'a, T, Extras>(&self, data: &'a DoubleBufferData<T, S, Extras>) -> (value: &'a T)
        requires
            self.wf(data),
        ensures
            *value == data.write_value(),
    {
        self.split(data).write
    }

    /// The writer's half of the double buffer, exclusive. No swap may be
    /// under way: no guard pins the writer's cell.
    #[inline]
    pub fn get_mut<'a, T, Extras>(&mut self, data: &'a mut DoubleBufferData<T, S, Extras>) -> (value:
        &'a mut T)
        requires
            old(self).wf(old(data)),
            old(data).protocol().write_free(),
        ensures
            *final(self) == *old(self),
            *value == old(data).write_value(),
            final(data).strategy() == old(data).strategy(),
            final(data).extras() == old(data).extras(),
            final(data).read_value() == old(data).read_value(),
            final(data).write_value() == *final(value),
    {
        self.split_mut(data).write
    }

    /// The extra data stored beside the buffers.
    #[inline]
    pub fn extras<'a, T, Extras>(&self, data: &'a DoubleBufferData<T, S, Extras>) -> (extras:
        &'a Extras)
        ensures
            *extras == data.extras(),
    {
        &data.extras
    }

    /// Both buffers, shared.
    #[inline]
    pub fn split<'a, T, Extras>(&self, data: &'a DoubleBufferData<T, S, Extras>) -> (split: Split<
        'a,
        T,
        Extras,
    >)
        requires
            self.wf(data),
        ensures
            *split.read == data.read_value(),
            *split.write == data.write_value(),
            *split.extras == data.extras(),
    {
        let swapped = data.strategy.is_swapped_writer(&self.id);
        let (read, write) = data.buffers.get(swapped);
        Split { read, write, extras: &data.extras }
    }

    /// The readers' buffer, shared, and the writer's buffer, exclusive. No
    /// swap may be under way: no guard pins the writer's cell.
    #[inline]
    pub fn split_mut<'a, T, Extras>(
        &mut self,
        data: &'a mut DoubleBufferData<T, S, Extras>,
    ) -> (split: SplitMut<'a, T, Extras>)
        requires
            old(self).wf(old(data)),
            old(data).protocol().write_free(),
        ensures
            *final(self) == *old(self),
            *split.read == old(data).read_value(),
            *split.write == old(data).write_value(),
            *split.extras == old(data).extras(),
            final(data).strategy() == old(data).strategy(),
            final(data).extras() == old(data).extras(),
            final(data).read_value() == old(data).read_value(),
            final(data).write_value() == *final(split.write),
    {
        let swapped = data.strategy.is_swapped_writer(&self.id);
        let (read, write) = data.buffers.get_mut(swapped);
        SplitMut { read, write, extras: &data.extras }
    }

    /// Starts a swap and finishes it. No guard may pin the cell that the
    /// swap would hand to the writer unless the strategy then refuses the swap.
    ///
    /// The swap is refused exactly when the strategy's own step refuses it.
    /// Otherwise the parity is exchanged and the writer's cell is free.
    pub fn try_swap<T, Extras>(&mut self, data: &mut DoubleBufferData<T, S, Extras>) -> (result:
        Result<(), S::SwapError>) where S: BlockingStrategy
        requires
            old(self).wf(old(data)),
            old(data).protocol().write_free(),
            start_settles(&old(data).strategy(), &old(self).id()),
        ensures
            final(self).wf(final(data)),
            final(data).same_values(old(data)),
            reader_frame(&old(data).strategy(), &final(data).strategy()),
            final(data).protocol().write_free(),
            match result {
                Ok(_) => final(data).protocol() == old(data).protocol().toggle(),
                Err(_) => final(data).protocol() == old(data).protocol(),
            },
            exists|mid: S, after: S::WriterId, started: Result<S::Swap, S::SwapError>|
                #![trigger S::started(&old(data).strategy(), &old(self).id(), &mid, &after, &started)]
                {
                    &&& S::started(&old(data).strategy(), &old(self).id(), &mid, &after, &started)
                    &&& match started {
                        Ok(_) => result is Ok,
                        Err(e) => result == Err::<(), S::SwapError>(e),
                    }
                },
    {
        let ghost pre = data.strategy;
        let ghost pre_id = self.id;
        let started = self.try_start_swap(data);
        match started {
            Ok(swap) => {
                let finished = self.finish_swap(data, swap);
                assert(finished is Ok);
                Ok(())
            },
            Err(e) => Err(e),
        }
    }

    /// Starts a swap and finishes it. The strategy must not refuse the swap,
    /// and no reader may pin the cell that the swap hands to the writer.
    pub fn swap<T, Extras>(&mut self, data: &mut DoubleBufferData<T, S, Extras>) where
        S: BlockingStrategy,

        requires
            old(self).wf(old(data)),
            old(data).protocol().write_free(),
            start_succeeds(&old(data).strategy(), &old(self).id()),
            start_settles(&old(data).strategy(), &old(self).id()),
        ensures
            final(self).wf(final(data)),
            final(data).same_values(old(data)),
            reader_frame(&old(data).strategy(), &final(data).strategy()),
            final(data).protocol() == old(data).protocol().toggle(),
            final(data).protocol().write_free(),
    {
        let result = self.try_swap(data);
        assert(result is Ok);
    }

    /// Starts a swap. Until the swap is finished the writer's cell may be
    /// pinned, so [`Writer::get_mut`] and [`Writer::split_mut`] are not to be
    /// called.
    pub fn try_start_swap<T, Extras>(&mut self, data: &mut DoubleBufferData<T, S, Extras>) -> (result:
        Result<S::Swap, S::SwapError>)
        requires
            old(self).wf(old(data)),
            old(data).protocol().write_free(),
        ensures
            final(self).wf(final(data)),
            final(data).same_values(old(data)),
            reader_frame(&old(data).strategy(), &final(data).strategy()),
            final(data).protocol().held_plain == old(data).protocol().held_plain,
            final(data).protocol().held_swapped == old(data).protocol().held_swapped,
            match result {
                Ok(swap) => {
                    &&& final(data).strategy().swap_valid(&final(self).id(), &swap)
                    &&& final(data).strategy().swap_target(&swap) == !old(data).protocol().swapped
                },
                Err(_) => final(data).protocol() == old(data).protocol(),
            },
            S::started(
                &old(data).strategy(),
                &old(self).id(),
                &final(data).strategy(),
                &final(self).id(),
                &result,
            ),
    {
        data.strategy.try_start_swap(&mut self.id)
    }

    /// Whether `swap`, the latest swap of this writer, is finished.
    pub fn is_swap_finished<T, Extras>(
        &mut self,
        data: &mut DoubleBufferData<T, S, Extras>,
        swap: &mut S::Swap,
    ) -> (finished: bool)
        requires
            old(self).wf(old(data)),
            old(data).strategy().swap_valid(&old(self).id(), old(swap)),
        ensures
            final(self).wf(final(data)),
            final(data).same_values(old(data)),
            final(data).strategy().swap_valid(&final(self).id(), final(swap)),
            final(data).strategy().swap_target(final(swap)) == old(data).strategy().swap_target(
                old(swap),
            ),
            reader_frame(&old(data).strategy(), &final(data).strategy()),
            finished == old(data).protocol().settled(old(data).strategy().swap_target(old(swap))),
            final(data).protocol() == if finished {
                old(data).protocol().with_parity(old(data).strategy().swap_target(old(swap)))
            } else {
                old(data).protocol()
            },
            S::probed(
                &old(data).strategy(),
                &old(self).id(),
                old(swap),
                &final(data).strategy(),
                &final(self).id(),
                final(swap),
            ),
    {
        data.strategy.is_swap_finished(&mut self.id, swap)
    }

    /// Finishes `swap`, the latest swap of this writer, if no guard pins the
    /// cell that it hands over. Otherwise the swap comes back: the caller
    /// waits to be woken and asks again.
    pub fn finish_swap<T, Extras>(&mut self, data: &mut DoubleBufferData<T, S, Extras>, swap: S::Swap)
        -> (result: Result<(), S::Swap>) where S: BlockingStrategy
        requires
            old(self).wf(old(data)),
            old(data).strategy().swap_valid(&old(self).id(), &swap),
        ensures
            final(self).wf(final(data)),
            final(data).same_values(old(data)),
            reader_frame(&old(data).strategy(), &final(data).strategy()),
            result is Ok <==> old(data).protocol().settled(
                old(data).strategy().swap_target(&swap),
            ),
            match result {
                Ok(_) => {
                    &&& final(data).protocol() == old(data).protocol().with_parity(
                        old(data).strategy().swap_target(&swap),
                    )
                    &&& final(data).protocol().write_free()
                },
                Err(back) => {
                    &&& final(data).protocol() == old(data).protocol()
                    &&& final(data).strategy().swap_valid(&final(self).id(), &back)
                    &&& final(data).strategy().swap_target(&back) == old(
                        data,
                    ).strategy().swap_target(&swap)
                },
            },
    {
        data.strategy.finish_swap(&mut self.id, swap)
    }

    /// Borrows what one poll of the swap's completion needs.
    pub fn afinish_swap<'a, 's, T, Extras>(
        &'a mut self,
        data: &'a mut DoubleBufferData<T, S, Extras>,
        swap: &'s mut S::Swap,
    ) -> (wait: WaitForSwap<'a, 's, S>) where S: AsyncStrategy
        requires
            old(self).wf(old(data)),
            old(data).strategy().swap_valid(&old(self).id(), old(swap)),
        ensures
            *wait.strategy == old(data).strategy(),
            *wait.swap == *old(swap),
            *wait.id == old(self).id(),
            final(data).strategy() == *final(wait.strategy),
            final(data).same_values(old(data)),
            final(self).id() == *final(wait.id),
            *final(swap) == *final(wait.swap),
    {
        WaitForSwap { strategy: &mut data.strategy, swap, id: &mut self.id }
    }
}

/// One pending completion of a swap: polled until it answers `Ready`.
pub struct WaitForSwap<'a, 's, S: AsyncStrategy> {
    pub strategy: &'a mut S,
    pub swap: &'s mut S::Swap,
    pub id: &'a mut S::WriterId,
}

impl<S: AsyncStrategy> WaitForSwap<'_, '_, S> {
    /// One poll: `Ready` exactly when the swap is finished. Otherwise the
    /// context's waker is handed to the strategy, which wakes it when the
    /// last guard on the writer's cell is given back.
    pub fn poll(&mut self, cx: &mut Context<'_>) -> (out: Poll<()>)
        requires
            old(self).strategy.wf(),
            old(self).strategy.writer_valid(old(self).id),
            old(self).strategy.swap_valid(old(self).id, old(self).swap),
        ensures
            final(self).strategy.wf(),
            final(self).strategy.writer_valid(final(self).id),
            final(self).strategy.swap_valid(final(self).id, final(self).swap),
            final(self).strategy.swap_target(final(self).swap) == old(self).strategy.swap_target(
                old(self).swap,
            ),
            reader_frame(old(self).strategy, final(self).strategy),
            out is Ready <==> old(self).strategy.protocol().settled(
                old(self).strategy.swap_target(old(self).swap),
            ),
            out is Pending ==> final(self).strategy.registered(),
            final(self).strategy.protocol() == if out is Ready {
                old(self).strategy.protocol().with_parity(
                    old(self).strategy.swap_target(old(self).swap),
                )
            } else {
                old(self).strategy.protocol()
            },
            *final(final(self).strategy) == *final(old(self).strategy),
            *final(final(self).swap) == *final(old(self).swap),
            *final(final(self).id) == *final(old(self).id),
    {
        if self.strategy.is_swap_finished(self.id, self.swap) {
            Poll::Ready(())
        } else {
            self.strategy.register_context(self.id, self.swap, cx)
        }
    }
}

} // verus!
