//! The contract between the buffer handles and a synchronization strategy.
use vstd::prelude::*;
use core::task::{Context, Poll};
use crate::protocol::Protocol;

verus! {

/// What a reader's step leaves alone on the writer's side: writer ids and
/// swaps stay valid and keep their target.
pub open spec fn writer_frame<S: StrategyModel>(pre: &S, post: &S) -> bool {
    &&& forall|w: S::WriterId|
        #![trigger pre.writer_valid(&w)]
        #![trigger post.writer_valid(&w)]
        pre.writer_valid(&w) ==> post.writer_valid(&w)
    &&& forall|w: S::WriterId, s: S::Swap|
        #![trigger pre.swap_valid(&w, &s)]
        #![trigger post.swap_valid(&w, &s)]
        pre.swap_valid(&w, &s) ==> post.swap_valid(&w, &s)
    &&& forall|s: S::Swap|
        #![trigger post.swap_target(&s)]
        #![trigger pre.swap_target(&s)]
        post.swap_target(&s) == pre.swap_target(&s)
}

/// What a writer's step leaves alone on the readers' side: every reader that
/// could take a guard still can, with the room it had, and every outstanding
/// guard stays so.
pub open spec fn reader_frame<S: StrategyModel>(pre: &S, post: &S) -> bool {
    &&& forall|r: S::ReaderId|
        #![trigger pre.reader_ready(&r)]
        #![trigger post.reader_ready(&r)]
        pre.reader_ready(&r) ==> post.reader_ready(&r)
    &&& forall|r: S::ReaderId|
        #![trigger pre.has_room(&r)]
        #![trigger post.has_room(&r)]
        pre.reader_ready(&r) && pre.has_room(&r) ==> post.has_room(&r)
    &&& forall|r: S::ReaderId, g: S::ReadGuard|
        #![trigger pre.reader_holds(&r, &g)]
        #![trigger post.reader_holds(&r, &g)]
        pre.reader_holds(&r, &g) ==> post.reader_holds(&r, &g)
}

/// What the step of one reader leaves alone for the others.
pub open spec fn others_frame<S: StrategyModel>(pre: &S, post: &S, reader: &S::ReaderId) -> bool {
    &&& forall|r: S::ReaderId|
        #![trigger pre.reader_ready(&r)]
        #![trigger post.reader_ready(&r)]
        pre.reader_ready(&r) && !S::same_reader(&r, reader) ==> post.reader_ready(&r)
    &&& forall|r: S::ReaderId, g: S::ReadGuard|
        #![trigger pre.reader_holds(&r, &g)]
        #![trigger post.reader_holds(&r, &g)]
        pre.reader_holds(&r, &g) && !S::same_reader(&r, reader) ==> post.reader_holds(&r, &g)
}

/// `core::task::Context`, the context of a task. It is only carried through
/// to where its waker is taken; nothing is said of what is in it.
#[verifier::external_type_specification]
#[verifier::external_body]
pub struct ExContext<'a>(Context<'a>);

/// `core::task::Poll`, as it is defined: `Ready` with a value, or `Pending`.
#[verifier::external_type_specification]
#[verifier::reject_recursive_types(T)]
pub struct ExPoll<T>(Poll<T>);

/// The state that a strategy keeps, as the contracts see it.
///
/// The abstract state is a [`Protocol`]. Besides it a strategy says which
/// ids, guards and swaps it accepts, and gives for each step a relation of
/// its own (`minted`, `created`, `dropped`, `acquired`, `released`,
/// `started`, `probed`) that pins the new state completely.
pub trait StrategyModel: Sized {
    type WriterId;

    type ReaderId;

    type Swap;

    type SwapError;

    type ReadGuard;

    /// The representation invariant.
    spec fn wf(&self) -> bool;

    /// The abstract state.
    spec fn protocol(&self) -> Protocol;

    /// `writer` may drive this strategy.
    spec fn writer_valid(&self, writer: &Self::WriterId) -> bool;

    /// `reader` is registered here and holds no guard.
    spec fn reader_ready(&self, reader: &Self::ReaderId) -> bool;

    /// The counters have room for one more guard of `reader`. This is the
    /// machine's limit, not the protocol's.
    spec fn has_room(&self, reader: &Self::ReaderId) -> bool;

    /// `guard` is the outstanding guard of `reader`.
    spec fn reader_holds(&self, reader: &Self::ReaderId, guard: &Self::ReadGuard) -> bool;

    /// The two ids name one reader.
    spec fn same_reader(a: &Self::ReaderId, b: &Self::ReaderId) -> bool;

    /// The parity under which `guard` was taken; it pins cell `!parity`.
    spec fn guard_parity(guard: &Self::ReadGuard) -> bool;

    /// `swap` is the latest swap that `writer` started, not yet consumed.
    spec fn swap_valid(&self, writer: &Self::WriterId, swap: &Self::Swap) -> bool;

    /// The parity that holds once `swap` is finished.
    spec fn swap_target(&self, swap: &Self::Swap) -> bool;

    /// `reader` is the placeholder id, such as a reader gets that cannot
    /// reach its payload.
    spec fn placeholder(reader: &Self::ReaderId) -> bool;

    /// Exact effect of minting the writer id.
    spec fn minted(pre: &Self, post: &Self, writer: &Self::WriterId) -> bool;

    /// Exact effect of minting a reader id.
    spec fn created(pre: &Self, post: &Self, reader: &Self::ReaderId) -> bool;

    /// Exact effect of taking a guard.
    spec fn acquired(
        pre: &Self,
        pre_reader: &Self::ReaderId,
        post: &Self,
        post_reader: &Self::ReaderId,
        guard: &Self::ReadGuard,
    ) -> bool;

    /// Exact effect of giving a guard back.
    spec fn released(
        pre: &Self,
        pre_reader: &Self::ReaderId,
        guard: &Self::ReadGuard,
        post: &Self,
        post_reader: &Self::ReaderId,
    ) -> bool;

    /// Exact effect of taking leave of a reader.
    spec fn dropped(pre: &Self, reader: &Self::ReaderId, post: &Self) -> bool;

    /// Exact effect of starting a swap.
    spec fn started(
        pre: &Self,
        pre_writer: &Self::WriterId,
        post: &Self,
        post_writer: &Self::WriterId,
        result: &Result<Self::Swap, Self::SwapError>,
    ) -> bool;

    /// Exact effect of asking whether a swap is finished.
    spec fn probed(
        pre: &Self,
        pre_writer: &Self::WriterId,
        pre_swap: &Self::Swap,
        post: &Self,
        post_writer: &Self::WriterId,
        post_swap: &Self::Swap,
    ) -> bool;
}

/// The synchronization strategy of a double buffer.
///
/// A strategy decides which cell a new guard pins and when a swap is
/// finished. The universal rule is in the contract of
/// [`Strategy::is_swap_finished`]: a swap is reported finished exactly when
/// no guard pins the cell that it hands to the writer.
///
/// Each step has two layers of contract. The clauses written here hold of
/// every strategy; the last clause of each step is the strategy's own exact
/// relation from [`StrategyModel`].
pub trait Strategy: StrategyModel {
    /// Mints the writer id. Ids minted earlier, of writers and of readers,
    /// are no longer known to be valid.
    fn create_writer_id(&mut self) -> (writer: Self::WriterId)
        requires
            old(self).wf(),
        ensures
            final(self).wf(),
            final(self).protocol() == old(self).protocol(),
            final(self).writer_valid(&writer),
            Self::minted(old(self), final(self), &writer),
    ;

    /// Mints the id of a new reader.
    fn create_reader_id_from_writer(&mut self, writer: &Self::WriterId) -> (reader: Self::ReaderId)
        requires
            old(self).wf(),
            old(self).writer_valid(writer),
        ensures
            final(self).wf(),
            final(self).protocol() == old(self).protocol(),
            final(self).reader_ready(&reader),
            writer_frame(old(self), final(self)),
            reader_frame(old(self), final(self)),
            Self::created(old(self), final(self), &reader),
    ;

    /// Mints the id of a new reader from the id of a registered one.
    fn create_reader_id_from_reader(&mut self, reader: &Self::ReaderId) -> (fresh: Self::ReaderId)
        requires
            old(self).wf(),
        ensures
            final(self).wf(),
            final(self).protocol() == old(self).protocol(),
            final(self).reader_ready(&fresh),
            writer_frame(old(self), final(self)),
            reader_frame(old(self), final(self)),
            Self::created(old(self), final(self), &fresh),
    ;

    /// A placeholder id for a reader that will never read.
    fn create_invalid_reader_id() -> (reader: Self::ReaderId)
        ensures
            Self::placeholder(&reader),
    ;

    /// Takes leave of a reader that holds no guard. What the strategy kept
    /// for it may serve another reader from now on.
    fn drop_reader_id(&mut self, reader: Self::ReaderId)
        requires
            old(self).wf(),
            old(self).reader_ready(&reader),
        ensures
            final(self).wf(),
            final(self).protocol() == old(self).protocol(),
            writer_frame(old(self), final(self)),
            others_frame(old(self), final(self), &reader),
            Self::dropped(old(self), &reader, final(self)),
    ;

    /// The parity as the writer sees it.
    fn is_swapped_writer(&self, writer: &Self::WriterId) -> (swapped: bool)
        requires
            self.wf(),
            self.writer_valid(writer),
        ensures
            swapped == self.protocol().swapped,
    ;

    /// The parity under which `guard` was taken: the guard pins the other cell.
    fn is_swapped(&self, reader: &Self::ReaderId, guard: &Self::ReadGuard) -> (swapped: bool)
        requires
            self.wf(),
            self.reader_holds(reader, guard),
        ensures
            swapped == Self::guard_parity(guard),
    ;

    /// Begins a swap. The previous swap must have finished.
    ///
    /// On success the swap is valid and its target is the parity opposite to
    /// the one before. Guards are untouched, and the parity either toggles
    /// now or stays until the swap completes.
    fn try_start_swap(&mut self, writer: &mut Self::WriterId) -> (result: Result<
        Self::Swap,
        Self::SwapError,
    >)
        requires
            old(self).wf(),
            old(self).writer_valid(old(writer)),
            old(self).protocol().write_free(),
        ensures
            final(self).wf(),
            final(self).writer_valid(final(writer)),
            reader_frame(old(self), final(self)),
            final(self).protocol().held_plain == old(self).protocol().held_plain,
            final(self).protocol().held_swapped == old(self).protocol().held_swapped,
            match result {
                Ok(swap) => {
                    &&& final(self).swap_valid(final(writer), &swap)
                    &&& final(self).swap_target(&swap) == !old(self).protocol().swapped
                },
                Err(_) => final(self).protocol() == old(self).protocol(),
            },
            Self::started(old(self), old(writer), final(self), final(writer), &result),
    ;

    /// Whether the swap is finished: whether no guard still pins the cell
    /// that the swap hands to the writer. Once it answers `true` the parity is
    /// the swap's target.
    fn is_swap_finished(&mut self, writer: &mut Self::WriterId, swap: &mut Self::Swap) -> (finished:
        bool)
        requires
            old(self).wf(),
            old(self).writer_valid(old(writer)),
            old(self).swap_valid(old(writer), old(swap)),
        ensures
            final(self).wf(),
            final(self).writer_valid(final(writer)),
            final(self).swap_valid(final(writer), final(swap)),
            final(self).swap_target(final(swap)) == old(self).swap_target(old(swap)),
            reader_frame(old(self), final(self)),
            finished == old(self).protocol().settled(old(self).swap_target(old(swap))),
            final(self).protocol() == if finished {
                old(self).protocol().with_parity(old(self).swap_target(old(swap)))
            } else {
                old(self).protocol()
            },
            Self::probed(old(self), old(writer), old(swap), final(self), final(writer), final(swap)),
    ;

    /// Pins the readers' cell for `reader`.
    fn acquire_read_guard(&mut self, reader: &mut Self::ReaderId) -> (guard: Self::ReadGuard)
        requires
            old(self).wf(),
            old(self).reader_ready(old(reader)),
            old(self).has_room(old(reader)),
        ensures
            final(self).wf(),
            final(self).protocol() == old(self).protocol().acquire(),
            Self::guard_parity(&guard) == old(self).protocol().swapped,
            final(self).reader_holds(final(reader), &guard),
            writer_frame(old(self), final(self)),
            others_frame(old(self), final(self), old(reader)),
            Self::acquired(old(self), old(reader), final(self), final(reader), &guard),
    ;

    /// Unpins the cell that `guard` pinned.
    fn release_read_guard(&mut self, reader: &mut Self::ReaderId, guard: Self::ReadGuard)
        requires
            old(self).wf(),
            old(self).reader_holds(old(reader), &guard),
        ensures
            final(self).wf(),
            final(self).protocol() == old(self).protocol().release(Self::guard_parity(&guard)),
            old(self).protocol().held(Self::guard_parity(&guard)) > 0,
            final(self).reader_ready(final(reader)),
            writer_frame(old(self), final(self)),
            others_frame(old(self), final(self), old(reader)),
            Self::released(old(self), old(reader), &guard, final(self), final(reader)),
    ;
}

/// A strategy whose swaps can be awaited.
pub trait AsyncStrategy: Strategy {
    /// A waker is registered, to be woken when a guard on the writer's cell
    /// is given back.
    spec fn registered(&self) -> bool;

    /// Registers the context's waker with a swap that is under way, to be
    /// woken when a guard on the writer's cell is given back. It is called
    /// after [`Strategy::is_swap_finished`] has answered `false`. A strategy
    /// may look again: it answers `Ready` only if the swap is finished, and
    /// then the abstract state changes as it would there.
    fn register_context(
        &mut self,
        writer: &mut Self::WriterId,
        swap: &mut Self::Swap,
        ctx: &mut Context<'_>,
    ) -> (out: Poll<()>)
        requires
            old(self).wf(),
            old(self).writer_valid(old(writer)),
            old(self).swap_valid(old(writer), old(swap)),
        ensures
            final(self).wf(),
            final(self).writer_valid(final(writer)),
            final(self).swap_valid(final(writer), final(swap)),
            final(self).swap_target(final(swap)) == old(self).swap_target(old(swap)),
            reader_frame(old(self), final(self)),
            out is Ready ==> old(self).protocol().settled(old(self).swap_target(old(swap))),
            out is Pending ==> final(self).registered(),
            final(self).protocol() == if out is Ready {
                old(self).protocol().with_parity(old(self).swap_target(old(swap)))
            } else {
                old(self).protocol()
            },
    ;
}

/// A strategy whose swaps can be completed by a thread that waits.
pub trait BlockingStrategy: Strategy {
    /// Completes the swap if no guard pins the cell that it hands to the
    /// writer; on a payload without readers that is always so. Otherwise the
    /// swap comes back: the caller waits to be woken and asks again.
    fn finish_swap(&mut self, writer: &mut Self::WriterId, swap: Self::Swap) -> (result: Result<
        (),
        Self::Swap,
    >)
        requires
            old(self).wf(),
            old(self).writer_valid(old(writer)),
            old(self).swap_valid(old(writer), &swap),
        ensures
            final(self).wf(),
            final(self).writer_valid(final(writer)),
            reader_frame(old(self), final(self)),
            result is Ok <==> old(self).protocol().settled(old(self).swap_target(&swap)),
            match result {
                Ok(_) => {
                    &&& final(self).protocol() == old(self).protocol().with_parity(
                        old(self).swap_target(&swap),
                    )
                    &&& final(self).protocol().write_free()
                },
                Err(back) => {
                    &&& final(self).protocol() == old(self).protocol()
                    &&& final(self).swap_valid(final(writer), &back)
                    &&& final(self).swap_target(&back) == old(self).swap_target(&swap)
                },
            },
    ;
}

} // verus!
