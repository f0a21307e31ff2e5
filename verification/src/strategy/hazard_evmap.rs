//! The epoch strategy with the readers' epochs in a pool.
//!
//! The protocol is that of [`evmap`](super::evmap). The epochs live in the
//! nodes of a [`Hazard`] pool, and since a node never moves, the writer's
//! snapshot of an epoch lives beside the epoch itself. A reader keeps a
//! guard on its node and lets go of the lock whenever it gives a read guard
//! back; when it comes back it tries its old node first.
use vstd::prelude::*;
use core::ops::Range;
use core::task::{Context, Poll};
use crate::interface::{AsyncStrategy, BlockingStrategy, Strategy, StrategyModel};
use crate::protocol::{
    lemma_tally_positive,
    lemma_tally_push,
    lemma_tally_update,
    lemma_tally_zero,
    protocol_of,
    tally,
    Protocol,
};
use super::atomic::park_token::{AdaptiveParkToken, AsyncParkToken, Parker, ThreadParkToken};
use super::evmap::{
    lemma_growth_keeps_snapshot,
    lemma_step_keeps_snapshot,
    pin_of,
    pins_of,
    EvMapState,
};
use super::hazard::{precedes, Hazard, RawHazardGuard};

verus! {

/// The number of nodes in a chunk of the pool.
pub const CHUNK: usize = 4;

pub struct HazardEvMapStrategy<P: Parker> {
    is_swapped: bool,
    epochs: Hazard<Epoch, 4>,
    parker: P,
    /// For each node, the parity under which the guard of its reader was
    /// taken; it means something only while the epoch is odd.
    taken: Ghost<Seq<bool>>,
}

/// The epoch of a reader and the writer's latest snapshot of it.
pub struct Epoch {
    pub current: usize,
    pub last: usize,
}

impl Epoch {
    pub fn new() -> (epoch: Self)
        ensures
            epoch == (Epoch { current: 0, last: 0 }),
    {
        Self { current: 0, last: 0 }
    }
}

#[non_exhaustive]
pub struct WriterId;

pub struct ReaderId {
    id: Option<RawHazardGuard<Epoch, 4>>,
}

pub struct Swap {
    epochs: Range<usize>,
}

/// The state of a [`HazardEvMapStrategy`] as the contracts see it.
pub struct HazardEvMapState<P> {
    /// The parity.
    pub swapped: bool,
    /// The epoch and the snapshot of every node.
    pub epochs: Seq<Epoch>,
    /// The lock of every node: whether a reader has the node.
    pub locks: Seq<bool>,
    /// For each node, the parity under which its reader's guard was taken.
    pub taken: Seq<bool>,
    pub parker: P,
}

impl<P> HazardEvMapState<P> {
    /// The epoch of every node.
    pub open spec fn currents(self) -> Seq<usize> {
        self.epochs.map_values(|epoch: Epoch| epoch.current)
    }

    /// The writer's snapshot of every node.
    pub open spec fn lasts(self) -> Seq<usize> {
        self.epochs.map_values(|epoch: Epoch| epoch.last)
    }

    /// The parity, the epochs and the guards, as the epoch strategy has them.
    pub open spec fn base(self) -> EvMapState {
        EvMapState { swapped: self.swapped, epochs: self.currents(), taken: self.taken }
    }

    /// What the reader of each node holds.
    pub open spec fn pins(self) -> Seq<Option<bool>> {
        self.base().pins()
    }

    /// A node that no reader has is idle, and its epoch has room for a guard
    /// to be taken and given back.
    pub open spec fn wf(self) -> bool {
        &&& self.base().wf()
        &&& self.locks.len() == self.epochs.len()
        &&& forall|i: int|
            0 <= i < self.epochs.len() && !#[trigger] self.locks[i] ==> self.epochs[i].current % 2
                == 0 && self.epochs[i].current + 2 <= usize::MAX
    }

    /// The node at `place` is taken for a reader: it was free, or it is the
    /// first node of a new chunk. All other nodes are as they were.
    pub open spec fn claimed(self, post: Self, place: int) -> bool {
        &&& post.swapped == self.swapped
        &&& post.parker == self.parker
        &&& post.taken.len() == post.epochs.len()
        &&& post.taken.take(self.taken.len() as int) == self.taken
        &&& if place < self.epochs.len() {
            &&& 0 <= place
            &&& !self.locks[place]
            &&& forall|other: int|
                0 <= other < self.epochs.len() && precedes(CHUNK as int, other, place)
                    ==> self.locks[other]
            &&& post.epochs == self.epochs
            &&& post.locks == self.locks.update(place, true)
        } else {
            &&& place == self.epochs.len()
            &&& forall|other: int| 0 <= other < self.epochs.len() ==> self.locks[other]
            &&& post.epochs == self.epochs + Seq::new(
                CHUNK as nat,
                |i: int| Epoch { current: 0, last: 0 },
            )
            &&& post.locks == self.locks + Seq::new(CHUNK as nat, |i: int| i == 0)
        }
    }
}

impl ReaderId {
    /// The guard on the reader's node, if the reader has had a node.
    pub closed spec fn id(&self) -> Option<RawHazardGuard<Epoch, 4>> {
        self.id
    }

    /// The reader holds the lock of the node at `place`.
    pub open spec fn has(&self, place: int) -> bool {
        self.id() matches Some(guard) && !guard.is_released() && guard.place() == place
    }
}

impl Swap {
    /// The first node still to be looked at.
    pub closed spec fn start(&self) -> int {
        self.epochs.start as int
    }

    /// One past the last node that the swap has to wait for.
    pub closed spec fn end(&self) -> int {
        self.epochs.end as int
    }
}

impl HazardEvMapStrategy<AsyncParkToken> {
    /// A strategy whose writer waits as a task.
    pub fn new_async() -> (strategy: Self)
        ensures
            strategy.wf(),
            strategy.protocol() == Protocol::init(),
            strategy.state().epochs.len() == 0,
    {
        Self::with_parker()
    }
}

impl HazardEvMapStrategy<ThreadParkToken> {
    /// A strategy whose writer waits as a thread.
    pub fn new_blocking() -> (strategy: Self)
        ensures
            strategy.wf(),
            strategy.protocol() == Protocol::init(),
            strategy.state().epochs.len() == 0,
    {
        Self::with_parker()
    }
}

impl HazardEvMapStrategy<AdaptiveParkToken> {
    /// A strategy whose writer waits either way.
    pub fn new() -> (strategy: Self)
        ensures
            strategy.wf(),
            strategy.protocol() == Protocol::init(),
            strategy.state().epochs.len() == 0,
    {
        Self::with_parker()
    }
}

impl<P: Parker> HazardEvMapStrategy<P> {
    /// The state as the contracts see it.
    pub closed spec fn state(&self) -> HazardEvMapState<P> {
        HazardEvMapState {
            swapped: self.is_swapped,
            epochs: self.epochs.values(),
            locks: self.epochs.locks(),
            taken: self.taken@,
            parker: self.parker,
        }
    }

    /// The pool is in order.
    pub closed spec fn pool_in_order(&self) -> bool {
        self.epochs.wf()
    }

    /// The reader takes its next guard on the node that it has had: it
    /// still has the node, or nobody has taken the node since.
    pub open spec fn keeps_node(&self, reader: &ReaderId) -> bool {
        reader.id() matches Some(id) && (!id.is_released() || !self.state().locks[id.place()])
    }

    /// The token, to register with it or to take what it has recorded.
    pub fn parker_mut(&mut self) -> (parker: &mut P)
        ensures
            *parker == old(self).state().parker,
            final(self).state() == (HazardEvMapState {
                parker: *final(parker),
                ..old(self).state()
            }),
            final(self).pool_in_order() == old(self).pool_in_order(),
    {
        &mut self.parker
    }

    fn with_parker() -> (strategy: Self)
        ensures
            strategy.wf(),
            strategy.protocol() == Protocol::init(),
            strategy.state().epochs.len() == 0,
    {
        let strategy = Self {
            is_swapped: false,
            epochs: Hazard::new(),
            parker: P::fresh(),
            taken: Ghost(Seq::empty()),
        };
        assert(strategy.state().pins() =~= Seq::empty());
        strategy
    }

    /// Takes a node for a reader: a free one, or the first of a new chunk.
    fn claim(&mut self) -> (guard: RawHazardGuard<Epoch, 4>)
        requires
            old(self).wf(),
        ensures
            final(self).wf(),
            final(self).protocol() == old(self).protocol(),
            !guard.is_released(),
            0 <= guard.place() < final(self).state().epochs.len(),
            final(self).state().epochs[guard.place()].current % 2 == 0,
            final(self).state().epochs[guard.place()].current + 2 <= usize::MAX,
            old(self).state().claimed(final(self).state(), guard.place()),
            forall|i: int|
                0 <= i < old(self).state().epochs.len() ==> final(self).state().epochs[i] == old(self).state().epochs[i] && final(self).state().taken[i] == old(self).state().taken[i],
            forall|i: int|
                0 <= i < old(self).state().epochs.len() && i != guard.place() ==> final(self).state().locks[i] == old(self).state().locks[i],
            forall|i: int|
                old(self).state().epochs.len() <= i < final(self).state().epochs.len() ==> final(self).state().epochs[i] == (Epoch { current: 0, last: 0 }) && (i != guard.place()
                    ==> !final(self).state().locks[i]),
            guard.place() < old(self).state().epochs.len() ==> !old(self).state().locks[guard.place()],
            crate::interface::writer_frame(old(self), final(self)),
    {
        let ghost pre = self.state();
        let make = || -> (made: Epoch)
            ensures
                made == (Epoch { current: 0, last: 0 }),
            { Epoch::new() };
        let guard = self.epochs.get_or_insert_with(make);
        let ghost grown = self.epochs.values().len() - pre.epochs.len();
        self.taken = Ghost(self.taken@ + Seq::new(grown as nat, |i: int| false));
        proof {
            let post = self.state();
            let n = pre.epochs.len() as int;
            let fresh = Epoch { current: 0, last: 0 };
            assert(post.epochs.take(n) == pre.epochs);
            assert forall|i: int| 0 <= i < n implies post.epochs[i] == pre.epochs[i] by {
                assert(post.epochs.take(n)[i] == post.epochs[i]);
            }
            assert forall|i: int| n <= i < post.epochs.len() implies post.epochs[i] == fresh by {}
            assert forall|i: int| 0 <= i < post.epochs.len() implies post.currents()[i]
                == post.epochs[i].current by {}
            assert forall|i: int| 0 <= i < n implies pre.currents()[i] == pre.epochs[i].current by {}
            assert forall|i: int|
                0 <= i < post.epochs.len() && #[trigger] post.base().epochs[i] % 2
                    == 1 implies post.base().epochs[i] < usize::MAX by {
                if i < n {
                    assert(pre.base().epochs[i] == post.base().epochs[i]);
                    assert(pre.base().epochs[i] % 2 == 1);
                }
            }
            if exists|place: int| 0 <= place < n && !pre.locks[place] {
                assert(post.taken =~= pre.taken);
                assert(post.pins() =~= pre.pins());
                assert(post.taken.take(n) =~= pre.taken);
            } else {
                assert(post.locks =~= pre.locks + Seq::new(CHUNK as nat, |i: int| i == 0));
                assert(post.epochs =~= pre.epochs + Seq::new(CHUNK as nat, |i: int| fresh)) by {
                    assert(post.epochs.take(n) == pre.epochs);
                    assert forall|i: int| 0 <= i < post.epochs.len() implies post.epochs[i] == (
                    pre.epochs + Seq::new(CHUNK as nat, |i: int| fresh))[i] by {
                        if i < n {
                            assert(post.epochs.take(n)[i] == post.epochs[i]);
                        }
                    }
                }
                assert(post.taken.take(n) =~= pre.taken);
                let added = Seq::new(CHUNK as nat, |i: int| None::<bool>);
                assert(post.pins() =~= pre.pins() + added);
                assert(pre.pins() + added =~= pre.pins().push(None).push(None).push(None).push(None));
                lemma_tally_push(pre.pins(), None, true);
                lemma_tally_push(pre.pins().push(None), None, true);
                lemma_tally_push(pre.pins().push(None).push(None), None, true);
                lemma_tally_push(pre.pins().push(None).push(None).push(None), None, true);
                lemma_tally_push(pre.pins(), None, false);
                lemma_tally_push(pre.pins().push(None), None, false);
                lemma_tally_push(pre.pins().push(None).push(None), None, false);
                lemma_tally_push(pre.pins().push(None).push(None).push(None), None, false);
            }
            assert forall|w: WriterId, s: Swap| #[trigger]
                old(self).swap_valid(&w, &s) implies self.swap_valid(&w, &s) by {
                assert(post.lasts().take(n) =~= pre.lasts());
                assert forall|j: int| s.start() <= j < s.end() implies post.lasts()[j]
                    == pre.lasts()[j] by {}
                lemma_growth_keeps_snapshot(pre.base(), post.base(), pre.lasts(), s.start(), s.end());
                assert(post.base().snapshot_valid(post.lasts(), s.start(), s.end()));
            }
        }
        guard
    }

    fn create_reader_id(&mut self) -> (reader: ReaderId)
        requires
            old(self).wf(),
        ensures
            final(self).wf(),
            final(self).protocol() == old(self).protocol(),
            final(self).reader_ready(&reader),
            crate::interface::writer_frame(old(self), final(self)),
            crate::interface::reader_frame(old(self), final(self)),
            Self::created(old(self), final(self), &reader),
    {
        let id = self.claim();
        ReaderId { id: Some(id) }
    }

    /// Whether every node of the swap whose snapshot is odd has moved on.
    /// Where one has not, the swap remembers to begin with that node next time.
    fn probe(&self, swap: &mut Swap) -> (finished: bool)
        requires
            self.wf(),
            self.state().base().snapshot_valid(
                self.state().lasts(),
                old(swap).start(),
                old(swap).end(),
            ),
        ensures
            self.state().base().snapshot_valid(
                self.state().lasts(),
                final(swap).start(),
                final(swap).end(),
            ),
            finished == self.protocol().settled(self.state().swapped),
            final(swap).end() == old(swap).end(),
            old(swap).start() <= final(swap).start(),
            finished ==> final(swap).start() == old(swap).start(),
            !finished ==> self.state().base().residual(final(swap).start()),
            forall|j: int|
                old(swap).start() <= j < final(swap).start() ==> !self.state().base().residual(j),
    {
        let ghost state = self.state().base();
        let ghost lasts = self.state().lasts();
        let start = swap.epochs.start;
        let end = swap.epochs.end;
        let mut i: usize = 0;
        while i < end - start
            invariant
                start == old(swap).start(),
                end == old(swap).end(),
                *swap == *old(swap),
                state == self.state().base(),
                lasts == self.state().lasts(),
                self.wf(),
                state.snapshot_valid(lasts, start as int, end as int),
                i <= end - start,
                forall|j: int| start <= j < start + i ==> !state.residual(j),
            decreases end - start - i,
        {
            let epoch = self.epochs.value(start + i);
            let last_epoch = epoch.last;
            let now = epoch.current;
            proof {
                assert(lasts[start + i] == last_epoch);
                assert(state.epochs[start + i] == now);
            }
            // a reader that was not reading when the swap began cannot be in the writer's cell
            if last_epoch % 2 == 1 && now == last_epoch {
                swap.epochs.start = start + i;
                proof {
                    assert(state.residual(start + i));
                    lemma_tally_positive(state.pins(), start + i, !state.swapped);
                }
                return false;
            }
            i += 1;
        }
        proof {
            assert forall|j: int| 0 <= j < state.pins().len() implies state.pins()[j] != Some(
                !state.swapped,
            ) by {
                assert(!state.residual(j));
            }
            lemma_tally_zero(state.pins(), !state.swapped);
        }
        true
    }
}

/// A reader that holds a guard cannot take a second one: holding and being
/// ready exclude each other.
pub proof fn lemma_one_guard_per_reader<P: Parker>(
    strategy: HazardEvMapStrategy<P>,
    reader: ReaderId,
    guard: bool,
)
    ensures
        !(strategy.reader_ready(&reader) && strategy.reader_holds(&reader, &guard)),
{
}

impl<P: Parker> StrategyModel for HazardEvMapStrategy<P> {
    type WriterId = WriterId;

    type ReaderId = ReaderId;

    type Swap = Swap;

    type SwapError = core::convert::Infallible;

    type ReadGuard = bool;

    open spec fn wf(&self) -> bool {
        &&& self.pool_in_order()
        &&& self.state().wf()
    }

    open spec fn protocol(&self) -> Protocol {
        protocol_of(self.state().swapped, self.state().pins())
    }

    open spec fn writer_valid(&self, writer: &WriterId) -> bool {
        true
    }

    /// A reader without a node is ready, and so is one that has let go of
    /// its node; one that has its node is ready while its epoch is even, and
    /// then the epoch has room.
    open spec fn reader_ready(&self, reader: &ReaderId) -> bool {
        reader.id() matches Some(guard) ==> {
            &&& 0 <= guard.place() < self.state().epochs.len()
            &&& !guard.is_released() ==> self.state().locks[guard.place()]
                && self.state().epochs[guard.place()].current % 2 == 0
                && self.state().epochs[guard.place()].current + 2 <= usize::MAX
        }
    }

    /// There is always room: a node whose epoch is used up is given up, and
    /// its reader takes another.
    open spec fn has_room(&self, reader: &ReaderId) -> bool {
        true
    }

    open spec fn reader_holds(&self, reader: &ReaderId, guard: &bool) -> bool {
        &&& reader.id() matches Some(id)
        &&& !id.is_released()
        &&& 0 <= id.place() < self.state().epochs.len()
        &&& self.state().locks[id.place()]
        &&& self.state().epochs[id.place()].current % 2 == 1
        &&& self.state().taken[id.place()] == *guard
    }

    /// Two readers are one if they have the same node.
    open spec fn same_reader(a: &ReaderId, b: &ReaderId) -> bool {
        exists|place: int| a.has(place) && b.has(place)
    }

    open spec fn guard_parity(guard: &bool) -> bool {
        *guard
    }

    open spec fn swap_valid(&self, writer: &WriterId, swap: &Swap) -> bool {
        self.state().base().snapshot_valid(self.state().lasts(), swap.start(), swap.end())
    }

    open spec fn swap_target(&self, swap: &Swap) -> bool {
        self.state().swapped
    }

    /// The placeholder has no node; it takes one if it ever reads.
    open spec fn placeholder(reader: &ReaderId) -> bool {
        reader.id() is None
    }

    /// Minting the writer id changes nothing.
    open spec fn minted(pre: &Self, post: &Self, writer: &WriterId) -> bool {
        post.state() == pre.state()
    }

    /// The new reader has a node of its own, idle.
    open spec fn created(pre: &Self, post: &Self, reader: &ReaderId) -> bool {
        &&& reader.id() matches Some(guard)
        &&& !guard.is_released()
        &&& pre.state().claimed(post.state(), guard.place())
    }

    /// The reader lets go of its node, which can then serve another reader.
    open spec fn dropped(pre: &Self, reader: &ReaderId, post: &Self) -> bool {
        post.state() == (HazardEvMapState {
            locks: if reader.id() is Some && !reader.id()->Some_0.is_released() {
                pre.state().locks.update(reader.id()->Some_0.place(), false)
            } else {
                pre.state().locks
            },
            ..pre.state()
        })
    }

    /// The reader has a node: the one it had, if it still had it or could
    /// take it again, or else a node taken now. The node's epoch goes up by
    /// one; the guard is the parity.
    open spec fn acquired(
        pre: &Self,
        pre_reader: &ReaderId,
        post: &Self,
        post_reader: &ReaderId,
        guard: &bool,
    ) -> bool {
        &&& post_reader.id() matches Some(id)
        &&& !id.is_released()
        &&& 0 <= id.place() < post.state().epochs.len()
        &&& *guard == pre.state().swapped
        &&& post.state().swapped == pre.state().swapped
        &&& post.state().parker == pre.state().parker
        &&& post.state().locks[id.place()]
        &&& post.state().taken[id.place()] == pre.state().swapped
        &&& post.state().epochs[id.place()].current % 2 == 1
        &&& id.place() < pre.state().epochs.len() ==> post.state().epochs[id.place()] == (Epoch {
            current: (pre.state().epochs[id.place()].current + 1) as usize,
            ..pre.state().epochs[id.place()]
        })
        &&& id.place() >= pre.state().epochs.len() ==> post.state().epochs[id.place()] == (Epoch {
            current: 1,
            last: 0,
        })
        &&& forall|i: int|
            0 <= i < pre.state().epochs.len() && i != id.place() ==> {
                &&& post.state().epochs[i] == pre.state().epochs[i]
                &&& post.state().locks[i] == pre.state().locks[i]
                &&& post.state().taken[i] == pre.state().taken[i]
            }
        &&& forall|i: int|
            pre.state().epochs.len() <= i < post.state().epochs.len() && i != id.place() ==> {
                &&& post.state().epochs[i] == (Epoch { current: 0, last: 0 })
                &&& !post.state().locks[i]
            }
        &&& if pre.keeps_node(pre_reader) {
            &&& id.place() == pre_reader.id()->Some_0.place()
            &&& post.state().epochs.len() == pre.state().epochs.len()
        } else {
            exists|mid: HazardEvMapState<P>| #[trigger]
                pre.state().claimed(mid, id.place()) && mid.epochs.len()
                    == post.state().epochs.len()
        }
    }

    /// The epoch of the reader's node goes up by one, the reader lets go of
    /// the node, and the writer is woken. A node whose epoch is used up stays
    /// locked: it serves nobody any more.
    open spec fn released(
        pre: &Self,
        pre_reader: &ReaderId,
        guard: &bool,
        post: &Self,
        post_reader: &ReaderId,
    ) -> bool {
        &&& pre_reader.id() matches Some(old_id)
        &&& post_reader.id() matches Some(id)
        &&& id.place() == old_id.place()
        &&& id.is_released()
        &&& post.state().swapped == pre.state().swapped
        &&& post.state().epochs == pre.state().epochs.update(
            id.place(),
            Epoch {
                current: (pre.state().epochs[id.place()].current + 1) as usize,
                ..pre.state().epochs[id.place()]
            },
        )
        &&& post.state().locks == if pre.state().epochs[id.place()].current + 3 <= usize::MAX {
            pre.state().locks.update(id.place(), false)
        } else {
            pre.state().locks
        }
        &&& post.state().taken == pre.state().taken
        &&& P::woken(&pre.state().parker, &post.state().parker)
    }

    /// A swap always starts. The parity is exchanged, the snapshot of every
    /// node is its epoch as it is, and the swap has every node to look at.
    open spec fn started(
        pre: &Self,
        pre_writer: &WriterId,
        post: &Self,
        post_writer: &WriterId,
        result: &Result<Swap, core::convert::Infallible>,
    ) -> bool {
        &&& result matches Ok(swap)
        &&& swap.start() == 0
        &&& swap.end() == pre.state().epochs.len()
        &&& post.protocol() == pre.protocol().toggle()
        &&& post.state().swapped == !pre.state().swapped
        &&& post.state().currents() == pre.state().currents()
        &&& post.state().lasts() == pre.state().currents()
        &&& post.state().locks == pre.state().locks
        &&& post.state().taken == pre.state().taken
        &&& post.state().parker == pre.state().parker
    }

    /// Asking changes nothing but where the swap begins to look next time:
    /// at the first node that it still has to wait for.
    open spec fn probed(
        pre: &Self,
        pre_writer: &WriterId,
        pre_swap: &Swap,
        post: &Self,
        post_writer: &WriterId,
        post_swap: &Swap,
    ) -> bool {
        &&& post.state() == pre.state()
        &&& post_swap.end() == pre_swap.end()
        &&& pre_swap.start() <= post_swap.start()
        &&& forall|j: int|
            pre_swap.start() <= j < post_swap.start() ==> !pre.state().base().residual(j)
        &&& post_swap.start() == pre_swap.start() || pre.state().base().residual(
            post_swap.start(),
        )
    }
}

impl<P: Parker> Strategy for HazardEvMapStrategy<P> {
    #[inline]
    fn create_writer_id(&mut self) -> (writer: WriterId) {
        WriterId
    }

    #[inline]
    fn create_reader_id_from_writer(&mut self, writer: &WriterId) -> (reader: ReaderId) {
        self.create_reader_id()
    }

    #[inline]
    fn create_reader_id_from_reader(&mut self, reader: &ReaderId) -> (fresh: ReaderId) {
        self.create_reader_id()
    }

    fn create_invalid_reader_id() -> (reader: ReaderId) {
        ReaderId { id: None }
    }

    fn drop_reader_id(&mut self, reader: ReaderId) {
        let ghost pre_reader = reader;
        let mut reader = reader;
        match &mut reader.id {
            Some(id) => {
                id.release_if_locked(&mut self.epochs);
            },
            None => {},
        }
        proof {
            assert(self.state().pins() =~= old(self).state().pins());
            if pre_reader.id() is Some && !pre_reader.id()->Some_0.is_released() {
                let spot = pre_reader.id()->Some_0.place();
                assert forall|r: ReaderId| #[trigger]
                    old(self).reader_ready(&r) && !Self::same_reader(
                        &r,
                        &pre_reader,
                    ) implies self.reader_ready(&r) by {
                    if r.id() is Some {
                        let other = r.id()->Some_0;
                        if !other.is_released() && other.place() == spot {
                            assert(r.has(spot) && pre_reader.has(spot));
                        }
                    }
                }
                assert forall|r: ReaderId, g: bool| #[trigger]
                    old(self).reader_holds(&r, &g) && !Self::same_reader(
                        &r,
                        &pre_reader,
                    ) implies self.reader_holds(&r, &g) by {
                    if r.id() is Some {
                        let other = r.id()->Some_0;
                        if other.place() == spot {
                            assert(r.has(spot) && pre_reader.has(spot));
                        }
                    }
                }
            } else {
                assert(self.state().locks =~= old(self).state().locks);
            }
        }
    }

    fn is_swapped_writer(&self, writer: &WriterId) -> (swapped: bool) {
        self.is_swapped
    }

    fn is_swapped(&self, reader: &ReaderId, guard: &bool) -> (swapped: bool) {
        *guard
    }

    fn try_start_swap(&mut self, writer: &mut WriterId) -> (result: Result<
        Swap,
        core::convert::Infallible,
    >) {
        let ghost pre = self.state();
        self.is_swapped = !self.is_swapped;
        let nodes = self.epochs.nodes();
        let mut i: usize = 0;
        while i < nodes
            invariant
                self.epochs.wf(),
                nodes == pre.epochs.len(),
                self.epochs.values().len() == nodes,
                self.epochs.locks() == pre.locks,
                self.is_swapped == !pre.swapped,
                self.taken@ == pre.taken,
                self.parker == pre.parker,
                i <= nodes,
                forall|j: int|
                    0 <= j < nodes ==> (#[trigger] self.epochs.values()[j]).current
                        == pre.epochs[j].current,
                forall|j: int|
                    0 <= j < i ==> (#[trigger] self.epochs.values()[j]).last
                        == pre.epochs[j].current,
            decreases nodes - i,
        {
            let epoch = self.epochs.value_mut(i);
            let current = epoch.current;
            epoch.last = current;
            i += 1;
        }
        let swap = Swap { epochs: 0..nodes };
        proof {
            let post = self.state();
            assert(post.currents() =~= pre.currents());
            assert(post.lasts() =~= pre.currents());
            assert(post.pins() =~= pre.pins());
            lemma_tally_zero(pre.pins(), !pre.swapped);
            assert forall|j: int| 0 <= j < nodes implies #[trigger] post.lasts()[j]
                <= post.base().epochs[j] && ((post.lasts()[j] % 2 == 1 && post.base().epochs[j]
                == post.lasts()[j]) <==> post.base().residual(j)) by {
                assert(pre.pins()[j] != Some(!pre.swapped));
            }
            assert forall|r: ReaderId| #[trigger] old(self).reader_ready(&r) implies self.reader_ready(
                &r,
            ) by {
                if r.id() is Some {
                    let place = r.id()->Some_0.place();
                    assert(post.currents()[place] == pre.currents()[place]);
                }
            }
            assert forall|r: ReaderId, g: bool| #[trigger]
                old(self).reader_holds(&r, &g) implies self.reader_holds(&r, &g) by {
                let place = r.id()->Some_0.place();
                assert(post.currents()[place] == pre.currents()[place]);
            }
            assert forall|i: int| 0 <= i < post.epochs.len() && !#[trigger] post.locks[i] implies post.epochs[i].current
                % 2 == 0 by {
                assert(post.currents()[i] == pre.currents()[i]);
            }
        }
        Ok(swap)
    }

    fn is_swap_finished(&mut self, writer: &mut WriterId, swap: &mut Swap) -> (finished: bool) {
        self.probe(swap)
    }

    #[verifier::rlimit(100)]
    #[verifier::spinoff_prover]
    fn acquire_read_guard(&mut self, reader: &mut ReaderId) -> (guard: bool) {
        let ghost pre = self.state();
        let ghost n = pre.epochs.len() as int;
        let ghost pre_reader = *old(reader);
        let kept: Option<usize> = match &mut reader.id {
            Some(id) => {
                if !id.released() {
                    Some(id.node())
                } else if id.try_acquire(&mut self.epochs) {
                    Some(id.node())
                } else {
                    None
                }
            },
            None => None,
        };
        let ghost mid = self.state();
        proof {
            assert(mid.pins() =~= pre.pins());
            assert(mid.epochs == pre.epochs && mid.taken == pre.taken);
            if kept is None {
                assert(mid.locks =~= pre.locks);
                assert(mid == pre);
            }
            assert(old(self).keeps_node(&pre_reader) == kept is Some);
        }
        let ghost mid_self = *self;
        let place = match kept {
            Some(place) => place,
            None => {
                let id = self.claim();
                let place = id.node();
                reader.id = Some(id);
                place
            },
        };
        let ghost claimed = self.state();
        proof {
            // whoever else had this node before is the reader itself
            assert(place < n && pre.locks[place as int] ==> pre_reader.has(place as int));
            assert(claimed.base().epochs[place as int] == claimed.epochs[place as int].current);
            assert forall|w: WriterId, s: Swap| #[trigger]
                old(self).swap_valid(&w, &s) implies claimed.base().snapshot_valid(
                claimed.lasts(),
                s.start(),
                s.end(),
            ) by {
                if kept is Some {
                    assert(claimed.base() == pre.base());
                    assert(claimed.lasts() == pre.lasts());
                } else {
                    assert(mid_self.swap_valid(&w, &s));
                    assert(self.swap_valid(&w, &s));
                }
            }
        }
        let epoch = self.epochs.value_mut(place);
        epoch.current = epoch.current + 1;
        self.taken = Ghost(self.taken@.update(place as int, pre.swapped));
        proof {
            let post = self.state();
            assert(post.currents() =~= claimed.currents().update(
                place as int,
                (claimed.currents()[place as int] + 1) as usize,
            ));
            assert(post.lasts() =~= claimed.lasts());
            assert(claimed.pins()[place as int] == None::<bool>);
            assert(post.pins() =~= claimed.pins().update(place as int, Some(pre.swapped)));
            lemma_tally_update(claimed.pins(), place as int, Some(pre.swapped), true);
            lemma_tally_update(claimed.pins(), place as int, Some(pre.swapped), false);
            assert(crate::interface::writer_frame(old(self), self)) by {
                assert forall|w: WriterId, s: Swap|
                    #![trigger old(self).swap_valid(&w, &s)]
                    #![trigger self.swap_valid(&w, &s)]
                    old(self).swap_valid(&w, &s) implies self.swap_valid(&w, &s) by {
                    lemma_step_keeps_snapshot(
                        claimed.base(),
                        post.base(),
                        place as int,
                        claimed.lasts(),
                        s.start(),
                        s.end(),
                    );
                }
            }
            assert(crate::interface::others_frame(old(self), self, &pre_reader)) by {
                assert forall|r: ReaderId|
                    #![trigger old(self).reader_ready(&r)]
                    #![trigger self.reader_ready(&r)]
                    old(self).reader_ready(&r) && !Self::same_reader(
                        &r,
                        &pre_reader,
                    ) implies self.reader_ready(&r) by {
                    if r.id() is Some {
                        let other = r.id()->Some_0;
                        if !other.is_released() && other.place() == place {
                            assert(r.has(place as int) && pre_reader.has(place as int));
                        }
                    }
                }
                assert forall|r: ReaderId, g: bool|
                    #![trigger old(self).reader_holds(&r, &g)]
                    #![trigger self.reader_holds(&r, &g)]
                    old(self).reader_holds(&r, &g) && !Self::same_reader(
                        &r,
                        &pre_reader,
                    ) implies self.reader_holds(&r, &g) by {
                    if r.id() is Some {
                        let other = r.id()->Some_0;
                        if other.place() == place {
                            assert(r.has(place as int) && pre_reader.has(place as int));
                        }
                    }
                }
            }
            if kept is None {
                assert(pre.claimed(claimed, place as int));
                assert(claimed.epochs.len() == post.epochs.len());
            }
            assert(post.locks[place as int]);
            assert(post.taken[place as int] == pre.swapped);
            assert(post.epochs[place as int].current % 2 == 1);
            assert forall|i: int| 0 <= i < pre.epochs.len() && i != place implies post.epochs[i]
                == pre.epochs[i] && post.locks[i] == pre.locks[i] && post.taken[i]
                == pre.taken[i] by {}
            assert forall|i: int|
                pre.epochs.len() <= i < post.epochs.len() && i != place implies post.epochs[i] == (
            Epoch { current: 0, last: 0 }) && !post.locks[i] by {}
        }
        self.is_swapped
    }

    fn release_read_guard(&mut self, reader: &mut ReaderId, guard: bool) {
        let ghost pre = self.state();
        let ghost pre_reader = *old(reader);
        let ghost spot = pre_reader.id()->Some_0.place();
        match &mut reader.id {
            Some(id) => {
                let place = id.node();
                proof {
                    assert(pre.base().epochs[place as int] == pre.epochs[place as int].current);
                }
                let epoch = self.epochs.value_mut(place);
                epoch.current = epoch.current + 1;
                if epoch.current <= usize::MAX - 2 {
                    id.release(&mut self.epochs);
                } else {
                    // the epoch is used up: the node is given up
                    id.abandon();
                }
            },
            None => {},
        }
        proof {
            let post = self.state();
            assert(pre.pins()[spot] == Some(guard));
            assert(post.pins() =~= pre.pins().update(spot, None));
            lemma_tally_update(pre.pins(), spot, None, true);
            lemma_tally_update(pre.pins(), spot, None, false);
            lemma_tally_positive(pre.pins(), spot, guard);
            assert(post.currents() =~= pre.currents().update(
                spot,
                (pre.currents()[spot] + 1) as usize,
            ));
            assert(post.lasts() =~= pre.lasts());
            assert forall|w: WriterId, s: Swap| #[trigger]
                old(self).swap_valid(&w, &s) implies self.swap_valid(&w, &s) by {
                lemma_step_keeps_snapshot(
                    pre.base(),
                    post.base(),
                    spot,
                    pre.lasts(),
                    s.start(),
                    s.end(),
                );
            }
            assert forall|r: ReaderId| #[trigger]
                old(self).reader_ready(&r) && !Self::same_reader(
                    &r,
                    &pre_reader,
                ) implies self.reader_ready(&r) by {
                if r.id() is Some {
                    let other = r.id()->Some_0;
                    if !other.is_released() && other.place() == spot {
                        assert(r.has(spot) && pre_reader.has(spot));
                    }
                }
            }
            assert forall|r: ReaderId, g: bool| #[trigger]
                old(self).reader_holds(&r, &g) && !Self::same_reader(
                    &r,
                    &pre_reader,
                ) implies self.reader_holds(&r, &g) by {
                if r.id() is Some {
                    let other = r.id()->Some_0;
                    if other.place() == spot {
                        assert(r.has(spot) && pre_reader.has(spot));
                    }
                }
            }
        }
        self.parker.wake()
    }
}

impl AsyncStrategy for HazardEvMapStrategy<AsyncParkToken> {
    open spec fn registered(&self) -> bool {
        self.state().parker.is_waiting()
    }

    #[inline]
    fn register_context(&mut self, writer: &mut WriterId, swap: &mut Swap, ctx: &mut Context<'_>) -> (out:
        Poll<()>)
        ensures
            out is Ready <==> old(self).protocol().settled(old(self).state().swapped),
            final(self).state().parker.is_waiting() == out is Pending,
    {
        if self.probe(swap) {
            self.parker.clear();
            Poll::Ready(())
        } else {
            self.parker.set(ctx);
            Poll::Pending
        }
    }
}

impl BlockingStrategy for HazardEvMapStrategy<ThreadParkToken> {
    fn finish_swap(&mut self, writer: &mut WriterId, swap: Swap) -> (result: Result<(), Swap>) {
        let mut swap = swap;
        if self.probe(&mut swap) {
            Ok(())
        } else {
            Err(swap)
        }
    }
}

impl AsyncStrategy for HazardEvMapStrategy<AdaptiveParkToken> {
    open spec fn registered(&self) -> bool {
        self.state().parker.async_token.is_waiting()
    }

    #[inline]
    fn register_context(&mut self, writer: &mut WriterId, swap: &mut Swap, ctx: &mut Context<'_>) -> (out:
        Poll<()>)
        ensures
            out is Ready <==> old(self).protocol().settled(old(self).state().swapped),
            final(self).state().parker.async_token.is_waiting() == out is Pending,
    {
        if self.probe(swap) {
            self.parker.async_token.clear();
            Poll::Ready(())
        } else {
            self.parker.async_token.set(ctx);
            Poll::Pending
        }
    }
}

impl BlockingStrategy for HazardEvMapStrategy<AdaptiveParkToken> {
    fn finish_swap(&mut self, writer: &mut WriterId, swap: Swap) -> (result: Result<(), Swap>)
        ensures
            !final(self).state().parker.async_token.is_waiting(),
    {
        let mut swap = swap;
        self.parker.async_token.clear();
        if self.probe(&mut swap) {
            Ok(())
        } else {
            Err(swap)
        }
    }
}

} // verus!
