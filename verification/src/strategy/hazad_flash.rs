//! The flash strategy with the readers' words in a pool.
//!
//! The protocol is that of [`flashmap`](super::flashmap). The words live in
//! the nodes of a [`Hazard`] pool: a reader keeps a guard on its node and
//! lets go of the lock whenever it gives a read guard back, so that a node
//! whose reader has gone can serve a new reader. A reader that comes back
//! tries its old node first and takes another one if the old one is taken.
use vstd::prelude::*;
use core::task::{Context, Poll};
use crate::interface::{AsyncStrategy, BlockingStrategy, Strategy, StrategyModel};
use crate::protocol::{
    lemma_tally_positive,
    lemma_tally_push,
    lemma_tally_update,
    lemma_tally_zero,
    protocol_of,
    tally,
    Protocol,
};
use super::flash_park_token::{AdaptiveParkToken, AsyncParkToken, Parker, ThreadParkToken};
use super::flashmap::{lemma_word_bits, pin_of, pins_of, NOT_SWAPPED, READER_ACTIVE, SWAPPED};
use super::hazard::{precedes, Hazard, RawHazardGuard};

verus! {

/// The number of nodes in a chunk of the pool.
pub const CHUNK: usize = 4;

pub struct HazardFlashStrategy<P> {
    swap_state: usize,
    readers: Hazard<usize, 4>,
    residual: usize,
    parker: P,
    /// For each node, the parity under which the guard of its reader was
    /// taken; it means something only while the reader holds a guard.
    taken: Ghost<Seq<bool>>,
}

pub struct WriterId(());

pub struct ReaderId {
    id: Option<RawHazardGuard<usize, 4>>,
}

pub struct ReadGuard {
    swap_state: usize,
}

#[non_exhaustive]
pub struct Swap;

/// The state of a [`HazardFlashStrategy`] as the contracts see it.
pub struct HazardFlashState<P> {
    /// The parity.
    pub swapped: bool,
    /// The word of every node.
    pub words: Seq<usize>,
    /// The lock of every node: whether a reader has the node.
    pub locks: Seq<bool>,
    /// For each node, the parity under which its reader's guard was taken.
    pub taken: Seq<bool>,
    /// The readers that still pin the writer's cell.
    pub residual: nat,
    pub parker: P,
}

impl<P> HazardFlashState<P> {
    /// The word of an idle reader under the current parity.
    pub open spec fn parity_word(self) -> usize {
        if self.swapped {
            SWAPPED
        } else {
            NOT_SWAPPED
        }
    }

    /// What the reader of each node holds.
    pub open spec fn pins(self) -> Seq<Option<bool>> {
        pins_of(self.words, self.taken)
    }

    /// Every word carries the current parity, a node that no reader has is
    /// idle, and the residual readers are those whose guard is older than the
    /// parity.
    pub open spec fn wf(self) -> bool {
        &&& self.taken.len() == self.words.len()
        &&& self.locks.len() == self.words.len()
        &&& forall|i: int|
            0 <= i < self.words.len() ==> #[trigger] self.words[i] == self.parity_word()
                || self.words[i] == self.parity_word() + READER_ACTIVE
        &&& forall|i: int|
            0 <= i < self.words.len() && !#[trigger] self.locks[i] ==> self.words[i]
                < READER_ACTIVE
        &&& self.residual == tally(self.pins(), !self.swapped)
    }

    /// The node at `place` is taken for a reader: it was free, or it is the
    /// first node of a new chunk. All other nodes are as they were.
    pub open spec fn claimed(self, post: Self, place: int) -> bool {
        &&& post.swapped == self.swapped
        &&& post.residual == self.residual
        &&& post.parker == self.parker
        &&& post.taken.len() == post.words.len()
        &&& post.taken.take(self.taken.len() as int) == self.taken
        &&& if place < self.words.len() {
            &&& 0 <= place
            &&& !self.locks[place]
            &&& forall|other: int|
                0 <= other < self.words.len() && precedes(CHUNK as int, other, place)
                    ==> self.locks[other]
            &&& post.words == self.words
            &&& post.locks == self.locks.update(place, true)
        } else {
            &&& place == self.words.len()
            &&& forall|other: int| 0 <= other < self.words.len() ==> self.locks[other]
            &&& post.words == self.words + Seq::new(CHUNK as nat, |i: int| self.parity_word())
            &&& post.locks == self.locks + Seq::new(CHUNK as nat, |i: int| i == 0)
        }
    }
}

impl ReaderId {
    /// The guard on the reader's node, if the reader has had a node.
    pub closed spec fn id(&self) -> Option<RawHazardGuard<usize, 4>> {
        self.id
    }

    /// The reader holds the lock of the node at `place`.
    pub open spec fn has(&self, place: int) -> bool {
        self.id() matches Some(guard) && !guard.is_released() && guard.place() == place
    }
}

impl ReadGuard {
    /// The reader's word as the guard found it.
    pub closed spec fn swap_state(&self) -> usize {
        self.swap_state
    }
}

impl HazardFlashStrategy<AsyncParkToken> {
    /// A strategy whose writer waits as a task.
    pub fn new_async() -> (strategy: Self)
        ensures
            strategy.wf(),
            strategy.protocol() == Protocol::init(),
            strategy.state().words.len() == 0,
    {
        Self::with_parker()
    }
}

impl HazardFlashStrategy<ThreadParkToken> {
    /// A strategy whose writer waits as a thread.
    pub fn new_blocking() -> (strategy: Self)
        ensures
            strategy.wf(),
            strategy.protocol() == Protocol::init(),
            strategy.state().words.len() == 0,
    {
        Self::with_parker()
    }
}

impl HazardFlashStrategy<AdaptiveParkToken> {
    /// A strategy whose writer waits either way.
    pub fn new() -> (strategy: Self)
        ensures
            strategy.wf(),
            strategy.protocol() == Protocol::init(),
            strategy.state().words.len() == 0,
    {
        Self::with_parker()
    }
}

impl<P> HazardFlashStrategy<P> {
    /// The state as the contracts see it.
    pub closed spec fn state(&self) -> HazardFlashState<P> {
        HazardFlashState {
            swapped: self.swap_state != NOT_SWAPPED,
            words: self.readers.values(),
            locks: self.readers.locks(),
            taken: self.taken@,
            residual: self.residual as nat,
            parker: self.parker,
        }
    }

    /// The parity is one of its two values and the pool is in order.
    pub closed spec fn pool_in_order(&self) -> bool {
        &&& self.swap_state <= SWAPPED
        &&& self.readers.wf()
    }

    /// The reader takes its next guard on the node that it has had: it
    /// still has the node, or nobody has taken the node since.
    pub open spec fn keeps_node(&self, reader: &ReaderId) -> bool {
        reader.id() matches Some(id) && (!id.is_released() || !self.state().locks[id.place()])
    }

    /// The token, to register with it or to take what it has recorded.
    pub fn parker_mut(&mut self) -> (parker: &mut P)
        ensures
            *parker == old(self).state().parker,
            final(self).state() == (HazardFlashState {
                parker: *final(parker),
                ..old(self).state()
            }),
            final(self).pool_in_order() == old(self).pool_in_order(),
    {
        &mut self.parker
    }

    /// Whether no residual reader is left.
    fn poll(&self, swap: &mut Swap) -> (out: Poll<()>)
        ensures
            out is Ready <==> self.state().residual == 0,
    {
        if self.residual == 0 {
            Poll::Ready(())
        } else {
            Poll::Pending
        }
    }
}

impl<P: Parker> HazardFlashStrategy<P> {
    fn with_parker() -> (strategy: Self)
        ensures
            strategy.wf(),
            strategy.protocol() == Protocol::init(),
            strategy.state().words.len() == 0,
    {
        let strategy = Self {
            swap_state: NOT_SWAPPED,
            readers: Hazard::new(),
            residual: 0,
            parker: P::fresh(),
            taken: Ghost(Seq::empty()),
        };
        assert(strategy.state().pins() =~= Seq::empty());
        strategy
    }

    /// Takes a node for a reader: a free one, or the first of a new chunk.
    fn claim(&mut self) -> (guard: RawHazardGuard<usize, 4>)
        requires
            old(self).wf(),
        ensures
            final(self).wf(),
            final(self).protocol() == old(self).protocol(),
            !guard.is_released(),
            0 <= guard.place() < final(self).state().words.len(),
            final(self).state().words[guard.place()] == old(self).state().parity_word(),
            old(self).state().claimed(final(self).state(), guard.place()),
            forall|i: int|
                0 <= i < old(self).state().words.len() && i != guard.place() ==> final(self).state().locks[i] == old(self).state().locks[i],
            forall|i: int|
                old(self).state().words.len() <= i < final(self).state().words.len() && i
                    != guard.place() ==> !final(self).state().locks[i],
            final(self).state().words.take(old(self).state().words.len() as int) == old(self).state().words,
            final(self).state().pins().take(old(self).state().words.len() as int) == old(self).state().pins(),
    {
        let ghost pre = self.state();
        let word = self.swap_state;
        let make = move || -> (made: usize)
            ensures
                made == word,
            { word };
        let guard = self.readers.get_or_insert_with(make);
        let ghost grown = self.readers.values().len() - pre.words.len();
        self.taken = Ghost(self.taken@ + Seq::new(grown as nat, |i: int| false));
        proof {
            let post = self.state();
            let n = pre.words.len() as int;
            if exists|place: int| 0 <= place < n && !pre.locks[place] {
                assert(post.taken =~= pre.taken);
                assert(post.pins() =~= pre.pins());
                assert(post.taken.take(n) =~= pre.taken);
            } else {
                assert(post.locks =~= pre.locks + Seq::new(CHUNK as nat, |i: int| i == 0));
                assert(post.words =~= pre.words + Seq::new(CHUNK as nat, |i: int| pre.parity_word())) by {
                    assert(post.words.take(n) == pre.words);
                    assert forall|i: int| 0 <= i < post.words.len() implies post.words[i] == (
                    pre.words + Seq::new(CHUNK as nat, |i: int| pre.parity_word()))[i] by {
                        if i < n {
                            assert(post.words.take(n)[i] == post.words[i]);
                        }
                    }
                }
                assert(post.taken.take(n) =~= pre.taken);
                let added = Seq::new(CHUNK as nat, |i: int| None::<bool>);
                assert(post.pins() =~= pre.pins() + added);
                assert(pre.pins() + added =~= pre.pins().push(None).push(None).push(None).push(None));
                lemma_tally_push(pre.pins(), None, true);
                lemma_tally_push(pre.pins().push(None), None, true);
                lemma_tally_push(pre.pins().push(None).push(None), None, true);
                lemma_tally_push(pre.pins().push(None).push(None).push(None), None, true);
                lemma_tally_push(pre.pins(), None, false);
                lemma_tally_push(pre.pins().push(None), None, false);
                lemma_tally_push(pre.pins().push(None).push(None), None, false);
                lemma_tally_push(pre.pins().push(None).push(None).push(None), None, false);
            }
            assert(post.pins().take(n) =~= pre.pins());
            assert(post.words.take(n) =~= pre.words);
        }
        guard
    }

    fn create_reader_id(&mut self) -> (reader: ReaderId)
        requires
            old(self).wf(),
        ensures
            final(self).wf(),
            final(self).protocol() == old(self).protocol(),
            final(self).reader_ready(&reader),
            crate::interface::reader_frame(old(self), final(self)),
            Self::created(old(self), final(self), &reader),
    {
        let ghost pre = self.state();
        let id = self.claim();
        proof {
            let post = self.state();
            let n = pre.words.len() as int;
            assert forall|i: int| 0 <= i < n implies post.words[i] == pre.words[i] && post.taken[i]
                == pre.taken[i] by {
                assert(post.words.take(n)[i] == post.words[i]);
                assert(post.taken.take(n)[i] == post.taken[i]);
            }
        }
        ReaderId { id: Some(id) }
    }
}

/// A reader that holds a guard cannot take a second one: holding and being
/// ready exclude each other.
pub proof fn lemma_one_guard_per_reader<P: Parker>(
    strategy: HazardFlashStrategy<P>,
    reader: ReaderId,
    guard: ReadGuard,
)
    ensures
        !(strategy.reader_ready(&reader) && strategy.reader_holds(&reader, &guard)),
{
}

impl<P: Parker> StrategyModel for HazardFlashStrategy<P> {
    type WriterId = WriterId;

    type ReaderId = ReaderId;

    type Swap = Swap;

    type SwapError = core::convert::Infallible;

    type ReadGuard = ReadGuard;

    open spec fn wf(&self) -> bool {
        &&& self.pool_in_order()
        &&& self.state().wf()
    }

    open spec fn protocol(&self) -> Protocol {
        protocol_of(self.state().swapped, self.state().pins())
    }

    open spec fn writer_valid(&self, writer: &WriterId) -> bool {
        true
    }

    /// A reader without a node is ready, and so is one that has let go of
    /// its node; one that has its node is ready while its word is idle.
    open spec fn reader_ready(&self, reader: &ReaderId) -> bool {
        reader.id() matches Some(guard) ==> {
            &&& 0 <= guard.place() < self.state().words.len()
            &&& !guard.is_released() ==> self.state().locks[guard.place()]
                && self.state().words[guard.place()] < READER_ACTIVE
        }
    }

    open spec fn has_room(&self, reader: &ReaderId) -> bool {
        true
    }

    open spec fn reader_holds(&self, reader: &ReaderId, guard: &ReadGuard) -> bool {
        &&& reader.id() matches Some(id)
        &&& !id.is_released()
        &&& 0 <= id.place() < self.state().words.len()
        &&& self.state().locks[id.place()]
        &&& self.state().words[id.place()] >= READER_ACTIVE
        &&& guard.swap_state() <= SWAPPED
        &&& self.state().taken[id.place()] == (guard.swap_state() != NOT_SWAPPED)
    }

    /// Two readers are one if they have the same node.
    open spec fn same_reader(a: &ReaderId, b: &ReaderId) -> bool {
        exists|place: int| a.has(place) && b.has(place)
    }

    open spec fn guard_parity(guard: &ReadGuard) -> bool {
        guard.swap_state() != NOT_SWAPPED
    }

    open spec fn swap_valid(&self, writer: &WriterId, swap: &Swap) -> bool {
        true
    }

    open spec fn swap_target(&self, swap: &Swap) -> bool {
        self.state().swapped
    }

    /// The placeholder has no node; it takes one if it ever reads.
    open spec fn placeholder(reader: &ReaderId) -> bool {
        reader.id() is None
    }

    /// Minting the writer id changes nothing.
    open spec fn minted(pre: &Self, post: &Self, writer: &WriterId) -> bool {
        post.state() == pre.state()
    }

    /// The new reader has a node of its own, idle and of the current parity.
    open spec fn created(pre: &Self, post: &Self, reader: &ReaderId) -> bool {
        &&& reader.id() matches Some(guard)
        &&& !guard.is_released()
        &&& pre.state().claimed(post.state(), guard.place())
    }

    /// The reader lets go of its node, which can then serve another reader.
    open spec fn dropped(pre: &Self, reader: &ReaderId, post: &Self) -> bool {
        post.state() == (HazardFlashState {
            locks: if reader.id() is Some && !reader.id()->Some_0.is_released() {
                pre.state().locks.update(reader.id()->Some_0.place(), false)
            } else {
                pre.state().locks
            },
            ..pre.state()
        })
    }

    /// The reader has a node: the one it had, if it still had it or could
    /// take it again, or else a node taken now. The node's word gets the
    /// active bit; the guard keeps the word as it was, which is the parity.
    open spec fn acquired(
        pre: &Self,
        pre_reader: &ReaderId,
        post: &Self,
        post_reader: &ReaderId,
        guard: &ReadGuard,
    ) -> bool {
        &&& post_reader.id() matches Some(id)
        &&& !id.is_released()
        &&& 0 <= id.place() < post.state().words.len()
        &&& guard.swap_state() == pre.state().parity_word()
        &&& post.state().swapped == pre.state().swapped
        &&& post.state().residual == pre.state().residual
        &&& post.state().parker == pre.state().parker
        &&& post.state().locks[id.place()]
        &&& post.state().words[id.place()] == pre.state().parity_word() + READER_ACTIVE
        &&& post.state().taken[id.place()] == pre.state().swapped
        &&& forall|i: int|
            0 <= i < pre.state().words.len() && i != id.place() ==> {
                &&& post.state().words[i] == pre.state().words[i]
                &&& post.state().locks[i] == pre.state().locks[i]
                &&& post.state().taken[i] == pre.state().taken[i]
            }
        &&& forall|i: int|
            pre.state().words.len() <= i < post.state().words.len() && i != id.place() ==> {
                &&& post.state().words[i] == pre.state().parity_word()
                &&& !post.state().locks[i]
            }
        &&& if pre.keeps_node(pre_reader) {
            &&& id.place() == pre_reader.id()->Some_0.place()
            &&& post.state().words.len() == pre.state().words.len()
        } else {
            exists|mid: HazardFlashState<P>| #[trigger]
                pre.state().claimed(mid, id.place()) && mid.words.len()
                    == post.state().words.len()
        }
    }

    /// The word of the reader's node loses the active bit and the reader
    /// lets go of the node. A residual reader leaves the count, and the one
    /// that empties the count wakes the writer.
    open spec fn released(
        pre: &Self,
        pre_reader: &ReaderId,
        guard: &ReadGuard,
        post: &Self,
        post_reader: &ReaderId,
    ) -> bool {
        let residual = Self::guard_parity(guard) != pre.state().swapped;
        &&& pre_reader.id() matches Some(old_id)
        &&& post_reader.id() matches Some(id)
        &&& id.place() == old_id.place()
        &&& id.is_released()
        &&& post.state().swapped == pre.state().swapped
        &&& post.state().words == pre.state().words.update(
            id.place(),
            (pre.state().words[id.place()] - READER_ACTIVE) as usize,
        )
        &&& post.state().locks == pre.state().locks.update(id.place(), false)
        &&& post.state().taken == pre.state().taken
        &&& post.state().residual == if residual {
            (pre.state().residual - 1) as nat
        } else {
            pre.state().residual
        }
        &&& if residual && pre.state().residual == 1 {
            P::woken(&pre.state().parker, &post.state().parker)
        } else {
            post.state().parker == pre.state().parker
        }
    }

    /// A swap always starts. The parity is exchanged in the strategy and in
    /// the word of every node, and the readers that hold a guard become the
    /// residual ones.
    open spec fn started(
        pre: &Self,
        pre_writer: &WriterId,
        post: &Self,
        post_writer: &WriterId,
        result: &Result<Swap, core::convert::Infallible>,
    ) -> bool {
        &&& result is Ok
        &&& post.protocol() == pre.protocol().toggle()
        &&& post.state().swapped == !pre.state().swapped
        &&& post.state().words.len() == pre.state().words.len()
        &&& forall|i: int|
            0 <= i < pre.state().words.len() ==> #[trigger] post.state().words[i] == (
            if pre.state().swapped {
                pre.state().words[i] - 1
            } else {
                pre.state().words[i] + 1
            })
        &&& post.state().locks == pre.state().locks
        &&& post.state().taken == pre.state().taken
        &&& post.state().residual == pre.state().residual + tally(
            pre.state().pins(),
            pre.state().swapped,
        )
        &&& post.state().parker == pre.state().parker
    }

    /// Asking changes nothing.
    open spec fn probed(
        pre: &Self,
        pre_writer: &WriterId,
        pre_swap: &Swap,
        post: &Self,
        post_writer: &WriterId,
        post_swap: &Swap,
    ) -> bool {
        post.state() == pre.state()
    }
}

impl<P: Parker> Strategy for HazardFlashStrategy<P> {
    #[inline]
    fn create_writer_id(&mut self) -> (writer: WriterId) {
        WriterId(())
    }

    #[inline]
    fn create_reader_id_from_writer(&mut self, writer: &WriterId) -> (reader: ReaderId) {
        self.create_reader_id()
    }

    #[inline]
    fn create_reader_id_from_reader(&mut self, reader: &ReaderId) -> (fresh: ReaderId) {
        self.create_reader_id()
    }

    fn create_invalid_reader_id() -> (reader: ReaderId) {
        ReaderId { id: None }
    }

    fn drop_reader_id(&mut self, reader: ReaderId) {
        let ghost pre_reader = reader;
        let mut reader = reader;
        match &mut reader.id {
            Some(id) => {
                id.release_if_locked(&mut self.readers);
            },
            None => {},
        }
        proof {
            assert(self.state().pins() =~= old(self).state().pins());
            if pre_reader.id() is Some && !pre_reader.id()->Some_0.is_released() {
                let spot = pre_reader.id()->Some_0.place();
                assert forall|r: ReaderId| #[trigger]
                    old(self).reader_ready(&r) && !Self::same_reader(
                        &r,
                        &pre_reader,
                    ) implies self.reader_ready(&r) by {
                    if r.id() is Some {
                        let other = r.id()->Some_0;
                        if !other.is_released() && other.place() == spot {
                            assert(r.has(spot) && pre_reader.has(spot));
                        }
                    }
                }
                assert forall|r: ReaderId, g: ReadGuard| #[trigger]
                    old(self).reader_holds(&r, &g) && !Self::same_reader(
                        &r,
                        &pre_reader,
                    ) implies self.reader_holds(&r, &g) by {
                    if r.id() is Some {
                        let other = r.id()->Some_0;
                        if other.place() == spot {
                            assert(r.has(spot) && pre_reader.has(spot));
                        }
                    }
                }
            } else {
                assert(self.state().locks =~= old(self).state().locks);
            }
        }
    }

    fn is_swapped_writer(&self, writer: &WriterId) -> (swapped: bool) {
        self.swap_state != NOT_SWAPPED
    }

    fn is_swapped(&self, reader: &ReaderId, guard: &ReadGuard) -> (swapped: bool) {
        guard.swap_state != NOT_SWAPPED
    }

    fn try_start_swap(&mut self, writer: &mut WriterId) -> (result: Result<
        Swap,
        core::convert::Infallible,
    >) {
        let ghost pre = self.state();
        let old_swap_state = self.swap_state;
        proof {
            lemma_word_bits(old_swap_state);
            lemma_tally_zero(pre.pins(), !pre.swapped);
        }
        self.swap_state = old_swap_state ^ SWAPPED;
        let residual_swap_state = old_swap_state | READER_ACTIVE;
        let mut residual: usize = 0;
        let mut i: usize = 0;
        let nodes = self.readers.nodes();
        while i < nodes
            invariant
                pre.wf(),
                self.readers.wf(),
                nodes == pre.words.len(),
                old_swap_state == pre.parity_word(),
                residual_swap_state == old_swap_state + READER_ACTIVE,
                self.swap_state == 1 - old_swap_state,
                self.readers.values().len() == pre.words.len(),
                self.readers.locks() == pre.locks,
                self.taken@ == pre.taken,
                self.residual == pre.residual,
                self.parker == pre.parker,
                i <= nodes,
                residual == tally(pre.pins().take(i as int), pre.swapped),
                residual <= i,
                forall|j: int|
                    0 <= j < i ==> #[trigger] self.readers.values()[j] == (if pre.swapped {
                        pre.words[j] - 1
                    } else {
                        pre.words[j] + 1
                    }),
                forall|j: int| i <= j < pre.words.len() ==> self.readers.values()[j] == pre.words[j],
                forall|j: int| 0 <= j < pre.pins().len() ==> pre.pins()[j] != Some(!pre.swapped),
            decreases nodes - i,
        {
            let reader_swap_state = *self.readers.value(i);
            proof {
                assert(pre.words[i as int] == reader_swap_state);
                lemma_word_bits(reader_swap_state);
                assert(pre.pins().take(i + 1).drop_last() =~= pre.pins().take(i as int));
                assert(pre.pins().take(i + 1).last() == pre.pins()[i as int]);
                assert(pre.pins()[i as int] == pin_of(pre.words[i as int], pre.taken[i as int]));
            }
            *self.readers.value_mut(i) = reader_swap_state ^ 1;
            if reader_swap_state == residual_swap_state {
                residual += 1;
            }
            i += 1;
        }
        proof {
            assert(pre.pins().take(i as int) =~= pre.pins());
        }
        self.residual = self.residual + residual;
        proof {
            let post = self.state();
            assert(post.pins() =~= pre.pins());
        }
        Ok(Swap)
    }

    fn is_swap_finished(&mut self, writer: &mut WriterId, swap: &mut Swap) -> (finished: bool) {
        self.residual == 0
    }

    #[verifier::rlimit(100)]
    #[verifier::spinoff_prover]
    fn acquire_read_guard(&mut self, reader: &mut ReaderId) -> (guard: ReadGuard) {
        let ghost pre = self.state();
        let ghost n = pre.words.len() as int;
        let kept: Option<usize> = match &mut reader.id {
            Some(id) => {
                if !id.released() {
                    Some(id.node())
                } else if id.try_acquire(&mut self.readers) {
                    Some(id.node())
                } else {
                    None
                }
            },
            None => None,
        };
        let ghost mid = self.state();
        proof {
            assert(mid.pins() =~= pre.pins());
        }
        let place = match kept {
            Some(place) => place,
            None => {
                let id = self.claim();
                let place = id.node();
                reader.id = Some(id);
                place
            },
        };
        let ghost claimed = self.state();
        let ghost pre_reader = *old(reader);
        proof {
            assert(mid.words == pre.words && mid.taken == pre.taken);
            if kept is None {
                assert(mid.locks =~= pre.locks);
                assert(mid == pre);
            }
            // whoever else had this node before is the reader itself
            assert(place < n && pre.locks[place as int] ==> pre_reader.has(place as int));
            assert forall|i: int| 0 <= i < n implies claimed.words[i] == pre.words[i]
                && claimed.taken[i] == pre.taken[i] && claimed.pins()[i] == pre.pins()[i] by {
                assert(claimed.words.take(n)[i] == claimed.words[i]);
                assert(claimed.taken.take(n)[i] == claimed.taken[i]);
                assert(claimed.pins().take(n)[i] == claimed.pins()[i]);
            }
        }
        let word = *self.readers.value(place);
        proof {
            lemma_word_bits(word);
        }
        let id = word;
        *self.readers.value_mut(place) = word | READER_ACTIVE;
        self.taken = Ghost(self.taken@.update(place as int, pre.swapped));
        proof {
            let post = self.state();
            assert(claimed.pins()[place as int] == None::<bool>);
            assert(post.pins() =~= claimed.pins().update(place as int, Some(pre.swapped)));
            lemma_tally_update(claimed.pins(), place as int, Some(pre.swapped), true);
            lemma_tally_update(claimed.pins(), place as int, Some(pre.swapped), false);
            assert(crate::interface::others_frame(old(self), self, &pre_reader)) by {
                assert forall|r: ReaderId|
                    #![trigger old(self).reader_ready(&r)]
                    #![trigger self.reader_ready(&r)]
                    old(self).reader_ready(&r) && !Self::same_reader(
                        &r,
                        &pre_reader,
                    ) implies self.reader_ready(&r) by {
                    if r.id() is Some {
                        let other = r.id()->Some_0;
                        if !other.is_released() && other.place() == place {
                            assert(r.has(place as int) && pre_reader.has(place as int));
                        }
                    }
                }
                assert forall|r: ReaderId, g: ReadGuard|
                    #![trigger old(self).reader_holds(&r, &g)]
                    #![trigger self.reader_holds(&r, &g)]
                    old(self).reader_holds(&r, &g) && !Self::same_reader(
                        &r,
                        &pre_reader,
                    ) implies self.reader_holds(&r, &g) by {
                    if r.id() is Some {
                        let other = r.id()->Some_0;
                        if other.place() == place {
                            assert(r.has(place as int) && pre_reader.has(place as int));
                        }
                    }
                }
            }
            assert(old(self).keeps_node(&pre_reader) == kept is Some);
            if kept is None {
                assert(pre.claimed(claimed, place as int));
                assert(claimed.words.len() == post.words.len());
            }
        }
        let guard = ReadGuard { swap_state: id };
        proof {
            let post = self.state();
            assert(guard.swap_state() == pre.parity_word());
            assert(post.locks[place as int]);
            assert(post.words[place as int] == pre.parity_word() + READER_ACTIVE);
            assert(post.taken[place as int] == pre.swapped);
            assert forall|i: int| 0 <= i < pre.words.len() && i != place implies post.words[i]
                == pre.words[i] && post.locks[i] == pre.locks[i] && post.taken[i]
                == pre.taken[i] by {}
            assert forall|i: int|
                pre.words.len() <= i < post.words.len() && i != place implies post.words[i]
                == pre.parity_word() && !post.locks[i] by {}
        }
        guard
    }

    fn release_read_guard(&mut self, reader: &mut ReaderId, guard: ReadGuard) {
        let ghost pre = self.state();
        let ghost pre_reader = *old(reader);
        let ghost spot = pre_reader.id()->Some_0.place();
        let wake = match &mut reader.id {
            Some(id) => {
                let place = id.node();
                let word = *self.readers.value(place);
                proof {
                    lemma_word_bits(word);
                    lemma_word_bits(guard.swap_state);
                }
                let reader_swap_state = word;
                *self.readers.value_mut(place) = word & !READER_ACTIVE;
                proof {
                    let post = self.state();
                    assert(pre.words[place as int] == word);
                    assert(pre.pins()[place as int] == Some(pre.taken[place as int]));
                    assert(post.pins() =~= pre.pins().update(place as int, None));
                    lemma_tally_update(pre.pins(), place as int, None, true);
                    lemma_tally_update(pre.pins(), place as int, None, false);
                    lemma_tally_positive(pre.pins(), place as int, pre.taken[place as int]);
                }
                // if there was no swap in between then this is all;
                // otherwise this is a residual reader of that swap
                let wake = if guard.swap_state & 1 == reader_swap_state & 1 {
                    false
                } else {
                    let residual = self.residual;
                    self.residual = residual - 1;
                    // while residual readers are left, one of them wakes the writer
                    residual == 1
                };
                id.release(&mut self.readers);
                wake
            },
            None => false,
        };
        proof {
            assert forall|r: ReaderId| #[trigger]
                old(self).reader_ready(&r) && !Self::same_reader(
                    &r,
                    &pre_reader,
                ) implies self.reader_ready(&r) by {
                if r.id() is Some {
                    let other = r.id()->Some_0;
                    if !other.is_released() && other.place() == spot {
                        assert(r.has(spot) && pre_reader.has(spot));
                    }
                }
            }
            assert forall|r: ReaderId, g: ReadGuard| #[trigger]
                old(self).reader_holds(&r, &g) && !Self::same_reader(
                    &r,
                    &pre_reader,
                ) implies self.reader_holds(&r, &g) by {
                if r.id() is Some {
                    let other = r.id()->Some_0;
                    if other.place() == spot {
                        assert(r.has(spot) && pre_reader.has(spot));
                    }
                }
            }
        }
        if wake {
            self.parker.wake()
        }
    }
}

impl AsyncStrategy for HazardFlashStrategy<AsyncParkToken> {
    open spec fn registered(&self) -> bool {
        self.state().parker.is_waiting()
    }

    fn register_context(&mut self, writer: &mut WriterId, swap: &mut Swap, ctx: &mut Context<'_>) -> (out:
        Poll<()>)
        ensures
            out is Ready <==> old(self).state().residual == 0,
            out is Pending ==> final(self).state().parker.is_waiting(),
    {
        match self.poll(swap) {
            Poll::Ready(_) => Poll::Ready(()),
            Poll::Pending => {
                self.parker.set(ctx);
                Poll::Pending
            },
        }
    }
}

impl BlockingStrategy for HazardFlashStrategy<ThreadParkToken> {
    fn finish_swap(&mut self, writer: &mut WriterId, swap: Swap) -> (result: Result<(), Swap>)
        ensures
            result is Err ==> final(self).state().parker.is_waiting(),
    {
        let mut swap = swap;
        match self.poll(&mut swap) {
            Poll::Ready(_) => Ok(()),
            Poll::Pending => {
                self.parker.set();
                Err(swap)
            },
        }
    }
}

impl AsyncStrategy for HazardFlashStrategy<AdaptiveParkToken> {
    open spec fn registered(&self) -> bool {
        self.state().parker.async_token.is_waiting()
    }

    fn register_context(&mut self, writer: &mut WriterId, swap: &mut Swap, ctx: &mut Context<'_>) -> (out:
        Poll<()>)
        ensures
            out is Ready <==> old(self).state().residual == 0,
            out is Pending ==> final(self).state().parker.async_token.is_waiting(),
    {
        match self.poll(swap) {
            Poll::Ready(_) => Poll::Ready(()),
            Poll::Pending => {
                self.parker.async_token.set(ctx);
                Poll::Pending
            },
        }
    }
}

impl BlockingStrategy for HazardFlashStrategy<AdaptiveParkToken> {
    fn finish_swap(&mut self, writer: &mut WriterId, swap: Swap) -> (result: Result<(), Swap>)
        ensures
            result is Err ==> final(self).state().parker.thread_token.is_waiting(),
    {
        let mut swap = swap;
        match self.poll(&mut swap) {
            Poll::Ready(_) => Ok(()),
            Poll::Pending => {
                self.parker.thread_token.set();
                Err(swap)
            },
        }
    }
}

} // verus!
