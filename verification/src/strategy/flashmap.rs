//! A strategy with one word per reader and a count of residual readers.
//!
//! Each reader has a word with two bits: the parity, kept equal to the
//! strategy's own, and whether the reader holds a guard. A swap exchanges the
//! parity everywhere and counts the readers that hold a guard: they are the
//! *residual* readers, which still pin the cell that the writer now owns.
//! Each of them, when it gives its guard back, sees that the parity of its
//! guard is no longer that of its word and takes itself off the count. The
//! swap is finished when the count is zero, and the reader that brings it
//! there wakes the writer.
use vstd::prelude::*;
use core::task::{Context, Poll};
use crate::interface::{AsyncStrategy, BlockingStrategy, Strategy, StrategyModel};
use crate::protocol::{
    lemma_tally_positive,
    lemma_tally_push,
    lemma_tally_update,
    lemma_tally_zero,
    protocol_of,
    tally,
    Protocol,
    Slot,
};
use super::flash_park_token::{AdaptiveParkToken, AsyncParkToken, Parker, ThreadParkToken};

verus! {

pub struct FlashStrategy<ParkToken> {
    swap_state: usize,
    readers: Vec<usize>,
    /// For each word, what has become of it.
    slots: Vec<Slot>,
    residual: usize,
    parker: ParkToken,
    /// For each reader, the parity under which its guard was taken; it
    /// means something only while the reader holds a guard.
    taken: Ghost<Seq<bool>>,
}

pub const NOT_SWAPPED: usize = 0;

pub const SWAPPED: usize = 1;

pub const READER_ACTIVE: usize = 2;

pub struct WriterId(());

pub struct ReaderId {
    index: usize,
}

pub struct ReadGuard {
    swap_state: usize,
}

#[non_exhaustive]
pub struct Swap;

/// The state of a [`FlashStrategy`] as the contracts see it.
pub struct FlashState<ParkToken> {
    /// The parity.
    pub swapped: bool,
    /// The readers' words.
    pub words: Seq<usize>,
    /// For each word, what has become of it.
    pub slots: Seq<Slot>,
    /// For each reader, the parity under which its guard was taken.
    pub taken: Seq<bool>,
    /// The readers that still pin the writer's cell.
    pub residual: nat,
    pub parker: ParkToken,
}

/// What the reader with `word` holds, if a guard of it was taken under `taken`.
pub open spec fn pin_of(word: usize, taken: bool) -> Option<bool> {
    if word >= READER_ACTIVE {
        Some(taken)
    } else {
        None
    }
}

/// What each reader holds.
pub open spec fn pins_of(words: Seq<usize>, taken: Seq<bool>) -> Seq<Option<bool>> {
    Seq::new(words.len(), |i: int| pin_of(words[i], taken[i]))
}

impl<ParkToken> FlashState<ParkToken> {
    /// The word of an idle reader under the current parity.
    pub open spec fn parity_word(self) -> usize {
        if self.swapped {
            SWAPPED
        } else {
            NOT_SWAPPED
        }
    }

    /// What each reader holds.
    pub open spec fn pins(self) -> Seq<Option<bool>> {
        pins_of(self.words, self.taken)
    }

    /// Every word carries the current parity, a word whose reader has gone
    /// is idle, and the residual readers are those whose guard is older than
    /// the parity.
    pub open spec fn wf(self) -> bool {
        &&& self.taken.len() == self.words.len()
        &&& self.slots.len() == self.words.len()
        &&& forall|i: int|
            0 <= i < self.words.len() && #[trigger] self.slots[i] !is Live ==> self.words[i]
                < READER_ACTIVE
        &&& forall|i: int|
            0 <= i < self.words.len() ==> #[trigger] self.words[i] == self.parity_word()
                || self.words[i] == self.parity_word() + READER_ACTIVE
        &&& self.residual == tally(self.pins(), !self.swapped)
    }
}

impl ReaderId {
    /// The reader's place among the words.
    pub closed spec fn index(&self) -> int {
        self.index as int
    }
}

impl ReadGuard {
    /// The reader's word as the guard found it.
    pub closed spec fn swap_state(&self) -> usize {
        self.swap_state
    }
}

pub(crate) proof fn lemma_word_bits(w: usize)
    requires
        w < 4,
    ensures
        w ^ 1 == (if w % 2 == 0 {
            w + 1
        } else {
            w - 1
        }),
        w | 2 == (if w >= 2 {
            w as int
        } else {
            w + 2
        }),
        w & !2usize == (if w >= 2 {
            w - 2
        } else {
            w as int
        }),
        w & 1 == w % 2,
{
    assert(w < 4 ==> w ^ 1 == (if w % 2 == 0 {
        (w + 1) as usize
    } else {
        (w - 1) as usize
    })) by (bit_vector);
    assert(w < 4 ==> w | 2 == (if w >= 2 {
        w
    } else {
        (w + 2) as usize
    })) by (bit_vector);
    assert(w < 4 ==> w & !2usize == (if w >= 2 {
        (w - 2) as usize
    } else {
        w
    })) by (bit_vector);
    assert(w < 4 ==> w & 1 == w % 2) by (bit_vector);
}

impl FlashStrategy<ThreadParkToken> {
    /// A strategy whose writer waits as a thread.
    pub fn new_blocking() -> (strategy: Self)
        ensures
            strategy.wf(),
            strategy.protocol() == Protocol::init(),
            strategy.state().words.len() == 0,
            !strategy.state().parker.waiting(),
    {
        Self::with_park_token()
    }
}

impl FlashStrategy<AsyncParkToken> {
    /// A strategy whose writer waits as a task.
    pub fn new_async() -> (strategy: Self)
        ensures
            strategy.wf(),
            strategy.protocol() == Protocol::init(),
            strategy.state().words.len() == 0,
            !strategy.state().parker.waiting(),
    {
        Self::with_park_token()
    }
}

impl FlashStrategy<AdaptiveParkToken> {
    /// A strategy whose writer waits either way.
    pub fn new() -> (strategy: Self)
        ensures
            strategy.wf(),
            strategy.protocol() == Protocol::init(),
            strategy.state().words.len() == 0,
            !strategy.state().parker.waiting(),
    {
        Self::with_park_token()
    }
}

impl<ParkToken> FlashStrategy<ParkToken> {
    /// The state as the contracts see it.
    pub closed spec fn state(&self) -> FlashState<ParkToken> {
        FlashState {
            swapped: self.swap_state != NOT_SWAPPED,
            words: self.readers@,
            slots: self.slots@,
            taken: self.taken@,
            residual: self.residual as nat,
            parker: self.parker,
        }
    }

    /// The parity is one of its two values.
    pub closed spec fn parity_in_range(&self) -> bool {
        self.swap_state <= SWAPPED
    }

    /// How many words there are, of readers that are there and of readers
    /// that have gone.
    pub fn slot_count(&self) -> (count: usize)
        ensures
            count == self.state().words.len(),
    {
        self.readers.len()
    }

    /// The token, to register with it or to take what it has recorded.
    pub fn parker_mut(&mut self) -> (parker: &mut ParkToken)
        ensures
            *parker == old(self).state().parker,
            final(self).state() == (FlashState { parker: *final(parker), ..old(self).state() }),
            final(self).parity_in_range() == old(self).parity_in_range(),
    {
        &mut self.parker
    }

    /// Whether no residual reader is left.
    fn poll(&self) -> (out: Poll<()>)
        ensures
            out is Ready <==> self.state().residual == 0,
    {
        if self.residual == 0 {
            Poll::Ready(())
        } else {
            Poll::Pending
        }
    }
}

impl<ParkToken: Parker> FlashStrategy<ParkToken> {
    fn with_park_token() -> (strategy: Self)
        ensures
            strategy.wf(),
            strategy.protocol() == Protocol::init(),
            strategy.state().words.len() == 0,
            !strategy.state().parker.waiting(),
    {
        let strategy = Self {
            swap_state: NOT_SWAPPED,
            readers: Vec::new(),
            slots: Vec::new(),
            residual: 0,
            parker: ParkToken::fresh(),
            taken: Ghost(Seq::empty()),
        };
        assert(strategy.state().pins() =~= Seq::empty());
        strategy
    }

    /// Gives a new reader a word: the first retired one, idle and of the
    /// current parity as every word is, or else a new one.
    fn create_reader_id(&mut self) -> (reader: ReaderId)
        requires
            old(self).wf(),
        ensures
            final(self).wf(),
            final(self).protocol() == old(self).protocol(),
            final(self).reader_ready(&reader),
            crate::interface::reader_frame(old(self), final(self)),
            Self::created(old(self), final(self), &reader),
    {
        let ghost pre = self.state();
        let mut i: usize = 0;
        while i < self.slots.len()
            invariant
                old(self).wf(),
                pre == old(self).state(),
                self.state() == pre,
                self.wf(),
                i <= self.slots@.len(),
                forall|j: int| 0 <= j < i ==> self.slots@[j] !is Retired,
            decreases self.slots@.len() - i,
        {
            let retired = match self.slots[i] {
                Slot::Retired => true,
                _ => false,
            };
            if retired {
                self.slots.set(i, Slot::Live);
                proof {
                    assert(self.state().pins() =~= pre.pins());
                }
                return ReaderId { index: i };
            }
            i += 1;
        }
        let index = self.readers.len();
        self.readers.push(self.swap_state);
        self.slots.push(Slot::Live);
        self.taken = Ghost(self.taken@.push(false));
        proof {
            assert(self.state().pins() =~= pre.pins().push(None));
            lemma_tally_push(pre.pins(), None, true);
            lemma_tally_push(pre.pins(), None, false);
        }
        ReaderId { index }
    }
}

/// A reader that holds a guard cannot take a second one: holding and being
/// ready exclude each other.
pub proof fn lemma_one_guard_per_reader<ParkToken: Parker>(
    strategy: FlashStrategy<ParkToken>,
    reader: ReaderId,
    guard: ReadGuard,
)
    ensures
        !(strategy.reader_ready(&reader) && strategy.reader_holds(&reader, &guard)),
{
}

/// The count of residual readers never exceeds the number of readers, so it
/// cannot overflow however many readers there are.
pub proof fn lemma_residual_bounded<ParkToken: Parker>(strategy: FlashStrategy<ParkToken>)
    requires
        strategy.wf(),
    ensures
        strategy.state().residual <= strategy.state().words.len(),
        strategy.state().residual <= usize::MAX,
{
    crate::protocol::lemma_tally_bound(strategy.state().pins(), !strategy.state().swapped);
}

/// A reader that is created while a swap starts is safe whichever comes
/// first. Created first, the swap sees its word, exchanges the parity in it
/// and does not count it; created second, its word has the new parity at
/// once. Either way the reader's first guard is taken under the new parity
/// and the swap waits for the same readers.
pub proof fn lemma_create_commutes_with_start<ParkToken: Parker>(
    pre: FlashStrategy<ParkToken>,
    writer: WriterId,
    created_first: FlashStrategy<ParkToken>,
    then_started: FlashStrategy<ParkToken>,
    started_first: FlashStrategy<ParkToken>,
    then_created: FlashStrategy<ParkToken>,
    seen: ReaderId,
    unseen: ReaderId,
    swap: Swap,
)
    requires
        pre.wf(),
        FlashStrategy::created(&pre, &created_first, &seen),
        FlashStrategy::started(&created_first, &writer, &then_started, &writer, &Ok(swap)),
        FlashStrategy::started(&pre, &writer, &started_first, &writer, &Ok(swap)),
        FlashStrategy::created(&started_first, &then_created, &unseen),
    ensures
        then_started.state().swapped == !pre.state().swapped,
        then_created.state().swapped == !pre.state().swapped,
        then_started.state().words[seen.index()] == then_started.state().parity_word(),
        then_created.state().words[unseen.index()] == then_created.state().parity_word(),
        then_started.state().residual == pre.state().residual + tally(
            pre.state().pins(),
            pre.state().swapped,
        ),
        then_created.state().residual == then_started.state().residual,
        (forall|i: int| 0 <= i < pre.state().slots.len() ==> pre.state().slots[i] is Live)
            ==> then_started.state() == then_created.state() && seen.index() == unseen.index(),
{
    let p = pre.state();
    let a = created_first.state();
    let b = then_started.state();
    let c = started_first.state();
    let d = then_created.state();
    if seen.index() < p.words.len() {
        assert(a.pins() =~= p.pins());
        assert(p.words[seen.index()] < READER_ACTIVE);
    } else {
        assert(a.pins() =~= p.pins().push(None));
        lemma_tally_push(p.pins(), None, p.swapped);
    }
    assert(b.words[seen.index()] == b.parity_word());
    if unseen.index() < c.words.len() {
        assert(c.slots[unseen.index()] == p.slots[unseen.index()].swept());
        assert(p.slots[unseen.index()] !is Live);
        assert(p.words[unseen.index()] < READER_ACTIVE);
    }
    if forall|i: int| 0 <= i < p.slots.len() ==> p.slots[i] is Live {
        assert forall|i: int| 0 <= i < c.slots.len() implies c.slots[i] is Live by {
            assert(c.slots[i] == p.slots[i].swept());
        }
        assert(b.words =~= d.words) by {
            assert forall|i: int| 0 <= i < b.words.len() implies b.words[i] == d.words[i] by {
                if i < p.words.len() {
                    assert(a.words[i] == p.words[i]);
                }
            }
        }
        assert(b.slots =~= d.slots) by {
            assert forall|i: int| 0 <= i < b.slots.len() implies b.slots[i] == d.slots[i] by {
                assert(b.slots[i] == a.slots[i].swept());
                if i < p.slots.len() {
                    assert(c.slots[i] == p.slots[i].swept());
                }
            }
        }
    }
}

impl<ParkToken: Parker> StrategyModel for FlashStrategy<ParkToken> {
    type WriterId = WriterId;

    type ReaderId = ReaderId;

    type Swap = Swap;

    type SwapError = core::convert::Infallible;

    type ReadGuard = ReadGuard;

    open spec fn wf(&self) -> bool {
        &&& self.parity_in_range()
        &&& self.state().wf()
    }

    open spec fn protocol(&self) -> Protocol {
        protocol_of(self.state().swapped, self.state().pins())
    }

    open spec fn writer_valid(&self, writer: &WriterId) -> bool {
        true
    }

    open spec fn reader_ready(&self, reader: &ReaderId) -> bool {
        &&& 0 <= reader.index() < self.state().words.len()
        &&& self.state().slots[reader.index()] is Live
        &&& self.state().words[reader.index()] < READER_ACTIVE
    }

    open spec fn has_room(&self, reader: &ReaderId) -> bool {
        true
    }

    open spec fn reader_holds(&self, reader: &ReaderId, guard: &ReadGuard) -> bool {
        &&& 0 <= reader.index() < self.state().words.len()
        &&& self.state().slots[reader.index()] is Live
        &&& self.state().words[reader.index()] >= READER_ACTIVE
        &&& guard.swap_state() <= SWAPPED
        &&& self.state().taken[reader.index()] == (guard.swap_state() != NOT_SWAPPED)
    }

    open spec fn same_reader(a: &ReaderId, b: &ReaderId) -> bool {
        a.index() == b.index()
    }

    open spec fn guard_parity(guard: &ReadGuard) -> bool {
        guard.swap_state() != NOT_SWAPPED
    }

    open spec fn swap_valid(&self, writer: &WriterId, swap: &Swap) -> bool {
        true
    }

    open spec fn swap_target(&self, swap: &Swap) -> bool {
        self.state().swapped
    }

    /// The placeholder names no reader of any strategy.
    open spec fn placeholder(reader: &ReaderId) -> bool {
        reader.index() == usize::MAX
    }

    /// Minting the writer id changes nothing.
    open spec fn minted(pre: &Self, post: &Self, writer: &WriterId) -> bool {
        post.state() == pre.state()
    }

    /// The new reader gets the first retired word, or a new word if none is
    /// retired. Either way the word is idle and of the current parity.
    open spec fn created(pre: &Self, post: &Self, reader: &ReaderId) -> bool {
        let i = reader.index();
        &&& forall|j: int| 0 <= j < i && j < pre.state().slots.len() ==> pre.state().slots[j] !is Retired
        &&& if i < pre.state().words.len() {
            &&& 0 <= i
            &&& pre.state().slots[i] is Retired
            &&& post.state() == FlashState { slots: pre.state().slots.update(i, Slot::Live), ..pre.state() }
        } else {
            &&& i == pre.state().words.len()
            &&& post.state() == FlashState {
                words: pre.state().words.push(pre.state().parity_word()),
                slots: pre.state().slots.push(Slot::Live),
                taken: pre.state().taken.push(false),
                ..pre.state()
            }
        }
    }

    /// The reader's word is marked: the next swap that comes by retires it.
    open spec fn dropped(pre: &Self, reader: &ReaderId, post: &Self) -> bool {
        post.state() == FlashState {
            slots: pre.state().slots.update(reader.index(), Slot::Dropped),
            ..pre.state()
        }
    }

    /// The reader's word gets the active bit; the guard keeps the word as
    /// it was, which is the parity.
    open spec fn acquired(
        pre: &Self,
        pre_reader: &ReaderId,
        post: &Self,
        post_reader: &ReaderId,
        guard: &ReadGuard,
    ) -> bool {
        let i = pre_reader.index();
        &&& post_reader.index() == i
        &&& guard.swap_state() == pre.state().words[i]
        &&& post.state() == FlashState {
            words: pre.state().words.update(i, (pre.state().words[i] + READER_ACTIVE) as usize),
            taken: pre.state().taken.update(i, pre.state().swapped),
            ..pre.state()
        }
    }

    /// The reader's word loses the active bit. A residual reader leaves the
    /// count, and the one that empties the count wakes the writer.
    open spec fn released(
        pre: &Self,
        pre_reader: &ReaderId,
        guard: &ReadGuard,
        post: &Self,
        post_reader: &ReaderId,
    ) -> bool {
        let i = pre_reader.index();
        let residual = Self::guard_parity(guard) != pre.state().swapped;
        &&& post_reader.index() == i
        &&& post.state().swapped == pre.state().swapped
        &&& post.state().words == pre.state().words.update(
            i,
            (pre.state().words[i] - READER_ACTIVE) as usize,
        )
        &&& post.state().taken == pre.state().taken
        &&& post.state().residual == if residual {
            (pre.state().residual - 1) as nat
        } else {
            pre.state().residual
        }
        &&& if residual && pre.state().residual == 1 {
            ParkToken::woken(&pre.state().parker, &post.state().parker)
        } else {
            post.state().parker == pre.state().parker
        }
    }

    /// A swap always starts. The parity is exchanged in the strategy and in
    /// every word, the readers that hold a guard become the residual ones, and
    /// the words whose readers have gone are retired.
    open spec fn started(
        pre: &Self,
        pre_writer: &WriterId,
        post: &Self,
        post_writer: &WriterId,
        result: &Result<Swap, core::convert::Infallible>,
    ) -> bool {
        &&& result is Ok
        &&& post.protocol() == pre.protocol().toggle()
        &&& post.state().swapped == !pre.state().swapped
        &&& post.state().words.len() == pre.state().words.len()
        &&& forall|i: int|
            0 <= i < pre.state().words.len() ==> #[trigger] post.state().words[i] == (
            if pre.state().swapped {
                pre.state().words[i] - 1
            } else {
                pre.state().words[i] + 1
            })
        &&& post.state().slots.len() == pre.state().slots.len()
        &&& forall|i: int|
            0 <= i < pre.state().slots.len() ==> #[trigger] post.state().slots[i]
                == pre.state().slots[i].swept()
        &&& post.state().taken == pre.state().taken
        &&& post.state().residual == pre.state().residual + tally(
            pre.state().pins(),
            pre.state().swapped,
        )
        &&& post.state().parker == pre.state().parker
    }

    /// Asking changes nothing.
    open spec fn probed(
        pre: &Self,
        pre_writer: &WriterId,
        pre_swap: &Swap,
        post: &Self,
        post_writer: &WriterId,
        post_swap: &Swap,
    ) -> bool {
        post.state() == pre.state()
    }
}

impl<ParkToken: Parker> Strategy for FlashStrategy<ParkToken> {
    #[inline]
    fn create_writer_id(&mut self) -> (writer: WriterId) {
        WriterId(())
    }

    #[inline]
    fn create_reader_id_from_writer(&mut self, writer: &WriterId) -> (reader: ReaderId) {
        self.create_reader_id()
    }

    #[inline]
    fn create_reader_id_from_reader(&mut self, reader: &ReaderId) -> (fresh: ReaderId) {
        self.create_reader_id()
    }

    fn create_invalid_reader_id() -> (reader: ReaderId) {
        ReaderId { index: usize::MAX }
    }

    fn drop_reader_id(&mut self, reader: ReaderId) {
        self.slots.set(reader.index, Slot::Dropped);
        proof {
            assert(self.state().pins() =~= old(self).state().pins());
        }
    }

    fn is_swapped_writer(&self, writer: &WriterId) -> (swapped: bool) {
        self.swap_state != NOT_SWAPPED
    }

    fn is_swapped(&self, reader: &ReaderId, guard: &ReadGuard) -> (swapped: bool) {
        guard.swap_state != NOT_SWAPPED
    }

    fn try_start_swap(&mut self, writer: &mut WriterId) -> (result: Result<
        Swap,
        core::convert::Infallible,
    >) {
        let ghost pre = self.state();
        let old_swap_state = self.swap_state;
        proof {
            lemma_word_bits(old_swap_state);
            lemma_tally_zero(pre.pins(), !pre.swapped);
        }
        self.swap_state = old_swap_state ^ SWAPPED;
        let residual_swap_state = old_swap_state | READER_ACTIVE;
        let mut residual: usize = 0;
        let mut i: usize = 0;
        while i < self.readers.len()
            invariant
                pre.wf(),
                old_swap_state == pre.parity_word(),
                residual_swap_state == old_swap_state + READER_ACTIVE,
                self.swap_state == 1 - old_swap_state,
                self.readers@.len() == pre.words.len(),
                self.slots@.len() == pre.slots.len(),
                forall|j: int| 0 <= j < i ==> #[trigger] self.slots@[j] == pre.slots[j].swept(),
                forall|j: int| i <= j < pre.slots.len() ==> self.slots@[j] == pre.slots[j],
                self.taken@ == pre.taken,
                self.residual == pre.residual,
                self.parker == pre.parker,
                i <= self.readers@.len(),
                residual == tally(pre.pins().take(i as int), pre.swapped),
                residual <= i,
                forall|j: int| 0 <= j < i ==> #[trigger] self.readers@[j] == (if pre.swapped {
                    pre.words[j] - 1
                } else {
                    pre.words[j] + 1
                }),
                forall|j: int| i <= j < pre.words.len() ==> self.readers@[j] == pre.words[j],
                forall|j: int| 0 <= j < pre.pins().len() ==> pre.pins()[j] != Some(!pre.swapped),
            decreases self.readers.len() - i,
        {
            let reader_swap_state = self.readers[i];
            proof {
                assert(pre.words[i as int] == reader_swap_state);
                lemma_word_bits(reader_swap_state);
                assert(pre.pins().take(i + 1).drop_last() =~= pre.pins().take(i as int));
                assert(pre.pins().take(i + 1).last() == pre.pins()[i as int]);
                assert(pre.pins()[i as int] == pin_of(pre.words[i as int], pre.taken[i as int]));
            }
            // a word whose reader has gone is retired
            let gone = match self.slots[i] {
                Slot::Dropped => true,
                _ => false,
            };
            if gone {
                self.slots.set(i, Slot::Retired);
            }
            // exchange the parity in each word
            self.readers.set(i, reader_swap_state ^ 1);
            if reader_swap_state == residual_swap_state {
                residual += 1;
            }
            i += 1;
        }
        proof {
            assert(pre.pins().take(i as int) =~= pre.pins());
        }
        self.residual = self.residual + residual;
        proof {
            let post = self.state();
            assert(post.pins() =~= pre.pins());
        }
        Ok(Swap)
    }

    fn is_swap_finished(&mut self, writer: &mut WriterId, swap: &mut Swap) -> (finished: bool) {
        self.residual == 0
    }

    fn acquire_read_guard(&mut self, reader: &mut ReaderId) -> (guard: ReadGuard) {
        let ghost pre = self.state();
        let i = reader.index;
        let word = self.readers[i];
        proof {
            lemma_word_bits(word);
        }
        let id = word;
        self.readers.set(i, word | READER_ACTIVE);
        self.taken = Ghost(self.taken@.update(i as int, pre.swapped));
        proof {
            let post = self.state();
            assert(post.pins() =~= pre.pins().update(i as int, Some(pre.swapped)));
            lemma_tally_update(pre.pins(), i as int, Some(pre.swapped), true);
            lemma_tally_update(pre.pins(), i as int, Some(pre.swapped), false);
        }
        ReadGuard { swap_state: id }
    }

    fn release_read_guard(&mut self, reader: &mut ReaderId, guard: ReadGuard) {
        let ghost pre = self.state();
        let i = reader.index;
        let word = self.readers[i];
        proof {
            lemma_word_bits(word);
            lemma_word_bits(guard.swap_state);
        }
        let reader_swap_state = word;
        self.readers.set(i, word & !READER_ACTIVE);
        proof {
            let post = self.state();
            assert(pre.words[i as int] == word);
            assert(pre.pins()[i as int] == Some(pre.taken[i as int]));
            assert(post.pins() =~= pre.pins().update(i as int, None));
            lemma_tally_update(pre.pins(), i as int, None, true);
            lemma_tally_update(pre.pins(), i as int, None, false);
            lemma_tally_positive(pre.pins(), i as int, pre.taken[i as int]);
        }
        // if there was no swap in between then this is all
        if guard.swap_state & 1 == reader_swap_state & 1 {
            return ;
        }
        // a swap came in between: this is a residual reader of that swap

        let residual = self.residual;
        self.residual = residual - 1;
        // while residual readers are left, one of them wakes the writer
        if residual != 1 {
            return ;
        }
        self.parker.wake()
    }
}

impl AsyncStrategy for FlashStrategy<AsyncParkToken> {
    open spec fn registered(&self) -> bool {
        self.state().parker.is_waiting()
    }

    fn register_context(&mut self, writer: &mut WriterId, swap: &mut Swap, ctx: &mut Context<'_>) -> (out:
        Poll<()>)
        ensures
            out is Ready <==> old(self).state().residual == 0,
            out is Pending ==> final(self).state().parker.is_waiting(),
    {
        match self.poll() {
            Poll::Ready(_) => Poll::Ready(()),
            Poll::Pending => {
                self.parker.set(ctx);
                Poll::Pending
            },
        }
    }
}

impl BlockingStrategy for FlashStrategy<ThreadParkToken> {
    fn finish_swap(&mut self, writer: &mut WriterId, swap: Swap) -> (result: Result<(), Swap>)
        ensures
            result is Err ==> final(self).state().parker.is_waiting(),
    {
        match self.poll() {
            Poll::Ready(_) => Ok(()),
            Poll::Pending => {
                self.parker.set();
                Err(swap)
            },
        }
    }
}

impl AsyncStrategy for FlashStrategy<AdaptiveParkToken> {
    open spec fn registered(&self) -> bool {
        self.state().parker.async_token.is_waiting()
    }

    fn register_context(&mut self, writer: &mut WriterId, swap: &mut Swap, ctx: &mut Context<'_>) -> (out:
        Poll<()>)
        ensures
            out is Ready <==> old(self).state().residual == 0,
            out is Pending ==> final(self).state().parker.async_token.is_waiting(),
    {
        match self.poll() {
            Poll::Ready(_) => Poll::Ready(()),
            Poll::Pending => {
                self.parker.async_token.set(ctx);
                Poll::Pending
            },
        }
    }
}

impl BlockingStrategy for FlashStrategy<AdaptiveParkToken> {
    fn finish_swap(&mut self, writer: &mut WriterId, swap: Swap) -> (result: Result<(), Swap>)
        ensures
            result is Err ==> final(self).state().parker.thread_token.is_waiting(),
    {
        match self.poll() {
            Poll::Ready(_) => Ok(()),
            Poll::Pending => {
                self.parker.thread_token.set();
                Err(swap)
            },
        }
    }
}

} // verus!
