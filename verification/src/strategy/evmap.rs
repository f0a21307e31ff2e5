//! A strategy with one epoch counter per reader.
//!
//! A reader's epoch goes up by one when the reader takes a guard and by one
//! when it gives the guard back, so it is odd exactly while the reader
//! reads. A swap exchanges the parity and takes a snapshot of every epoch.
//! The swap is finished when every reader whose snapshot is odd has moved
//! on from it: such a reader was reading when the swap began and has since
//! given its guard back.
use vstd::prelude::*;
use core::ops::Range;
use crate::interface::{BlockingStrategy, Strategy, StrategyModel};
use crate::protocol::{
    lemma_tally_positive,
    lemma_tally_push,
    lemma_tally_update,
    lemma_tally_zero,
    protocol_of,
    tally,
    Protocol,
    Slot,
};

verus! {

pub struct EvMapStrategy {
    is_swapped: bool,
    epochs: Vec<usize>,
    /// For each epoch, what has become of it.
    slots: Vec<Slot>,
    /// For each reader, the parity under which its guard was taken; it
    /// means something only while the epoch is odd.
    taken: Ghost<Seq<bool>>,
}

pub struct WriterId {
    last_epochs: Vec<usize>,
}

pub struct ReaderId {
    index: usize,
}

pub struct Swap {
    range: Range<usize>,
}

/// The state of an [`EvMapStrategy`] as the contracts see it.
pub struct EvMapState {
    /// The parity.
    pub swapped: bool,
    /// The readers' epochs.
    pub epochs: Seq<usize>,
    /// For each reader, the parity under which its guard was taken.
    pub taken: Seq<bool>,
}

/// What the reader with `epoch` holds, if a guard of it was taken under `taken`.
pub open spec fn pin_of(epoch: usize, taken: bool) -> Option<bool> {
    if epoch % 2 == 1 {
        Some(taken)
    } else {
        None
    }
}

/// What each reader holds.
pub open spec fn pins_of(epochs: Seq<usize>, taken: Seq<bool>) -> Seq<Option<bool>> {
    Seq::new(epochs.len(), |i: int| pin_of(epochs[i], taken[i]))
}

impl EvMapState {
    /// What each reader holds.
    pub open spec fn pins(self) -> Seq<Option<bool>> {
        pins_of(self.epochs, self.taken)
    }

    /// Reader `i` holds a guard that pins the writer's cell.
    pub open spec fn residual(self, i: int) -> bool {
        self.pins()[i] == Some(!self.swapped)
    }

    pub open spec fn wf(self) -> bool {
        &&& self.taken.len() == self.epochs.len()
        &&& forall|i: int|
            0 <= i < self.epochs.len() && #[trigger] self.epochs[i] % 2 == 1 ==> self.epochs[i]
                < usize::MAX
    }

    /// The snapshot `last` describes the swap under way, of which the readers
    /// from `start` up to `end` are still to be looked at: among them the
    /// residual readers are those whose snapshot is odd and is still their
    /// epoch, and no other reader is residual.
    pub open spec fn snapshot_valid(self, last: Seq<usize>, start: int, end: int) -> bool {
        &&& 0 <= start <= end <= self.epochs.len()
        &&& end <= last.len()
        &&& forall|i: int|
            start <= i < end ==> #[trigger] last[i] <= self.epochs[i] && ((last[i] % 2 == 1
                && self.epochs[i] == last[i]) <==> self.residual(i))
        &&& forall|i: int|
            0 <= i < self.epochs.len() && !(start <= i < end) ==> !#[trigger] self.residual(i)
    }
}

/// A reader that moves its own epoch on, and is not residual afterwards,
/// leaves every snapshot valid.
pub(crate) proof fn lemma_step_keeps_snapshot(
    pre: EvMapState,
    post: EvMapState,
    i: int,
    last: Seq<usize>,
    start: int,
    end: int,
)
    requires
        pre.taken.len() == pre.epochs.len(),
        post.taken.len() == post.epochs.len(),
        pre.snapshot_valid(last, start, end),
        0 <= i < pre.epochs.len(),
        post.swapped == pre.swapped,
        post.epochs.len() == pre.epochs.len(),
        post.epochs[i] > pre.epochs[i],
        !post.residual(i),
        forall|j: int|
            0 <= j < pre.epochs.len() && j != i ==> post.epochs[j] == pre.epochs[j]
                && post.taken[j] == pre.taken[j],
    ensures
        post.snapshot_valid(last, start, end),
{
    assert forall|j: int| start <= j < end implies #[trigger] last[j] <= post.epochs[j] && ((last[j]
        % 2 == 1 && post.epochs[j] == last[j]) <==> post.residual(j)) by {
        assert(last[j] <= pre.epochs[j]);
        if j != i {
            assert(post.pins()[j] == pre.pins()[j]);
            assert(post.residual(j) == pre.residual(j));
        }
    }
    assert forall|j: int| 0 <= j < post.epochs.len() && !(start <= j < end) implies !#[trigger]
        post.residual(j) by {
        if j != i {
            assert(post.pins()[j] == pre.pins()[j]);
            assert(!pre.residual(j));
        }
    }
}

/// New readers, idle, leave every snapshot valid.
pub(crate) proof fn lemma_growth_keeps_snapshot(
    pre: EvMapState,
    post: EvMapState,
    last: Seq<usize>,
    start: int,
    end: int,
)
    requires
        pre.taken.len() == pre.epochs.len(),
        post.taken.len() == post.epochs.len(),
        pre.snapshot_valid(last, start, end),
        post.swapped == pre.swapped,
        post.epochs.len() >= pre.epochs.len(),
        forall|j: int|
            0 <= j < pre.epochs.len() ==> post.epochs[j] == pre.epochs[j] && post.taken[j]
                == pre.taken[j],
        forall|j: int| pre.epochs.len() <= j < post.epochs.len() ==> post.epochs[j] % 2 == 0,
    ensures
        post.snapshot_valid(last, start, end),
{
    assert forall|j: int| start <= j < end implies #[trigger] last[j] <= post.epochs[j] && ((last[j]
        % 2 == 1 && post.epochs[j] == last[j]) <==> post.residual(j)) by {
        assert(last[j] <= pre.epochs[j]);
        assert(post.pins()[j] == pre.pins()[j]);
        assert(post.residual(j) == pre.residual(j));
    }
    assert forall|j: int| 0 <= j < post.epochs.len() && !(start <= j < end) implies !#[trigger]
        post.residual(j) by {
        if j < pre.epochs.len() {
            assert(post.pins()[j] == pre.pins()[j]);
            assert(!pre.residual(j));
        }
    }
}

/// A new reader, idle, leaves every snapshot valid.
proof fn lemma_push_keeps_snapshot(
    pre: EvMapState,
    post: EvMapState,
    last: Seq<usize>,
    start: int,
    end: int,
)
    requires
        pre.taken.len() == pre.epochs.len(),
        pre.snapshot_valid(last, start, end),
        post.swapped == pre.swapped,
        post.epochs == pre.epochs.push(0),
        post.taken == pre.taken.push(false),
    ensures
        post.snapshot_valid(last, start, end),
{
    assert forall|j: int| start <= j < end implies #[trigger] last[j] <= post.epochs[j] && ((last[j]
        % 2 == 1 && post.epochs[j] == last[j]) <==> post.residual(j)) by {
        assert(last[j] <= pre.epochs[j]);
        assert(post.pins()[j] == pre.pins()[j]);
        assert(post.residual(j) == pre.residual(j));
    }
    assert forall|j: int| 0 <= j < post.epochs.len() && !(start <= j < end) implies !#[trigger]
        post.residual(j) by {
        if j < pre.epochs.len() {
            assert(post.pins()[j] == pre.pins()[j]);
            assert(!pre.residual(j));
        }
    }
}

impl WriterId {
    /// The snapshot of the epochs that the latest swap took.
    pub closed spec fn last_epochs(&self) -> Seq<usize> {
        self.last_epochs@
    }
}

impl ReaderId {
    /// The reader's place among the epochs.
    pub closed spec fn index(&self) -> int {
        self.index as int
    }
}

impl Swap {
    /// The first reader still to be looked at.
    pub closed spec fn start(&self) -> int {
        self.range.start as int
    }

    /// One past the last reader that the swap has to wait for.
    pub closed spec fn end(&self) -> int {
        self.range.end as int
    }
}

impl EvMapStrategy {
    /// A strategy without readers, not swapped.
    pub fn new() -> (strategy: Self)
        ensures
            strategy.wf(),
            strategy.protocol() == Protocol::init(),
            strategy.state().epochs.len() == 0,
            strategy.slots().len() == 0,
    {
        let strategy = Self {
            is_swapped: false,
            epochs: Vec::new(),
            slots: Vec::new(),
            taken: Ghost(Seq::empty()),
        };
        assert(strategy.state().pins() =~= Seq::empty());
        strategy
    }

    /// The state as the contracts see it.
    pub closed spec fn state(&self) -> EvMapState {
        EvMapState { swapped: self.is_swapped, epochs: self.epochs@, taken: self.taken@ }
    }

    /// For each epoch, what has become of it.
    pub closed spec fn slots(&self) -> Seq<Slot> {
        self.slots@
    }

    /// How many epochs there are, of readers that are there and of readers
    /// that have gone.
    pub fn slot_count(&self) -> (count: usize)
        ensures
            count == self.state().epochs.len(),
    {
        self.epochs.len()
    }

    /// The reader at `place` takes a guard: its epoch goes up by one.
    pub open spec fn stepped(&self, place: int, post: &Self) -> bool {
        &&& post.state() == EvMapState {
            epochs: self.state().epochs.update(place, (self.state().epochs[place] + 1) as usize),
            taken: self.state().taken.update(place, self.state().swapped),
            ..self.state()
        }
        &&& post.slots() == self.slots()
    }

    /// The epoch at `place` is retired and has room for a guard to be taken
    /// and given back: it can serve a new reader.
    pub open spec fn usable(&self, place: int) -> bool {
        &&& self.slots()[place] is Retired
        &&& self.state().epochs[place] + 2 <= usize::MAX
    }

    /// Gives a new reader an epoch: the first retired one that has room, or
    /// else a new one at zero.
    fn create_reader_id(&mut self) -> (reader: ReaderId)
        requires
            old(self).wf(),
        ensures
            final(self).wf(),
            final(self).protocol() == old(self).protocol(),
            final(self).reader_ready(&reader),
            final(self).state().epochs[reader.index()] + 2 <= usize::MAX,
            crate::interface::writer_frame(old(self), final(self)),
            crate::interface::reader_frame(old(self), final(self)),
            Self::created(old(self), final(self), &reader),
    {
        let ghost pre = self.state();
        let mut i: usize = 0;
        while i < self.slots.len()
            invariant
                old(self).wf(),
                pre == old(self).state(),
                self.state() == pre,
                self.slots() == old(self).slots(),
                self.wf(),
                i <= self.slots@.len(),
                forall|j: int| 0 <= j < i ==> !old(self).usable(j),
            decreases self.slots@.len() - i,
        {
            let retired = match self.slots[i] {
                Slot::Retired => true,
                _ => false,
            };
            if retired && self.epochs[i] < usize::MAX - 1 {
                self.slots.set(i, Slot::Live);
                return ReaderId { index: i };
            }
            i += 1;
        }
        let index = self.epochs.len();
        self.epochs.push(0);
        self.slots.push(Slot::Live);
        self.taken = Ghost(self.taken@.push(false));
        proof {
            let post = self.state();
            assert(post.pins() =~= pre.pins().push(None));
            lemma_tally_push(pre.pins(), None, true);
            lemma_tally_push(pre.pins(), None, false);
            assert forall|w: WriterId, s: Swap| #[trigger]
                old(self).swap_valid(&w, &s) implies self.swap_valid(&w, &s) by {
                lemma_push_keeps_snapshot(pre, post, w.last_epochs(), s.start(), s.end());
            }
        }
        ReaderId { index }
    }
}

impl Default for EvMapStrategy {
    fn default() -> (strategy: Self)
        ensures
            strategy.wf(),
            strategy.protocol() == Protocol::init(),
    {
        Self::new()
    }
}

/// Whether every reader of the swap whose snapshot is odd has moved on.
/// Where one has not, the swap remembers to begin with that reader next time.
fn is_swap_finished(strategy: &EvMapStrategy, writer: &WriterId, swap: &mut Swap) -> (finished:
    bool)
    requires
        strategy.wf(),
        strategy.swap_valid(writer, old(swap)),
    ensures
        strategy.swap_valid(writer, final(swap)),
        finished == strategy.protocol().settled(strategy.state().swapped),
        final(swap).end() == old(swap).end(),
        old(swap).start() <= final(swap).start(),
        finished ==> final(swap).start() == old(swap).start(),
        !finished ==> strategy.state().residual(final(swap).start()),
        forall|j: int| old(swap).start() <= j < final(swap).start() ==> !strategy.state().residual(j),
{
    let ghost state = strategy.state();
    let start = swap.range.start;
    let end = swap.range.end;
    let mut i: usize = 0;
    while i < end - start
        invariant
            start == old(swap).start(),
            end == old(swap).end(),
            *swap == *old(swap),
            state == strategy.state(),
            strategy.wf(),
            state.snapshot_valid(writer.last_epochs(), start as int, end as int),
            i <= end - start,
            forall|j: int| start <= j < start + i ==> !state.residual(j),
        decreases end - start - i,
    {
        let last_epoch = writer.last_epochs[start + i];
        let now = strategy.epochs[start + i];
        proof {
            assert(writer.last_epochs()[start + i] == last_epoch);
        }
        // a reader that was not reading when the swap began cannot be in the writer's cell
        if last_epoch % 2 == 1 && now == last_epoch {
            swap.range.start = start + i;
            proof {
                assert(state.residual(start + i));
                lemma_tally_positive(state.pins(), start + i, !state.swapped);
            }
            return false;
        }
        i += 1;
    }
    proof {
        assert forall|j: int| 0 <= j < state.pins().len() implies state.pins()[j] != Some(
            !state.swapped,
        ) by {
            assert(!state.residual(j));
        }
        lemma_tally_zero(state.pins(), !state.swapped);
    }
    true
}

/// A reader that holds a guard cannot take a second one: holding and being
/// ready exclude each other.
pub proof fn lemma_one_guard_per_reader(strategy: EvMapStrategy, reader: ReaderId, guard: bool)
    ensures
        !(strategy.reader_ready(&reader) && strategy.reader_holds(&reader, &guard)),
{
}

impl StrategyModel for EvMapStrategy {
    type WriterId = WriterId;

    type ReaderId = ReaderId;

    type Swap = Swap;

    type SwapError = core::convert::Infallible;

    type ReadGuard = bool;

    /// An epoch whose reader has gone is even.
    open spec fn wf(&self) -> bool {
        &&& self.state().wf()
        &&& self.slots().len() == self.state().epochs.len()
        &&& forall|i: int|
            0 <= i < self.slots().len() && #[trigger] self.slots()[i] !is Live
                ==> self.state().epochs[i] % 2 == 0
    }

    open spec fn protocol(&self) -> Protocol {
        protocol_of(self.state().swapped, self.state().pins())
    }

    open spec fn writer_valid(&self, writer: &WriterId) -> bool {
        true
    }

    open spec fn reader_ready(&self, reader: &ReaderId) -> bool {
        &&& 0 <= reader.index() < self.state().epochs.len()
        &&& self.slots()[reader.index()] is Live
        &&& self.state().epochs[reader.index()] % 2 == 0
    }

    /// There is always room: a reader whose epoch is used up gets another.
    open spec fn has_room(&self, reader: &ReaderId) -> bool {
        true
    }

    open spec fn reader_holds(&self, reader: &ReaderId, guard: &bool) -> bool {
        &&& 0 <= reader.index() < self.state().epochs.len()
        &&& self.slots()[reader.index()] is Live
        &&& self.state().epochs[reader.index()] % 2 == 1
        &&& self.state().taken[reader.index()] == *guard
    }

    open spec fn same_reader(a: &ReaderId, b: &ReaderId) -> bool {
        a.index() == b.index()
    }

    open spec fn guard_parity(guard: &bool) -> bool {
        *guard
    }

    open spec fn swap_valid(&self, writer: &WriterId, swap: &Swap) -> bool {
        self.state().snapshot_valid(writer.last_epochs(), swap.start(), swap.end())
    }

    open spec fn swap_target(&self, swap: &Swap) -> bool {
        self.state().swapped
    }

    /// The placeholder names no reader of any strategy.
    open spec fn placeholder(reader: &ReaderId) -> bool {
        reader.index() == usize::MAX
    }

    /// Minting the writer id changes nothing; the writer has no snapshot yet.
    open spec fn minted(pre: &Self, post: &Self, writer: &WriterId) -> bool {
        &&& post.state() == pre.state()
        &&& post.slots() == pre.slots()
        &&& writer.last_epochs() == Seq::<usize>::empty()
    }

    /// The new reader gets the first retired epoch that has room, as it is,
    /// or a new epoch at zero if there is none.
    open spec fn created(pre: &Self, post: &Self, reader: &ReaderId) -> bool {
        let i = reader.index();
        &&& forall|j: int| 0 <= j < i && j < pre.slots().len() ==> !pre.usable(j)
        &&& if i < pre.state().epochs.len() {
            &&& 0 <= i
            &&& pre.usable(i)
            &&& post.state() == pre.state()
            &&& post.slots() == pre.slots().update(i, Slot::Live)
        } else {
            &&& i == pre.state().epochs.len()
            &&& post.state() == EvMapState {
                epochs: pre.state().epochs.push(0),
                taken: pre.state().taken.push(false),
                ..pre.state()
            }
            &&& post.slots() == pre.slots().push(Slot::Live)
        }
    }

    /// The reader's epoch is marked: the next swap that comes by retires it.
    open spec fn dropped(pre: &Self, reader: &ReaderId, post: &Self) -> bool {
        &&& post.state() == pre.state()
        &&& post.slots() == pre.slots().update(reader.index(), Slot::Dropped)
    }

    /// The reader's epoch goes up by one; the guard is the parity. A reader
    /// whose epoch is used up leaves it first, as if it went, and gets
    /// another, as if it came.
    open spec fn acquired(
        pre: &Self,
        pre_reader: &ReaderId,
        post: &Self,
        post_reader: &ReaderId,
        guard: &bool,
    ) -> bool {
        let i = pre_reader.index();
        &&& *guard == pre.state().swapped
        &&& if pre.state().epochs[i] + 2 <= usize::MAX {
            &&& post_reader.index() == i
            &&& pre.stepped(i, post)
        } else {
            exists|left: Self, fresh: Self|
                {
                    &&& #[trigger] Self::dropped(pre, pre_reader, &left)
                    &&& #[trigger] Self::created(&left, &fresh, post_reader)
                    &&& fresh.stepped(post_reader.index(), post)
                }
        }
    }

    /// The reader's epoch goes up by one.
    open spec fn released(
        pre: &Self,
        pre_reader: &ReaderId,
        guard: &bool,
        post: &Self,
        post_reader: &ReaderId,
    ) -> bool {
        let i = pre_reader.index();
        &&& post_reader.index() == i
        &&& post.state() == EvMapState {
            epochs: pre.state().epochs.update(i, (pre.state().epochs[i] + 1) as usize),
            ..pre.state()
        }
        &&& post.slots() == pre.slots()
    }

    /// A swap always starts. The parity is exchanged, the epochs whose readers
    /// have gone are retired, the writer's snapshot is the epochs as they
    /// are, and the swap has every reader to look at.
    open spec fn started(
        pre: &Self,
        pre_writer: &WriterId,
        post: &Self,
        post_writer: &WriterId,
        result: &Result<Swap, core::convert::Infallible>,
    ) -> bool {
        &&& result matches Ok(swap)
        &&& swap.start() == 0
        &&& swap.end() == pre.state().epochs.len()
        &&& post.protocol() == pre.protocol().toggle()
        &&& post.state() == EvMapState { swapped: !pre.state().swapped, ..pre.state() }
        &&& post_writer.last_epochs() == pre.state().epochs
        &&& post.slots().len() == pre.slots().len()
        &&& forall|i: int|
            0 <= i < pre.slots().len() ==> #[trigger] post.slots()[i] == pre.slots()[i].swept()
    }

    /// Asking changes nothing but where the swap begins to look next time:
    /// at the first reader that it still has to wait for.
    open spec fn probed(
        pre: &Self,
        pre_writer: &WriterId,
        pre_swap: &Swap,
        post: &Self,
        post_writer: &WriterId,
        post_swap: &Swap,
    ) -> bool {
        &&& post.state() == pre.state()
        &&& post.slots() == pre.slots()
        &&& post_writer.last_epochs() == pre_writer.last_epochs()
        &&& post_swap.end() == pre_swap.end()
        &&& pre_swap.start() <= post_swap.start()
        &&& forall|j: int| pre_swap.start() <= j < post_swap.start() ==> !pre.state().residual(j)
        &&& post_swap.start() == pre_swap.start() || pre.state().residual(post_swap.start())
    }
}

impl Strategy for EvMapStrategy {
    #[inline]
    fn create_writer_id(&mut self) -> (writer: WriterId) {
        WriterId { last_epochs: Vec::new() }
    }

    #[inline]
    fn create_reader_id_from_writer(&mut self, writer: &WriterId) -> (reader: ReaderId) {
        self.create_reader_id()
    }

    #[inline]
    fn create_reader_id_from_reader(&mut self, reader: &ReaderId) -> (fresh: ReaderId) {
        self.create_reader_id()
    }

    fn create_invalid_reader_id() -> (reader: ReaderId) {
        ReaderId { index: usize::MAX }
    }

    fn drop_reader_id(&mut self, reader: ReaderId) {
        self.slots.set(reader.index, Slot::Dropped);
    }

    fn is_swapped_writer(&self, writer: &WriterId) -> (swapped: bool) {
        self.is_swapped
    }

    fn is_swapped(&self, reader: &ReaderId, guard: &bool) -> (swapped: bool) {
        *guard
    }

    fn try_start_swap(&mut self, writer: &mut WriterId) -> (result: Result<
        Swap,
        core::convert::Infallible,
    >) {
        let ghost pre = self.state();
        self.is_swapped = !self.is_swapped;
        let len = self.epochs.len();
        writer.last_epochs.resize(len, 0);
        let mut i: usize = 0;
        while i < len
            invariant
                len == self.epochs@.len(),
                self.epochs@ == pre.epochs,
                self.taken@ == pre.taken,
                self.is_swapped == !pre.swapped,
                self.slots@.len() == len,
                writer.last_epochs@.len() == len,
                i <= len,
                forall|j: int| 0 <= j < i ==> writer.last_epochs@[j] == self.epochs@[j],
                forall|j: int|
                    0 <= j < i ==> #[trigger] self.slots@[j] == old(self).slots()[j].swept(),
                forall|j: int| i <= j < len ==> self.slots@[j] == old(self).slots()[j],
            decreases len - i,
        {
            // an epoch whose reader has gone is retired
            let gone = match self.slots[i] {
                Slot::Dropped => true,
                _ => false,
            };
            if gone {
                self.slots.set(i, Slot::Retired);
            }
            writer.last_epochs.set(i, self.epochs[i]);
            i += 1;
        }
        let swap = Swap { range: 0..len };
        proof {
            let post = self.state();
            assert(writer.last_epochs@ =~= post.epochs);
            lemma_tally_zero(pre.pins(), !pre.swapped);
            assert forall|j: int| 0 <= j < len implies #[trigger] writer.last_epochs@[j]
                <= post.epochs[j] && ((writer.last_epochs@[j] % 2 == 1 && post.epochs[j]
                == writer.last_epochs@[j]) <==> post.residual(j)) by {
                assert(pre.pins()[j] != Some(!pre.swapped));
            }
        }
        Ok(swap)
    }

    fn is_swap_finished(&mut self, writer: &mut WriterId, swap: &mut Swap) -> (finished: bool) {
        is_swap_finished(self, writer, swap)
    }

    fn acquire_read_guard(&mut self, reader: &mut ReaderId) -> (guard: bool) {
        let ghost entry = *self;
        let ghost pre_reader = *reader;
        if self.epochs[reader.index] >= usize::MAX - 1 {
            // this epoch is used up: the reader leaves it and gets another
            self.slots.set(reader.index, Slot::Dropped);
            let ghost left = *self;
            let fresh = self.create_reader_id();
            *reader = fresh;
            proof {
                assert(Self::dropped(&entry, &pre_reader, &left));
                assert(Self::created(&left, self, reader));
                assert forall|r: ReaderId|
                    #![trigger entry.reader_ready(&r)]
                    #![trigger self.reader_ready(&r)]
                    entry.reader_ready(&r) && !Self::same_reader(
                        &r,
                        &pre_reader,
                    ) implies self.reader_ready(&r) by {
                    assert(left.reader_ready(&r));
                }
                assert forall|r: ReaderId, g: bool|
                    #![trigger entry.reader_holds(&r, &g)]
                    #![trigger self.reader_holds(&r, &g)]
                    entry.reader_holds(&r, &g) implies self.reader_holds(&r, &g) by {
                    assert(left.reader_holds(&r, &g));
                }
                assert forall|w: WriterId, s: Swap|
                    #![trigger entry.swap_valid(&w, &s)]
                    #![trigger self.swap_valid(&w, &s)]
                    entry.swap_valid(&w, &s) implies self.swap_valid(&w, &s) by {
                    assert(left.swap_valid(&w, &s));
                }
            }
        }
        let ghost fresh = *self;
        let ghost pre = self.state();
        let i = reader.index;
        let epoch = self.epochs[i];
        self.epochs.set(i, epoch + 1);
        self.taken = Ghost(self.taken@.update(i as int, pre.swapped));
        proof {
            let post = self.state();
            assert(fresh.stepped(i as int, self));
            assert(post.pins() =~= pre.pins().update(i as int, Some(pre.swapped)));
            lemma_tally_update(pre.pins(), i as int, Some(pre.swapped), true);
            lemma_tally_update(pre.pins(), i as int, Some(pre.swapped), false);
            assert forall|w: WriterId, s: Swap|
                #![trigger entry.swap_valid(&w, &s)]
                #![trigger self.swap_valid(&w, &s)]
                entry.swap_valid(&w, &s) implies self.swap_valid(&w, &s) by {
                assert(fresh.swap_valid(&w, &s));
                lemma_step_keeps_snapshot(pre, post, i as int, w.last_epochs(), s.start(), s.end());
            }
            assert forall|r: ReaderId|
                #![trigger entry.reader_ready(&r)]
                #![trigger self.reader_ready(&r)]
                entry.reader_ready(&r) && !Self::same_reader(
                    &r,
                    &pre_reader,
                ) implies self.reader_ready(&r) by {
                assert(fresh.reader_ready(&r));
            }
            assert forall|r: ReaderId, g: bool|
                #![trigger entry.reader_holds(&r, &g)]
                #![trigger self.reader_holds(&r, &g)]
                entry.reader_holds(&r, &g) && !Self::same_reader(
                    &r,
                    &pre_reader,
                ) implies self.reader_holds(&r, &g) by {
                assert(fresh.reader_holds(&r, &g));
            }
        }
        self.is_swapped
    }

    fn release_read_guard(&mut self, reader: &mut ReaderId, guard: bool) {
        let ghost pre = self.state();
        let i = reader.index;
        let epoch = self.epochs[i];
        proof {
            assert(pre.epochs[i as int] % 2 == 1);
        }
        self.epochs.set(i, epoch + 1);
        proof {
            let post = self.state();
            assert(pre.pins()[i as int] == Some(guard));
            assert(post.pins() =~= pre.pins().update(i as int, None));
            lemma_tally_update(pre.pins(), i as int, None, true);
            lemma_tally_update(pre.pins(), i as int, None, false);
            lemma_tally_positive(pre.pins(), i as int, guard);
            assert forall|w: WriterId, s: Swap| #[trigger]
                old(self).swap_valid(&w, &s) implies self.swap_valid(&w, &s) by {
                lemma_step_keeps_snapshot(pre, post, i as int, w.last_epochs(), s.start(), s.end());
            }
        }
    }
}

impl BlockingStrategy for EvMapStrategy {
    fn finish_swap(&mut self, writer: &mut WriterId, swap: Swap) -> (result: Result<(), Swap>) {
        let mut swap = swap;
        if is_swap_finished(self, writer, &mut swap) {
            Ok(())
        } else {
            Err(swap)
        }
    }
}

} // verus!
