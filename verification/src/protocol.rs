//! The abstract state of the swap protocol, shared by every strategy.
//!
//! A payload has two cells, numbered by a `bool`. Under parity `s` the
//! writer owns cell `s` and readers are sent to cell `!s`. A guard records
//! the parity under which it was taken, so a guard of parity `p` pins cell
//! `!p`; it pins the writer's cell exactly when `p != s`.
use vstd::prelude::*;

verus! {

/// What every strategy knows: the parity, and how many guards are
/// outstanding for each parity.
pub struct Protocol {
    /// `true` when the roles of the cells are exchanged.
    pub swapped: bool,
    /// Outstanding guards taken under parity `false`.
    pub held_plain: nat,
    /// Outstanding guards taken under parity `true`.
    pub held_swapped: nat,
}

impl Protocol {
    /// The state of a fresh payload.
    pub open spec fn init() -> Protocol {
        Protocol { swapped: false, held_plain: 0, held_swapped: 0 }
    }

    /// Outstanding guards taken under `parity`.
    pub open spec fn held(self, parity: bool) -> nat {
        if parity {
            self.held_swapped
        } else {
            self.held_plain
        }
    }

    /// The cell that the writer owns.
    pub open spec fn write_cell(self) -> bool {
        self.swapped
    }

    /// The cell that new guards pin.
    pub open spec fn read_cell(self) -> bool {
        !self.swapped
    }

    /// Guards that pin `cell`.
    pub open spec fn pins(self, cell: bool) -> nat {
        self.held(!cell)
    }

    /// No guard pins the writer's cell.
    pub open spec fn write_free(self) -> bool {
        self.held(!self.swapped) == 0
    }

    /// No guard is outstanding at all.
    pub open spec fn quiet(self) -> bool {
        self.held_plain == 0 && self.held_swapped == 0
    }

    /// The parity is exchanged; guards stay as they are.
    pub open spec fn toggle(self) -> Protocol {
        Protocol { swapped: !self.swapped, ..self }
    }

    /// The parity becomes `parity`; guards stay as they are.
    pub open spec fn with_parity(self, parity: bool) -> Protocol {
        Protocol { swapped: parity, ..self }
    }

    /// One more guard of the current parity.
    pub open spec fn acquire(self) -> Protocol {
        if self.swapped {
            Protocol { held_swapped: self.held_swapped + 1, ..self }
        } else {
            Protocol { held_plain: self.held_plain + 1, ..self }
        }
    }

    /// One guard of `parity` fewer.
    pub open spec fn release(self, parity: bool) -> Protocol
        recommends
            self.held(parity) > 0,
    {
        if parity {
            Protocol { held_swapped: (self.held_swapped - 1) as nat, ..self }
        } else {
            Protocol { held_plain: (self.held_plain - 1) as nat, ..self }
        }
    }

    /// Whether a swap towards parity `target` is complete in this state:
    /// no guard pins the cell that the writer owns under `target`.
    pub open spec fn settled(self, target: bool) -> bool {
        self.held(!target) == 0
    }
}

/// What has become of the place that a strategy keeps for a reader.
#[derive(Clone, Copy, PartialEq, Eq, Structural)]
pub enum Slot {
    /// A reader has the place.
    Live,
    /// The reader of the place has gone. No swap has come by since.
    Dropped,
    /// A swap has come by after the reader had gone: the place is retired and
    /// may serve a new reader.
    Retired,
}

impl Slot {
    /// What a swap that comes by makes of the place.
    pub open spec fn swept(self) -> Slot {
        if self is Dropped {
            Slot::Retired
        } else {
            self
        }
    }
}

/// What a reader can do to the abstract state.
pub enum ReaderStep {
    /// Take a guard, under the parity of the moment.
    Acquire,
    /// Give back a guard that was taken under the given parity.
    Release(bool),
}

impl Protocol {
    /// Whether the reader's step is possible: a guard can be given back only
    /// while one of its parity is outstanding.
    pub open spec fn allows(self, step: ReaderStep) -> bool {
        match step {
            ReaderStep::Acquire => true,
            ReaderStep::Release(parity) => self.held(parity) > 0,
        }
    }

    /// The state after the reader's step.
    pub open spec fn step(self, step: ReaderStep) -> Protocol {
        match step {
            ReaderStep::Acquire => self.acquire(),
            ReaderStep::Release(parity) => self.release(parity),
        }
    }

    /// Whether every one of `steps` is possible when its turn comes.
    pub open spec fn allows_all(self, steps: Seq<ReaderStep>) -> bool
        decreases steps.len(),
    {
        steps.len() == 0 || (self.allows(steps.first()) && self.step(steps.first()).allows_all(
            steps.drop_first(),
        ))
    }

    /// The state after `steps`, in order.
    pub open spec fn run(self, steps: Seq<ReaderStep>) -> Protocol
        decreases steps.len(),
    {
        if steps.len() == 0 {
            self
        } else {
            self.step(steps.first()).run(steps.drop_first())
        }
    }
}

/// How many of `steps` give back a guard of `parity`.
pub open spec fn releases(steps: Seq<ReaderStep>, parity: bool) -> nat
    decreases steps.len(),
{
    if steps.len() == 0 {
        0
    } else {
        releases(steps.drop_first(), parity) + if steps.first() == ReaderStep::Release(parity) {
            1nat
        } else {
            0nat
        }
    }
}

/// Readers never change the parity, and of the guards that are older than
/// the parity they can only give some back: new guards are of the parity.
pub proof fn lemma_run_of_readers(p: Protocol, steps: Seq<ReaderStep>)
    requires
        p.allows_all(steps),
    ensures
        p.run(steps).swapped == p.swapped,
        p.run(steps).held(!p.swapped) + releases(steps, !p.swapped) == p.held(!p.swapped),
    decreases steps.len(),
{
    if steps.len() > 0 {
        lemma_run_of_readers(p.step(steps.first()), steps.drop_first());
    }
}

/// A reader that took its guard before a swap began keeps the swap from
/// finishing until it gives the guard back.
///
/// In state `p` no swap is under way. A reader takes a guard, then a swap
/// begins and exchanges the parity. Whatever the readers do next, as long as
/// they give back fewer guards of the old parity than were outstanding, the
/// swap is not finished: one of those guards, the reader's, is still out.
pub proof fn lemma_guard_blocks_swap(p: Protocol, steps: Seq<ReaderStep>)
    requires
        p.acquire().toggle().allows_all(steps),
        releases(steps, p.swapped) < p.acquire().held(p.swapped),
    ensures
        !p.acquire().toggle().run(steps).settled(!p.swapped),
{
    lemma_run_of_readers(p.acquire().toggle(), steps);
}

/// When the last guard that was out before the swap is given back, and not
/// before, the swap is finished.
pub proof fn lemma_last_release_settles_swap(p: Protocol, steps: Seq<ReaderStep>)
    requires
        p.write_free(),
        p.toggle().allows_all(steps),
    ensures
        p.toggle().run(steps).settled(!p.swapped) <==> releases(steps, p.swapped) == p.held(
            p.swapped,
        ),
{
    lemma_run_of_readers(p.toggle(), steps);
}

/// While a guard pins a cell and no swap is under way, the cell that the
/// writer may mutate is the other one.
pub proof fn lemma_guard_excludes_writer(p: Protocol, parity: bool)
    requires
        p.write_free(),
        p.held(parity) > 0,
    ensures
        p.write_cell() != !parity,
        p.pins(p.write_cell()) == 0,
{
}

/// Two swaps in a row bring the parity back and leave the guards alone.
pub proof fn lemma_two_toggles_restore(p: Protocol)
    ensures
        p.toggle().toggle() == p,
{
}

/// Once a swap is finished it stays finished, whatever the readers do, until
/// the next swap begins: new guards pin the readers' cell.
pub proof fn lemma_settled_is_stable(p: Protocol, steps: Seq<ReaderStep>)
    requires
        p.settled(p.swapped),
        p.allows_all(steps),
    ensures
        p.run(steps).settled(p.swapped),
        p.run(steps).swapped == p.swapped,
{
    lemma_run_of_readers(p, steps);
}

/// Without readers every swap is finished as soon as it has begun.
pub proof fn lemma_quiet_is_settled(p: Protocol, target: bool)
    requires
        p.quiet(),
    ensures
        p.settled(target),
        p.toggle().settled(target),
        p.with_parity(target).write_free(),
{
}

/// How many entries of `pins` are a guard of `parity`. An entry is what one
/// reader holds: `None`, or a guard with the parity under which it was taken.
pub open spec fn tally(pins: Seq<Option<bool>>, parity: bool) -> nat
    decreases pins.len(),
{
    if pins.len() == 0 {
        0
    } else {
        tally(pins.drop_last(), parity) + if pins.last() == Some(parity) {
            1nat
        } else {
            0nat
        }
    }
}

/// The abstract state of readers that hold `pins` under parity `swapped`.
pub open spec fn protocol_of(swapped: bool, pins: Seq<Option<bool>>) -> Protocol {
    Protocol { swapped, held_plain: tally(pins, false), held_swapped: tally(pins, true) }
}

/// No more guards than readers.
pub proof fn lemma_tally_bound(pins: Seq<Option<bool>>, parity: bool)
    ensures
        tally(pins, parity) <= pins.len(),
    decreases pins.len(),
{
    if pins.len() > 0 {
        lemma_tally_bound(pins.drop_last(), parity);
    }
}

/// One more reader adds its own guard to the count.
pub proof fn lemma_tally_push(pins: Seq<Option<bool>>, pin: Option<bool>, parity: bool)
    ensures
        tally(pins.push(pin), parity) == tally(pins, parity) + if pin == Some(parity) {
            1nat
        } else {
            0nat
        },
{
    assert(pins.push(pin).drop_last() =~= pins);
}

/// Changing what one reader holds changes the count by that reader alone.
pub proof fn lemma_tally_update(pins: Seq<Option<bool>>, i: int, pin: Option<bool>, parity: bool)
    requires
        0 <= i < pins.len(),
    ensures
        tally(pins.update(i, pin), parity) + (if pins[i] == Some(parity) {
            1nat
        } else {
            0nat
        }) == tally(pins, parity) + if pin == Some(parity) {
            1nat
        } else {
            0nat
        },
    decreases pins.len(),
{
    if i == pins.len() - 1 {
        assert(pins.update(i, pin).drop_last() =~= pins.drop_last());
    } else {
        assert(pins.update(i, pin).drop_last() =~= pins.drop_last().update(i, pin));
        lemma_tally_update(pins.drop_last(), i, pin, parity);
    }
}

/// The count is zero exactly when no reader holds a guard of that parity.
pub proof fn lemma_tally_zero(pins: Seq<Option<bool>>, parity: bool)
    ensures
        tally(pins, parity) == 0 <==> forall|i: int|
            0 <= i < pins.len() ==> pins[i] != Some(parity),
    decreases pins.len(),
{
    if pins.len() > 0 {
        lemma_tally_zero(pins.drop_last(), parity);
        if tally(pins, parity) == 0 {
            assert forall|i: int| 0 <= i < pins.len() implies pins[i] != Some(parity) by {
                if i < pins.len() - 1 {
                    assert(pins.drop_last()[i] == pins[i]);
                }
            }
        } else if pins.last() != Some(parity) {
            let j = choose|j: int|
                0 <= j < pins.drop_last().len() && pins.drop_last()[j] == Some(parity);
            assert(pins[j] == Some(parity));
        }
    }
}

/// A reader that holds a guard of `parity` is counted.
pub proof fn lemma_tally_positive(pins: Seq<Option<bool>>, i: int, parity: bool)
    requires
        0 <= i < pins.len(),
        pins[i] == Some(parity),
    ensures
        tally(pins, parity) > 0,
{
    lemma_tally_zero(pins, parity);
}

} // verus!
