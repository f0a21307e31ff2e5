//! Draining a vector from its front.
use vstd::prelude::*;
use core::ops::RangeTo;

verus! {

/// `core::ops::RangeTo`, as it is defined: a range up to its `end`.
#[verifier::external_type_specification]
#[verifier::reject_recursive_types(Idx)]
pub struct ExRangeTo<Idx>(RangeTo<Idx>);

/// The front of a vector, being taken out item by item. What has not been
/// taken when the drain is let go stays in the vector, in front of the rest.
pub struct Drain<'a, T> {
    /// The vector: the items still to be taken, then the rest.
    pub vec: &'a mut Vec<T>,
    /// How many items are still to be taken.
    pub remaining: usize,
}

/// Drains the first `n.end` items of `vec`.
pub fn drain_unti<T>(vec: &mut Vec<T>, n: RangeTo<usize>) -> (drain: Drain<'_, T>)
    requires
        n.end <= old(vec).len(),
    ensures
        drain.vec@ == old(vec)@,
        drain.remaining == n.end,
        final(vec)@ == final(drain.vec)@,
{
    Drain { vec, remaining: n.end }
}

impl<T> Drain<'_, T> {
    /// The next item of the front, or `None` when the front is used up.
    pub fn next(&mut self) -> (item: Option<T>)
        requires
            old(self).remaining <= old(self).vec@.len(),
        ensures
            final(self).remaining <= final(self).vec@.len(),
            *final(final(self).vec) == *final(old(self).vec),
            match item {
                Some(value) => {
                    &&& old(self).remaining > 0
                    &&& value == old(self).vec@[0]
                    &&& final(self).vec@ == old(self).vec@.skip(1)
                    &&& final(self).remaining == old(self).remaining - 1
                },
                None => {
                    &&& old(self).remaining == 0
                    &&& final(self).vec@ == old(self).vec@
                    &&& final(self).remaining == 0
                },
            },
    {
        if self.remaining == 0 {
            None
        } else {
            self.remaining = self.remaining - 1;
            let value = self.vec.remove(0);
            assert(self.vec@ =~= old(self).vec@.skip(1));
            Some(value)
        }
    }
}

} // verus!
