//! A value that is handed out once.
use vstd::prelude::*;

verus! {

/// A value together with a flag that says whether it has been handed out.
/// The first call of [`StaticOnce::get`] hands out exclusive access to the
/// value; every later call hands out nothing.
pub struct StaticOnce<T> {
    value: T,
    once: bool,
}

impl<T> StaticOnce<T> {
    /// The value.
    pub closed spec fn value(&self) -> T {
        self.value
    }

    /// The value has been handed out.
    pub closed spec fn taken(&self) -> bool {
        self.once
    }

    /// A value that has not been handed out.
    pub fn new(value: T) -> (cell: Self)
        ensures
            cell.value() == value,
            !cell.taken(),
    {
        Self { value, once: false }
    }

    /// Exclusive access to the value, the first time; `None` ever after.
    pub fn get(&mut self) -> (value: Option<&mut T>)
        ensures
            final(self).taken(),
            value is Some <==> !old(self).taken(),
            match value {
                Some(v) => *v == old(self).value() && final(self).value() == *final(v),
                None => final(self).value() == old(self).value(),
            },
    {
        if self.once {
            None
        } else {
            self.once = true;
            Some(&mut self.value)
        }
    }
}

} // verus!
