//! A cell that hands out its value by copy or by unique borrow.
use vstd::prelude::*;

verus! {

/// A cell holding one value.
pub struct CellerCell<T> {
    value: T,
}

impl<T> CellerCell<T> {
    /// The value in the cell.
    pub closed spec fn spec_value(&self) -> T {
        self.value
    }

    /// A cell holding `value`.
    pub fn new(value: T) -> (r: Self)
        ensures
            r.spec_value() == value,
    {
        CellerCell { value }
    }

    /// The value, taken out of the cell.
    pub fn into_inner(self) -> (r: T)
        ensures
            r == self.spec_value(),
    {
        self.value
    }

    /// The value, borrowed uniquely; what is written through the borrow is the
    /// new value of the cell.
    pub fn get_mut(&mut self) -> (r: &mut T)
        ensures
            *r == old(self).spec_value(),
            final(self).spec_value() == *final(r),
    {
        &mut self.value
    }

    /// A copy of the value.
    pub fn get(&self) -> (r: T)
        where
            T: Copy,
        ensures
            r == self.spec_value(),
    {
        self.value
    }

    /// Puts `value` in the cell and gives back the value it held.
    pub fn replace(&mut self, value: T) -> (r: T)
        ensures
            r == old(self).spec_value(),
            final(self).spec_value() == value,
    {
        let mut old_value = value;
        std::mem::swap(&mut self.value, &mut old_value);
        old_value
    }
}

} // verus!
