//! A value that can be taken once.

use vstd::prelude::*;

verus! {

/// A value that the first taker gets; whoever comes later gets nothing.
pub struct TakeOnce<T>(Option<T>);

impl<T> TakeOnce<T> {
    /// What is left to take.
    pub closed spec fn left(&self) -> Option<T> {
        self.0
    }

    pub fn new(val: T) -> (t: TakeOnce<T>)
        ensures
            t.left() == Some(val),
    {
        TakeOnce(Some(val))
    }

    pub fn from_option(val: Option<T>) -> (t: TakeOnce<T>)
        ensures
            t.left() == val,
    {
        TakeOnce(val)
    }

    /// Takes the value, if it is still there.
    pub fn take(&mut self) -> (val: Option<T>)
        ensures
            val == old(self).left(),
            final(self).left().is_none(),
    {
        let val = self.0.take();
        self.0 = None;
        val
    }

    /// Looks at the value without taking it.
    pub fn peek(&self) -> (val: Option<&T>)
        ensures
            match val {
                Some(v) => self.left() == Some(*v),
                None => self.left().is_none(),
            },
    {
        self.0.as_ref()
    }
}

} // verus!
