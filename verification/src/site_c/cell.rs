use vstd::prelude::*;

use std::rc::Rc;

verus! {

/// A value that is read and changed only inside closures, so that no reference
/// to it lives on across an await point. Its view is the value.
#[derive(Debug)]
pub struct ScopedCell<T> {
    value: T,
}

impl<T> View for ScopedCell<T> {
    type V = T;

    closed spec fn view(&self) -> T {
        self.value
    }
}

impl<T> ScopedCell<T> {
    pub fn new(value: T) -> (r: Self)
        ensures
            r@ == value,
    {
        ScopedCell { value }
    }

    /// A new cell behind a reference count.
    pub fn rc(value: T) -> (r: Rc<Self>)
        ensures
            r@ == value,
    {
        Rc::new(Self::new(value))
    }

    /// Calls `f` with the value.
    pub fn with<R, F: FnOnce(&T) -> R>(&self, f: F) -> (r: R)
        requires
            call_requires(f, (&self@,)),
        ensures
            call_ensures(f, (&self@,), r),
    {
        f(&self.value)
    }

    /// Calls `f` with the value, for change in place.
    pub fn with_mut<R, F: FnOnce(&mut T) -> R>(&mut self, f: F) -> (r: R)
        requires
            forall|x: &mut T| *x == old(self)@ ==> call_requires(f, (x,)),
        ensures
            exists|x: &mut T|
                *x == old(self)@ && *final(x) == final(self)@ && #[trigger] call_ensures(f, (x,), r),
    {
        f(&mut self.value)
    }

    /// The value, once the cell is no longer needed.
    pub fn into_inner(self) -> (r: T)
        ensures
            r == self@,
    {
        self.value
    }
}

/// What is put in comes out, and is what a function that is called with it sees.
pub proof fn law_what_is_put_in_comes_out<T, R, F: FnOnce(&T) -> R>(
    value: T,
    cell: ScopedCell<T>,
    f: F,
    r: R,
    out: T,
)
    requires
        call_ensures(ScopedCell::<T>::new, (value,), cell),
        call_ensures(ScopedCell::<T>::with::<R, F>, (&cell, f), r),
        call_ensures(ScopedCell::<T>::into_inner, (cell,), out),
    ensures
        call_ensures(f, (&value,), r),
        out == value,
{
}

} // verus!
