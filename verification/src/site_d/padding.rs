use vstd::prelude::*;
use vstd::std_specs::convert::FromSpecImpl;

verus! {

/// A value in a type of its own, which lays it out as any other. Its view is the
/// value.
pub struct CachePadded<T> {
    value: T,
}

impl<T> View for CachePadded<T> {
    type V = T;

    closed spec fn view(&self) -> T {
        self.value
    }
}

impl<T> CachePadded<T> {
    pub fn new(value: T) -> (r: Self)
        ensures
            r@ == value,
    {
        CachePadded { value }
    }

    pub fn into_inner(self) -> (r: T)
        ensures
            r == self@,
    {
        self.value
    }

    pub fn deref(&self) -> (r: &T)
        ensures
            *r == self@,
    {
        &self.value
    }

    pub fn deref_mut(&mut self) -> (r: &mut T)
        ensures
            *r == old(self)@,
            final(self)@ == *final(r),
    {
        &mut self.value
    }

    pub fn as_ref(&self) -> (r: &T)
        ensures
            *r == self@,
    {
        &self.value
    }

    pub fn as_mut(&mut self) -> (r: &mut T)
        ensures
            *r == old(self)@,
            final(self)@ == *final(r),
    {
        &mut self.value
    }
}

impl<T: Default> Default for CachePadded<T> {
    fn default() -> (r: Self)
        ensures
            call_ensures(T::default, (), r@),
    {
        Self::new(T::default())
    }
}

impl<T> FromSpecImpl<T> for CachePadded<T> {
    open spec fn obeys_from_spec() -> bool {
        false
    }

    open spec fn from_spec(v: T) -> Self {
        arbitrary()
    }
}

impl<T> From<T> for CachePadded<T> {
    fn from(value: T) -> (r: Self)
        ensures
            r@ == value,
    {
        Self::new(value)
    }
}

/// What is put in comes out, and is what is seen meanwhile.
pub proof fn law_what_is_put_in_comes_out<T>(
    value: T,
    padded: CachePadded<T>,
    seen: &T,
    same: &T,
    out: T,
)
    requires
        call_ensures(CachePadded::<T>::new, (value,), padded),
        call_ensures(CachePadded::<T>::deref, (&padded,), seen),
        call_ensures(CachePadded::<T>::as_ref, (&padded,), same),
        call_ensures(CachePadded::<T>::into_inner, (padded,), out),
    ensures
        *seen == value,
        *same == value,
        out == value,
{
}

} // verus!
