use vstd::prelude::*;

verus! {

/// What polling a future came to.
#[derive(Debug)]
pub enum Poll<T> {
    Ready(T),
    Pending,
}

impl<T> Poll<T> {
    pub fn is_ready(&self) -> (r: bool)
        ensures
            r == (*self is Ready),
    {
        match self {
            Poll::Ready(_) => true,
            Poll::Pending => false,
        }
    }

    pub fn is_pending(&self) -> (r: bool)
        ensures
            r == (*self is Pending),
    {
        match self {
            Poll::Ready(_) => false,
            Poll::Pending => true,
        }
    }

    /// The value, where the future is ready.
    pub fn ready(self) -> (r: Option<T>)
        ensures
            r == match self {
                Poll::Ready(value) => Some(value),
                Poll::Pending => None,
            },
    {
        match self {
            Poll::Ready(value) => Some(value),
            Poll::Pending => None,
        }
    }
}

} // verus!
