//! Whether something awaited is there.
use vstd::prelude::*;

verus! {

/// What a poll found.
#[derive(Debug, PartialEq, Eq)]
pub enum Poll<T> {
    Ready(T),
    Pending,
}

impl<T> Poll<T> {
    /// Whether the value is there.
    pub fn is_ready(&self) -> (ready: bool)
        ensures
            ready == (*self is Ready),
    {
        match self {
            Poll::Ready(_) => true,
            Poll::Pending => false,
        }
    }

    /// Whether the value is still awaited.
    pub fn is_pending(&self) -> (pending: bool)
        ensures
            pending == (*self is Pending),
    {
        !self.is_ready()
    }
}

} // verus!
