//! Detached branches.
use crate::workflow::poll::Poll;
use vstd::prelude::*;

verus! {

/// Handle for a detached branch: the branch leaves its output in the slot, and the
/// handle takes it.
pub struct SpawnHandle<T> {
    /// The branch that the handle waits for.
    pub branch: u64,
    /// The branch's output, until it is taken.
    pub slot: Option<T>,
}

impl<T> SpawnHandle<T> {
    /// Leaves the branch's output in the slot.
    pub fn complete(&mut self, value: T)
        ensures
            final(self).branch == old(self).branch,
            final(self).slot == Some(value),
    {
        self.slot = Some(value);
    }

    /// Takes the branch's output; parks while there is none.
    pub fn poll(&mut self) -> (poll: Poll<T>)
        ensures
            final(self).branch == old(self).branch,
            final(self).slot is None,
            match poll {
                Poll::Ready(value) => old(self).slot == Some(value),
                Poll::Pending => old(self).slot is None,
            },
    {
        match self.slot.take() {
            Some(value) => Poll::Ready(value),
            None => Poll::Pending,
        }
    }
}

} // verus!
