//! A place for one waker.
use vstd::prelude::*;

use std::task::Waker;

verus! {

/// The wakers of a place for one, as a sequence.
pub open spec fn pending(waker: Option<Waker>) -> Seq<Waker> {
    match waker {
        Some(waker) => seq![waker],
        None => seq![],
    }
}

/// A place for the waker of the one task that waits for something.
#[derive(Debug)]
pub struct WakerRegistration {
    pub waker: Option<Waker>,
}

impl WakerRegistration {
    /// An empty place.
    pub fn new() -> (registration: Self)
        ensures
            registration.waker is None,
    {
        WakerRegistration { waker: None }
    }

    /// Puts a copy of a waker in place of the one that is there.
    pub fn register(&mut self, waker: &Waker)
        ensures
            final(self).waker is Some,
            cloned(*waker, final(self).waker->0),
    {
        self.waker = Some(waker.clone());
    }

    /// Takes the waker out, to be woken, if there is one.
    pub fn wake(&mut self, wakes: &mut Vec<Waker>)
        ensures
            final(self).waker is None,
            final(wakes)@ == old(wakes)@ + pending(old(self).waker),
    {
        if let Some(waker) = self.waker.take() {
            wakes.push(waker);
        }
        assert(wakes@ =~= old(wakes)@ + pending(old(self).waker));
    }
}

/// Of a place for one waker, that one is woken which is there, and only that one.
pub proof fn law_only_the_registered_waker_is_woken(waker: Option<Waker>)
    ensures
        match waker {
            Some(task) => pending(waker).len() == 1 && pending(waker)[0] == task,
            None => pending(waker).len() == 0,
        },
{
}

} // verus!
