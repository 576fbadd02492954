//! The scope that sessions run in.

use vstd::prelude::*;

verus! {

/// The caller's scope for sessions: a function that takes a complete session
/// and runs it to its end.
#[derive(Debug)]
pub struct SessionSpawner<S> {
    submit: S,
}

impl<S> SessionSpawner<S> {
    /// The function that sessions are handed to.
    pub closed spec fn scope(&self) -> S {
        self.submit
    }

    pub fn new(spawn: S) -> (r: Self)
        ensures
            r.scope() == spawn,
    {
        SessionSpawner { submit: spawn }
    }

    /// Hands a session to the scope, which runs it.
    pub fn spawn<F>(&self, session: F) where S: Fn(F)
        requires
            call_requires(self.scope(), (session,)),
        ensures
            call_ensures(self.scope(), (session,), ()),
    {
        (self.submit)(session)
    }
}

/// A clone hands sessions to a clone of the scope, which is the same scope
/// where cloning shares it.
impl<S: Clone> Clone for SessionSpawner<S> {
    fn clone(&self) -> (r: Self)
        ensures
            cloned(self.scope(), r.scope()),
    {
        SessionSpawner { submit: self.submit.clone() }
    }
}

} // verus!
