//! The one door through which migration bodies are executed. The host hands
//! over a function that runs one body against its database; every body that
//! goes through the door is written into a journal first, so that what was
//! executed, and in which order, can be said and checked.

use vstd::prelude::*;
use crate::migration::Migration;

verus! {

/// Executes migration bodies with the host's function and keeps a journal of
/// the versions it was handed, in order. The function and the journal can be
/// reached in no other way than through `execute`.
pub struct Executor<F> {
    action: F,
    journal: Vec<u64>,
}

impl<F: Fn(&Migration) -> Result<(), String>> Executor<F> {
    /// The host's function.
    pub closed spec fn action(&self) -> F {
        self.action
    }

    /// The versions handed to the host's function so far, in order.
    pub closed spec fn ran(&self) -> Seq<u64> {
        self.journal@
    }

    /// An executor that has executed nothing yet.
    pub fn new(action: F) -> (host: Self)
        ensures
            host.action() == action,
            host.ran() == Seq::<u64>::empty(),
    {
        Executor { action, journal: Vec::new() }
    }

    /// The versions handed to the host's function so far, in order.
    pub fn executed(&self) -> (versions: &Vec<u64>)
        ensures
            versions@ == self.ran(),
    {
        &self.journal
    }

    /// Notes the migration's version in the journal and hands the migration
    /// to the host's function; the answer is the function's.
    pub fn execute(&mut self, migration: &Migration) -> (r: Result<(), String>)
        requires
            call_requires(old(self).action(), (migration,)),
        ensures
            final(self).action() == old(self).action(),
            final(self).ran() == old(self).ran().push(migration.version),
            call_ensures(old(self).action(), (migration,), r),
    {
        self.journal.push(migration.version);
        (self.action)(migration)
    }
}

} // verus!
