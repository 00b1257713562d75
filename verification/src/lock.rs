//! The process-wide write-lock flag: a `{ write, error_message }` pair that is
//! read and swapped whole, so no reader ever observes the flag of one update
//! together with the reason of another.

use vstd::prelude::*;

verus! {

/// The externally visible lock state: whether writes are locked, and the
/// human-readable reason attached to the lock, if any.
pub struct LocksOption {
    pub write: bool,
    pub error_message: Option<String>,
}

impl LocksOption {
    /// The initial state at process start: unlocked, with no reason.
    pub fn initial() -> (r: LocksOption)
        ensures
            !r.write,
            r.error_message is None,
    {
        LocksOption { write: false, error_message: None }
    }

    pub fn clone_state(&self) -> (r: LocksOption)
        ensures
            r == *self,
    {
        LocksOption {
            write: self.write,
            error_message: match &self.error_message {
                Some(m) => Some(m.clone()),
                None => None,
            },
        }
    }
}

/// Holds the current lock state. A process owns exactly one of these, placed
/// behind its own mutual-exclusion primitive; every operation below is a
/// single atomic transition of the whole pair.
pub struct LocksController {
    pub state: LocksOption,
}

impl LocksController {
    /// A fresh controller starts unlocked with no reason.
    pub fn new() -> (r: LocksController)
        ensures
            !r.state.write,
            r.state.error_message is None,
    {
        LocksController { state: LocksOption::initial() }
    }

    /// Returns the current `{write, error_message}` pair, whole: both fields
    /// come from the same stored state, never from two different updates.
    pub fn get_lock_state(&self) -> (r: LocksOption)
        ensures
            r == self.state,
    {
        self.state.clone_state()
    }

    /// Atomically swaps in the requested state and returns the state that was
    /// in effect immediately before the swap. Always succeeds.
    pub fn set_lock_state(&mut self, write: bool, error_message: Option<String>) -> (r: LocksOption)
        ensures
            r == old(self).state,
            final(self).state.write == write,
            final(self).state.error_message == error_message,
    {
        let previous = LocksOption { write: self.state.write, error_message: self.state.error_message.take() };
        self.state = LocksOption { write, error_message };
        previous
    }
}

/// One serialized history of `set_lock_state` calls, starting from `init`:
/// each call replaces the whole stored pair with the request.
pub open spec fn run_lock_sets(init: LocksOption, ops: Seq<LocksOption>) -> LocksOption
    decreases ops.len(),
{
    if ops.len() == 0 {
        init
    } else {
        run_lock_sets(ops[0], ops.skip(1))
    }
}

/// Law: for any serialized sequence of `set_lock_state` calls, the final
/// observed state is exactly the request of the call that serialized last —
/// the whole pair, so a later read can never mix fields of two updates.
pub proof fn lemma_lock_last_write_wins(init: LocksOption, ops: Seq<LocksOption>)
    requires
        ops.len() > 0,
    ensures
        run_lock_sets(init, ops) == ops.last(),
    decreases ops.len(),
{
    if ops.len() == 1 {
        assert(ops.skip(1).len() == 0);
    } else {
        lemma_lock_last_write_wins(ops[0], ops.skip(1));
        assert(ops.skip(1).last() == ops.last());
    }
}

/// Law: `set_lock_state` reports exactly the state a serialized history left
/// behind before it: appending one more request to a history makes the state
/// that the appended call both observes as "previous" and replaces.
pub proof fn lemma_lock_previous_reported(init: LocksOption, ops: Seq<LocksOption>, next: LocksOption)
    ensures
        run_lock_sets(init, ops.push(next)) == next,
        ops.len() > 0 ==> run_lock_sets(init, ops) == ops.last(),
{
    lemma_lock_last_write_wins(init, ops.push(next));
    assert(ops.push(next).last() == next);
    if ops.len() > 0 {
        lemma_lock_last_write_wins(init, ops);
    }
}

} // verus!
