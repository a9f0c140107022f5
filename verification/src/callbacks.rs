//! The table of callbacks, each with its cookie, that a client keeps for pushes and
//! a server keeps for requests, keyed by command number.

use vstd::prelude::*;
use std::collections::HashMap;

verus! {

broadcast use vstd::std_specs::hash::group_hash_axioms;

/// Callbacks by command number, each registered with a cookie.
pub struct CallbackTable<F> {
    entries: HashMap<u32, (F, u64)>,
}

impl<F> CallbackTable<F> {
    /// The registered callbacks and cookies, by command number.
    pub closed spec fn entries(&self) -> Map<u32, (F, u64)> {
        self.entries@
    }

    /// A table with no callback.
    pub fn new() -> (t: CallbackTable<F>)
        ensures
            t.entries() == Map::<u32, (F, u64)>::empty(),
    {
        CallbackTable { entries: HashMap::new() }
    }

    /// Registers `callback` with `cookie` for command `cmd`, in place of any earlier one.
    pub fn register(&mut self, cmd: u32, callback: F, cookie: u64)
        ensures
            final(self).entries() == old(self).entries().insert(cmd, (callback, cookie)),
    {
        self.entries.insert(cmd, (callback, cookie));
    }

    /// Removes the callback of command `cmd` and hands it back with its cookie, if
    /// there is one.
    pub fn unregister(&mut self, cmd: u32) -> (r: Option<(F, u64)>)
        ensures
            final(self).entries() == old(self).entries().remove(cmd),
            old(self).entries().contains_key(cmd) ==> r == Some(old(self).entries()[cmd]),
            !old(self).entries().contains_key(cmd) ==> r is None,
    {
        self.entries.remove(&cmd)
    }

    /// The callback of command `cmd` with its cookie, if there is one.
    pub fn lookup(&self, cmd: u32) -> (r: Option<&(F, u64)>)
        ensures
            self.entries().contains_key(cmd) ==> r == Some(&self.entries()[cmd]),
            !self.entries().contains_key(cmd) ==> r is None,
    {
        self.entries.get(&cmd)
    }
}

/// What `unregister` hands back is what the last `register` for that command put in,
/// and afterwards the command has no callback.
pub proof fn law_unregister_returns_registered<F>(
    before: Map<u32, (F, u64)>,
    cmd: u32,
    callback: F,
    cookie: u64,
)
    ensures
        before.insert(cmd, (callback, cookie))[cmd] == (callback, cookie),
        !before.insert(cmd, (callback, cookie)).remove(cmd).contains_key(cmd),
{
}

} // verus!
