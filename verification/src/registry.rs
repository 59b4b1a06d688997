//! The registry of live child processes.
//!
//! One registry exists per build, shared by every worker under a mutual
//! exclusion lock held only for the insert and remove below, never across a
//! wait. Its intended invariant: a process identifier is present exactly
//! while its process has been spawned and not yet reaped — the spawning
//! worker registers right after spawn and unregisters right after it
//! observes exit. An interrupt handler reads a snapshot and sends each
//! listed process a forceful termination signal; killing one that exited
//! in between is a benign no-op, so the handler never removes entries.

use vstd::prelude::*;
use crate::text::u64_to_string;
use crate::text::spec_dec;
use crate::command::push_one;

verus! {

/// Ordered collection of live child process identifiers.
pub struct ProcessRegistry {
    pub pids: Vec<u64>,
}

impl ProcessRegistry {
    /// An empty registry.
    pub fn new() -> (r: ProcessRegistry)
        ensures
            r.pids@.len() == 0,
    {
        ProcessRegistry { pids: Vec::new() }
    }

    /// Registers a freshly spawned child.
    pub fn register(&mut self, pid: u64)
        ensures
            final(self).pids@ == old(self).pids@.push(pid),
    {
        self.pids.push(pid);
    }

    /// Removes every entry for a reaped child.
    pub fn unregister(&mut self, pid: u64)
        ensures
            final(self).pids@ == old(self).pids@.filter(|p: u64| p != pid),
    {
        let mut kept: Vec<u64> = Vec::new();
        let mut i: usize = 0;
        proof {
            reveal(Seq::filter);
            assert(old(self).pids@.subrange(0, 0).filter(|p: u64| p != pid) =~= Seq::<
                u64,
            >::empty());
        }
        while i < self.pids.len()
            invariant
                self == old(self),
                i <= self.pids@.len(),
                kept@ == old(self).pids@.subrange(0, i as int).filter(|p: u64| p != pid),
            decreases self.pids@.len() - i,
        {
            let p = self.pids[i];
            if p != pid {
                kept.push(p);
            }
            proof {
                reveal(Seq::filter);
                let pre = self.pids@.subrange(0, i as int);
                let cur = self.pids@.subrange(0, i + 1);
                assert(cur.drop_last() =~= pre);
                assert(cur.last() == p);
            }
            i = i + 1;
        }
        proof {
            assert(self.pids@.subrange(0, self.pids@.len() as int) =~= self.pids@);
        }
        self.pids = kept;
    }

    /// The identifiers currently registered, oldest first.
    pub fn snapshot(&self) -> (r: Vec<u64>)
        ensures
            r@ == self.pids@,
    {
        let mut r: Vec<u64> = Vec::new();
        let mut i: usize = 0;
        while i < self.pids.len()
            invariant
                i <= self.pids@.len(),
                r@ == self.pids@.subrange(0, i as int),
            decreases self.pids@.len() - i,
        {
            r.push(self.pids[i]);
            proof {
                assert(self.pids@.subrange(0, i + 1) =~= self.pids@.subrange(0, i as int).push(
                    self.pids@[i as int],
                ));
            }
            i = i + 1;
        }
        proof {
            assert(self.pids@.subrange(0, self.pids@.len() as int) =~= self.pids@);
        }
        r
    }

    /// Number of registered children.
    pub fn len(&self) -> (r: usize)
        ensures
            r == self.pids@.len(),
    {
        self.pids.len()
    }
}

/// The command that forcefully terminates one tracked child.
pub fn kill_argv(pid: u64) -> (r: Vec<String>)
    ensures
        r.deep_view() == seq!["kill"@, "-9"@, spec_dec(pid as int)],
{
    let mut r: Vec<String> = Vec::new();
    push_one(&mut r, String::from_str("kill"));
    push_one(&mut r, String::from_str("-9"));
    push_one(&mut r, u64_to_string(pid));
    proof {
        assert(r.deep_view() =~= seq!["kill"@, "-9"@, spec_dec(pid as int)]);
    }
    r
}

} // verus!
