//! The replay bookkeeping of a prepared static graph. A replay that fails
//! midway (binding, dependency check, launch or completion check) leaves the
//! graph poisoned, and a poisoned graph neither replays nor lends its output
//! again.

use vstd::prelude::*;

verus! {

/// Why a replay or an output read is refused.
#[derive(Clone, Copy, Debug, PartialEq, Eq, Structural)]
pub enum ReplayError {
    Poisoned,
}

impl ReplayError {
    pub fn message(&self) -> (m: &'static str)
        ensures
            m@ == "graph handle is poisoned"@,
    {
        "graph handle is poisoned"
    }
}

/// The state once a replay has begun: poisoned until it finishes.
pub open spec fn after_begin(s: ReplayState) -> ReplayState {
    ReplayState { poisoned: true, ..s }
}

/// The state once a replay has launched and completed.
pub open spec fn after_finish(s: ReplayState) -> ReplayState {
    ReplayState { replays: (s.replays + 1) as usize, poisoned: false, ..s }
}

/// The kernel count, successful replays and poisoning of a prepared graph.
#[derive(Clone, Copy, Debug, PartialEq, Eq, Structural)]
pub struct ReplayState {
    pub nodes: usize,
    pub replays: usize,
    pub poisoned: bool,
}

impl ReplayState {
    /// A freshly prepared graph of `nodes` kernel nodes.
    pub fn new(nodes: usize) -> (s: ReplayState)
        ensures
            s == (ReplayState { nodes, replays: 0, poisoned: false }),
    {
        ReplayState { nodes, replays: 0, poisoned: false }
    }

    /// Starts a replay: refused on a poisoned graph; otherwise the graph
    /// stays poisoned until `finish_replay` reports success.
    pub fn begin_replay(&mut self) -> (r: Result<(), ReplayError>)
        ensures
            old(self).poisoned ==> r == Err::<(), ReplayError>(ReplayError::Poisoned) && *final(self) == *old(self),
            !old(self).poisoned ==> r is Ok && *final(self) == after_begin(*old(self)),
    {
        if self.poisoned {
            return Err(ReplayError::Poisoned);
        }
        self.poisoned = true;
        Ok(())
    }

    /// Records a replay that launched and completed.
    pub fn finish_replay(&mut self)
        requires
            old(self).replays < usize::MAX,
        ensures
            *final(self) == after_finish(*old(self)),
    {
        self.replays = self.replays + 1;
        self.poisoned = false;
    }

    /// Whether the output may be read: not while the graph is poisoned.
    pub fn output_ready(&self) -> (r: Result<(), ReplayError>)
        ensures
            r is Ok <==> !self.poisoned,
            r matches Err(e) ==> e == ReplayError::Poisoned,
    {
        if self.poisoned {
            Err(ReplayError::Poisoned)
        } else {
            Ok(())
        }
    }

    pub fn kernel_nodes(&self) -> (n: usize)
        ensures
            n == self.nodes,
    {
        self.nodes
    }

    pub fn replay_count(&self) -> (n: usize)
        ensures
            n == self.replays,
    {
        self.replays
    }
}

/// Poisoning law: a replay that begins and never finishes leaves the graph
/// poisoned (so every later replay and output read is refused) with its
/// replay count unchanged; one that finishes counts exactly once and clears
/// the poison.
pub proof fn law_unfinished_replay_poisons(s: ReplayState)
    requires
        !s.poisoned,
        s.replays < usize::MAX,
    ensures
        after_begin(s).poisoned,
        after_begin(s).replays == s.replays,
        after_finish(after_begin(s)).replays == s.replays + 1,
        !after_finish(after_begin(s)).poisoned,
        after_finish(after_begin(s)).nodes == s.nodes,
{
}

} // verus!
