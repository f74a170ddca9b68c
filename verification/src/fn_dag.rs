//! Functions and the containers that run them.

use vstd::prelude::*;

verus! {

/// Identifies a function of the simulated workload.
pub type FnId = usize;

/// Identifies a request travelling through the cluster.
pub type ReqId = usize;

/// A running instance of a function on some node, as seen in a snapshot.
#[derive(Clone, Copy, Debug, PartialEq, Eq, Structural)]
pub struct FnContainer {
    /// The function this container runs.
    pub fn_id: FnId,
    /// Whether the container was executing no work when the snapshot was taken.
    pub idle: bool,
}

impl FnContainer {
    /// A container of `fn_id` that is idle or busy as `idle` says.
    pub fn new(fn_id: FnId, idle: bool) -> (c: FnContainer)
        ensures
            c == (FnContainer { fn_id, idle }),
    {
        FnContainer { fn_id, idle }
    }

    /// The idle/busy predicate read when containers are selected for removal.
    pub fn is_idle(&self) -> (idle: bool)
        ensures
            idle == self.idle,
    {
        self.idle
    }
}

} // verus!
