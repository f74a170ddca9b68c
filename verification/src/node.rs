//! Nodes of the simulated cluster and the containers they host.

use vstd::prelude::*;
use crate::fn_dag::{FnContainer, FnId};

verus! {

/// Identifies a node of the cluster.
pub type NodeId = usize;

/// The predicate that keeps idle containers.
pub open spec fn is_idle() -> spec_fn(FnContainer) -> bool {
    |c: FnContainer| c.idle
}

/// Names a container by the node that hosts it and the function it runs.
pub open spec fn located_on(node_id: NodeId) -> spec_fn(FnContainer) -> (NodeId, FnId) {
    |c: FnContainer| (node_id, c.fn_id)
}

/// No two of the containers run the same function.
pub open spec fn distinct_functions(containers: Seq<FnContainer>) -> bool {
    forall|i: int, j: int|
        0 <= i < j < containers.len() ==> (#[trigger] containers[i]).fn_id != (
        #[trigger] containers[j]).fn_id
}

/// Dropping containers leaves no two of the same function where there were
/// none before.
proof fn lemma_filter_distinct_functions(
    containers: Seq<FnContainer>,
    keep: spec_fn(FnContainer) -> bool,
)
    requires
        distinct_functions(containers),
    ensures
        distinct_functions(containers.filter(keep)),
    decreases containers.len(),
{
    reveal(Seq::filter);
    if containers.len() > 0 {
        let rest = containers.drop_last();
        let last = containers.last();
        assert forall|i: int, j: int| 0 <= i < j < rest.len() implies (#[trigger] rest[i]).fn_id != (
        #[trigger] rest[j]).fn_id by {
            assert(rest[i] == containers[i] && rest[j] == containers[j]);
        }
        lemma_filter_distinct_functions(rest, keep);
        let kept = rest.filter(keep);
        if keep(last) {
            let all = kept.push(last);
            assert forall|i: int, j: int| 0 <= i < j < all.len() implies (#[trigger] all[i]).fn_id != (
            #[trigger] all[j]).fn_id by {
                if j == kept.len() {
                    assert(kept.contains(kept[i]));
                    rest.lemma_filter_contains_rev(keep, kept[i]);
                    let k = choose|k: int| 0 <= k < rest.len() && rest[k] == kept[i];
                    assert(containers[k].fn_id != containers[containers.len() - 1].fn_id);
                } else {
                    assert(all[i] == kept[i] && all[j] == kept[j]);
                }
            }
        }
    }
}

/// A node and its containers. A node hosts at most one container per
/// function, so a container is identified by the pair (node, function).
#[derive(Debug)]
pub struct Node {
    node_id: NodeId,
    fn_containers: Vec<FnContainer>,
}

impl Node {
    /// The node's identifier.
    pub closed spec fn id(&self) -> NodeId {
        self.node_id
    }

    /// The hosted containers, in the order in which a scan meets them.
    pub closed spec fn containers(&self) -> Seq<FnContainer> {
        self.fn_containers@
    }

    /// A node hosts at most one container per function.
    #[verifier::type_invariant]
    pub open spec fn wf(&self) -> bool {
        distinct_functions(self.containers())
    }

    /// The (node, function) pairs of the idle containers, in scan order.
    pub open spec fn idle_containers(&self) -> Seq<(NodeId, FnId)> {
        self.containers().filter(is_idle()).map_values(located_on(self.id()))
    }

    /// The scan of a node yields the pairs of its idle containers and nothing
    /// else, and yields each of them once.
    pub proof fn lemma_idle_containers(self)
        ensures
            forall|c: (NodeId, FnId)| #[trigger]
                self.idle_containers().contains(c) <==> c.0 == self.id()
                    && self.containers().contains(FnContainer { fn_id: c.1, idle: true }),
            self.wf() ==> self.idle_containers().no_duplicates(),
    {
        let idle = self.containers().filter(is_idle());
        let pairs = self.idle_containers();
        assert forall|c: (NodeId, FnId)| #[trigger] pairs.contains(c) implies c.0 == self.id()
            && self.containers().contains(FnContainer { fn_id: c.1, idle: true }) by {
            let k = choose|k: int| 0 <= k < pairs.len() && pairs[k] == c;
            self.containers().lemma_filter_pred(is_idle(), k);
            assert(idle.contains(idle[k]));
            self.containers().lemma_filter_contains_rev(is_idle(), idle[k]);
            assert(idle[k] == (FnContainer { fn_id: c.1, idle: true }));
        }
        assert forall|c: (NodeId, FnId)|
            c.0 == self.id() && self.containers().contains(
                FnContainer { fn_id: c.1, idle: true },
            ) implies #[trigger] pairs.contains(c) by {
            let container = FnContainer { fn_id: c.1, idle: true };
            let j = choose|j: int| 0 <= j < self.containers().len() && self.containers()[j] == container;
            self.containers().lemma_filter_contains(is_idle(), j);
            let k = choose|k: int| 0 <= k < idle.len() && idle[k] == container;
            assert(pairs[k] == c);
        }
        if self.wf() {
            lemma_filter_distinct_functions(self.containers(), is_idle());
            assert forall|i: int, j: int| 0 <= i < pairs.len() && 0 <= j < pairs.len() && i != j implies pairs[i] != pairs[j] by {
                if i < j {
                    assert(idle[i].fn_id != idle[j].fn_id);
                } else {
                    assert(idle[j].fn_id != idle[i].fn_id);
                }
            }
        }
    }

    /// A node hosting `containers`, which a scan will meet in the given
    /// order. There is no such node when two of them run the same function.
    pub fn new(node_id: NodeId, containers: Vec<FnContainer>) -> (node: Option<Node>)
        ensures
            node is Some <==> distinct_functions(containers@),
            node matches Some(n) ==> n.id() == node_id && n.containers() == containers@ && n.wf(),
    {
        let mut j: usize = 0;
        while j < containers.len()
            invariant
                j <= containers.len(),
                distinct_functions(containers@.take(j as int)),
            decreases containers.len() - j,
        {
            let mut i: usize = 0;
            while i < j
                invariant
                    i <= j < containers.len(),
                    forall|k: int| 0 <= k < i ==> (#[trigger] containers@[k]).fn_id != containers@[j as int].fn_id,
                decreases j - i,
            {
                if containers[i].fn_id == containers[j].fn_id {
                    return None;
                }
                i += 1;
            }
            j += 1;
        }
        assert(containers@.take(j as int) == containers@);
        Some(Node { node_id, fn_containers: containers })
    }

    /// The node's identifier.
    pub fn node_id(&self) -> (id: NodeId)
        ensures
            id == self.id(),
    {
        self.node_id
    }

    /// The hosted containers in scan order; no two run the same function.
    pub fn fn_containers(&self) -> (containers: &Vec<FnContainer>)
        ensures
            containers@ == self.containers(),
            self.wf(),
    {
        proof {
            use_type_invariant(self);
        }
        &self.fn_containers
    }
}

} // verus!
