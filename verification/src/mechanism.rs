//! What a decision step reads and what it produces: the snapshot of the
//! cluster, the commands, and the interface of a decision algorithm.

use vstd::prelude::*;
use crate::actions::ESActionWrapper;
use crate::fn_dag::{FnContainer, FnId, ReqId};
use crate::mechanism_thread::{streams_commands, MechCmdDistributor, MechScheduleOnceRes};
use crate::node::{Node, NodeId};

verus! {

/// Directs that the container of `fnid` on node `nid` be removed.
#[derive(Clone, Copy, Debug, PartialEq, Eq, Structural)]
pub struct DownCmd {
    pub nid: NodeId,
    pub fnid: FnId,
}

/// Directs that a container of `fnid` be started on node `nid`.
#[derive(Clone, Copy, Debug, PartialEq, Eq, Structural)]
pub struct UpCmd {
    pub nid: NodeId,
    pub fnid: FnId,
}

/// Directs that function `fnid` of request `reqid` run on node `nid`.
#[derive(Clone, Copy, Debug, PartialEq, Eq, Structural)]
pub struct ScheCmd {
    pub nid: NodeId,
    pub reqid: ReqId,
    pub fnid: FnId,
}

/// Maps a node to the (node, function) pairs of its idle containers.
pub open spec fn idle_on_node() -> spec_fn(Node) -> Seq<(NodeId, FnId)> {
    |n: Node| n.idle_containers()
}

/// The predicate that keeps the containers of function `fn_id`.
pub open spec fn runs(fn_id: FnId) -> spec_fn((NodeId, FnId)) -> bool {
    |c: (NodeId, FnId)| c.1 == fn_id
}

/// No two of the nodes share an identifier.
pub open spec fn distinct_nodes(nodes: Seq<Node>) -> bool {
    forall|i: int, j: int|
        0 <= i < j < nodes.len() ==> (#[trigger] nodes[i]).id() != (#[trigger] nodes[j]).id()
}

/// Dropping elements from a sequence without repetitions leaves one
/// without repetitions.
proof fn lemma_filter_no_duplicates<A>(s: Seq<A>, keep: spec_fn(A) -> bool)
    requires
        s.no_duplicates(),
    ensures
        s.filter(keep).no_duplicates(),
    decreases s.len(),
{
    reveal(Seq::filter);
    if s.len() > 0 {
        let rest = s.drop_last();
        lemma_filter_no_duplicates(rest, keep);
        let kept = rest.filter(keep);
        if keep(s.last()) && kept.contains(s.last()) {
            rest.lemma_filter_contains_rev(keep, s.last());
            let k = choose|k: int| 0 <= k < rest.len() && rest[k] == s.last();
            assert(s[k] == s[s.len() - 1]);
        }
    }
}

/// Every node hosts at most one container per function.
pub open spec fn all_wf(nodes: Seq<Node>) -> bool {
    forall|i: int| 0 <= i < nodes.len() ==> (#[trigger] nodes[i]).wf()
}

/// A scan over `nodes` yields a pair exactly when one of the nodes yields
/// it. Where the nodes have distinct identifiers and each hosts at most one
/// container per function, the scan yields no pair twice.
proof fn lemma_scan_of_nodes(nodes: Seq<Node>)
    ensures
        forall|c: (NodeId, FnId)| #[trigger]
            nodes.map_values(idle_on_node()).flatten().contains(c) <==> exists|i: int|
                0 <= i < nodes.len() && (#[trigger] nodes[i]).idle_containers().contains(c),
        distinct_nodes(nodes) && all_wf(nodes) ==> nodes.map_values(
            idle_on_node(),
        ).flatten().no_duplicates(),
    decreases nodes.len(),
{
    let scan = nodes.map_values(idle_on_node()).flatten();
    if nodes.len() == 0 {
        assert(nodes.map_values(idle_on_node()) == Seq::<Seq<(NodeId, FnId)>>::empty());
    } else {
        let rest = nodes.drop_last();
        let last = nodes.last();
        let rest_scan = rest.map_values(idle_on_node()).flatten();
        lemma_scan_of_nodes(rest);
        last.lemma_idle_containers();
        assert(nodes == rest.push(last));
        rest.lemma_push_map_commute(idle_on_node(), last);
        rest.map_values(idle_on_node()).lemma_flatten_push(last.idle_containers());
        assert(scan == rest_scan + last.idle_containers());
        assert forall|c: (NodeId, FnId)| #[trigger] scan.contains(c) implies exists|i: int|
            0 <= i < nodes.len() && (#[trigger] nodes[i]).idle_containers().contains(c) by {
            vstd::seq_lib::lemma_seq_concat_contains_all_elements(rest_scan, last.idle_containers(), c);
            if rest_scan.contains(c) {
                let i = choose|i: int| 0 <= i < rest.len() && (#[trigger] rest[i]).idle_containers().contains(c);
                assert(nodes[i] == rest[i]);
            } else {
                assert(nodes[nodes.len() - 1] == last);
            }
        }
        assert forall|c: (NodeId, FnId)|
            (exists|i: int| 0 <= i < nodes.len() && (#[trigger] nodes[i]).idle_containers().contains(c))
            implies #[trigger] scan.contains(c) by {
            vstd::seq_lib::lemma_seq_concat_contains_all_elements(rest_scan, last.idle_containers(), c);
            let i = choose|i: int| 0 <= i < nodes.len() && (#[trigger] nodes[i]).idle_containers().contains(c);
            if i < rest.len() {
                assert(rest[i] == nodes[i]);
            }
        }
        if distinct_nodes(nodes) && all_wf(nodes) {
            assert(distinct_nodes(rest)) by {
                assert forall|i: int, j: int| 0 <= i < j < rest.len() implies (#[trigger] rest[i]).id() != (
                #[trigger] rest[j]).id() by {
                    assert(rest[i] == nodes[i] && rest[j] == nodes[j]);
                }
            }
            assert(all_wf(rest)) by {
                assert forall|i: int| 0 <= i < rest.len() implies (#[trigger] rest[i]).wf() by {
                    assert(rest[i] == nodes[i]);
                }
            }
            assert(last.wf()) by {
                assert(nodes[nodes.len() - 1] == last);
            }
            let tail = last.idle_containers();
            assert forall|a: int, b: int| 0 <= a < rest_scan.len() && 0 <= b < tail.len() implies rest_scan[a] != tail[b] by {
                assert(rest_scan.contains(rest_scan[a]));
                assert(tail.contains(tail[b]));
                let i = choose|i: int| 0 <= i < rest.len() && (#[trigger] rest[i]).idle_containers().contains(rest_scan[a]);
                rest[i].lemma_idle_containers();
                assert(rest[i] == nodes[i]);
                assert(nodes[i].id() != nodes[nodes.len() - 1].id());
            }
            vstd::seq_lib::lemma_no_dup_in_concat(rest_scan, tail);
        }
    }
}

/// A read-only snapshot of the cluster, valid for one decision step: the
/// nodes in scan order, each with its containers.
#[derive(Debug)]
pub struct SimEnvObserve {
    nodes: Vec<Node>,
}

impl View for SimEnvObserve {
    type V = Seq<Node>;

    closed spec fn view(&self) -> Seq<Node> {
        self.nodes@
    }
}

impl SimEnvObserve {
    /// Node identifiers are unique and every node hosts at most one
    /// container per function.
    #[verifier::type_invariant]
    pub open spec fn wf(&self) -> bool {
        &&& distinct_nodes(self@)
        &&& all_wf(self@)
    }

    /// Whether node `nid` hosts a container of `fnid` that is idle.
    pub open spec fn has_idle_container(&self, nid: NodeId, fnid: FnId) -> bool {
        exists|i: int|
            0 <= i < self@.len() && (#[trigger] self@[i]).id() == nid && self@[i].containers().contains(
                FnContainer { fn_id: fnid, idle: true },
            )
    }

    /// The idle containers of function `fn_id`, each named by its node and
    /// `fn_id`.
    pub open spec fn idle_set(&self, fn_id: FnId) -> Set<(NodeId, FnId)> {
        Set::new(|c: (NodeId, FnId)| c.1 == fn_id && self.has_idle_container(c.0, fn_id))
    }

    /// How many containers of function `fn_id` are idle.
    pub open spec fn idle_count(&self, fn_id: FnId) -> nat {
        self.idle_set(fn_id).len()
    }

    /// The (node, function) pairs of all idle containers, in scan order:
    /// node by node, and within a node container by container.
    pub open spec fn idle_containers(&self) -> Seq<(NodeId, FnId)> {
        self@.map_values(idle_on_node()).flatten()
    }

    /// The idle containers of function `fn_id`, in scan order.
    pub open spec fn idle_containers_of(&self, fn_id: FnId) -> Seq<(NodeId, FnId)> {
        self.idle_containers().filter(runs(fn_id))
    }

    /// The scan yields the pairs of the idle containers and nothing else, and
    /// in a well-formed snapshot yields each of them once.
    pub proof fn lemma_idle_containers(self)
        ensures
            forall|c: (NodeId, FnId)| #[trigger]
                self.idle_containers().contains(c) <==> self.has_idle_container(c.0, c.1),
            self.wf() ==> self.idle_containers().no_duplicates(),
    {
        lemma_scan_of_nodes(self@);
        assert forall|c: (NodeId, FnId)| #[trigger] self.idle_containers().contains(c) implies self.has_idle_container(c.0, c.1) by {
            let i = choose|i: int| 0 <= i < self@.len() && (#[trigger] self@[i]).idle_containers().contains(c);
            self@[i].lemma_idle_containers();
        }
        assert forall|c: (NodeId, FnId)| self.has_idle_container(c.0, c.1) implies #[trigger] self.idle_containers().contains(c) by {
            let i = choose|i: int| 0 <= i < self@.len() && (#[trigger] self@[i]).id() == c.0 && self@[i].containers().contains(FnContainer { fn_id: c.1, idle: true });
            self@[i].lemma_idle_containers();
            assert(self@[i].idle_containers().contains(c));
        }
    }

    /// The scan for function `fn_id` lists the idle containers of `fn_id`
    /// and nothing else. In a well-formed snapshot it lists none twice, so
    /// it is as long as there are idle containers of `fn_id`.
    pub proof fn lemma_idle_containers_of(self, fn_id: FnId)
        ensures
            self.idle_containers_of(fn_id).to_set() == self.idle_set(fn_id),
            self.idle_set(fn_id).finite(),
            self.wf() ==> self.idle_containers_of(fn_id).no_duplicates(),
            self.wf() ==> self.idle_containers_of(fn_id).len() == self.idle_count(fn_id),
    {
        let all = self.idle_containers();
        let matching = self.idle_containers_of(fn_id);
        self.lemma_idle_containers();
        assert forall|c: (NodeId, FnId)| #[trigger] matching.contains(c) implies c.1 == fn_id
            && self.has_idle_container(c.0, fn_id) by {
            let k = choose|k: int| 0 <= k < matching.len() && matching[k] == c;
            all.lemma_filter_pred(runs(fn_id), k);
            all.lemma_filter_contains_rev(runs(fn_id), c);
            assert(all.contains(c));
        }
        assert forall|c: (NodeId, FnId)|
            c.1 == fn_id && self.has_idle_container(c.0, fn_id) implies #[trigger] matching.contains(
            c,
        ) by {
            assert(all.contains(c));
            let k = choose|k: int| 0 <= k < all.len() && all[k] == c;
            all.lemma_filter_contains(runs(fn_id), k);
        }
        assert(matching.to_set() =~= self.idle_set(fn_id));
        vstd::seq_lib::seq_to_set_is_finite(matching);
        if self.wf() {
            lemma_filter_no_duplicates(all, runs(fn_id));
            matching.unique_seq_to_set();
        }
    }

    /// A snapshot of `nodes`, which a scan will visit in the given order.
    /// There is no such snapshot when two nodes share an identifier.
    pub fn new(nodes: Vec<Node>) -> (env: Option<SimEnvObserve>)
        ensures
            env is Some <==> distinct_nodes(nodes@),
            env matches Some(e) ==> e@ == nodes@ && e.wf(),
    {
        let mut j: usize = 0;
        while j < nodes.len()
            invariant
                j <= nodes.len(),
                distinct_nodes(nodes@.take(j as int)),
                forall|k: int| 0 <= k < j ==> (#[trigger] nodes@[k]).wf(),
            decreases nodes.len() - j,
        {
            let node = &nodes[j];
            let id: NodeId = node.node_id();
            proof {
                use_type_invariant(node);
            }
            let mut i: usize = 0;
            while i < j
                invariant
                    i <= j < nodes.len(),
                    id == nodes@[j as int].id(),
                    forall|k: int| 0 <= k < i ==> (#[trigger] nodes@[k]).id() != id,
                decreases j - i,
            {
                if nodes[i].node_id() == id {
                    return None;
                }
                i += 1;
            }
            j += 1;
        }
        assert(nodes@.take(j as int) == nodes@);
        Some(SimEnvObserve { nodes })
    }

    /// The nodes in scan order.
    pub fn nodes(&self) -> (nodes: &Vec<Node>)
        ensures
            nodes@ == self@,
            self.wf(),
    {
        proof {
            use_type_invariant(self);
        }
        &self.nodes
    }
}

/// A decision algorithm: a scheduler, a scaler, or several run in sequence.
/// Its state persists from one step to the next.
pub trait Mechanism {
    /// Whether a step on `env` with the payload `action` may take this
    /// algorithm to the state `after` while it sends `commands`. An
    /// algorithm that says nothing here may do anything that the guarantees
    /// of `step` allow.
    open spec fn steps(
        &self,
        env: SimEnvObserve,
        action: ESActionWrapper,
        after: &Self,
        commands: Seq<MechScheduleOnceRes>,
    ) -> bool {
        true
    }

    /// Runs one decision step on `env` with the payload `action`. All output
    /// goes to `responser`: the step appends commands, one by one or in
    /// batches, and leaves what was sent before untouched. It never sends
    /// the completion, which is the worker's to send.
    fn step(
        &mut self,
        env: &SimEnvObserve,
        action: ESActionWrapper,
        responser: &mut MechCmdDistributor,
    )
        ensures
            streams_commands(old(responser)@, final(responser)@),
            old(self).steps(
                *env,
                action,
                final(self),
                final(responser)@.skip(old(responser)@.len() as int),
            ),
    ;
}

} // verus!
