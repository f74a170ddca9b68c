//! Scaling a function down: which idle containers are removed.

use vstd::prelude::*;
use crate::config::Config;
use crate::fn_dag::FnId;
use crate::mechanism::{idle_on_node, runs, DownCmd, SimEnvObserve};
use crate::mechanism_thread::{scale_down_msg, MechCmdDistributor, MechScheduleOnceRes};
use crate::node::{is_idle, located_on, NodeId};

verus! {

/// Turns a (node, function) pair into the command that removes that
/// container.
pub open spec fn down_cmd_of() -> spec_fn((NodeId, FnId)) -> DownCmd {
    |c: (NodeId, FnId)| DownCmd { nid: c.0, fnid: c.1 }
}

/// How many containers are removed when `scale_cnt` removals are asked for
/// and `available` idle containers exist: the request, clamped to what is
/// there.
pub open spec fn executed_count(available: nat, scale_cnt: nat) -> nat {
    if available < scale_cnt {
        available
    } else {
        scale_cnt
    }
}

/// The commands that scale `fnid` down by `scale_cnt`: one for each of the
/// first idle containers of `fnid` in scan order, as many as were asked for
/// or as there are.
pub open spec fn scale_down_selection(env: SimEnvObserve, fnid: FnId, scale_cnt: nat) -> Seq<
    DownCmd,
> {
    let idle = env.idle_containers_of(fnid);
    idle.take(executed_count(idle.len(), scale_cnt) as int).map_values(down_cmd_of())
}

/// What holds of every selection: it is no longer than was asked for, and
/// every command in it names the function that is scaled down and a node
/// that hosts an idle container of it. Containers of other functions are
/// never selected, whether idle or not. In a well-formed snapshot no
/// container is selected twice.
pub proof fn lemma_selection_sound(env: SimEnvObserve, fnid: FnId, scale_cnt: nat)
    ensures
        scale_down_selection(env, fnid, scale_cnt).len() == executed_count(
            env.idle_containers_of(fnid).len(),
            scale_cnt,
        ),
        scale_down_selection(env, fnid, scale_cnt).len() <= scale_cnt,
        forall|i: int|
            0 <= i < scale_down_selection(env, fnid, scale_cnt).len() ==> (
            #[trigger] scale_down_selection(env, fnid, scale_cnt)[i]).fnid == fnid
                && env.has_idle_container(scale_down_selection(env, fnid, scale_cnt)[i].nid, fnid),
        forall|cmd: DownCmd|
            cmd.fnid != fnid ==> !(#[trigger] scale_down_selection(env, fnid, scale_cnt).contains(
                cmd,
            )),
        env.wf() ==> scale_down_selection(env, fnid, scale_cnt).no_duplicates(),
{
    let matching = env.idle_containers_of(fnid);
    let count: int = executed_count(matching.len(), scale_cnt) as int;
    let taken = matching.take(count);
    let selection = scale_down_selection(env, fnid, scale_cnt);
    env.lemma_idle_containers_of(fnid);
    assert forall|i: int| 0 <= i < selection.len() implies (#[trigger] selection[i]).fnid == fnid
        && env.has_idle_container(selection[i].nid, fnid) by {
        assert(taken[i] == matching[i]);
        assert(matching.to_set().contains(matching[i]));
    }
    if env.wf() {
        assert(taken.no_duplicates());
        assert(vstd::relations::injective(down_cmd_of()));
        taken.lemma_no_duplicates_injective(down_cmd_of());
    }
}

/// Where at least as many containers of `fnid` are idle as are asked for,
/// exactly that many are selected: distinct ones, all of `fnid`.
pub proof fn lemma_selection_when_enough_idle(env: SimEnvObserve, fnid: FnId, scale_cnt: nat)
    requires
        env.wf(),
        scale_cnt <= env.idle_count(fnid),
    ensures
        scale_down_selection(env, fnid, scale_cnt).len() == scale_cnt,
        scale_down_selection(env, fnid, scale_cnt).no_duplicates(),
        forall|i: int|
            0 <= i < scale_cnt ==> (#[trigger] scale_down_selection(env, fnid, scale_cnt)[i]).fnid
                == fnid,
{
    env.lemma_idle_containers_of(fnid);
    lemma_selection_sound(env, fnid, scale_cnt);
}

/// Where more containers are asked for than are idle, the request is
/// clamped: every idle container of `fnid` is selected, in scan order, and
/// no other.
pub proof fn lemma_selection_when_short_of_idle(env: SimEnvObserve, fnid: FnId, scale_cnt: nat)
    requires
        env.wf(),
        scale_cnt > env.idle_count(fnid),
    ensures
        scale_down_selection(env, fnid, scale_cnt).len() == env.idle_count(fnid),
        scale_down_selection(env, fnid, scale_cnt) == env.idle_containers_of(fnid).map_values(
            down_cmd_of(),
        ),
{
    env.lemma_idle_containers_of(fnid);
    let matching = env.idle_containers_of(fnid);
    assert(matching.take(matching.len() as int) == matching);
}

/// Where no container of `fnid` is idle, nothing is selected, however many
/// are asked for.
pub proof fn lemma_selection_without_idle(env: SimEnvObserve, fnid: FnId, scale_cnt: nat)
    requires
        forall|nid: NodeId| !env.has_idle_container(nid, fnid),
    ensures
        scale_down_selection(env, fnid, scale_cnt) == Seq::<DownCmd>::empty(),
{
    env.lemma_idle_containers_of(fnid);
    let matching = env.idle_containers_of(fnid);
    if matching.len() > 0 {
        assert(matching.to_set().contains(matching[0]));
    }
}

/// An executor of scale-down decisions. Asked to remove `scale_cnt`
/// containers of a function, it removes that many idle containers of that
/// function, or all of them where fewer are idle; which ones it picks among
/// more is its own affair. It sends exactly the commands that it returns,
/// in that order.
pub trait ScaleDownExec: Send {
    /// Whether `cmds` is what this executor selects to scale `fnid` down by
    /// `scale_cnt` in `sim_env`. An executor that says nothing here may
    /// select anything that the guarantees of `exec_scale_down` allow.
    open spec fn selects(
        &self,
        sim_env: SimEnvObserve,
        fnid: FnId,
        scale_cnt: usize,
        cmds: Seq<DownCmd>,
    ) -> bool {
        true
    }

    fn exec_scale_down(
        &mut self,
        sim_env: &SimEnvObserve,
        fnid: FnId,
        scale_cnt: usize,
        cmd_distributor: &mut MechCmdDistributor,
    ) -> (cmds: Vec<DownCmd>)
        ensures
            cmds@.len() == executed_count(sim_env.idle_count(fnid), scale_cnt as nat),
            forall|i: int|
                0 <= i < cmds@.len() ==> (#[trigger] cmds@[i]).fnid == fnid
                    && sim_env.has_idle_container(cmds@[i].nid, fnid),
            cmds@.no_duplicates(),
            final(cmd_distributor)@ == old(cmd_distributor)@ + cmds@.map_values(scale_down_msg()),
            old(self).selects(*sim_env, fnid, scale_cnt, cmds@),
            forall|e: SimEnvObserve, f: FnId, n: usize, c: Seq<DownCmd>|
                #[trigger] final(self).selects(e, f, n, c) == old(self).selects(e, f, n, c),
    ;
}

/// The executor registered under the configured name, if there is one.
/// Only "default" is registered; under any other name the feature is
/// disabled.
pub fn new_scale_down_exec(c: &Config) -> (exec: Option<Box<dyn ScaleDownExec>>)
    ensures
        exec is Some <==> c.mech.scale_down_exec_name@ == "default"@,
        exec matches Some(e) ==> forall|env: SimEnvObserve, fnid: FnId, n: usize, cmds: Seq<DownCmd>|
            #[trigger] e.selects(env, fnid, n, cmds) <==> cmds == scale_down_selection(
                env,
                fnid,
                n as nat,
            ),
{
    let (scale_down_exec_name, _scale_down_exec_attr) = c.mech.scale_down_exec_conf();
    let default_name: String = "default".to_owned();
    if *scale_down_exec_name == default_name {
        Some(Box::new(DefaultScaleDownExec))
    } else {
        None
    }
}

/// The executor that removes idle containers in scan order.
pub struct DefaultScaleDownExec;

impl ScaleDownExec for DefaultScaleDownExec {
    open spec fn selects(
        &self,
        sim_env: SimEnvObserve,
        fnid: FnId,
        scale_cnt: usize,
        cmds: Seq<DownCmd>,
    ) -> bool {
        cmds == scale_down_selection(sim_env, fnid, scale_cnt as nat)
    }

    /// Selects the first idle containers of `fnid` in scan order.
    fn exec_scale_down(
        &mut self,
        env: &SimEnvObserve,
        fnid: FnId,
        scale_cnt: usize,
        cmd_distributor: &mut MechCmdDistributor,
    ) -> (cmds: Vec<DownCmd>)
        ensures
            cmds@ == scale_down_selection(*env, fnid, scale_cnt as nat),
    {
        proof {
            lemma_selection_sound(*env, fnid, scale_cnt as nat);
        }
        self.scale_down_for_fn(env, fnid, scale_cnt, cmd_distributor)
    }
}

impl DefaultScaleDownExec {
    /// Scans all nodes and collects the (node, function) pair of every idle
    /// container, in scan order.
    pub fn collect_idle_containers(&self, env: &SimEnvObserve) -> (idle: Vec<(NodeId, FnId)>)
        ensures
            idle@ == env.idle_containers(),
    {
        let mut idle: Vec<(NodeId, FnId)> = Vec::new();
        let nodes = env.nodes();
        let mut i: usize = 0;
        assert(nodes@.take(0).map_values(idle_on_node()) == Seq::<Seq<(NodeId, FnId)>>::empty());
        while i < nodes.len()
            invariant
                i <= nodes.len(),
                idle@ == nodes@.take(i as int).map_values(idle_on_node()).flatten(),
            decreases nodes.len() - i,
        {
            let n = &nodes[i];
            let containers = n.fn_containers();
            let ghost before = idle@;
            let mut j: usize = 0;
            assert(containers@.take(0).filter(is_idle()) == Seq::<crate::fn_dag::FnContainer>::empty()) by {
                reveal(Seq::filter);
            }
            assert(before + Seq::<(NodeId, FnId)>::empty() == before);
            while j < containers.len()
                invariant
                    j <= containers.len(),
                    idle@ == before + containers@.take(j as int).filter(is_idle()).map_values(
                        located_on(n.id()),
                    ),
                decreases containers.len() - j,
            {
                let c = &containers[j];
                proof {
                    let seen = containers@.take(j as int);
                    containers@.lemma_take_succ_push(j as int);
                    seen.lemma_filter_push(*c, is_idle());
                    seen.filter(is_idle()).lemma_push_map_commute(located_on(n.id()), *c);
                }
                if c.is_idle() {
                    idle.push((n.node_id(), c.fn_id));
                }
                j += 1;
            }
            proof {
                assert(containers@.take(j as int) == containers@);
                let done = nodes@.take(i as int);
                nodes@.lemma_take_succ_push(i as int);
                done.lemma_push_map_commute(idle_on_node(), *n);
                done.map_values(idle_on_node()).lemma_flatten_push(n.idle_containers());
            }
            i += 1;
        }
        assert(nodes@.take(i as int) == nodes@);
        idle
    }

    /// Scales `fnid` down by up to `scale_cnt` containers. Only idle
    /// containers of `fnid` are removed; where fewer are idle than were asked
    /// for, all of them are. Each command is sent on `cmd_distributor` as it
    /// is made, and the commands are returned in the order in which they
    /// were sent.
    pub fn scale_down_for_fn(
        &mut self,
        env: &SimEnvObserve,
        fnid: FnId,
        scale_cnt: usize,
        cmd_distributor: &mut MechCmdDistributor,
    ) -> (cmds: Vec<DownCmd>)
        ensures
            cmds@ == scale_down_selection(*env, fnid, scale_cnt as nat),
            cmds@.len() == executed_count(env.idle_count(fnid), scale_cnt as nat),
            cmds@.no_duplicates(),
            final(cmd_distributor)@ == old(cmd_distributor)@ + cmds@.map_values(scale_down_msg()),
    {
        proof {
            use_type_invariant(env);
            env.lemma_idle_containers_of(fnid);
            lemma_selection_sound(*env, fnid, scale_cnt as nat);
        }
        let idle = self.collect_idle_containers(env);
        let mut matching: Vec<(NodeId, FnId)> = Vec::new();
        let mut k: usize = 0;
        assert(idle@.take(0).filter(runs(fnid)) == Seq::<(NodeId, FnId)>::empty()) by {
            reveal(Seq::filter);
        }
        while k < idle.len()
            invariant
                k <= idle.len(),
                matching@ == idle@.take(k as int).filter(runs(fnid)),
            decreases idle.len() - k,
        {
            let c = idle[k];
            proof {
                idle@.lemma_take_succ_push(k as int);
                idle@.take(k as int).lemma_filter_push(c, runs(fnid));
            }
            if c.1 == fnid {
                matching.push(c);
            }
            k += 1;
        }
        assert(idle@.take(k as int) == idle@);

        let count: usize = if matching.len() < scale_cnt {
            matching.len()
        } else {
            scale_cnt
        };
        let mut cmds: Vec<DownCmd> = Vec::new();
        let mut m: usize = 0;
        assert(old(cmd_distributor)@ + Seq::<MechScheduleOnceRes>::empty() == old(cmd_distributor)@);
        while m < count
            invariant
                m <= count <= matching.len(),
                cmds@ == matching@.take(m as int).map_values(down_cmd_of()),
                cmd_distributor@ == old(cmd_distributor)@ + cmds@.map_values(scale_down_msg()),
            decreases count - m,
        {
            let (nodeid, fnid_) = matching[m];
            let cmd = DownCmd { nid: nodeid, fnid: fnid_ };
            proof {
                matching@.lemma_take_succ_push(m as int);
                matching@.take(m as int).lemma_push_map_commute(down_cmd_of(), matching@[m as int]);
                cmds@.lemma_push_map_commute(scale_down_msg(), cmd);
            }
            cmd_distributor.send(MechScheduleOnceRes::ScaleDownCmd(cmd));
            cmds.push(cmd);
            m += 1;
        }
        cmds
    }
}

} // verus!
