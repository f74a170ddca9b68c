//! The request/response protocol between the simulation loop and the
//! mechanism worker, and the worker itself.

use vstd::prelude::*;
use std::collections::VecDeque;
use crate::actions::ESActionWrapper;
use crate::mechanism::{DownCmd, Mechanism, ScheCmd, SimEnvObserve, UpCmd};
use crate::util::{clamp_ms, duration_as_millis, instant_elapsed, instant_now, millis_to_u64};

verus! {

/// One message of a response stream: a command, a batch of commands, or
/// the completion that ends the stream.
#[derive(Clone, Debug, PartialEq, Eq)]
pub enum MechScheduleOnceRes {
    ScheCmd(ScheCmd),
    ScaleUpCmd(UpCmd),
    ScaleDownCmd(DownCmd),
    Cmds { sche_cmds: Vec<ScheCmd>, scale_up_cmds: Vec<UpCmd>, scale_down_cmds: Vec<DownCmd> },
    /// The decision step is over and took `mech_run_ms` milliseconds.
    End { mech_run_ms: u64 },
}

/// Wraps a down-command in the message that streams it.
pub open spec fn scale_down_msg() -> spec_fn(DownCmd) -> MechScheduleOnceRes {
    |cmd: DownCmd| MechScheduleOnceRes::ScaleDownCmd(cmd)
}

/// The predicate that keeps completions.
pub open spec fn is_completion() -> spec_fn(MechScheduleOnceRes) -> bool {
    |msg: MechScheduleOnceRes| msg is End
}

/// How many completions a stream holds.
pub open spec fn completions(stream: Seq<MechScheduleOnceRes>) -> nat {
    stream.filter(is_completion()).len()
}

/// `after` is `before` with commands appended to it: nothing that was sent
/// is changed or lost, and no completion is among what was added.
pub open spec fn streams_commands(
    before: Seq<MechScheduleOnceRes>,
    after: Seq<MechScheduleOnceRes>,
) -> bool {
    &&& before.is_prefix_of(after)
    &&& forall|i: int| before.len() <= i < after.len() ==> !(#[trigger] after[i] is End)
}

/// What serving one request sends: zero or more commands, then exactly one
/// completion, which is last.
pub open spec fn is_served_output(output: Seq<MechScheduleOnceRes>) -> bool {
    &&& output.len() >= 1
    &&& output.last() is End
    &&& forall|i: int| 0 <= i < output.len() - 1 ==> !(#[trigger] output[i] is End)
}

/// `after` is `before` with the output of one served request appended to
/// it.
pub open spec fn completes(
    before: Seq<MechScheduleOnceRes>,
    after: Seq<MechScheduleOnceRes>,
) -> bool {
    &&& before.is_prefix_of(after)
    &&& is_served_output(after.skip(before.len() as int))
}

/// The response stream dedicated to one request. Its view is the sequence
/// of messages sent so far, oldest first; messages are only ever appended.
#[derive(Debug)]
pub struct MechCmdDistributor {
    sent: Vec<MechScheduleOnceRes>,
}

impl View for MechCmdDistributor {
    type V = Seq<MechScheduleOnceRes>;

    closed spec fn view(&self) -> Seq<MechScheduleOnceRes> {
        self.sent@
    }
}

impl MechCmdDistributor {
    /// A stream on which nothing has been sent.
    pub fn new() -> (stream: MechCmdDistributor)
        ensures
            stream@ == Seq::<MechScheduleOnceRes>::empty(),
    {
        MechCmdDistributor { sent: Vec::new() }
    }

    /// Sends `msg`: it becomes the newest message of the stream.
    pub fn send(&mut self, msg: MechScheduleOnceRes)
        ensures
            final(self)@ == old(self)@.push(msg),
    {
        self.sent.push(msg);
    }

    /// The messages sent so far, oldest first.
    pub fn sent(&self) -> (msgs: &Vec<MechScheduleOnceRes>)
        ensures
            msgs@ == self@,
    {
        &self.sent
    }

    /// Gives up the stream for the messages sent on it, oldest first.
    pub fn into_sent(self) -> (msgs: Vec<MechScheduleOnceRes>)
        ensures
            msgs@ == self@,
    {
        self.sent
    }
}

/// A decision request: the snapshot to decide on, the action payload, and
/// the response stream dedicated to this request.
#[derive(Debug)]
pub struct MechScheduleOnce {
    pub sim_env: SimEnvObserve,
    pub responser: MechCmdDistributor,
    pub action: ESActionWrapper,
}

/// Ends the response to a request: sends the completion that reports a
/// step of `elapsed_ms` milliseconds, saturating at 64 bits.
pub fn report_completion(responser: &mut MechCmdDistributor, elapsed_ms: u128)
    ensures
        final(responser)@ == old(responser)@.push(
            MechScheduleOnceRes::End { mech_run_ms: clamp_ms(elapsed_ms) },
        ),
{
    responser.send(MechScheduleOnceRes::End { mech_run_ms: millis_to_u64(elapsed_ms) });
}

/// The mechanism worker: the sole consumer of decision requests and the
/// owner of one long-lived decision algorithm. It is told what the request
/// source yielded and answers with what is to be delivered.
pub struct MechWorker<M: Mechanism> {
    mech: M,
    terminated: bool,
}

impl<M: Mechanism> MechWorker<M> {
    /// The decision algorithm in its current state.
    pub closed spec fn mech(&self) -> M {
        self.mech
    }

    /// Whether the worker has seen the request source closed.
    pub closed spec fn terminated(&self) -> bool {
        self.terminated
    }

    /// A worker that runs `mech` and waits for its first request.
    pub fn new(mech: M) -> (worker: MechWorker<M>)
        ensures
            worker.mech() == mech,
            !worker.terminated(),
    {
        MechWorker { mech, terminated: false }
    }

    /// Whether the worker has seen the request source closed.
    pub fn is_terminated(&self) -> (terminated: bool)
        ensures
            terminated == self.terminated(),
    {
        self.terminated
    }

    /// Handles what the request source yielded: a request, or `None` when
    /// the source is closed for good.
    ///
    /// A request is served at once: the step runs on its snapshot and
    /// payload and streams its commands to the request's own response
    /// stream, then the completion with the step's duration is sent, and
    /// the finished stream is handed back for delivery. A closed source
    /// terminates the worker. A terminated worker stays terminated, leaves
    /// its algorithm alone and answers nothing, whatever it is handed.
    pub fn on_recv(&mut self, received: Option<MechScheduleOnce>) -> (response: Option<
        MechCmdDistributor,
    >)
        ensures
            final(self).terminated() <==> old(self).terminated() || received is None,
            response is Some <==> !old(self).terminated() && received is Some,
            response matches Some(stream) ==> serves(
                old(self).mech(),
                received->0,
                stream@,
                final(self).mech(),
            ),
            response is None ==> final(self).mech() == old(self).mech(),
    {
        if self.terminated {
            return None;
        }
        match received {
            None => {
                self.terminated = true;
                None
            },
            Some(request) => {
                let MechScheduleOnce { sim_env, responser, action } = request;
                let mut responser = responser;
                let ghost before = responser@;
                let begin = instant_now();
                self.mech.step(&sim_env, action, &mut responser);
                let elapsed = instant_elapsed(&begin);
                let ghost streamed = responser@;
                report_completion(&mut responser, duration_as_millis(&elapsed));
                assert(responser@.skip(before.len() as int).drop_last() == streamed.skip(
                    before.len() as int,
                ));
                Some(responser)
            },
        }
    }
}

/// Serving `request` takes the algorithm from `before` to `after` and
/// leaves `response` on the request's stream: what the stream held, then the
/// commands of a step on the request's own snapshot and payload, then one
/// completion.
pub open spec fn serves<M: Mechanism>(
    before: M,
    request: MechScheduleOnce,
    response: Seq<MechScheduleOnceRes>,
    after: M,
) -> bool {
    &&& completes(request.responser@, response)
    &&& before.steps(
        request.sim_env,
        request.action,
        &after,
        response.skip(request.responser@.len() as int).drop_last(),
    )
}

/// `states` are the states that the algorithm goes through as the requests
/// are served one at a time in the given order, starting from `mech`: each
/// request is served in the state that the one before it left.
pub open spec fn is_run<M: Mechanism>(
    states: Seq<M>,
    mech: M,
    requests: Seq<MechScheduleOnce>,
    responses: Seq<MechCmdDistributor>,
) -> bool {
    &&& states.len() == requests.len() + 1
    &&& states[0] == mech
    &&& forall|k: int|
        0 <= k < requests.len() ==> serves(
            states[k],
            #[trigger] requests[k],
            responses[k]@,
            states[k + 1],
        )
}

/// `responses` are the finished streams of `requests`, in the same order
/// and one per request, after an algorithm that started as `mech` has
/// served the requests strictly one after another.
pub open spec fn served_in_order<M: Mechanism>(
    mech: M,
    requests: Seq<MechScheduleOnce>,
    responses: Seq<MechCmdDistributor>,
) -> bool {
    &&& responses.len() == requests.len()
    &&& exists|states: Seq<M>| is_run(states, mech, requests, responses)
}

/// What the worker sent while it served `requests`, request by request.
pub open spec fn emitted(
    requests: Seq<MechScheduleOnce>,
    responses: Seq<MechCmdDistributor>,
) -> Seq<Seq<MechScheduleOnceRes>> {
    Seq::new(requests.len(), |k: int| responses[k]@.skip(requests[k].responser@.len() as int))
}

/// The output of one served request holds exactly one completion.
pub proof fn lemma_served_output_completes_once(output: Seq<MechScheduleOnceRes>)
    requires
        is_served_output(output),
    ensures
        completions(output) == 1,
{
    let commands = output.drop_last();
    assert(commands.all(|msg: MechScheduleOnceRes| !is_completion()(msg))) by {
        assert forall|i: int| 0 <= i < commands.len() implies !is_completion()(#[trigger] commands[i]) by {
            assert(commands[i] == output[i]);
        }
    }
    commands.lemma_all_neg_filter_empty(is_completion());
    assert(output == commands.push(output.last()));
    commands.lemma_filter_push(output.last(), is_completion());
}

/// As many completions are in the outputs of served requests, taken one
/// after another, as there are outputs.
proof fn lemma_completions_of_outputs(outputs: Seq<Seq<MechScheduleOnceRes>>)
    requires
        forall|k: int| 0 <= k < outputs.len() ==> is_served_output(#[trigger] outputs[k]),
    ensures
        completions(outputs.flatten()) == outputs.len(),
    decreases outputs.len(),
{
    if outputs.len() == 0 {
        assert(outputs.flatten().filter(is_completion()).len() == 0) by {
            reveal(Seq::filter);
        }
    } else {
        let earlier = outputs.drop_last();
        assert forall|k: int| 0 <= k < earlier.len() implies is_served_output(#[trigger] earlier[k]) by {
            assert(earlier[k] == outputs[k]);
        }
        lemma_completions_of_outputs(earlier);
        lemma_served_output_completes_once(outputs.last());
        assert(outputs == earlier.push(outputs.last()));
        earlier.lemma_flatten_push(outputs.last());
        Seq::filter_distributes_over_add(earlier.flatten(), outputs.last(), is_completion());
    }
}

/// For any sequence of requests served in order, as many completions are
/// sent as there are requests. They come in submission order: everything
/// sent for one request comes before anything sent for the next, and what
/// is sent for a request goes to its own stream, commands first and the
/// one completion last.
pub proof fn lemma_one_completion_per_request<M: Mechanism>(
    mech: M,
    requests: Seq<MechScheduleOnce>,
    responses: Seq<MechCmdDistributor>,
)
    requires
        served_in_order(mech, requests, responses),
    ensures
        completions(emitted(requests, responses).flatten()) == requests.len(),
        forall|k: int|
            0 <= k < requests.len() ==> is_served_output(#[trigger] emitted(requests, responses)[k])
                && completions(emitted(requests, responses)[k]) == 1 && responses[k]@
                == requests[k].responser@ + emitted(requests, responses)[k],
{
    let outputs = emitted(requests, responses);
    let states = choose|states: Seq<M>| is_run(states, mech, requests, responses);
    assert forall|k: int| 0 <= k < requests.len() implies is_served_output(#[trigger] outputs[k])
        && completions(outputs[k]) == 1 && responses[k]@ == requests[k].responser@ + outputs[k] by {
        assert(serves(states[k], requests[k], responses[k]@, states[k + 1]));
        lemma_served_output_completes_once(outputs[k]);
    }
    lemma_completions_of_outputs(outputs);
}

/// Serves the submitted requests `rx` one at a time, oldest first, until
/// the source is exhausted, which closes it, and then terminates. The
/// finished response streams come back in submission order, one per
/// request: each holds what its request's stream held before, then the
/// commands of that request's step, then one completion.
pub fn mechanism_loop<M: Mechanism>(rx: VecDeque<MechScheduleOnce>, mech: M) -> (responses: Vec<
    MechCmdDistributor,
>)
    ensures
        served_in_order(mech, rx@, responses@),
{
    let mut pending = rx;
    let mut worker = MechWorker::new(mech);
    let mut responses: Vec<MechCmdDistributor> = Vec::new();
    let ghost mut states: Seq<M> = seq![mech];
    loop
        invariant
            !worker.terminated(),
            responses@.len() <= rx@.len(),
            pending@ == rx@.skip(responses@.len() as int),
            states.len() == responses@.len() + 1,
            states[0] == mech,
            states.last() == worker.mech(),
            forall|k: int|
                0 <= k < responses@.len() ==> serves(
                    states[k],
                    #[trigger] rx@[k],
                    responses@[k]@,
                    states[k + 1],
                ),
        decreases pending@.len(),
    {
        let received = pending.pop_front();
        match worker.on_recv(received) {
            Some(stream) => {
                responses.push(stream);
                proof {
                    states = states.push(worker.mech());
                }
            },
            None => {
                assert(is_run(states, mech, rx@, responses@));
                return responses;
            },
        }
    }
}

} // verus!
