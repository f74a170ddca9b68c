use std::collections::VecDeque;
use std::time::{Duration, Instant};

use serverless_sim::actions::ESActionWrapper;
use serverless_sim::fn_dag::FnContainer;
use serverless_sim::mechanism::{DownCmd, Mechanism, ScheCmd, SimEnvObserve, UpCmd};
use serverless_sim::mechanism_thread::{
    mechanism_loop, report_completion, MechCmdDistributor, MechScheduleOnce, MechScheduleOnceRes,
    MechWorker,
};
use serverless_sim::node::Node;
use serverless_sim::scale::down_exec::{DefaultScaleDownExec, ScaleDownExec};
use serverless_sim::util::millis_to_u64;

fn snapshot(idle_on: &[usize]) -> SimEnvObserve {
    let nodes = idle_on
        .iter()
        .map(|id| Node::new(*id, vec![FnContainer::new(1, true)]).unwrap())
        .collect();
    SimEnvObserve::new(nodes).unwrap()
}

fn request(idle_on: &[usize], action: u32) -> MechScheduleOnce {
    MechScheduleOnce {
        sim_env: snapshot(idle_on),
        responser: MechCmdDistributor::new(),
        action: ESActionWrapper::Int(action),
    }
}

fn is_end(msg: &MechScheduleOnceRes) -> bool {
    matches!(msg, MechScheduleOnceRes::End { .. })
}

/// Numbers its steps and reports, per step, the payload and the step's
/// number as a scale-up command.
struct Numbering {
    steps: usize,
}

impl Mechanism for Numbering {
    fn step(
        &mut self,
        _env: &SimEnvObserve,
        action: ESActionWrapper,
        responser: &mut MechCmdDistributor,
    ) {
        let ESActionWrapper::Int(payload) = action;
        responser.send(MechScheduleOnceRes::ScaleUpCmd(UpCmd {
            nid: payload as usize,
            fnid: self.steps,
        }));
        self.steps += 1;
    }
}

/// Scales function 1 down by as many containers as the payload says.
struct ScaleDown {
    exec: DefaultScaleDownExec,
}

impl Mechanism for ScaleDown {
    fn step(
        &mut self,
        env: &SimEnvObserve,
        action: ESActionWrapper,
        responser: &mut MechCmdDistributor,
    ) {
        let ESActionWrapper::Int(count) = action;
        self.exec.exec_scale_down(env, 1, count as usize, responser);
    }
}

struct Silent;

impl Mechanism for Silent {
    fn step(&mut self, _: &SimEnvObserve, _: ESActionWrapper, _: &mut MechCmdDistributor) {}
}

struct Batching;

impl Mechanism for Batching {
    fn step(&mut self, _: &SimEnvObserve, _: ESActionWrapper, responser: &mut MechCmdDistributor) {
        responser.send(MechScheduleOnceRes::ScheCmd(ScheCmd { nid: 1, reqid: 2, fnid: 3 }));
        responser.send(MechScheduleOnceRes::Cmds {
            sche_cmds: vec![ScheCmd { nid: 0, reqid: 7, fnid: 1 }],
            scale_up_cmds: vec![UpCmd { nid: 2, fnid: 1 }],
            scale_down_cmds: vec![DownCmd { nid: 3, fnid: 1 }, DownCmd { nid: 4, fnid: 1 }],
        });
    }
}

struct Waiting {
    millis: u64,
}

impl Mechanism for Waiting {
    fn step(&mut self, _: &SimEnvObserve, _: ESActionWrapper, _: &mut MechCmdDistributor) {
        let begin = Instant::now();
        while begin.elapsed() < Duration::from_millis(self.millis) {}
    }
}

#[test]
fn stream_keeps_messages_in_order() {
    let mut stream = MechCmdDistributor::new();
    assert!(stream.sent().is_empty());
    let a = MechScheduleOnceRes::ScaleDownCmd(DownCmd { nid: 1, fnid: 2 });
    let b = MechScheduleOnceRes::End { mech_run_ms: 3 };
    stream.send(a.clone());
    assert_eq!(stream.sent(), &vec![a.clone()]);
    stream.send(b.clone());
    assert_eq!(stream.sent(), &vec![a.clone(), b.clone()]);
    assert_eq!(stream.into_sent(), vec![a, b]);
}

#[test]
fn completion_reports_the_elapsed_time() {
    let mut stream = MechCmdDistributor::new();
    report_completion(&mut stream, 0);
    report_completion(&mut stream, 1234);
    report_completion(&mut stream, u64::MAX as u128);
    report_completion(&mut stream, u64::MAX as u128 + 1);
    report_completion(&mut stream, u128::MAX);
    assert_eq!(
        stream.into_sent(),
        vec![
            MechScheduleOnceRes::End { mech_run_ms: 0 },
            MechScheduleOnceRes::End { mech_run_ms: 1234 },
            MechScheduleOnceRes::End { mech_run_ms: u64::MAX },
            MechScheduleOnceRes::End { mech_run_ms: u64::MAX },
            MechScheduleOnceRes::End { mech_run_ms: u64::MAX },
        ]
    );
}

#[test]
fn milliseconds_saturate_at_64_bits() {
    assert_eq!(millis_to_u64(0), 0);
    assert_eq!(millis_to_u64(50), 50);
    assert_eq!(millis_to_u64(18_446_744_073_709_551_615), u64::MAX);
    assert_eq!(millis_to_u64(18_446_744_073_709_551_616), u64::MAX);
    assert_eq!(millis_to_u64(u128::MAX), u64::MAX);
}

#[test]
fn worker_answers_a_request_with_commands_then_completion() {
    let mut worker = MechWorker::new(Numbering { steps: 0 });
    assert!(!worker.is_terminated());
    let sent = worker.on_recv(Some(request(&[0], 42))).unwrap().into_sent();
    assert_eq!(sent.len(), 2);
    assert_eq!(sent[0], MechScheduleOnceRes::ScaleUpCmd(UpCmd { nid: 42, fnid: 0 }));
    assert!(is_end(&sent[1]));
    assert!(!worker.is_terminated());
}

#[test]
fn worker_keeps_what_the_stream_held() {
    let mut worker = MechWorker::new(Numbering { steps: 5 });
    let mut req = request(&[0], 1);
    let earlier = MechScheduleOnceRes::ScheCmd(ScheCmd { nid: 9, reqid: 8, fnid: 7 });
    req.responser.send(earlier.clone());
    let sent = worker.on_recv(Some(req)).unwrap().into_sent();
    assert_eq!(sent.len(), 3);
    assert_eq!(sent[0], earlier);
    assert_eq!(sent[1], MechScheduleOnceRes::ScaleUpCmd(UpCmd { nid: 1, fnid: 5 }));
    assert!(is_end(&sent[2]));
}

#[test]
fn worker_completes_a_silent_step() {
    let mut worker = MechWorker::new(Silent);
    let sent = worker.on_recv(Some(request(&[], 0))).unwrap().into_sent();
    assert_eq!(sent.len(), 1);
    assert!(is_end(&sent[0]));
}

#[test]
fn worker_passes_batches_through() {
    let mut worker = MechWorker::new(Batching);
    let sent = worker.on_recv(Some(request(&[], 0))).unwrap().into_sent();
    assert_eq!(sent.len(), 3);
    assert_eq!(sent[0], MechScheduleOnceRes::ScheCmd(ScheCmd { nid: 1, reqid: 2, fnid: 3 }));
    assert_eq!(
        sent[1],
        MechScheduleOnceRes::Cmds {
            sche_cmds: vec![ScheCmd { nid: 0, reqid: 7, fnid: 1 }],
            scale_up_cmds: vec![UpCmd { nid: 2, fnid: 1 }],
            scale_down_cmds: vec![DownCmd { nid: 3, fnid: 1 }, DownCmd { nid: 4, fnid: 1 }],
        }
    );
    assert!(is_end(&sent[2]));
}

#[test]
fn worker_state_persists_across_requests() {
    let mut worker = MechWorker::new(Numbering { steps: 0 });
    for k in 0..4usize {
        let sent = worker.on_recv(Some(request(&[], 10 + k as u32))).unwrap().into_sent();
        assert_eq!(sent[0], MechScheduleOnceRes::ScaleUpCmd(UpCmd { nid: 10 + k, fnid: k }));
    }
}

#[test]
fn worker_terminates_when_the_source_closes() {
    let mut worker = MechWorker::new(Numbering { steps: 0 });
    assert!(worker.on_recv(Some(request(&[], 0))).is_some());
    assert!(worker.on_recv(None).is_none());
    assert!(worker.is_terminated());
    assert!(worker.on_recv(Some(request(&[], 1))).is_none());
    assert!(worker.on_recv(None).is_none());
    assert!(worker.is_terminated());
}

#[test]
fn worker_may_be_closed_before_any_request() {
    let mut worker = MechWorker::new(Silent);
    assert!(worker.on_recv(None).is_none());
    assert!(worker.is_terminated());
}

#[test]
fn worker_reports_how_long_the_step_took() {
    let mut worker = MechWorker::new(Waiting { millis: 50 });
    let sent = worker.on_recv(Some(request(&[], 0))).unwrap().into_sent();
    match sent[..] {
        [MechScheduleOnceRes::End { mech_run_ms }] => {
            assert!(mech_run_ms >= 50, "{}", mech_run_ms);
            assert!(mech_run_ms < 5_000, "{}", mech_run_ms);
        }
        _ => panic!("one completion expected"),
    }
    let mut quick = MechWorker::new(Silent);
    let sent = quick.on_recv(Some(request(&[], 0))).unwrap().into_sent();
    match sent[..] {
        [MechScheduleOnceRes::End { mech_run_ms }] => assert!(mech_run_ms < 5_000),
        _ => panic!("one completion expected"),
    }
}

#[test]
fn loop_answers_every_request_in_submission_order() {
    let mut rx = VecDeque::new();
    for k in 0..5u32 {
        rx.push_back(request(&[], 100 + k));
    }
    let responses = mechanism_loop(rx, Numbering { steps: 0 });
    assert_eq!(responses.len(), 5);
    let mut completions = 0;
    for (k, stream) in responses.into_iter().enumerate() {
        let sent = stream.into_sent();
        assert_eq!(sent.len(), 2);
        assert_eq!(sent[0], MechScheduleOnceRes::ScaleUpCmd(UpCmd { nid: 100 + k, fnid: k }));
        assert!(is_end(&sent[1]));
        completions += sent.iter().filter(|m| is_end(m)).count();
    }
    assert_eq!(completions, 5);
}

#[test]
fn loop_ends_at_once_on_an_empty_source() {
    assert!(mechanism_loop(VecDeque::new(), Silent).is_empty());
}

#[test]
fn loop_runs_each_step_on_its_own_snapshot() {
    let mut rx = VecDeque::new();
    rx.push_back(request(&[3, 4, 5], 2));
    rx.push_back(request(&[8], 2));
    rx.push_back(request(&[], 2));
    let responses = mechanism_loop(rx, ScaleDown { exec: DefaultScaleDownExec });
    let sent: Vec<Vec<MechScheduleOnceRes>> =
        responses.into_iter().map(|s| s.into_sent()).collect();
    assert_eq!(sent.len(), 3);
    assert_eq!(sent[0].len(), 3);
    assert_eq!(sent[0][0], MechScheduleOnceRes::ScaleDownCmd(DownCmd { nid: 3, fnid: 1 }));
    assert_eq!(sent[0][1], MechScheduleOnceRes::ScaleDownCmd(DownCmd { nid: 4, fnid: 1 }));
    assert!(is_end(&sent[0][2]));
    assert_eq!(sent[1].len(), 2);
    assert_eq!(sent[1][0], MechScheduleOnceRes::ScaleDownCmd(DownCmd { nid: 8, fnid: 1 }));
    assert!(is_end(&sent[1][1]));
    assert_eq!(sent[2].len(), 1);
    assert!(is_end(&sent[2][0]));
}
