//! The client's side of the control protocol: the requests of the
//! commands, and what the commands make of the replies.

use crate::csvdump::{render, rendered, text_view, ExportError};
use crate::daemon::{PingResult, ProbeError};
use crate::ipc_common::{SaveTo, SaveToView, Signal, SignalView};
use crate::process::{
    history_view, list_processes, listed, CurrentProcesses, IdentityCache, RawProcess,
    SnapshotView,
};
use std::collections::VecDeque;
use vstd::prelude::*;

verus! {

/// Where an exchange with the daemon broke.
#[derive(Debug, Clone, Copy, PartialEq, Eq, Structural)]
pub enum TransportError {
    /// The daemon could not be reached: it is probably not running.
    Connect,
    /// The request could not be written.
    Send,
    /// No reply could be read.
    Receive,
}

/// Why a command failed.
#[derive(Debug)]
pub enum ControlError {
    /// The exchange with the daemon broke.
    Transport { at: TransportError },
    /// The daemon answered with an error.
    Daemon { explanation: String },
    /// The daemon answered with a signal that is no answer to the request.
    Unexpected { response: Signal },
}

/// What a failure of a command says.
pub enum ControlErrorView {
    Transport { at: TransportError },
    Daemon { explanation: Seq<char> },
    Unexpected { response: SignalView },
}

impl View for ControlError {
    type V = ControlErrorView;

    open spec fn view(&self) -> ControlErrorView {
        match self {
            ControlError::Transport { at } => ControlErrorView::Transport { at: *at },
            ControlError::Daemon { explanation } => ControlErrorView::Daemon {
                explanation: explanation@,
            },
            ControlError::Unexpected { response } => ControlErrorView::Unexpected {
                response: response@,
            },
        }
    }
}

/// What a reply, or the failure to get one, says.
pub open spec fn reply_view(reply: Result<Signal, TransportError>) -> Result<
    SignalView,
    TransportError,
> {
    match reply {
        Ok(signal) => Ok(signal@),
        Err(at) => Err(at),
    }
}

/// What the outcome of a command says.
pub open spec fn outcome_view(outcome: Result<(), ControlError>) -> Result<(), ControlErrorView> {
    match outcome {
        Ok(()) => Ok(()),
        Err(e) => Err(e@),
    }
}

/// What a command that expects an `Ack` makes of the reply: success of an
/// `Ack`, the daemon's error of an `Error`, and a failure of anything else.
pub open spec fn acknowledged(reply: Result<SignalView, TransportError>) -> Result<
    (),
    ControlErrorView,
> {
    match reply {
        Ok(SignalView::Ack) => Ok(()),
        Ok(SignalView::Error { explanation }) => Err(ControlErrorView::Daemon { explanation }),
        Ok(response) => Err(ControlErrorView::Unexpected { response }),
        Err(at) => Err(ControlErrorView::Transport { at }),
    }
}

/// Decides on a command that expects an `Ack`, from the reply to its
/// request or the failure of the exchange.
pub fn communicate(reply: Result<Signal, TransportError>) -> (outcome: Result<(), ControlError>)
    ensures
        outcome_view(outcome) == acknowledged(reply_view(reply)),
{
    match reply {
        Ok(Signal::Ack) => Ok(()),
        Ok(Signal::Error { explanation }) => Err(ControlError::Daemon { explanation }),
        Ok(response) => Err(ControlError::Unexpected { response }),
        Err(at) => Err(ControlError::Transport { at }),
    }
}

/// The request of the `stop` command. It expects an `Ack`.
pub fn do_stop() -> (request: Signal)
    ensures
        request@ == SignalView::Stop,
{
    Signal::Stop
}

/// The request of the `save` command: an export into the file of this
/// name, as far back as `last` seconds. It expects an `Ack`.
pub fn do_save(filename: String, last: Option<usize>) -> (request: Signal)
    ensures
        request@ == (SignalView::Save {
            to: SaveToView::File { name: filename@ },
            time_sec: last,
        }),
{
    Signal::Save { to: SaveTo::File { name: filename }, time_sec: last }
}

/// The request of the `dump` command: an export back to the client, as far
/// back as `last` seconds. It expects an `Ack` and then one `Output`.
pub fn dump_request(last: Option<usize>) -> (request: Signal)
    ensures
        request@ == (SignalView::Save { to: SaveToView::Stdout, time_sec: last }),
{
    Signal::Save { to: SaveTo::Stdout, time_sec: last }
}

/// Which reply the `dump` command waits for.
#[derive(Debug, Clone, Copy, PartialEq, Eq, Structural)]
pub enum DumpPhase {
    AwaitingAck,
    AwaitingOutput,
}

/// What the `dump` command does with a reply.
#[derive(Debug)]
pub enum DumpStep {
    /// It reads the next reply.
    Receive { phase: DumpPhase },
    /// It prints the report and is done.
    Print { report: String },
    /// It fails: the reply is not the one it waits for.
    Fail { response: Signal },
}

/// What a step of the `dump` command says.
pub enum DumpStepView {
    Receive { phase: DumpPhase },
    Print { report: Seq<char> },
    Fail { response: SignalView },
}

impl View for DumpStep {
    type V = DumpStepView;

    open spec fn view(&self) -> DumpStepView {
        match self {
            DumpStep::Receive { phase } => DumpStepView::Receive { phase: *phase },
            DumpStep::Print { report } => DumpStepView::Print { report: report@ },
            DumpStep::Fail { response } => DumpStepView::Fail { response: response@ },
        }
    }
}

/// The step of the `dump` command on a reply: the first reply is to be an
/// `Ack`, the second an `Output`, whose text is the report.
pub open spec fn dump_step(phase: DumpPhase, reply: SignalView) -> DumpStepView {
    match (phase, reply) {
        (DumpPhase::AwaitingAck, SignalView::Ack) => DumpStepView::Receive {
            phase: DumpPhase::AwaitingOutput,
        },
        (DumpPhase::AwaitingOutput, SignalView::Output { output }) => DumpStepView::Print {
            report: output,
        },
        (_, response) => DumpStepView::Fail { response },
    }
}

/// Decides on one reply to the `dump` command.
pub fn do_dump(phase: DumpPhase, reply: Signal) -> (step: DumpStep)
    ensures
        step@ == dump_step(phase, reply@),
{
    match phase {
        DumpPhase::AwaitingAck => match reply {
            Signal::Ack => DumpStep::Receive { phase: DumpPhase::AwaitingOutput },
            response => DumpStep::Fail { response },
        },
        DumpPhase::AwaitingOutput => match reply {
            Signal::Output { output } => DumpStep::Print { report: output },
            response => DumpStep::Fail { response },
        },
    }
}

/// Why the `status` command does not report an active daemon.
#[derive(Debug, Clone, Copy, PartialEq, Eq, Structural)]
pub enum StatusError {
    /// No daemon is running.
    NotRunning,
    /// The probe of the endpoint failed.
    Probe { failure: ProbeError },
}

/// Decides on the `status` command from the probe of the endpoint: the
/// daemon is active exactly where the probe found it.
pub fn do_status(probe: Result<PingResult, ProbeError>) -> (status: Result<(), StatusError>)
    ensures
        status == match probe {
            Ok(PingResult::DaemonExists) => Ok::<(), StatusError>(()),
            Ok(PingResult::DaemonNotFound) => Err::<(), StatusError>(StatusError::NotRunning),
            Err(failure) => Err::<(), StatusError>(StatusError::Probe { failure }),
        },
{
    match probe {
        Ok(PingResult::DaemonExists) => Ok(()),
        Ok(PingResult::DaemonNotFound) => Err(StatusError::NotRunning),
        Err(failure) => Err(StatusError::Probe { failure }),
    }
}

/// Why the `run` command does not start a daemon.
#[derive(Debug, Clone, Copy, PartialEq, Eq, Structural)]
pub enum RunError {
    /// A daemon is active already.
    AlreadyActive,
    /// The probe of the endpoint failed.
    Probe { failure: ProbeError },
}

/// How the `run` command starts the daemon.
#[derive(Debug, Clone, Copy, PartialEq, Eq, Structural)]
pub enum RunPlan {
    /// As it is, where it was started.
    InPlace,
    /// As a daemon: from the directory for temporary files.
    FromTemporaryDirectory,
}

/// Decides on the `run` command. A daemon that is to run as such is
/// started only where the probe of the endpoint found none; one that is
/// not is started without a look at the probe.
pub fn do_run(as_daemon: bool, probe: Result<PingResult, ProbeError>) -> (plan: Result<
    RunPlan,
    RunError,
>)
    ensures
        plan == if !as_daemon {
            Ok::<RunPlan, RunError>(RunPlan::InPlace)
        } else {
            match probe {
                Ok(PingResult::DaemonNotFound) => Ok::<RunPlan, RunError>(
                    RunPlan::FromTemporaryDirectory,
                ),
                Ok(PingResult::DaemonExists) => Err::<RunPlan, RunError>(RunError::AlreadyActive),
                Err(failure) => Err::<RunPlan, RunError>(RunError::Probe { failure }),
            }
        },
{
    if !as_daemon {
        return Ok(RunPlan::InPlace);
    }
    match probe {
        Ok(PingResult::DaemonNotFound) => Ok(RunPlan::FromTemporaryDirectory),
        Ok(PingResult::DaemonExists) => Err(RunError::AlreadyActive),
        Err(failure) => Err(RunError::Probe { failure }),
    }
}

/// The number of times that the `detach` command pings the daemon that it
/// has started before it gives up.
pub const SPAWN_ATTEMPTS: u8 = 5;

/// The milliseconds that the daemon is given before each ping.
pub const GRACE_MS: u64 = 1;

/// The milliseconds between a ping without answer and the next attempt.
pub const RETRY_MS: u64 = 1000;

/// What is known of the daemon's process.
#[derive(Debug, Clone, Copy, PartialEq, Eq)]
pub enum ChildStatus {
    Running,
    /// It has ended, with this code where it has one.
    Exited { code: Option<i32> },
    /// Its state could not be had.
    Unknown,
}

/// How the `detach` command ended.
#[derive(Debug, Clone, Copy, PartialEq, Eq)]
pub enum DetachOutcome {
    /// A daemon was active already: none was started.
    AlreadyActive,
    /// The daemon was started and has answered.
    Started,
    /// The first probe of the endpoint failed.
    CheckFailed { failure: ProbeError },
    /// The daemon's process could not be started.
    SpawnFailed,
    /// The daemon's process has ended.
    DaemonExited { code: Option<i32> },
    /// The daemon has answered none of the pings.
    NoAnswer,
}

/// Where the `detach` command stands.
#[derive(Debug, Clone, Copy, PartialEq, Eq)]
pub enum DetachPhase {
    /// The endpoint is to be probed.
    Checking,
    /// The daemon's process is to be started.
    Spawning,
    /// The daemon's process is to be looked at, for the `attempt`th time.
    Watching { attempt: u8 },
    /// The daemon is to be pinged, for the `attempt`th time.
    Pinging { attempt: u8 },
    /// The command has ended.
    Done { outcome: DetachOutcome },
}

/// What happened outside since the command's last step.
#[derive(Debug, Clone, Copy, PartialEq, Eq)]
pub enum DetachEvent {
    /// The endpoint was probed.
    Checked { probe: Result<PingResult, ProbeError> },
    /// The daemon's process was started.
    Spawned,
    /// The daemon's process could not be started.
    SpawnFailed,
    /// The daemon's process was looked at.
    Child { status: ChildStatus },
    /// The daemon was pinged, and has answered with an `Ack` or not.
    Pinged { answered: bool },
}

/// What is to be done outside before the command's next step.
#[derive(Debug, Clone, Copy, PartialEq, Eq)]
pub enum DetachAction {
    /// Probe the endpoint.
    CheckSocket,
    /// Start the daemon's process.
    Spawn,
    /// Wait `after_ms` milliseconds, then look at the daemon's process.
    CheckChild { after_ms: u64 },
    /// Wait `after_ms` milliseconds, then ping the daemon.
    Ping { after_ms: u64 },
    /// End with this outcome.
    Finish { outcome: DetachOutcome },
}

/// The phase that follows `phase` on `event`. An event that the phase does
/// not wait for changes nothing.
pub open spec fn detach_next(phase: DetachPhase, event: DetachEvent) -> DetachPhase {
    match (phase, event) {
        (DetachPhase::Checking, DetachEvent::Checked { probe: Ok(PingResult::DaemonExists) }) => {
            DetachPhase::Done { outcome: DetachOutcome::AlreadyActive }
        },
        (DetachPhase::Checking, DetachEvent::Checked { probe: Ok(PingResult::DaemonNotFound) }) => {
            DetachPhase::Spawning
        },
        (DetachPhase::Checking, DetachEvent::Checked { probe: Err(failure) }) => DetachPhase::Done {
            outcome: DetachOutcome::CheckFailed { failure },
        },
        (DetachPhase::Spawning, DetachEvent::Spawned) => DetachPhase::Watching { attempt: 1 },
        (DetachPhase::Spawning, DetachEvent::SpawnFailed) => DetachPhase::Done {
            outcome: DetachOutcome::SpawnFailed,
        },
        (
            DetachPhase::Watching { attempt },
            DetachEvent::Child { status: ChildStatus::Exited { code } },
        ) => DetachPhase::Done { outcome: DetachOutcome::DaemonExited { code } },
        (DetachPhase::Watching { attempt }, DetachEvent::Child { status }) => DetachPhase::Pinging {
            attempt,
        },
        (DetachPhase::Pinging { attempt }, DetachEvent::Pinged { answered }) => if answered {
            DetachPhase::Done { outcome: DetachOutcome::Started }
        } else if attempt >= SPAWN_ATTEMPTS {
            DetachPhase::Done { outcome: DetachOutcome::NoAnswer }
        } else {
            DetachPhase::Watching { attempt: (attempt + 1) as u8 }
        },
        _ => phase,
    }
}

/// What a phase asks of the outside. The daemon's process is looked at at
/// once the first time, and after the time between two attempts later.
pub open spec fn detach_action(phase: DetachPhase) -> DetachAction {
    match phase {
        DetachPhase::Checking => DetachAction::CheckSocket,
        DetachPhase::Spawning => DetachAction::Spawn,
        DetachPhase::Watching { attempt } => DetachAction::CheckChild {
            after_ms: if attempt <= 1 {
                0
            } else {
                RETRY_MS
            },
        },
        DetachPhase::Pinging { attempt } => DetachAction::Ping { after_ms: GRACE_MS },
        DetachPhase::Done { outcome } => DetachAction::Finish { outcome },
    }
}

/// What the command asks of the outside in a phase.
pub fn detach_asks(phase: DetachPhase) -> (action: DetachAction)
    ensures
        action == detach_action(phase),
{
    match phase {
        DetachPhase::Checking => DetachAction::CheckSocket,
        DetachPhase::Spawning => DetachAction::Spawn,
        DetachPhase::Watching { attempt } => DetachAction::CheckChild {
            after_ms: if attempt <= 1 {
                0
            } else {
                RETRY_MS
            },
        },
        DetachPhase::Pinging { attempt: _ } => DetachAction::Ping { after_ms: GRACE_MS },
        DetachPhase::Done { outcome } => DetachAction::Finish { outcome },
    }
}

/// One step of the `detach` command: the phase that follows on an event.
///
/// The command starts a daemon only where the probe found none. It then
/// pings the daemon until it answers, and gives up after the last attempt
/// or as soon as the daemon's process has ended.
pub fn do_detach(phase: DetachPhase, event: DetachEvent) -> (next: DetachPhase)
    ensures
        next == detach_next(phase, event),
{
    match phase {
        DetachPhase::Checking => match event {
            DetachEvent::Checked { probe } => match probe {
                Ok(PingResult::DaemonExists) => DetachPhase::Done {
                    outcome: DetachOutcome::AlreadyActive,
                },
                Ok(PingResult::DaemonNotFound) => DetachPhase::Spawning,
                Err(failure) => DetachPhase::Done {
                    outcome: DetachOutcome::CheckFailed { failure },
                },
            },
            _ => phase,
        },
        DetachPhase::Spawning => match event {
            DetachEvent::Spawned => DetachPhase::Watching { attempt: 1 },
            DetachEvent::SpawnFailed => DetachPhase::Done { outcome: DetachOutcome::SpawnFailed },
            _ => phase,
        },
        DetachPhase::Watching { attempt } => match event {
            DetachEvent::Child { status } => match status {
                ChildStatus::Exited { code } => DetachPhase::Done {
                    outcome: DetachOutcome::DaemonExited { code },
                },
                _ => DetachPhase::Pinging { attempt },
            },
            _ => phase,
        },
        DetachPhase::Pinging { attempt } => match event {
            DetachEvent::Pinged { answered } => if answered {
                DetachPhase::Done { outcome: DetachOutcome::Started }
            } else if attempt >= SPAWN_ATTEMPTS {
                DetachPhase::Done { outcome: DetachOutcome::NoAnswer }
            } else {
                DetachPhase::Watching { attempt: attempt + 1 }
            },
            _ => phase,
        },
        DetachPhase::Done { outcome: _ } => phase,
    }
}

/// The phase after `failures` rounds in each of which the daemon's process
/// runs and the ping has no answer.
pub open spec fn after_silence(phase: DetachPhase, failures: nat) -> DetachPhase
    decreases failures,
{
    if failures == 0 {
        phase
    } else {
        detach_next(
            detach_next(
                after_silence(phase, (failures - 1) as nat),
                DetachEvent::Child { status: ChildStatus::Running },
            ),
            DetachEvent::Pinged { answered: false },
        )
    }
}

/// A daemon that never answers is pinged as often as there are attempts,
/// and no more: before the last ping the command goes on, after it the
/// command has ended without an answer.
pub proof fn lemma_detach_gives_up()
    ensures
        forall|failures: nat|
            failures < SPAWN_ATTEMPTS ==> #[trigger] after_silence(
                DetachPhase::Watching { attempt: 1 },
                failures,
            ) == (DetachPhase::Watching { attempt: (failures + 1) as u8 }),
        after_silence(DetachPhase::Watching { attempt: 1 }, SPAWN_ATTEMPTS as nat) == (
        DetachPhase::Done { outcome: DetachOutcome::NoAnswer }),
{
    let start = DetachPhase::Watching { attempt: 1 };
    assert(after_silence(start, 0) == start);
    assert(after_silence(start, 1) == DetachPhase::Watching { attempt: 2 });
    assert(after_silence(start, 2) == DetachPhase::Watching { attempt: 3 });
    assert(after_silence(start, 3) == DetachPhase::Watching { attempt: 4 });
    assert(after_silence(start, 4) == DetachPhase::Watching { attempt: 5 });
    assert(after_silence(start, 5) == DetachPhase::Done { outcome: DetachOutcome::NoAnswer });
}

/// The report of the `once` command: one sample of the reported
/// processes, stamped `now`, rendered in full.
pub fn do_once(now: u128, page_size: u64, listing: Vec<RawProcess>) -> (report: Result<
    String,
    ExportError,
>)
    ensures
        text_view(report) == rendered(
            seq![SnapshotView { timestamp: now, entries: listed(listing@, page_size) }],
            0,
        ),
{
    let mut cache = IdentityCache::new();
    assert(listing.len() == listing@.len());
    let snapshot = list_processes(&mut cache, now, page_size, listing);
    let mut history: VecDeque<CurrentProcesses> = VecDeque::new();
    history.push_back(snapshot);
    assert(history_view(history@) =~= seq![
        SnapshotView { timestamp: now, entries: listed(listing@, page_size) },
    ]);
    render(&history, None, now)
}

} // verus!
