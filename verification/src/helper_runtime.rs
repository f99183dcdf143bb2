//! The macOS helper at work: the state of its tunnel, the steps that start and
//! stop one, and the requests of its clients.
use crate::error;
use crate::error::{AtrError, AtrResult, ErrorCode};
use crate::helper::HelperConfig;
use crate::networksetup::ProxyEndpoint;
use crate::text;
use crate::text::{chars_of, trimmed};
use vstd::prelude::*;
use vstd::string::*;

verus! {

// ---------------------------------------------------------------------------
// State
// ---------------------------------------------------------------------------

/// What is known of the tunnel. The engine itself is with the caller.
#[derive(Debug)]
pub struct HelperRuntime {
    pub tun_starting: bool,
    pub tun_failure: Option<String>,
    /// Whether there is an engine.
    pub tun_engine: bool,
    pub shutting_down: bool,
}

/// The phases of a tunnel, as files and replies name them.
#[derive(Debug, Clone, Copy, PartialEq, Eq, Structural)]
pub enum TunPhase {
    Starting,
    Running,
    Failed,
    Stopped,
}

/// The name of a phase.
pub open spec fn phase_name(phase: TunPhase) -> Seq<char> {
    match phase {
        TunPhase::Starting => "starting"@,
        TunPhase::Running => "running"@,
        TunPhase::Failed => "failed"@,
        TunPhase::Stopped => "stopped"@,
    }
}

impl TunPhase {
    /// The name of the phase.
    pub fn name(self) -> (r: &'static str)
        ensures
            r@ == phase_name(self),
            self == TunPhase::Starting ==> r@ == "starting"@,
            self == TunPhase::Running ==> r@ == "running"@,
            self == TunPhase::Failed ==> r@ == "failed"@,
            self == TunPhase::Stopped ==> r@ == "stopped"@,
    {
        match self {
            TunPhase::Starting => "starting",
            TunPhase::Running => "running",
            TunPhase::Failed => "failed",
            TunPhase::Stopped => "stopped",
        }
    }
}

/// What is said of the tunnel, in a reply or in the state file.
#[derive(Debug)]
pub struct TunReport {
    pub phase: TunPhase,
    pub message: Option<String>,
    pub sessions: Option<usize>,
}

/// A report without details.
pub fn plain_report(phase: TunPhase) -> (r: TunReport)
    ensures
        r == (TunReport { phase, message: None, sessions: None }),
{
    TunReport { phase, message: None, sessions: None }
}

/// Whether a report tells how an engine ended: with the sessions that it
/// served, or with its error.
pub open spec fn tells_end(report: TunReport, ended: AtrResult<usize>) -> bool {
    match ended {
        Ok(n) => report == (TunReport {
            phase: TunPhase::Stopped,
            message: None,
            sessions: Some(n),
        }),
        Err(e) => {
            &&& report.phase == TunPhase::Failed
            &&& report.message is Some
            &&& report.message->0@ == e.shown()
            &&& report.sessions is None
        },
    }
}

/// The report of an engine that ended.
pub fn end_report(ended: &AtrResult<usize>) -> (r: TunReport)
    ensures
        tells_end(r, *ended),
        *ended is Ok ==> r.phase == TunPhase::Stopped && r.message is None && r.sessions == Some(
            ended->Ok_0,
        ),
        *ended is Err ==> r.phase == TunPhase::Failed && r.message is Some && r.message->0@
            == ended->Err_0.shown() && r.sessions is None,
{
    match ended {
        Ok(n) => TunReport { phase: TunPhase::Stopped, message: None, sessions: Some(*n) },
        Err(e) => TunReport {
            phase: TunPhase::Failed,
            message: Some(e.to_text()),
            sessions: None,
        },
    }
}

impl HelperRuntime {
    /// A helper without a tunnel.
    pub fn new() -> (r: HelperRuntime)
        ensures
            r == (HelperRuntime {
                tun_starting: false,
                tun_failure: None,
                tun_engine: false,
                shutting_down: false,
            }),
    {
        HelperRuntime {
            tun_starting: false,
            tun_failure: None,
            tun_engine: false,
            shutting_down: false,
        }
    }

    /// Begins to start a tunnel. There is one at a time.
    pub fn start_tun(&mut self) -> (r: AtrResult<()>)
        ensures
            if old(self).tun_starting {
                &&& r is Err
                &&& r->Err_0.says(ErrorCode::InvalidState, "tun is already starting"@)
                &&& *final(self) == *old(self)
            } else if old(self).tun_engine {
                &&& r is Err
                &&& r->Err_0.says(ErrorCode::InvalidState, "tun is already running"@)
                &&& *final(self) == *old(self)
            } else {
                &&& r is Ok
                &&& *final(self) == (HelperRuntime {
                    tun_starting: true,
                    tun_failure: None,
                    ..*old(self)
                })
            },
    {
        if self.tun_starting {
            return Err(AtrError::InvalidState("tun is already starting".to_owned()));
        }
        if self.tun_engine {
            return Err(AtrError::InvalidState("tun is already running".to_owned()));
        }
        self.tun_starting = true;
        self.tun_failure = None;
        Ok(())
    }

    /// Whether a worker may start its tunnel.
    pub fn check_idle(&self) -> (r: AtrResult<()>)
        ensures
            if self.tun_engine {
                r is Err && r->Err_0.says(ErrorCode::InvalidState, "tun is already running"@)
            } else {
                r is Ok
            },
    {
        if self.tun_engine {
            Err(AtrError::InvalidState("tun is already running".to_owned()))
        } else {
            Ok(())
        }
    }

    /// The tunnel runs.
    pub fn engine_started(&mut self)
        ensures
            *final(self) == (HelperRuntime { tun_engine: true, ..*old(self) }),
    {
        self.tun_engine = true;
    }

    /// The worker that started the tunnel is done. Why it failed is kept, and
    /// is to be written to the state file.
    pub fn start_ended(&mut self, outcome: &AtrResult<()>) -> (r: Option<TunReport>)
        ensures
            final(self).tun_starting == false,
            final(self).tun_engine == old(self).tun_engine,
            final(self).shutting_down == old(self).shutting_down,
            match *outcome {
                Ok(_) => r is None && final(self).tun_failure == old(self).tun_failure,
                Err(e) => {
                    &&& final(self).tun_failure is Some
                    &&& final(self).tun_failure->0@ == e.shown()
                    &&& r is Some
                    &&& r->0.phase == TunPhase::Failed
                    &&& r->0.message is Some
                    &&& r->0.message->0@ == e.shown()
                    &&& r->0.sessions is None
                },
            },
    {
        self.tun_starting = false;
        match outcome {
            Ok(_) => None,
            Err(e) => {
                let message = e.to_text();
                self.tun_failure = Some(message.clone());
                Some(
                    TunReport { phase: TunPhase::Failed, message: Some(message), sessions: None },
                )
            },
        }
    }

    /// Stops the tunnel, and says whether there is an engine to cancel.
    pub fn stop_tun(&mut self) -> (cancel: bool)
        ensures
            cancel == old(self).tun_engine,
            *final(self) == (HelperRuntime {
                tun_failure: None,
                tun_engine: false,
                ..*old(self)
            }),
    {
        let cancel = self.tun_engine;
        self.tun_failure = None;
        self.tun_engine = false;
        cancel
    }

    /// Whether the engine is asked for its result when the status is.
    pub fn asks_engine(&self) -> (r: bool)
        ensures
            r == (!self.tun_starting && self.tun_failure is None && self.tun_engine),
    {
        !self.tun_starting && self.tun_failure.is_none() && self.tun_engine
    }

    /// The status of the tunnel. `ended` is the result of an engine that was
    /// asked for it; the engine is then gone, and the report is to be written
    /// to the state file.
    pub fn status(&mut self, ended: Option<AtrResult<usize>>) -> (r: (TunReport, bool))
        ensures
            ({
                let asked = !old(self).tun_starting && old(self).tun_failure is None
                    && old(self).tun_engine;
                if old(self).tun_starting {
                    &&& r.0 == (TunReport {
                        phase: TunPhase::Starting,
                        message: None,
                        sessions: None,
                    })
                    &&& !r.1
                    &&& *final(self) == *old(self)
                } else if old(self).tun_failure is Some {
                    &&& r.0 == (TunReport {
                        phase: TunPhase::Failed,
                        message: old(self).tun_failure,
                        sessions: None,
                    })
                    &&& !r.1
                    &&& *final(self) == *old(self)
                } else if !asked {
                    &&& r.0 == (TunReport {
                        phase: TunPhase::Stopped,
                        message: None,
                        sessions: None,
                    })
                    &&& !r.1
                    &&& *final(self) == *old(self)
                } else {
                    match ended {
                        Some(result) => {
                            &&& tells_end(r.0, result)
                            &&& r.1
                            &&& *final(self) == (HelperRuntime { tun_engine: false, ..*old(self) })
                        },
                        None => {
                            &&& r.0 == (TunReport {
                                phase: TunPhase::Running,
                                message: None,
                                sessions: None,
                            })
                            &&& !r.1
                            &&& *final(self) == *old(self)
                        },
                    }
                }
            }),
    {
        if self.tun_starting {
            return (plain_report(TunPhase::Starting), false);
        }
        match &self.tun_failure {
            Some(message) => {
                return (
                    TunReport {
                        phase: TunPhase::Failed,
                        message: Some(message.clone()),
                        sessions: None,
                    },
                    false,
                );
            },
            None => {},
        }
        if !self.tun_engine {
            return (plain_report(TunPhase::Stopped), false);
        }
        match ended {
            Some(result) => {
                self.tun_engine = false;
                (end_report(&result), true)
            },
            None => (plain_report(TunPhase::Running), false),
        }
    }

    /// The helper is to end.
    pub fn shut_down(&mut self)
        ensures
            *final(self) == (HelperRuntime { shutting_down: true, ..*old(self) }),
    {
        self.shutting_down = true;
    }
}

// ---------------------------------------------------------------------------
// Starting and stopping
// ---------------------------------------------------------------------------

/// Who starts the tunnel: the service, for a client, or a single run.
#[derive(Debug, Clone, Copy, PartialEq, Eq, Structural)]
pub enum StartFlow {
    Service,
    Legacy,
}

/// The steps of starting a tunnel, in order.
#[derive(Debug, Clone, Copy, PartialEq, Eq, Structural)]
pub enum StartStep {
    /// Make sure that there is no tunnel.
    CheckIdle,
    /// Save the name servers.
    SnapshotNetwork,
    /// Make the configuration of the engine.
    Configure,
    /// Start the engine.
    StartEngine,
    /// Add the routes and the resolvers.
    SetupRoutes,
    /// Wait until they are in effect.
    WaitForSetup,
    /// Keep the engine and write the state file.
    Finish,
}

/// The ways of putting things back.
#[derive(Debug, Clone, Copy, PartialEq, Eq, Structural)]
pub enum Cleanup {
    /// Delete the routes of the tunnel.
    CleanupRoutes,
    /// Remove the resolver files.
    CleanupResolvers,
    /// Remove the global name servers.
    RemoveGlobalDns,
    /// Restore the name servers, and decide on what comes of it.
    RestoreSnapshot,
    /// Restore the name servers, whatever comes of it.
    RestoreSnapshotQuietly,
    /// Empty the caches of name lookups.
    FlushDns,
    /// Tell the engine to end, and wait for it.
    StopEngine,
    /// Tell the engine to end.
    CancelEngine,
    /// Write to the state file that the start failed. An error of this takes
    /// the place of the error that it was for.
    WriteFailedState,
}

/// The step after a step.
pub open spec fn step_after(step: StartStep) -> Option<StartStep> {
    match step {
        StartStep::CheckIdle => Some(StartStep::SnapshotNetwork),
        StartStep::SnapshotNetwork => Some(StartStep::Configure),
        StartStep::Configure => Some(StartStep::StartEngine),
        StartStep::StartEngine => Some(StartStep::SetupRoutes),
        StartStep::SetupRoutes => Some(StartStep::WaitForSetup),
        StartStep::WaitForSetup => Some(StartStep::Finish),
        StartStep::Finish => None,
    }
}

/// What restores the network.
pub open spec fn network_cleanup() -> Seq<Cleanup> {
    seq![
        Cleanup::CleanupRoutes,
        Cleanup::CleanupResolvers,
        Cleanup::RemoveGlobalDns,
        Cleanup::RestoreSnapshot,
        Cleanup::FlushDns,
    ]
}

/// What is put back where a step failed.
pub open spec fn failure_cleanup(flow: StartFlow, step: StartStep) -> Seq<Cleanup> {
    match step {
        StartStep::StartEngine => match flow {
            StartFlow::Service => seq![
                Cleanup::RestoreSnapshotQuietly,
                Cleanup::CleanupRoutes,
                Cleanup::WriteFailedState,
            ],
            StartFlow::Legacy => seq![Cleanup::RestoreSnapshotQuietly, Cleanup::CleanupRoutes],
        },
        StartStep::SetupRoutes | StartStep::WaitForSetup => match flow {
            StartFlow::Service => network_cleanup().push(Cleanup::StopEngine),
            StartFlow::Legacy => seq![Cleanup::CancelEngine] + network_cleanup(),
        },
        _ => Seq::empty(),
    }
}

/// What is put back where a tunnel is stopped. A service may have none.
pub open spec fn stop_cleanup(flow: StartFlow, running: bool) -> Seq<Cleanup> {
    match flow {
        StartFlow::Service => if running {
            seq![Cleanup::CancelEngine] + network_cleanup()
        } else {
            network_cleanup()
        },
        StartFlow::Legacy => seq![Cleanup::StopEngine] + network_cleanup(),
    }
}

fn push_network_cleanup(v: &mut Vec<Cleanup>)
    ensures
        final(v)@ == old(v)@ + network_cleanup(),
{
    let ghost before = v@;
    v.push(Cleanup::CleanupRoutes);
    v.push(Cleanup::CleanupResolvers);
    v.push(Cleanup::RemoveGlobalDns);
    v.push(Cleanup::RestoreSnapshot);
    v.push(Cleanup::FlushDns);
    assert(v@ =~= before + network_cleanup());
}

/// What is put back where a step failed.
pub fn cleanup_after_failure(flow: StartFlow, step: StartStep) -> (r: Vec<Cleanup>)
    ensures
        r@ == failure_cleanup(flow, step),
{
    let mut r: Vec<Cleanup> = Vec::new();
    match step {
        StartStep::StartEngine => {
            r.push(Cleanup::RestoreSnapshotQuietly);
            r.push(Cleanup::CleanupRoutes);
            if flow == StartFlow::Service {
                r.push(Cleanup::WriteFailedState);
            }
        },
        StartStep::SetupRoutes | StartStep::WaitForSetup => {
            if flow == StartFlow::Legacy {
                r.push(Cleanup::CancelEngine);
            }
            push_network_cleanup(&mut r);
            if flow == StartFlow::Service {
                r.push(Cleanup::StopEngine);
            }
        },
        _ => {},
    }
    assert(r@ =~= failure_cleanup(flow, step));
    r
}

/// What is put back where a tunnel is stopped.
pub fn cleanup_after_stop(flow: StartFlow, running: bool) -> (r: Vec<Cleanup>)
    ensures
        r@ == stop_cleanup(flow, running),
{
    let mut r: Vec<Cleanup> = Vec::new();
    match flow {
        StartFlow::Service => {
            if running {
                r.push(Cleanup::CancelEngine);
            }
        },
        StartFlow::Legacy => {
            r.push(Cleanup::StopEngine);
        },
    }
    push_network_cleanup(&mut r);
    assert(r@ =~= stop_cleanup(flow, running));
    r
}

/// Whether the name servers are cleared, because they could not be restored.
/// That there was nothing to restore is no reason for the service.
pub fn resets_dns(flow: StartFlow, restored: &AtrResult<()>) -> (r: bool)
    ensures
        r == match *restored {
            Ok(_) => false,
            Err(e) => !(e is NotFound && flow == StartFlow::Service),
        },
{
    match restored {
        Ok(_) => false,
        Err(AtrError::NotFound(_)) => flow == StartFlow::Legacy,
        Err(_) => true,
    }
}

/// A tunnel that is being started.
#[derive(Debug)]
pub struct TunStart {
    pub flow: StartFlow,
    pub step: StartStep,
}

/// What comes after a step.
#[derive(Debug)]
pub enum StartDecision {
    /// The next step.
    Continue(StartStep),
    /// The tunnel runs.
    Done,
    /// Put things back, and fail.
    Fail { cleanup: Vec<Cleanup>, error: AtrError },
}

impl TunStart {
    /// The first step. A single run has nothing to check.
    pub fn new(flow: StartFlow) -> (r: TunStart)
        ensures
            r.flow == flow,
            r.step == if flow == StartFlow::Service {
                StartStep::CheckIdle
            } else {
                StartStep::SnapshotNetwork
            },
    {
        match flow {
            StartFlow::Service => TunStart { flow, step: StartStep::CheckIdle },
            StartFlow::Legacy => TunStart { flow, step: StartStep::SnapshotNetwork },
        }
    }

    /// Reports what came of the current step, and says what comes next.
    pub fn start_tun_worker(&mut self, outcome: AtrResult<()>) -> (r: StartDecision)
        ensures
            final(self).flow == old(self).flow,
            match outcome {
                Ok(_) => match step_after(old(self).step) {
                    Some(next) => r == StartDecision::Continue(next) && final(self).step == next,
                    None => r is Done && final(self).step == old(self).step,
                },
                Err(e) => {
                    &&& final(self).step == old(self).step
                    &&& r is Fail
                    &&& r->error == e
                    &&& r->cleanup@ == failure_cleanup(old(self).flow, old(self).step)
                },
            },
    {
        match outcome {
            Ok(_) => {
                let next = match self.step {
                    StartStep::CheckIdle => StartStep::SnapshotNetwork,
                    StartStep::SnapshotNetwork => StartStep::Configure,
                    StartStep::Configure => StartStep::StartEngine,
                    StartStep::StartEngine => StartStep::SetupRoutes,
                    StartStep::SetupRoutes => StartStep::WaitForSetup,
                    StartStep::WaitForSetup => StartStep::Finish,
                    StartStep::Finish => {
                        return StartDecision::Done;
                    },
                };
                self.step = next;
                StartDecision::Continue(next)
            },
            Err(error) => StartDecision::Fail {
                cleanup: cleanup_after_failure(self.flow, self.step),
                error,
            },
        }
    }
}

/// The place of a step in the order.
pub open spec fn step_rank(step: StartStep) -> int {
    match step {
        StartStep::CheckIdle => 0,
        StartStep::SnapshotNetwork => 1,
        StartStep::Configure => 2,
        StartStep::StartEngine => 3,
        StartStep::SetupRoutes => 4,
        StartStep::WaitForSetup => 5,
        StartStep::Finish => 6,
    }
}

/// Whether the engine runs when a step is tried, and nobody else has it yet.
pub open spec fn engine_pending(step: StartStep) -> bool {
    step_rank(StartStep::StartEngine) < step_rank(step) < step_rank(StartStep::Finish)
}

/// A start that fails while its engine runs ends the engine, deletes the
/// routes, removes the resolvers and restores the name servers. One that fails
/// to start its engine deletes the routes and restores the name servers. One
/// that fails before has nothing to put back.
pub proof fn a_failed_start_is_cleaned_up(flow: StartFlow, step: StartStep)
    ensures
        engine_pending(step) ==> {
            let c = failure_cleanup(flow, step);
            &&& c.contains(Cleanup::StopEngine) || c.contains(Cleanup::CancelEngine)
            &&& c.contains(Cleanup::CleanupRoutes)
            &&& c.contains(Cleanup::CleanupResolvers)
            &&& c.contains(Cleanup::RestoreSnapshot)
        },
        step == StartStep::StartEngine ==> {
            let c = failure_cleanup(flow, step);
            &&& c.contains(Cleanup::CleanupRoutes)
            &&& c.contains(Cleanup::RestoreSnapshotQuietly)
        },
        step_rank(step) < step_rank(StartStep::StartEngine) ==> failure_cleanup(flow, step).len()
            == 0,
{
    let c = failure_cleanup(flow, step);
    let n = network_cleanup();
    assert(n[0] == Cleanup::CleanupRoutes && n[1] == Cleanup::CleanupResolvers && n[3]
        == Cleanup::RestoreSnapshot);
    if engine_pending(step) {
        let shift: int = if flow == StartFlow::Service { 0 } else { 1 };
        assert(c[shift] == Cleanup::CleanupRoutes);
        assert(c[shift + 1] == Cleanup::CleanupResolvers);
        assert(c[shift + 3] == Cleanup::RestoreSnapshot);
        if flow == StartFlow::Service {
            assert(c[5] == Cleanup::StopEngine);
        } else {
            assert(c[0] == Cleanup::CancelEngine);
        }
    } else if step == StartStep::StartEngine {
        assert(c[0] == Cleanup::RestoreSnapshotQuietly);
        assert(c[1] == Cleanup::CleanupRoutes);
    }
}

/// Each step that succeeds leads one further, so a start takes no more steps
/// than there are.
pub proof fn a_start_comes_to_an_end(step: StartStep)
    ensures
        match step_after(step) {
            Some(next) => step_rank(next) == step_rank(step) + 1,
            None => step == StartStep::Finish,
        },
{
}

/// What a single run does when it looks around.
#[derive(Debug)]
pub enum LegacyPoll {
    /// Go on.
    Wait,
    /// Stop the tunnel.
    Stop,
    /// The engine ended. Write the report to the state file, and end the same
    /// way.
    Ended { report: TunReport, outcome: AtrResult<()> },
}

/// Decides for a single run. A wish to stop comes before the end of the
/// engine.
pub fn run_legacy_engine(stop_requested: bool, ended: Option<AtrResult<usize>>) -> (r: LegacyPoll)
    ensures
        if stop_requested {
            r is Stop
        } else {
            match ended {
                None => r is Wait,
                Some(result) => {
                    &&& r is Ended
                    &&& tells_end(r->report, result)
                    &&& match result {
                        Ok(_) => r->outcome is Ok,
                        Err(e) => r->outcome == Err::<(), AtrError>(e),
                    }
                },
            }
        },
{
    if stop_requested {
        return LegacyPoll::Stop;
    }
    match ended {
        None => LegacyPoll::Wait,
        Some(result) => {
            let report = end_report(&result);
            match result {
                Ok(_) => LegacyPoll::Ended { report, outcome: Ok(()) },
                Err(e) => LegacyPoll::Ended { report, outcome: Err(e) },
            }
        },
    }
}

// ---------------------------------------------------------------------------
// Waiting and serving
// ---------------------------------------------------------------------------

/// What is done while waiting for the routes and the resolvers of a tunnel.
#[derive(Debug)]
pub enum SetupWait {
    Ready,
    /// Look again a little later.
    Again,
    /// It took too long.
    TimedOut(AtrError),
}

/// Decides on waiting for a tunnel. Without routes there is nothing to wait
/// for, and without time left nothing is looked at.
pub fn wait_for_tun_setup(
    setup_routes: bool,
    in_time: bool,
    routes_ready: bool,
    dns_ready: bool,
) -> (r: SetupWait)
    ensures
        if !setup_routes {
            r is Ready
        } else if !in_time {
            r is TimedOut && r->TimedOut_0.says(
                ErrorCode::NetworkFailed,
                "TUN setup did not install expected managed routes/DNS"@,
            )
        } else if routes_ready && dns_ready {
            r is Ready
        } else {
            r is Again
        },
{
    if !setup_routes {
        SetupWait::Ready
    } else if !in_time {
        SetupWait::TimedOut(
            AtrError::NetworkFailed(
                "TUN setup did not install expected managed routes/DNS".to_owned(),
            ),
        )
    } else if routes_ready && dns_ready {
        SetupWait::Ready
    } else {
        SetupWait::Again
    }
}

/// What came of waiting for a client.
#[derive(Debug)]
pub enum AcceptEvent {
    /// A client is there.
    Client,
    /// Nobody is there.
    WouldBlock,
    /// The socket failed.
    Failed(AtrError),
}

/// What the server does next.
#[derive(Debug)]
pub enum ServeStep {
    /// Serve the client, on a thread.
    Serve,
    /// Look again a little later.
    Wait,
    /// Stop the tunnel, remove the socket and end.
    Stop,
    /// End with an error.
    Fail(AtrError),
}

/// Decides for the server. A wish to end comes before any client.
pub fn serve(shutting_down: bool, event: AcceptEvent) -> (r: ServeStep)
    ensures
        if shutting_down {
            r is Stop
        } else {
            match event {
                AcceptEvent::Client => r is Serve,
                AcceptEvent::WouldBlock => r is Wait,
                AcceptEvent::Failed(e) => r == ServeStep::Fail(e),
            }
        },
{
    if shutting_down {
        return ServeStep::Stop;
    }
    match event {
        AcceptEvent::Client => ServeStep::Serve,
        AcceptEvent::WouldBlock => ServeStep::Wait,
        AcceptEvent::Failed(e) => ServeStep::Fail(e),
    }
}

/// Why a reply could not be written.
#[derive(Debug, Clone, Copy, PartialEq, Eq, Structural)]
pub enum WriteFailure {
    BrokenPipe,
    ConnectionReset,
    ConnectionAborted,
    NotConnected,
    Other,
}

/// What becomes of a client after a reply.
#[derive(Debug, Clone, Copy, PartialEq, Eq, Structural)]
pub enum ClientStep {
    /// Read its next request.
    Continue,
    /// It went away.
    Gone,
    /// Give up with the error.
    Fail,
}

/// Decides on a reply that was written or not. That a client went away is no
/// error.
pub fn write_response(failure: Option<WriteFailure>) -> (r: ClientStep)
    ensures
        r == match failure {
            None => ClientStep::Continue,
            Some(WriteFailure::Other) => ClientStep::Fail,
            Some(_) => ClientStep::Gone,
        },
{
    match failure {
        None => ClientStep::Continue,
        Some(WriteFailure::Other) => ClientStep::Fail,
        Some(_) => ClientStep::Gone,
    }
}

// ---------------------------------------------------------------------------
// Requests
// ---------------------------------------------------------------------------

/// What a client asks for.
#[derive(Debug)]
pub enum HelperCommand {
    Version,
    Status,
    StartTun { config: HelperConfig },
    StopTun,
    SetSystemProxy { endpoint: ProxyEndpoint, server_host: String },
    RestoreSystemProxy,
    Cleanup,
    Shutdown,
}

/// The parts of carrying out a request.
#[derive(Debug, Clone, Copy, PartialEq, Eq, Structural)]
pub enum RequestStep {
    ReportVersion,
    ReportStatus,
    StartTun,
    StopTun,
    /// Stop the tunnel, whatever comes of it.
    StopTunQuietly,
    SetSystemProxy,
    RestoreSystemProxy,
    ShutDown,
}

/// The parts of carrying out a request, in order. The last one decides on the
/// reply.
pub open spec fn steps_of(command: HelperCommand) -> Seq<RequestStep> {
    match command {
        HelperCommand::Version => seq![RequestStep::ReportVersion],
        HelperCommand::Status => seq![RequestStep::ReportStatus],
        HelperCommand::StartTun { .. } => seq![RequestStep::StartTun],
        HelperCommand::StopTun => seq![RequestStep::StopTun],
        HelperCommand::SetSystemProxy { .. } => seq![RequestStep::SetSystemProxy],
        HelperCommand::RestoreSystemProxy => seq![RequestStep::RestoreSystemProxy],
        HelperCommand::Cleanup => seq![
            RequestStep::StopTunQuietly,
            RequestStep::RestoreSystemProxy,
        ],
        HelperCommand::Shutdown => seq![RequestStep::StopTunQuietly, RequestStep::ShutDown],
    }
}

/// The word with which a request is answered that has no other answer.
pub open spec fn status_word(command: HelperCommand) -> Option<Seq<char>> {
    match command {
        HelperCommand::StartTun { .. } => Some("starting"@),
        HelperCommand::StopTun => Some("stopped"@),
        HelperCommand::RestoreSystemProxy => Some("restored"@),
        HelperCommand::Cleanup => Some("cleaned"@),
        HelperCommand::Shutdown => Some("shutting_down"@),
        _ => None,
    }
}

/// The parts of carrying out a request, and the word that answers it.
pub fn handle_request(command: &HelperCommand) -> (r: (Vec<RequestStep>, Option<String>))
    ensures
        r.0@ == steps_of(*command),
        text::text_of(r.1) == status_word(*command),
{
    let r: (Vec<RequestStep>, Option<String>) = match command {
        HelperCommand::Version => (vec![RequestStep::ReportVersion], None),
        HelperCommand::Status => (vec![RequestStep::ReportStatus], None),
        HelperCommand::StartTun { .. } => (
            vec![RequestStep::StartTun],
            Some("starting".to_owned()),
        ),
        HelperCommand::StopTun => (vec![RequestStep::StopTun], Some("stopped".to_owned())),
        HelperCommand::SetSystemProxy { .. } => (vec![RequestStep::SetSystemProxy], None),
        HelperCommand::RestoreSystemProxy => (
            vec![RequestStep::RestoreSystemProxy],
            Some("restored".to_owned()),
        ),
        HelperCommand::Cleanup => (
            vec![RequestStep::StopTunQuietly, RequestStep::RestoreSystemProxy],
            Some("cleaned".to_owned()),
        ),
        HelperCommand::Shutdown => (
            vec![RequestStep::StopTunQuietly, RequestStep::ShutDown],
            Some("shutting_down".to_owned()),
        ),
    };
    assert(r.0@ =~= steps_of(*command));
    r
}

/// What a reply says of an error.
#[derive(Debug)]
pub struct HelperErrorResponse {
    pub code: String,
    pub message: String,
}

/// What a reply says besides its data.
#[derive(Debug)]
pub struct HelperReply {
    pub id: String,
    pub ok: bool,
    pub error: Option<HelperErrorResponse>,
}

/// The reply to a request that was carried out or failed.
pub fn reply_to(id: String, failure: Option<AtrError>) -> (r: HelperReply)
    ensures
        r.id == id,
        match failure {
            None => r.ok && r.error is None,
            Some(e) => {
                &&& !r.ok
                &&& r.error is Some
                &&& r.error->0.code@ == error::code_name(e.spec_code())
                &&& r.error->0.message@ == e.shown()
            },
        },
{
    match failure {
        None => HelperReply { id, ok: true, error: None },
        Some(e) => HelperReply {
            id,
            ok: false,
            error: Some(
                HelperErrorResponse { code: e.code().name().to_owned(), message: e.to_text() },
            ),
        },
    }
}

/// The reply to a line that is no request.
pub fn reply_to_garbage(message: String) -> (r: HelperReply)
    ensures
        r.id@.len() == 0,
        !r.ok,
        r.error is Some,
        r.error->0.code@ == "parse_failed"@,
        r.error->0.message == message,
{
    HelperReply {
        id: String::new(),
        ok: false,
        error: Some(HelperErrorResponse { code: "parse_failed".to_owned(), message }),
    }
}

/// Whether a line from a client says nothing and is passed over.
pub fn is_blank_line(line: &str) -> (r: bool)
    ensures
        r == (text::trim(line@).len() == 0),
{
    let cs = chars_of(line);
    trimmed(cs.as_slice()).len() == 0
}

// ---------------------------------------------------------------------------
// Laws
// ---------------------------------------------------------------------------

/// The steps of a start, from any one of them to the end, where each goes
/// well.
pub open spec fn steps_from(step: StartStep) -> Seq<StartStep>
    decreases 7 - step_rank(step),
{
    match step_after(step) {
        Some(next) => if step_rank(next) > step_rank(step) {
            seq![step] + steps_from(next)
        } else {
            Seq::empty()
        },
        None => seq![step],
    }
}

/// A start checks that it is alone, saves the network, configures and starts
/// the engine, sets up the routes, waits for them, and only then is done; none
/// of it is left out and nothing is done twice.
pub proof fn a_start_takes_every_step()
    ensures
        steps_from(StartStep::CheckIdle) == seq![
            StartStep::CheckIdle,
            StartStep::SnapshotNetwork,
            StartStep::Configure,
            StartStep::StartEngine,
            StartStep::SetupRoutes,
            StartStep::WaitForSetup,
            StartStep::Finish,
        ],
{
    let s6 = steps_from(StartStep::Finish);
    let s5 = steps_from(StartStep::WaitForSetup);
    let s4 = steps_from(StartStep::SetupRoutes);
    let s3 = steps_from(StartStep::StartEngine);
    let s2 = steps_from(StartStep::Configure);
    let s1 = steps_from(StartStep::SnapshotNetwork);
    assert(s6 == seq![StartStep::Finish]);
    assert(s5 == seq![StartStep::WaitForSetup] + s6);
    assert(s4 == seq![StartStep::SetupRoutes] + s5);
    assert(s3 == seq![StartStep::StartEngine] + s4);
    assert(s2 == seq![StartStep::Configure] + s3);
    assert(s1 == seq![StartStep::SnapshotNetwork] + s2);
    assert(steps_from(StartStep::CheckIdle) =~= seq![
        StartStep::CheckIdle,
        StartStep::SnapshotNetwork,
        StartStep::Configure,
        StartStep::StartEngine,
        StartStep::SetupRoutes,
        StartStep::WaitForSetup,
        StartStep::Finish,
    ]);
}

/// Whether some ways of putting things back hold all that a tunnel did to the
/// network: one after the other the routes are deleted, the resolvers and the
/// global name servers are removed, the saved name servers are restored, and
/// the caches are emptied.
pub open spec fn puts_the_network_back(c: Seq<Cleanup>) -> bool {
    exists|k: int|
        0 <= k <= c.len() - 5 && #[trigger] c.subrange(k, k + 5) == seq![
            Cleanup::CleanupRoutes,
            Cleanup::CleanupResolvers,
            Cleanup::RemoveGlobalDns,
            Cleanup::RestoreSnapshot,
            Cleanup::FlushDns,
        ]
}

/// A stop ends the engine first, where there is one, and puts the network back,
/// whoever started the tunnel.
pub proof fn a_stop_puts_the_network_back(flow: StartFlow, running: bool)
    ensures
        puts_the_network_back(stop_cleanup(flow, running)),
        running ==> stop_cleanup(StartFlow::Service, running)[0] == Cleanup::CancelEngine,
        stop_cleanup(StartFlow::Legacy, running)[0] == Cleanup::StopEngine,
{
    let c = stop_cleanup(flow, running);
    let shift: int = if flow == StartFlow::Service && !running { 0 } else { 1 };
    assert(c.subrange(shift, shift + 5) =~= seq![
        Cleanup::CleanupRoutes,
        Cleanup::CleanupResolvers,
        Cleanup::RemoveGlobalDns,
        Cleanup::RestoreSnapshot,
        Cleanup::FlushDns,
    ]);
}

/// A start that fails while its engine runs puts the network back as a stop
/// does, and ends the engine. For a client, one whose engine did not start
/// notes that it failed.
pub proof fn a_failed_setup_puts_the_network_back(flow: StartFlow)
    ensures
        puts_the_network_back(failure_cleanup(flow, StartStep::SetupRoutes)),
        puts_the_network_back(failure_cleanup(flow, StartStep::WaitForSetup)),
        failure_cleanup(StartFlow::Service, StartStep::SetupRoutes).last() == Cleanup::StopEngine,
        failure_cleanup(StartFlow::Service, StartStep::WaitForSetup).last() == Cleanup::StopEngine,
        failure_cleanup(StartFlow::Legacy, StartStep::SetupRoutes)[0] == Cleanup::CancelEngine,
        failure_cleanup(StartFlow::Legacy, StartStep::WaitForSetup)[0] == Cleanup::CancelEngine,
        failure_cleanup(StartFlow::Service, StartStep::StartEngine).last()
            == Cleanup::WriteFailedState,
{
    let a = failure_cleanup(flow, StartStep::SetupRoutes);
    let b = failure_cleanup(flow, StartStep::WaitForSetup);
    let shift: int = if flow == StartFlow::Service { 0 } else { 1 };
    let wanted = seq![
        Cleanup::CleanupRoutes,
        Cleanup::CleanupResolvers,
        Cleanup::RemoveGlobalDns,
        Cleanup::RestoreSnapshot,
        Cleanup::FlushDns,
    ];
    assert(a.subrange(shift, shift + 5) =~= wanted);
    assert(b.subrange(shift, shift + 5) =~= wanted);
}

/// What is done for a request: the two that tidy up stop the tunnel first,
/// whatever comes of that, and each of the others does one thing of its own.
pub proof fn a_request_does_what_it_says(command: HelperCommand)
    ensures
        command is Version ==> steps_of(command) == seq![RequestStep::ReportVersion]
            && status_word(command) is None,
        command is Status ==> steps_of(command) == seq![RequestStep::ReportStatus] && status_word(
            command,
        ) is None,
        command is StartTun ==> steps_of(command) == seq![RequestStep::StartTun] && status_word(
            command,
        ) == Some("starting"@),
        command is StopTun ==> steps_of(command) == seq![RequestStep::StopTun] && status_word(
            command,
        ) == Some("stopped"@),
        command is SetSystemProxy ==> steps_of(command) == seq![RequestStep::SetSystemProxy]
            && status_word(command) is None,
        command is RestoreSystemProxy ==> steps_of(command) == seq![
            RequestStep::RestoreSystemProxy,
        ] && status_word(command) == Some("restored"@),
        command is Cleanup ==> steps_of(command) == seq![
            RequestStep::StopTunQuietly,
            RequestStep::RestoreSystemProxy,
        ] && status_word(command) == Some("cleaned"@),
        command is Shutdown ==> steps_of(command) == seq![
            RequestStep::StopTunQuietly,
            RequestStep::ShutDown,
        ] && status_word(command) == Some("shutting_down"@),
{
}

/// The report of an engine that ended tells what came of it: the sessions that
/// it served, and that it stopped, or what its error says, and that it failed.
pub proof fn a_report_tells_how_an_engine_ended(report: TunReport, ended: AtrResult<usize>)
    requires
        tells_end(report, ended),
    ensures
        ended is Ok ==> report.phase == TunPhase::Stopped && report.sessions == Some(ended->Ok_0)
            && report.message is None,
        ended is Err ==> report.phase == TunPhase::Failed && report.sessions is None
            && report.message is Some && report.message->0@ == ended->Err_0.shown(),
{
}

} // verus!
