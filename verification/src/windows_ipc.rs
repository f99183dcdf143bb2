//! The Windows helper at work: its requests, the state of its tunnel, and the
//! steps that start and stop one.
use crate::encoding;
use crate::encoding::{decode_base64, read_member, read_text, read_value};
use crate::error::AtrResult;
use crate::helper;
use crate::helper::{session_material, HelperClientConfig, HelperSessionMaterial};
use crate::ipv4;
use crate::ipv4::Ipv4Addr;
use crate::text;
use crate::text::{chars_of, is_text, trimmed};
use crate::traffic;
use crate::traffic::VpnEngineTrafficStats;
use crate::vpn_engine::{ClientConfig, VpnEngineConfig};
use crate::windows;
use crate::windows::win_join;
use crate::windows_net::RouteSpec;
use crate::windows_plan;
use crate::windows_plan::{
    build_network_plan, BestRoute, NetworkPlan, NetworkWorld, PersistedNetworkState, Record,
};
use vstd::prelude::*;
use vstd::string::*;

verus! {

/// The octets that a request may have.
pub const MAX_REQUEST_BYTES: usize = 16777216;

// ---------------------------------------------------------------------------
// Configuration
// ---------------------------------------------------------------------------

/// What a tunnel is started with.
#[derive(Debug)]
pub struct WireConfig {
    pub client: HelperClientConfig,
    pub session: HelperSessionMaterial,
    /// The resources, in Base64.
    pub resource_bytes: String,
    pub service_host: String,
    pub tun_name: Option<String>,
    pub mtu: u16,
    pub exit_on_fatal_error: bool,
    pub setup_routes: bool,
    pub dns_addr: String,
    pub managed_route_cidrs: Vec<String>,
    pub managed_domains: Vec<String>,
}

/// The MTU of a request that sets none.
pub fn default_mtu() -> (r: u16)
    ensures
        r == 1400,
{
    1400
}

/// Whether fatal errors end the tunnel of a request that does not say.
pub fn default_exit_on_fatal_error() -> (r: bool)
    ensures
        r,
{
    true
}

/// The name of the adapter where a request sets none. A blank name is none.
pub open spec fn adapter_name(tun_name: Option<String>) -> Seq<char> {
    if tun_name is Some && text::trim(tun_name->0@).len() > 0 {
        tun_name->0@
    } else {
        "NulConnect"@
    }
}

/// Whether an engine is configured as a request wants it, with these
/// resources. The interface is found by itself.
pub open spec fn configures(config: WireConfig, resources: Seq<u8>, r: VpnEngineConfig) -> bool {
    &&& r.client.server_host == config.client.server_host
    &&& r.client.server_port == config.client.server_port
    &&& r.client.user_agent == config.client.user_agent
    &&& r.client.connect_timeout_ms == config.client.connect_timeout_ms
    &&& r.client.io_timeout_ms == config.client.io_timeout_ms
    &&& r.client.node_probe_timeout_ms == config.client.node_probe_timeout_ms
    &&& r.client.allow_insecure_tls == config.client.allow_insecure_tls
    &&& r.client.bind_interface is None
    &&& r.client.auto_detect_interface
    &&& helper::same_session(config.session, r.session)
    &&& r.resource_bytes@ == resources
    &&& r.service_host == config.service_host
    &&& r.tun_name is Some
    &&& r.tun_name->0@ == adapter_name(config.tun_name)
    &&& r.mtu == config.mtu
    &&& !r.packet_information
    &&& r.exit_on_fatal_error == config.exit_on_fatal_error
}

/// The configuration of the engine, once the resources are decoded.
pub fn engine_config(config: &WireConfig, resources: Result<Vec<u8>, String>) -> (r: Result<
    VpnEngineConfig,
    String,
>)
    ensures
        match resources {
            Ok(bytes) => r is Ok && configures(*config, bytes@, r->Ok_0),
            Err(text) => r is Err && r->Err_0@ == "invalid resource_bytes: "@ + text@,
        },
{
    match resources {
        Ok(resource_bytes) => {
            let mut name = "NulConnect".to_owned();
            match &config.tun_name {
                Some(given) => {
                    let cs = chars_of(given.as_str());
                    if trimmed(cs.as_slice()).len() > 0 {
                        name = given.clone();
                    }
                },
                None => {},
            }
            Ok(
                VpnEngineConfig {
                    client: ClientConfig {
                        server_host: config.client.server_host.clone(),
                        server_port: config.client.server_port,
                        user_agent: config.client.user_agent.clone(),
                        connect_timeout_ms: config.client.connect_timeout_ms,
                        io_timeout_ms: config.client.io_timeout_ms,
                        node_probe_timeout_ms: config.client.node_probe_timeout_ms,
                        allow_insecure_tls: config.client.allow_insecure_tls,
                        bind_interface: None,
                        auto_detect_interface: true,
                    },
                    session: session_material(&config.session),
                    resource_bytes,
                    service_host: config.service_host.clone(),
                    tun_name: Some(name),
                    mtu: config.mtu,
                    packet_information: false,
                    exit_on_fatal_error: config.exit_on_fatal_error,
                },
            )
        },
        Err(text) => Err("invalid resource_bytes: ".to_owned().concat(text.as_str())),
    }
}

impl WireConfig {
    /// The configuration of the engine.
    pub fn vpn_engine_config(&self) -> (r: Result<VpnEngineConfig, String>)
        ensures
            match encoding::base64_decoded(self.resource_bytes@) {
                Ok(bytes) => r is Ok && configures(*self, bytes, r->Ok_0),
                Err(text) => r is Err && r->Err_0@ == "invalid resource_bytes: "@ + text,
            },
    {
        engine_config(self, decode_base64(self.resource_bytes.as_str()))
    }
}

/// What is said of resources that cannot be read.
pub fn resource_error(cause: &str) -> (r: String)
    ensures
        r@ == "failed to parse resource for Windows routes: "@ + cause@,
{
    "failed to parse resource for Windows routes: ".to_owned().concat(cause)
}

// ---------------------------------------------------------------------------
// State
// ---------------------------------------------------------------------------

/// The phases of a tunnel.
#[derive(Debug, Clone, Copy, PartialEq, Eq, Structural)]
pub enum TunStatus {
    Stopped,
    Starting,
    Running,
    Stopping,
    Failed,
}

/// The name of a phase.
pub open spec fn status_name(status: TunStatus) -> Seq<char> {
    match status {
        TunStatus::Stopped => "stopped"@,
        TunStatus::Starting => "starting"@,
        TunStatus::Running => "running"@,
        TunStatus::Stopping => "stopping"@,
        TunStatus::Failed => "failed"@,
    }
}

impl TunStatus {
    /// The name of the phase.
    pub fn as_str(self) -> (r: &'static str)
        ensures
            r@ == status_name(self),
            self == TunStatus::Stopped ==> r@ == "stopped"@,
            self == TunStatus::Starting ==> r@ == "starting"@,
            self == TunStatus::Running ==> r@ == "running"@,
            self == TunStatus::Stopping ==> r@ == "stopping"@,
            self == TunStatus::Failed ==> r@ == "failed"@,
    {
        match self {
            TunStatus::Stopped => "stopped",
            TunStatus::Starting => "starting",
            TunStatus::Running => "running",
            TunStatus::Stopping => "stopping",
            TunStatus::Failed => "failed",
        }
    }
}

/// What is known of the tunnel. The engine itself is with the caller.
#[derive(Debug)]
pub struct WindowsRuntime {
    pub status: TunStatus,
    pub message: Option<String>,
    /// Whether there is an engine.
    pub engine: bool,
    pub virtual_ip: Option<Ipv4Addr>,
    pub network: PersistedNetworkState,
    pub dns_namespaces: usize,
    /// Counts the stops, so that what was begun before one can tell.
    pub generation: u64,
    pub shutdown: bool,
}

/// What a client is told about the tunnel.
#[derive(Debug)]
pub struct StatusReport {
    pub status: String,
    pub message: Option<String>,
    pub adapter: String,
    pub virtual_ip: Option<String>,
    pub routes: usize,
    pub dns_namespaces: usize,
    pub stats: VpnEngineTrafficStats,
}

/// Whether the engine was taken away, and nothing is left to undo.
pub open spec fn without_engine(before: WindowsRuntime, after: WindowsRuntime) -> bool {
    &&& after.network.routes@.len() == 0
    &&& !after.network.nrpt
    &&& after == (WindowsRuntime {
        engine: false,
        virtual_ip: None,
        dns_namespaces: 0,
        network: after.network,
        ..before
    })
}

impl WindowsRuntime {
    /// Without an engine there is nothing to undo.
    pub open spec fn wf(self) -> bool {
        !self.engine ==> self.network.routes@.len() == 0 && !self.network.nrpt
    }

    /// The helper after a start failed. After a stop nobody cares.
    pub open spec fn after_failure(self, generation: u64, message: String) -> WindowsRuntime {
        if self.generation == generation {
            WindowsRuntime { status: TunStatus::Failed, message: Some(message), ..self }
        } else {
            self
        }
    }

    /// The helper after a start succeeded. After a stop the tunnel is not kept.
    pub open spec fn after_success(
        self,
        generation: u64,
        network: PersistedNetworkState,
        dns_namespaces: usize,
        virtual_ip: Option<Ipv4Addr>,
    ) -> WindowsRuntime {
        if self.generation == generation {
            WindowsRuntime {
                status: TunStatus::Running,
                message: None,
                engine: true,
                virtual_ip,
                network,
                dns_namespaces,
                ..self
            }
        } else {
            self
        }
    }

    /// The helper after a stop began: what was begun before is no longer
    /// current.
    pub open spec fn after_stop(self) -> WindowsRuntime {
        WindowsRuntime {
            generation: traffic::counted(self.generation, 1),
            status: if self.status == TunStatus::Running || self.status == TunStatus::Starting {
                TunStatus::Stopping
            } else {
                self.status
            },
            ..self
        }
    }

    /// A helper without a tunnel.
    pub fn new() -> (r: WindowsRuntime)
        ensures
            r.wf(),
            r.status == TunStatus::Stopped,
            r.message is None,
            !r.engine,
            r.virtual_ip is None,
            r.dns_namespaces == 0,
            r.generation == 0,
            !r.shutdown,
    {
        WindowsRuntime {
            status: TunStatus::Stopped,
            message: None,
            engine: false,
            virtual_ip: None,
            network: PersistedNetworkState::empty(),
            dns_namespaces: 0,
            generation: 0,
            shutdown: false,
        }
    }

    /// Whether the helper is to end.
    pub fn shutdown_requested(&self) -> (r: bool)
        ensures
            r == self.shutdown,
    {
        self.shutdown
    }

    /// What a client is told. Without an engine nothing was counted.
    pub fn status_report(&self, stats: Option<VpnEngineTrafficStats>) -> (r: StatusReport)
        ensures
            r.status@ == status_name(self.status),
            r.message == self.message,
            r.adapter@ == "NulConnect"@,
            text::text_of(r.virtual_ip) == match self.virtual_ip {
                Some(ip) => Some(ipv4::dotted(ip.bits)),
                None => None,
            },
            r.routes == self.network.routes@.len(),
            r.dns_namespaces == self.dns_namespaces,
            match stats {
                Some(s) => r.stats == s,
                None => r.stats == (VpnEngineTrafficStats {
                    upload_bytes: 0,
                    download_bytes: 0,
                    upload_packets: 0,
                    download_packets: 0,
                }),
            },
    {
        let message = match &self.message {
            Some(m) => Some(m.clone()),
            None => None,
        };
        let virtual_ip = match self.virtual_ip {
            Some(ip) => Some(ip.to_text()),
            None => None,
        };
        let stats = match stats {
            Some(s) => s,
            None => VpnEngineTrafficStats::default(),
        };
        StatusReport {
            status: self.status.as_str().to_owned(),
            message,
            adapter: "NulConnect".to_owned(),
            virtual_ip,
            routes: self.network.routes.len(),
            dns_namespaces: self.dns_namespaces,
            stats,
        }
    }

    /// Begins to start a tunnel, unless there is one. The generation goes with
    /// what is begun.
    pub fn begin_start(&mut self) -> (r: Result<u64, String>)
        requires
            old(self).wf(),
        ensures
            final(self).wf(),
            match old(self).status {
                TunStatus::Starting => {
                    &&& r is Err
                    &&& r->Err_0@ == "VPN is already starting"@
                    &&& *final(self) == *old(self)
                },
                TunStatus::Running => {
                    &&& r is Err
                    &&& r->Err_0@ == "VPN is already running"@
                    &&& *final(self) == *old(self)
                },
                TunStatus::Stopping => {
                    &&& r is Err
                    &&& r->Err_0@ == "VPN is stopping"@
                    &&& *final(self) == *old(self)
                },
                _ => {
                    &&& r == Ok::<u64, String>(old(self).generation)
                    &&& *final(self) == (WindowsRuntime {
                        status: TunStatus::Starting,
                        message: None,
                        ..*old(self)
                    })
                },
            },
    {
        match self.status {
            TunStatus::Starting => {
                return Err("VPN is already starting".to_owned());
            },
            TunStatus::Running => {
                return Err("VPN is already running".to_owned());
            },
            TunStatus::Stopping => {
                return Err("VPN is stopping".to_owned());
            },
            TunStatus::Stopped | TunStatus::Failed => {},
        }
        self.status = TunStatus::Starting;
        self.message = None;
        Ok(self.generation)
    }

    /// Whether nothing was stopped since.
    pub fn is_current(&self, generation: u64) -> (r: bool)
        ensures
            r == (self.generation == generation),
    {
        self.generation == generation
    }

    /// A start failed. After a stop nobody cares.
    pub fn start_failed(&mut self, generation: u64, message: String)
        requires
            old(self).wf(),
        ensures
            final(self).wf(),
            *final(self) == old(self).after_failure(generation, message),
    {
        if self.generation == generation {
            self.status = TunStatus::Failed;
            self.message = Some(message);
        }
    }

    /// A start succeeded. After a stop the tunnel is not kept: its network
    /// comes back and has to be undone.
    pub fn start_succeeded(
        &mut self,
        generation: u64,
        network: PersistedNetworkState,
        dns_namespaces: usize,
        virtual_ip: Option<Ipv4Addr>,
    ) -> (r: Option<PersistedNetworkState>)
        requires
            old(self).wf(),
        ensures
            final(self).wf(),
            *final(self) == old(self).after_success(
                generation,
                network,
                dns_namespaces,
                virtual_ip,
            ),
            r == if old(self).generation == generation {
                None
            } else {
                Some(network)
            },
    {
        if self.generation != generation {
            return Some(network);
        }
        self.engine = true;
        self.network = network;
        self.dns_namespaces = dns_namespaces;
        self.virtual_ip = virtual_ip;
        self.status = TunStatus::Running;
        self.message = None;
        None
    }

    fn take_network(&mut self) -> (r: PersistedNetworkState)
        ensures
            r == old(self).network,
            without_engine(*old(self), *final(self)),
    {
        let mut network = PersistedNetworkState::empty();
        std::mem::swap(&mut network, &mut self.network);
        self.engine = false;
        self.virtual_ip = None;
        self.dns_namespaces = 0;
        network
    }

    /// The engine ended by itself and is taken away. Its network comes back and
    /// has to be undone, unless a stop was faster.
    pub fn engine_gone(&mut self, generation: u64) -> (r: Option<PersistedNetworkState>)
        requires
            old(self).wf(),
        ensures
            final(self).wf(),
            if old(self).generation != generation {
                r is None && *final(self) == *old(self)
            } else {
                r == Some(old(self).network) && without_engine(*old(self), *final(self))
            },
    {
        if self.generation != generation {
            return None;
        }
        Some(self.take_network())
    }

    /// The network of an engine that ended by itself is undone.
    pub fn engine_ended(&mut self, result: Option<AtrResult<usize>>)
        requires
            old(self).wf(),
        ensures
            final(self).wf(),
            match result {
                Some(Err(e)) => {
                    &&& final(self).message is Some
                    &&& final(self).message->0@ == e.shown()
                    &&& *final(self) == (WindowsRuntime {
                        status: TunStatus::Failed,
                        message: final(self).message,
                        ..*old(self)
                    })
                },
                _ => *final(self) == (WindowsRuntime {
                    status: TunStatus::Stopped,
                    message: None,
                    ..*old(self)
                }),
            },
    {
        match result {
            Some(Err(e)) => {
                self.status = TunStatus::Failed;
                self.message = Some(e.to_text());
            },
            _ => {
                self.status = TunStatus::Stopped;
                self.message = None;
            },
        }
    }

    /// Begins to stop: what was begun before is no longer current.
    pub fn begin_stop(&mut self)
        requires
            old(self).wf(),
        ensures
            final(self).wf(),
            *final(self) == old(self).after_stop(),
    {
        self.generation = traffic::count(self.generation, 1);
        if self.status == TunStatus::Running || self.status == TunStatus::Starting {
            self.status = TunStatus::Stopping;
        }
    }

    /// Takes the engine away, and says whether there is one to stop. Its
    /// network comes back and has to be undone.
    pub fn stop(&mut self) -> (r: (bool, PersistedNetworkState))
        requires
            old(self).wf(),
        ensures
            final(self).wf(),
            r.0 == old(self).engine,
            r.1 == old(self).network,
            without_engine(*old(self), *final(self)),
    {
        let had = self.engine;
        let network = self.take_network();
        (had, network)
    }

    /// Everything is undone.
    pub fn end_stop(&mut self)
        requires
            old(self).wf(),
        ensures
            final(self).wf(),
            *final(self) == (WindowsRuntime {
                status: TunStatus::Stopped,
                message: None,
                ..*old(self)
            }),
    {
        self.status = TunStatus::Stopped;
        self.message = None;
    }

    /// The helper is to end: begins to stop, for good.
    pub fn shutdown(&mut self)
        requires
            old(self).wf(),
        ensures
            final(self).wf(),
            *final(self) == (WindowsRuntime { shutdown: true, ..old(self).after_stop() }),
    {
        self.shutdown = true;
        self.begin_stop();
    }
}

/// Whatever comes of a start or of an engine that was begun before a stop, the
/// helper stays as the stop left it: a start that a stop overtook never becomes
/// a running tunnel.
pub proof fn a_stop_overtakes_what_was_begun(
    s: WindowsRuntime,
    network: PersistedNetworkState,
    dns_namespaces: usize,
    virtual_ip: Option<Ipv4Addr>,
    message: String,
)
    ensures
        s.after_stop().after_success(s.generation, network, dns_namespaces, virtual_ip)
            == s.after_stop(),
        s.after_stop().after_failure(s.generation, message) == s.after_stop(),
        s.after_stop().generation != s.generation,
{
}

/// Whether a helper is one that was stopped: it has no tunnel, nothing to undo
/// and nothing to say, and one more stop is counted.
pub open spec fn stopped(before: WindowsRuntime, after: WindowsRuntime) -> bool {
    &&& after.network.routes@.len() == 0
    &&& !after.network.nrpt
    &&& after == (WindowsRuntime {
        status: TunStatus::Stopped,
        message: None,
        engine: false,
        virtual_ip: None,
        dns_namespaces: 0,
        network: after.network,
        generation: traffic::counted(before.generation, 1),
        ..before
    })
}

/// A stop, once it began, took the engine away and ended, leaves a helper that
/// was stopped, in whatever state it was; undoing the network that it hands
/// back deletes every route that was noted, clears the policy that was, and
/// leaves no record. Stopping again changes nothing but the count.
pub proof fn a_stop_stops_everything(
    s: WindowsRuntime,
    taken: WindowsRuntime,
    again: WindowsRuntime,
    w: NetworkWorld,
)
    requires
        without_engine(s.after_stop(), taken),
        ({
            let end = WindowsRuntime { status: TunStatus::Stopped, message: None, ..taken };
            stopped(end, again)
        }),
    ensures
        ({
            let end = WindowsRuntime { status: TunStatus::Stopped, message: None, ..taken };
            &&& stopped(s, end)
            &&& end.wf()
            &&& windows_plan::after_undoing(
                w,
                windows_plan::stop_steps(s.network.routes@, s.network.nrpt),
            ) == (NetworkWorld {
                routes: w.routes.difference(s.network.routes@.to_set()),
                policy: w.policy && !s.network.nrpt,
                record: Record::Absent,
            })
            &&& again == (WindowsRuntime {
                generation: again.generation,
                network: again.network,
                ..end
            })
            &&& again.network.routes@ == end.network.routes@
            &&& again.network.nrpt == end.network.nrpt
        }),
{
    windows_plan::a_stop_leaves_no_record(w, s.network.routes@, s.network.nrpt);
    assert(again.network.routes@ =~= taken.network.routes@);
}

// ---------------------------------------------------------------------------
// Starting
// ---------------------------------------------------------------------------

/// The steps of starting a tunnel, in order.
#[derive(Debug, Clone, Copy, PartialEq, Eq, Structural)]
pub enum WorkerStep {
    /// Make sure that no stop overtook the start.
    CheckCurrent,
    /// Undo what an earlier helper left behind.
    CleanupLeftovers,
    /// Make the configuration of the engine.
    Configure,
    /// Plan the network, if that is wanted.
    PlanNetwork,
    /// Start the engine.
    StartEngine,
    /// Find the adapter of the engine.
    FindAdapter,
    /// Install the network.
    InstallNetwork,
    /// Note what has to be undone, whatever comes of it.
    SaveNetwork,
    /// Make sure that no stop overtook the start, and tell that it runs.
    Publish,
}

/// The ways of putting things back.
#[derive(Debug, Clone, Copy, PartialEq, Eq, Structural)]
pub enum WorkerCleanup {
    /// Note what has to be undone, should the helper not live to undo it.
    SaveNetwork,
    StopEngine,
    UndoNetwork,
}

/// What comes after a step.
#[derive(Debug)]
pub enum WorkerDecision {
    Continue(WorkerStep),
    /// The tunnel runs.
    Done,
    /// Put things back, and say no more.
    Cancelled(Vec<WorkerCleanup>),
    /// Put things back, and fail.
    Fail { cleanup: Vec<WorkerCleanup>, message: String },
}

/// What came of a step.
#[derive(Debug)]
pub enum StepOutcome {
    Succeeded,
    /// A stop overtook the start.
    Overtaken,
    Failed(String),
}

/// The step after a step.
pub open spec fn worker_step_after(step: WorkerStep) -> Option<WorkerStep> {
    match step {
        WorkerStep::CheckCurrent => Some(WorkerStep::CleanupLeftovers),
        WorkerStep::CleanupLeftovers => Some(WorkerStep::Configure),
        WorkerStep::Configure => Some(WorkerStep::PlanNetwork),
        WorkerStep::PlanNetwork => Some(WorkerStep::StartEngine),
        WorkerStep::StartEngine => Some(WorkerStep::FindAdapter),
        WorkerStep::FindAdapter => Some(WorkerStep::InstallNetwork),
        WorkerStep::InstallNetwork => Some(WorkerStep::SaveNetwork),
        WorkerStep::SaveNetwork => Some(WorkerStep::Publish),
        WorkerStep::Publish => None,
    }
}

/// What is put back where a step went wrong, in order. What was installed of a
/// network is noted before anything else is done about it.
pub open spec fn worker_cleanup(step: WorkerStep) -> Seq<WorkerCleanup> {
    match step {
        WorkerStep::FindAdapter => seq![WorkerCleanup::StopEngine],
        WorkerStep::InstallNetwork => seq![
            WorkerCleanup::SaveNetwork,
            WorkerCleanup::StopEngine,
            WorkerCleanup::UndoNetwork,
        ],
        WorkerStep::SaveNetwork | WorkerStep::Publish => seq![
            WorkerCleanup::StopEngine,
            WorkerCleanup::UndoNetwork,
        ],
        _ => Seq::empty(),
    }
}

fn cleanup_after(step: WorkerStep) -> (r: Vec<WorkerCleanup>)
    ensures
        r@ == worker_cleanup(step),
{
    let mut r: Vec<WorkerCleanup> = Vec::new();
    match step {
        WorkerStep::FindAdapter => {
            r.push(WorkerCleanup::StopEngine);
        },
        WorkerStep::InstallNetwork => {
            r.push(WorkerCleanup::SaveNetwork);
            r.push(WorkerCleanup::StopEngine);
            r.push(WorkerCleanup::UndoNetwork);
        },
        WorkerStep::SaveNetwork | WorkerStep::Publish => {
            r.push(WorkerCleanup::StopEngine);
            r.push(WorkerCleanup::UndoNetwork);
        },
        _ => {},
    }
    assert(r@ =~= worker_cleanup(step));
    r
}

/// The network that a request asks for. Without routes nothing is changed.
pub fn network_plan(
    config: &WireConfig,
    gateway: Option<Ipv4Addr>,
    found: &Vec<BestRoute>,
) -> (r: NetworkPlan)
    ensures
        if config.setup_routes {
            windows_plan::is_plan(
                r,
                text::strings(config.managed_route_cidrs@),
                config.dns_addr@,
                text::strings(config.managed_domains@),
                gateway,
                found@,
            )
        } else {
            &&& r.tunnel_routes@.len() == 0
            &&& r.bypass_routes@.len() == 0
            &&& r.dns_server is None
            &&& r.managed_domains@.len() == 0
        },
        config.setup_routes ==> windows_plan::sorted_routes_of(
            r.tunnel_routes@,
            windows_plan::wanted_tunnel_routes(
                text::strings(config.managed_route_cidrs@),
                windows_plan::dns_address(config.dns_addr@),
                gateway,
            ),
        ) && windows_plan::bypasses_captured(r.bypass_routes@, r.tunnel_routes@, found@)
            && r.dns_server == windows_plan::dns_address(config.dns_addr@) && text::strings(
            r.managed_domains@,
        ) == text::strings(config.managed_domains@),
{
    if !config.setup_routes {
        return NetworkPlan::empty();
    }
    build_network_plan(
        &config.managed_route_cidrs,
        config.dns_addr.as_str(),
        &config.managed_domains,
        gateway,
        found,
    )
}

/// Decides on what came of a step of starting a tunnel. That the network could
/// not be noted is no reason to stop.
pub fn start_worker(step: WorkerStep, outcome: StepOutcome) -> (r: WorkerDecision)
    ensures
        match outcome {
            StepOutcome::Succeeded => match worker_step_after(step) {
                Some(next) => r == WorkerDecision::Continue(next),
                None => r is Done,
            },
            StepOutcome::Overtaken => r is Cancelled && r->Cancelled_0@ == worker_cleanup(step),
            StepOutcome::Failed(message) => if step == WorkerStep::SaveNetwork {
                r == WorkerDecision::Continue(WorkerStep::Publish)
            } else {
                &&& r is Fail
                &&& r->message == message
                &&& r->cleanup@ == worker_cleanup(step)
            },
        },
{
    match outcome {
        StepOutcome::Succeeded => match step {
            WorkerStep::CheckCurrent => WorkerDecision::Continue(WorkerStep::CleanupLeftovers),
            WorkerStep::CleanupLeftovers => WorkerDecision::Continue(WorkerStep::Configure),
            WorkerStep::Configure => WorkerDecision::Continue(WorkerStep::PlanNetwork),
            WorkerStep::PlanNetwork => WorkerDecision::Continue(WorkerStep::StartEngine),
            WorkerStep::StartEngine => WorkerDecision::Continue(WorkerStep::FindAdapter),
            WorkerStep::FindAdapter => WorkerDecision::Continue(WorkerStep::InstallNetwork),
            WorkerStep::InstallNetwork => WorkerDecision::Continue(WorkerStep::SaveNetwork),
            WorkerStep::SaveNetwork => WorkerDecision::Continue(WorkerStep::Publish),
            WorkerStep::Publish => WorkerDecision::Done,
        },
        StepOutcome::Overtaken => WorkerDecision::Cancelled(cleanup_after(step)),
        StepOutcome::Failed(message) => if step == WorkerStep::SaveNetwork {
            WorkerDecision::Continue(WorkerStep::Publish)
        } else {
            WorkerDecision::Fail { cleanup: cleanup_after(step), message }
        },
    }
}

/// What the watcher of a running tunnel does.
#[derive(Debug, Clone, Copy, PartialEq, Eq, Structural)]
pub enum MonitorStep {
    /// Look again a little later.
    Wait,
    /// Take the result of the engine and put things back.
    Collect,
    /// End: another one watches, or nobody needs to.
    Retire,
}

/// Decides for the watcher of a running tunnel.
pub fn spawn_monitor(current: bool, stopped: bool) -> (r: MonitorStep)
    ensures
        r == if !current {
            MonitorStep::Retire
        } else if stopped {
            MonitorStep::Collect
        } else {
            MonitorStep::Wait
        },
{
    if !current {
        MonitorStep::Retire
    } else if stopped {
        MonitorStep::Collect
    } else {
        MonitorStep::Wait
    }
}

/// The adapter of the engine, which has to be there once the engine runs.
pub fn require_adapter(luid: Option<u64>) -> (r: Result<u64, String>)
    ensures
        match luid {
            Some(l) => r == Ok::<u64, String>(l),
            None => r is Err && r->Err_0@ == "Wintun adapter LUID is unavailable"@,
        },
{
    match luid {
        Some(l) => Ok(l),
        None => Err("Wintun adapter LUID is unavailable".to_owned()),
    }
}

/// Whether the network may have been changed when a step is tried.
pub open spec fn network_changed(step: WorkerStep) -> bool {
    step == WorkerStep::InstallNetwork || step == WorkerStep::SaveNetwork || step
        == WorkerStep::Publish
}

/// Whether the engine runs when a step is tried.
pub open spec fn engine_runs(step: WorkerStep) -> bool {
    step == WorkerStep::FindAdapter || network_changed(step)
}

/// A start that does not end well stops the engine if it runs, and undoes the
/// network if it was touched.
pub proof fn a_failed_worker_is_cleaned_up(step: WorkerStep)
    ensures
        engine_runs(step) <==> worker_cleanup(step).contains(WorkerCleanup::StopEngine),
        network_changed(step) <==> worker_cleanup(step).contains(WorkerCleanup::UndoNetwork),
{
    let c = worker_cleanup(step);
    if step == WorkerStep::InstallNetwork {
        assert(c[1] == WorkerCleanup::StopEngine);
        assert(c[2] == WorkerCleanup::UndoNetwork);
    } else if engine_runs(step) {
        assert(c[0] == WorkerCleanup::StopEngine);
        if network_changed(step) {
            assert(c[1] == WorkerCleanup::UndoNetwork);
        }
    }
}

/// The system and the engine while a tunnel is started.
pub struct WorkerWorld {
    pub network: NetworkWorld,
    pub engine: bool,
}

/// Both after some ways of putting things back, where the installation has put
/// these routes, and perhaps the policy, in place.
pub open spec fn put_back(
    w: WorkerWorld,
    cleanup: Seq<WorkerCleanup>,
    routes: Seq<RouteSpec>,
    nrpt: bool,
) -> WorkerWorld
    decreases cleanup.len(),
{
    if cleanup.len() == 0 {
        w
    } else {
        let next = match cleanup[0] {
            WorkerCleanup::SaveNetwork => WorkerWorld {
                network: windows_plan::after_saving(w.network, routes, nrpt),
                ..w
            },
            WorkerCleanup::StopEngine => WorkerWorld { engine: false, ..w },
            WorkerCleanup::UndoNetwork => WorkerWorld {
                network: windows_plan::after_undoing(
                    w.network,
                    windows_plan::undo_steps(routes, nrpt),
                ),
                ..w
            },
        };
        put_back(next, cleanup.drop_first(), routes, nrpt)
    }
}

/// Where the network of a tunnel cannot be installed, what was put in place is
/// noted first, then the engine is stopped, and then every route that was put
/// in place and the policy go. The record is still there for a later helper.
/// One that goes on after installing has noted it too. Whatever is said of the
/// failure, the helper does not run.
pub proof fn a_failed_installation_is_noted_and_undone(
    w: WorkerWorld,
    routes: Seq<RouteSpec>,
    nrpt: bool,
    s: WindowsRuntime,
    generation: u64,
    message: String,
)
    requires
        s.generation == generation,
    ensures
        worker_cleanup(WorkerStep::InstallNetwork)[0] == WorkerCleanup::SaveNetwork,
        worker_step_after(WorkerStep::InstallNetwork) == Some(WorkerStep::SaveNetwork),
        put_back(w, worker_cleanup(WorkerStep::InstallNetwork), routes, nrpt) == (WorkerWorld {
            network: NetworkWorld {
                routes: w.network.routes.difference(routes.to_set()),
                policy: w.network.policy && !nrpt,
                record: Record::Noted { routes, nrpt },
            },
            engine: false,
        }),
        s.after_failure(generation, message).status == TunStatus::Failed,
        s.after_failure(generation, message).engine == s.engine,
{
    let c = worker_cleanup(WorkerStep::InstallNetwork);
    let saved = windows_plan::after_saving(w.network, routes, nrpt);
    let w1 = WorkerWorld { network: saved, ..w };
    let w2 = WorkerWorld { network: saved, engine: false };
    let w3 = WorkerWorld {
        network: windows_plan::after_undoing(saved, windows_plan::undo_steps(routes, nrpt)),
        engine: false,
    };
    let c1 = c.drop_first();
    let c2 = c1.drop_first();
    assert(c1 =~= seq![WorkerCleanup::StopEngine, WorkerCleanup::UndoNetwork]);
    assert(c2 =~= seq![WorkerCleanup::UndoNetwork]);
    assert(c2.drop_first() =~= Seq::<WorkerCleanup>::empty());
    assert(put_back(w3, Seq::<WorkerCleanup>::empty(), routes, nrpt) == w3);
    assert(put_back(w2, c2, routes, nrpt) == w3);
    assert(put_back(w1, c1, routes, nrpt) == w3);
    windows_plan::undoing_takes_back_what_was_noted(saved, routes, nrpt);
}

/// The file that says what has to be undone.
pub fn network_state_path(state_dir: &str) -> (r: String)
    ensures
        r@ == windows::win_joined(state_dir@, "network-state.json"@),
{
    win_join(state_dir, "network-state.json")
}

// ---------------------------------------------------------------------------
// Requests
// ---------------------------------------------------------------------------

/// What is made of a part of a message.
#[derive(Debug)]
pub enum ReadStep {
    /// The message is there.
    Done,
    /// There is more of it.
    More,
    /// It is too large.
    TooLarge,
    /// The pipe failed.
    Failed,
}

/// Adds a part to a message. `whole` tells that the read got all that was
/// left, `more` that there is more.
pub fn read_message(message: &mut Vec<u8>, part: &[u8], whole: bool, more: bool) -> (r: ReadStep)
    requires
        old(message)@.len() + part@.len() <= usize::MAX,
    ensures
        final(message)@ == old(message)@ + part@,
        r is TooLarge <==> old(message)@.len() + part@.len() > 16777216,
        if final(message)@.len() > MAX_REQUEST_BYTES {
            r is TooLarge
        } else if whole {
            r is Done
        } else if more {
            r is More
        } else {
            r is Failed
        },
{
    let ghost before = message@;
    let mut i: usize = 0;
    assert(part@.take(0) =~= Seq::<u8>::empty());
    assert(before + part@.take(0) =~= before);
    while i < part.len()
        invariant
            i <= part.len(),
            message@ == before + part@.take(i as int),
        decreases part.len() - i,
    {
        message.push(part[i]);
        assert(message@ =~= before + part@.take(i + 1));
        i = i + 1;
    }
    assert(part@.take(i as int) =~= part@);
    if message.len() > MAX_REQUEST_BYTES {
        ReadStep::TooLarge
    } else if whole {
        ReadStep::Done
    } else if more {
        ReadStep::More
    } else {
        ReadStep::Failed
    }
}

/// What a client asks for.
#[derive(Debug)]
pub enum PipeCommand {
    Version,
    Status,
    StartTun,
    StopTun,
    Cleanup,
    Shutdown,
    /// Something else. The text says so.
    Unsupported(String),
}

/// Whether a command is the one that a name stands for. Only a helper on the
/// console can be told to end.
pub open spec fn commands(name: Seq<char>, allow_shutdown: bool, command: PipeCommand) -> bool {
    if name == "version"@ {
        command is Version
    } else if name == "status"@ {
        command is Status
    } else if name == "start_tun"@ {
        command is StartTun
    } else if name == "stop_tun"@ {
        command is StopTun
    } else if name == "cleanup"@ {
        command is Cleanup
    } else if name == "shutdown"@ && allow_shutdown {
        command is Shutdown
    } else {
        command is Unsupported && command->Unsupported_0@ == "unsupported command: "@ + name
    }
}

proof fn lemma_command_names()
    ensures
        "version"@ != "status"@,
        "version"@ != "start_tun"@,
        "version"@ != "stop_tun"@,
        "version"@ != "cleanup"@,
        "version"@ != "shutdown"@,
        "status"@ != "start_tun"@,
        "status"@ != "stop_tun"@,
        "status"@ != "cleanup"@,
        "status"@ != "shutdown"@,
        "start_tun"@ != "stop_tun"@,
        "start_tun"@ != "cleanup"@,
        "start_tun"@ != "shutdown"@,
        "stop_tun"@ != "cleanup"@,
        "stop_tun"@ != "shutdown"@,
        "cleanup"@ != "shutdown"@,
{
    reveal_strlit("version");
    reveal_strlit("status");
    reveal_strlit("start_tun");
    reveal_strlit("stop_tun");
    reveal_strlit("cleanup");
    reveal_strlit("shutdown");
    assert("version"@.len() == 7 && "status"@.len() == 6 && "start_tun"@.len() == 9
        && "stop_tun"@.len() == 8 && "cleanup"@.len() == 7 && "shutdown"@.len() == 8);
    assert("version"@[0] != "cleanup"@[0]);
    assert("stop_tun"@[1] != "shutdown"@[1]);
}

/// The command that a name stands for. Only a helper on the console can be
/// told to end.
pub fn command_named(name: &str, allow_shutdown: bool) -> (r: PipeCommand)
    ensures
        commands(name@, allow_shutdown, r),
        r is Version <==> name@ == "version"@,
        r is Status <==> name@ == "status"@,
        r is StartTun <==> name@ == "start_tun"@,
        r is StopTun <==> name@ == "stop_tun"@,
        r is Cleanup <==> name@ == "cleanup"@,
        r is Shutdown <==> name@ == "shutdown"@ && allow_shutdown,
{
    proof {
        lemma_command_names();
    }
    let cs = chars_of(name);
    let c = cs.as_slice();
    if is_text(c, "version") {
        PipeCommand::Version
    } else if is_text(c, "status") {
        PipeCommand::Status
    } else if is_text(c, "start_tun") {
        PipeCommand::StartTun
    } else if is_text(c, "stop_tun") {
        PipeCommand::StopTun
    } else if is_text(c, "cleanup") {
        PipeCommand::Cleanup
    } else if is_text(c, "shutdown") && allow_shutdown {
        PipeCommand::Shutdown
    } else {
        PipeCommand::Unsupported("unsupported command: ".to_owned().concat(name))
    }
}

/// A request as it was read: its id, as JSON, its command and, as JSON, the
/// configuration that it brings. What is not JSON has no command; the text
/// then says what is wrong with it.
#[derive(Debug)]
pub struct PipeRequest {
    pub id: String,
    pub command: Result<PipeCommand, String>,
    pub config: Option<String>,
}

/// Whether a request is what its members say: the id or null, the command that
/// the name stands for, no name being the empty one, and the configuration.
pub open spec fn request_of(
    id: Result<Option<Seq<char>>, Seq<char>>,
    name: Option<Seq<char>>,
    config: Result<Option<Seq<char>>, Seq<char>>,
    allow_shutdown: bool,
    request: PipeRequest,
) -> bool {
    match id {
        Err(text) => {
            &&& request.id@ == "null"@
            &&& request.command is Err
            &&& request.command->Err_0@ == text
            &&& request.config is None
        },
        Ok(member) => {
            &&& request.id@ == match member {
                Some(json) => json,
                None => "null"@,
            }
            &&& request.command is Ok
            &&& commands(
                match name {
                    Some(text) => text,
                    None => ""@,
                },
                allow_shutdown,
                request.command->Ok_0,
            )
            &&& text::text_of(request.config) == match config {
                Ok(member) => member,
                Err(_) => None,
            }
        },
    }
}

/// The request that its members make.
pub fn request_from(
    id: Result<Option<String>, String>,
    name: Option<String>,
    config: Result<Option<String>, String>,
    allow_shutdown: bool,
) -> (r: PipeRequest)
    ensures
        request_of(
            encoding::found(id),
            text::text_of(name),
            encoding::found(config),
            allow_shutdown,
            r,
        ),
{
    match id {
        Err(message) => PipeRequest {
            id: "null".to_owned(),
            command: Err(message),
            config: None,
        },
        Ok(member) => {
            let id = match member {
                Some(json) => json,
                None => "null".to_owned(),
            };
            let command = match name {
                Some(text) => command_named(text.as_str(), allow_shutdown),
                None => command_named("", allow_shutdown),
            };
            let config = match config {
                Ok(member) => member,
                Err(_) => None,
            };
            PipeRequest { id, command: Ok(command), config }
        },
    }
}

/// Reads a request: its octets are JSON, with an id, the name of a command,
/// and for some commands a configuration.
pub fn handle_request(request: &[u8], allow_shutdown: bool) -> (r: PipeRequest)
    ensures
        request_of(
            encoding::json_member(request@, "id"@),
            encoding::json_text(request@, "command"@),
            encoding::json_member(request@, "config"@),
            allow_shutdown,
            r,
        ),
{
    request_from(
        read_member(request, "id"),
        read_text(request, "command"),
        read_member(request, "config"),
        allow_shutdown,
    )
}

/// The word that answers a command that has no other answer.
pub open spec fn answer_word(command: PipeCommand) -> Option<Seq<char>> {
    match command {
        PipeCommand::StartTun => Some("starting"@),
        PipeCommand::StopTun => Some("stopped"@),
        PipeCommand::Cleanup => Some("clean"@),
        PipeCommand::Shutdown => Some("stopping"@),
        _ => None,
    }
}

/// The code of an error that a request is answered with.
pub open spec fn error_code(command: Result<PipeCommand, String>) -> Seq<char> {
    match command {
        Err(_) => "invalid_request"@,
        Ok(PipeCommand::StartTun) => "tun_start_failed"@,
        Ok(_) => "invalid_command"@,
    }
}

/// The word that answers a command that has no other answer.
pub fn answer_of(command: &PipeCommand) -> (r: Option<String>)
    ensures
        text::text_of(r) == answer_word(*command),
        *command is StartTun ==> r is Some && r->0@ == "starting"@,
        *command is StopTun ==> r is Some && r->0@ == "stopped"@,
        *command is Cleanup ==> r is Some && r->0@ == "clean"@,
        *command is Shutdown ==> r is Some && r->0@ == "stopping"@,
        *command is Version || *command is Status || *command is Unsupported ==> r is None,
{
    match command {
        PipeCommand::StartTun => Some("starting".to_owned()),
        PipeCommand::StopTun => Some("stopped".to_owned()),
        PipeCommand::Cleanup => Some("clean".to_owned()),
        PipeCommand::Shutdown => Some("stopping".to_owned()),
        _ => None,
    }
}

/// The code of an error that a request is answered with.
pub fn error_code_of(command: &Result<PipeCommand, String>) -> (r: String)
    ensures
        r@ == error_code(*command),
        *command is Err ==> r@ == "invalid_request"@,
        *command is Ok && command->Ok_0 is StartTun ==> r@ == "tun_start_failed"@,
        *command is Ok && !(command->Ok_0 is StartTun) ==> r@ == "invalid_command"@,
{
    match command {
        Err(_) => "invalid_request".to_owned(),
        Ok(PipeCommand::StartTun) => "tun_start_failed".to_owned(),
        Ok(_) => "invalid_command".to_owned(),
    }
}

/// An answer: the id of the request, as JSON, whether it went well, and either
/// data, as JSON, or an error.
#[derive(Debug)]
pub struct PipeReply {
    pub id: String,
    pub ok: bool,
    pub data: Option<String>,
    pub error: Option<PipeError>,
}

/// The error of an answer.
#[derive(Debug)]
pub struct PipeError {
    pub code: String,
    pub message: String,
}

/// Whether a request is refused as it stands, and what is said about it: it is
/// not JSON, its command does not exist, or it starts a tunnel without a
/// configuration.
pub open spec fn refusal_of(request: PipeRequest) -> Option<Seq<char>> {
    match request.command {
        Err(text) => Some(text@),
        Ok(PipeCommand::Unsupported(text)) => Some(text@),
        Ok(PipeCommand::StartTun) => if request.config is None {
            Some("start_tun requires config"@)
        } else {
            None
        },
        Ok(_) => None,
    }
}

/// Whether a reply answers a request: it has the id of the request, it has
/// data where all went well and an error where not, and never both.
pub open spec fn answers(
    request: PipeRequest,
    outcome: Result<Seq<char>, Seq<char>>,
    reply: PipeReply,
) -> bool {
    &&& reply.id@ == request.id@
    &&& match outcome {
        Ok(data) => {
            &&& reply.ok
            &&& reply.data is Some
            &&& reply.data->0@ == data
            &&& reply.error is None
        },
        Err(message) => {
            &&& !reply.ok
            &&& reply.data is None
            &&& reply.error is Some
            &&& reply.error->0.code@ == error_code(request.command)
            &&& reply.error->0.message@ == message
        },
    }
}

impl PipeRequest {
    /// What is said about a request that is refused as it stands.
    pub fn refusal(&self) -> (r: Option<String>)
        ensures
            text::text_of(r) == refusal_of(*self),
    {
        match &self.command {
            Err(text) => Some(text.clone()),
            Ok(PipeCommand::Unsupported(text)) => Some(text.clone()),
            Ok(PipeCommand::StartTun) => match &self.config {
                Some(_) => None,
                None => Some(config_missing()),
            },
            Ok(_) => None,
        }
    }

    /// The answer to a request, from what came of it: data, as JSON, or a
    /// message. A request that is refused as it stands is answered so,
    /// whatever came of it.
    pub fn reply(&self, outcome: Result<String, String>) -> (r: PipeReply)
        ensures
            answers(
                *self,
                match refusal_of(*self) {
                    Some(message) => Err(message),
                    None => match outcome {
                        Ok(data) => Ok(data@),
                        Err(message) => Err(message@),
                    },
                },
                r,
            ),
    {
        let outcome = match self.refusal() {
            Some(message) => Err(message),
            None => outcome,
        };
        match outcome {
            Ok(data) => PipeReply { id: self.id.clone(), ok: true, data: Some(data), error: None },
            Err(message) => PipeReply {
                id: self.id.clone(),
                ok: false,
                data: None,
                error: Some(PipeError { code: error_code_of(&self.command), message }),
            },
        }
    }
}

/// Every request gets an answer with its id, or null where it has none, that
/// says whether all went well and holds data or an error, never both. What is
/// not JSON is an invalid request, and a command that does not exist, or that
/// is not allowed, an invalid command.
pub proof fn every_request_is_answered(
    id: Result<Option<Seq<char>>, Seq<char>>,
    name: Option<Seq<char>>,
    config: Result<Option<Seq<char>>, Seq<char>>,
    allow_shutdown: bool,
    request: PipeRequest,
    outcome: Result<Seq<char>, Seq<char>>,
    reply: PipeReply,
)
    requires
        request_of(id, name, config, allow_shutdown, request),
        answers(
            request,
            match refusal_of(request) {
                Some(message) => Err(message),
                None => outcome,
            },
            reply,
        ),
    ensures
        reply.id@ == match id {
            Ok(Some(json)) => json,
            _ => "null"@,
        },
        reply.ok == (reply.data is Some),
        reply.ok == (reply.error is None),
        id is Err ==> !reply.ok && reply.error->0.code@ == "invalid_request"@
            && reply.error->0.message@ == id->Err_0,
        id is Ok && request.command->Ok_0 is Unsupported ==> !reply.ok && reply.error->0.code@
            == "invalid_command"@,
        id is Ok && name == Some("shutdown"@) && !allow_shutdown ==> !reply.ok
            && reply.error->0.code@ == "invalid_command"@ && reply.error->0.message@
            == "unsupported command: shutdown"@,
{
    if name == Some("shutdown"@) {
        reveal_strlit("shutdown");
        reveal_strlit("version");
        reveal_strlit("status");
        reveal_strlit("start_tun");
        reveal_strlit("stop_tun");
        reveal_strlit("cleanup");
        reveal_strlit("unsupported command: ");
        reveal_strlit("unsupported command: shutdown");
        assert("shutdown"@.len() == 8 && "version"@.len() == 7 && "status"@.len() == 6
            && "start_tun"@.len() == 9 && "stop_tun"@.len() == 8 && "cleanup"@.len() == 7);
        assert("shutdown"@[1] != "stop_tun"@[1]);
        assert("unsupported command: "@ + "shutdown"@ =~= "unsupported command: shutdown"@);
    }
}

/// What a request to start is answered that brings no configuration.
pub fn config_missing() -> (r: String)
    ensures
        r@ == "start_tun requires config"@,
{
    "start_tun requires config".to_owned()
}

/// The error of a pipe that a client was faster to open.
pub const ERROR_PIPE_CONNECTED: u32 = 535;

/// The server of the pipe.
#[derive(Debug, Clone, Copy, PartialEq, Eq, Structural)]
pub struct PipeServer {
    /// Whether no pipe was made yet. The first one must not exist.
    pub first_instance: bool,
}

/// What the server does with a pipe.
#[derive(Debug, Clone, Copy, PartialEq, Eq, Structural)]
pub enum PipeStep {
    /// Serve the client, on a thread.
    Serve,
    /// Close the pipe and make another one.
    Skip,
    /// End.
    Stop,
}

impl PipeServer {
    /// A server that has made no pipe yet.
    pub fn new() -> (r: PipeServer)
        ensures
            r.first_instance,
    {
        PipeServer { first_instance: true }
    }

    /// Whether to make another pipe, and whether it must be the first one.
    pub fn next_pipe(&self, stopping: bool) -> (r: Option<bool>)
        ensures
            r == if stopping {
                None
            } else {
                Some(self.first_instance)
            },
    {
        if stopping {
            None
        } else {
            Some(self.first_instance)
        }
    }

    /// A pipe was made and waited for a client. That the client was faster is
    /// as good.
    pub fn serve(&mut self, connected: bool, code: u32, stopping: bool) -> (r: PipeStep)
        ensures
            !final(self).first_instance,
            r == if !connected && code != 535 {
                PipeStep::Skip
            } else if stopping {
                PipeStep::Stop
            } else {
                PipeStep::Serve
            },
    {
        self.first_instance = false;
        if !connected && code != ERROR_PIPE_CONNECTED {
            PipeStep::Skip
        } else if stopping {
            PipeStep::Stop
        } else {
            PipeStep::Serve
        }
    }
}

/// What a client does that wants to open the pipe.
#[derive(Debug, Clone, Copy, PartialEq, Eq, Structural)]
pub enum CallStep {
    Proceed,
    /// Try again a little later.
    Retry,
    GiveUp,
}

/// Decides for a client: opening the pipe is tried while there is time, and
/// once in any case.
pub fn call(opened: bool, in_time: bool) -> (r: CallStep)
    ensures
        r == if opened {
            CallStep::Proceed
        } else if in_time {
            CallStep::Retry
        } else {
            CallStep::GiveUp
        },
{
    if opened {
        CallStep::Proceed
    } else if in_time {
        CallStep::Retry
    } else {
        CallStep::GiveUp
    }
}

/// What a client makes of the octets that it was answered: JSON, or what is
/// wrong with it.
pub fn call_answer(response: &[u8]) -> (r: Result<String, String>)
    ensures
        match r {
            Ok(s) => encoding::json_value(response@) == Ok::<Seq<char>, Seq<char>>(s@),
            Err(e) => encoding::json_value(response@) == Err::<Seq<char>, Seq<char>>(e@),
        },
{
    read_value(response)
}

// ---------------------------------------------------------------------------
// Laws
// ---------------------------------------------------------------------------

/// An engine is configured with everything that a request says, unchanged, and
/// with the resources as they were decoded. Its adapter has the name that is
/// asked for, or the usual one where that is blank.
pub proof fn an_engine_is_configured_as_asked(
    config: WireConfig,
    resources: Seq<u8>,
    r: VpnEngineConfig,
)
    requires
        configures(config, resources, r),
    ensures
        r.client.server_host@ == config.client.server_host@,
        r.client.server_port == config.client.server_port,
        r.client.user_agent@ == config.client.user_agent@,
        r.client.connect_timeout_ms == config.client.connect_timeout_ms,
        r.client.io_timeout_ms == config.client.io_timeout_ms,
        r.client.node_probe_timeout_ms == config.client.node_probe_timeout_ms,
        r.client.allow_insecure_tls == config.client.allow_insecure_tls,
        r.client.bind_interface is None,
        r.client.auto_detect_interface,
        r.session.username@ == config.session.username@,
        r.session.sid@ == config.session.sid@,
        r.session.cookies@.len() == config.session.cookies@.len(),
        r.resource_bytes@ == resources,
        r.service_host@ == config.service_host@,
        r.mtu == config.mtu,
        !r.packet_information,
        r.exit_on_fatal_error == config.exit_on_fatal_error,
        r.tun_name is Some,
        config.tun_name is Some && text::trim(config.tun_name->0@).len() > 0 ==> r.tun_name->0@
            == config.tun_name->0@,
        config.tun_name is None || text::trim(config.tun_name->0@).len() == 0 ==> r.tun_name->0@
            == "NulConnect"@,
{
    helper::every_cookie_is_carried(config.session, r.session, 0);
}

/// A start that nothing overtook becomes a running tunnel, with what it has to
/// undo, or says why it failed. Nothing else of the helper changes.
pub proof fn a_start_that_is_current_counts(
    s: WindowsRuntime,
    network: PersistedNetworkState,
    dns_namespaces: usize,
    virtual_ip: Option<Ipv4Addr>,
    message: String,
)
    ensures
        ({
            let end = s.after_success(s.generation, network, dns_namespaces, virtual_ip);
            &&& end.status == TunStatus::Running
            &&& end.message is None
            &&& end.engine
            &&& end.virtual_ip == virtual_ip
            &&& end.network == network
            &&& end.dns_namespaces == dns_namespaces
            &&& end.generation == s.generation
            &&& end.shutdown == s.shutdown
        }),
        ({
            let end = s.after_failure(s.generation, message);
            &&& end.status == TunStatus::Failed
            &&& end.message == Some(message)
            &&& end.engine == s.engine
            &&& end.network == s.network
            &&& end.generation == s.generation
        }),
{
}

/// A stop that began is counted, says so of a tunnel that runs or is about to,
/// and keeps what there is to undo.
pub proof fn a_stop_that_began_says_so(s: WindowsRuntime)
    ensures
        ({
            let end = s.after_stop();
            &&& s.status == TunStatus::Running ==> end.status == TunStatus::Stopping
            &&& s.status == TunStatus::Starting ==> end.status == TunStatus::Stopping
            &&& s.status == TunStatus::Stopped ==> end.status == TunStatus::Stopped
            &&& s.status == TunStatus::Stopping ==> end.status == TunStatus::Stopping
            &&& s.status == TunStatus::Failed ==> end.status == TunStatus::Failed
            &&& s.generation < u64::MAX ==> end.generation == s.generation + 1
            &&& end.network == s.network
            &&& end.engine == s.engine
            &&& end.shutdown == s.shutdown
        }),
{
    traffic::counting_adds_up(s.generation, 1, 2);
}

/// The place of a step in the order.
pub open spec fn worker_rank(step: WorkerStep) -> int {
    match step {
        WorkerStep::CheckCurrent => 0,
        WorkerStep::CleanupLeftovers => 1,
        WorkerStep::Configure => 2,
        WorkerStep::PlanNetwork => 3,
        WorkerStep::StartEngine => 4,
        WorkerStep::FindAdapter => 5,
        WorkerStep::InstallNetwork => 6,
        WorkerStep::SaveNetwork => 7,
        WorkerStep::Publish => 8,
    }
}

/// Each step of a start leads to the next one, and none is left out: what an
/// earlier helper left behind is undone before anything else, the network is
/// installed only for an engine that runs, and the tunnel is told to run last.
pub proof fn a_worker_takes_every_step(step: WorkerStep)
    ensures
        worker_step_after(step) is None <==> step == WorkerStep::Publish,
        worker_step_after(step) is Some ==> worker_rank(worker_step_after(step)->0)
            == worker_rank(step) + 1,
{
}

/// What is put back is exactly what may be there: nothing before the engine
/// runs, the engine alone until the network is touched, and then both, the
/// engine first. Only an installation that failed is noted on the way.
pub proof fn a_worker_puts_back_what_is_there(step: WorkerStep)
    ensures
        worker_rank(step) <= 4 ==> worker_cleanup(step).len() == 0,
        step == WorkerStep::FindAdapter ==> worker_cleanup(step) == seq![
            WorkerCleanup::StopEngine,
        ],
        step == WorkerStep::InstallNetwork ==> worker_cleanup(step) == seq![
            WorkerCleanup::SaveNetwork,
            WorkerCleanup::StopEngine,
            WorkerCleanup::UndoNetwork,
        ],
        worker_rank(step) >= 7 ==> worker_cleanup(step) == seq![
            WorkerCleanup::StopEngine,
            WorkerCleanup::UndoNetwork,
        ],
{
}

/// A request whose command exists is carried out: what came of it is the
/// answer, data as it is and a message as it is, and a start is refused only
/// where it brings no configuration.
pub proof fn what_came_of_a_request_is_answered(
    id: Option<Seq<char>>,
    name: Seq<char>,
    config: Option<Seq<char>>,
    request: PipeRequest,
    outcome: Result<Seq<char>, Seq<char>>,
    reply: PipeReply,
)
    requires
        request_of(Ok(id), Some(name), Ok(config), true, request),
        answers(
            request,
            match refusal_of(request) {
                Some(message) => Err(message),
                None => outcome,
            },
            reply,
        ),
        name == "version"@ || name == "status"@ || name == "stop_tun"@ || name == "cleanup"@ || name
            == "shutdown"@ || name == "start_tun"@,
    ensures
        name != "start_tun"@ || config is Some ==> {
            &&& reply.ok == (outcome is Ok)
            &&& outcome is Ok ==> reply.data is Some && reply.data->0@ == outcome->Ok_0
            &&& outcome is Err ==> reply.error is Some && reply.error->0.message@ == outcome->Err_0
        },
        name == "start_tun"@ && config is None ==> !reply.ok && reply.error->0.message@
            == "start_tun requires config"@,
        name == "start_tun"@ && !reply.ok ==> reply.error->0.code@ == "tun_start_failed"@,
        name != "start_tun"@ && !reply.ok ==> reply.error->0.code@ == "invalid_command"@,
        text::text_of(request.config) == config,
{
    lemma_command_names();
}

} // verus!
