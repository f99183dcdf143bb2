//! The VPN engine: its configuration, its state, and the rules by which its two
//! workers move packets between the tunnel device and the service.
//!
//! The caller owns the device, the tunnel and the threads. It reports what
//! happened and carries out what the engine and the workers decide.
use crate::error::{AtrError, AtrResult, ErrorCode};
use crate::ipv4;
use crate::ipv4::Ipv4Addr;
use crate::packet;
use crate::packet::{
    add_packet_information, log_packet_sample, strip_packet_information, PacketFamilies,
    PACKET_INFORMATION_LENGTH, SAMPLE_LIMIT,
};
use crate::traffic;
use crate::traffic::VpnEngineTrafficStats;
use vstd::prelude::*;
use vstd::slice::slice_to_vec;
use vstd::string::*;

verus! {

/// A cookie of the session.
#[derive(Debug, Clone)]
pub struct VpnCookieRecord {
    pub host: String,
    pub scheme: String,
    pub name: String,
    pub value: String,
}

/// What identifies a session to the service.
#[derive(Debug, Clone)]
pub struct VpnSessionMaterial {
    pub username: String,
    pub sid: String,
    pub device_id: String,
    pub connection_id: String,
    pub sign_key_hex: String,
    pub cookies: Vec<VpnCookieRecord>,
}

/// How to reach the service.
#[derive(Debug, Clone)]
pub struct ClientConfig {
    pub server_host: String,
    pub server_port: u16,
    pub user_agent: String,
    pub connect_timeout_ms: u64,
    pub io_timeout_ms: u64,
    pub node_probe_timeout_ms: u64,
    pub allow_insecure_tls: bool,
    pub bind_interface: Option<String>,
    pub auto_detect_interface: bool,
}

/// What an engine is started with.
#[derive(Debug, Clone)]
pub struct VpnEngineConfig {
    pub client: ClientConfig,
    pub session: VpnSessionMaterial,
    pub resource_bytes: Vec<u8>,
    pub service_host: String,
    pub tun_name: Option<String>,
    pub mtu: u16,
    pub packet_information: bool,
    pub exit_on_fatal_error: bool,
}

/// The MTU of a configuration that sets none.
pub const DEFAULT_MTU: u16 = 1400;

impl VpnEngineConfig {
    /// The configuration that sets nothing but how to reach the service: an
    /// empty session, no resources, no headers, and fatal errors end the
    /// engine.
    pub fn with_client(client: ClientConfig) -> (r: VpnEngineConfig)
        ensures
            r.client == client,
            r.session.username@.len() == 0,
            r.session.sid@.len() == 0,
            r.session.device_id@.len() == 0,
            r.session.connection_id@.len() == 0,
            r.session.sign_key_hex@.len() == 0,
            r.session.cookies@.len() == 0,
            r.resource_bytes@.len() == 0,
            r.service_host@.len() == 0,
            r.tun_name is None,
            r.mtu == 1400,
            !r.packet_information,
            r.exit_on_fatal_error,
    {
        VpnEngineConfig {
            client,
            session: VpnSessionMaterial {
                username: String::new(),
                sid: String::new(),
                device_id: String::new(),
                connection_id: String::new(),
                sign_key_hex: String::new(),
                cookies: Vec::new(),
            },
            resource_bytes: Vec::new(),
            service_host: String::new(),
            tun_name: None,
            mtu: DEFAULT_MTU,
            packet_information: false,
            exit_on_fatal_error: true,
        }
    }

    /// The host under which resources are looked up: the service host, or the
    /// server where none is set.
    pub fn resource_host<'a>(&'a self) -> (r: &'a String)
        ensures
            *r == if self.service_host@.len() == 0 {
                self.client.server_host
            } else {
                self.service_host
            },
    {
        if self.service_host.as_str().unicode_len() == 0 {
            &self.client.server_host
        } else {
            &self.service_host
        }
    }

    /// The tunnel device for a local address. An empty name counts as none.
    pub fn tun_device_plan(&self, local_ip: Ipv4Addr) -> (r: TunDevicePlan)
        ensures
            r.mtu == self.mtu,
            r.name == if self.tun_name is Some && self.tun_name->0@.len() > 0 {
                self.tun_name
            } else {
                None
            },
            r.address@ == ipv4::dotted(local_ip.bits),
            r.prefix == 32,
            r.gateway@ == "10.0.0.1"@,
            r.packet_information == self.packet_information,
    {
        let name = match &self.tun_name {
            Some(name) => if name.as_str().unicode_len() > 0 {
                Some(name.clone())
            } else {
                None
            },
            None => None,
        };
        TunDevicePlan {
            mtu: self.mtu,
            name,
            address: local_ip.to_text(),
            prefix: 32,
            gateway: "10.0.0.1".to_owned(),
            packet_information: self.packet_information,
        }
    }
}

/// How a tunnel device is to be built.
#[derive(Debug, Clone)]
pub struct TunDevicePlan {
    pub mtu: u16,
    pub name: Option<String>,
    pub address: String,
    pub prefix: u8,
    pub gateway: String,
    pub packet_information: bool,
}

/// The local address of the tunnel: the first one that the service handed out.
pub fn first_virtual_ip(ips: &[Ipv4Addr]) -> (r: AtrResult<Ipv4Addr>)
    ensures
        match r {
            Ok(ip) => ips@.len() > 0 && ip == ips@[0],
            Err(e) => ips@.len() == 0 && e.says(
                ErrorCode::NetworkFailed,
                "server did not return L3 virtual IP"@,
            ),
        },
{
    if ips.len() > 0 {
        Ok(ips[0])
    } else {
        Err(AtrError::NetworkFailed("server did not return L3 virtual IP".to_owned()))
    }
}

/// A part of the engine that could not be started.
#[derive(Debug, Clone, Copy, PartialEq, Eq, Structural)]
pub enum EnginePart {
    TunDevice,
    Uplink,
    Downlink,
    TransportStack,
}

/// The words that introduce the cause.
pub open spec fn part_text(part: EnginePart) -> Seq<char> {
    match part {
        EnginePart::TunDevice => "failed to create TUN device: "@,
        EnginePart::Uplink => "failed to start L3 uplink worker: "@,
        EnginePart::Downlink => "failed to start L3 downlink worker: "@,
        EnginePart::TransportStack => "failed to start TUN transport stack: "@,
    }
}

/// The error of a part that could not be started. Without a device the network
/// failed; a worker that does not start is an internal matter.
pub fn start_error(part: EnginePart, cause: &str) -> (r: AtrError)
    ensures
        r.says(
            if part == EnginePart::TunDevice {
                ErrorCode::NetworkFailed
            } else {
                ErrorCode::Internal
            },
            part_text(part) + cause@,
        ),
{
    match part {
        EnginePart::TunDevice => AtrError::NetworkFailed(
            "failed to create TUN device: ".to_owned().concat(cause),
        ),
        EnginePart::Uplink => AtrError::Internal(
            "failed to start L3 uplink worker: ".to_owned().concat(cause),
        ),
        EnginePart::Downlink => AtrError::Internal(
            "failed to start L3 downlink worker: ".to_owned().concat(cause),
        ),
        EnginePart::TransportStack => AtrError::Internal(
            "failed to start TUN transport stack: ".to_owned().concat(cause),
        ),
    }
}

// ---------------------------------------------------------------------------
// State
// ---------------------------------------------------------------------------

/// Whether an engine has ended.
#[derive(Debug, Clone, Copy, PartialEq, Eq, Structural)]
pub enum VpnEngineStatus {
    Running,
    Stopped,
}

/// What the owner of the threads has to do.
#[derive(Debug, Clone, Copy, PartialEq, Eq, Structural)]
pub enum EngineCommand {
    /// Wake the worker that reads from the device.
    Interrupt,
    /// Close the tunnel to the service.
    CloseTunnel,
    /// Wait until every worker that has yet to end has done so.
    JoinWorkers,
}

/// The state that an engine shares with its workers.
#[derive(Debug)]
pub struct VpnEngine {
    /// Whether the workers are to end.
    pub close: bool,
    /// How the first worker that ended did so: with the packets it moved, or
    /// with an error.
    pub result: Option<AtrResult<usize>>,
    /// Whether a result was taken.
    pub taken: bool,
    /// How many workers have yet to end.
    pub workers: usize,
    pub stats: VpnEngineTrafficStats,
}

/// The number of workers: one for each direction.
pub const WORKERS: usize = 2;

/// The commands that end the workers.
pub open spec fn cancel_commands() -> Seq<EngineCommand> {
    seq![EngineCommand::Interrupt, EngineCommand::CloseTunnel]
}

/// The commands that end the workers and wait for them.
pub open spec fn stop_commands() -> Seq<EngineCommand> {
    seq![EngineCommand::Interrupt, EngineCommand::CloseTunnel, EngineCommand::JoinWorkers]
}

/// Whether an engine has ended: a worker has, and its result was not taken.
pub open spec fn status_of(e: VpnEngine) -> VpnEngineStatus {
    if e.result is Some {
        VpnEngineStatus::Stopped
    } else {
        VpnEngineStatus::Running
    }
}

impl VpnEngine {
    /// Once a worker has ended there is a result, until it is taken.
    pub open spec fn wf(self) -> bool {
        &&& self.workers <= WORKERS
        &&& self.workers < WORKERS ==> self.result is Some || self.taken
    }

    /// The engine after a worker ended. The first result stays, and with an
    /// error the other worker is to end too.
    pub open spec fn after_worker(self, outcome: AtrResult<usize>) -> VpnEngine {
        VpnEngine {
            close: self.close || outcome is Err,
            result: if self.result is None {
                Some(outcome)
            } else {
                self.result
            },
            workers: if self.workers > 0 {
                (self.workers - 1) as usize
            } else {
                0
            },
            ..self
        }
    }

    /// The state of an engine whose workers are about to start.
    pub fn start() -> (r: VpnEngine)
        ensures
            r.wf(),
            !r.close,
            r.result is None,
            !r.taken,
            r.workers == WORKERS,
            r.workers == 2,
            r.stats.upload_bytes == 0,
            r.stats.download_bytes == 0,
            r.stats.upload_packets == 0,
            r.stats.download_packets == 0,
    {
        VpnEngine {
            close: false,
            result: None,
            taken: false,
            workers: WORKERS,
            stats: VpnEngineTrafficStats::default(),
        }
    }

    /// Tells the workers to end.
    pub fn cancel(&mut self) -> (commands: Vec<EngineCommand>)
        ensures
            *final(self) == (VpnEngine { close: true, ..*old(self) }),
            commands@ == cancel_commands(),
            commands@ == seq![EngineCommand::Interrupt, EngineCommand::CloseTunnel],
    {
        self.close = true;
        let commands = vec![EngineCommand::Interrupt, EngineCommand::CloseTunnel];
        assert(commands@ =~= cancel_commands());
        commands
    }

    /// Tells the workers to end, and waits until all that have yet to end have
    /// done so.
    pub fn stop(&mut self) -> (commands: Vec<EngineCommand>)
        ensures
            *final(self) == (VpnEngine { close: true, ..*old(self) }),
            commands@ == stop_commands(),
            commands@ == seq![
                EngineCommand::Interrupt,
                EngineCommand::CloseTunnel,
                EngineCommand::JoinWorkers,
            ],
    {
        let mut commands = self.cancel();
        commands.push(EngineCommand::JoinWorkers);
        assert(commands@ =~= stop_commands());
        commands
    }

    /// Stopped as soon as a worker has ended and its result was not taken.
    pub fn status(&self) -> (r: VpnEngineStatus)
        ensures
            r == status_of(*self),
            r == VpnEngineStatus::Stopped <==> self.result is Some,
    {
        if self.result.is_some() {
            VpnEngineStatus::Stopped
        } else {
            VpnEngineStatus::Running
        }
    }

    /// Takes the result, once there is one. The engine is then stopped.
    pub fn take_result(&mut self) -> (r: (Option<AtrResult<usize>>, Vec<EngineCommand>))
        ensures
            r.0 == old(self).result,
            match old(self).result {
                Some(_) => {
                    &&& *final(self) == (VpnEngine {
                        close: true,
                        result: None,
                        taken: true,
                        ..*old(self)
                    })
                    &&& r.1@ == stop_commands()
                },
                None => *final(self) == *old(self) && r.1@.len() == 0,
            },
            old(self).wf() ==> final(self).wf(),
    {
        let result = self.result.take();
        if result.is_some() {
            self.taken = true;
            let commands = self.stop();
            (result, commands)
        } else {
            (result, Vec::new())
        }
    }

    /// The counters.
    pub fn traffic_stats(&self) -> (r: VpnEngineTrafficStats)
        ensures
            r == self.stats,
    {
        self.stats
    }

    /// Keeps the first result.
    pub fn set_result(&mut self, value: AtrResult<usize>)
        ensures
            *final(self) == if old(self).result is None {
                VpnEngine { result: Some(value), ..*old(self) }
            } else {
                *old(self)
            },
    {
        if self.result.is_none() {
            self.result = Some(value);
        }
    }

    /// A worker ended. With an error the other one is to end too.
    pub fn worker_ended(&mut self, outcome: AtrResult<usize>)
        ensures
            *final(self) == old(self).after_worker(outcome),
            old(self).wf() ==> final(self).wf(),
    {
        if outcome.is_err() {
            self.close = true;
        }
        if self.workers > 0 {
            self.workers = self.workers - 1;
        }
        self.set_result(outcome);
    }
}

// ---------------------------------------------------------------------------
// Workers
// ---------------------------------------------------------------------------

/// What came of reading from the device.
#[derive(Debug)]
pub enum DeviceRead {
    /// The octets of a packet. None at all are passed over.
    Packet(Vec<u8>),
    /// There was nothing to read.
    WouldBlock,
    /// The engine woke the worker.
    Interrupted,
    /// The device failed.
    Failed(String),
}

/// What the uplink worker does next.
#[derive(Debug)]
pub enum UplinkStep {
    /// Reads on.
    Again,
    /// Reads on a little later.
    Wait,
    /// Writes a packet to the tunnel. The first packets come with a line for
    /// the log.
    Write { packet: Vec<u8>, sample: Option<String> },
    /// Ends.
    Stop,
    /// Closes the tunnel and ends with an error.
    Fail(AtrError),
}

/// The worker that moves packets from the device to the service.
#[derive(Debug)]
pub struct Uplink {
    pub packet_information: bool,
    pub exit_on_fatal_error: bool,
    pub read_packets: usize,
    pub written_packets: usize,
    pub samples: usize,
}

/// What a device that writes headers delivered, without the header.
pub open spec fn payload(data: Seq<u8>, packet_information: bool) -> Seq<u8> {
    if packet_information {
        data.skip(PACKET_INFORMATION_LENGTH as int)
    } else {
        data
    }
}

/// Whether a device that writes headers delivered nothing but a header.
pub open spec fn lacks_payload(data: Seq<u8>, packet_information: bool) -> bool {
    packet_information && data.len() <= PACKET_INFORMATION_LENGTH
}

/// The number of samples after one more packet.
pub open spec fn sampled(samples: usize) -> usize {
    if samples < SAMPLE_LIMIT {
        (samples + 1) as usize
    } else {
        samples
    }
}

impl Uplink {
    /// A worker that has moved nothing yet.
    pub fn new(packet_information: bool, exit_on_fatal_error: bool) -> (r: Uplink)
        ensures
            r == (Uplink {
                packet_information,
                exit_on_fatal_error,
                read_packets: 0,
                written_packets: 0,
                samples: 0,
            }),
    {
        Uplink {
            packet_information,
            exit_on_fatal_error,
            read_packets: 0,
            written_packets: 0,
            samples: 0,
        }
    }

    /// Decides on what the device delivered.
    pub fn on_read(&mut self, event: DeviceRead) -> (step: UplinkStep)
        ensures
            match event {
                DeviceRead::Packet(data) => {
                    let info = old(self).packet_information;
                    if data@.len() == 0 {
                        step is Again && *final(self) == *old(self)
                    } else if lacks_payload(data@, info) {
                        &&& *final(self) == *old(self)
                        &&& if old(self).exit_on_fatal_error {
                            step is Fail && step->Fail_0.says(
                                ErrorCode::InvalidArgument,
                                packet::too_short_text(data@.len()),
                            )
                        } else {
                            step is Again
                        }
                    } else {
                        let n = old(self).read_packets.wrapping_add(1);
                        &&& *final(self) == (Uplink {
                            read_packets: n,
                            samples: sampled(old(self).samples),
                            ..*old(self)
                        })
                        &&& step is Write
                        &&& step->packet@ == payload(data@, info)
                        &&& step->sample is Some == (old(self).samples < SAMPLE_LIMIT)
                        &&& step->sample is Some ==> step->sample->0@ == packet::sample_line(
                            "uplink-read"@,
                            n as nat,
                            data@,
                            payload(data@, info),
                            info,
                        )
                    }
                },
                DeviceRead::WouldBlock => step is Wait && *final(self) == *old(self),
                DeviceRead::Interrupted => step is Stop && *final(self) == *old(self),
                DeviceRead::Failed(text) => step is Fail && step->Fail_0.says(
                    ErrorCode::NetworkFailed,
                    text@,
                ) && *final(self) == *old(self),
            },
    {
        match event {
            DeviceRead::Packet(data) => {
                if data.len() == 0 {
                    return UplinkStep::Again;
                }
                match strip_packet_information(data.as_slice(), self.packet_information) {
                    Ok(ip_packet) => {
                        self.read_packets = self.read_packets.wrapping_add(1);
                        let sample = log_packet_sample(
                            "uplink-read",
                            self.read_packets,
                            data.as_slice(),
                            ip_packet,
                            &mut self.samples,
                            self.packet_information,
                        );
                        UplinkStep::Write { packet: slice_to_vec(ip_packet), sample }
                    },
                    Err(error) => if self.exit_on_fatal_error {
                        UplinkStep::Fail(error)
                    } else {
                        UplinkStep::Again
                    },
                }
            },
            DeviceRead::WouldBlock => UplinkStep::Wait,
            DeviceRead::Interrupted => UplinkStep::Stop,
            DeviceRead::Failed(text) => UplinkStep::Fail(AtrError::NetworkFailed(text)),
        }
    }

    /// Decides on what came of writing a packet to the tunnel. Written packets
    /// are counted. A packet without a route is dropped; other errors end the
    /// worker only where they are fatal.
    pub fn on_written(
        &mut self,
        outcome: AtrResult<usize>,
        stats: &mut VpnEngineTrafficStats,
    ) -> (step: UplinkStep)
        ensures
            match outcome {
                Ok(n) => {
                    &&& step is Again
                    &&& *final(self) == (Uplink {
                        written_packets: old(self).written_packets.wrapping_add(1),
                        ..*old(self)
                    })
                    &&& *final(stats) == (VpnEngineTrafficStats {
                        upload_bytes: traffic::counted(old(stats).upload_bytes, n as nat),
                        upload_packets: traffic::counted(old(stats).upload_packets, 1),
                        ..*old(stats)
                    })
                },
                Err(e) => {
                    &&& *final(self) == *old(self)
                    &&& *final(stats) == *old(stats)
                    &&& if e is NotFound || !old(self).exit_on_fatal_error {
                        step is Again
                    } else {
                        step == UplinkStep::Fail(e)
                    }
                },
            },
    {
        match outcome {
            Ok(n) => {
                self.written_packets = self.written_packets.wrapping_add(1);
                stats.add_upload_bytes(n);
                stats.add_upload_packet();
                UplinkStep::Again
            },
            Err(AtrError::NotFound(_)) => UplinkStep::Again,
            Err(error) => if self.exit_on_fatal_error {
                UplinkStep::Fail(error)
            } else {
                UplinkStep::Again
            },
        }
    }

    /// The result of a worker that ended without an error: the packets that it
    /// wrote.
    pub fn finish(&self) -> (r: AtrResult<usize>)
        ensures
            r == Ok::<usize, AtrError>(self.written_packets),
    {
        Ok(self.written_packets)
    }
}

/// What came of writing to the device.
#[derive(Debug)]
pub enum DeviceWrite {
    Sent,
    /// The device takes nothing now. The packet is lost.
    WouldBlock,
    Failed(String),
}

/// What the downlink worker does next.
#[derive(Debug)]
pub enum DownlinkStep {
    /// Reads on.
    Again,
    /// Reads on a little later.
    Wait,
    /// Reads on after a pause.
    Pause,
    /// Writes to the device.
    Send(Vec<u8>),
    /// Ends.
    Stop,
    /// Ends with an error, after closing the tunnel where that is said.
    Fail { error: AtrError, close_tunnel: bool },
}

/// The worker that moves packets from the service to the device.
#[derive(Debug)]
pub struct Downlink {
    pub packet_information: bool,
    pub exit_on_fatal_error: bool,
    pub families: PacketFamilies,
    pub packets: usize,
    pub samples: usize,
}

impl Downlink {
    /// A worker that has moved nothing yet.
    pub fn new(
        packet_information: bool,
        exit_on_fatal_error: bool,
        families: PacketFamilies,
    ) -> (r: Downlink)
        ensures
            r == (Downlink {
                packet_information,
                exit_on_fatal_error,
                families,
                packets: 0,
                samples: 0,
            }),
    {
        Downlink { packet_information, exit_on_fatal_error, families, packets: 0, samples: 0 }
    }

    /// Decides on what the tunnel delivered. An error ends the worker quietly
    /// where the engine is closing.
    pub fn on_read(&self, event: AtrResult<Vec<u8>>, closing: bool) -> (step: DownlinkStep)
        ensures
            match event {
                Ok(data) => step is Send && step->Send_0@ == packet::framed(
                    data@,
                    self.packet_information,
                    self.families,
                ),
                Err(e) => if closing {
                    step is Stop
                } else if !self.exit_on_fatal_error {
                    step is Pause
                } else {
                    step == (DownlinkStep::Fail { error: e, close_tunnel: false })
                },
            },
    {
        match event {
            Ok(data) => DownlinkStep::Send(
                add_packet_information(data.as_slice(), self.packet_information, self.families),
            ),
            Err(error) => if closing {
                DownlinkStep::Stop
            } else if !self.exit_on_fatal_error {
                DownlinkStep::Pause
            } else {
                DownlinkStep::Fail { error, close_tunnel: false }
            },
        }
    }

    /// Decides on what came of writing a packet to the device. Packets that the
    /// device took are counted, without their headers. The first ones come
    /// with a line for the log.
    pub fn on_sent(
        &mut self,
        outcome: DeviceWrite,
        ip_packet: &[u8],
        tun_packet: &[u8],
        stats: &mut VpnEngineTrafficStats,
    ) -> (r: (DownlinkStep, Option<String>))
        ensures
            match outcome {
                DeviceWrite::Sent => {
                    let n = old(self).packets.wrapping_add(1);
                    &&& r.0 is Again
                    &&& *final(self) == (Downlink {
                        packets: n,
                        samples: sampled(old(self).samples),
                        ..*old(self)
                    })
                    &&& *final(stats) == (VpnEngineTrafficStats {
                        download_bytes: traffic::counted(
                            old(stats).download_bytes,
                            ip_packet@.len(),
                        ),
                        download_packets: traffic::counted(old(stats).download_packets, 1),
                        ..*old(stats)
                    })
                    &&& r.1 is Some == (old(self).samples < SAMPLE_LIMIT)
                    &&& r.1 is Some ==> r.1->0@ == packet::sample_line(
                        "downlink"@,
                        n as nat,
                        tun_packet@,
                        ip_packet@,
                        old(self).packet_information,
                    )
                },
                DeviceWrite::WouldBlock => r.0 is Wait && r.1 is None && *final(self) == *old(self)
                    && *final(stats) == *old(stats),
                DeviceWrite::Failed(text) => {
                    &&& r.1 is None
                    &&& *final(self) == *old(self)
                    &&& *final(stats) == *old(stats)
                    &&& if old(self).exit_on_fatal_error {
                        r.0 is Fail && r.0->close_tunnel && r.0->error.says(
                            ErrorCode::NetworkFailed,
                            text@,
                        )
                    } else {
                        r.0 is Again
                    }
                },
            },
    {
        match outcome {
            DeviceWrite::Sent => {
                self.packets = self.packets.wrapping_add(1);
                stats.add_download_bytes(ip_packet.len());
                stats.add_download_packet();
                let sample = log_packet_sample(
                    "downlink",
                    self.packets,
                    tun_packet,
                    ip_packet,
                    &mut self.samples,
                    self.packet_information,
                );
                (DownlinkStep::Again, sample)
            },
            DeviceWrite::WouldBlock => (DownlinkStep::Wait, None),
            DeviceWrite::Failed(text) => if self.exit_on_fatal_error {
                (
                    DownlinkStep::Fail { error: AtrError::NetworkFailed(text), close_tunnel: true },
                    None,
                )
            } else {
                (DownlinkStep::Again, None)
            },
        }
    }

    /// The result of a worker that ended without an error: the packets that it
    /// handed to the device.
    pub fn finish(&self) -> (r: AtrResult<usize>)
        ensures
            r == Ok::<usize, AtrError>(self.packets),
    {
        Ok(self.packets)
    }
}

// ---------------------------------------------------------------------------
// Laws
// ---------------------------------------------------------------------------

/// The state of an engine after its workers ended one after the other.
pub open spec fn after_workers(e: VpnEngine, outcomes: Seq<AtrResult<usize>>) -> VpnEngine
    decreases outcomes.len(),
{
    if outcomes.len() == 0 {
        e
    } else {
        after_workers(e, outcomes.drop_last()).after_worker(outcomes.last())
    }
}

/// Of all the workers that end, the first one decides the result, and one
/// error is enough for all to be told to end.
pub proof fn the_first_result_stays(e: VpnEngine, outcomes: Seq<AtrResult<usize>>)
    requires
        e.result is None,
        outcomes.len() > 0,
    ensures
        after_workers(e, outcomes).result == Some(outcomes[0]),
        after_workers(e, outcomes).close == (e.close || exists|i: int|
            0 <= i < outcomes.len() && (#[trigger] outcomes[i]) is Err),
    decreases outcomes.len(),
{
    let fewer = outcomes.drop_last();
    if fewer.len() > 0 {
        the_first_result_stays(e, fewer);
        assert(forall|i: int| 0 <= i < fewer.len() ==> #[trigger] fewer[i] == outcomes[i]);
        if exists|i: int| 0 <= i < outcomes.len() && (#[trigger] outcomes[i]) is Err {
            let i = choose|i: int| 0 <= i < outcomes.len() && (#[trigger] outcomes[i]) is Err;
            if i < fewer.len() {
                assert(fewer[i] is Err);
            }
        }
    } else {
        assert(after_workers(e, fewer) == e);
        assert(outcomes.last() == outcomes[0]);
    }
}

/// What a worker does to the state of its engine.
pub enum WorkerEvent {
    /// It counts what it moved.
    Counted(VpnEngineTrafficStats),
    /// It ends.
    Ended(AtrResult<usize>),
}

/// The state of an engine after some of that, one after the other.
pub open spec fn after_events(e: VpnEngine, events: Seq<WorkerEvent>) -> VpnEngine
    decreases events.len(),
{
    if events.len() == 0 {
        e
    } else {
        let before = after_events(e, events.drop_last());
        match events.last() {
            WorkerEvent::Counted(stats) => VpnEngine { stats, ..before },
            WorkerEvent::Ended(outcome) => before.after_worker(outcome),
        }
    }
}

/// Whether that can happen: whatever a worker does, it has not ended before.
pub open spec fn can_happen(e: VpnEngine, events: Seq<WorkerEvent>) -> bool
    decreases events.len(),
{
    events.len() == 0 || {
        &&& can_happen(e, events.drop_last())
        &&& after_events(e, events.drop_last()).workers > 0
    }
}

proof fn lemma_events(e: VpnEngine, events: Seq<WorkerEvent>)
    requires
        e.wf(),
    ensures
        ({
            let end = after_events(e, events);
            &&& end.wf()
            &&& end.taken == e.taken
            &&& e.close ==> end.close
        }),
    decreases events.len(),
{
    if events.len() > 0 {
        lemma_events(e, events.drop_last());
    }
}

proof fn lemma_nothing_happens(e: VpnEngine, events: Seq<WorkerEvent>)
    requires
        e.workers == 0,
        can_happen(e, events),
    ensures
        events.len() == 0,
    decreases events.len(),
{
    if events.len() > 0 {
        lemma_nothing_happens(e, events.drop_last());
    }
}

/// A stop tells the workers to end, and is over once all of them have. From
/// then on nothing happens to the engine any more, so nothing is counted, and
/// unless its result was taken it says that it is stopped. Another stop changes
/// nothing, and has nobody to wait for.
pub proof fn a_stopped_engine_says_so(
    e: VpnEngine,
    events: Seq<WorkerEvent>,
    later: Seq<WorkerEvent>,
)
    requires
        e.wf(),
        can_happen(VpnEngine { close: true, ..e }, events),
        after_events(VpnEngine { close: true, ..e }, events).workers == 0,
        can_happen(after_events(VpnEngine { close: true, ..e }, events), later),
    ensures
        ({
            let end = after_events(VpnEngine { close: true, ..e }, events);
            &&& end.wf()
            &&& end == (VpnEngine { close: true, ..end })
            &&& !e.taken ==> status_of(end) == VpnEngineStatus::Stopped
            &&& after_events(end, later) == end
        }),
{
    let end = after_events(VpnEngine { close: true, ..e }, events);
    lemma_events(VpnEngine { close: true, ..e }, events);
    lemma_nothing_happens(end, later);
}

/// What comes off a device is what went onto it: the packet that the uplink
/// takes from what the downlink framed is the packet itself, whatever its
/// length and whether or not the device has headers. Only a packet without an
/// octet behind a header is none.
pub proof fn the_links_agree_on_the_frames(
    data: Seq<u8>,
    packet_information: bool,
    families: PacketFamilies,
)
    ensures
        payload(packet::framed(data, packet_information, families), packet_information) == data,
        lacks_payload(packet::framed(data, packet_information, families), packet_information)
            <==> packet_information && data.len() == 0,
{
    let f = packet::framed(data, packet_information, families);
    assert(payload(f, packet_information) =~= data);
}

/// The first eight packets of a direction are described, and no more.
pub proof fn eight_packets_are_described(samples: usize)
    ensures
        samples < 8 ==> sampled(samples) == samples + 1,
        samples >= 8 ==> sampled(samples) == samples,
{
}

/// Each worker that ends counts once, an error asks the other one to end, and
/// neither the counters nor a result that is there are touched.
pub proof fn a_worker_ends_once(e: VpnEngine, outcome: AtrResult<usize>)
    ensures
        ({
            let end = e.after_worker(outcome);
            &&& e.workers > 0 ==> end.workers == e.workers - 1
            &&& e.workers == 0 ==> end.workers == 0
            &&& end.stats == e.stats
            &&& end.taken == e.taken
            &&& end.close == (e.close || outcome is Err)
            &&& end.result == if e.result is None {
                Some(outcome)
            } else {
                e.result
            }
        }),
{
}

/// The complaint about a part that did not start says which one.
pub proof fn every_part_is_told_apart(cause: Seq<char>)
    ensures
        part_text(EnginePart::TunDevice) + cause == "failed to create TUN device: "@ + cause,
        part_text(EnginePart::Uplink) + cause == "failed to start L3 uplink worker: "@ + cause,
        part_text(EnginePart::Downlink) + cause == "failed to start L3 downlink worker: "@ + cause,
        part_text(EnginePart::TransportStack) + cause == "failed to start TUN transport stack: "@
            + cause,
{
}

} // verus!
