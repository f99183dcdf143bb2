use nulconnect_helper::error::{AtrError, ErrorCode};
use nulconnect_helper::ipv4::Ipv4Addr;
use nulconnect_helper::packet::PacketFamilies;
use nulconnect_helper::traffic::VpnEngineTrafficStats;
use nulconnect_helper::vpn_engine::{
    first_virtual_ip, start_error, ClientConfig, DeviceRead, DeviceWrite, Downlink, DownlinkStep,
    EngineCommand, EnginePart, Uplink, UplinkStep, VpnEngine, VpnEngineConfig, VpnEngineStatus,
};

fn client() -> ClientConfig {
    ClientConfig {
        server_host: "vpn.example".into(),
        server_port: 443,
        user_agent: "agent".into(),
        connect_timeout_ms: 1,
        io_timeout_ms: 2,
        node_probe_timeout_ms: 3,
        allow_insecure_tls: false,
        bind_interface: None,
        auto_detect_interface: false,
    }
}

#[test]
fn a_configuration_has_its_defaults() {
    let config = VpnEngineConfig::with_client(client());
    assert_eq!(config.mtu, 1400);
    assert!(!config.packet_information);
    assert!(config.exit_on_fatal_error);
    assert!(config.session.cookies.is_empty());
    assert_eq!(config.client.server_port, 443);
    assert!(config.tun_name.is_none());
}

#[test]
fn resources_are_looked_up_at_the_server_by_default() {
    let mut config = VpnEngineConfig::with_client(client());
    assert_eq!(config.resource_host(), "vpn.example");
    config.service_host = "portal.example".into();
    assert_eq!(config.resource_host(), "portal.example");
}

#[test]
fn the_device_is_a_host_behind_the_gateway() {
    let mut config = VpnEngineConfig::with_client(client());
    config.tun_name = Some(String::new());
    let plan = config.tun_device_plan(Ipv4Addr::new(10, 1, 2, 3));
    assert_eq!(plan.name, None);
    assert_eq!(
        (plan.address.as_str(), plan.prefix, plan.gateway.as_str(), plan.mtu),
        ("10.1.2.3", 32, "10.0.0.1", 1400)
    );
    config.tun_name = Some("utun9".into());
    assert_eq!(config.tun_device_plan(Ipv4Addr::new(10, 1, 2, 3)).name.as_deref(), Some("utun9"));
}

#[test]
fn the_first_address_is_taken() {
    let a = Ipv4Addr::new(10, 0, 0, 7);
    let b = Ipv4Addr::new(10, 0, 0, 8);
    assert_eq!(first_virtual_ip(&[a, b]).unwrap(), a);
    let e = first_virtual_ip(&[]).unwrap_err();
    assert_eq!(e.to_text(), "network failed: server did not return L3 virtual IP");
}

#[test]
fn parts_that_do_not_start_say_why() {
    let e = start_error(EnginePart::TunDevice, "no permission");
    assert_eq!(e.to_text(), "network failed: failed to create TUN device: no permission");
    let e = start_error(EnginePart::Uplink, "x");
    assert_eq!(e.to_text(), "internal error: failed to start L3 uplink worker: x");
    let e = start_error(EnginePart::Downlink, "x");
    assert_eq!(e.to_text(), "internal error: failed to start L3 downlink worker: x");
    let e = start_error(EnginePart::TransportStack, "x");
    assert_eq!(e.to_text(), "internal error: failed to start TUN transport stack: x");
}

#[test]
fn the_first_worker_decides_the_result() {
    let mut engine = VpnEngine::start();
    assert_eq!(engine.status(), VpnEngineStatus::Running);
    let (none, commands) = engine.take_result();
    assert!(none.is_none() && commands.is_empty() && !engine.close);
    engine.worker_ended(Err(AtrError::NetworkFailed("gone".into())));
    engine.worker_ended(Ok(7));
    assert!(engine.close);
    assert_eq!(engine.status(), VpnEngineStatus::Stopped);
    let (result, commands) = engine.take_result();
    assert_eq!(result.unwrap().unwrap_err().to_text(), "network failed: gone");
    assert_eq!(
        commands,
        vec![EngineCommand::Interrupt, EngineCommand::CloseTunnel, EngineCommand::JoinWorkers]
    );
    assert_eq!(engine.status(), VpnEngineStatus::Running);
}

#[test]
fn a_quiet_end_closes_nothing() {
    let mut engine = VpnEngine::start();
    engine.worker_ended(Ok(3));
    assert!(!engine.close);
    engine.set_result(Ok(9));
    assert_eq!(engine.take_result().0.unwrap().unwrap(), 3);
}

#[test]
fn cancelling_wakes_and_closes() {
    let mut engine = VpnEngine::start();
    assert_eq!(engine.cancel(), vec![EngineCommand::Interrupt, EngineCommand::CloseTunnel]);
    assert!(engine.close);
    assert_eq!(engine.stop().len(), 3);
}

#[test]
fn a_stop_is_over_once_both_workers_have_ended() {
    let mut engine = VpnEngine::start();
    assert_eq!(engine.workers, 2);
    engine.stop();
    assert_eq!(engine.status(), VpnEngineStatus::Running);
    engine.worker_ended(Ok(3));
    engine.worker_ended(Ok(4));
    assert_eq!((engine.workers, engine.taken), (0, false));
    assert_eq!(engine.status(), VpnEngineStatus::Stopped);
    let stats = engine.traffic_stats();
    engine.stop();
    assert_eq!((engine.workers, engine.status()), (0, VpnEngineStatus::Stopped));
    assert_eq!(engine.traffic_stats(), stats);
    assert_eq!(engine.take_result().0.unwrap().unwrap(), 3);
    assert!(engine.taken);
}

#[test]
fn the_uplink_writes_what_the_device_delivers() {
    let mut uplink = Uplink::new(true, true);
    match uplink.on_read(DeviceRead::Packet(vec![0, 0, 8, 0, 0x45, 1, 2])) {
        UplinkStep::Write { packet, sample } => {
            assert_eq!(packet, vec![0x45, 1, 2]);
            assert_eq!(
                sample.unwrap(),
                "uplink-read: sample #1 tun_len=7 ip_len=3 pi=00 00 08 00 ip_version=4 short_len=3"
            );
        }
        other => panic!("{other:?}"),
    }
    let mut stats = VpnEngineTrafficStats::default();
    assert!(matches!(uplink.on_written(Ok(3), &mut stats), UplinkStep::Again));
    assert_eq!((stats.upload_bytes, stats.upload_packets), (3, 1));
    assert_eq!(uplink.finish().unwrap(), 1);
}

#[test]
fn the_uplink_reads_on_where_nothing_is_wrong() {
    let mut uplink = Uplink::new(false, true);
    assert!(matches!(uplink.on_read(DeviceRead::Packet(vec![])), UplinkStep::Again));
    assert!(matches!(uplink.on_read(DeviceRead::WouldBlock), UplinkStep::Wait));
    assert!(matches!(uplink.on_read(DeviceRead::Interrupted), UplinkStep::Stop));
    let mut stats = VpnEngineTrafficStats::default();
    let lost = Err(AtrError::NotFound("route".into()));
    assert!(matches!(uplink.on_written(lost, &mut stats), UplinkStep::Again));
    assert_eq!(stats, VpnEngineTrafficStats::default());
    assert_eq!(uplink.finish().unwrap(), 0);
}

#[test]
fn fatal_errors_end_the_uplink_only_where_they_are_fatal() {
    for fatal in [false, true] {
        let mut uplink = Uplink::new(true, fatal);
        let mut stats = VpnEngineTrafficStats::default();
        let short = uplink.on_read(DeviceRead::Packet(vec![1, 2, 3]));
        let write = uplink.on_written(Err(AtrError::InvalidState("x".into())), &mut stats);
        if fatal {
            match (short, write) {
                (UplinkStep::Fail(a), UplinkStep::Fail(b)) => {
                    assert_eq!(a.code(), ErrorCode::InvalidArgument);
                    assert_eq!(b.to_text(), "invalid state: x");
                }
                other => panic!("{other:?}"),
            }
        } else {
            assert!(matches!((short, write), (UplinkStep::Again, UplinkStep::Again)));
        }
        match uplink.on_read(DeviceRead::Failed("broken".into())) {
            UplinkStep::Fail(e) => assert_eq!(e.to_text(), "network failed: broken"),
            other => panic!("{other:?}"),
        }
    }
}

#[test]
fn the_downlink_counts_what_the_device_took() {
    let families = PacketFamilies { ipv4: 2, ipv6: 30 };
    let mut downlink = Downlink::new(true, true, families);
    let packet = vec![0x60, 9];
    let framed = match downlink.on_read(Ok(packet.clone()), false) {
        DownlinkStep::Send(framed) => framed,
        other => panic!("{other:?}"),
    };
    assert_eq!(framed, vec![0, 0, 0, 30, 0x60, 9]);
    let mut stats = VpnEngineTrafficStats::default();
    let (step, sample) = downlink.on_sent(DeviceWrite::Sent, &packet, &framed, &mut stats);
    assert!(matches!(step, DownlinkStep::Again));
    assert_eq!(
        sample.unwrap(),
        "downlink: sample #1 tun_len=6 ip_len=2 pi=00 00 00 1e ip_version=6 short_len=2"
    );
    assert_eq!((stats.download_bytes, stats.download_packets), (2, 1));
    let (step, _) = downlink.on_sent(DeviceWrite::WouldBlock, &packet, &framed, &mut stats);
    assert!(matches!(step, DownlinkStep::Wait));
    assert_eq!(stats.download_packets, 1);
    assert_eq!(downlink.finish().unwrap(), 1);
}

#[test]
fn errors_of_the_downlink() {
    let families = PacketFamilies { ipv4: 2, ipv6: 30 };
    let lost = || Err(AtrError::NetworkFailed("lost".into()));
    let mut strict = Downlink::new(false, true, families);
    let mut lenient = Downlink::new(false, false, families);
    let mut stats = VpnEngineTrafficStats::default();
    assert!(matches!(strict.on_read(lost(), true), DownlinkStep::Stop));
    assert!(matches!(lenient.on_read(lost(), false), DownlinkStep::Pause));
    match strict.on_read(lost(), false) {
        DownlinkStep::Fail { error, close_tunnel } => {
            assert_eq!(error.to_text(), "network failed: lost");
            assert!(!close_tunnel);
        }
        other => panic!("{other:?}"),
    }
    let failed = || DeviceWrite::Failed("full".into());
    match strict.on_sent(failed(), &[], &[], &mut stats).0 {
        DownlinkStep::Fail { error, close_tunnel } => {
            assert_eq!(error.to_text(), "network failed: full");
            assert!(close_tunnel);
        }
        other => panic!("{other:?}"),
    }
    assert!(matches!(lenient.on_sent(failed(), &[], &[], &mut stats).0, DownlinkStep::Again));
    assert_eq!(stats, VpnEngineTrafficStats::default());
}

#[test]
fn counters_wrap_around() {
    let mut stats = VpnEngineTrafficStats::default();
    stats.upload_bytes = u64::MAX;
    stats.add_upload_bytes(3);
    assert_eq!(stats.upload_bytes, 2);
    stats.download_packets = u64::MAX;
    stats.add_download_packet();
    assert_eq!(stats.download_packets, 0);
    stats.add_download_bytes(5);
    stats.add_upload_packet();
    assert_eq!((stats.download_bytes, stats.upload_packets), (5, 1));
}
