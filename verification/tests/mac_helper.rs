use nulconnect_helper::error::{AtrError, AtrResult};
use nulconnect_helper::helper::{
    client_config, descriptor_limit, diagnostic_line, engine_config, join_path,
    legacy_tun_network_snapshot_path, node_resource_bytes, parse_cli, required_path,
    session_material, state_file_path, HelperClientConfig, HelperCli, HelperConfig,
    HelperCookieRecord, HelperSessionMaterial, StateFile,
};
use nulconnect_helper::helper_runtime::{
    cleanup_after_failure, cleanup_after_stop, end_report, handle_request, is_blank_line,
    plain_report, reply_to, reply_to_garbage, resets_dns, run_legacy_engine, serve,
    wait_for_tun_setup, write_response, AcceptEvent, Cleanup, ClientStep, HelperCommand,
    HelperRuntime, LegacyPoll, RequestStep, ServeStep, SetupWait, StartDecision, StartFlow,
    StartStep, TunPhase, TunStart, WriteFailure,
};
use nulconnect_helper::networksetup::ProxyEndpoint;

fn config(resources: &str) -> HelperConfig {
    HelperConfig {
        client: HelperClientConfig {
            server_host: "vpn.example".into(),
            server_port: 443,
            user_agent: "agent".into(),
            connect_timeout_ms: 1,
            io_timeout_ms: 2,
            node_probe_timeout_ms: 3,
            allow_insecure_tls: true,
        },
        session: HelperSessionMaterial {
            username: "u".into(),
            sid: "s".into(),
            device_id: "d".into(),
            connection_id: "c".into(),
            sign_key_hex: "k".into(),
            cookies: vec![HelperCookieRecord {
                host: "h".into(),
                scheme: "https".into(),
                name: "n".into(),
                value: "v".into(),
            }],
        },
        resource_bytes: resources.into(),
        service_host: "portal.example".into(),
        tun_name: Some("utun8".into()),
        dns_addr: "10.0.0.53".into(),
        managed_route_cidrs: vec![],
        managed_domains: vec![],
        mtu: 1380,
        setup_routes: true,
        exit_on_fatal_error: true,
    }
}

#[test]
fn a_configuration_becomes_an_engine_configuration() {
    let engine = config("aGVsbG8=").into_vpn_engine_config().unwrap();
    assert_eq!(engine.resource_bytes, b"hello");
    assert_eq!(engine.client.server_host, "vpn.example");
    assert!(engine.client.allow_insecure_tls);
    assert_eq!(engine.session.username, "u");
    assert_eq!(engine.session.cookies[0].value, "v");
    assert_eq!(engine.service_host, "portal.example");
    assert_eq!(engine.tun_name.as_deref(), Some("utun8"));
    assert_eq!(engine.mtu, 1380);
    assert!(!engine.packet_information && engine.exit_on_fatal_error);
    let mut unnamed = config("");
    unnamed.tun_name = Some(String::new());
    let engine = unnamed.into_vpn_engine_config().unwrap();
    assert!(engine.tun_name.is_none() && engine.resource_bytes.is_empty());
    assert_eq!(client_config(&config("").client).node_probe_timeout_ms, 3);
    assert_eq!(session_material(&config("").session).sign_key_hex, "k");
}

#[test]
fn resources_that_are_not_encoded_are_refused() {
    let e = config("a*b=").into_vpn_engine_config().unwrap_err();
    assert_eq!(
        e.to_text(),
        "parse failed: invalid resource_bytes: Invalid symbol 42, offset 1."
    );
    let e = config("a*b=").node_resources().unwrap_err();
    assert_eq!(
        e.to_text(),
        "invalid argument: invalid resource bytes: Invalid symbol 42, offset 1."
    );
    assert_eq!(config("AQID").node_resources().unwrap(), [1, 2, 3]);
    let e = engine_config(&config(""), Err("x".into())).unwrap_err();
    assert_eq!(e.to_text(), "parse failed: invalid resource_bytes: x");
    assert_eq!(engine_config(&config(""), Ok(vec![9])).unwrap().resource_bytes, [9]);
    assert_eq!(node_resource_bytes(Ok(vec![4])).unwrap(), [4]);
    let e = node_resource_bytes(Err("y".into())).unwrap_err();
    assert_eq!(e.to_text(), "invalid argument: invalid resource bytes: y");
}

fn cli(args: &[&str]) -> AtrResult<HelperCli> {
    parse_cli(&args.iter().map(|s| s.to_string()).collect())
}

#[test]
fn commands_are_told_apart() {
    match cli(&["run", "a", "b", "c"]).unwrap() {
        HelperCli::Run { config_path, state_path, stop_path } => {
            assert_eq!((config_path.as_str(), state_path.as_str(), stop_path.as_str()), ("a", "b", "c"))
        }
        _ => panic!("not a run"),
    }
    match cli(&["serve"]).unwrap() {
        HelperCli::Serve { socket_path, state_dir } => {
            assert_eq!(socket_path, "/var/run/nulconnect-helper.sock");
            assert_eq!(state_dir, "/Library/Application Support/NulConnect");
        }
        _ => panic!("not a service"),
    }
    match cli(&["serve", "s", "d", "more"]).unwrap() {
        HelperCli::Serve { socket_path, state_dir } => {
            assert_eq!((socket_path.as_str(), state_dir.as_str()), ("s", "d"))
        }
        _ => panic!("not a service"),
    }
    assert!(matches!(cli(&["version"]).unwrap(), HelperCli::Version));
    let text = |args: &[&str]| match cli(args) {
        Err(e) => e.to_text(),
        Ok(_) => panic!("accepted"),
    };
    assert_eq!(text(&[]), "invalid argument: missing command");
    assert_eq!(text(&["fly"]), "invalid argument: unsupported command: fly");
    assert_eq!(text(&["run"]), "invalid argument: missing config path");
    assert_eq!(text(&["run", "a"]), "invalid argument: missing state path");
    assert_eq!(text(&["run", "a", "b"]), "invalid argument: missing stop path");
    assert_eq!(required_path(Some("p".into()), "x").unwrap(), "p");
    assert_eq!(required_path(None, "x").unwrap_err().to_text(), "invalid argument: missing x");
}

#[test]
fn state_files_have_their_places() {
    assert_eq!(join_path("/a", "b"), "/a/b");
    assert_eq!(join_path("/a/", "b"), "/a/b");
    assert_eq!(state_file_path(StateFile::Tun, "/s"), "/s/tun-state.json");
    assert_eq!(
        state_file_path(StateFile::TunNetworkSnapshot, "/s"),
        "/s/tun-network-snapshot.json"
    );
    assert_eq!(
        state_file_path(StateFile::SystemProxySnapshot, "/s"),
        "/s/system-proxy-snapshot.json"
    );
    assert_eq!(
        state_file_path(StateFile::ManagedRoutes, "/s"),
        "/Library/Application Support/NulConnect/tun-managed-routes.json"
    );
    assert_eq!(
        state_file_path(StateFile::ScopedDns, "/s"),
        "/Library/Application Support/NulConnect/tun-scoped-dns.json"
    );
    assert_eq!(
        legacy_tun_network_snapshot_path(&Some("/d".into())),
        "/d/tun-network-snapshot.json"
    );
    assert_eq!(legacy_tun_network_snapshot_path(&None), "/tmp/tun-network-snapshot.json");
}

#[test]
fn the_descriptor_limit_is_raised_to_what_is_allowed() {
    assert_eq!(descriptor_limit(256, 10_000), Some(4096));
    assert_eq!(descriptor_limit(256, 1000), Some(1000));
    assert_eq!(descriptor_limit(1000, 1000), None);
    assert_eq!(descriptor_limit(5000, 10_000), None);
}

#[test]
fn diagnostics_show_the_first_lines() {
    assert_eq!(diagnostic_line(" a\nb \n", "e"), "a | b");
    assert_eq!(diagnostic_line(" \n", " e1\ne2"), "e1 | e2");
    let many: Vec<String> = (0..30).map(|i| i.to_string()).collect();
    assert_eq!(diagnostic_line(&many.join("\n"), ""), many[..24].join(" | "));
}

#[test]
fn only_one_start_at_a_time() {
    let mut runtime = HelperRuntime::new();
    assert!(runtime.start_tun().is_ok());
    let e = runtime.start_tun().unwrap_err();
    assert_eq!(e.to_text(), "invalid state: tun is already starting");
    assert!(matches!(runtime.status(None).0.phase, TunPhase::Starting));
    assert!(runtime.check_idle().is_ok());
    runtime.engine_started();
    assert_eq!(
        runtime.check_idle().unwrap_err().to_text(),
        "invalid state: tun is already running"
    );
    assert!(runtime.start_ended(&Ok(())).is_none());
    assert_eq!(
        runtime.start_tun().unwrap_err().to_text(),
        "invalid state: tun is already running"
    );
    assert!(runtime.asks_engine());
    let (report, write) = runtime.status(None);
    assert!(matches!(report.phase, TunPhase::Running) && !write);
    let (report, write) = runtime.status(Some(Ok(3)));
    assert!(write && report.sessions == Some(3));
    assert_eq!(report.phase.name(), "stopped");
    assert!(!runtime.asks_engine());
    assert!(matches!(runtime.status(None).0.phase, TunPhase::Stopped));
}

#[test]
fn a_failed_start_is_remembered_until_a_stop() {
    let mut runtime = HelperRuntime::new();
    runtime.start_tun().unwrap();
    let report = runtime.start_ended(&Err(AtrError::Internal("x".into()))).unwrap();
    assert_eq!(report.message.as_deref(), Some("internal error: x"));
    let (report, write) = runtime.status(None);
    assert!(!write);
    assert_eq!((report.phase.name(), report.message.as_deref()), ("failed", Some("internal error: x")));
    assert!(!runtime.stop_tun());
    assert!(runtime.tun_failure.is_none());
    runtime.engine_started();
    assert!(runtime.stop_tun());
    runtime.shut_down();
    assert!(runtime.shutting_down);
    let report = end_report(&Err(AtrError::NotFound("gone".into())));
    assert_eq!((report.phase.name(), report.message.as_deref()), ("failed", Some("not found: gone")));
    assert_eq!(plain_report(TunPhase::Starting).phase.name(), "starting");
}

#[test]
fn a_start_goes_through_its_steps() {
    let mut start = TunStart::new(StartFlow::Service);
    let mut steps = vec![start.step];
    let done = loop {
        match start.start_tun_worker(Ok(())) {
            StartDecision::Continue(step) => steps.push(step),
            other => break other,
        }
    };
    assert!(matches!(done, StartDecision::Done));
    assert_eq!(
        steps,
        [
            StartStep::CheckIdle,
            StartStep::SnapshotNetwork,
            StartStep::Configure,
            StartStep::StartEngine,
            StartStep::SetupRoutes,
            StartStep::WaitForSetup,
            StartStep::Finish,
        ]
    );
    assert_eq!(TunStart::new(StartFlow::Legacy).step, StartStep::SnapshotNetwork);
}

#[test]
fn failures_are_cleaned_up() {
    let mut start = TunStart::new(StartFlow::Service);
    start.step = StartStep::SetupRoutes;
    match start.start_tun_worker(Err(AtrError::Internal("x".into()))) {
        StartDecision::Fail { cleanup, error } => {
            assert_eq!(error.to_text(), "internal error: x");
            assert_eq!(
                cleanup,
                [
                    Cleanup::CleanupRoutes,
                    Cleanup::CleanupResolvers,
                    Cleanup::RemoveGlobalDns,
                    Cleanup::RestoreSnapshot,
                    Cleanup::FlushDns,
                    Cleanup::StopEngine,
                ]
            );
        }
        _ => panic!("went on"),
    }
    assert_eq!(
        cleanup_after_failure(StartFlow::Service, StartStep::StartEngine),
        [Cleanup::RestoreSnapshotQuietly, Cleanup::CleanupRoutes, Cleanup::WriteFailedState]
    );
    assert_eq!(
        cleanup_after_failure(StartFlow::Legacy, StartStep::StartEngine),
        [Cleanup::RestoreSnapshotQuietly, Cleanup::CleanupRoutes]
    );
    assert_eq!(
        cleanup_after_failure(StartFlow::Legacy, StartStep::WaitForSetup)[0],
        Cleanup::CancelEngine
    );
    assert!(cleanup_after_failure(StartFlow::Service, StartStep::Configure).is_empty());
    assert_eq!(cleanup_after_stop(StartFlow::Service, true)[0], Cleanup::CancelEngine);
    assert_eq!(cleanup_after_stop(StartFlow::Legacy, true)[0], Cleanup::StopEngine);
    assert_eq!(cleanup_after_stop(StartFlow::Service, false)[0], Cleanup::CleanupRoutes);
}

#[test]
fn a_missing_snapshot_resets_nothing_in_the_service() {
    let missing = || Err(AtrError::NotFound("x".into()));
    assert!(!resets_dns(StartFlow::Service, &Ok(())));
    assert!(!resets_dns(StartFlow::Service, &missing()));
    assert!(resets_dns(StartFlow::Legacy, &missing()));
    assert!(resets_dns(StartFlow::Service, &Err(AtrError::Internal("x".into()))));
}

#[test]
fn the_legacy_engine_runs_until_it_ends_or_is_stopped() {
    assert!(matches!(run_legacy_engine(true, Some(Ok(1))), LegacyPoll::Stop));
    assert!(matches!(run_legacy_engine(false, None), LegacyPoll::Wait));
    match run_legacy_engine(false, Some(Ok(4))) {
        LegacyPoll::Ended { report, outcome } => {
            assert_eq!(report.sessions, Some(4));
            assert!(outcome.is_ok());
        }
        _ => panic!("still runs"),
    }
    match run_legacy_engine(false, Some(Err(AtrError::Internal("x".into())))) {
        LegacyPoll::Ended { report, outcome } => {
            assert_eq!(report.message.as_deref(), Some("internal error: x"));
            assert_eq!(outcome.unwrap_err().to_text(), "internal error: x");
        }
        _ => panic!("still runs"),
    }
}

#[test]
fn the_setup_is_waited_for() {
    assert!(matches!(wait_for_tun_setup(false, false, false, false), SetupWait::Ready));
    assert!(matches!(wait_for_tun_setup(true, true, true, true), SetupWait::Ready));
    assert!(matches!(wait_for_tun_setup(true, true, true, false), SetupWait::Again));
    assert!(matches!(wait_for_tun_setup(true, true, false, true), SetupWait::Again));
    match wait_for_tun_setup(true, false, true, true) {
        SetupWait::TimedOut(e) => assert_eq!(
            e.to_text(),
            "network failed: TUN setup did not install expected managed routes/DNS"
        ),
        _ => panic!("still waits"),
    }
}

#[test]
fn clients_are_served_until_the_shutdown() {
    assert!(matches!(serve(true, AcceptEvent::Client), ServeStep::Stop));
    assert!(matches!(serve(false, AcceptEvent::Client), ServeStep::Serve));
    assert!(matches!(serve(false, AcceptEvent::WouldBlock), ServeStep::Wait));
    match serve(false, AcceptEvent::Failed(AtrError::Internal("x".into()))) {
        ServeStep::Fail(e) => assert_eq!(e.to_text(), "internal error: x"),
        _ => panic!("went on"),
    }
    assert!(matches!(write_response(None), ClientStep::Continue));
    for gone in [
        WriteFailure::BrokenPipe,
        WriteFailure::ConnectionReset,
        WriteFailure::ConnectionAborted,
        WriteFailure::NotConnected,
    ] {
        assert!(matches!(write_response(Some(gone)), ClientStep::Gone));
    }
    assert!(matches!(write_response(Some(WriteFailure::Other)), ClientStep::Fail));
}

#[test]
fn requests_have_their_steps() {
    let of = |command: &HelperCommand| {
        let (steps, word) = handle_request(command);
        (steps, word.unwrap_or_default())
    };
    assert_eq!(of(&HelperCommand::Version), (vec![RequestStep::ReportVersion], String::new()));
    assert_eq!(of(&HelperCommand::Status), (vec![RequestStep::ReportStatus], String::new()));
    assert_eq!(of(&HelperCommand::StopTun), (vec![RequestStep::StopTun], "stopped".into()));
    let start = HelperCommand::StartTun { config: config("") };
    assert_eq!(of(&start), (vec![RequestStep::StartTun], "starting".into()));
    let proxy = HelperCommand::SetSystemProxy {
        endpoint: ProxyEndpoint { host: "::1".into(), port: 1 },
        server_host: String::new(),
    };
    assert_eq!(of(&proxy).0, [RequestStep::SetSystemProxy]);
    assert_eq!(
        of(&HelperCommand::RestoreSystemProxy),
        (vec![RequestStep::RestoreSystemProxy], "restored".into())
    );
    assert_eq!(
        of(&HelperCommand::Cleanup),
        (vec![RequestStep::StopTunQuietly, RequestStep::RestoreSystemProxy], "cleaned".into())
    );
    assert_eq!(
        of(&HelperCommand::Shutdown),
        (vec![RequestStep::StopTunQuietly, RequestStep::ShutDown], "shutting_down".into())
    );
}

#[test]
fn replies_carry_the_error() {
    let reply = reply_to("7".into(), None);
    assert!(reply.ok && reply.error.is_none() && reply.id == "7");
    let reply = reply_to("8".into(), Some(AtrError::InvalidState("busy".into())));
    let error = reply.error.unwrap();
    assert_eq!((error.code.as_str(), error.message.as_str()), ("invalidstate", "invalid state: busy"));
    let reply = reply_to_garbage("eof".into());
    let error = reply.error.unwrap();
    assert_eq!((error.code.as_str(), error.message.as_str()), ("parse_failed", "eof"));
    assert!(!reply.ok && reply.id.is_empty());
    assert!(is_blank_line(" \t"));
    assert!(!is_blank_line("{}"));
}
