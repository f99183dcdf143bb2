use nulconnect_helper::error::AtrError;
use nulconnect_helper::helper::{HelperClientConfig, HelperCookieRecord, HelperSessionMaterial};
use nulconnect_helper::ipv4::Ipv4Addr;
use nulconnect_helper::traffic::VpnEngineTrafficStats;
use nulconnect_helper::windows_ipc::{
    answer_of, call, call_answer, command_named, config_missing, default_exit_on_fatal_error,
    default_mtu, engine_config, error_code_of, handle_request, network_plan, network_state_path,
    read_message, require_adapter, resource_error, spawn_monitor, start_worker, CallStep,
    MonitorStep, PipeCommand, PipeServer, PipeStep, ReadStep, StepOutcome, TunStatus, WindowsRuntime, WireConfig, WorkerCleanup,
    WorkerDecision, WorkerStep, MAX_REQUEST_BYTES,
};
use nulconnect_helper::windows_plan::{BestRoute, PersistedNetworkState};
use nulconnect_helper::windows_service_host::{
    check_wintun, cli_main, control_answer, copies, copy_with_retry, has_work, host_exit, install,
    install_dir, option_value, removals, report, retries_removal, run_console, run_dispatcher,
    run_service, same_path, service_settings, stage_report, uninstall, usage, wait_for_state,
    ControlEvent, CopyStep, HostCommand, InstallDecision, InstallFacts, InstallStep, ServiceStage,
    ServiceStep, UninstallDecision, UninstallStep, WaitStep,
};

fn config(resources: &str, name: Option<&str>) -> WireConfig {
    WireConfig {
        client: HelperClientConfig {
            server_host: "vpn.example".into(),
            server_port: 443,
            user_agent: "agent".into(),
            connect_timeout_ms: 1,
            io_timeout_ms: 2,
            node_probe_timeout_ms: 3,
            allow_insecure_tls: false,
        },
        session: HelperSessionMaterial {
            username: "u".into(),
            sid: "s".into(),
            device_id: "d".into(),
            connection_id: "c".into(),
            sign_key_hex: "k".into(),
            cookies: vec![HelperCookieRecord {
                host: "h".into(),
                scheme: "https".into(),
                name: "n".into(),
                value: "v".into(),
            }],
        },
        resource_bytes: resources.into(),
        service_host: "portal.example".into(),
        tun_name: name.map(str::to_string),
        mtu: default_mtu(),
        exit_on_fatal_error: default_exit_on_fatal_error(),
        setup_routes: true,
        dns_addr: String::new(),
        managed_route_cidrs: vec![],
        managed_domains: vec![],
    }
}

#[test]
fn a_wire_configuration_becomes_an_engine_configuration() {
    let engine = config("aGVsbG8=", Some(" ")).vpn_engine_config().unwrap();
    assert_eq!(engine.resource_bytes, b"hello");
    assert_eq!(engine.tun_name.as_deref(), Some("NulConnect"));
    assert_eq!((engine.mtu, engine.exit_on_fatal_error), (1400, true));
    assert!(engine.client.auto_detect_interface && engine.client.bind_interface.is_none());
    assert_eq!(engine.session.cookies[0].name, "n");
    let engine = config("", Some("Vpn")).vpn_engine_config().unwrap();
    assert_eq!(engine.tun_name.as_deref(), Some("Vpn"));
    let e = config("a*b=", None).vpn_engine_config().unwrap_err();
    assert_eq!(e, "invalid resource_bytes: Invalid symbol 42, offset 1.");
    assert_eq!(engine_config(&config("", None), Ok(vec![1])).unwrap().resource_bytes, [1]);
    let e = engine_config(&config("", None), Err("x".into())).unwrap_err();
    assert_eq!(e, "invalid resource_bytes: x");
    assert_eq!(resource_error("x"), "failed to parse resource for Windows routes: x");
}

fn network(nrpt: bool) -> PersistedNetworkState {
    let mut network = PersistedNetworkState::empty();
    network.nrpt = nrpt;
    network
}

#[test]
fn a_tunnel_starts_runs_and_stops() {
    let mut runtime = WindowsRuntime::new();
    let generation = runtime.begin_start().unwrap();
    assert_eq!(runtime.begin_start(), Err("VPN is already starting".into()));
    assert!(runtime.is_current(generation));
    let ip = Some(Ipv4Addr::new(10, 0, 0, 2));
    assert!(runtime.start_succeeded(generation, network(true), 4, ip).is_none());
    assert_eq!(runtime.begin_start(), Err("VPN is already running".into()));
    let mut stats = VpnEngineTrafficStats::default();
    stats.upload_bytes = 9;
    let report = runtime.status_report(Some(stats));
    assert_eq!((report.status.as_str(), report.adapter.as_str()), ("running", "NulConnect"));
    assert_eq!(report.virtual_ip.as_deref(), Some("10.0.0.2"));
    assert_eq!((report.routes, report.dns_namespaces, report.stats.upload_bytes), (0, 4, 9));
    runtime.begin_stop();
    assert_eq!(runtime.begin_start(), Err("VPN is stopping".into()));
    let (had, back) = runtime.stop();
    assert!(had && back.nrpt && !runtime.network.nrpt);
    assert_eq!(runtime.status, TunStatus::Stopping);
    runtime.end_stop();
    assert_eq!(runtime.status_report(None).status, "stopped");
    assert!(!runtime.shutdown_requested());
    runtime.shutdown();
    assert!(runtime.shutdown_requested());
    assert!(!runtime.is_current(generation));
}

#[test]
fn a_stop_overtakes_a_start() {
    let mut runtime = WindowsRuntime::new();
    let generation = runtime.begin_start().unwrap();
    runtime.begin_stop();
    assert!(!runtime.is_current(generation));
    let back = runtime.start_succeeded(generation, network(true), 1, None).unwrap();
    assert!(back.nrpt && !runtime.engine);
    runtime.start_failed(generation, "late".into());
    assert_eq!((runtime.status, runtime.message.as_deref()), (TunStatus::Stopping, None));
    assert!(runtime.engine_gone(generation).is_none());
}

#[test]
fn failures_are_told() {
    let mut runtime = WindowsRuntime::new();
    let generation = runtime.begin_start().unwrap();
    runtime.start_failed(generation, "no adapter".into());
    let report = runtime.status_report(None);
    assert_eq!((report.status.as_str(), report.message.as_deref()), ("failed", Some("no adapter")));
    let generation = runtime.begin_start().unwrap();
    assert!(runtime.start_succeeded(generation, network(true), 1, None).is_none());
    assert!(runtime.engine_gone(generation).unwrap().nrpt);
    assert_eq!(runtime.status, TunStatus::Running);
    assert!(!runtime.engine);
    runtime.engine_ended(Some(Err(AtrError::NetworkFailed("lost".into()))));
    assert_eq!(runtime.status_report(None).message.as_deref(), Some("network failed: lost"));
    runtime.engine_ended(Some(Ok(1)));
    assert_eq!((runtime.status, runtime.message.as_deref()), (TunStatus::Stopped, None));
    assert_eq!(TunStatus::Starting.as_str(), "starting");
    assert_eq!(TunStatus::Stopping.as_str(), "stopping");
}

#[test]
fn a_worker_cleans_up_behind_itself() {
    let mut step = WorkerStep::CheckCurrent;
    let mut steps = vec![step];
    loop {
        match start_worker(step, StepOutcome::Succeeded) {
            WorkerDecision::Continue(next) => {
                step = next;
                steps.push(next);
            }
            other => {
                assert!(matches!(other, WorkerDecision::Done));
                break;
            }
        }
    }
    assert_eq!(steps.len(), 9);
    assert_eq!(steps[6..8], [WorkerStep::InstallNetwork, WorkerStep::SaveNetwork]);
    assert_eq!(steps[4], WorkerStep::StartEngine);
    match start_worker(WorkerStep::CheckCurrent, StepOutcome::Overtaken) {
        WorkerDecision::Cancelled(cleanup) => assert!(cleanup.is_empty()),
        _ => panic!("went on"),
    }
    match start_worker(WorkerStep::Publish, StepOutcome::Overtaken) {
        WorkerDecision::Cancelled(cleanup) => {
            assert_eq!(cleanup, [WorkerCleanup::StopEngine, WorkerCleanup::UndoNetwork])
        }
        _ => panic!("went on"),
    }
    match start_worker(WorkerStep::InstallNetwork, StepOutcome::Failed("full".into())) {
        WorkerDecision::Fail { cleanup, message } => {
            assert_eq!(
                cleanup,
                [
                    WorkerCleanup::SaveNetwork,
                    WorkerCleanup::StopEngine,
                    WorkerCleanup::UndoNetwork
                ]
            );
            assert_eq!(message, "full");
        }
        _ => panic!("went on"),
    }
    assert!(matches!(
        start_worker(WorkerStep::SaveNetwork, StepOutcome::Failed("x".into())),
        WorkerDecision::Continue(WorkerStep::Publish)
    ));
    match start_worker(WorkerStep::FindAdapter, StepOutcome::Failed("x".into())) {
        WorkerDecision::Fail { cleanup, message } => {
            assert_eq!((cleanup, message), (vec![WorkerCleanup::StopEngine], "x".to_string()))
        }
        _ => panic!("went on"),
    }
    assert_eq!(spawn_monitor(false, true), MonitorStep::Retire);
    assert_eq!(spawn_monitor(true, true), MonitorStep::Collect);
    assert_eq!(spawn_monitor(true, false), MonitorStep::Wait);
    assert_eq!(require_adapter(Some(3)), Ok(3));
    assert_eq!(require_adapter(None), Err("Wintun adapter LUID is unavailable".into()));
    assert_eq!(network_state_path("C:\\s"), "C:\\s\\network-state.json");
}

#[test]
fn messages_are_put_together() {
    let mut message = Vec::new();
    assert!(matches!(read_message(&mut message, b"ab", false, true), ReadStep::More));
    assert!(matches!(read_message(&mut message, b"c", true, false), ReadStep::Done));
    assert_eq!(message, b"abc");
    assert!(matches!(read_message(&mut message, b"", false, false), ReadStep::Failed));
    let mut message = vec![0; MAX_REQUEST_BYTES];
    assert!(matches!(read_message(&mut message, b"", true, false), ReadStep::Done));
    assert!(matches!(read_message(&mut message, b"x", true, false), ReadStep::TooLarge));
}

#[test]
fn pipe_commands_are_answered() {
    let word = |name: &str| answer_of(&command_named(name, true)).unwrap_or_default();
    assert!(matches!(command_named("version", false), PipeCommand::Version));
    assert!(matches!(command_named("status", false), PipeCommand::Status));
    assert_eq!(word("start_tun"), "starting");
    assert_eq!(word("stop_tun"), "stopped");
    assert_eq!(word("cleanup"), "clean");
    assert_eq!(word("shutdown"), "stopping");
    assert_eq!(word("version"), "");
    match command_named("shutdown", false) {
        PipeCommand::Unsupported(text) => assert_eq!(text, "unsupported command: shutdown"),
        _ => panic!("allowed"),
    }
    assert!(matches!(command_named("", true), PipeCommand::Unsupported(_)));
    assert_eq!(error_code_of(&Err("bad".into())), "invalid_request");
    assert_eq!(error_code_of(&Ok(PipeCommand::StartTun)), "tun_start_failed");
    assert_eq!(error_code_of(&Ok(command_named("x", true))), "invalid_command");
    assert_eq!(config_missing(), "start_tun requires config");
}

#[test]
fn nothing_is_planned_without_routes() {
    let best = |last| BestRoute {
        destination: Ipv4Addr::new(10, 1, 0, last),
        interface_luid: 4,
        next_hop: Ipv4Addr::new(192, 168, 1, 1),
    };
    let mut config = config("", None);
    config.managed_route_cidrs = vec!["10.1.0.0/16".into()];
    config.managed_domains = vec!["corp".into()];
    config.dns_addr = "10.1.0.53".into();
    config.setup_routes = false;
    let plan = network_plan(&config, None, &vec![best(1)]);
    assert!(plan.tunnel_routes.is_empty() && plan.bypass_routes.is_empty());
    assert!(plan.dns_server.is_none() && plan.managed_domains.is_empty());
    config.setup_routes = true;
    let plan = network_plan(&config, None, &vec![best(1)]);
    assert_eq!((plan.tunnel_routes.len(), plan.bypass_routes.len()), (3, 1));
    assert_eq!(plan.managed_domains, ["corp"]);
}

#[test]
fn requests_are_read_from_their_octets() {
    let request = handle_request(br#"{"id":7,"command":"status"}"#, false);
    assert_eq!(request.id, "7");
    assert!(matches!(request.command, Ok(PipeCommand::Status)));
    assert!(request.config.is_none() && request.refusal().is_none());
    let request = handle_request(br#"{"command":"start_tun","config":{"mtu": 9},"id":"a\"b"}"#, false);
    assert_eq!(request.id, r#""a\"b""#);
    assert!(matches!(request.command, Ok(PipeCommand::StartTun)));
    assert_eq!(request.config.as_deref(), Some(r#"{"mtu":9}"#));
    let request = handle_request(br#"{"command":5}"#, true);
    assert_eq!(request.id, "null");
    assert_eq!(request.refusal().as_deref(), Some("unsupported command: "));
    let request = handle_request(b"[1, 2]", true);
    assert_eq!(request.id, "null");
    assert!(matches!(request.command, Ok(PipeCommand::Unsupported(_))));
    let request = handle_request(b"{", true);
    assert_eq!(request.id, "null");
    assert!(request.command.is_err());
    let request = handle_request(br#"{"id":1,"command":"shutdown"}"#, true);
    assert!(matches!(request.command, Ok(PipeCommand::Shutdown)));
}

#[test]
fn every_request_gets_its_answer() {
    let runtime = WindowsRuntime::new();
    let request = handle_request(br#"{"id":7,"command":"shutdown"}"#, false);
    let reply = request.reply(Ok("{}".into()));
    assert_eq!((reply.id.as_str(), reply.ok, reply.data), ("7", false, None));
    let error = reply.error.unwrap();
    assert_eq!(error.code, "invalid_command");
    assert_eq!(error.message, "unsupported command: shutdown");
    assert!(!runtime.shutdown_requested());
    let reply = handle_request(b"not json", true).reply(Ok("{}".into()));
    assert_eq!((reply.id.as_str(), reply.ok), ("null", false));
    let error = reply.error.unwrap();
    assert_eq!(error.code, "invalid_request");
    assert!(error.message.contains("line 1"));
    let request = handle_request(br#"{"id":null,"command":"start_tun"}"#, true);
    let error = request.reply(Ok("{}".into())).error.unwrap();
    assert_eq!((error.code.as_str(), error.message.as_str()), ("tun_start_failed", "start_tun requires config"));
    let request = handle_request(br#"{"id":[1],"command":"start_tun","config":{}}"#, true);
    let reply = request.reply(Err("busy".into()));
    assert_eq!(reply.id, "[1]");
    assert_eq!(reply.error.unwrap().message, "busy");
    let reply = request.reply(Ok(r#"{"status":"starting"}"#.into()));
    assert!(reply.ok && reply.error.is_none());
    assert_eq!(reply.data.as_deref(), Some(r#"{"status":"starting"}"#));
    assert_eq!(call_answer(b" {\"ok\" : true} "), Ok(r#"{"ok":true}"#.to_string()));
    assert!(call_answer(b"").is_err());
}

#[test]
fn only_the_first_pipe_is_the_first() {
    let mut server = PipeServer::new();
    assert_eq!(server.next_pipe(true), None);
    assert_eq!(server.next_pipe(false), Some(true));
    assert_eq!(server.serve(false, 5, false), PipeStep::Skip);
    assert_eq!(server.next_pipe(false), Some(false));
    assert_eq!(server.serve(false, 535, false), PipeStep::Serve);
    assert_eq!(server.serve(true, 0, false), PipeStep::Serve);
    assert_eq!(server.serve(true, 0, true), PipeStep::Stop);
    assert_eq!(call(true, false), CallStep::Proceed);
    assert_eq!(call(false, true), CallStep::Retry);
    assert_eq!(call(false, false), CallStep::GiveUp);
}

#[test]
fn the_host_reads_its_command() {
    let of = |arg: &str| cli_main(&Some(arg.to_string()));
    assert_eq!(of("Service"), HostCommand::Service);
    assert_eq!(of("serve"), HostCommand::Serve);
    for word in ["version", "--VERSION", "-v", "-V"] {
        assert_eq!(of(word), HostCommand::Version);
    }
    assert_eq!(of("INSTALL"), HostCommand::Install);
    assert_eq!(of("uninstall"), HostCommand::Uninstall);
    assert_eq!(of(""), HostCommand::Unnamed);
    assert_eq!(cli_main(&None), HostCommand::Unnamed);
    assert_eq!(of("fly"), HostCommand::Usage);
    assert_eq!(
        usage("1.0"),
        "nulconnect-helper 1.0\nusage: nulconnect-helper <service|serve|install|uninstall|version> [--result <file>]"
    );
    let args: Vec<String> =
        ["install", "--result", "a", "--result", "b"].iter().map(|s| s.to_string()).collect();
    assert_eq!(option_value(&args, "--result").as_deref(), Some("a"));
    assert_eq!(option_value(&args, "b"), None);
    assert_eq!(option_value(&args, "c"), None);
}

#[test]
fn outcomes_become_exit_codes() {
    let done = report(Ok(()));
    assert!(done.ok && done.code == 0 && done.message.is_none());
    let failed = report(Err("x".into()));
    assert_eq!((failed.code, failed.ok, failed.message.as_deref()), (1, false, Some("x")));
    assert_eq!(run_console(Ok(())).code, 0);
    let exit = run_console(Err("x".into()));
    assert_eq!((exit.code, exit.complaint.as_deref()), (1, Some("pipe server failed: x")));
    assert_eq!(run_dispatcher(Ok(())).code, 0);
    let exit = run_dispatcher(Err("x".into()));
    assert_eq!(exit.complaint.as_deref(), Some("NulConnect service dispatcher failed: x"));
    let code = |command, outcome: Result<(), &str>| {
        host_exit(command, outcome.map_err(|text| text.to_string()), "1.0").code
    };
    for command in [
        HostCommand::Service,
        HostCommand::Serve,
        HostCommand::Version,
        HostCommand::Install,
        HostCommand::Uninstall,
        HostCommand::Unnamed,
    ] {
        assert_eq!(code(command, Ok(())), 0);
    }
    for command in [HostCommand::Service, HostCommand::Serve, HostCommand::Install] {
        assert_eq!(code(command, Err("x")), 1);
    }
    assert_eq!(code(HostCommand::Unnamed, Err("x")), 2);
    assert_eq!(code(HostCommand::Usage, Ok(())), 2);
    assert_eq!(host_exit(HostCommand::Usage, Ok(()), "1.0").complaint, Some(usage("1.0")));
    let exit = host_exit(HostCommand::Install, Err("x".into()), "1.0");
    assert_eq!(exit.complaint.as_deref(), Some("x"));
    assert!(!has_work(HostCommand::Usage) && has_work(HostCommand::Install));
}

#[test]
fn the_service_lives_step_by_step() {
    let steps = run_service();
    assert_eq!(steps.len(), 11);
    assert_eq!(steps[0], ServiceStep::Report(ServiceStage::StartPending));
    assert_eq!(steps[4], ServiceStep::WaitForStop);
    assert_eq!(steps[10], ServiceStep::Report(ServiceStage::Stopped));
    let stop = |event| control_answer(event).stop;
    assert!(stop(ControlEvent::Stop) && stop(ControlEvent::Shutdown) && stop(ControlEvent::Preshutdown));
    assert!(!stop(ControlEvent::Interrogate) && control_answer(ControlEvent::Interrogate).known);
    assert!(!control_answer(ControlEvent::Other).known);
    let r = stage_report(ServiceStage::Running);
    assert!(r.accepts_stop && r.wait_secs == 0);
    assert_eq!(stage_report(ServiceStage::StartPending).wait_secs, 10);
    assert_eq!(stage_report(ServiceStage::StopPending).wait_secs, 20);
    assert!(!stage_report(ServiceStage::Stopped).accepts_stop);
}

#[test]
fn the_helper_has_its_place() {
    let dir = |s: &str| Some(s.to_string());
    assert_eq!(install_dir(&dir("D:\\P"), &dir("E:\\Q")), "D:\\P\\NulConnect\\Helper");
    assert_eq!(install_dir(&None, &dir("E:\\Q")), "E:\\Q\\NulConnect\\Helper");
    assert_eq!(install_dir(&None, &None), "C:\\Program Files\\NulConnect\\Helper");
    assert!(same_path(&dir("a"), &dir("a")));
    assert!(!same_path(&dir("a"), &dir("b")) && !same_path(&None, &None));
    assert!(matches!(copy_with_retry(Ok(()), false, "a", "b"), CopyStep::Done));
    assert!(matches!(copy_with_retry(Err("x".into()), true, "a", "b"), CopyStep::Retry));
    match copy_with_retry(Err("x".into()), false, "a", "b") {
        CopyStep::Fail(text) => assert_eq!(text, "failed to copy a to b: x"),
        _ => panic!("went on"),
    }
    assert_eq!(wait_for_state(true, Some(true)), WaitStep::Reached);
    assert_eq!(wait_for_state(true, Some(false)), WaitStep::Again);
    assert_eq!(wait_for_state(true, None), WaitStep::GaveUp);
    assert_eq!(wait_for_state(false, Some(true)), WaitStep::GaveUp);
}

fn path(facts: InstallFacts) -> Vec<InstallStep> {
    let mut steps = vec![InstallStep::CheckWintun];
    loop {
        match install(steps[steps.len() - 1], facts, Ok(())) {
            InstallDecision::Continue(next) => steps.push(next),
            InstallDecision::Done => return steps,
            InstallDecision::Fail(text) => panic!("{text}"),
        }
    }
}

#[test]
fn an_installation_stops_writes_and_starts() {
    let fresh = path(InstallFacts { existing: false, active: false, in_place: false });
    assert_eq!(
        fresh,
        [
            InstallStep::CheckWintun,
            InstallStep::OpenManager,
            InstallStep::CreateDirectory,
            InstallStep::CopyFiles,
            InstallStep::CreateService,
            InstallStep::Describe,
            InstallStep::StartService,
            InstallStep::WaitRunning,
            InstallStep::CallVersion,
        ]
    );
    let update = path(InstallFacts { existing: true, active: true, in_place: false });
    assert_eq!(update[2], InstallStep::StopExisting);
    assert_eq!(update[5], InstallStep::ChangeConfig);
    let again = path(InstallFacts { existing: true, active: false, in_place: true });
    assert_eq!(again[2], InstallStep::ChangeConfig);
}

#[test]
fn a_failed_installation_says_where() {
    let facts = InstallFacts { existing: false, active: false, in_place: false };
    let text = |step| match install(step, facts, Err(("S".into(), "c".into()))) {
        InstallDecision::Fail(text) => text,
        _ => panic!("went on"),
    };
    let expected = [
        (InstallStep::CheckWintun, "S is missing"),
        (InstallStep::OpenManager, "cannot open the Service Control Manager: c"),
        (InstallStep::StopExisting, "the existing NulConnect Helper service did not stop"),
        (InstallStep::CreateDirectory, "failed to create S: c"),
        (InstallStep::CopyFiles, "c"),
        (InstallStep::ChangeConfig, "failed to update the service: c"),
        (InstallStep::CreateService, "failed to create the service: c"),
        (InstallStep::StartService, "failed to start the service: c"),
        (InstallStep::WaitRunning, "the NulConnect Helper service did not start in time"),
        (InstallStep::CallVersion, "the service started but its pipe is unavailable: c"),
    ];
    for (step, words) in expected {
        assert_eq!(text(step), words);
    }
    let described = install(InstallStep::Describe, facts, Err(("S".into(), "c".into())));
    assert!(matches!(described, InstallDecision::Continue(InstallStep::StartService)));
}

#[test]
fn an_installation_writes_and_registers_the_helper() {
    let settings = service_settings("D");
    assert_eq!(settings.name, "NulConnectHelper");
    assert_eq!(settings.display_name, "NulConnect Helper");
    assert_eq!(
        settings.description,
        "Provides VPN tunnel, routing and DNS configuration for NulConnect."
    );
    assert_eq!(settings.executable, "D\\nulconnect-helper.exe");
    assert_eq!(settings.arguments, ["service"]);
    assert!(settings.auto_start);
    assert_eq!((settings.restart_secs, settings.reset_secs), (vec![2, 5, 30], 86400));
    assert_eq!(cli_main(&Some(settings.arguments[0].clone())), HostCommand::Service);
    let files: Vec<(String, String)> = copies("S\\h.exe", "S\\wintun.dll", "D", false)
        .into_iter()
        .map(|file| (file.source, file.target))
        .collect();
    assert_eq!(
        files,
        [
            ("S\\h.exe".to_string(), "D\\nulconnect-helper.exe".to_string()),
            ("S\\wintun.dll".to_string(), "D\\wintun.dll".to_string()),
        ]
    );
    assert!(copies("D\\nulconnect-helper.exe", "D\\wintun.dll", "D", true).is_empty());
    assert_eq!(check_wintun("S\\wintun.dll", true), Ok(()));
    assert_eq!(
        check_wintun("S\\wintun.dll", false),
        Err(("S\\wintun.dll".to_string(), String::new()))
    );
}

#[test]
fn removing_the_helper_takes_what_is_there() {
    let next = |step, existing, active| match uninstall(step, existing, active, Ok(())) {
        UninstallDecision::Continue(next) => next,
        _ => panic!("ended"),
    };
    assert_eq!(next(UninstallStep::OpenManager, false, false), UninstallStep::RemoveFiles);
    assert_eq!(next(UninstallStep::OpenManager, true, false), UninstallStep::DeleteService);
    assert_eq!(next(UninstallStep::OpenManager, true, true), UninstallStep::StopService);
    assert_eq!(next(UninstallStep::StopService, true, true), UninstallStep::DeleteService);
    assert_eq!(next(UninstallStep::DeleteService, true, true), UninstallStep::RemoveFiles);
    let end = uninstall(UninstallStep::RemoveFiles, true, true, Ok(()));
    assert!(matches!(end, UninstallDecision::Done));
    let text = |step| match uninstall(step, true, true, Err("c".into())) {
        UninstallDecision::Fail(text) => text,
        _ => panic!("went on"),
    };
    assert_eq!(text(UninstallStep::OpenManager), "cannot open the Service Control Manager: c");
    assert_eq!(text(UninstallStep::StopService), "the NulConnect Helper service did not stop: c");
    assert_eq!(text(UninstallStep::DeleteService), "failed to delete the service: c");
    assert_eq!(text(UninstallStep::RemoveFiles), "failed to remove the files of the helper: c");
    let gone: Vec<String> =
        removals("D", "P", false).iter().map(|removal| format!("{removal:?}")).collect();
    assert_eq!(
        gone,
        [
            "File(\"D\\\\nulconnect-helper.exe\")",
            "File(\"D\\\\wintun.dll\")",
            "Tree(\"D\\\\state\")",
            "Tree(\"D\\\\logs\")",
            "EmptyDirectory(\"D\")",
            "EmptyDirectory(\"P\")",
        ]
    );
    assert_eq!(removals("D", "P", true).len(), 5);
    assert!(retries_removal(true, false, true));
    assert!(!retries_removal(false, false, true));
    assert!(!retries_removal(true, true, true));
    assert!(!retries_removal(true, false, false));
}
