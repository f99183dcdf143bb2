use nulconnect_helper::ipv4::Ipv4Addr;
use nulconnect_helper::windows::{
    active_adapter_ip, active_adapter_luid, call_error, entry_point_error, load_error,
    open_or_create_adapter, receive, receive_into, utf16_units, wait_is_over, wide, win_join,
    wintun_path, ActiveAdapter, AdapterDecision, AdapterStep, DeviceStep, RingAnswer, RingRead,
};
use nulconnect_helper::windows_log::{
    executable_dir, log_dir, log_files, log_is_full, log_line, state_dir, timestamp, LocalTime,
};
use nulconnect_helper::windows_net::{
    add_route, apply_nrpt, clear_nrpt, configure_tunnel_interface, default_gateway, delete_route,
    gateway_probe, interface_steps, key_error, multi_sz, nrpt_key, nrpt_namespaces, stale_address,
    tunnel_settings, utf16_bytes, value_error, win32_error, InterfaceAddress, InterfaceStep,
    NrptStep, RouteSpec, ValueKind,
};
use nulconnect_helper::windows_plan::{
    build_network_plan, bypass_hosts, bypass_routes, cleanup_leftovers, endpoint_host,
    managed_dns, needs_bypass, parse_cidr, parse_dns, tunnel_routes, undo_and_forget,
    undo_network_state, BestRoute, NetworkInstall, NetworkPlan, PersistedNetworkState,
    TunnelRoute, UndoStep,
};

fn strings(parts: &[&str]) -> Vec<String> {
    parts.iter().map(|s| s.to_string()).collect()
}

fn ip(a: u8, b: u8, c: u8, d: u8) -> Ipv4Addr {
    Ipv4Addr::new(a, b, c, d)
}

#[test]
fn the_adapter_is_known_while_it_is_open() {
    assert_eq!(active_adapter_luid(0), None);
    assert_eq!(active_adapter_luid(7), Some(7));
    assert_eq!(active_adapter_ip(0), None);
    assert_eq!(active_adapter_ip(0x0a00_0001), Some(ip(10, 0, 0, 1)));
    let mut active = ActiveAdapter::none();
    active.opened(5, ip(10, 0, 0, 2));
    assert_eq!((active.luid, active.ip), (5, 0x0a00_0002));
    let removal = active.closed(6, ip(10, 0, 0, 2));
    assert_eq!((removal.luid, removal.address), (6, ip(10, 0, 0, 2)));
    assert_eq!((active.luid, active.ip), (5, 0));
    active.closed(5, ip(10, 0, 0, 9));
    assert_eq!((active.luid, active.ip), (0, 0));
    active.opened(5, ip(10, 0, 0, 2));
    active.opened(6, ip(10, 0, 0, 3));
    active.closed(5, ip(10, 0, 0, 2));
    assert_eq!(active_adapter_luid(active.luid), Some(6));
    assert_eq!(active_adapter_ip(active.ip), Some(ip(10, 0, 0, 3)));
    active.closed(6, ip(10, 0, 0, 3));
    assert_eq!(active_adapter_luid(active.luid), None);
}

#[test]
fn an_adapter_is_taken_up_or_made() {
    let tried = |step, got| open_or_create_adapter(step, got, "denied");
    assert!(matches!(tried(AdapterStep::Open, true), AdapterDecision::Use));
    assert!(matches!(tried(AdapterStep::Open, false), AdapterDecision::TryCreate));
    assert!(matches!(tried(AdapterStep::Create, true), AdapterDecision::Use));
    match tried(AdapterStep::Create, false) {
        AdapterDecision::Fail(text) => assert_eq!(text, "WintunCreateAdapter failed: denied"),
        _ => panic!("went on"),
    }
}

#[test]
fn paths_are_joined_once() {
    assert_eq!(win_join("C:\\a", "b"), "C:\\a\\b");
    assert_eq!(win_join("C:\\a\\", "b"), "C:\\a\\b");
    let dir = Some("C:\\a".to_string());
    assert_eq!(wintun_path(&dir).unwrap(), "C:\\a\\wintun.dll");
    assert_eq!(executable_dir(&dir).unwrap(), "C:\\a");
    assert_eq!(state_dir(&dir).unwrap(), "C:\\a\\state");
    assert_eq!(log_dir(&dir).unwrap(), "C:\\a\\logs");
    assert_eq!(state_dir(&Some("\\\\s\\b".into())).unwrap(), "\\\\s\\b\\state");
    for lost in [None, Some("."), Some("a"), Some("C:a"), Some("\\a"), Some("")] {
        let lost = lost.map(str::to_string);
        assert_eq!(
            executable_dir(&lost).unwrap_err(),
            "the directory of the helper is not known"
        );
        assert!(wintun_path(&lost).is_err() && state_dir(&lost).is_err() && log_dir(&lost).is_err());
    }
    let (log, old) = log_files("C:\\a\\logs");
    assert_eq!(log, "C:\\a\\logs\\helper.log");
    assert_eq!(old, "C:\\a\\logs\\helper.old.log");
}

#[test]
fn the_ring_is_read_twice() {
    assert!(matches!(receive_into(RingAnswer::Packet(9), 9), RingRead::Copy(9)));
    assert!(matches!(receive_into(RingAnswer::Packet(10), 9), RingRead::TooLarge));
    let empty = RingAnswer::Nothing { code: Some(259), cause: "x".into() };
    assert!(matches!(receive_into(empty, 9), RingRead::Empty));
    let broken = RingAnswer::Nothing { code: Some(38), cause: "eof".into() };
    match receive_into(broken, 9) {
        RingRead::Failed(text) => assert_eq!(text, "WintunReceivePacket failed: eof"),
        _ => panic!("not a failure"),
    }
    assert!(matches!(receive(RingRead::Copy(4), false), DeviceStep::Got(4)));
    assert!(matches!(receive(RingRead::Empty, false), DeviceStep::Wait));
    assert!(matches!(receive(RingRead::Empty, true), DeviceStep::Got(0)));
    assert!(matches!(receive(RingRead::TooLarge, true), DeviceStep::TooLarge));
    match receive(RingRead::Failed("f".into()), false) {
        DeviceStep::Failed(text) => assert_eq!(text, "f"),
        _ => panic!("not a failure"),
    }
    assert!(wait_is_over(0) && wait_is_over(258) && !wait_is_over(128));
    assert_eq!(load_error("p", "c"), "failed to load Wintun from p: c");
    assert_eq!(entry_point_error("E", "c"), "Wintun entry point E is missing: c");
    assert_eq!(call_error("WintunStartSession", "c"), "WintunStartSession failed: c");
}

#[test]
fn texts_become_units() {
    for text in ["", "NulConnect", "grüße 🦀 \u{10ffff}\u{ffff}\u{10000}"] {
        let units: Vec<u16> = text.encode_utf16().collect();
        assert_eq!(utf16_units(text), units);
        let ended = wide(text);
        assert_eq!(&ended[..units.len()], &units[..]);
        assert_eq!(ended[units.len()..], [0]);
    }
}

#[test]
fn log_lines_carry_the_time() {
    let t = LocalTime {
        year: 2025,
        month: 3,
        day: 9,
        hour: 7,
        minute: 5,
        second: 0,
        milliseconds: 42,
    };
    assert_eq!(timestamp(t), "2025-03-09 07:05:00.042");
    assert_eq!(log_line(t, "hi"), "2025-03-09 07:05:00.042 hi\r\n");
    assert!(!log_is_full(None));
    assert!(!log_is_full(Some(4 * 1024 * 1024)));
    assert!(log_is_full(Some(4 * 1024 * 1024 + 1)));
}

fn route(luid: u64, destination: Ipv4Addr, prefix: u8, next_hop: Ipv4Addr) -> RouteSpec {
    RouteSpec { interface_luid: luid, destination, prefix, next_hop }
}

#[test]
fn routes_are_added_and_deleted() {
    let spec = route(0x2a, ip(10, 1, 0, 0), 16, ip(0, 0, 0, 0));
    assert_eq!(spec.to_text(), "10.1.0.0/16 via 0.0.0.0 (luid 0x2a)");
    assert_eq!(win32_error("ctx", "cause"), "ctx: cause");
    assert_eq!(add_route(&spec, 0, ""), Ok(true));
    assert_eq!(add_route(&spec, 5010, ""), Ok(false));
    assert_eq!(
        add_route(&spec, 5, "denied"),
        Err("failed to add route 10.1.0.0/16 via 0.0.0.0 (luid 0x2a): denied".into())
    );
    assert_eq!(delete_route(&spec, 0, ""), None);
    assert_eq!(delete_route(&spec, 1168, ""), None);
    assert_eq!(
        delete_route(&spec, 5, "denied").unwrap(),
        "failed to delete route 10.1.0.0/16 via 0.0.0.0 (luid 0x2a): denied"
    );
    assert_eq!(gateway_probe(), ip(8, 8, 8, 8));
    assert_eq!(default_gateway(None), None);
    assert_eq!(default_gateway(Some((1, ip(0, 0, 0, 0)))), None);
    assert_eq!(default_gateway(Some((1, ip(192, 168, 1, 1)))), Some(ip(192, 168, 1, 1)));
}

#[test]
fn stale_addresses_go() {
    let row = |luid, address, prefix| InterfaceAddress { luid, address, prefix };
    let keep = ip(10, 0, 0, 2);
    let other = ip(10, 0, 0, 3);
    assert!(!stale_address(row(1, None, 24), 2, keep));
    assert!(!stale_address(row(1, Some(keep), 24), 2, keep));
    assert!(!stale_address(row(2, Some(keep), 32), 2, keep));
    assert!(stale_address(row(2, Some(keep), 24), 2, keep));
    assert!(stale_address(row(2, Some(other), 32), 2, keep));
    assert!(stale_address(row(2, None, 32), 2, keep));
    let rows = vec![
        row(1, Some(other), 24),
        row(2, Some(other), 32),
        row(2, Some(keep), 32),
        row(2, Some(keep), 24),
    ];
    let settings = tunnel_settings(keep, 1400);
    assert_eq!(
        interface_steps(&rows, 2, keep, 1400),
        [
            InterfaceStep::RemoveAddress(1),
            InterfaceStep::RemoveAddress(3),
            InterfaceStep::AssignAddress(settings),
            InterfaceStep::ReadInterface,
            InterfaceStep::WriteInterface(settings),
        ]
    );
    assert_eq!(interface_steps(&vec![], 2, keep, 1400).len(), 3);
}

#[test]
fn the_interface_is_configured() {
    let settings = tunnel_settings(ip(10, 0, 0, 2), 1400);
    let assign = InterfaceStep::AssignAddress(settings);
    let write = InterfaceStep::WriteInterface(settings);
    let remove = InterfaceStep::RemoveAddress(0);
    assert!(configure_tunnel_interface(assign, 0, "").is_ok());
    assert!(configure_tunnel_interface(assign, 5010, "").is_ok());
    assert!(configure_tunnel_interface(remove, 1168, "").is_ok());
    let text = |step, code| configure_tunnel_interface(step, code, "c").unwrap_err();
    assert_eq!(text(InterfaceStep::ListAddresses, 5), "failed to list interface addresses: c");
    assert_eq!(text(remove, 5), "failed to remove a stale tunnel address: c");
    assert_eq!(text(assign, 5), "failed to assign tunnel address: c");
    assert_eq!(text(assign, 1168), "failed to assign tunnel address: c");
    assert_eq!(text(InterfaceStep::ReadInterface, 5010), "failed to read tunnel interface: c");
    assert_eq!(text(write, 87), "failed to configure tunnel interface: c");
    assert_eq!((settings.address, settings.prefix), (ip(10, 0, 0, 2), 32));
    assert_eq!((settings.automatic_metric, settings.metric, settings.mtu), (false, 5, 1400));
    assert_eq!(settings.site_prefix, 0);
}

#[test]
fn the_policy_covers_the_domains() {
    let domains = strings(&[
        " *.Corp.Example. ", "corp.example", "10.0.0.1", "a:b", "a b", "a/b", "a\\b", "", "*.*.x",
    ]);
    let names = nrpt_namespaces(&domains);
    assert_eq!(names, [".corp.example", ".x", "corp.example", "x"]);
    assert_eq!(nrpt_namespaces(&names), names);
    assert_eq!(
        nrpt_key(false),
        r"SYSTEM\CurrentControlSet\Services\Dnscache\Parameters\DnsPolicyConfig\NulConnect"
    );
    assert_eq!(
        nrpt_key(true),
        r"SOFTWARE\Policies\Microsoft\Windows NT\DNSClient\DnsPolicyConfig\NulConnect"
    );
    let none = apply_nrpt(&strings(&["10.0.0.1"]), ip(10, 0, 0, 53), true);
    assert_eq!(none.namespaces, 0);
    assert!(matches!(none.steps[..], [NrptStep::Clear]));
    let plan = apply_nrpt(&strings(&["a"]), ip(10, 0, 0, 53), false);
    assert_eq!(plan.namespaces, 2);
    assert_eq!(plan.steps.len(), 8);
    assert!(matches!(plan.steps[0], NrptStep::Clear));
    assert!(matches!(&plan.steps[1], NrptStep::CreateKey(path) if *path == nrpt_key(false)));
    assert!(matches!(plan.steps[7], NrptStep::Reload(false)));
    let told: Vec<(&str, ValueKind, Vec<u8>)> = plan
        .steps
        .iter()
        .filter_map(|step| match step {
            NrptStep::Write(v) => Some((v.name.as_str(), v.kind, v.data.clone())),
            _ => None,
        })
        .collect();
    let server: Vec<u8> =
        "10.0.0.53\0".encode_utf16().flat_map(|unit| unit.to_le_bytes()).collect();
    assert_eq!(
        told,
        [
            ("Version", ValueKind::Number, vec![2, 0, 0, 0]),
            ("Name", ValueKind::TextList, vec![b'.', 0, b'a', 0, 0, 0, b'a', 0, 0, 0, 0, 0]),
            ("GenericDNSServers", ValueKind::Text, server),
            ("ConfigOptions", ValueKind::Number, vec![8, 0, 0, 0]),
            ("IPSECCARestriction", ValueKind::Text, vec![0, 0]),
        ]
    );
    assert_eq!(utf16_bytes(&vec![0x1234, 5]), [0x34, 0x12, 5, 0]);
    assert_eq!(multi_sz(&vec![]), [0, 0]);
    assert_eq!(key_error("p", "c"), "failed to create registry key p: c");
    assert_eq!(value_error("n", "c"), "failed to write registry value n: c");
    assert!(clear_nrpt(true, false) && clear_nrpt(false, true) && !clear_nrpt(false, false));
}

fn net(a: u8, b: u8, c: u8, d: u8, prefix: u8) -> TunnelRoute {
    TunnelRoute { network: ip(a, b, c, d), prefix }
}

#[test]
fn networks_are_read() {
    assert_eq!(parse_cidr(" 10.1.2.3/8 "), Ok(net(10, 0, 0, 0, 8)));
    assert_eq!(parse_cidr("10.1.2.3"), Ok(net(10, 1, 2, 3, 32)));
    assert_eq!(parse_cidr("10.1.2.3 / 1"), Ok(net(0, 0, 0, 0, 1)));
    assert_eq!(parse_cidr(" x/8 "), Err("invalid route address: x/8".into()));
    assert_eq!(parse_cidr("10.0.0.0/x"), Err("invalid route prefix: 10.0.0.0/x".into()));
    assert_eq!(parse_cidr("10.0.0.0/256"), Err("invalid route prefix: 10.0.0.0/256".into()));
    assert_eq!(parse_cidr("10.0.0.0/0"), Err("unsupported route prefix: 10.0.0.0/0".into()));
    assert_eq!(parse_cidr("10.0.0.0/33"), Err("unsupported route prefix: 10.0.0.0/33".into()));
    assert_eq!(parse_dns(" 10.0.0.53 "), Some(ip(10, 0, 0, 53)));
    assert_eq!(parse_dns("dns"), None);
}

#[test]
fn the_tunnel_gets_its_routes() {
    let cidrs = strings(&["10.2.0.0/16", "bad", "10.1.0.0/16", "10.2.9.9/16"]);
    let dns = Some(ip(10, 0, 0, 53));
    let base = [net(10, 1, 0, 0, 16), net(10, 2, 0, 0, 16), net(198, 18, 0, 0, 15)];
    assert_eq!(tunnel_routes(&cidrs, None, None), base);
    assert_eq!(tunnel_routes(&cidrs, dns, dns), base);
    let mut with_dns = vec![net(10, 0, 0, 53, 32)];
    with_dns.extend(base);
    assert_eq!(tunnel_routes(&cidrs, dns, Some(ip(192, 168, 1, 1))), with_dns);
    let nested = strings(&["10.0.0.0/16", "10.0.0.0/8"]);
    assert_eq!(tunnel_routes(&nested, None, None)[..2], [net(10, 0, 0, 0, 8), net(10, 0, 0, 0, 16)]);
}

#[test]
fn nodes_bypass_the_tunnel_where_it_covers_them() {
    assert_eq!(endpoint_host("node:443").as_deref(), Some("node"));
    assert_eq!(endpoint_host(" [::1]:443 ").as_deref(), Some("::1"));
    assert_eq!(endpoint_host("node:").as_deref(), Some("node"));
    assert_eq!(endpoint_host("fe80::x").as_deref(), Some("fe80::x"));
    assert_eq!(endpoint_host(":1"), None);
    assert_eq!(endpoint_host(" "), None);
    assert_eq!(bypass_hosts(&strings(&["a:1", ":2", "b"]), "srv"), ["a", "b", "srv"]);
    let routes = vec![net(10, 1, 0, 0, 16), net(127, 0, 0, 0, 8)];
    assert!(needs_bypass(&routes, ip(10, 1, 9, 9)));
    assert!(!needs_bypass(&routes, ip(10, 2, 0, 1)));
    assert!(!needs_bypass(&routes, ip(127, 0, 0, 1)));
    assert!(!needs_bypass(&vec![net(0, 0, 0, 0, 1)], ip(0, 0, 0, 0)));
}

#[test]
fn bypasses_are_sorted_and_kept_once() {
    let best = |d: Ipv4Addr, luid: u64, hop: u8| BestRoute {
        destination: d,
        interface_luid: luid,
        next_hop: ip(192, 168, 1, hop),
    };
    let found = vec![
        best(ip(10, 0, 0, 2), 1, 1),
        best(ip(10, 0, 0, 1), 2, 1),
        best(ip(10, 0, 0, 1), 1, 1),
        best(ip(10, 0, 0, 2), 1, 1),
        best(ip(10, 0, 0, 1), 1, 2),
    ];
    let hop = |n| ip(192, 168, 1, n);
    assert_eq!(
        bypass_routes(&vec![net(10, 0, 0, 0, 8)], &found),
        [
            route(1, ip(10, 0, 0, 1), 32, hop(1)),
            route(1, ip(10, 0, 0, 1), 32, hop(2)),
            route(2, ip(10, 0, 0, 1), 32, hop(1)),
            route(1, ip(10, 0, 0, 2), 32, hop(1)),
        ]
    );
    let plan = build_network_plan(
        &strings(&["10.0.0.0/8"]),
        "10.0.0.53",
        &strings(&["corp"]),
        None,
        &found,
    );
    assert_eq!(plan.tunnel_routes.len(), 3);
    assert_eq!(plan.bypass_routes.len(), 4);
    let mut more = found.clone();
    more.push(best(ip(127, 0, 0, 1), 1, 1));
    more.push(best(ip(0, 0, 0, 0), 1, 1));
    more.push(best(ip(11, 0, 0, 1), 1, 1));
    assert_eq!(bypass_routes(&plan.tunnel_routes, &more), plan.bypass_routes);
    assert!(bypass_routes(&vec![], &found).is_empty());
    assert_eq!(plan.dns_server, Some(ip(10, 0, 0, 53)));
    assert_eq!(plan.managed_domains, ["corp"]);
}

#[test]
fn what_was_installed_is_undone_backwards() {
    let bypasses =
        vec![route(1, ip(10, 0, 0, 1), 32, ip(1, 1, 1, 1)), route(1, ip(10, 0, 0, 2), 32, ip(1, 1, 1, 1))];
    let mut plan = NetworkPlan::empty();
    plan.bypass_routes = bypasses.clone();
    plan.tunnel_routes = vec![net(10, 0, 0, 0, 8), net(11, 0, 0, 0, 8), net(12, 0, 0, 0, 8)];
    let mut install = NetworkInstall::new(&plan, 99);
    assert_eq!(install.next(), Some(bypasses[0]));
    assert!(install.install_network_plan(Err("no".into())).is_ok());
    assert!(install.install_network_plan(Ok(true)).is_ok());
    let first = route(99, ip(10, 0, 0, 0), 8, ip(0, 0, 0, 0));
    assert_eq!(install.next(), Some(first));
    assert!(install.install_network_plan(Ok(true)).is_ok());
    assert!(install.install_network_plan(Ok(false)).is_ok());
    assert_eq!(install.install_network_plan(Err("full".into())), Err("full".into()));
    assert_eq!(install.network.routes, [bypasses[1], first]);
    assert!(install.install_network_plan(Ok(true)).is_ok());
    assert_eq!(install.next(), None);
    install.network.nrpt = true;
    let last = route(99, ip(12, 0, 0, 0), 8, ip(0, 0, 0, 0));
    assert_eq!(
        undo_network_state(&install.network),
        [
            UndoStep::DeleteRoute(last),
            UndoStep::DeleteRoute(first),
            UndoStep::DeleteRoute(bypasses[1]),
            UndoStep::ClearPolicy,
            UndoStep::FlushDns,
        ]
    );
    assert_eq!(undo_network_state(&PersistedNetworkState::empty()), [UndoStep::FlushDns]);
    assert_eq!(
        undo_and_forget(&PersistedNetworkState::empty()),
        [UndoStep::FlushDns, UndoStep::RemoveRecord]
    );
    assert_eq!(cleanup_leftovers(&None), [UndoStep::ClearPolicy, UndoStep::RemoveRecord]);
    let saved = Some(PersistedNetworkState { routes: vec![first], nrpt: false });
    assert_eq!(
        cleanup_leftovers(&saved),
        [
            UndoStep::DeleteRoute(first),
            UndoStep::FlushDns,
            UndoStep::ClearPolicy,
            UndoStep::RemoveRecord,
        ]
    );
}

#[test]
fn names_are_managed_where_there_are_a_server_and_domains() {
    let mut plan = NetworkPlan::empty();
    let mut network = PersistedNetworkState::empty();
    plan.dns_server = Some(ip(10, 0, 0, 53));
    assert_eq!(managed_dns(&plan, &mut network), None);
    assert!(!network.nrpt);
    plan.managed_domains = strings(&["corp"]);
    assert_eq!(managed_dns(&plan, &mut network), Some(ip(10, 0, 0, 53)));
    assert!(network.nrpt);
    plan.dns_server = None;
    assert_eq!(managed_dns(&plan, &mut PersistedNetworkState::empty()), None);
}
