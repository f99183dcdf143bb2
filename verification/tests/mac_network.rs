use nulconnect_helper::error::{AtrError, ErrorCode};
use nulconnect_helper::ipv4::Ipv4Addr;
use nulconnect_helper::networksetup::{
    bool_value, command_outcome, list_network_services, make_network_snapshot,
    make_service_snapshot, merged_exceptions, networksetup_outcome, normalized_string,
    parse_key_value_output, read_auto_proxy_url, read_bool, read_bypass_domains,
    read_networksetup_list, read_proxy_setting, require_services, reset_dns_to_default,
    proxy_steps, restore_system_proxy, restore_tun_network_state, set_system_proxy,
    snapshot_missing, validate_proxy_endpoint, AutoProxyUrl, ProxyEndpoint, ProxyFlow,
    ProxySetting, ProxyStep, ServiceAnswers,
    SystemProxyServiceSnapshot, SystemProxySnapshot, TunNetworkServiceSnapshot,
    TunNetworkSnapshot,
};
use nulconnect_helper::resolver::{
    cleanup_scoped_dns_resolvers, normalized_resolver_domains, removable_resolver, resolver_file,
    resolver_names_server, resolver_state, scoped_dns_ready,
};
use nulconnect_helper::routes::{
    add_route_cidr, cleanup_tun_routes, default_ipv4_gateway, delete_route_cidr, delete_routes,
    discover_tun_name, endpoint_host, literal_address, managed_routes, node_route_cidrs,
    normalize_route_cidr, route_added, route_plan, route_probe_address, routes_ready,
    setup_managed_tun_routes, stale_route_args, tun_name_in_list, tun_name_in_table,
    tun_route_ready, RouteInstaller, SetupStep,
};

fn strings(parts: &[&str]) -> Vec<String> {
    parts.iter().map(|s| s.to_string()).collect()
}

fn lines(plan: &[Vec<String>]) -> Vec<String> {
    plan.iter().map(|command| command.join(" ")).collect()
}

#[test]
fn routes_are_to_hosts_or_networks() {
    assert_eq!(normalize_route_cidr(" 10.1.2.3/32 ").unwrap().route_args, ["-host", "10.1.2.3"]);
    assert_eq!(normalize_route_cidr("10.1.0.0/16").unwrap().route_args, ["-net", "10.1.0.0/16"]);
    assert_eq!(
        add_route_cidr("10.1.2.3/32", "10.0.0.1").unwrap(),
        ["-n", "add", "-host", "10.1.2.3", "10.0.0.1"]
    );
    assert_eq!(
        delete_route_cidr("10.1.0.0/16").unwrap(),
        ["-n", "delete", "-net", "10.1.0.0/16"]
    );
    assert!(delete_route_cidr("10.1.0.0").is_none());
    let e = add_route_cidr(" 10.1.0.0 ", "10.0.0.1").unwrap_err();
    assert_eq!(e.to_text(), "invalid argument: invalid CIDR route: 10.1.0.0");
}

#[test]
fn a_route_that_exists_is_a_success() {
    assert!(route_added(Ok(())).is_ok());
    let exists = AtrError::NetworkFailed("route: writing to routing socket: File exists".into());
    assert!(route_added(Err(exists)).is_ok());
    let other = AtrError::NetworkFailed("not in table".into());
    assert_eq!(route_added(Err(other)).unwrap_err().to_text(), "network failed: not in table");
}

#[test]
fn stale_routes_are_named() {
    assert_eq!(
        lines(&stale_route_args()),
        [
            "-n delete -net 198.18.0.0/15",
            "-n delete -net 198.18.0.0/16",
            "-n delete -host 198.18.0.1",
        ]
    );
}

#[test]
fn probes_lie_in_their_routes() {
    let cases = [
        ("10.1.2.3/8", "10.0.0.1"),
        ("10.1.2.3/30", "10.1.2.1"),
        ("10.1.2.3/31", "10.1.2.3"),
        (" 10.1.2.3/32 ", "10.1.2.3"),
        ("10.1.2.3/0", "0.0.0.1"),
        ("255.255.255.255/0", "0.0.0.1"),
        ("+1.02.3.4/24", "1.2.3.1"),
    ];
    for (cidr, probe) in cases {
        assert_eq!(route_probe_address(cidr).unwrap(), probe, "{cidr}");
    }
    let errors = [
        ("10.0.0.1", "invalid argument: invalid CIDR route: 10.0.0.1"),
        ("10.0.0/8", "invalid argument: invalid IPv4 route: 10.0.0/8"),
        ("10.0.0.256/8", "invalid argument: invalid IPv4 route: 10.0.0.256/8"),
        ("10.0.0.1/33", "invalid argument: invalid CIDR prefix: 10.0.0.1/33"),
        ("10.0.0.1/x", "invalid argument: invalid CIDR prefix: 10.0.0.1/x"),
    ];
    for (cidr, text) in errors {
        let e = route_probe_address(cidr).unwrap_err();
        assert_eq!((e.code(), e.to_text().as_str()), (ErrorCode::InvalidArgument, text));
    }
}

#[test]
fn a_route_is_ready_when_it_goes_through_the_tunnel() {
    assert!(tun_route_ready("  gateway: 10.0.0.1\n"));
    assert!(tun_route_ready("interface: utun3"));
    assert!(!tun_route_ready("gateway: 192.168.1.1\ninterface: en0"));
    let good = Some("interface: utun3".to_string());
    assert!(routes_ready(&vec![]));
    assert!(routes_ready(&vec![good.clone(), good.clone()]));
    assert!(!routes_ready(&vec![good.clone(), None]));
    assert!(!routes_ready(&vec![Some(String::new()), good]));
}

#[test]
fn the_first_literal_gateway_is_taken() {
    let text = "route to: default\n   gateway: fe80::1\n  gateway:  192.168.1.1 \ngateway: 1.1.1.1";
    assert_eq!(default_ipv4_gateway(text).unwrap(), "192.168.1.1");
    let e = default_ipv4_gateway("gateway: en0").unwrap_err();
    assert_eq!(e.to_text(), "network failed: unable to discover default IPv4 gateway");
}

#[test]
fn the_device_is_found_in_the_table_or_the_list() {
    let table = "10.0.0.1 10.0.0.9 UH en0\n10.0.0.1   10.0.0.2  UH  utun5\n";
    let list = "lo0: flags\n\tinet 127.0.0.1\nutun2: flags=8051\n\tinet 10.0.0.2 --> 10.0.0.1\n";
    assert_eq!(tun_name_in_table(table).as_deref(), Some("utun5"));
    assert_eq!(tun_name_in_table("10.0.0.1 utun5"), None);
    assert_eq!(tun_name_in_list(list).as_deref(), Some("utun2"));
    assert_eq!(tun_name_in_list("utun2: flags\n\tmtu 1500\n\tinet 10.0.0.2"), None);
    assert_eq!(discover_tun_name(table, list).unwrap(), "utun5");
    assert_eq!(discover_tun_name("", list).unwrap(), "utun2");
    let e = discover_tun_name("", "").unwrap_err();
    assert_eq!(e.to_text(), "network failed: unable to discover TUN interface after start");
}

#[test]
fn endpoints_have_hosts() {
    assert_eq!(endpoint_host(" node.example:443 ").as_deref(), Some("node.example"));
    assert_eq!(endpoint_host("[::1]:443").as_deref(), Some("::1"));
    assert_eq!(endpoint_host("node.example"), None);
    assert_eq!(endpoint_host(":443"), None);
    assert_eq!(literal_address("192.0.2.1"), Some(Ipv4Addr::new(192, 0, 2, 1)));
    assert_eq!(literal_address("node.example"), None);
}

#[test]
fn routes_are_sorted_and_kept_once() {
    let ips = vec![Ipv4Addr::new(9, 0, 0, 1), Ipv4Addr::new(10, 0, 0, 1), Ipv4Addr::new(9, 0, 0, 1)];
    assert_eq!(node_route_cidrs(&ips), ["10.0.0.1/32", "9.0.0.1/32"]);
    let cidrs = strings(&["10.2.0.0/16", "10.1.0.0/16", "10.2.0.0/16"]);
    assert_eq!(
        managed_routes(&cidrs, " 10.9.9.9 "),
        ["10.1.0.0/16", "10.2.0.0/16", "10.9.9.9/32"]
    );
    assert_eq!(managed_routes(&cidrs, "  "), ["10.1.0.0/16", "10.2.0.0/16"]);
}

#[test]
fn required_routes_come_first_and_must_succeed() {
    let routes = strings(&["10.1.0.0/16", "  ", "10.2.0.0/16"]);
    let nodes = strings(&["192.0.2.1/32"]);
    let plan = route_plan(&routes, &nodes, &Some("192.168.1.1".into()));
    let told: Vec<_> =
        plan.iter().map(|s| (s.cidr.as_str(), s.gateway.as_str(), s.required)).collect();
    assert_eq!(
        told,
        [
            ("10.1.0.0/16", "10.0.0.1", true),
            ("10.2.0.0/16", "10.0.0.1", true),
            ("192.0.2.1/32", "192.168.1.1", false),
        ]
    );
    assert_eq!(route_plan(&routes, &nodes, &None).len(), 2);
    let failed = || Err(AtrError::NetworkFailed("no".into()));
    let mut installer = RouteInstaller::new(plan);
    assert_eq!(installer.next().unwrap().cidr, "10.1.0.0/16");
    assert!(installer.report(Ok(())).is_none());
    assert_eq!(installer.report(failed()).unwrap().to_text(), "network failed: no");
    assert_eq!(installer.installed, ["10.1.0.0/16"]);
    assert!(installer.report(Ok(())).is_none());
    assert_eq!(installer.next().unwrap().cidr, "192.0.2.1/32");
    assert!(installer.report(failed()).is_none());
    assert!(installer.next().is_none());
    assert_eq!(installer.installed, ["10.1.0.0/16", "10.2.0.0/16"]);
}

#[test]
fn what_was_noted_is_cleaned_up() {
    let mut installer = RouteInstaller::new(route_plan(
        &strings(&["10.1.0.0/16", "192.0.2.7/32"]),
        &strings(&[]),
        &None,
    ));
    while installer.next().is_some() {
        assert!(installer.report(Ok(())).is_none());
    }
    let state = installer.state().unwrap();
    assert_eq!(state, "[\n  \"10.1.0.0/16\",\n  \"192.0.2.7/32\"\n]");
    let stale = lines(&stale_route_args());
    let mut expected = stale.clone();
    expected.extend(lines(&delete_routes(&installer.installed)));
    assert_eq!(expected.len(), 5);
    assert_eq!(lines(&cleanup_tun_routes(&Some(state))), expected);
    assert_eq!(lines(&cleanup_tun_routes(&None)), stale);
    assert_eq!(lines(&cleanup_tun_routes(&Some("{}".into()))), stale);
    let names = normalized_resolver_domains(&strings(&["b.example", "*.A.example"]));
    let state = resolver_state(&names).unwrap();
    assert_eq!(cleanup_scoped_dns_resolvers(&Some(state)), names);
    let odd = r#"["../x", ".", "..", "ok"]"#.to_string();
    assert_eq!(cleanup_scoped_dns_resolvers(&Some(odd)), ["ok"]);
    assert!(cleanup_scoped_dns_resolvers(&None).is_empty());
}

#[test]
fn routes_are_set_up_only_where_they_are_wanted() {
    assert!(setup_managed_tun_routes(false).is_empty());
    let steps = setup_managed_tun_routes(true);
    assert_eq!(steps.len(), 6);
    assert_eq!((steps[0], steps[4]), (SetupStep::DiscoverDevice, SetupStep::SaveRoutes));
}

#[test]
fn a_proxy_snapshot_outlives_failures() {
    let set = proxy_steps(ProxyFlow::Apply, true);
    assert!(!set.contains(&ProxyStep::SaveSnapshot) && !set.contains(&ProxyStep::RemoveSnapshot));
    assert_eq!(
        proxy_steps(ProxyFlow::Apply, false)[2..],
        [ProxyStep::TakeSnapshot, ProxyStep::SaveSnapshot, ProxyStep::RunCommands]
    );
    let restore = proxy_steps(ProxyFlow::Restore, true);
    assert_eq!(restore.last(), Some(&ProxyStep::RemoveSnapshot));
    assert_eq!(restore[2], ProxyStep::RunCommands);
    assert!(proxy_steps(ProxyFlow::Restore, false).is_empty());
}

#[test]
fn a_failed_command_is_told_by_its_output() {
    assert_eq!(networksetup_outcome(true, "out\n", "err").unwrap(), "out\n");
    let e = networksetup_outcome(false, "out", " err \n").unwrap_err();
    assert_eq!(e.to_text(), "network failed: err");
    let e = networksetup_outcome(false, "out", " \n").unwrap_err();
    assert_eq!(e.to_text(), "network failed: networksetup failed");
    assert!(command_outcome(true, "", "x").is_ok());
    assert_eq!(command_outcome(false, "o", " e ").unwrap_err().to_text(), "network failed: e");
    assert_eq!(command_outcome(false, " o ", "").unwrap_err().to_text(), "network failed: o");
    assert_eq!(command_outcome(false, "o", " ").unwrap_err().to_text(), "network failed: ");
}

#[test]
fn services_are_listed() {
    let output = "An asterisk (*) denotes that a network service is disabled.\nWi-Fi\n* Thunderbolt Bridge\n\n";
    assert_eq!(list_network_services(output), ["Wi-Fi", "Thunderbolt Bridge"]);
    assert!(require_services(&strings(&["Wi-Fi"])).is_ok());
    let e = require_services(&vec![]).unwrap_err();
    assert_eq!(e.to_text(), "not found: no network services found");
}

#[test]
fn lists_leave_out_the_sentences() {
    assert_eq!(read_networksetup_list("8.8.8.8\n 1.1.1.1 \n\n"), ["8.8.8.8", "1.1.1.1"]);
    assert!(read_networksetup_list("There aren't any DNS Servers set on Wi-Fi.\n").is_empty());
    assert!(read_networksetup_list("DNS is Not Configured").is_empty());
    assert_eq!(read_bypass_domains("*.local\n169.254/16\n"), ["*.local", "169.254/16"]);
    assert!(read_bypass_domains("There aren't any bypass domains set on Wi-Fi.").is_empty());
}

#[test]
fn settings_are_read_by_their_keys() {
    let values = parse_key_value_output("B: 1\nno colon\nA : x:y \nB:2\n");
    assert_eq!(values.get("B").as_deref(), Some("2"));
    assert_eq!(values.get("A").as_deref(), Some("x:y"));
    assert_eq!(values.get("C"), None);
    assert_eq!(values.first().as_deref(), Some("x:y"));
    for yes in ["Yes", " on ", "1", "TRUE"] {
        assert!(bool_value(&Some(yes.to_string())));
    }
    for no in ["No", "off", "0", ""] {
        assert!(!bool_value(&Some(no.to_string())));
    }
    assert!(!bool_value(&None));
    assert_eq!(normalized_string(&Some(" x ".into())).as_deref(), Some("x"));
    assert_eq!(normalized_string(&Some(" (null) ".into())), None);
    assert_eq!(normalized_string(&Some("  ".into())), None);
    assert_eq!(normalized_string(&None), None);
    let setting = read_proxy_setting("Enabled: Yes\nServer: proxy\nPort: 8080\n");
    assert_eq!(setting.enabled, true);
    assert_eq!(setting.server.as_deref(), Some("proxy"));
    assert_eq!(setting.port, Some(8080));
    let setting = read_proxy_setting("Enabled: No\nServer:\nPort: 70000\n");
    assert_eq!((setting.enabled, setting.server, setting.port), (false, None, None));
    let url = read_auto_proxy_url("URL: http://pac:80/x\nEnabled: No\n");
    assert_eq!((url.enabled, url.url.as_deref()), (false, Some("http://pac:80/x")));
    assert_eq!(read_auto_proxy_url("URL: (null)\nEnabled: No").url, None);
    assert!(read_bool(&Some("Auto Proxy Discovery: On\n".into())));
    assert!(!read_bool(&Some("Auto Proxy Discovery: Off\n".into())));
    assert!(read_bool(&Some("yes".into())));
    assert!(!read_bool(&Some("Z: on\nA: off".into())));
    assert!(!read_bool(&None));
}

fn proxy(enabled: bool, server: Option<&str>, port: Option<u16>) -> ProxySetting {
    ProxySetting { enabled, server: server.map(str::to_string), port }
}

fn service(name: &str) -> SystemProxyServiceSnapshot {
    SystemProxyServiceSnapshot {
        name: name.into(),
        web_proxy: proxy(true, Some("web"), Some(80)),
        secure_web_proxy: proxy(true, Some("web"), None),
        socks_proxy: proxy(false, Some("socks"), Some(1080)),
        proxy_auto_discovery_enabled: true,
        auto_proxy_url: AutoProxyUrl { enabled: true, url: Some("http://pac".into()) },
        bypass_domains: strings(&[" *.corp ", "localhost", " "]),
    }
}

fn proxies(services: Vec<SystemProxyServiceSnapshot>) -> SystemProxySnapshot {
    SystemProxySnapshot { saved_at_unix_secs: 1, services }
}

#[test]
fn a_snapshot_keeps_the_answers() {
    let answers = ServiceAnswers {
        web_proxy: "Enabled: Yes\nServer: a\nPort: 1".into(),
        secure_web_proxy: "Enabled: No\nServer: b\nPort: 2".into(),
        socks_proxy: "".into(),
        auto_discovery: Some("Auto Proxy Discovery: On".into()),
        auto_proxy_url: "URL: http://pac\nEnabled: Yes".into(),
        bypass_domains: "one\ntwo\n".into(),
    };
    let s = make_service_snapshot("Wi-Fi", &answers);
    assert_eq!(s.name, "Wi-Fi");
    assert_eq!((s.web_proxy.enabled, s.web_proxy.server.as_deref(), s.web_proxy.port), (true, Some("a"), Some(1)));
    assert_eq!((s.secure_web_proxy.enabled, s.secure_web_proxy.port), (false, Some(2)));
    assert_eq!(s.socks_proxy.server, None);
    assert!(s.proxy_auto_discovery_enabled && s.auto_proxy_url.enabled);
    assert_eq!(s.auto_proxy_url.url.as_deref(), Some("http://pac"));
    assert_eq!(s.bypass_domains, ["one", "two"]);
    let n = make_network_snapshot("Wi-Fi", "8.8.8.8\n", "There aren't any Search Domains");
    assert_eq!((n.name.as_str(), n.dns_servers.len(), n.search_domains.len()), ("Wi-Fi", 1, 0));
}

#[test]
fn the_proxy_must_be_local() {
    for host in ["127.0.0.1", "::1", "localhost"] {
        assert!(validate_proxy_endpoint(&ProxyEndpoint { host: host.into(), port: 1 }).is_ok());
    }
    let e = validate_proxy_endpoint(&ProxyEndpoint { host: "10.0.0.1".into(), port: 0 });
    assert_eq!(
        e.unwrap_err().to_text(),
        "invalid argument: system proxy endpoint must be loopback"
    );
    let e = validate_proxy_endpoint(&ProxyEndpoint { host: "::1".into(), port: 0 });
    assert_eq!(e.unwrap_err().to_text(), "invalid argument: system proxy port must be non-zero");
}

#[test]
fn exceptions_are_merged() {
    assert_eq!(
        merged_exceptions(" vpn.example ", &proxies(vec![service("a"), service("b")])),
        ["*.corp", "*.local", "127.0.0.1", "169.254/16", "::1", "localhost", "vpn.example"]
    );
    assert_eq!(merged_exceptions(" ", &proxies(vec![])).len(), 5);
}

#[test]
fn the_proxy_is_set_for_every_service() {
    let endpoint = ProxyEndpoint { host: "::1".into(), port: 7890 };
    let plan = set_system_proxy(&endpoint, "vpn.example", &proxies(vec![service("Wi-Fi")]));
    assert_eq!(plan.services, 1);
    assert_eq!(
        lines(&plan.commands),
        [
            "-setwebproxy Wi-Fi ::1 7890 off",
            "-setwebproxystate Wi-Fi on",
            "-setsecurewebproxy Wi-Fi ::1 7890 off",
            "-setsecurewebproxystate Wi-Fi on",
            "-setsocksfirewallproxy Wi-Fi ::1 7890 off",
            "-setsocksfirewallproxystate Wi-Fi on",
            "-setproxyautodiscovery Wi-Fi off",
            "-setautoproxystate Wi-Fi off",
            "-setproxybypassdomains Wi-Fi *.corp *.local 127.0.0.1 169.254/16 ::1 localhost vpn.example",
        ]
    );
}

#[test]
fn the_saved_proxies_come_back() {
    let mut other = service("Lan");
    other.auto_proxy_url.url = Some(String::new());
    other.proxy_auto_discovery_enabled = false;
    other.bypass_domains = vec![];
    let saved = proxies(vec![service("Wi-Fi"), service("Gone"), other]);
    let plan = restore_system_proxy(&saved, &strings(&["Lan", "Wi-Fi"]));
    assert_eq!(
        lines(&plan),
        [
            "-setwebproxy Wi-Fi web 80 off",
            "-setwebproxystate Wi-Fi on",
            "-setsecurewebproxystate Wi-Fi off",
            "-setsocksfirewallproxystate Wi-Fi off",
            "-setproxyautodiscovery Wi-Fi on",
            "-setautoproxyurl Wi-Fi http://pac",
            "-setautoproxystate Wi-Fi on",
            "-setproxybypassdomains Wi-Fi  *.corp  localhost  ",
            "-setwebproxy Lan web 80 off",
            "-setwebproxystate Lan on",
            "-setsecurewebproxystate Lan off",
            "-setsocksfirewallproxystate Lan off",
            "-setproxyautodiscovery Lan off",
            "-setautoproxystate Lan off",
            "-setproxybypassdomains Lan Empty",
        ]
    );
}

#[test]
fn the_saved_servers_come_back() {
    let saved = |name: &str, dns: &[&str], search: &[&str]| TunNetworkServiceSnapshot {
        name: name.into(),
        dns_servers: strings(dns),
        search_domains: strings(search),
    };
    let snapshot = TunNetworkSnapshot {
        saved_at_unix_secs: 1,
        services: vec![
            saved("Wi-Fi", &["8.8.8.8", "1.1.1.1"], &[]),
            saved("Gone", &[], &[]),
            saved("Lan", &[], &["corp"]),
        ],
    };
    assert_eq!(
        lines(&restore_tun_network_state(&snapshot, &strings(&["Wi-Fi", "Lan"]))),
        [
            "-setdnsservers Wi-Fi 8.8.8.8 1.1.1.1",
            "-setsearchdomains Wi-Fi Empty",
            "-setdnsservers Lan Empty",
            "-setsearchdomains Lan corp",
        ]
    );
    assert_eq!(
        lines(&reset_dns_to_default(&strings(&["Wi-Fi"]))),
        ["-setdnsservers Wi-Fi Empty", "-setsearchdomains Wi-Fi Empty"]
    );
    let e = snapshot_missing("/x/y.json");
    assert_eq!(e.to_text(), "not found: tun network snapshot not found: /x/y.json");
}

#[test]
fn domains_become_resolver_files() {
    let domains = strings(&[
        " .Corp.Example. ", "*.corp.example", "local", "a/b", "a:b", "a.*.b", "", "B.example",
    ]);
    let names = normalized_resolver_domains(&domains);
    assert_eq!(names, ["b.example", "corp.example"]);
    assert!(names.iter().all(|name| removable_resolver(name)));
    for bad in ["a/b", ".", ".."] {
        assert!(!removable_resolver(bad));
    }
    assert_eq!(resolver_file("10.0.0.53"), "nameserver 10.0.0.53\n");
    assert!(resolver_names_server(&resolver_file("10.0.0.53"), " 10.0.0.53 "));
    assert!(resolver_names_server("x\n  nameserver 1.1.1.1 \r\n", "1.1.1.1"));
    assert!(!resolver_names_server("nameserver 1.1.1.10", "1.1.1.1"));
    let good = Some(resolver_file("1.1.1.1"));
    assert!(scoped_dns_ready(&vec![], "1.1.1.1"));
    assert!(scoped_dns_ready(&vec![good.clone()], "1.1.1.1"));
    assert!(!scoped_dns_ready(&vec![good, None], "1.1.1.1"));
}
