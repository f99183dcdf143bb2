use nulconnect_helper::error::ErrorCode;
use nulconnect_helper::tun_proxy::{
    build_tun2proxy_args, dns_strategy_arg, log_level_arg, splits_a_character, tun2proxy_arguments,
    unsupported_engine, worker_error, Startup, TunDnsStrategy, TunLogLevel, TunProxyConfig,
    TunProxyEngine, TunProxyStatus,
};

#[test]
fn the_default_configuration_is_understood() {
    let config = TunProxyConfig::for_platform(false);
    assert_eq!(
        tun2proxy_arguments(&config),
        [
            "nulconnect-tun2proxy",
            "--proxy",
            "socks5://127.0.0.1:1080",
            "--dns",
            "virtual",
            "--dns-addr",
            "8.8.8.8",
            "--virtual-dns-pool",
            "198.18.0.0/15",
            "--tcp-timeout",
            "600",
            "--udp-timeout",
            "30",
            "--max-sessions",
            "200",
            "--verbosity",
            "warn",
        ]
    );
    let args = build_tun2proxy_args(&config).unwrap();
    assert_eq!(args.dns_addr.to_string(), "8.8.8.8");
    assert_eq!(args.virtual_dns_pool.to_string(), "198.18.0.0/15");
    assert_eq!((args.tcp_timeout, args.udp_timeout, args.max_sessions), (600, 30, 200));
    assert_eq!(args.proxy.to_string(), "socks5://127.0.0.1:1080");
    assert!(args.tun.is_none() && args.bypass.is_empty());
    assert!(!args.setup && !args.ipv6_enabled && !args.exit_on_fatal_error);
}

#[test]
fn every_option_reaches_the_parser() {
    let mut config = TunProxyConfig::for_platform(true);
    assert!(config.packet_information);
    config.proxy_url = "http://user:pw@proxy.example:8080".into();
    config.tun_name = Some("utun7".into());
    config.dns_strategy = TunDnsStrategy::OverTcp;
    config.dns_addr = "10.0.0.53".into();
    config.bypass_cidrs = vec!["10.0.0.0/8".into(), "".into(), "192.0.2.1".into()];
    config.tcp_timeout_secs = 7;
    config.setup_routes = true;
    config.ipv6_enabled = true;
    config.exit_on_fatal_error = true;
    config.verbosity = TunLogLevel::Trace;
    let args = build_tun2proxy_args(&config).unwrap();
    assert_eq!(args.tun.as_deref(), Some("utun7"));
    assert_eq!(args.tcp_timeout, 7);
    assert!(args.setup && args.ipv6_enabled && args.exit_on_fatal_error);
    let bypass: Vec<String> = args.bypass.iter().map(|cidr| cidr.to_string()).collect();
    assert_eq!(bypass, ["10.0.0.0/8", "192.0.2.1"]);
    assert_eq!(args.verbosity.to_string(), "TRACE");
    assert_eq!(args.dns as u8, 1);
    let tail = tun2proxy_arguments(&config).split_off(17);
    assert_eq!(
        tail,
        [
            "--tun",
            "utun7",
            "--setup",
            "--ipv6-enabled",
            "--exit-on-fatal-error",
            "--bypass",
            "10.0.0.0/8",
            "--bypass",
            "192.0.2.1",
        ]
    );
}

#[test]
fn the_same_arguments_hold_the_same_settings() {
    let plain = TunProxyConfig::for_platform(false);
    let mut blank = TunProxyConfig::for_platform(false);
    blank.tun_name = Some(String::new());
    blank.bypass_cidrs = vec![String::new()];
    blank.mtu = 1400;
    assert_eq!(tun2proxy_arguments(&plain), tun2proxy_arguments(&blank));
    let a = build_tun2proxy_args(&plain).unwrap();
    let b = build_tun2proxy_args(&blank).unwrap();
    assert_eq!((a.tun, a.bypass.len(), a.daemonize), (None, 0, false));
    assert_eq!((b.tun, b.bypass.len(), b.daemonize), (None, 0, false));
    assert_eq!((a.dns as u8, b.dns as u8), (0, 0));
    let mut odd = TunProxyConfig::for_platform(false);
    odd.tun_name = Some("--setup".into());
    assert_eq!(build_tun2proxy_args(&odd).unwrap_err().code(), ErrorCode::InvalidArgument);
    odd.tun_name = Some("-6".into());
    assert_eq!(build_tun2proxy_args(&odd).unwrap_err().code(), ErrorCode::InvalidArgument);
    odd.tun_name = Some("--".into());
    assert_eq!(build_tun2proxy_args(&odd).unwrap_err().code(), ErrorCode::InvalidArgument);
}

#[test]
fn a_name_that_straddles_its_prefix_is_kept() {
    assert!(splits_a_character("tun\u{e9}") && splits_a_character("\u{20ac}\u{e9}"));
    assert!(!splits_a_character("utun7") && !splits_a_character("t\u{e9}"));
    assert!(!splits_a_character("\u{1f600}x") && !splits_a_character(""));
    let mut config = TunProxyConfig::for_platform(false);
    config.tun_name = Some("tun\u{e9}0".into());
    config.setup_routes = true;
    let args = build_tun2proxy_args(&config).unwrap();
    assert_eq!(args.tun.as_deref(), Some("tun\u{e9}0"));
    assert!(args.setup);
    config.dns_addr = "nowhere".into();
    assert_eq!(build_tun2proxy_args(&config).unwrap_err().code(), ErrorCode::InvalidArgument);
    config.dns_addr = "8.8.8.8".into();
    config.tun_name = Some("-s\u{20ac}".into());
    assert_eq!(build_tun2proxy_args(&config).unwrap_err().code(), ErrorCode::InvalidArgument);
}

#[test]
fn a_text_that_cannot_be_taken_apart_is_refused() {
    let refused = |change: &dyn Fn(&mut TunProxyConfig)| {
        let mut config = TunProxyConfig::for_platform(false);
        change(&mut config);
        build_tun2proxy_args(&config).is_err()
    };
    assert!(refused(&|c| c.proxy_url = "socks5://".into()));
    assert!(refused(&|c| c.proxy_url = "--setup".into()));
    assert!(refused(&|c| c.dns_addr = "".into()));
    assert!(refused(&|c| c.virtual_dns_pool = "198.18.0.1/15".into()));
    assert!(refused(&|c| c.bypass_cidrs = vec!["10.0.0.0/8".into(), "x".into()]));
    assert!(refused(&|c| c.bypass_cidrs = vec!["--".into()]));
    assert!(!refused(&|c| c.tun_name = Some("utun3".into())));
    assert!(!refused(&|c| c.dns_addr = "::1".into()));
}

#[test]
fn a_bad_configuration_is_an_invalid_argument() {
    let mut config = TunProxyConfig::for_platform(false);
    config.dns_addr = "nowhere".into();
    let e = build_tun2proxy_args(&config).unwrap_err();
    assert_eq!(e.code(), ErrorCode::InvalidArgument);
    assert!(e.to_text().contains("nowhere"));
    config = TunProxyConfig::for_platform(false);
    config.proxy_url = "ftp://proxy.example:21".into();
    assert_eq!(build_tun2proxy_args(&config).unwrap_err().code(), ErrorCode::InvalidArgument);
}

#[test]
fn strategies_and_levels_have_their_words() {
    assert_eq!(dns_strategy_arg(TunDnsStrategy::Virtual), "virtual");
    assert_eq!(dns_strategy_arg(TunDnsStrategy::OverTcp), "over-tcp");
    assert_eq!(dns_strategy_arg(TunDnsStrategy::Direct), "direct");
    let levels = [
        (TunLogLevel::Off, "off"),
        (TunLogLevel::Error, "error"),
        (TunLogLevel::Warn, "warn"),
        (TunLogLevel::Info, "info"),
        (TunLogLevel::Debug, "debug"),
        (TunLogLevel::Trace, "trace"),
    ];
    for (level, word) in levels {
        assert_eq!(log_level_arg(level), word);
        let mut config = TunProxyConfig::for_platform(false);
        config.verbosity = level;
        let args = build_tun2proxy_args(&config).unwrap();
        assert_eq!(args.verbosity.to_string().to_lowercase(), word);
    }
}

#[test]
fn the_engine_keeps_its_result_until_it_is_taken() {
    let mut engine = TunProxyEngine::start(Startup::Ready).unwrap();
    assert_eq!(engine.status(), TunProxyStatus::Running);
    engine.cancel();
    assert!(engine.cancelled);
    engine.worker_ended(Ok(12));
    assert_eq!(engine.status(), TunProxyStatus::Stopped);
    assert_eq!(engine.take_result().unwrap().unwrap(), 12);
    assert!(engine.take_result().is_none());
    assert!(engine.stop());
    assert!(!engine.stop());
    engine.worker_ended(Err("broken".into()));
    let e = engine.take_result().unwrap().unwrap_err();
    assert_eq!(e.to_text(), "network failed: broken");
}

#[test]
fn engines_that_do_not_start_say_why() {
    let e = TunProxyEngine::start(Startup::NoRuntime("x".into())).unwrap_err();
    assert_eq!(e.to_text(), "internal error: failed to create tun2proxy runtime: x");
    let e = TunProxyEngine::start(Startup::Lost("y".into())).unwrap_err();
    assert_eq!(e.to_text(), "internal error: tun2proxy worker failed during startup: y");
    assert_eq!(worker_error("z").to_text(), "internal error: failed to start tun2proxy worker: z");
    let e = unsupported_engine();
    assert_eq!(e.to_text(), "unsupported: nulconnect-tun was built without tun2proxy support");
}
