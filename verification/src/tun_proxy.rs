//! The proxy engine: its configuration, the arguments that `tun2proxy` is given,
//! and the state that it shares with its worker.
use crate::error::{AtrError, AtrResult, ErrorCode};
use crate::number;
use crate::number::decimal_string;
use crate::text;
use crate::text::chars_of;
use vstd::prelude::*;
use vstd::string::*;

verus! {

/// What is done with name lookups.
#[derive(Debug, Clone, Copy, PartialEq, Eq, Structural)]
pub enum TunDnsStrategy {
    Virtual,
    OverTcp,
    Direct,
}

/// How much the engine logs.
#[derive(Debug, Clone, Copy, PartialEq, Eq, Structural)]
pub enum TunLogLevel {
    Off,
    Error,
    Warn,
    Info,
    Debug,
    Trace,
}

/// What a proxy engine is started with.
#[derive(Debug, Clone)]
pub struct TunProxyConfig {
    pub proxy_url: String,
    pub tun_name: Option<String>,
    pub dns_strategy: TunDnsStrategy,
    pub dns_addr: String,
    pub virtual_dns_pool: String,
    pub bypass_cidrs: Vec<String>,
    pub mtu: u16,
    pub tcp_timeout_secs: u64,
    pub udp_timeout_secs: u64,
    pub max_sessions: usize,
    pub setup_routes: bool,
    pub ipv6_enabled: bool,
    pub packet_information: bool,
    pub exit_on_fatal_error: bool,
    pub verbosity: TunLogLevel,
}

impl TunProxyConfig {
    /// The configuration that sets nothing. The devices of Apple's platforms
    /// write packet information headers.
    pub fn for_platform(apple: bool) -> (r: TunProxyConfig)
        ensures
            r.proxy_url@ == "socks5://127.0.0.1:1080"@,
            r.tun_name is None,
            r.dns_strategy == TunDnsStrategy::Virtual,
            r.dns_addr@ == "8.8.8.8"@,
            r.virtual_dns_pool@ == "198.18.0.0/15"@,
            r.bypass_cidrs@.len() == 0,
            r.mtu == 1500,
            r.tcp_timeout_secs == 600,
            r.udp_timeout_secs == 30,
            r.max_sessions == 200,
            !r.setup_routes,
            !r.ipv6_enabled,
            r.packet_information == apple,
            !r.exit_on_fatal_error,
            r.verbosity == TunLogLevel::Warn,
    {
        TunProxyConfig {
            proxy_url: "socks5://127.0.0.1:1080".to_owned(),
            tun_name: None,
            dns_strategy: TunDnsStrategy::Virtual,
            dns_addr: "8.8.8.8".to_owned(),
            virtual_dns_pool: "198.18.0.0/15".to_owned(),
            bypass_cidrs: Vec::new(),
            mtu: 1500,
            tcp_timeout_secs: 600,
            udp_timeout_secs: 30,
            max_sessions: 200,
            setup_routes: false,
            ipv6_enabled: false,
            packet_information: apple,
            exit_on_fatal_error: false,
            verbosity: TunLogLevel::Warn,
        }
    }
}

// ---------------------------------------------------------------------------
// Arguments
// ---------------------------------------------------------------------------

/// The argument of a strategy.
pub open spec fn dns_text(strategy: TunDnsStrategy) -> Seq<char> {
    match strategy {
        TunDnsStrategy::Virtual => "virtual"@,
        TunDnsStrategy::OverTcp => "over-tcp"@,
        TunDnsStrategy::Direct => "direct"@,
    }
}

/// The argument of a level.
pub open spec fn level_text(level: TunLogLevel) -> Seq<char> {
    match level {
        TunLogLevel::Off => "off"@,
        TunLogLevel::Error => "error"@,
        TunLogLevel::Warn => "warn"@,
        TunLogLevel::Info => "info"@,
        TunLogLevel::Debug => "debug"@,
        TunLogLevel::Trace => "trace"@,
    }
}

/// The argument of a strategy.
pub fn dns_strategy_arg(strategy: TunDnsStrategy) -> (r: &'static str)
    ensures
        r@ == dns_text(strategy),
{
    match strategy {
        TunDnsStrategy::Virtual => "virtual",
        TunDnsStrategy::OverTcp => "over-tcp",
        TunDnsStrategy::Direct => "direct",
    }
}

/// The argument of a level.
pub fn log_level_arg(level: TunLogLevel) -> (r: &'static str)
    ensures
        r@ == level_text(level),
{
    match level {
        TunLogLevel::Off => "off",
        TunLogLevel::Error => "error",
        TunLogLevel::Warn => "warn",
        TunLogLevel::Info => "info",
        TunLogLevel::Debug => "debug",
        TunLogLevel::Trace => "trace",
    }
}

/// The arguments that every configuration gives.
pub open spec fn fixed_arguments(config: TunProxyConfig) -> Seq<Seq<char>> {
    seq![
        "nulconnect-tun2proxy"@,
        "--proxy"@,
        config.proxy_url@,
        "--dns"@,
        dns_text(config.dns_strategy),
        "--dns-addr"@,
        config.dns_addr@,
        "--virtual-dns-pool"@,
        config.virtual_dns_pool@,
        "--tcp-timeout"@,
        number::decimal(config.tcp_timeout_secs as nat),
        "--udp-timeout"@,
        number::decimal(config.udp_timeout_secs as nat),
        "--max-sessions"@,
        number::decimal(config.max_sessions as nat),
        "--verbosity"@,
        level_text(config.verbosity),
    ]
}

/// A flag that is given or not.
pub open spec fn flag(given: bool, name: Seq<char>) -> Seq<Seq<char>> {
    if given {
        seq![name]
    } else {
        Seq::empty()
    }
}

/// The name of the device, where it has one.
pub open spec fn name_arguments(name: Option<String>) -> Seq<Seq<char>> {
    if name is Some && name->0@.len() > 0 {
        seq!["--tun"@, name->0@]
    } else {
        Seq::empty()
    }
}

/// The networks that bypass the proxy. Empty texts are passed over.
pub open spec fn bypass_arguments(cidrs: Seq<Seq<char>>) -> Seq<Seq<char>>
    decreases cidrs.len(),
{
    if cidrs.len() == 0 {
        Seq::empty()
    } else if cidrs.last().len() == 0 {
        bypass_arguments(cidrs.drop_last())
    } else {
        bypass_arguments(cidrs.drop_last()).push("--bypass"@).push(cidrs.last())
    }
}

/// The arguments of a configuration.
pub open spec fn arguments(config: TunProxyConfig) -> Seq<Seq<char>> {
    fixed_arguments(config) + name_arguments(config.tun_name) + flag(
        config.setup_routes,
        "--setup"@,
    ) + flag(config.ipv6_enabled, "--ipv6-enabled"@) + flag(
        config.exit_on_fatal_error,
        "--exit-on-fatal-error"@,
    ) + bypass_arguments(text::strings(config.bypass_cidrs@))
}

fn push_flag(argv: &mut Vec<String>, given: bool, name: &str)
    ensures
        text::strings(final(argv)@) == text::strings(old(argv)@) + flag(given, name@),
{
    let ghost before = text::strings(argv@);
    if given {
        argv.push(name.to_owned());
        assert(text::strings(argv@) =~= before + seq![name@]);
    } else {
        assert(before + Seq::<Seq<char>>::empty() =~= before);
    }
}

/// A configuration that leaves the name of the device to the system.
pub open spec fn unnamed(config: TunProxyConfig) -> TunProxyConfig {
    TunProxyConfig { tun_name: None, ..config }
}

/// The arguments that `tun2proxy` is given.
pub fn tun2proxy_arguments(config: &TunProxyConfig) -> (argv: Vec<String>)
    ensures
        text::strings(argv@) == arguments(*config),
{
    argument_list(config, true)
}

/// The arguments of a configuration, with or without the name of its device.
fn argument_list(config: &TunProxyConfig, with_name: bool) -> (argv: Vec<String>)
    ensures
        text::strings(argv@) == arguments(
            if with_name {
                *config
            } else {
                unnamed(*config)
            },
        ),
{
    let ghost wanted = if with_name {
        *config
    } else {
        unnamed(*config)
    };
    let mut argv: Vec<String> = vec![
        "nulconnect-tun2proxy".to_owned(),
        "--proxy".to_owned(),
        config.proxy_url.clone(),
        "--dns".to_owned(),
        dns_strategy_arg(config.dns_strategy).to_owned(),
        "--dns-addr".to_owned(),
        config.dns_addr.clone(),
        "--virtual-dns-pool".to_owned(),
        config.virtual_dns_pool.clone(),
        "--tcp-timeout".to_owned(),
        decimal_string(config.tcp_timeout_secs),
        "--udp-timeout".to_owned(),
        decimal_string(config.udp_timeout_secs),
        "--max-sessions".to_owned(),
        decimal_string(config.max_sessions as u64),
        "--verbosity".to_owned(),
        log_level_arg(config.verbosity).to_owned(),
    ];
    let ghost fixed = fixed_arguments(*config);
    assert(text::strings(argv@) =~= fixed);
    match &config.tun_name {
        Some(name) => {
            if with_name && name.as_str().unicode_len() > 0 {
                argv.push("--tun".to_owned());
                argv.push(name.clone());
            }
        },
        None => {},
    }
    assert(fixed =~= fixed_arguments(wanted));
    assert(text::strings(argv@) =~= fixed + name_arguments(wanted.tun_name));
    push_flag(&mut argv, config.setup_routes, "--setup");
    push_flag(&mut argv, config.ipv6_enabled, "--ipv6-enabled");
    push_flag(&mut argv, config.exit_on_fatal_error, "--exit-on-fatal-error");
    let ghost head = text::strings(argv@);
    let ghost cidrs = text::strings(config.bypass_cidrs@);
    let mut i: usize = 0;
    assert(cidrs.take(0) =~= Seq::<Seq<char>>::empty());
    assert(head + bypass_arguments(cidrs.take(0)) =~= head);
    while i < config.bypass_cidrs.len()
        invariant
            i <= config.bypass_cidrs.len(),
            cidrs == text::strings(config.bypass_cidrs@),
            text::strings(argv@) == head + bypass_arguments(cidrs.take(i as int)),
        decreases config.bypass_cidrs.len() - i,
    {
        let cidr = &config.bypass_cidrs[i];
        let ghost before = text::strings(argv@);
        let ghost one = cidrs.take(i + 1);
        assert(one.drop_last() =~= cidrs.take(i as int));
        assert(one.last() == cidr@);
        if cidr.as_str().unicode_len() > 0 {
            argv.push("--bypass".to_owned());
            argv.push(cidr.clone());
            assert(text::strings(argv@) =~= before.push("--bypass"@).push(cidr@));
            assert(text::strings(argv@) =~= head + bypass_arguments(one));
        }
        i = i + 1;
    }
    assert(cidrs.take(i as int) =~= cidrs);
    argv
}

#[verifier::external_type_specification]
#[verifier::external_body]
pub struct ExTun2proxyArgs(tun2proxy::Args);

/// The octets of a character in UTF-8.
pub open spec fn octets_in(c: char) -> int {
    if (c as int) < 0x80 {
        1
    } else if (c as int) < 0x800 {
        2
    } else if (c as int) < 0x10000 {
        3
    } else {
        4
    }
}

/// Whether no character of a text straddles its first `n` octets.
pub open spec fn cuts_at(s: Seq<char>, n: int) -> bool
    decreases s.len(),
{
    n >= 0 && (n == 0 || s.len() == 0 || cuts_at(s.drop_first(), n - octets_in(s[0])))
}

/// Whether a text begins with a hyphen.
pub open spec fn begins_with_hyphen(s: Seq<char>) -> bool {
    s.len() > 0 && s[0] == '-'
}

/// Whether the parser can be handed a device name on every platform: no
/// character straddles its first four octets, or it looks like an option.
pub open spec fn parsable_name(name: Option<String>) -> bool {
    name is Some ==> cuts_at(name->0@, 4) || begins_with_hyphen(name->0@)
}

/// The octets of a character in UTF-8.
fn utf8_len(c: char) -> (r: usize)
    ensures
        r == octets_in(c),
{
    let n: u32 = c as u32;
    if n < 0x80 {
        1
    } else if n < 0x800 {
        2
    } else if n < 0x10000 {
        3
    } else {
        4
    }
}

/// Whether a character of a device name straddles its first four octets.
pub fn splits_a_character(name: &str) -> (r: bool)
    ensures
        r == !cuts_at(name@, 4),
{
    let cs = chars_of(name);
    let mut left: usize = 4;
    let mut i: usize = 0;
    assert(cs@.skip(0) =~= cs@);
    while left > 0 && i < cs.len()
        invariant
            i <= cs.len(),
            cs@ == name@,
            left <= 4,
            cuts_at(name@, 4) == cuts_at(cs@.skip(i as int), left as int),
        decreases cs.len() - i,
    {
        let n: usize = utf8_len(cs[i]);
        let ghost rest = cs@.skip(i as int);
        assert(rest[0] == cs@[i as int]);
        assert(rest.drop_first() =~= cs@.skip(i + 1));
        if n > left {
            assert(!cuts_at(rest.drop_first(), left - n));
            return true;
        }
        left = left - n;
        i = i + 1;
    }
    false
}

/// What the arguments of `tun2proxy` hold. The proxy, the address and the
/// networks are written as they display themselves.
pub struct ArgSettings {
    pub proxy: Seq<char>,
    pub tun: Option<Seq<char>>,
    pub dns: TunDnsStrategy,
    pub dns_addr: Seq<char>,
    pub virtual_dns_pool: Seq<char>,
    pub bypass: Seq<Seq<char>>,
    pub tcp_timeout: u64,
    pub udp_timeout: u64,
    pub max_sessions: usize,
    pub setup: bool,
    pub ipv6_enabled: bool,
    pub exit_on_fatal_error: bool,
    pub verbosity: TunLogLevel,
    pub daemonize: bool,
}

/// The fields of a `tun2proxy::Args`.
pub uninterp spec fn args_settings(args: tun2proxy::Args) -> ArgSettings;

/// The proxy that the option `--proxy` makes of a text, as it displays itself;
/// none where the text is refused.
pub uninterp spec fn proxy_value(s: Seq<char>) -> Option<Seq<char>>;

/// The address that the option `--dns-addr` makes of a text, as it displays
/// itself; none where the text is refused.
pub uninterp spec fn address_value(s: Seq<char>) -> Option<Seq<char>>;

/// The network that the options `--virtual-dns-pool` and `--bypass` make of a
/// text, as it displays itself; none where the text is refused.
pub uninterp spec fn network_value(s: Seq<char>) -> Option<Seq<char>>;

/// The texts that are not empty.
pub open spec fn given(cidrs: Seq<Seq<char>>) -> Seq<Seq<char>>
    decreases cidrs.len(),
{
    if cidrs.len() == 0 {
        Seq::empty()
    } else if cidrs.last().len() == 0 {
        given(cidrs.drop_last())
    } else {
        given(cidrs.drop_last()).push(cidrs.last())
    }
}

/// The networks that some texts stand for.
pub open spec fn networks(cidrs: Seq<Seq<char>>) -> Seq<Seq<char>> {
    Seq::new(cidrs.len(), |i: int| network_value(cidrs[i])->0)
}

/// Whether the parser takes every text of a configuration: its proxy, its
/// address and its networks.
pub open spec fn understood(config: TunProxyConfig) -> bool {
    let bypass = given(text::strings(config.bypass_cidrs@));
    &&& proxy_value(config.proxy_url@) is Some
    &&& address_value(config.dns_addr@) is Some
    &&& network_value(config.virtual_dns_pool@) is Some
    &&& forall|i: int| 0 <= i < bypass.len() ==> network_value(#[trigger] bypass[i]) is Some
}

/// Whether a configuration names its device.
pub open spec fn names_device(config: TunProxyConfig) -> bool {
    config.tun_name is Some && config.tun_name->0@.len() > 0
}

/// Whether a device name is good on every platform: on macOS it has to begin
/// with these four octets, and to go on.
pub open spec fn good_everywhere(name: Seq<char>) -> bool {
    name.len() > 4 && name.take(4) == "utun"@
}

/// What the arguments of a configuration are to hold.
pub open spec fn wanted_settings(config: TunProxyConfig) -> ArgSettings {
    ArgSettings {
        proxy: proxy_value(config.proxy_url@)->0,
        tun: if names_device(config) {
            Some(config.tun_name->0@)
        } else {
            None
        },
        dns: config.dns_strategy,
        dns_addr: address_value(config.dns_addr@)->0,
        virtual_dns_pool: network_value(config.virtual_dns_pool@)->0,
        bypass: networks(given(text::strings(config.bypass_cidrs@))),
        tcp_timeout: config.tcp_timeout_secs,
        udp_timeout: config.udp_timeout_secs,
        max_sessions: config.max_sessions,
        setup: config.setup_routes,
        ipv6_enabled: config.ipv6_enabled,
        exit_on_fatal_error: config.exit_on_fatal_error,
        verbosity: config.verbosity,
        daemonize: false,
    }
}

proof fn lemma_words()
    ensures
        forall|a: TunDnsStrategy, b: TunDnsStrategy| #[trigger]
            dns_text(a) == #[trigger] dns_text(b) ==> a == b,
        forall|a: TunLogLevel, b: TunLogLevel| #[trigger]
            level_text(a) == #[trigger] level_text(b) ==> a == b,
        "--tun"@ != "--setup"@,
        "--tun"@ != "--ipv6-enabled"@,
        "--tun"@ != "--exit-on-fatal-error"@,
        "--tun"@ != "--bypass"@,
        "--setup"@ != "--ipv6-enabled"@,
        "--setup"@ != "--exit-on-fatal-error"@,
        "--setup"@ != "--bypass"@,
        "--ipv6-enabled"@ != "--exit-on-fatal-error"@,
        "--ipv6-enabled"@ != "--bypass"@,
        "--exit-on-fatal-error"@ != "--bypass"@,
{
    reveal_strlit("virtual");
    reveal_strlit("over-tcp");
    reveal_strlit("direct");
    reveal_strlit("off");
    reveal_strlit("error");
    reveal_strlit("warn");
    reveal_strlit("info");
    reveal_strlit("debug");
    reveal_strlit("trace");
    reveal_strlit("--tun");
    reveal_strlit("--setup");
    reveal_strlit("--ipv6-enabled");
    reveal_strlit("--exit-on-fatal-error");
    reveal_strlit("--bypass");
    assert("virtual"@[0] != "over-tcp"@[0] && "over-tcp"@[0] != "direct"@[0] && "virtual"@[0]
        != "direct"@[0]);
    assert("off"@.len() == 3 && "warn"@.len() == 4 && "info"@.len() == 4 && "error"@.len() == 5
        && "debug"@.len() == 5 && "trace"@.len() == 5);
    assert("warn"@[0] != "info"@[0] && "error"@[0] != "debug"@[0] && "debug"@[0] != "trace"@[0]
        && "error"@[0] != "trace"@[0]);
    assert("--tun"@.len() == 5 && "--setup"@.len() == 7 && "--ipv6-enabled"@.len() == 14
        && "--exit-on-fatal-error"@.len() == 21 && "--bypass"@.len() == 8);
}

proof fn lemma_bypass_starts(cidrs: Seq<Seq<char>>)
    ensures
        bypass_arguments(cidrs).len() > 0 ==> bypass_arguments(cidrs)[0] == "--bypass"@,
    decreases cidrs.len(),
{
    if cidrs.len() > 0 {
        lemma_bypass_starts(cidrs.drop_last());
    }
}

proof fn lemma_bypass_pairs(cidrs: Seq<Seq<char>>)
    ensures
        bypass_arguments(cidrs).len() == 2 * given(cidrs).len(),
        forall|i: int|
            0 <= i < given(cidrs).len() ==> bypass_arguments(cidrs)[2 * i + 1] == #[trigger] given(
                cidrs,
            )[i],
    decreases cidrs.len(),
{
    if cidrs.len() > 0 {
        lemma_bypass_pairs(cidrs.drop_last());
        let (g, h) = (given(cidrs.drop_last()), given(cidrs));
        assert forall|i: int| 0 <= i < h.len() implies bypass_arguments(cidrs)[2 * i + 1]
            == #[trigger] h[i] by {
            if i < g.len() {
                assert(g[i] == h[i]);
            }
        }
    }
}

proof fn lemma_flag_shows(
    given: bool,
    other: bool,
    name: Seq<char>,
    a: Seq<Seq<char>>,
    b: Seq<Seq<char>>,
)
    requires
        flag(given, name) + a == flag(other, name) + b,
        a.len() > 0 ==> a[0] != name,
        b.len() > 0 ==> b[0] != name,
    ensures
        given == other,
        a == b,
{
    let x = flag(given, name) + a;
    let y = flag(other, name) + b;
    if given {
        assert(x[0] == name);
        assert(x.skip(1) =~= a);
    } else {
        assert(x =~= a);
    }
    if other {
        assert(y[0] == name);
        assert(y.skip(1) =~= b);
    } else {
        assert(y =~= b);
    }
}

proof fn lemma_fixed_arguments_tell(a: TunProxyConfig, b: TunProxyConfig)
    requires
        fixed_arguments(a) == fixed_arguments(b),
    ensures
        a.dns_strategy == b.dns_strategy,
        a.verbosity == b.verbosity,
        a.tcp_timeout_secs == b.tcp_timeout_secs,
        a.udp_timeout_secs == b.udp_timeout_secs,
        a.max_sessions == b.max_sessions,
        a.proxy_url@ == b.proxy_url@,
        a.dns_addr@ == b.dns_addr@,
        a.virtual_dns_pool@ == b.virtual_dns_pool@,
{
    lemma_words();
    let x = fixed_arguments(a);
    let y = fixed_arguments(b);
    assert(x[2] == a.proxy_url@ && y[2] == b.proxy_url@);
    assert(x[6] == a.dns_addr@ && y[6] == b.dns_addr@);
    assert(x[8] == a.virtual_dns_pool@ && y[8] == b.virtual_dns_pool@);
    assert(x[4] == dns_text(a.dns_strategy) && y[4] == dns_text(b.dns_strategy));
    assert(x[16] == level_text(a.verbosity) && y[16] == level_text(b.verbosity));
    assert(x[10] == number::decimal(a.tcp_timeout_secs as nat));
    assert(y[10] == number::decimal(b.tcp_timeout_secs as nat));
    assert(x[12] == number::decimal(a.udp_timeout_secs as nat));
    assert(y[12] == number::decimal(b.udp_timeout_secs as nat));
    assert(x[14] == number::decimal(a.max_sessions as nat));
    assert(y[14] == number::decimal(b.max_sessions as nat));
    let max = u64::MAX as int;
    number::parse_of_decimal(a.tcp_timeout_secs as nat, max);
    number::parse_of_decimal(b.tcp_timeout_secs as nat, max);
    number::parse_of_decimal(a.udp_timeout_secs as nat, max);
    number::parse_of_decimal(b.udp_timeout_secs as nat, max);
    number::parse_of_decimal(a.max_sessions as nat, max);
    number::parse_of_decimal(b.max_sessions as nat, max);
}

/// The flags and the networks of a configuration.
spec fn flag_arguments(config: TunProxyConfig) -> Seq<Seq<char>> {
    flag(config.setup_routes, "--setup"@) + (flag(config.ipv6_enabled, "--ipv6-enabled"@) + (flag(
        config.exit_on_fatal_error,
        "--exit-on-fatal-error"@,
    ) + bypass_arguments(text::strings(config.bypass_cidrs@))))
}

proof fn lemma_flag_arguments_tell(a: TunProxyConfig, b: TunProxyConfig)
    requires
        flag_arguments(a) == flag_arguments(b),
    ensures
        a.setup_routes == b.setup_routes,
        a.ipv6_enabled == b.ipv6_enabled,
        a.exit_on_fatal_error == b.exit_on_fatal_error,
        given(text::strings(a.bypass_cidrs@)) == given(text::strings(b.bypass_cidrs@)),
{
    lemma_words();
    let a3 = bypass_arguments(text::strings(a.bypass_cidrs@));
    let b3 = bypass_arguments(text::strings(b.bypass_cidrs@));
    lemma_bypass_starts(text::strings(a.bypass_cidrs@));
    lemma_bypass_starts(text::strings(b.bypass_cidrs@));
    let a2 = flag(a.exit_on_fatal_error, "--exit-on-fatal-error"@) + a3;
    let b2 = flag(b.exit_on_fatal_error, "--exit-on-fatal-error"@) + b3;
    let a1 = flag(a.ipv6_enabled, "--ipv6-enabled"@) + a2;
    let b1 = flag(b.ipv6_enabled, "--ipv6-enabled"@) + b2;
    lemma_flag_shows(a.setup_routes, b.setup_routes, "--setup"@, a1, b1);
    lemma_flag_shows(a.ipv6_enabled, b.ipv6_enabled, "--ipv6-enabled"@, a2, b2);
    lemma_flag_shows(
        a.exit_on_fatal_error,
        b.exit_on_fatal_error,
        "--exit-on-fatal-error"@,
        a3,
        b3,
    );
    let (ga, gb) = (
        given(text::strings(a.bypass_cidrs@)),
        given(text::strings(b.bypass_cidrs@)),
    );
    lemma_bypass_pairs(text::strings(a.bypass_cidrs@));
    lemma_bypass_pairs(text::strings(b.bypass_cidrs@));
    assert forall|i: int| 0 <= i < ga.len() implies ga[i] == gb[i] by {
        assert(a3[2 * i + 1] == b3[2 * i + 1]);
    }
    assert(ga =~= gb);
}

proof fn lemma_no_name_among_flags(config: TunProxyConfig)
    ensures
        flag_arguments(config).len() > 0 ==> flag_arguments(config)[0] != "--tun"@,
{
    lemma_words();
    lemma_bypass_starts(text::strings(config.bypass_cidrs@));
}

proof fn lemma_name_shows(a: TunProxyConfig, b: TunProxyConfig)
    requires
        name_arguments(a.tun_name) + flag_arguments(a) == name_arguments(b.tun_name)
            + flag_arguments(b),
    ensures
        wanted_settings(a).tun == wanted_settings(b).tun,
        flag_arguments(a) == flag_arguments(b),
{
    let (an, bn) = (name_arguments(a.tun_name), name_arguments(b.tun_name));
    let (af, bf) = (flag_arguments(a), flag_arguments(b));
    lemma_no_name_among_flags(a);
    lemma_no_name_among_flags(b);
    if an.len() > 0 {
        assert((an + af)[0] == "--tun"@ && (an + af)[1] == an[1]);
    } else {
        assert(an + af =~= af);
    }
    if bn.len() > 0 {
        assert((bn + bf)[0] == "--tun"@ && (bn + bf)[1] == bn[1]);
    } else {
        assert(bn + bf =~= bf);
    }
    assert(an.len() == bn.len());
    lemma_halves(an, af, bn, bf);
}

proof fn lemma_halves(a: Seq<Seq<char>>, x: Seq<Seq<char>>, b: Seq<Seq<char>>, y: Seq<Seq<char>>)
    requires
        a.len() == b.len(),
        a + x == b + y,
    ensures
        a == b,
        x == y,
{
    assert((a + x).take(a.len() as int) =~= a);
    assert((b + y).take(b.len() as int) =~= b);
    assert((a + x).skip(a.len() as int) =~= x);
    assert((b + y).skip(b.len() as int) =~= y);
}

proof fn lemma_grouped(
    a: Seq<Seq<char>>,
    b: Seq<Seq<char>>,
    c: Seq<Seq<char>>,
    d: Seq<Seq<char>>,
    e: Seq<Seq<char>>,
    f: Seq<Seq<char>>,
)
    ensures
        a + b + c + d + e + f == a + (b + (c + (d + (e + f)))),
{
    assert(a + b + c + d + e + f =~= a + (b + (c + (d + (e + f)))));
}

proof fn lemma_arguments_grouped(config: TunProxyConfig)
    ensures
        arguments(config) == fixed_arguments(config) + (name_arguments(config.tun_name)
            + flag_arguments(config)),
        fixed_arguments(config).len() == 17,
{
    lemma_grouped(
        fixed_arguments(config),
        name_arguments(config.tun_name),
        flag(config.setup_routes, "--setup"@),
        flag(config.ipv6_enabled, "--ipv6-enabled"@),
        flag(config.exit_on_fatal_error, "--exit-on-fatal-error"@),
        bypass_arguments(text::strings(config.bypass_cidrs@)),
    );
}

/// Configurations with the same arguments want the same settings, and the
/// parser takes the texts of both or of neither.
pub proof fn the_arguments_tell_the_settings(a: TunProxyConfig, b: TunProxyConfig)
    requires
        arguments(a) == arguments(b),
    ensures
        wanted_settings(a) == wanted_settings(b),
        understood(a) == understood(b),
{
    lemma_arguments_grouped(a);
    lemma_arguments_grouped(b);
    lemma_halves(
        fixed_arguments(a),
        name_arguments(a.tun_name) + flag_arguments(a),
        fixed_arguments(b),
        name_arguments(b.tun_name) + flag_arguments(b),
    );
    lemma_fixed_arguments_tell(a, b);
    lemma_name_shows(a, b);
    lemma_flag_arguments_tell(a, b);
}

/// `clap::Parser::try_parse_from` for `tun2proxy::Args`: the arguments, or the
/// text of the parser's error. The parser accepts the arguments of a
/// configuration where it takes each of its texts, and, on macOS, its device
/// name begins as it has to there; a name that is good there is good
/// everywhere. The arguments then hold what the options say: a flag is set
/// where it is given, a number, a strategy and a level are those that were
/// written, the device has the name that was given, and the proxy, the address
/// and the networks are those that their texts stand for. The text of an
/// error, which may be folded to the width of the terminal, is not stated. On
/// macOS the parser looks at the first four octets of a device name that does
/// not look like an option; it would panic where a character straddles them.
#[verifier::external_body]
fn parse_arguments(argv: Vec<String>) -> (r: Result<tun2proxy::Args, String>)
    requires
        exists|config: TunProxyConfig| #[trigger]
            arguments(config) == text::strings(argv@) && parsable_name(config.tun_name),
    ensures
        forall|config: TunProxyConfig| #[trigger]
            arguments(config) == text::strings(argv@) ==> match r {
                Ok(args) => {
                    &&& understood(config)
                    &&& args_settings(args) == wanted_settings(config)
                    &&& Some(args_settings(args).proxy) == proxy_value(config.proxy_url@)
                    &&& Some(args_settings(args).dns_addr) == address_value(config.dns_addr@)
                    &&& Some(args_settings(args).virtual_dns_pool) == network_value(
                        config.virtual_dns_pool@,
                    )
                },
                Err(_) => understood(config) ==> names_device(config) && !good_everywhere(
                    config.tun_name->0@,
                ),
            },
{
    <tun2proxy::Args as clap::Parser>::try_parse_from(argv).map_err(|err| err.to_string())
}

/// `tun2proxy::Args::tun`: the arguments with this device name.
#[verifier::external_body]
fn name_device(args: &mut tun2proxy::Args, name: &String)
    ensures
        args_settings(*final(args)) == (ArgSettings {
            tun: Some(name@),
            ..args_settings(*old(args))
        }),
{
    args.tun(name.clone());
}

/// What becomes of the parser's answer. An error says that the configuration
/// is not valid.
pub fn parsed_arguments(answer: Result<tun2proxy::Args, String>) -> (r: AtrResult<
    tun2proxy::Args,
>)
    ensures
        match answer {
            Ok(args) => r == Ok::<tun2proxy::Args, AtrError>(args),
            Err(text) => r is Err && r->Err_0.says(ErrorCode::InvalidArgument, text@),
        },
{
    match answer {
        Ok(args) => Ok(args),
        Err(text) => Err(AtrError::InvalidArgument(text)),
    }
}

/// The arguments of a configuration, as `tun2proxy` understands them. It
/// refuses a text that it cannot take apart, and may refuse a device name that
/// is not good on every platform. A name that only some platforms could be
/// handed is given to the arguments afterwards.
pub fn build_tun2proxy_args(config: &TunProxyConfig) -> (r: AtrResult<tun2proxy::Args>)
    ensures
        match r {
            Ok(args) => understood(*config) && args_settings(args) == wanted_settings(*config),
            Err(e) => {
                &&& e is InvalidArgument
                &&& understood(*config) ==> names_device(*config) && !good_everywhere(
                    config.tun_name->0@,
                )
            },
        },
{
    if let Some(name) = &config.tun_name {
        if splits_a_character(name.as_str()) {
            let cs = chars_of(name.as_str());
            if cs.len() > 0 && cs[0] != '-' {
                let answer = parse_arguments(argument_list(config, false));
                assert(understood(unnamed(*config)) == understood(*config));
                return match parsed_arguments(answer) {
                    Ok(mut args) => {
                        name_device(&mut args, name);
                        Ok(args)
                    },
                    Err(e) => Err(e),
                };
            }
        }
    }
    parsed_arguments(parse_arguments(tun2proxy_arguments(config)))
}

// ---------------------------------------------------------------------------
// Engine
// ---------------------------------------------------------------------------

/// Whether an engine has ended.
#[derive(Debug, Clone, Copy, PartialEq, Eq, Structural)]
pub enum TunProxyStatus {
    Running,
    Stopped,
}

/// The state that an engine shares with its worker.
#[derive(Debug)]
pub struct TunProxyEngine {
    /// Whether the worker was told to end.
    pub cancelled: bool,
    pub result: Option<AtrResult<usize>>,
    /// Whether the worker has yet to be waited for.
    pub worker: bool,
}

/// What the worker reports when it starts.
#[derive(Debug)]
pub enum Startup {
    Ready,
    /// The worker could not make its runtime.
    NoRuntime(String),
    /// The worker ended without a report.
    Lost(String),
}

/// What an engine without `tun2proxy` answers.
pub fn unsupported_engine() -> (r: AtrError)
    ensures
        r.says(
            ErrorCode::Unsupported,
            "nulconnect-tun was built without tun2proxy support"@,
        ),
{
    AtrError::Unsupported("nulconnect-tun was built without tun2proxy support".to_owned())
}

/// The error of a worker that could not be started.
pub fn worker_error(cause: &str) -> (r: AtrError)
    ensures
        r.says(ErrorCode::Internal, "failed to start tun2proxy worker: "@ + cause@),
{
    AtrError::Internal("failed to start tun2proxy worker: ".to_owned().concat(cause))
}

impl TunProxyEngine {
    /// The engine once its worker has reported. Where it is not ready the
    /// worker is waited for, and there is no engine.
    pub fn start(report: Startup) -> (r: AtrResult<TunProxyEngine>)
        ensures
            match report {
                Startup::Ready => r == Ok::<TunProxyEngine, AtrError>(
                    TunProxyEngine { cancelled: false, result: None, worker: true },
                ),
                Startup::NoRuntime(cause) => r is Err && r->Err_0.says(
                    ErrorCode::Internal,
                    "failed to create tun2proxy runtime: "@ + cause@,
                ),
                Startup::Lost(cause) => r is Err && r->Err_0.says(
                    ErrorCode::Internal,
                    "tun2proxy worker failed during startup: "@ + cause@,
                ),
            },
    {
        match report {
            Startup::Ready => Ok(
                TunProxyEngine { cancelled: false, result: None, worker: true },
            ),
            Startup::NoRuntime(cause) => Err(
                AtrError::Internal(
                    "failed to create tun2proxy runtime: ".to_owned().concat(cause.as_str()),
                ),
            ),
            Startup::Lost(cause) => Err(
                AtrError::Internal(
                    "tun2proxy worker failed during startup: ".to_owned().concat(cause.as_str()),
                ),
            ),
        }
    }

    /// Tells the worker to end, and says whether it has to be waited for.
    pub fn stop(&mut self) -> (join: bool)
        ensures
            *final(self) == (TunProxyEngine { cancelled: true, worker: false, ..*old(self) }),
            join == old(self).worker,
    {
        self.cancelled = true;
        let join = self.worker;
        self.worker = false;
        join
    }

    /// Tells the worker to end.
    pub fn cancel(&mut self)
        ensures
            *final(self) == (TunProxyEngine { cancelled: true, ..*old(self) }),
    {
        self.cancelled = true;
    }

    /// Stopped as soon as the worker has ended and its result was not taken.
    pub fn status(&self) -> (r: TunProxyStatus)
        ensures
            r == if self.result is Some {
                TunProxyStatus::Stopped
            } else {
                TunProxyStatus::Running
            },
    {
        if self.result.is_some() {
            TunProxyStatus::Stopped
        } else {
            TunProxyStatus::Running
        }
    }

    /// Takes the result, once there is one.
    pub fn take_result(&mut self) -> (r: Option<AtrResult<usize>>)
        ensures
            r == old(self).result,
            *final(self) == (TunProxyEngine { result: None, ..*old(self) }),
    {
        self.result.take()
    }

    /// The worker ended: with the sessions that it served, or with the text of
    /// an error, which counts as a failure of the network.
    pub fn worker_ended(&mut self, outcome: Result<usize, String>)
        ensures
            final(self).cancelled == old(self).cancelled,
            final(self).worker == old(self).worker,
            match outcome {
                Ok(n) => final(self).result == Some(Ok::<usize, AtrError>(n)),
                Err(text) => {
                    &&& final(self).result is Some
                    &&& final(self).result->0 is Err
                    &&& final(self).result->0->Err_0.says(ErrorCode::NetworkFailed, text@)
                },
            },
    {
        self.result = match outcome {
            Ok(n) => Some(Ok(n)),
            Err(text) => Some(Err(AtrError::NetworkFailed(text))),
        };
    }
}

// ---------------------------------------------------------------------------
// Laws
// ---------------------------------------------------------------------------

/// Whether an option is given with a value.
pub open spec fn option_given(
    args: Seq<Seq<char>>,
    name: Seq<char>,
    value: Seq<char>,
) -> bool {
    exists|k: int|
        #![trigger args[k]]
        0 <= k < args.len() - 1 && args[k] == name && args[k + 1] == value
}

/// Every setting of a configuration is an argument: the proxy, the name server
/// and its pool, the limits, the level, the device where it is named, and each
/// network that bypasses the proxy.
pub proof fn every_setting_is_an_argument(config: TunProxyConfig, i: int)
    ensures
        ({
            let args = arguments(config);
            let bypass = text::strings(config.bypass_cidrs@);
            &&& args[0] == "nulconnect-tun2proxy"@
            &&& option_given(args, "--proxy"@, config.proxy_url@)
            &&& option_given(args, "--dns-addr"@, config.dns_addr@)
            &&& option_given(args, "--virtual-dns-pool"@, config.virtual_dns_pool@)
            &&& option_given(
                args,
                "--tcp-timeout"@,
                number::decimal(config.tcp_timeout_secs as nat),
            )
            &&& option_given(
                args,
                "--udp-timeout"@,
                number::decimal(config.udp_timeout_secs as nat),
            )
            &&& option_given(args, "--max-sessions"@, number::decimal(config.max_sessions as nat))
            &&& config.dns_strategy == TunDnsStrategy::Virtual ==> option_given(
                args,
                "--dns"@,
                "virtual"@,
            )
            &&& config.dns_strategy == TunDnsStrategy::OverTcp ==> option_given(
                args,
                "--dns"@,
                "over-tcp"@,
            )
            &&& config.dns_strategy == TunDnsStrategy::Direct ==> option_given(
                args,
                "--dns"@,
                "direct"@,
            )
            &&& option_given(args, "--verbosity"@, level_text(config.verbosity))
            &&& config.tun_name is Some && config.tun_name->0@.len() > 0 ==> option_given(
                args,
                "--tun"@,
                config.tun_name->0@,
            )
            &&& config.setup_routes ==> args.contains("--setup"@)
            &&& config.ipv6_enabled ==> args.contains("--ipv6-enabled"@)
            &&& config.exit_on_fatal_error ==> args.contains("--exit-on-fatal-error"@)
            &&& 0 <= i < bypass.len() && bypass[i].len() > 0 ==> option_given(
                args,
                "--bypass"@,
                bypass[i],
            )
        }),
{
    let args = arguments(config);
    let fixed = fixed_arguments(config);
    let named = name_arguments(config.tun_name);
    let setup = flag(config.setup_routes, "--setup"@);
    let six = flag(config.ipv6_enabled, "--ipv6-enabled"@);
    let exit = flag(config.exit_on_fatal_error, "--exit-on-fatal-error"@);
    let bypass = text::strings(config.bypass_cidrs@);
    let tail = bypass_arguments(bypass);
    assert forall|k: int| 0 <= k < 17 implies #[trigger] args[k] == fixed[k] by {}
    assert(args[1] == "--proxy"@ && args[2] == config.proxy_url@);
    assert(args[3] == "--dns"@ && args[4] == dns_text(config.dns_strategy));
    assert(args[5] == "--dns-addr"@ && args[6] == config.dns_addr@);
    assert(args[7] == "--virtual-dns-pool"@ && args[8] == config.virtual_dns_pool@);
    assert(args[9] == "--tcp-timeout"@ && args[11] == "--udp-timeout"@ && args[13]
        == "--max-sessions"@);
    assert(args[10] == fixed[10] && args[12] == fixed[12] && args[14] == fixed[14]);
    assert(args[15] == "--verbosity"@ && args[16] == level_text(config.verbosity));
    if named.len() > 0 {
        assert(args[17] == "--tun"@ && args[18] == config.tun_name->0@);
    }
    let a = 17 + named.len() as int;
    if config.setup_routes {
        assert(args[a] == "--setup"@);
    }
    let b = a + setup.len();
    if config.ipv6_enabled {
        assert(args[b] == "--ipv6-enabled"@);
    }
    let c = b + six.len();
    if config.exit_on_fatal_error {
        assert(args[c] == "--exit-on-fatal-error"@);
    }
    let d = c + exit.len();
    if 0 <= i < bypass.len() && bypass[i].len() > 0 {
        lemma_bypass_given(bypass, i);
        let k = choose|k: int|
            #![trigger tail[k]]
            0 <= k < tail.len() - 1 && tail[k] == "--bypass"@ && tail[k + 1] == bypass[i];
        assert(args[d + k] == tail[k]);
        assert(args[d + k + 1] == tail[k + 1]);
    }
}

proof fn lemma_bypass_given(cidrs: Seq<Seq<char>>, i: int)
    requires
        0 <= i < cidrs.len(),
        cidrs[i].len() > 0,
    ensures
        option_given(bypass_arguments(cidrs), "--bypass"@, cidrs[i]),
    decreases cidrs.len(),
{
    let fewer = cidrs.drop_last();
    let head = bypass_arguments(fewer);
    let all = bypass_arguments(cidrs);
    if i < fewer.len() {
        lemma_bypass_given(fewer, i);
        assert(fewer[i] == cidrs[i]);
        let k = choose|k: int|
            #![trigger head[k]]
            0 <= k < head.len() - 1 && head[k] == "--bypass"@ && head[k + 1] == cidrs[i];
        assert(all[k] == head[k]);
        assert(all[k + 1] == head[k + 1]);
    } else {
        let k = head.len() as int;
        assert(all[k] == "--bypass"@);
        assert(all[k + 1] == cidrs[i]);
    }
}

/// Nothing that is not said is an argument: a configuration without a device
/// name, flags and networks gives only the seventeen arguments that every one
/// gives, and each of these adds its own.
pub proof fn nothing_else_is_an_argument(config: TunProxyConfig)
    ensures
        arguments(config).len() == 17 + (if config.tun_name is Some && config.tun_name->0@.len()
            > 0 {
            2nat
        } else {
            0nat
        }) + (if config.setup_routes {
            1nat
        } else {
            0nat
        }) + (if config.ipv6_enabled {
            1nat
        } else {
            0nat
        }) + (if config.exit_on_fatal_error {
            1nat
        } else {
            0nat
        }) + 2 * given(text::strings(config.bypass_cidrs@)).len(),
{
    lemma_bypass_pairs(text::strings(config.bypass_cidrs@));
}

/// The level that is asked for has the name that it has in every log.
pub proof fn a_level_has_its_name(level: TunLogLevel)
    ensures
        level == TunLogLevel::Off ==> level_text(level) == "off"@,
        level == TunLogLevel::Error ==> level_text(level) == "error"@,
        level == TunLogLevel::Warn ==> level_text(level) == "warn"@,
        level == TunLogLevel::Info ==> level_text(level) == "info"@,
        level == TunLogLevel::Debug ==> level_text(level) == "debug"@,
        level == TunLogLevel::Trace ==> level_text(level) == "trace"@,
{
}

/// The networks that are given are those that are not empty, in order.
pub proof fn the_networks_are_those_that_are_given(a: Seq<Seq<char>>, b: Seq<Seq<char>>, i: int)
    ensures
        given(a + b) == given(a) + given(b),
        0 <= i < a.len() && a[i].len() > 0 ==> given(a).contains(a[i]),
        forall|x: Seq<char>| #[trigger] given(b).contains(x) ==> x.len() > 0 && b.contains(x),
    decreases a.len() + b.len(),
{
    if b.len() > 0 {
        let fewer = b.drop_last();
        the_networks_are_those_that_are_given(a, fewer, i);
        assert((a + b).drop_last() =~= a + fewer);
        assert((a + b).last() == b.last());
        assert(given(a + b) =~= given(a) + given(b));
        assert forall|x: Seq<char>| #[trigger] given(b).contains(x) implies x.len() > 0
            && b.contains(x) by {
            let k = choose|k: int| 0 <= k < given(b).len() && given(b)[k] == x;
            if k < given(fewer).len() {
                assert(given(fewer)[k] == x);
                assert(given(fewer).contains(x));
                let m = choose|m: int| 0 <= m < fewer.len() && fewer[m] == x;
                assert(b[m] == x);
            } else {
                assert(b[b.len() - 1] == x);
            }
        }
    } else {
        assert(a + b =~= a);
        assert(given(a) + given(b) =~= given(a));
        if 0 <= i < a.len() && a[i].len() > 0 {
            let fewer = a.drop_last();
            let head = given(fewer);
            if i < fewer.len() {
                the_networks_are_those_that_are_given(fewer, b, i);
                assert(fewer[i] == a[i]);
                let k = choose|k: int| 0 <= k < head.len() && head[k] == a[i];
                assert(given(a)[k] == a[i]);
            } else {
                assert(given(a)[head.len() as int] == a[i]);
            }
        }
    }
}

/// A device name of ordinary characters is never split; one of which three
/// octets stand in front of a wider character is.
pub proof fn a_name_is_split_inside_a_character(s: Seq<char>, c: char, rest: Seq<char>)
    requires
        forall|k: int| 0 <= k < s.len() ==> (#[trigger] s[k] as int) < 0x80,
    ensures
        cuts_at(s, 4),
        s.len() == 3 && c as int >= 0x80 ==> !cuts_at(s + seq![c] + rest, 4),
        s.len() == 4 ==> cuts_at(s + seq![c] + rest, 4),
{
    lemma_cuts(s, 4);
    let t = s + seq![c] + rest;
    if s.len() == 3 {
        lemma_cuts_behind(s, seq![c] + rest, 4);
        assert(s + (seq![c] + rest) =~= t);
        let u = seq![c] + rest;
        assert(u[0] == c);
        assert(!cuts_at(u.drop_first(), 1 - octets_in(c)) || (c as int) < 0x80);
    }
    if s.len() == 4 {
        lemma_cuts_behind(s, seq![c] + rest, 4);
        assert(s + (seq![c] + rest) =~= t);
    }
}

proof fn lemma_cuts(s: Seq<char>, n: int)
    requires
        n >= 0,
        forall|k: int| 0 <= k < s.len() ==> (#[trigger] s[k] as int) < 0x80,
    ensures
        cuts_at(s, n),
    decreases s.len(),
{
    if s.len() > 0 && n > 0 {
        let t = s.drop_first();
        assert forall|k: int| 0 <= k < t.len() implies (#[trigger] t[k] as int) < 0x80 by {
            assert(t[k] == s[k + 1]);
        }
        assert((s[0] as int) < 0x80);
        lemma_cuts(t, n - 1);
    }
}

proof fn lemma_cuts_behind(s: Seq<char>, t: Seq<char>, n: int)
    requires
        n >= s.len(),
        t.len() > 0,
        forall|k: int| 0 <= k < s.len() ==> (#[trigger] s[k] as int) < 0x80,
    ensures
        cuts_at(s + t, n) == cuts_at(t, n - s.len()),
    decreases s.len(),
{
    if s.len() == 0 {
        assert(s + t =~= t);
    } else {
        let u = s.drop_first();
        assert forall|k: int| 0 <= k < u.len() implies (#[trigger] u[k] as int) < 0x80 by {
            assert(u[k] == s[k + 1]);
        }
        assert((s[0] as int) < 0x80);
        assert((s + t).drop_first() =~= u + t);
        assert((s + t)[0] == s[0]);
        lemma_cuts_behind(u, t, n - 1);
    }
}

} // verus!
