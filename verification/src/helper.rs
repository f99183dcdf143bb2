//! The macOS helper: its configuration, its command line and its files.
use crate::encoding;
use crate::encoding::decode_base64;
use crate::error::{AtrError, AtrResult, ErrorCode};
use crate::text;
use crate::text::{chars_of, is_text, lines_of, string_of, trimmed};
use crate::vpn_engine::{ClientConfig, VpnCookieRecord, VpnEngineConfig, VpnSessionMaterial};
use vstd::prelude::*;
use vstd::string::*;

verus! {

// ---------------------------------------------------------------------------
// Configuration
// ---------------------------------------------------------------------------

/// How to reach the service, as a request says it.
#[derive(Debug, Clone)]
pub struct HelperClientConfig {
    pub server_host: String,
    pub server_port: u16,
    pub user_agent: String,
    pub connect_timeout_ms: u64,
    pub io_timeout_ms: u64,
    pub node_probe_timeout_ms: u64,
    pub allow_insecure_tls: bool,
}

/// A cookie, as a request says it.
#[derive(Debug, Clone)]
pub struct HelperCookieRecord {
    pub host: String,
    pub scheme: String,
    pub name: String,
    pub value: String,
}

/// A session, as a request says it.
#[derive(Debug, Clone)]
pub struct HelperSessionMaterial {
    pub username: String,
    pub sid: String,
    pub device_id: String,
    pub connection_id: String,
    pub sign_key_hex: String,
    pub cookies: Vec<HelperCookieRecord>,
}

/// What a tunnel is started with.
#[derive(Debug, Clone)]
pub struct HelperConfig {
    pub client: HelperClientConfig,
    pub session: HelperSessionMaterial,
    /// The resources, in Base64.
    pub resource_bytes: String,
    pub service_host: String,
    pub tun_name: Option<String>,
    pub dns_addr: String,
    pub managed_route_cidrs: Vec<String>,
    pub managed_domains: Vec<String>,
    pub mtu: u16,
    pub setup_routes: bool,
    pub exit_on_fatal_error: bool,
}

/// How to reach the service. No interface is chosen.
pub fn client_config(value: &HelperClientConfig) -> (r: ClientConfig)
    ensures
        r == (ClientConfig {
            server_host: value.server_host,
            server_port: value.server_port,
            user_agent: value.user_agent,
            connect_timeout_ms: value.connect_timeout_ms,
            io_timeout_ms: value.io_timeout_ms,
            node_probe_timeout_ms: value.node_probe_timeout_ms,
            allow_insecure_tls: value.allow_insecure_tls,
            bind_interface: None,
            auto_detect_interface: false,
        }),
{
    ClientConfig {
        server_host: value.server_host.clone(),
        server_port: value.server_port,
        user_agent: value.user_agent.clone(),
        connect_timeout_ms: value.connect_timeout_ms,
        io_timeout_ms: value.io_timeout_ms,
        node_probe_timeout_ms: value.node_probe_timeout_ms,
        allow_insecure_tls: value.allow_insecure_tls,
        bind_interface: None,
        auto_detect_interface: false,
    }
}

/// The cookie of a record.
pub open spec fn cookie(c: HelperCookieRecord) -> VpnCookieRecord {
    VpnCookieRecord { host: c.host, scheme: c.scheme, name: c.name, value: c.value }
}

/// Whether a session is the one of a record.
pub open spec fn same_session(value: HelperSessionMaterial, r: VpnSessionMaterial) -> bool {
    &&& r.username == value.username
    &&& r.sid == value.sid
    &&& r.device_id == value.device_id
    &&& r.connection_id == value.connection_id
    &&& r.sign_key_hex == value.sign_key_hex
    &&& r.cookies@ == value.cookies@.map_values(|c: HelperCookieRecord| cookie(c))
}

/// The session of a record.
pub fn session_material(value: &HelperSessionMaterial) -> (r: VpnSessionMaterial)
    ensures
        same_session(*value, r),
{
    let mut cookies: Vec<VpnCookieRecord> = Vec::new();
    for i in 0..value.cookies.len()
        invariant
            cookies@ == value.cookies@.take(i as int).map_values(
                |c: HelperCookieRecord| cookie(c),
            ),
    {
        let ghost before = cookies@;
        let c = &value.cookies[i];
        cookies.push(
            VpnCookieRecord {
                host: c.host.clone(),
                scheme: c.scheme.clone(),
                name: c.name.clone(),
                value: c.value.clone(),
            },
        );
        assert(cookies@ =~= value.cookies@.take(i + 1).map_values(
            |c: HelperCookieRecord| cookie(c),
        ));
    }
    assert(value.cookies@.take(value.cookies.len() as int) =~= value.cookies@);
    VpnSessionMaterial {
        username: value.username.clone(),
        sid: value.sid.clone(),
        device_id: value.device_id.clone(),
        connection_id: value.connection_id.clone(),
        sign_key_hex: value.sign_key_hex.clone(),
        cookies,
    }
}

/// Whether an engine is configured as a request wants it, with these
/// resources. The device writes no headers, and an empty name is none.
pub open spec fn configures(config: HelperConfig, resources: Seq<u8>, r: VpnEngineConfig) -> bool {
    &&& r.client.server_host == config.client.server_host
    &&& r.client.server_port == config.client.server_port
    &&& r.client.user_agent == config.client.user_agent
    &&& r.client.connect_timeout_ms == config.client.connect_timeout_ms
    &&& r.client.io_timeout_ms == config.client.io_timeout_ms
    &&& r.client.node_probe_timeout_ms == config.client.node_probe_timeout_ms
    &&& r.client.allow_insecure_tls == config.client.allow_insecure_tls
    &&& r.client.bind_interface is None
    &&& !r.client.auto_detect_interface
    &&& same_session(config.session, r.session)
    &&& r.resource_bytes@ == resources
    &&& r.service_host == config.service_host
    &&& r.tun_name == if config.tun_name is Some && config.tun_name->0@.len() > 0 {
        config.tun_name
    } else {
        None
    }
    &&& r.mtu == config.mtu
    &&& !r.packet_information
    &&& r.exit_on_fatal_error == config.exit_on_fatal_error
}

/// The configuration of the engine, once the resources are decoded.
pub fn engine_config(config: &HelperConfig, resources: Result<Vec<u8>, String>) -> (r: AtrResult<
    VpnEngineConfig,
>)
    ensures
        match resources {
            Ok(bytes) => r is Ok && configures(*config, bytes@, r->Ok_0),
            Err(text) => r is Err && r->Err_0.says(
                ErrorCode::ParseFailed,
                "invalid resource_bytes: "@ + text@,
            ),
        },
{
    match resources {
        Ok(resource_bytes) => {
            let tun_name = match &config.tun_name {
                Some(name) => if name.as_str().unicode_len() > 0 {
                    Some(name.clone())
                } else {
                    None
                },
                None => None,
            };
            Ok(
                VpnEngineConfig {
                    client: client_config(&config.client),
                    session: session_material(&config.session),
                    resource_bytes,
                    service_host: config.service_host.clone(),
                    tun_name,
                    mtu: config.mtu,
                    packet_information: false,
                    exit_on_fatal_error: config.exit_on_fatal_error,
                },
            )
        },
        Err(text) => Err(
            AtrError::ParseFailed("invalid resource_bytes: ".to_owned().concat(text.as_str())),
        ),
    }
}

impl HelperConfig {
    /// The configuration of the engine.
    pub fn into_vpn_engine_config(&self) -> (r: AtrResult<VpnEngineConfig>)
        ensures
            match encoding::base64_decoded(self.resource_bytes@) {
                Ok(bytes) => r is Ok && configures(*self, bytes, r->Ok_0),
                Err(text) => r is Err && r->Err_0.says(
                    ErrorCode::ParseFailed,
                    "invalid resource_bytes: "@ + text,
                ),
            },
    {
        engine_config(self, decode_base64(self.resource_bytes.as_str()))
    }

    /// The resources, for looking up the nodes.
    pub fn node_resources(&self) -> (r: AtrResult<Vec<u8>>)
        ensures
            match encoding::base64_decoded(self.resource_bytes@) {
                Ok(bytes) => r is Ok && r->Ok_0@ == bytes,
                Err(text) => r is Err && r->Err_0.says(
                    ErrorCode::InvalidArgument,
                    "invalid resource bytes: "@ + text,
                ),
            },
    {
        node_resource_bytes(decode_base64(self.resource_bytes.as_str()))
    }
}

/// The resources for looking up the nodes, once they are decoded.
pub fn node_resource_bytes(resources: Result<Vec<u8>, String>) -> (r: AtrResult<Vec<u8>>)
    ensures
        match resources {
            Ok(bytes) => r is Ok && r->Ok_0@ == bytes@,
            Err(text) => r is Err && r->Err_0.says(
                ErrorCode::InvalidArgument,
                "invalid resource bytes: "@ + text@,
            ),
        },
{
    match resources {
        Ok(bytes) => Ok(bytes),
        Err(text) => Err(
            AtrError::InvalidArgument("invalid resource bytes: ".to_owned().concat(text.as_str())),
        ),
    }
}

// ---------------------------------------------------------------------------
// Command line
// ---------------------------------------------------------------------------

/// What the helper is told to do.
#[derive(Debug)]
pub enum HelperCli {
    /// Run one tunnel until the stop file appears.
    Run { config_path: String, state_path: String, stop_path: String },
    /// Serve requests.
    Serve { socket_path: String, state_dir: String },
    /// Say which version this is.
    Version,
}

/// An argument that has to be there.
pub fn required_path(value: Option<String>, name: &str) -> (r: AtrResult<String>)
    ensures
        match value {
            Some(path) => r == Ok::<String, AtrError>(path),
            None => r is Err && r->Err_0.says(ErrorCode::InvalidArgument, "missing "@ + name@),
        },
{
    match value {
        Some(path) => Ok(path),
        None => Err(AtrError::InvalidArgument("missing ".to_owned().concat(name))),
    }
}

/// The arguments that the `run` command lacks, first one first.
pub open spec fn missing_path(args: Seq<String>) -> Option<Seq<char>> {
    if args.len() < 2 {
        Some("config path"@)
    } else if args.len() < 3 {
        Some("state path"@)
    } else if args.len() < 4 {
        Some("stop path"@)
    } else {
        None
    }
}

/// The socket that is served where none is named.
pub open spec fn default_socket_path() -> Seq<char> {
    "/var/run/nulconnect-helper.sock"@
}

/// The directory of the helper's files where none is named.
pub open spec fn default_state_dir() -> Seq<char> {
    "/Library/Application Support/NulConnect"@
}

fn argument(args: &Vec<String>, i: usize) -> (r: Option<String>)
    ensures
        r == if i < args@.len() {
            Some(args@[i as int])
        } else {
            None
        },
{
    if i < args.len() {
        Some(args[i].clone())
    } else {
        None
    }
}

/// Reads the arguments behind the name of the program.
pub fn parse_cli(args: &Vec<String>) -> (r: AtrResult<HelperCli>)
    ensures
        if args@.len() == 0 {
            r is Err && r->Err_0.says(ErrorCode::InvalidArgument, "missing command"@)
        } else if args@[0]@ == "run"@ {
            match missing_path(args@) {
                Some(name) => r is Err && r->Err_0.says(
                    ErrorCode::InvalidArgument,
                    "missing "@ + name,
                ),
                None => r == Ok::<HelperCli, AtrError>(
                    HelperCli::Run {
                        config_path: args@[1],
                        state_path: args@[2],
                        stop_path: args@[3],
                    },
                ),
            }
        } else if args@[0]@ == "serve"@ {
            &&& r is Ok
            &&& r->Ok_0 is Serve
            &&& r->Ok_0->socket_path@ == if args@.len() > 1 {
                args@[1]@
            } else {
                default_socket_path()
            }
            &&& r->Ok_0->state_dir@ == if args@.len() > 2 {
                args@[2]@
            } else {
                default_state_dir()
            }
        } else if args@[0]@ == "version"@ {
            r == Ok::<HelperCli, AtrError>(HelperCli::Version)
        } else {
            r is Err && r->Err_0.says(
                ErrorCode::InvalidArgument,
                "unsupported command: "@ + args@[0]@,
            )
        },
        args@.len() > 0 && args@[0]@ == "run"@ ==> {
            &&& args@.len() == 1 ==> r is Err && r->Err_0.says(
                ErrorCode::InvalidArgument,
                "missing "@ + "config path"@,
            )
            &&& args@.len() == 2 ==> r is Err && r->Err_0.says(
                ErrorCode::InvalidArgument,
                "missing "@ + "state path"@,
            )
            &&& args@.len() == 3 ==> r is Err && r->Err_0.says(
                ErrorCode::InvalidArgument,
                "missing "@ + "stop path"@,
            )
            &&& args@.len() >= 4 ==> r is Ok
        },
        r is Ok && r->Ok_0 is Serve && args@.len() < 2 ==> r->Ok_0->socket_path@
            == "/var/run/nulconnect-helper.sock"@,
        r is Ok && r->Ok_0 is Serve && args@.len() < 3 ==> r->Ok_0->state_dir@
            == "/Library/Application Support/NulConnect"@,
{
    if args.len() == 0 {
        return Err(AtrError::InvalidArgument("missing command".to_owned()));
    }
    let cs = chars_of(args[0].as_str());
    let command = cs.as_slice();
    proof {
        reveal_strlit("run");
        reveal_strlit("serve");
        reveal_strlit("version");
    }
    if is_text(command, "run") {
        let config_path = match required_path(argument(args, 1), "config path") {
            Ok(path) => path,
            Err(e) => {
                return Err(e);
            },
        };
        let state_path = match required_path(argument(args, 2), "state path") {
            Ok(path) => path,
            Err(e) => {
                return Err(e);
            },
        };
        let stop_path = match required_path(argument(args, 3), "stop path") {
            Ok(path) => path,
            Err(e) => {
                return Err(e);
            },
        };
        Ok(HelperCli::Run { config_path, state_path, stop_path })
    } else if is_text(command, "serve") {
        let socket_path = match argument(args, 1) {
            Some(path) => path,
            None => "/var/run/nulconnect-helper.sock".to_owned(),
        };
        let state_dir = match argument(args, 2) {
            Some(path) => path,
            None => "/Library/Application Support/NulConnect".to_owned(),
        };
        Ok(HelperCli::Serve { socket_path, state_dir })
    } else if is_text(command, "version") {
        Ok(HelperCli::Version)
    } else {
        Err(
            AtrError::InvalidArgument(
                "unsupported command: ".to_owned().concat(args[0].as_str()),
            ),
        )
    }
}

// ---------------------------------------------------------------------------
// Files
// ---------------------------------------------------------------------------

/// A relative path below a directory.
pub open spec fn joined(dir: Seq<char>, name: Seq<char>) -> Seq<char> {
    if dir.len() == 0 || dir.last() == '/' {
        dir + name
    } else {
        dir + "/"@ + name
    }
}

/// A relative path below a directory.
pub fn join_path(dir: &str, name: &str) -> (r: String)
    ensures
        r@ == joined(dir@, name@),
{
    let n = dir.unicode_len();
    let mut r = dir.to_owned();
    if n > 0 && dir.get_char(n - 1) != '/' {
        r.append("/");
    }
    r.append(name);
    r
}

/// The files of the helper.
#[derive(Debug, Clone, Copy, PartialEq, Eq, Structural)]
pub enum StateFile {
    Tun,
    TunNetworkSnapshot,
    SystemProxySnapshot,
    ManagedRoutes,
    ScopedDns,
}

/// The name of a file of the helper.
pub open spec fn file_name(file: StateFile) -> Seq<char> {
    match file {
        StateFile::Tun => "tun-state.json"@,
        StateFile::TunNetworkSnapshot => "tun-network-snapshot.json"@,
        StateFile::SystemProxySnapshot => "system-proxy-snapshot.json"@,
        StateFile::ManagedRoutes => "tun-managed-routes.json"@,
        StateFile::ScopedDns => "tun-scoped-dns.json"@,
    }
}

/// The directory that a file of the helper is in. Routes and resolvers are
/// always noted in the default one.
pub open spec fn file_dir(file: StateFile, state_dir: Seq<char>) -> Seq<char> {
    match file {
        StateFile::ManagedRoutes => default_state_dir(),
        StateFile::ScopedDns => default_state_dir(),
        _ => state_dir,
    }
}

/// The path of a file of the helper.
pub fn state_file_path(file: StateFile, state_dir: &str) -> (r: String)
    ensures
        r@ == joined(file_dir(file, state_dir@), file_name(file)),
        file == StateFile::Tun ==> r@ == joined(state_dir@, "tun-state.json"@),
        file == StateFile::TunNetworkSnapshot ==> r@ == joined(
            state_dir@,
            "tun-network-snapshot.json"@,
        ),
        file == StateFile::SystemProxySnapshot ==> r@ == joined(
            state_dir@,
            "system-proxy-snapshot.json"@,
        ),
        file == StateFile::ManagedRoutes ==> r@ == joined(
            "/Library/Application Support/NulConnect"@,
            "tun-managed-routes.json"@,
        ),
        file == StateFile::ScopedDns ==> r@ == joined(
            "/Library/Application Support/NulConnect"@,
            "tun-scoped-dns.json"@,
        ),
{
    match file {
        StateFile::Tun => join_path(state_dir, "tun-state.json"),
        StateFile::TunNetworkSnapshot => join_path(state_dir, "tun-network-snapshot.json"),
        StateFile::SystemProxySnapshot => join_path(state_dir, "system-proxy-snapshot.json"),
        StateFile::ManagedRoutes => join_path(
            "/Library/Application Support/NulConnect",
            "tun-managed-routes.json",
        ),
        StateFile::ScopedDns => join_path(
            "/Library/Application Support/NulConnect",
            "tun-scoped-dns.json",
        ),
    }
}

/// The network snapshot of a single run: beside its state file, or in the
/// directory for temporary files where that has no parent.
pub fn legacy_tun_network_snapshot_path(parent: &Option<String>) -> (r: String)
    ensures
        r@ == joined(
            match *parent {
                Some(dir) => dir@,
                None => "/tmp"@,
            },
            "tun-network-snapshot.json"@,
        ),
{
    match parent {
        Some(dir) => join_path(dir.as_str(), "tun-network-snapshot.json"),
        None => join_path("/tmp", "tun-network-snapshot.json"),
    }
}

// ---------------------------------------------------------------------------
// Limits and diagnostics
// ---------------------------------------------------------------------------

/// The file descriptors that the helper wants.
pub const WANTED_DESCRIPTORS: u64 = 4096;

/// The limit to raise the number of file descriptors to: what is wanted, as
/// far as it is allowed. None where there are enough.
pub fn descriptor_limit(current: u64, allowed: u64) -> (r: Option<u64>)
    ensures
        ({
            let target = if allowed < 4096 {
                allowed
            } else {
                4096u64
            };
            r == if current >= target {
                None
            } else {
                Some(target)
            }
        }),
{
    let target: u64 = if allowed < WANTED_DESCRIPTORS {
        allowed
    } else {
        WANTED_DESCRIPTORS
    };
    if current >= target {
        None
    } else {
        Some(target)
    }
}

/// Texts with a separator between them.
pub open spec fn joined_with(lines: Seq<Seq<char>>, sep: Seq<char>) -> Seq<char>
    decreases lines.len(),
{
    if lines.len() == 0 {
        Seq::empty()
    } else if lines.len() == 1 {
        lines[0]
    } else {
        joined_with(lines.drop_last(), sep) + sep + lines.last()
    }
}

/// What the log shows of the output of a tool: the first lines of its ordinary
/// output, or of its error output where the first is blank.
pub open spec fn shown_output(stdout: Seq<char>, stderr: Seq<char>) -> Seq<char> {
    let all = text::lines(
        if text::trim(stdout).len() == 0 {
            text::trim(stderr)
        } else {
            text::trim(stdout)
        },
    );
    joined_with(
        if all.len() <= 24 {
            all
        } else {
            all.take(24)
        },
        " | "@,
    )
}

/// What the log shows of the output of a tool.
pub fn diagnostic_line(stdout: &str, stderr: &str) -> (r: String)
    ensures
        r@ == shown_output(stdout@, stderr@),
{
    let out = chars_of(stdout);
    let err = chars_of(stderr);
    let shown = if trimmed(out.as_slice()).len() == 0 {
        trimmed(err.as_slice())
    } else {
        trimmed(out.as_slice())
    };
    let lines = lines_of(shown);
    let ghost all = text::texts(lines@);
    let n: usize = if lines.len() <= 24 {
        lines.len()
    } else {
        24
    };
    let mut r = String::new();
    assert(r@ =~= joined_with(all.take(0), " | "@));
    for i in 0..n
        invariant
            n <= lines.len(),
            all == text::texts(lines@),
            r@ == joined_with(all.take(i as int), " | "@),
    {
        let ghost one = all.take(i + 1);
        assert(one.drop_last() =~= all.take(i as int));
        assert(one.last() == lines@[i as int]@);
        let ghost before = r@;
        if i > 0 {
            r.append(" | ");
        }
        r.append(string_of(lines[i].as_slice()).as_str());
        proof {
            if i == 0 {
                assert(r@ =~= one[0]);
            }
        }
    }
    assert(all.take(n as int) =~= if all.len() <= 24 { all } else { all.take(24) });
    r
}

// ---------------------------------------------------------------------------
// Laws
// ---------------------------------------------------------------------------

/// The session of an engine is the one that was asked for, with all its
/// cookies, in order, each whole.
pub proof fn every_cookie_is_carried(value: HelperSessionMaterial, r: VpnSessionMaterial, i: int)
    requires
        same_session(value, r),
    ensures
        r.username@ == value.username@,
        r.sid@ == value.sid@,
        r.device_id@ == value.device_id@,
        r.connection_id@ == value.connection_id@,
        r.sign_key_hex@ == value.sign_key_hex@,
        r.cookies@.len() == value.cookies@.len(),
        0 <= i < value.cookies@.len() ==> {
            &&& r.cookies@[i].host@ == value.cookies@[i].host@
            &&& r.cookies@[i].scheme@ == value.cookies@[i].scheme@
            &&& r.cookies@[i].name@ == value.cookies@[i].name@
            &&& r.cookies@[i].value@ == value.cookies@[i].value@
        },
{
}

/// An engine is configured with everything that a request says, unchanged, and
/// with the resources as they were decoded.
pub proof fn an_engine_is_configured_as_asked(
    config: HelperConfig,
    resources: Seq<u8>,
    r: VpnEngineConfig,
)
    requires
        configures(config, resources, r),
    ensures
        r.client.server_host@ == config.client.server_host@,
        r.client.server_port == config.client.server_port,
        r.client.user_agent@ == config.client.user_agent@,
        r.client.connect_timeout_ms == config.client.connect_timeout_ms,
        r.client.io_timeout_ms == config.client.io_timeout_ms,
        r.client.node_probe_timeout_ms == config.client.node_probe_timeout_ms,
        r.client.allow_insecure_tls == config.client.allow_insecure_tls,
        r.client.bind_interface is None,
        !r.client.auto_detect_interface,
        r.session.username@ == config.session.username@,
        r.session.sid@ == config.session.sid@,
        r.session.cookies@.len() == config.session.cookies@.len(),
        r.resource_bytes@ == resources,
        r.service_host@ == config.service_host@,
        r.mtu == config.mtu,
        !r.packet_information,
        r.exit_on_fatal_error == config.exit_on_fatal_error,
        config.tun_name is Some && config.tun_name->0@.len() > 0 ==> r.tun_name is Some
            && r.tun_name->0@ == config.tun_name->0@,
        config.tun_name is None || config.tun_name->0@.len() == 0 ==> r.tun_name is None,
{
    every_cookie_is_carried(config.session, r.session, 0);
}

/// A path below a directory is the directory, one slash, and the name, and the
/// name can be told from it.
pub proof fn a_path_is_a_directory_and_a_name(dir: Seq<char>, name: Seq<char>, other: Seq<char>)
    ensures
        dir.len() > 0 && dir.last() != '/' ==> joined(dir, name) == dir + seq!['/'] + name,
        dir.len() > 0 && dir.last() == '/' ==> joined(dir, name) == dir + name,
        dir.len() == 0 ==> joined(dir, name) == name,
        joined(dir, name) == joined(dir, other) ==> name == other,
        !name.contains('/') && dir.len() > 0 && dir.last() != '/' ==> text::split_at_last(
            joined(dir, name),
            '/',
        ) == Some((dir, name)),
{
    reveal_strlit("/");
    assert("/"@ =~= seq!['/']);
    if dir.len() == 0 {
        assert(dir + name =~= name);
    }
    let skip = joined(dir, name).len() - name.len();
    assert(joined(dir, name).skip(skip) =~= name);
    assert(joined(dir, other).skip(skip) =~= other);
    if !name.contains('/') && dir.len() > 0 && dir.last() != '/' {
        text::cutting_at_the_last_undoes_joining(dir, '/', name);
    }
}

/// No two files of the helper have one name.
pub proof fn files_are_told_apart(a: StateFile, b: StateFile)
    ensures
        file_name(a) == file_name(b) ==> a == b,
{
    reveal_strlit("tun-state.json");
    reveal_strlit("tun-network-snapshot.json");
    reveal_strlit("system-proxy-snapshot.json");
    reveal_strlit("tun-managed-routes.json");
    reveal_strlit("tun-scoped-dns.json");
    assert("tun-state.json"@.len() == 14);
    assert("tun-network-snapshot.json"@.len() == 25);
    assert("system-proxy-snapshot.json"@.len() == 26);
    assert("tun-managed-routes.json"@.len() == 23);
    assert("tun-scoped-dns.json"@.len() == 19);
}

proof fn lemma_joined_push(a: Seq<Seq<char>>, x: Seq<char>, sep: Seq<char>)
    ensures
        joined_with(a.push(x), sep) == if a.len() == 0 {
            x
        } else {
            joined_with(a, sep) + sep + x
        },
{
    assert(a.push(x).drop_last() =~= a);
}

/// The lines of an output are shown in order, with the separator between any
/// two of them and nothing else.
pub proof fn lines_are_shown_in_order(a: Seq<Seq<char>>, b: Seq<Seq<char>>, sep: Seq<char>)
    requires
        a.len() > 0,
        b.len() > 0,
    ensures
        joined_with(a + b, sep) == joined_with(a, sep) + sep + joined_with(b, sep),
        joined_with(seq![a[0]], sep) == a[0],
    decreases b.len(),
{
    let fewer = b.drop_last();
    lemma_joined_push(a + fewer, b.last(), sep);
    lemma_joined_push(fewer, b.last(), sep);
    assert((a + fewer).push(b.last()) =~= a + b);
    assert(fewer.push(b.last()) =~= b);
    if fewer.len() > 0 {
        lines_are_shown_in_order(a, fewer, sep);
        assert(joined_with(a + b, sep) =~= joined_with(a, sep) + sep + joined_with(b, sep));
    } else {
        assert(a + fewer =~= a);
    }
}

/// Of the output of a tool the first 24 lines are shown: all of them where
/// there are no more.
pub proof fn the_first_lines_of_an_output_are_shown(stdout: Seq<char>, stderr: Seq<char>)
    ensures
        ({
            let out = text::lines(text::trim(stdout));
            let err = text::lines(text::trim(stderr));
            &&& text::trim(stdout).len() > 0 && out.len() <= 24 ==> shown_output(stdout, stderr)
                == joined_with(out, " | "@)
            &&& text::trim(stdout).len() > 0 && out.len() > 24 ==> shown_output(stdout, stderr)
                == joined_with(out.take(24), " | "@)
            &&& text::trim(stdout).len() == 0 && err.len() <= 24 ==> shown_output(stdout, stderr)
                == joined_with(err, " | "@)
            &&& text::trim(stdout).len() == 0 && err.len() > 24 ==> shown_output(stdout, stderr)
                == joined_with(err.take(24), " | "@)
        }),
{
}

} // verus!
