//! The Windows service: its command line, its life under the service manager,
//! and its installation.
use crate::text;
use crate::text::{chars_of, is_text, to_lower};
use crate::windows;
use crate::windows::win_join;
use vstd::prelude::*;
use vstd::string::*;

verus! {

// ---------------------------------------------------------------------------
// Command line
// ---------------------------------------------------------------------------

/// What the executable is told to do.
#[derive(Debug, Clone, Copy, PartialEq, Eq, Structural)]
pub enum HostCommand {
    /// Run under the service manager.
    Service,
    /// Serve on the console.
    Serve,
    Version,
    Install,
    Uninstall,
    /// Nothing: run under the service manager if it started this, or explain
    /// the usage.
    Unnamed,
    /// Something else: explain the usage.
    Usage,
}

/// The command of an argument, whatever its case. An argument that is no text
/// counts as none.
pub open spec fn host_command(arg: Option<Seq<char>>) -> HostCommand {
    let c = match arg {
        Some(a) => text::lower(a),
        None => ""@,
    };
    if c == "service"@ {
        HostCommand::Service
    } else if c == "serve"@ {
        HostCommand::Serve
    } else if c == "version"@ || c == "--version"@ || c == "-v"@ {
        HostCommand::Version
    } else if c == "install"@ {
        HostCommand::Install
    } else if c == "uninstall"@ {
        HostCommand::Uninstall
    } else if c == ""@ {
        HostCommand::Unnamed
    } else {
        HostCommand::Usage
    }
}

/// Reads the command of an argument.
pub fn cli_main(arg: &Option<String>) -> (r: HostCommand)
    ensures
        r == host_command(text::text_of(*arg)),
        arg is None ==> r == HostCommand::Unnamed,
{
    proof {
        reveal_strlit("");
        a_word_names_its_command(Seq::empty());
        assert(text::lower(Seq::empty()) =~= ""@);
    }
    let low = match arg {
        Some(a) => to_lower(chars_of(a.as_str()).as_slice()),
        None => chars_of(""),
    };
    let c = low.as_slice();
    if is_text(c, "service") {
        HostCommand::Service
    } else if is_text(c, "serve") {
        HostCommand::Serve
    } else if is_text(c, "version") || is_text(c, "--version") || is_text(c, "-v") {
        HostCommand::Version
    } else if is_text(c, "install") {
        HostCommand::Install
    } else if is_text(c, "uninstall") {
        HostCommand::Uninstall
    } else if is_text(c, "") {
        HostCommand::Unnamed
    } else {
        HostCommand::Usage
    }
}

/// What the usage says.
pub open spec fn usage_text(version: Seq<char>) -> Seq<char> {
    "nulconnect-helper "@ + version
        + "\nusage: nulconnect-helper <service|serve|install|uninstall|version> [--result <file>]"@
}

/// How the executable is used.
pub fn usage(version: &str) -> (r: String)
    ensures
        r@ == usage_text(version@),
        r@ == "nulconnect-helper "@ + version@
            + "\nusage: nulconnect-helper <service|serve|install|uninstall|version> [--result <file>]"@,
{
    let mut s = "nulconnect-helper ".to_owned();
    s.append(version);
    s.append(
        "\nusage: nulconnect-helper <service|serve|install|uninstall|version> [--result <file>]",
    );
    s
}

/// The place of the first argument that is a text, or the number of arguments.
pub open spec fn first_argument(args: Seq<Seq<char>>, name: Seq<char>) -> int
    decreases args.len(),
{
    if args.len() == 0 || args[0] == name {
        0
    } else {
        1 + first_argument(args.drop_first(), name)
    }
}

/// The argument behind an option.
pub fn option_value(args: &Vec<String>, name: &str) -> (r: Option<String>)
    ensures
        ({
            let all = text::strings(args@);
            let i = first_argument(all, name@);
            text::text_of(r) == if i + 1 < all.len() {
                Some(all[i + 1])
            } else {
                None
            }
        }),
{
    let ghost all = text::strings(args@);
    let mut i: usize = 0;
    assert(all.skip(0) =~= all);
    while i < args.len()
        invariant
            i <= args.len(),
            all == text::strings(args@),
            first_argument(all, name@) == i + first_argument(all.skip(i as int), name@),
        decreases args.len() - i,
    {
        assert(all.skip(i as int)[0] == args@[i as int]@);
        assert(all.skip(i as int).drop_first() =~= all.skip(i + 1));
        if is_text(chars_of(args[i].as_str()).as_slice(), name) {
            if i < args.len() - 1 {
                return Some(args[i + 1].clone());
            }
            return None;
        }
        i = i + 1;
    }
    None
}

/// What is told of an installation.
#[derive(Debug)]
pub struct InstallReport {
    /// The exit code.
    pub code: i32,
    pub ok: bool,
    /// Why it failed.
    pub message: Option<String>,
}

/// What is told of an installation.
pub fn report(result: Result<(), String>) -> (r: InstallReport)
    ensures
        match result {
            Ok(_) => r == (InstallReport { code: 0, ok: true, message: None }),
            Err(message) => r == (InstallReport { code: 1, ok: false, message: Some(message) }),
        },
{
    match result {
        Ok(_) => InstallReport { code: 0, ok: true, message: None },
        Err(message) => InstallReport { code: 1, ok: false, message: Some(message) },
    }
}

/// What the executable ends with: its exit code, and a complaint.
#[derive(Debug)]
pub struct HostExit {
    pub code: i32,
    pub complaint: Option<String>,
}

/// The end of a server on the console.
pub fn run_console(outcome: Result<(), String>) -> (r: HostExit)
    ensures
        match outcome {
            Ok(_) => r.code == 0 && r.complaint is None,
            Err(cause) => {
                &&& r.code == 1
                &&& r.complaint is Some
                &&& r.complaint->0@ == "pipe server failed: "@ + cause@
            },
        },
{
    match outcome {
        Ok(_) => HostExit { code: 0, complaint: None },
        Err(cause) => HostExit {
            code: 1,
            complaint: Some("pipe server failed: ".to_owned().concat(cause.as_str())),
        },
    }
}

/// The end of the executable under the service manager.
pub fn run_dispatcher(outcome: Result<(), String>) -> (r: HostExit)
    ensures
        match outcome {
            Ok(_) => r.code == 0 && r.complaint is None,
            Err(cause) => {
                &&& r.code == 1
                &&& r.complaint is Some
                &&& r.complaint->0@ == "NulConnect service dispatcher failed: "@ + cause@
            },
        },
{
    match outcome {
        Ok(_) => HostExit { code: 0, complaint: None },
        Err(cause) => HostExit {
            code: 1,
            complaint: Some(
                "NulConnect service dispatcher failed: ".to_owned().concat(cause.as_str()),
            ),
        },
    }
}

/// How the executable ends: with 0 where its command went well, with 1 where
/// it failed, and with 2 and the usage where there was nothing to do.
pub open spec fn ends(
    command: HostCommand,
    outcome: Result<(), Seq<char>>,
    version: Seq<char>,
    end: HostExit,
) -> bool {
    let complaint = text::text_of(end.complaint);
    match command {
        HostCommand::Usage => end.code == 2 && complaint == Some(usage_text(version)),
        HostCommand::Version => end.code == 0 && complaint is None,
        HostCommand::Unnamed => match outcome {
            Ok(_) => end.code == 0 && complaint is None,
            Err(_) => end.code == 2 && complaint == Some(usage_text(version)),
        },
        HostCommand::Service => match outcome {
            Ok(_) => end.code == 0 && complaint is None,
            Err(cause) => end.code == 1 && complaint == Some(
                "NulConnect service dispatcher failed: "@ + cause,
            ),
        },
        HostCommand::Serve => match outcome {
            Ok(_) => end.code == 0 && complaint is None,
            Err(cause) => end.code == 1 && complaint == Some("pipe server failed: "@ + cause),
        },
        HostCommand::Install | HostCommand::Uninstall => match outcome {
            Ok(_) => end.code == 0 && complaint is None,
            Err(cause) => end.code == 1 && complaint == Some(cause),
        },
    }
}

/// Whether a command has anything done at all.
pub fn has_work(command: HostCommand) -> (r: bool)
    ensures
        r == (command != HostCommand::Usage && command != HostCommand::Version),
{
    match command {
        HostCommand::Usage | HostCommand::Version => false,
        _ => true,
    }
}

/// How the executable ends, from its command and what came of it.
pub fn host_exit(command: HostCommand, outcome: Result<(), String>, version: &str) -> (r: HostExit)
    ensures
        ends(
            command,
            match outcome {
                Ok(_) => Ok(()),
                Err(cause) => Err(cause@),
            },
            version@,
            r,
        ),
{
    match command {
        HostCommand::Usage => HostExit { code: 2, complaint: Some(usage(version)) },
        HostCommand::Version => HostExit { code: 0, complaint: None },
        HostCommand::Unnamed => match outcome {
            Ok(_) => HostExit { code: 0, complaint: None },
            Err(_) => HostExit { code: 2, complaint: Some(usage(version)) },
        },
        HostCommand::Service => run_dispatcher(outcome),
        HostCommand::Serve => run_console(outcome),
        HostCommand::Install | HostCommand::Uninstall => {
            let told = report(outcome);
            HostExit { code: told.code, complaint: told.message }
        },
    }
}

// ---------------------------------------------------------------------------
// Service
// ---------------------------------------------------------------------------

/// What the service manager wants.
#[derive(Debug, Clone, Copy, PartialEq, Eq, Structural)]
pub enum ControlEvent {
    Stop,
    Shutdown,
    Preshutdown,
    Interrogate,
    Other,
}

/// How the service manager is answered.
#[derive(Debug, Clone, Copy, PartialEq, Eq, Structural)]
pub struct ControlAnswer {
    /// Whether the service stops.
    pub stop: bool,
    /// Whether the service knows what is wanted.
    pub known: bool,
}

/// Answers the service manager.
pub fn control_answer(event: ControlEvent) -> (r: ControlAnswer)
    ensures
        r.stop == (event == ControlEvent::Stop || event == ControlEvent::Shutdown || event
            == ControlEvent::Preshutdown),
        r.known == (event != ControlEvent::Other),
{
    match event {
        ControlEvent::Stop | ControlEvent::Shutdown | ControlEvent::Preshutdown => ControlAnswer {
            stop: true,
            known: true,
        },
        ControlEvent::Interrogate => ControlAnswer { stop: false, known: true },
        ControlEvent::Other => ControlAnswer { stop: false, known: false },
    }
}

/// The stages of the service, as the service manager knows them.
#[derive(Debug, Clone, Copy, PartialEq, Eq, Structural)]
pub enum ServiceStage {
    StartPending,
    Running,
    StopPending,
    Stopped,
}

/// What the service manager is told in a stage.
#[derive(Debug, Clone, Copy, PartialEq, Eq, Structural)]
pub struct StageReport {
    pub stage: ServiceStage,
    /// Whether the service can be stopped.
    pub accepts_stop: bool,
    /// How long the stage may take, in seconds.
    pub wait_secs: u64,
}

/// What the service manager is told in a stage.
pub fn stage_report(stage: ServiceStage) -> (r: StageReport)
    ensures
        r.stage == stage,
        r.accepts_stop == (stage == ServiceStage::Running),
        r.wait_secs == match stage {
            ServiceStage::StartPending => 10u64,
            ServiceStage::StopPending => 20,
            _ => 0,
        },
{
    match stage {
        ServiceStage::StartPending => StageReport { stage, accepts_stop: false, wait_secs: 10 },
        ServiceStage::Running => StageReport { stage, accepts_stop: true, wait_secs: 0 },
        ServiceStage::StopPending => StageReport { stage, accepts_stop: false, wait_secs: 20 },
        ServiceStage::Stopped => StageReport { stage, accepts_stop: false, wait_secs: 0 },
    }
}

/// The steps of the life of the service.
#[derive(Debug, Clone, Copy, PartialEq, Eq, Structural)]
pub enum ServiceStep {
    Report(ServiceStage),
    /// Undo what an earlier helper left behind.
    CleanupLeftovers,
    /// Serve requests, on a thread.
    StartServer,
    WaitForStop,
    /// Tell the server to end.
    StopServer,
    /// Stop the tunnel.
    ShutDownRuntime,
    /// Wake the server, so that it sees that it is to end.
    WakeServer,
    JoinServer,
}

/// The life of the service.
pub open spec fn service_life() -> Seq<ServiceStep> {
    seq![
        ServiceStep::Report(ServiceStage::StartPending),
        ServiceStep::CleanupLeftovers,
        ServiceStep::StartServer,
        ServiceStep::Report(ServiceStage::Running),
        ServiceStep::WaitForStop,
        ServiceStep::Report(ServiceStage::StopPending),
        ServiceStep::StopServer,
        ServiceStep::ShutDownRuntime,
        ServiceStep::WakeServer,
        ServiceStep::JoinServer,
        ServiceStep::Report(ServiceStage::Stopped),
    ]
}

/// The life of the service, step by step.
pub fn run_service() -> (r: Vec<ServiceStep>)
    ensures
        r@ == service_life(),
{
    let r: Vec<ServiceStep> = vec![
        ServiceStep::Report(ServiceStage::StartPending),
        ServiceStep::CleanupLeftovers,
        ServiceStep::StartServer,
        ServiceStep::Report(ServiceStage::Running),
        ServiceStep::WaitForStop,
        ServiceStep::Report(ServiceStage::StopPending),
        ServiceStep::StopServer,
        ServiceStep::ShutDownRuntime,
        ServiceStep::WakeServer,
        ServiceStep::JoinServer,
        ServiceStep::Report(ServiceStage::Stopped),
    ];
    assert(r@ =~= service_life());
    r
}

// ---------------------------------------------------------------------------
// Installation
// ---------------------------------------------------------------------------

/// The directory that programs are in.
pub open spec fn program_files(native: Option<String>, ordinary: Option<String>) -> Seq<char> {
    match native {
        Some(dir) => dir@,
        None => match ordinary {
            Some(dir) => dir@,
            None => "C:\\Program Files"@,
        },
    }
}

/// The directory that the helper is installed in. The variables of the system
/// name the directory for native programs and the ordinary one.
pub fn install_dir(native: &Option<String>, ordinary: &Option<String>) -> (r: String)
    ensures
        r@ == windows::win_joined(
            windows::win_joined(program_files(*native, *ordinary), "NulConnect"@),
            "Helper"@,
        ),
        native is Some ==> r@ == windows::win_joined(
            windows::win_joined(native->0@, "NulConnect"@),
            "Helper"@,
        ),
        native is None && ordinary is Some ==> r@ == windows::win_joined(
            windows::win_joined(ordinary->0@, "NulConnect"@),
            "Helper"@,
        ),
        native is None && ordinary is None ==> r@ == windows::win_joined(
            windows::win_joined("C:\\Program Files"@, "NulConnect"@),
            "Helper"@,
        ),
{
    let base = match native {
        Some(dir) => dir.clone(),
        None => match ordinary {
            Some(dir) => dir.clone(),
            None => "C:\\Program Files".to_owned(),
        },
    };
    win_join(win_join(base.as_str(), "NulConnect").as_str(), "Helper")
}

/// Whether two paths, as far as the system can resolve them, are the same.
pub fn same_path(left: &Option<String>, right: &Option<String>) -> (r: bool)
    ensures
        r == (*left is Some && *right is Some && left->0@ == right->0@),
{
    match (left, right) {
        (Some(a), Some(b)) => *a == *b,
        _ => false,
    }
}

/// What is done after trying to copy a file.
#[derive(Debug)]
pub enum CopyStep {
    Done,
    /// Try again a little later.
    Retry,
    Fail(String),
}

/// Decides on trying to copy a file: it is tried again while there is time.
pub fn copy_with_retry(
    outcome: Result<(), String>,
    in_time: bool,
    source: &str,
    target: &str,
) -> (r: CopyStep)
    ensures
        match outcome {
            Ok(_) => r is Done,
            Err(cause) => if in_time {
                r is Retry
            } else {
                r is Fail && r->Fail_0@ == "failed to copy "@ + source@ + " to "@ + target@ + ": "@
                    + cause@
            },
        },
{
    match outcome {
        Ok(_) => CopyStep::Done,
        Err(cause) => if in_time {
            CopyStep::Retry
        } else {
            let mut s = "failed to copy ".to_owned();
            s.append(source);
            s.append(" to ");
            s.append(target);
            s.append(": ");
            s.append(cause.as_str());
            CopyStep::Fail(s)
        },
    }
}

/// What is done while waiting for a state of the service.
#[derive(Debug, Clone, Copy, PartialEq, Eq, Structural)]
pub enum WaitStep {
    Reached,
    Again,
    GaveUp,
}

/// Decides on waiting for a state. `matches` tells whether the service is in
/// it; nothing tells that it could not be asked. Without time left it is not
/// asked.
pub fn wait_for_state(in_time: bool, matches: Option<bool>) -> (r: WaitStep)
    ensures
        r == if !in_time {
            WaitStep::GaveUp
        } else {
            match matches {
                Some(true) => WaitStep::Reached,
                Some(false) => WaitStep::Again,
                None => WaitStep::GaveUp,
            }
        },
{
    if !in_time {
        return WaitStep::GaveUp;
    }
    match matches {
        Some(true) => WaitStep::Reached,
        Some(false) => WaitStep::Again,
        None => WaitStep::GaveUp,
    }
}

/// The steps of an installation, in order.
#[derive(Debug, Clone, Copy, PartialEq, Eq, Structural)]
pub enum InstallStep {
    /// Make sure that the tunnel driver is beside this executable.
    CheckWintun,
    OpenManager,
    /// Stop the service that is there, and wait for it.
    StopExisting,
    CreateDirectory,
    /// Copy the executable and the tunnel driver into the directory.
    CopyFiles,
    /// Update the service that is there.
    ChangeConfig,
    CreateService,
    /// Describe the service and say what is done when it fails, whatever comes
    /// of it.
    Describe,
    StartService,
    WaitRunning,
    /// Ask the service for its version.
    CallVersion,
}

/// What is found out on the way.
#[derive(Debug, Clone, Copy, PartialEq, Eq, Structural)]
pub struct InstallFacts {
    /// There is a service.
    pub existing: bool,
    /// It is known not to be stopped.
    pub active: bool,
    /// This executable is the installed one.
    pub in_place: bool,
}

/// The step after a step.
pub open spec fn install_step_after(step: InstallStep, facts: InstallFacts) -> Option<InstallStep> {
    let files = if facts.in_place {
        if facts.existing {
            InstallStep::ChangeConfig
        } else {
            InstallStep::CreateService
        }
    } else {
        InstallStep::CreateDirectory
    };
    match step {
        InstallStep::CheckWintun => Some(InstallStep::OpenManager),
        InstallStep::OpenManager => if facts.existing && facts.active {
            Some(InstallStep::StopExisting)
        } else {
            Some(files)
        },
        InstallStep::StopExisting => Some(files),
        InstallStep::CreateDirectory => Some(InstallStep::CopyFiles),
        InstallStep::CopyFiles => if facts.existing {
            Some(InstallStep::ChangeConfig)
        } else {
            Some(InstallStep::CreateService)
        },
        InstallStep::ChangeConfig | InstallStep::CreateService => Some(InstallStep::Describe),
        InstallStep::Describe => Some(InstallStep::StartService),
        InstallStep::StartService => Some(InstallStep::WaitRunning),
        InstallStep::WaitRunning => Some(InstallStep::CallVersion),
        InstallStep::CallVersion => None,
    }
}

/// What is said where a step failed. The subject is a path where there is one.
pub open spec fn install_complaint(
    step: InstallStep,
    subject: Seq<char>,
    cause: Seq<char>,
) -> Seq<char> {
    match step {
        InstallStep::CheckWintun => subject + " is missing"@,
        InstallStep::OpenManager => "cannot open the Service Control Manager: "@ + cause,
        InstallStep::StopExisting => "the existing NulConnect Helper service did not stop"@,
        InstallStep::CreateDirectory => "failed to create "@ + subject + ": "@ + cause,
        InstallStep::CopyFiles | InstallStep::Describe => cause,
        InstallStep::ChangeConfig => "failed to update the service: "@ + cause,
        InstallStep::CreateService => "failed to create the service: "@ + cause,
        InstallStep::StartService => "failed to start the service: "@ + cause,
        InstallStep::WaitRunning => "the NulConnect Helper service did not start in time"@,
        InstallStep::CallVersion => "the service started but its pipe is unavailable: "@ + cause,
    }
}

/// What the service manager is told of the service.
#[derive(Debug)]
pub struct ServiceSettings {
    pub name: String,
    pub display_name: String,
    pub description: String,
    /// The path of the executable.
    pub executable: String,
    /// What the executable is started with.
    pub arguments: Vec<String>,
    /// Whether the service is started with the system.
    pub auto_start: bool,
    /// How long after it failed the service is started again, in seconds: the
    /// first time, the second time, and from then on.
    pub restart_secs: Vec<u64>,
    /// After how long without a failure that counts anew, in seconds.
    pub reset_secs: u64,
}

/// The settings of a service, with texts.
pub struct ServiceModel {
    pub name: Seq<char>,
    pub display_name: Seq<char>,
    pub description: Seq<char>,
    pub executable: Seq<char>,
    pub arguments: Seq<Seq<char>>,
    pub auto_start: bool,
    pub restart_secs: Seq<u64>,
    pub reset_secs: u64,
}

impl View for ServiceSettings {
    type V = ServiceModel;

    open spec fn view(&self) -> ServiceModel {
        ServiceModel {
            name: self.name@,
            display_name: self.display_name@,
            description: self.description@,
            executable: self.executable@,
            arguments: text::strings(self.arguments@),
            auto_start: self.auto_start,
            restart_secs: self.restart_secs@,
            reset_secs: self.reset_secs,
        }
    }
}

/// The executable in the directory of the helper.
pub open spec fn helper_path(dir: Seq<char>) -> Seq<char> {
    windows::win_joined(dir, "nulconnect-helper.exe"@)
}

/// The tunnel driver in a directory.
pub open spec fn driver_path(dir: Seq<char>) -> Seq<char> {
    windows::win_joined(dir, "wintun.dll"@)
}

/// The service that is registered for a helper in a directory: it runs the
/// executable there, as a service, from the start of the system on.
pub open spec fn registered(dir: Seq<char>) -> ServiceModel {
    ServiceModel {
        name: "NulConnectHelper"@,
        display_name: "NulConnect Helper"@,
        description: "Provides VPN tunnel, routing and DNS configuration for NulConnect."@,
        executable: helper_path(dir),
        arguments: seq!["service"@],
        auto_start: true,
        restart_secs: seq![2, 5, 30],
        reset_secs: 86400,
    }
}

/// The service of a helper that is installed in a directory.
pub fn service_settings(dir: &str) -> (r: ServiceSettings)
    ensures
        r@ == registered(dir@),
        r.name@ == "NulConnectHelper"@,
        r.display_name@ == "NulConnect Helper"@,
        r.description@
            == "Provides VPN tunnel, routing and DNS configuration for NulConnect."@,
        r.executable@ == windows::win_joined(dir@, "nulconnect-helper.exe"@),
        r.arguments@.len() == 1,
        r.arguments@[0]@ == "service"@,
        r.auto_start,
        r.restart_secs@ == seq![2u64, 5, 30],
        r.reset_secs == 24 * 60 * 60,
{
    let r = ServiceSettings {
        name: "NulConnectHelper".to_owned(),
        display_name: "NulConnect Helper".to_owned(),
        description: "Provides VPN tunnel, routing and DNS configuration for NulConnect.".to_owned(),
        executable: win_join(dir, "nulconnect-helper.exe"),
        arguments: vec!["service".to_owned()],
        auto_start: true,
        restart_secs: vec![2, 5, 30],
        reset_secs: 86400,
    };
    assert(r@.arguments =~= registered(dir@).arguments);
    assert(r@.arguments[0] == r.arguments@[0]@);
    assert(r@.restart_secs =~= registered(dir@).restart_secs);
    r
}

/// A file to be copied.
#[derive(Debug)]
pub struct FileCopy {
    pub source: String,
    pub target: String,
}

/// The paths of some copies.
pub open spec fn copy_models(v: Seq<FileCopy>) -> Seq<(Seq<char>, Seq<char>)> {
    Seq::new(v.len(), |i: int| (v[i].source@, v[i].target@))
}

/// The copies of an installation, in order: the executable and the tunnel
/// driver go into the directory, unless they are there.
pub open spec fn wanted_copies(
    source_exe: Seq<char>,
    source_wintun: Seq<char>,
    dir: Seq<char>,
    in_place: bool,
) -> Seq<(Seq<char>, Seq<char>)> {
    if in_place {
        Seq::empty()
    } else {
        seq![(source_exe, helper_path(dir)), (source_wintun, driver_path(dir))]
    }
}

/// The files to be copied, in order.
pub fn copies(source_exe: &str, source_wintun: &str, dir: &str, in_place: bool) -> (r: Vec<
    FileCopy,
>)
    ensures
        copy_models(r@) == wanted_copies(source_exe@, source_wintun@, dir@, in_place),
{
    let mut r: Vec<FileCopy> = Vec::new();
    if !in_place {
        r.push(
            FileCopy {
                source: source_exe.to_owned(),
                target: win_join(dir, "nulconnect-helper.exe"),
            },
        );
        r.push(
            FileCopy { source: source_wintun.to_owned(), target: win_join(dir, "wintun.dll") },
        );
    }
    assert(copy_models(r@) =~= wanted_copies(source_exe@, source_wintun@, dir@, in_place));
    r
}

/// What comes of looking for the tunnel driver: without it nothing is
/// installed.
pub fn check_wintun(path: &str, exists: bool) -> (r: Result<(), (String, String)>)
    ensures
        r is Ok <==> exists,
        r is Err ==> r->Err_0.0@ == path@ && r->Err_0.1@ == ""@,
{
    if exists {
        Ok(())
    } else {
        Err((path.to_owned(), "".to_owned()))
    }
}

/// What comes after a step of an installation.
#[derive(Debug)]
pub enum InstallDecision {
    Continue(InstallStep),
    Done,
    Fail(String),
}

fn complain(step: InstallStep, subject: &str, cause: &str) -> (r: String)
    ensures
        r@ == install_complaint(step, subject@, cause@),
{
    match step {
        InstallStep::CheckWintun => {
            let mut s = subject.to_owned();
            s.append(" is missing");
            s
        },
        InstallStep::OpenManager => "cannot open the Service Control Manager: ".to_owned().concat(
            cause,
        ),
        InstallStep::StopExisting => "the existing NulConnect Helper service did not stop".to_owned(),
        InstallStep::CreateDirectory => {
            let mut s = "failed to create ".to_owned();
            s.append(subject);
            s.append(": ");
            s.append(cause);
            s
        },
        InstallStep::CopyFiles | InstallStep::Describe => cause.to_owned(),
        InstallStep::ChangeConfig => "failed to update the service: ".to_owned().concat(cause),
        InstallStep::CreateService => "failed to create the service: ".to_owned().concat(cause),
        InstallStep::StartService => "failed to start the service: ".to_owned().concat(cause),
        InstallStep::WaitRunning => "the NulConnect Helper service did not start in time".to_owned(),
        InstallStep::CallVersion => "the service started but its pipe is unavailable: ".to_owned().concat(
            cause,
        ),
    }
}

/// Decides on what came of a step of an installation. A failure brings its
/// subject and its cause. That the service could not be described is no reason
/// to stop.
pub fn install(
    step: InstallStep,
    facts: InstallFacts,
    outcome: Result<(), (String, String)>,
) -> (r: InstallDecision)
    ensures
        match outcome {
            Ok(_) => match install_step_after(step, facts) {
                Some(next) => r == InstallDecision::Continue(next),
                None => r is Done,
            },
            Err((subject, cause)) => if step == InstallStep::Describe {
                r == InstallDecision::Continue(InstallStep::StartService)
            } else {
                r is Fail && r->Fail_0@ == install_complaint(step, subject@, cause@)
            },
        },
{
    match outcome {
        Err((subject, cause)) => {
            if step == InstallStep::Describe {
                return InstallDecision::Continue(InstallStep::StartService);
            }
            return InstallDecision::Fail(complain(step, subject.as_str(), cause.as_str()));
        },
        Ok(_) => {},
    }
    let service = if facts.existing {
        InstallStep::ChangeConfig
    } else {
        InstallStep::CreateService
    };
    let files = if facts.in_place {
        service
    } else {
        InstallStep::CreateDirectory
    };
    match step {
        InstallStep::CheckWintun => InstallDecision::Continue(InstallStep::OpenManager),
        InstallStep::OpenManager => if facts.existing && facts.active {
            InstallDecision::Continue(InstallStep::StopExisting)
        } else {
            InstallDecision::Continue(files)
        },
        InstallStep::StopExisting => InstallDecision::Continue(files),
        InstallStep::CreateDirectory => InstallDecision::Continue(InstallStep::CopyFiles),
        InstallStep::CopyFiles => InstallDecision::Continue(service),
        InstallStep::ChangeConfig | InstallStep::CreateService => InstallDecision::Continue(
            InstallStep::Describe,
        ),
        InstallStep::Describe => InstallDecision::Continue(InstallStep::StartService),
        InstallStep::StartService => InstallDecision::Continue(InstallStep::WaitRunning),
        InstallStep::WaitRunning => InstallDecision::Continue(InstallStep::CallVersion),
        InstallStep::CallVersion => InstallDecision::Done,
    }
}

/// The place of a step in the order.
pub open spec fn install_rank(step: InstallStep) -> int {
    match step {
        InstallStep::CheckWintun => 0,
        InstallStep::OpenManager => 1,
        InstallStep::StopExisting => 2,
        InstallStep::CreateDirectory => 3,
        InstallStep::CopyFiles => 4,
        InstallStep::ChangeConfig => 5,
        InstallStep::CreateService => 5,
        InstallStep::Describe => 6,
        InstallStep::StartService => 7,
        InstallStep::WaitRunning => 8,
        InstallStep::CallVersion => 9,
    }
}

/// The steps that an installation goes through from a step on.
pub open spec fn install_path(step: InstallStep, facts: InstallFacts) -> Seq<InstallStep>
    decreases 10 - install_rank(step),
{
    match install_step_after(step, facts) {
        Some(next) => seq![step] + install_path(next, facts),
        None => seq![step],
    }
}

proof fn lemma_install_path(step: InstallStep, facts: InstallFacts, i: int)
    requires
        0 <= i < install_path(step, facts).len(),
    ensures
        install_path(step, facts)[0] == step,
        i > 0 ==> install_rank(install_path(step, facts)[i]) > install_rank(step),
    decreases 10 - install_rank(step),
{
    match install_step_after(step, facts) {
        Some(next) => {
            let rest = install_path(next, facts);
            if i > 0 {
                assert(install_path(step, facts)[i] == rest[i - 1]);
                lemma_install_path(next, facts, i - 1);
            } else {
                assert(install_path(step, facts)[0] == step);
            }
        },
        None => {},
    }
}

/// An installation comes to an end, a service that is active is stopped before
/// any file is written, and the service is started after all of them are.
pub proof fn files_change_only_while_the_service_is_stopped(facts: InstallFacts, i: int, j: int)
    requires
        0 <= i < j < install_path(InstallStep::CheckWintun, facts).len(),
    ensures
        install_rank(install_path(InstallStep::CheckWintun, facts)[i]) < install_rank(
            install_path(InstallStep::CheckWintun, facts)[j],
        ),
        facts.existing && facts.active ==> install_path(InstallStep::CheckWintun, facts).contains(
            InstallStep::StopExisting,
        ),
        install_path(InstallStep::CheckWintun, facts).len() <= 10,
{
    lemma_path_increases(InstallStep::CheckWintun, facts, i, j);
    lemma_path_len(InstallStep::CheckWintun, facts);
    if facts.existing && facts.active {
        let p = install_path(InstallStep::CheckWintun, facts);
        let q = install_path(InstallStep::OpenManager, facts);
        let r = install_path(InstallStep::StopExisting, facts);
        lemma_install_path(InstallStep::StopExisting, facts, 0);
        assert(q[1] == r[0]);
        assert(p[2] == q[1]);
    }
}

proof fn lemma_path_len(step: InstallStep, facts: InstallFacts)
    ensures
        1 <= install_path(step, facts).len() <= 10 - install_rank(step),
    decreases 10 - install_rank(step),
{
    match install_step_after(step, facts) {
        Some(next) => {
            lemma_path_len(next, facts);
        },
        None => {},
    }
}

proof fn lemma_path_increases(step: InstallStep, facts: InstallFacts, i: int, j: int)
    requires
        0 <= i < j < install_path(step, facts).len(),
    ensures
        install_rank(install_path(step, facts)[i]) < install_rank(install_path(step, facts)[j]),
    decreases 10 - install_rank(step),
{
    match install_step_after(step, facts) {
        Some(next) => {
            let p = install_path(step, facts);
            let rest = install_path(next, facts);
            assert(p[j] == rest[j - 1]);
            if i == 0 {
                lemma_install_path(step, facts, j);
            } else {
                assert(p[i] == rest[i - 1]);
                lemma_path_increases(next, facts, i - 1, j - 1);
            }
        },
        None => {},
    }
}

/// What an installation is about: where the files come from, where they go,
/// and what was found out.
pub struct Installation {
    pub source_exe: Seq<char>,
    pub source_wintun: Seq<char>,
    pub dir: Seq<char>,
    pub facts: InstallFacts,
}

/// The machine, as far as an installation changes it: the files by their
/// paths, the service, whether it runs, and whether it answered.
pub struct Machine {
    pub files: Map<Seq<char>, Seq<u8>>,
    pub service: Option<ServiceModel>,
    pub running: bool,
    pub answered: bool,
}

/// The files after some copies.
pub open spec fn copied(
    files: Map<Seq<char>, Seq<u8>>,
    copies: Seq<(Seq<char>, Seq<char>)>,
) -> Map<Seq<char>, Seq<u8>>
    decreases copies.len(),
{
    if copies.len() == 0 {
        files
    } else {
        copied(files.insert(copies[0].1, files[copies[0].0]), copies.drop_first())
    }
}

/// The machine after a step of an installation went well.
pub open spec fn install_effect(work: Installation, step: InstallStep, m: Machine) -> Machine {
    match step {
        InstallStep::StopExisting => Machine { running: false, ..m },
        InstallStep::CopyFiles => Machine {
            files: copied(
                m.files,
                wanted_copies(work.source_exe, work.source_wintun, work.dir, work.facts.in_place),
            ),
            ..m
        },
        InstallStep::ChangeConfig | InstallStep::CreateService => Machine {
            service: Some(registered(work.dir)),
            ..m
        },
        InstallStep::WaitRunning => Machine { running: true, ..m },
        InstallStep::CallVersion => Machine { answered: true, ..m },
        _ => m,
    }
}

/// The machine after some steps of an installation went well, in order.
pub open spec fn after_steps(work: Installation, steps: Seq<InstallStep>, m: Machine) -> Machine
    decreases steps.len(),
{
    if steps.len() == 0 {
        m
    } else {
        after_steps(work, steps.drop_first(), install_effect(work, steps[0], m))
    }
}

proof fn lemma_after_path(work: Installation, step: InstallStep, m: Machine)
    ensures
        after_steps(work, install_path(step, work.facts), m) == match install_step_after(
            step,
            work.facts,
        ) {
            Some(next) => after_steps(
                work,
                install_path(next, work.facts),
                install_effect(work, step, m),
            ),
            None => install_effect(work, step, m),
        },
{
    let path = install_path(step, work.facts);
    assert(path[0] == step);
    match install_step_after(step, work.facts) {
        Some(next) => {
            assert(path.drop_first() =~= install_path(next, work.facts));
        },
        None => {
            let end = install_effect(work, step, m);
            assert(path.drop_first() =~= Seq::<InstallStep>::empty());
            assert(after_steps(work, Seq::<InstallStep>::empty(), end) == end);
        },
    }
}

/// The end of an installation: from the service on.
proof fn lemma_service_steps(work: Installation, step: InstallStep, m: Machine)
    requires
        step == InstallStep::ChangeConfig || step == InstallStep::CreateService,
    ensures
        after_steps(work, install_path(step, work.facts), m) == (Machine {
            files: m.files,
            service: Some(registered(work.dir)),
            running: true,
            answered: true,
        }),
{
    let m1 = install_effect(work, step, m);
    lemma_after_path(work, step, m);
    lemma_after_path(work, InstallStep::Describe, m1);
    lemma_after_path(work, InstallStep::StartService, m1);
    lemma_after_path(work, InstallStep::WaitRunning, m1);
    lemma_after_path(
        work,
        InstallStep::CallVersion,
        install_effect(work, InstallStep::WaitRunning, m1),
    );
}

proof fn lemma_paths_differ(a: Seq<char>, b: Seq<char>)
    ensures
        helper_path(a) != driver_path(b),
{
    reveal_strlit("nulconnect-helper.exe");
    reveal_strlit("wintun.dll");
    reveal_strlit("\\");
    assert(helper_path(a).last() == 'e');
    assert(driver_path(b).last() == 'l');
}

/// An installation whose steps all went well leaves the helper installed: the
/// directory holds the executable and the tunnel driver that it was started
/// with, other files are as they were, and the service is registered with that
/// executable and the command to run as a service, runs, and has answered.
/// A helper that is installed in place is already what the directory holds.
/// That the service could not be described changes none of this.
pub proof fn an_installation_leaves_the_helper(work: Installation, beside: Seq<char>, m: Machine)
    requires
        work.source_wintun == driver_path(beside),
        m.files.contains_key(work.source_exe),
        m.files.contains_key(work.source_wintun),
        work.facts.in_place ==> {
            &&& m.files.contains_key(helper_path(work.dir))
            &&& m.files.contains_key(driver_path(work.dir))
            &&& m.files[helper_path(work.dir)] == m.files[work.source_exe]
            &&& m.files[driver_path(work.dir)] == m.files[work.source_wintun]
        },
    ensures
        ({
            let end = after_steps(work, install_path(InstallStep::CheckWintun, work.facts), m);
            &&& end.files.contains_key(helper_path(work.dir))
            &&& end.files.contains_key(driver_path(work.dir))
            &&& end.files[helper_path(work.dir)] == m.files[work.source_exe]
            &&& end.files[driver_path(work.dir)] == m.files[work.source_wintun]
            &&& forall|path: Seq<char>|
                path != helper_path(work.dir) && path != driver_path(work.dir) ==> {
                    &&& #[trigger] end.files.contains_key(path) == m.files.contains_key(path)
                    &&& end.files[path] == m.files[path]
                }
            &&& end.service == Some(registered(work.dir))
            &&& end.running
            &&& end.answered
        }),
{
    let facts = work.facts;
    lemma_paths_differ(work.dir, beside);
    lemma_paths_differ(work.dir, work.dir);
    lemma_after_path(work, InstallStep::CheckWintun, m);
    lemma_after_path(work, InstallStep::OpenManager, m);
    lemma_after_path(work, InstallStep::StopExisting, m);
    let m1 = if facts.existing && facts.active {
        Machine { running: false, ..m }
    } else {
        m
    };
    let service = if facts.existing {
        InstallStep::ChangeConfig
    } else {
        InstallStep::CreateService
    };
    if facts.in_place {
        lemma_service_steps(work, service, m1);
    } else {
        let all = wanted_copies(work.source_exe, work.source_wintun, work.dir, false);
        let m2 = install_effect(work, InstallStep::CopyFiles, m1);
        lemma_after_path(work, InstallStep::CreateDirectory, m1);
        lemma_after_path(work, InstallStep::CopyFiles, m1);
        lemma_service_steps(work, service, m2);
        assert(all.drop_first().drop_first() =~= Seq::<(Seq<char>, Seq<char>)>::empty());
        let first = m.files.insert(helper_path(work.dir), m.files[work.source_exe]);
        assert(all.drop_first()[0] == (work.source_wintun, driver_path(work.dir)));
        assert(copied(m.files, all) == copied(first, all.drop_first()));
        assert(copied(first, all.drop_first()) == copied(
            first.insert(driver_path(work.dir), first[work.source_wintun]),
            all.drop_first().drop_first(),
        ));
    }
}

/// An installation that is refused, because the tunnel driver is missing or
/// the service manager cannot be opened, has changed nothing.
pub proof fn a_refused_installation_changes_nothing(work: Installation, m: Machine)
    ensures
        ({
            let path = install_path(InstallStep::CheckWintun, work.facts);
            &&& path.len() >= 2
            &&& path[0] == InstallStep::CheckWintun
            &&& path[1] == InstallStep::OpenManager
            &&& after_steps(work, path.take(0), m) == m
            &&& after_steps(work, path.take(1), m) == m
        }),
{
    let path = install_path(InstallStep::CheckWintun, work.facts);
    lemma_install_path(InstallStep::OpenManager, work.facts, 0);
    lemma_path_len(InstallStep::OpenManager, work.facts);
    assert(path[1] == install_path(InstallStep::OpenManager, work.facts)[0]);
    assert(path.take(1).drop_first() =~= Seq::<InstallStep>::empty());
    assert(after_steps(work, Seq::<InstallStep>::empty(), m) == m);
}

/// The executable that is registered is told to run under the service manager.
pub proof fn the_registered_command_runs_the_service(dir: Seq<char>)
    ensures
        registered(dir).arguments.len() == 1,
        host_command(Some(registered(dir).arguments[0])) == HostCommand::Service,
{
    reveal_strlit("service");
    assert(text::lower("service"@) =~= "service"@);
}

/// A step of removing the helper.
#[derive(Debug, Clone, Copy, PartialEq, Eq, Structural)]
pub enum UninstallStep {
    OpenManager,
    /// Stop the service and wait for it.
    StopService,
    DeleteService,
    /// Remove the files and the directories.
    RemoveFiles,
}

/// What comes after a step of removing the helper.
#[derive(Debug)]
pub enum UninstallDecision {
    Continue(UninstallStep),
    Done,
    Fail(String),
}

/// The step after a step. Without a service only the files are removed, and a
/// service that is not known to be active is not stopped.
pub open spec fn uninstall_step_after(
    step: UninstallStep,
    existing: bool,
    active: bool,
) -> Option<UninstallStep> {
    match step {
        UninstallStep::OpenManager => Some(
            if !existing {
                UninstallStep::RemoveFiles
            } else if active {
                UninstallStep::StopService
            } else {
                UninstallStep::DeleteService
            },
        ),
        UninstallStep::StopService => Some(UninstallStep::DeleteService),
        UninstallStep::DeleteService => Some(UninstallStep::RemoveFiles),
        UninstallStep::RemoveFiles => None,
    }
}

/// What is said where a step failed.
pub open spec fn uninstall_complaint(step: UninstallStep, cause: Seq<char>) -> Seq<char> {
    match step {
        UninstallStep::OpenManager => "cannot open the Service Control Manager: "@ + cause,
        UninstallStep::StopService => "the NulConnect Helper service did not stop: "@ + cause,
        UninstallStep::DeleteService => "failed to delete the service: "@ + cause,
        UninstallStep::RemoveFiles => "failed to remove the files of the helper: "@ + cause,
    }
}

/// Decides on what came of a step of removing the helper. It is removed once
/// every step went well: the service was stopped and deleted, and the files
/// are gone.
pub fn uninstall(
    step: UninstallStep,
    existing: bool,
    active: bool,
    outcome: Result<(), String>,
) -> (r: UninstallDecision)
    ensures
        match outcome {
            Ok(_) => match uninstall_step_after(step, existing, active) {
                Some(next) => r == UninstallDecision::Continue(next),
                None => r is Done,
            },
            Err(cause) => r is Fail && r->Fail_0@ == uninstall_complaint(step, cause@),
        },
{
    match outcome {
        Ok(_) => match step {
            UninstallStep::OpenManager => if !existing {
                UninstallDecision::Continue(UninstallStep::RemoveFiles)
            } else if active {
                UninstallDecision::Continue(UninstallStep::StopService)
            } else {
                UninstallDecision::Continue(UninstallStep::DeleteService)
            },
            UninstallStep::StopService => UninstallDecision::Continue(
                UninstallStep::DeleteService,
            ),
            UninstallStep::DeleteService => UninstallDecision::Continue(UninstallStep::RemoveFiles),
            UninstallStep::RemoveFiles => UninstallDecision::Done,
        },
        Err(cause) => {
            let mut s = match step {
                UninstallStep::OpenManager => "cannot open the Service Control Manager: ".to_owned(),
                UninstallStep::StopService => {
                    "the NulConnect Helper service did not stop: ".to_owned()
                },
                UninstallStep::DeleteService => "failed to delete the service: ".to_owned(),
                UninstallStep::RemoveFiles => {
                    "failed to remove the files of the helper: ".to_owned()
                },
            };
            s.append(cause.as_str());
            UninstallDecision::Fail(s)
        },
    }
}

/// The steps that removing the helper goes through from a step on, where each
/// goes well.
pub open spec fn uninstall_path(
    step: UninstallStep,
    existing: bool,
    active: bool,
) -> Seq<UninstallStep> {
    match step {
        UninstallStep::OpenManager => if !existing {
            seq![step, UninstallStep::RemoveFiles]
        } else if active {
            seq![
                step,
                UninstallStep::StopService,
                UninstallStep::DeleteService,
                UninstallStep::RemoveFiles,
            ]
        } else {
            seq![step, UninstallStep::DeleteService, UninstallStep::RemoveFiles]
        },
        UninstallStep::StopService => seq![
            step,
            UninstallStep::DeleteService,
            UninstallStep::RemoveFiles,
        ],
        UninstallStep::DeleteService => seq![step, UninstallStep::RemoveFiles],
        UninstallStep::RemoveFiles => seq![step],
    }
}

/// The helper counts as removed only when its service was stopped, if it was
/// active, and deleted, if there was one, and its files were removed: these
/// are the steps on the way, in order, and one that fails ends it.
pub proof fn a_removed_helper_is_gone(existing: bool, active: bool)
    ensures
        ({
            let path = uninstall_path(UninstallStep::OpenManager, existing, active);
            &&& existing && active ==> path.contains(UninstallStep::StopService)
            &&& existing ==> path.contains(UninstallStep::DeleteService)
            &&& path.last() == UninstallStep::RemoveFiles
            &&& uninstall_step_after(path.last(), existing, active) is None
            &&& forall|i: int|
                0 <= i < path.len() - 1 ==> uninstall_step_after(
                    #[trigger] path[i],
                    existing,
                    active,
                ) == Some(path[i + 1])
        }),
{
    let path = uninstall_path(UninstallStep::OpenManager, existing, active);
    if existing && active {
        assert(path[1] == UninstallStep::StopService);
        assert(path[2] == UninstallStep::DeleteService);
    } else if existing {
        assert(path[1] == UninstallStep::DeleteService);
    }
}

/// Something that is removed with the helper.
#[derive(Debug)]
pub enum Removal {
    /// A file. It has to go.
    File(String),
    /// A directory with all that is in it. It has to go.
    Tree(String),
    /// A directory, if nothing is left in it.
    EmptyDirectory(String),
}

/// Something that is removed, with its path as a text.
pub enum RemovalModel {
    File(Seq<char>),
    Tree(Seq<char>),
    EmptyDirectory(Seq<char>),
}

impl View for Removal {
    type V = RemovalModel;

    open spec fn view(&self) -> RemovalModel {
        match self {
            Removal::File(path) => RemovalModel::File(path@),
            Removal::Tree(path) => RemovalModel::Tree(path@),
            Removal::EmptyDirectory(path) => RemovalModel::EmptyDirectory(path@),
        }
    }
}

/// The models of some removals.
pub open spec fn removal_models(v: Seq<Removal>) -> Seq<RemovalModel> {
    Seq::new(v.len(), |i: int| v[i]@)
}

/// What is removed with the helper: its executable, the library of the tunnel
/// driver, its state and its logs, and then the directories, if they are
/// empty. An executable that is running cannot remove itself.
pub open spec fn removed_with(dir: Seq<char>, parent: Seq<char>, running: bool) -> Seq<
    RemovalModel,
> {
    let rest = seq![
        RemovalModel::File(driver_path(dir)),
        RemovalModel::Tree(windows::win_joined(dir, "state"@)),
        RemovalModel::Tree(windows::win_joined(dir, "logs"@)),
        RemovalModel::EmptyDirectory(dir),
        RemovalModel::EmptyDirectory(parent),
    ];
    if running {
        rest
    } else {
        seq![RemovalModel::File(helper_path(dir))] + rest
    }
}

/// What is removed with the helper. `running` tells whether this is the
/// executable that is installed.
pub fn removals(dir: &str, parent: &str, running: bool) -> (r: Vec<Removal>)
    ensures
        removal_models(r@) == removed_with(dir@, parent@, running),
{
    let mut r: Vec<Removal> = Vec::new();
    if !running {
        r.push(Removal::File(win_join(dir, "nulconnect-helper.exe")));
    }
    r.push(Removal::File(win_join(dir, "wintun.dll")));
    r.push(Removal::Tree(win_join(dir, "state")));
    r.push(Removal::Tree(win_join(dir, "logs")));
    r.push(Removal::EmptyDirectory(dir.to_owned()));
    r.push(Removal::EmptyDirectory(parent.to_owned()));
    assert(removal_models(r@) =~= removed_with(dir@, parent@, running));
    r
}

/// Whether removing a file is tried again: it is there, it could not be
/// removed, and there is time.
pub fn retries_removal(exists: bool, removed: bool, in_time: bool) -> (r: bool)
    ensures
        r == (exists && !removed && in_time),
{
    exists && !removed && in_time
}

// ---------------------------------------------------------------------------
// Laws
// ---------------------------------------------------------------------------

/// Each word names its own command, whatever its case, and anything else asks
/// for the usage.
pub proof fn a_word_names_its_command(arg: Seq<char>)
    ensures
        ({
            let c = text::lower(arg);
            let r = host_command(Some(arg));
            &&& r == HostCommand::Service <==> c == "service"@
            &&& r == HostCommand::Serve <==> c == "serve"@
            &&& r == HostCommand::Version <==> c == "version"@ || c == "--version"@ || c == "-v"@
            &&& r == HostCommand::Install <==> c == "install"@
            &&& r == HostCommand::Uninstall <==> c == "uninstall"@
            &&& r == HostCommand::Unnamed <==> arg.len() == 0
        }),
{
    reveal_strlit("service");
    reveal_strlit("serve");
    reveal_strlit("version");
    reveal_strlit("--version");
    reveal_strlit("-v");
    reveal_strlit("install");
    reveal_strlit("uninstall");
    reveal_strlit("");
    assert("service"@.len() == 7 && "serve"@.len() == 5 && "version"@.len() == 7
        && "--version"@.len() == 9 && "-v"@.len() == 2 && "install"@.len() == 7
        && "uninstall"@.len() == 9 && ""@.len() == 0);
    assert("service"@[0] != "version"@[0] && "service"@[0] != "install"@[0] && "version"@[0]
        != "install"@[0] && "--version"@[0] != "uninstall"@[0]);
    assert(text::lower(arg).len() == arg.len());
    if arg.len() == 0 {
        assert(text::lower(arg) =~= ""@);
    }
}

/// The value of an option is the argument behind its first occurrence; an
/// option that does not occur has none.
pub proof fn the_first_occurrence_counts(args: Seq<Seq<char>>, name: Seq<char>, i: int)
    requires
        0 <= i <= args.len(),
        i < args.len() ==> args[i] == name,
        forall|k: int| 0 <= k < i ==> #[trigger] args[k] != name,
    ensures
        first_argument(args, name) == i,
    decreases args.len(),
{
    if i > 0 {
        let rest = args.drop_first();
        assert forall|k: int| 0 <= k < i - 1 implies #[trigger] rest[k] != name by {
            assert(rest[k] == args[k + 1]);
        }
        assert(args[0] != name);
        the_first_occurrence_counts(rest, name, i - 1);
    }
}

/// The executable ends with zero, and without a complaint, exactly where its
/// command went well; with one and the cause where it failed; and with two and
/// the usage where there was nothing that it could do.
pub proof fn the_exit_tells_what_came_of_it(
    command: HostCommand,
    outcome: Result<(), Seq<char>>,
    version: Seq<char>,
    end: HostExit,
)
    requires
        ends(command, outcome, version, end),
    ensures
        end.code == 0 <==> end.complaint is None,
        end.code == 0 <==> command == HostCommand::Version || (command != HostCommand::Usage
            && outcome is Ok),
        end.code == 2 <==> command == HostCommand::Usage || (command == HostCommand::Unnamed
            && outcome is Err),
        end.code == 0 || end.code == 1 || end.code == 2,
        end.code == 2 ==> end.complaint->0@ == "nulconnect-helper "@ + version
            + "\nusage: nulconnect-helper <service|serve|install|uninstall|version> [--result <file>]"@,
        end.code == 1 && (command == HostCommand::Install || command == HostCommand::Uninstall)
            ==> end.complaint->0@ == outcome->Err_0,
        end.code == 1 && command == HostCommand::Serve ==> end.complaint->0@
            == "pipe server failed: "@ + outcome->Err_0,
        end.code == 1 && command == HostCommand::Service ==> end.complaint->0@
            == "NulConnect service dispatcher failed: "@ + outcome->Err_0,
{
}

/// The service undoes what an earlier one left before it serves, says that it
/// runs only once it serves, and says that it is stopped only once its tunnel
/// is stopped and its server has ended.
pub proof fn the_service_does_first_things_first()
    ensures
        service_life() == seq![
            ServiceStep::Report(ServiceStage::StartPending),
            ServiceStep::CleanupLeftovers,
            ServiceStep::StartServer,
            ServiceStep::Report(ServiceStage::Running),
            ServiceStep::WaitForStop,
            ServiceStep::Report(ServiceStage::StopPending),
            ServiceStep::StopServer,
            ServiceStep::ShutDownRuntime,
            ServiceStep::WakeServer,
            ServiceStep::JoinServer,
            ServiceStep::Report(ServiceStage::Stopped),
        ],
{
}

/// The steps that any installation goes through: it looks for the driver and
/// the service manager, stops what runs, puts the files in place unless they
/// are there, updates the service that is there or makes one, and then
/// describes it, starts it, waits for it and asks it.
pub proof fn an_installation_takes_every_step(facts: InstallFacts)
    ensures
        install_path(InstallStep::CheckWintun, facts) == seq![
            InstallStep::CheckWintun,
            InstallStep::OpenManager,
        ] + (if facts.existing && facts.active {
            seq![InstallStep::StopExisting]
        } else {
            Seq::empty()
        }) + (if facts.in_place {
            Seq::empty()
        } else {
            seq![InstallStep::CreateDirectory, InstallStep::CopyFiles]
        }) + seq![
            if facts.existing {
                InstallStep::ChangeConfig
            } else {
                InstallStep::CreateService
            },
            InstallStep::Describe,
            InstallStep::StartService,
            InstallStep::WaitRunning,
            InstallStep::CallVersion,
        ],
{
    let p9 = install_path(InstallStep::CallVersion, facts);
    let p8 = install_path(InstallStep::WaitRunning, facts);
    let p7 = install_path(InstallStep::StartService, facts);
    let p6 = install_path(InstallStep::Describe, facts);
    assert(p9 == seq![InstallStep::CallVersion]);
    assert(p8 == seq![InstallStep::WaitRunning] + p9);
    assert(p7 == seq![InstallStep::StartService] + p8);
    assert(p6 == seq![InstallStep::Describe] + p7);
    let service = if facts.existing {
        InstallStep::ChangeConfig
    } else {
        InstallStep::CreateService
    };
    let p5 = install_path(service, facts);
    assert(p5 == seq![service] + p6);
    let p4 = install_path(InstallStep::CopyFiles, facts);
    assert(p4 == seq![InstallStep::CopyFiles] + p5);
    let p3 = install_path(InstallStep::CreateDirectory, facts);
    assert(p3 == seq![InstallStep::CreateDirectory] + p4);
    let files = if facts.in_place { p5 } else { p3 };
    let p2 = install_path(InstallStep::StopExisting, facts);
    assert(p2 == seq![InstallStep::StopExisting] + files);
    let p1 = install_path(InstallStep::OpenManager, facts);
    if facts.existing && facts.active {
        assert(p1 == seq![InstallStep::OpenManager] + p2);
    } else {
        assert(p1 == seq![InstallStep::OpenManager] + files);
    }
    let p0 = install_path(InstallStep::CheckWintun, facts);
    assert(p0 == seq![InstallStep::CheckWintun] + p1);
    assert(p0 =~= seq![InstallStep::CheckWintun, InstallStep::OpenManager] + (if facts.existing
        && facts.active {
        seq![InstallStep::StopExisting]
    } else {
        Seq::empty()
    }) + (if facts.in_place {
        Seq::empty()
    } else {
        seq![InstallStep::CreateDirectory, InstallStep::CopyFiles]
    }) + seq![
        service,
        InstallStep::Describe,
        InstallStep::StartService,
        InstallStep::WaitRunning,
        InstallStep::CallVersion,
    ]);
}

/// What is said of a step that failed names the step, and its cause wherever
/// one is known.
pub proof fn a_failed_step_is_named(subject: Seq<char>, cause: Seq<char>)
    ensures
        install_complaint(InstallStep::CheckWintun, subject, cause) == subject + " is missing"@,
        install_complaint(InstallStep::OpenManager, subject, cause)
            == "cannot open the Service Control Manager: "@ + cause,
        install_complaint(InstallStep::StopExisting, subject, cause)
            == "the existing NulConnect Helper service did not stop"@,
        install_complaint(InstallStep::CreateDirectory, subject, cause) == "failed to create "@
            + subject + ": "@ + cause,
        install_complaint(InstallStep::CopyFiles, subject, cause) == cause,
        install_complaint(InstallStep::ChangeConfig, subject, cause)
            == "failed to update the service: "@ + cause,
        install_complaint(InstallStep::CreateService, subject, cause)
            == "failed to create the service: "@ + cause,
        install_complaint(InstallStep::StartService, subject, cause)
            == "failed to start the service: "@ + cause,
        install_complaint(InstallStep::WaitRunning, subject, cause)
            == "the NulConnect Helper service did not start in time"@,
        install_complaint(InstallStep::CallVersion, subject, cause)
            == "the service started but its pipe is unavailable: "@ + cause,
        uninstall_complaint(UninstallStep::OpenManager, cause)
            == "cannot open the Service Control Manager: "@ + cause,
        uninstall_complaint(UninstallStep::StopService, cause)
            == "the NulConnect Helper service did not stop: "@ + cause,
        uninstall_complaint(UninstallStep::DeleteService, cause)
            == "failed to delete the service: "@ + cause,
        uninstall_complaint(UninstallStep::RemoveFiles, cause)
            == "failed to remove the files of the helper: "@ + cause,
{
}

/// Removing the helper stops the service where it is active, deletes it where
/// there is one, and removes the files last.
pub proof fn a_removal_takes_every_step(existing: bool, active: bool)
    ensures
        uninstall_step_after(UninstallStep::OpenManager, false, active) == Some(
            UninstallStep::RemoveFiles,
        ),
        uninstall_step_after(UninstallStep::OpenManager, true, true) == Some(
            UninstallStep::StopService,
        ),
        uninstall_step_after(UninstallStep::OpenManager, true, false) == Some(
            UninstallStep::DeleteService,
        ),
        uninstall_step_after(UninstallStep::StopService, existing, active) == Some(
            UninstallStep::DeleteService,
        ),
        uninstall_step_after(UninstallStep::DeleteService, existing, active) == Some(
            UninstallStep::RemoveFiles,
        ),
        uninstall_step_after(UninstallStep::RemoveFiles, existing, active) is None,
{
}

/// Everything that an installation and the helper wrote is removed: the driver,
/// the state, the logs and, unless it is running, the executable, and then the
/// directory and its parent where nothing is left in them.
pub proof fn everything_that_was_installed_is_removed(
    source_exe: Seq<char>,
    source_wintun: Seq<char>,
    dir: Seq<char>,
    parent: Seq<char>,
    running: bool,
    i: int,
)
    ensures
        ({
            let all = removed_with(dir, parent, running);
            let copies = wanted_copies(source_exe, source_wintun, dir, false);
            &&& copies.len() == 2
            &&& copies[0] == (source_exe, windows::win_joined(dir, "nulconnect-helper.exe"@))
            &&& copies[1] == (source_wintun, windows::win_joined(dir, "wintun.dll"@))
            &&& 0 <= i < 2 && !running ==> all.contains(RemovalModel::File(copies[i].1))
            &&& all.contains(RemovalModel::File(copies[1].1))
            &&& all.contains(RemovalModel::Tree(windows::win_joined(dir, "state"@)))
            &&& all.contains(RemovalModel::Tree(windows::win_joined(dir, "logs"@)))
            &&& all[all.len() - 2] == RemovalModel::EmptyDirectory(dir)
            &&& all[all.len() - 1] == RemovalModel::EmptyDirectory(parent)
            &&& all.len() == if running {
                5nat
            } else {
                6nat
            }
        }),
{
    let all = removed_with(dir, parent, running);
    let k: int = if running { 0 } else { 1 };
    assert(all[k] == RemovalModel::File(windows::win_joined(dir, "wintun.dll"@)));
    assert(all[k + 1] == RemovalModel::Tree(windows::win_joined(dir, "state"@)));
    assert(all[k + 2] == RemovalModel::Tree(windows::win_joined(dir, "logs"@)));
    if !running {
        assert(all[0] == RemovalModel::File(windows::win_joined(dir, "nulconnect-helper.exe"@)));
    }
}

} // verus!
