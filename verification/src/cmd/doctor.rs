//! The `doctor` command: what is reported of the tunnels' health.
//!
//! The headline is a live tunnel whose origin port has nothing listening: it
//! answers every request with a 502, and nothing else that `ft` prints shows it.
//! Probing is left to the caller; here the findings are decided and worded.

use vstd::prelude::*;
use vstd::string::*;

use crate::model::{service_views, Service, ServiceKind, ServiceStatus, ServiceView};
use crate::text::{
    concat2, concat3, concat5, decimal, decimal_text, lemma_stands_across, lemma_stands_between,
    occurs_in, opt_str, opt_text,
};

verus! {

/// Severity of one check's outcome.
#[derive(Clone, Copy, Debug, PartialEq, Eq, Structural)]
pub enum CheckStatus {
    /// Nothing to report.
    Pass,
    /// Informational, and counted apart from the problems.
    Note,
    /// A problem that does not break serving right now.
    Warn,
    /// A problem that breaks the tunnel right now.
    Fail,
}

impl CheckStatus {
    /// The word in front of a check's line.
    pub open spec fn word(self) -> Seq<char> {
        match self {
            CheckStatus::Pass | CheckStatus::Note => "ok"@,
            CheckStatus::Warn => "warn"@,
            CheckStatus::Fail => "fail"@,
        }
    }

    /// The outcome counts as a problem.
    pub open spec fn problem(self) -> bool {
        self is Warn || self is Fail
    }

    /// The word in front of a check's line.
    pub fn as_str(self) -> (r: &'static str)
        ensures
            r@ == self.word(),
    {
        match self {
            CheckStatus::Pass | CheckStatus::Note => "ok",
            CheckStatus::Warn => "warn",
            CheckStatus::Fail => "fail",
        }
    }

    /// Whether the outcome counts as a problem.
    pub fn is_problem(self) -> (r: bool)
        ensures
            r == self.problem(),
    {
        matches!(self, CheckStatus::Warn | CheckStatus::Fail)
    }
}

/// The result of one check.
#[derive(Debug)]
pub struct Check {
    /// What was checked.
    pub name: String,
    /// How it came out.
    pub status: CheckStatus,
    /// The result in words.
    pub detail: String,
    /// What to do about a problem.
    pub hint: Option<String>,
}

/// The view of a [`Check`].
pub ghost struct CheckView {
    pub name: Seq<char>,
    pub status: CheckStatus,
    pub detail: Seq<char>,
    pub hint: Option<Seq<char>>,
}

impl View for Check {
    type V = CheckView;

    open spec fn view(&self) -> CheckView {
        CheckView {
            name: self.name@,
            status: self.status,
            detail: self.detail@,
            hint: opt_text(self.hint),
        }
    }
}

/// The views of a list of checks.
pub open spec fn check_views(v: Seq<Check>) -> Seq<CheckView> {
    Seq::new(v.len(), |i: int| v[i]@)
}

/// What is known of the recorded command child of a run service.
#[derive(Clone, Copy, Debug, PartialEq, Eq, Structural)]
pub struct CommandProbe {
    /// The recorded pid.
    pub pid: u32,
    /// Some process has the pid. It need not be the command.
    pub alive: bool,
    /// The service's own port answers.
    pub port_alive: bool,
}

/// The pid of the command child that is to be probed: only a run service has one,
/// and 0 is no pid.
pub open spec fn probed_command(s: ServiceView) -> Option<u32> {
    match s.command_pid {
        Some(p) if s.kind is Run && p != 0 => Some(p),
        _ => None,
    }
}

/// The pid of the command child that is to be probed, where there is one.
pub fn command_to_probe(svc: &Service) -> (r: Option<u32>)
    ensures
        r == probed_command(svc@),
{
    if svc.kind != ServiceKind::Run {
        return None;
    }
    match svc.command_pid {
        Some(p) => {
            if p != 0 {
                Some(p)
            } else {
                None
            }
        },
        None => None,
    }
}

/// The probe of a service's recorded command child, where it has one to be
/// probed.
pub open spec fn probe_of(s: ServiceView, alive: bool, port_alive: bool) -> Option<CommandProbe> {
    match probed_command(s) {
        Some(pid) => Some(CommandProbe { pid, alive, port_alive }),
        None => None,
    }
}

/// The probe of a service's recorded command child, where it has one to be
/// probed.
pub fn command_probe(svc: &Service, alive: bool, port_alive: bool) -> (r: Option<CommandProbe>)
    ensures
        r == probe_of(svc@, alive, port_alive),
{
    match command_to_probe(svc) {
        Some(pid) => Some(CommandProbe { pid, alive, port_alive }),
        None => None,
    }
}

/// The origin of a service is probed: its worker is alive.
pub open spec fn origin_probed(s: ServiceView, status: ServiceStatus) -> bool {
    status is Running || (status is Starting && s.worker_pid != 0)
}

/// The origin of a service is probed only where its worker is alive: a dead
/// worker already explains a dead port.
pub fn probes_origin(svc: &Service, status: ServiceStatus) -> (r: bool)
    ensures
        r == origin_probed(svc@, status),
{
    match status {
        ServiceStatus::Running => true,
        ServiceStatus::Starting => svc.worker_pid != 0,
        ServiceStatus::Stale => false,
    }
}

// ---------------------------------------------------------------------------
// The checks of one service
// ---------------------------------------------------------------------------

/// What is said of a service's worker.
pub open spec fn worker_check(s: ServiceView, status: ServiceStatus, fresh: bool) -> CheckView {
    let name = "worker "@ + s.name;
    let pid = decimal(s.worker_pid as nat);
    match status {
        ServiceStatus::Stale => CheckView {
            name,
            status: CheckStatus::Warn,
            detail: "worker process (pid "@ + pid + ") is not running"@,
            hint: Some(
                "run `ft kill "@ + s.name
                    + "` to remove the entry (or `ft sanitize` to clean up everything dangling)"@,
            ),
        },
        ServiceStatus::Starting => if s.worker_pid != 0 {
            CheckView {
                name,
                status: CheckStatus::Pass,
                detail: "worker pid "@ + pid + " is alive; public URL not discovered yet"@,
                hint: None,
            }
        } else if fresh {
            CheckView {
                name,
                status: CheckStatus::Note,
                detail: "fresh reservation inside the start-grace window — the worker pid lands momentarily; not an error"@,
                hint: None,
            }
        } else {
            CheckView {
                name,
                status: CheckStatus::Warn,
                detail: "worker pid was never recorded and the start grace has expired — the reservation was abandoned mid-start"@,
                hint: Some("run `ft sanitize` to remove the abandoned reservation"@),
            }
        },
        ServiceStatus::Running => CheckView {
            name,
            status: CheckStatus::Pass,
            detail: "worker pid "@ + pid + " is running"@,
            hint: None,
        },
    }
}

/// What is said of a service's worker. `fresh` tells whether an unrecorded pid
/// is still within the grace.
fn check_worker(svc: &Service, status: ServiceStatus, fresh: bool) -> (r: Check)
    ensures
        r@ == worker_check(svc@, status, fresh),
{
    let name = concat2("worker ", svc.name.as_str());
    let pid = decimal_text(svc.worker_pid as u64);
    match status {
        ServiceStatus::Stale => Check {
            name,
            status: CheckStatus::Warn,
            detail: concat3("worker process (pid ", pid.as_str(), ") is not running"),
            hint: Some(
                concat3(
                    "run `ft kill ",
                    svc.name.as_str(),
                    "` to remove the entry (or `ft sanitize` to clean up everything dangling)",
                ),
            ),
        },
        ServiceStatus::Starting => {
            if svc.worker_pid != 0 {
                Check {
                    name,
                    status: CheckStatus::Pass,
                    detail: concat3(
                        "worker pid ",
                        pid.as_str(),
                        " is alive; public URL not discovered yet",
                    ),
                    hint: None,
                }
            } else if fresh {
                Check {
                    name,
                    status: CheckStatus::Note,
                    detail: "fresh reservation inside the start-grace window — the worker pid lands momentarily; not an error".to_owned(),
                    hint: None,
                }
            } else {
                Check {
                    name,
                    status: CheckStatus::Warn,
                    detail: "worker pid was never recorded and the start grace has expired — the reservation was abandoned mid-start".to_owned(),
                    hint: Some(
                        "run `ft sanitize` to remove the abandoned reservation".to_owned(),
                    ),
                }
            }
        },
        ServiceStatus::Running => Check {
            name,
            status: CheckStatus::Pass,
            detail: concat3("worker pid ", pid.as_str(), " is running"),
            hint: None,
        },
    }
}

/// What is said of a command that may have outlived its worker. Its pid is not
/// known to be the command's, so nothing is claimed outright.
pub open spec fn command_check(
    s: ServiceView,
    status: ServiceStatus,
    command: Option<CommandProbe>,
) -> Option<CheckView> {
    match command {
        Some(p) if status is Stale && p.alive => Some(
            CheckView {
                name: "command "@ + s.name,
                status: CheckStatus::Warn,
                detail: if p.port_alive {
                    "tunnel dead, command still running: pid "@ + decimal(p.pid as nat)
                        + " is alive and 127.0.0.1:"@ + decimal(s.port as nat)
                        + " still answers — most likely the command outliving its worker, though the unverified pid could also be a recycled one"@
                } else {
                    "tunnel dead, command still running: a process exists at the recorded pid "@
                        + decimal(p.pid as nat) + ", but nothing listens on 127.0.0.1:"@ + decimal(
                        s.port as nat,
                    )
                        + " — either the command survived without serving, or the pid was recycled by an unrelated process"@
                },
                hint: Some(
                    "check what pid "@ + decimal(p.pid as nat)
                        + " is and stop it if it is the command; `ft kill "@ + s.name
                        + "` removes the stale entry (the kill cannot signal the command: the worker that owned the group is gone)"@,
                ),
            },
        ),
        _ => None,
    }
}

/// What is said of a command that may have outlived its worker.
fn check_command(svc: &Service, status: ServiceStatus, command: Option<CommandProbe>) -> (r: Option<
    Check,
>)
    ensures
        match r {
            Some(c) => command_check(svc@, status, command) == Some(c@),
            None => command_check(svc@, status, command) is None,
        },
{
    if status != ServiceStatus::Stale {
        return None;
    }
    match command {
        Some(p) => {
            if !p.alive {
                return None;
            }
            let pid = decimal_text(p.pid as u64);
            let port = decimal_text(svc.port as u64);
            let detail = if p.port_alive {
                concat5(
                    "tunnel dead, command still running: pid ",
                    pid.as_str(),
                    " is alive and 127.0.0.1:",
                    port.as_str(),
                    " still answers — most likely the command outliving its worker, though the unverified pid could also be a recycled one",
                )
            } else {
                concat5(
                    "tunnel dead, command still running: a process exists at the recorded pid ",
                    pid.as_str(),
                    ", but nothing listens on 127.0.0.1:",
                    port.as_str(),
                    " — either the command survived without serving, or the pid was recycled by an unrelated process",
                )
            };
            Some(
                Check {
                    name: concat2("command ", svc.name.as_str()),
                    status: CheckStatus::Warn,
                    detail,
                    hint: Some(
                        concat5(
                            "check what pid ",
                            pid.as_str(),
                            " is and stop it if it is the command; `ft kill ",
                            svc.name.as_str(),
                            "` removes the stale entry (the kill cannot signal the command: the worker that owned the group is gone)",
                        ),
                    ),
                },
            )
        },
        None => None,
    }
}

/// What has become of the command of a run service whose port is silent.
pub open spec fn run_state(command: Option<CommandProbe>) -> Seq<char> {
    match command {
        Some(p) => if p.alive {
            "the command (pid "@ + decimal(p.pid as nat) + ") is running but not listening"@
        } else {
            "the command (recorded pid "@ + decimal(p.pid as nat) + ") has exited"@
        },
        None => "no command pid is recorded yet"@,
    }
}

/// What to do about a run service whose port is silent.
pub open spec fn run_hint(name: Seq<char>, command: Option<CommandProbe>) -> Seq<char> {
    match command {
        Some(p) => if p.alive {
            "check the command's output (`ft logs "@ + name
                + "`); stop the service with `ft kill "@ + name + "` if it is wedged"@
        } else {
            "the worker's monitor should tear the service down momentarily; `ft kill "@ + name
                + "` removes it if it lingers"@
        },
        None => "check the command's output (`ft logs "@ + name + "`)"@,
    }
}

/// What is said of a service's origin, where it was probed.
pub open spec fn origin_check(
    s: ServiceView,
    origin: Option<bool>,
    command: Option<CommandProbe>,
) -> Option<CheckView> {
    let name = "origin "@ + s.name;
    let port = decimal(s.port as nat);
    match origin {
        None => None,
        Some(true) => Some(
            CheckView {
                name,
                status: CheckStatus::Pass,
                detail: "127.0.0.1:"@ + port + " is answering"@,
                hint: None,
            },
        ),
        Some(false) => Some(
            match s.kind {
                ServiceKind::Proxy => CheckView {
                    name,
                    status: CheckStatus::Fail,
                    detail: "proxying "@ + port
                        + " but nothing is listening — the tunnel will 502 every request"@,
                    hint: Some(
                        "start the upstream server, or stop the service (`ft kill "@ + s.name
                            + "` — `ft sanitize` cleans background dead-upstream tunnels; stop a foreground one with Ctrl-C in its terminal)"@,
                    ),
                },
                ServiceKind::Run => CheckView {
                    name,
                    status: CheckStatus::Fail,
                    detail: "run: nothing is listening on 127.0.0.1:"@ + port + " — "@ + run_state(
                        command,
                    ) + ", so the tunnel will 502 every request"@,
                    hint: Some(run_hint(s.name, command)),
                },
                _ => CheckView {
                    name,
                    status: CheckStatus::Warn,
                    detail: "worker pid "@ + decimal(s.worker_pid as nat)
                        + " is alive but nothing is listening on 127.0.0.1:"@ + port
                        + " — the built-in server should be; this is an anomaly"@,
                    hint: Some(
                        "inspect its logs (`ft logs "@ + s.name + "`) or restart it (`ft kill "@
                            + s.name + "`, then start it again)"@,
                    ),
                },
            },
        ),
    }
}

/// What has become of the command of a run service whose port is silent, and what
/// to do about it.
fn describe_run(name: &str, command: Option<CommandProbe>) -> (r: (String, String))
    ensures
        r.0@ == run_state(command),
        r.1@ == run_hint(name@, command),
{
    match command {
        Some(p) => {
            let pid = decimal_text(p.pid as u64);
            if p.alive {
                (
                    concat3("the command (pid ", pid.as_str(), ") is running but not listening"),
                    concat5(
                        "check the command's output (`ft logs ",
                        name,
                        "`); stop the service with `ft kill ",
                        name,
                        "` if it is wedged",
                    ),
                )
            } else {
                (
                    concat3("the command (recorded pid ", pid.as_str(), ") has exited"),
                    concat3(
                        "the worker's monitor should tear the service down momentarily; `ft kill ",
                        name,
                        "` removes it if it lingers",
                    ),
                )
            }
        },
        None => (
            "no command pid is recorded yet".to_owned(),
            concat3("check the command's output (`ft logs ", name, "`)"),
        ),
    }
}

/// What is said of a service's origin, where it was probed.
fn check_origin(svc: &Service, origin: Option<bool>, command: Option<CommandProbe>) -> (r: Option<
    Check,
>)
    ensures
        match r {
            Some(c) => origin_check(svc@, origin, command) == Some(c@),
            None => origin_check(svc@, origin, command) is None,
        },
{
    let alive = match origin {
        Some(a) => a,
        None => return None,
    };
    let name = concat2("origin ", svc.name.as_str());
    let port = decimal_text(svc.port as u64);
    if alive {
        return Some(
            Check {
                name,
                status: CheckStatus::Pass,
                detail: concat3("127.0.0.1:", port.as_str(), " is answering"),
                hint: None,
            },
        );
    }
    match svc.kind {
        ServiceKind::Proxy => Some(
            Check {
                name,
                status: CheckStatus::Fail,
                detail: concat3(
                    "proxying ",
                    port.as_str(),
                    " but nothing is listening — the tunnel will 502 every request",
                ),
                hint: Some(
                    concat3(
                        "start the upstream server, or stop the service (`ft kill ",
                        svc.name.as_str(),
                        "` — `ft sanitize` cleans background dead-upstream tunnels; stop a foreground one with Ctrl-C in its terminal)",
                    ),
                ),
            },
        ),
        ServiceKind::Run => {
            let (state, hint) = describe_run(svc.name.as_str(), command);
            Some(
                Check {
                    name,
                    status: CheckStatus::Fail,
                    detail: concat5(
                        "run: nothing is listening on 127.0.0.1:",
                        port.as_str(),
                        " — ",
                        state.as_str(),
                        ", so the tunnel will 502 every request",
                    ),
                    hint: Some(hint),
                },
            )
        },
        ServiceKind::Static | ServiceKind::Hook | ServiceKind::Drop => {
            let pid = decimal_text(svc.worker_pid as u64);
            Some(
                Check {
                    name,
                    status: CheckStatus::Warn,
                    detail: concat5(
                        "worker pid ",
                        pid.as_str(),
                        " is alive but nothing is listening on 127.0.0.1:",
                        port.as_str(),
                        " — the built-in server should be; this is an anomaly",
                    ),
                    hint: Some(
                        concat5(
                            "inspect its logs (`ft logs ",
                            svc.name.as_str(),
                            "`) or restart it (`ft kill ",
                            svc.name.as_str(),
                            "`, then start it again)",
                        ),
                    ),
                },
            )
        },
    }
}

/// What is said of a service's log directory.
pub open spec fn state_check(s: ServiceView, present: bool) -> CheckView {
    CheckView {
        name: "state-dir "@ + s.name,
        status: if present {
            CheckStatus::Pass
        } else {
            CheckStatus::Warn
        },
        detail: if present {
            "present at "@ + s.state_dir
        } else {
            "missing ("@ + s.state_dir + ") — this service's logs cannot be read"@
        },
        hint: if present {
            None
        } else {
            Some("run `ft kill "@ + s.name + "` and start the service again to recreate it"@)
        },
    }
}

/// What is said of a service's log directory.
fn check_state(svc: &Service, present: bool) -> (r: Check)
    ensures
        r@ == state_check(svc@, present),
{
    let name = concat2("state-dir ", svc.name.as_str());
    if present {
        Check {
            name,
            status: CheckStatus::Pass,
            detail: concat2("present at ", svc.state_dir.as_str()),
            hint: None,
        }
    } else {
        Check {
            name,
            status: CheckStatus::Warn,
            detail: concat3(
                "missing (",
                svc.state_dir.as_str(),
                ") — this service's logs cannot be read",
            ),
            hint: Some(
                concat3(
                    "run `ft kill ",
                    svc.name.as_str(),
                    "` and start the service again to recreate it",
                ),
            ),
        }
    }
}

/// A list of the check, where there is one.
pub open spec fn if_any(c: Option<CheckView>) -> Seq<CheckView> {
    match c {
        Some(x) => seq![x],
        None => Seq::empty(),
    }
}

/// All that is said of one service: of its worker, of a command that may have
/// outlived it, of its origin, and of its log directory.
pub open spec fn checks_of(
    s: ServiceView,
    status: ServiceStatus,
    origin: Option<bool>,
    command: Option<CommandProbe>,
    fresh: bool,
    state_present: bool,
) -> Seq<CheckView> {
    seq![worker_check(s, status, fresh)] + if_any(command_check(s, status, command)) + if_any(
        origin_check(s, origin, command),
    ) + seq![state_check(s, state_present)]
}

/// The checks of one service. `origin` is what the probe of its port found, and
/// missing where its worker is not alive; `command` is the probe of a run service's
/// command; `fresh` tells whether an unrecorded worker pid is still within the
/// grace, and `state_present` whether the log directory exists.
pub fn service_checks(
    svc: &Service,
    status: ServiceStatus,
    origin: Option<bool>,
    command: Option<CommandProbe>,
    fresh: bool,
    state_present: bool,
) -> (r: Vec<Check>)
    ensures
        check_views(r@) == checks_of(svc@, status, origin, command, fresh, state_present),
{
    let mut checks: Vec<Check> = Vec::new();
    checks.push(check_worker(svc, status, fresh));
    if let Some(c) = check_command(svc, status, command) {
        checks.push(c);
    }
    if let Some(c) = check_origin(svc, origin, command) {
        checks.push(c);
    }
    checks.push(check_state(svc, state_present));
    assert(check_views(checks@) =~= checks_of(
        svc@,
        status,
        origin,
        command,
        fresh,
        state_present,
    ));
    checks
}

// ---------------------------------------------------------------------------
// The checks that belong to no service
// ---------------------------------------------------------------------------

/// What is said of `cloudflared`, given where it was found.
pub open spec fn cloudflared_finding(found: Option<Seq<char>>) -> CheckView {
    match found {
        Some(path) => CheckView {
            name: "cloudflared"@,
            status: CheckStatus::Pass,
            detail: "found at "@ + path,
            hint: None,
        },
        None => CheckView {
            name: "cloudflared"@,
            status: CheckStatus::Warn,
            detail: "not found on PATH"@,
            hint: Some(
                "install it from https://developers.cloudflare.com/cloudflare-one/connections/connect-networks/downloads/ (macOS: brew install cloudflared, Windows: winget install Cloudflare.cloudflared)"@,
            ),
        },
    }
}

/// What is said of `cloudflared`, given where it was found. Its absence is no
/// failure of the command.
pub fn cloudflared_check(found: Option<&str>) -> (r: Check)
    ensures
        r@ == cloudflared_finding(opt_str(found)),
{
    match found {
        Some(path) => Check {
            name: "cloudflared".to_owned(),
            status: CheckStatus::Pass,
            detail: concat2("found at ", path),
            hint: None,
        },
        None => Check {
            name: "cloudflared".to_owned(),
            status: CheckStatus::Warn,
            detail: "not found on PATH".to_owned(),
            hint: Some(
                "install it from https://developers.cloudflare.com/cloudflare-one/connections/connect-networks/downloads/ (macOS: brew install cloudflared, Windows: winget install Cloudflare.cloudflared)".to_owned(),
            ),
        },
    }
}

/// What is said of a registry that cannot be loaded.
pub open spec fn registry_finding(error: Seq<char>, path: Seq<char>) -> CheckView {
    CheckView {
        name: "registry"@,
        status: CheckStatus::Fail,
        detail: "cannot be loaded ("@ + error + ")"@,
        hint: Some(
            "repair or remove "@ + path
                + " — with it unreadable, every registry-backed command is blocked"@,
        ),
    }
}

/// What is said of a registry that cannot be loaded.
pub fn registry_check(error: &str, path: &str) -> (r: Check)
    ensures
        r@ == registry_finding(error@, path@),
{
    Check {
        name: "registry".to_owned(),
        status: CheckStatus::Fail,
        detail: concat3("cannot be loaded (", error, ")"),
        hint: Some(
            concat3(
                "repair or remove ",
                path,
                " — with it unreadable, every registry-backed command is blocked",
            ),
        ),
    }
}

// ---------------------------------------------------------------------------
// The whole report
// ---------------------------------------------------------------------------

/// What was found out of one service.
#[derive(Clone, Copy, Debug, PartialEq, Eq, Structural)]
pub struct Findings {
    /// Its state.
    pub status: ServiceStatus,
    /// Whether its origin answers; nothing where it was not probed.
    pub origin: Option<bool>,
    /// What is known of the command of a run service.
    pub command: Option<CommandProbe>,
    /// An unrecorded worker pid is still within the grace.
    pub fresh: bool,
    /// Its log directory exists.
    pub state_present: bool,
}

/// All that is said of one service.
pub open spec fn service_report(s: ServiceView, f: Findings) -> Seq<CheckView> {
    checks_of(s, f.status, f.origin, f.command, f.fresh, f.state_present)
}

/// All that is said of the first `n` services, one after the other.
pub open spec fn service_reports(s: Seq<ServiceView>, f: Seq<Findings>, n: nat) -> Seq<CheckView>
    decreases n,
{
    if n == 0 {
        Seq::empty()
    } else {
        service_reports(s, f, (n - 1) as nat) + service_report(s[n - 1], f[n - 1])
    }
}

/// The report on a machine whose registry can be loaded: of `cloudflared`, and of
/// every service.
pub fn report(found: Option<&str>, services: &Vec<Service>, findings: &Vec<Findings>) -> (r: Vec<
    Check,
>)
    requires
        findings@.len() == services@.len(),
    ensures
        check_views(r@) == seq![cloudflared_finding(opt_str(found))] + service_reports(
            service_views(services@),
            findings@,
            services@.len(),
        ),
{
    let ghost all = service_views(services@);
    let ghost head = seq![cloudflared_finding(opt_str(found))];
    let mut checks: Vec<Check> = Vec::new();
    checks.push(cloudflared_check(found));
    let mut i: usize = 0;
    assert(check_views(checks@) =~= head + service_reports(all, findings@, 0));
    while i < services.len()
        invariant
            all == service_views(services@),
            findings@.len() == services@.len(),
            i <= services@.len(),
            check_views(checks@) == head + service_reports(all, findings@, i as nat),
        decreases services@.len() - i,
    {
        let f = findings[i];
        assert(all[i as int] == services@[i as int]@);
        let mut more = service_checks(
            &services[i],
            f.status,
            f.origin,
            f.command,
            f.fresh,
            f.state_present,
        );
        let ghost before = checks@;
        let ghost added = more@;
        checks.append(&mut more);
        assert(check_views(checks@) =~= check_views(before) + check_views(added));
        assert(check_views(checks@) =~= head + service_reports(all, findings@, (i + 1) as nat));
        i = i + 1;
    }
    checks
}

/// The report on a machine whose registry cannot be loaded.
pub fn report_unreadable(found: Option<&str>, error: &str, path: &str) -> (r: Vec<Check>)
    ensures
        check_views(r@) == seq![
            cloudflared_finding(opt_str(found)),
            registry_finding(error@, path@),
        ],
{
    let mut checks: Vec<Check> = Vec::new();
    checks.push(cloudflared_check(found));
    checks.push(registry_check(error, path));
    assert(check_views(checks@) =~= seq![
        cloudflared_finding(opt_str(found)),
        registry_finding(error@, path@),
    ]);
    checks
}

// ---------------------------------------------------------------------------
// Laws
// ---------------------------------------------------------------------------

/// Only a problem carries a hint, and every problem of a service does.
pub proof fn law_hints_belong_to_problems(
    s: ServiceView,
    status: ServiceStatus,
    origin: Option<bool>,
    command: Option<CommandProbe>,
    fresh: bool,
    state_present: bool,
    i: int,
)
    requires
        0 <= i < checks_of(s, status, origin, command, fresh, state_present).len(),
    ensures
        ({
            let c = checks_of(s, status, origin, command, fresh, state_present)[i];
            c.hint is Some <==> c.status.problem()
        }),
{
    let a = seq![worker_check(s, status, fresh)];
    let b = if_any(command_check(s, status, command));
    let c = if_any(origin_check(s, origin, command));
    let d = seq![state_check(s, state_present)];
    let all = a + b + c + d;
    if i < a.len() {
        assert(all[i] == a[i]);
    } else if i < a.len() + b.len() {
        assert(all[i] == b[i - a.len()]);
    } else if i < a.len() + b.len() + c.len() {
        assert(all[i] == c[i - a.len() - b.len()]);
    } else {
        assert(all[i] == d[i - a.len() - b.len() - c.len()]);
    }
}

/// A healthy service gives no problem at all: with a running worker, an answering
/// origin and its log directory in place, every check comes out `Pass`.
pub proof fn law_healthy_service_has_no_findings(
    s: ServiceView,
    command: Option<CommandProbe>,
    fresh: bool,
    i: int,
)
    requires
        0 <= i < checks_of(s, ServiceStatus::Running, Some(true), command, fresh, true).len(),
    ensures
        checks_of(s, ServiceStatus::Running, Some(true), command, fresh, true)[i].status is Pass,
        checks_of(s, ServiceStatus::Running, Some(true), command, fresh, true)[i].hint is None,
{
    let all = checks_of(s, ServiceStatus::Running, Some(true), command, fresh, true);
    assert(all =~= seq![
        worker_check(s, ServiceStatus::Running, fresh),
        origin_check(s, Some(true), command)->0,
        state_check(s, true),
    ]);
}

/// A service is healthy: its worker is running, its origin answers and its log
/// directory is in place.
pub open spec fn healthy(f: Findings) -> bool {
    f.status is Running && f.origin == Some(true) && f.state_present
}

/// A machine on which every service is healthy gives no problem and no note, but
/// for a missing `cloudflared`.
pub proof fn law_healthy_machine_has_no_findings(
    s: Seq<ServiceView>,
    f: Seq<Findings>,
    n: nat,
    i: int,
)
    requires
        n <= f.len(),
        forall|k: int| 0 <= k < n ==> healthy(#[trigger] f[k]),
        0 <= i < service_reports(s, f, n).len(),
    ensures
        service_reports(s, f, n)[i].status is Pass,
    decreases n,
{
    let before = service_reports(s, f, (n - 1) as nat);
    let last = f[n - 1];
    assert(healthy(last));
    if i < before.len() {
        law_healthy_machine_has_no_findings(s, f, (n - 1) as nat, i);
    } else {
        law_healthy_service_has_no_findings(
            s[n - 1],
            last.command,
            last.fresh,
            i - before.len(),
        );
    }
}

/// A dead upstream is a failure, not a warning, exactly for the services whose
/// origin `ft` does not serve itself.
pub proof fn law_dead_upstream_fails(s: ServiceView, command: Option<CommandProbe>)
    ensures
        origin_check(s, Some(false), command) matches Some(c) && (c.status is Fail <==> (s.kind is Proxy
            || s.kind is Run)),
{
}

/// What breaks and what warns are problems, and the words tell them from all else and
/// from each other.
pub proof fn law_problems_are_told_by_their_words(a: CheckStatus, b: CheckStatus)
    ensures
        a.problem() <==> a.word() != "ok"@,
        a.problem() && a.word() == b.word() ==> a == b,
        !CheckStatus::Pass.problem() && !CheckStatus::Note.problem(),
        CheckStatus::Warn.problem() && CheckStatus::Fail.problem(),
        CheckStatus::Warn.word() == "warn"@ && CheckStatus::Fail.word() == "fail"@,
{
    reveal_strlit("ok");
    reveal_strlit("warn");
    reveal_strlit("fail");
    assert("warn"@[0] != "fail"@[0]);
}

/// Only the recorded command of a run service is probed, and the probe carries its pid
/// and what was found.
pub proof fn law_only_recorded_commands_are_probed(
    s: ServiceView,
    alive: bool,
    port_alive: bool,
    pid: u32,
)
    ensures
        probe_of(s, alive, port_alive) is Some <==> s.kind is Run && s.command_pid is Some
            && s.command_pid != Some(0u32),
        s.kind is Run && s.command_pid == Some(pid) && pid != 0 ==> probed_command(s) == Some(pid)
            && probe_of(s, alive, port_alive) == Some(CommandProbe { pid, alive, port_alive }),
        !(s.kind is Run) ==> probed_command(s) is None,
{
}

/// An origin is probed under every running worker and under no dead one.
pub proof fn law_origins_are_probed_under_live_workers(s: ServiceView)
    ensures
        origin_probed(s, ServiceStatus::Running),
        !origin_probed(s, ServiceStatus::Stale),
        origin_probed(s, ServiceStatus::Starting) <==> s.worker_pid != 0,
{
}

/// A worker that is gone, or was never recorded in time, is a warning; one that runs
/// passes; one that is about to be recorded is noted.
pub proof fn law_workers_are_judged_by_their_state(s: ServiceView, fresh: bool)
    ensures
        worker_check(s, ServiceStatus::Stale, fresh).status is Warn,
        worker_check(s, ServiceStatus::Running, fresh).status is Pass,
        s.worker_pid != 0 ==> worker_check(s, ServiceStatus::Starting, fresh).status is Pass,
        s.worker_pid == 0 ==> worker_check(s, ServiceStatus::Starting, true).status is Note,
        s.worker_pid == 0 ==> worker_check(s, ServiceStatus::Starting, false).status is Warn,
{
}

/// What is said of a worker names its pid, where there is one, and says what it does.
pub proof fn law_worker_is_named_by_its_pid(s: ServiceView, fresh: bool)
    ensures
        occurs_in(
            worker_check(s, ServiceStatus::Stale, fresh).detail,
            "pid "@ + decimal(s.worker_pid as nat) + ") is not running"@,
        ),
        occurs_in(
            worker_check(s, ServiceStatus::Running, fresh).detail,
            "pid "@ + decimal(s.worker_pid as nat) + " is running"@,
        ),
        s.worker_pid != 0 ==> occurs_in(
            worker_check(s, ServiceStatus::Starting, fresh).detail,
            "pid "@ + decimal(s.worker_pid as nat) + " is alive"@,
        ),
{
    let pid = decimal(s.worker_pid as nat);
    let none = Seq::<char>::empty();
    assert("worker process (pid "@ == "worker process ("@ + "pid "@) by {
        reveal_strlit("worker process (pid ");
        reveal_strlit("worker process (");
        reveal_strlit("pid ");
    }
    assert("worker pid "@ == "worker "@ + "pid "@) by {
        reveal_strlit("worker pid ");
        reveal_strlit("worker ");
        reveal_strlit("pid ");
    }
    assert(" is alive; public URL not discovered yet"@ == " is alive"@
        + "; public URL not discovered yet"@) by {
        reveal_strlit(" is alive; public URL not discovered yet");
        reveal_strlit(" is alive");
        reveal_strlit("; public URL not discovered yet");
    }
    assert(") is not running"@ == ") is not running"@ + none);
    assert(" is running"@ == " is running"@ + none);
    lemma_stands_across("worker process ("@, "pid "@, pid, ") is not running"@, none);
    lemma_stands_across("worker "@, "pid "@, pid, " is running"@, none);
    lemma_stands_across(
        "worker "@,
        "pid "@,
        pid,
        " is alive"@,
        "; public URL not discovered yet"@,
    );
}

/// The entry of a dead worker is removed by the command that the hint gives.
pub proof fn law_dead_worker_comes_with_a_remedy(s: ServiceView, fresh: bool)
    ensures
        worker_check(s, ServiceStatus::Stale, fresh).hint matches Some(h) && occurs_in(
            h,
            "`ft kill "@ + s.name + "`"@,
        ),
{
    assert("run `ft kill "@ == "run "@ + "`ft kill "@) by {
        reveal_strlit("run `ft kill ");
        reveal_strlit("run ");
        reveal_strlit("`ft kill ");
    }
    assert("` to remove the entry (or `ft sanitize` to clean up everything dangling)"@ == "`"@
        + " to remove the entry (or `ft sanitize` to clean up everything dangling)"@) by {
        reveal_strlit("` to remove the entry (or `ft sanitize` to clean up everything dangling)");
        reveal_strlit("`");
        reveal_strlit(" to remove the entry (or `ft sanitize` to clean up everything dangling)");
    }
    lemma_stands_across(
        "run "@,
        "`ft kill "@,
        s.name,
        "`"@,
        " to remove the entry (or `ft sanitize` to clean up everything dangling)"@,
    );
}

/// A command is spoken of exactly where it may have outlived its worker, with its pid
/// and the port, and the two cases read differently.
pub proof fn law_surviving_commands_are_warned_of(
    s: ServiceView,
    status: ServiceStatus,
    command: Option<CommandProbe>,
    p: CommandProbe,
)
    ensures
        command_check(s, status, command) is Some <==> status is Stale && (command matches Some(c)
            && c.alive),
        status is Stale && p.alive ==> (command_check(s, status, Some(p)) matches Some(c)
            && c.status is Warn && occurs_in(c.detail, decimal(p.pid as nat)) && occurs_in(
            c.detail,
            "127.0.0.1:"@ + decimal(s.port as nat),
        ) && (c.hint matches Some(h) && occurs_in(h, "pid "@ + decimal(p.pid as nat)) && occurs_in(
            h,
            "`ft kill "@ + s.name + "`"@,
        ))),
{
    if status is Stale && p.alive {
        let c = command_check(s, status, Some(p))->0;
        let pid = decimal(p.pid as nat);
        let port = decimal(s.port as nat);
        let host = "127.0.0.1:"@ + port;
        reveal_strlit("127.0.0.1:");
        if p.port_alive {
            reveal_strlit(" is alive and 127.0.0.1:");
            reveal_strlit(" is alive and ");
            let a = "tunnel dead, command still running: pid "@;
            let b = " is alive and "@;
            let d =
                " still answers — most likely the command outliving its worker, though the unverified pid could also be a recycled one"@;
            assert(" is alive and 127.0.0.1:"@ =~= b + "127.0.0.1:"@);
            lemma_stands_between(a, pid, " is alive and 127.0.0.1:"@ + port + d);
            assert(c.detail =~= a + pid + (" is alive and 127.0.0.1:"@ + port + d));
            lemma_stands_between(a + pid + b, host, d);
            assert(c.detail =~= a + pid + b + host + d);
        } else {
            reveal_strlit(", but nothing listens on 127.0.0.1:");
            reveal_strlit(", but nothing listens on ");
            let a = "tunnel dead, command still running: a process exists at the recorded pid "@;
            let b = ", but nothing listens on "@;
            let d =
                " — either the command survived without serving, or the pid was recycled by an unrelated process"@;
            assert(", but nothing listens on 127.0.0.1:"@ =~= b + "127.0.0.1:"@);
            lemma_stands_between(a, pid, ", but nothing listens on 127.0.0.1:"@ + port + d);
            assert(c.detail =~= a + pid + (", but nothing listens on 127.0.0.1:"@ + port + d));
            lemma_stands_between(a + pid + b, host, d);
            assert(c.detail =~= a + pid + b + host + d);
        }
        let h = c.hint->0;
        reveal_strlit("check what pid ");
        reveal_strlit("check what ");
        reveal_strlit("pid ");
        reveal_strlit(" is and stop it if it is the command; `ft kill ");
        reveal_strlit(" is and stop it if it is the command; ");
        reveal_strlit("`ft kill ");
        reveal_strlit("`");
        reveal_strlit(
            "` removes the stale entry (the kill cannot signal the command: the worker that owned the group is gone)",
        );
        reveal_strlit(
            " removes the stale entry (the kill cannot signal the command: the worker that owned the group is gone)",
        );
        let named = "pid "@ + pid;
        let mid = " is and stop it if it is the command; "@;
        let kill = "`ft kill "@ + s.name + "`"@;
        let end =
            " removes the stale entry (the kill cannot signal the command: the worker that owned the group is gone)"@;
        lemma_stands_between("check what "@, named, mid + kill + end);
        assert(h =~= "check what "@ + named + (mid + kill + end));
        lemma_stands_between("check what "@ + named + mid, kill, end);
        assert(h =~= "check what "@ + named + mid + kill + end);
    }
}

/// Nothing is said of an origin that was not probed. One that answers passes, one that
/// is silent is a problem, and either way the port and the service are named.
pub proof fn law_origins_are_judged_by_their_port(
    s: ServiceView,
    command: Option<CommandProbe>,
    answers: bool,
)
    ensures
        origin_check(s, None, command) is None,
        origin_check(s, Some(answers), command) matches Some(c) && c.name == "origin "@ + s.name && (
        c.status is Pass <==> answers) && (c.status.problem() <==> !answers) && occurs_in(
            c.detail,
            decimal(s.port as nat),
        ),
{
    let port = decimal(s.port as nat);
    let c = origin_check(s, Some(answers), command)->0;
    if answers {
        lemma_stands_between("127.0.0.1:"@, port, " is answering"@);
    } else if s.kind is Proxy {
        lemma_stands_between(
            "proxying "@,
            port,
            " but nothing is listening — the tunnel will 502 every request"@,
        );
    } else if s.kind is Run {
        let a = "run: nothing is listening on 127.0.0.1:"@;
        let rest = " — "@ + run_state(command) + ", so the tunnel will 502 every request"@;
        lemma_stands_between(a, port, rest);
        assert(c.detail =~= a + port + rest);
    } else {
        let a = "worker pid "@ + decimal(s.worker_pid as nat)
            + " is alive but nothing is listening on 127.0.0.1:"@;
        lemma_stands_between(a, port, " — the built-in server should be; this is an anomaly"@);
    }
}

/// The report on a silent command says which pid was looked at and what became of it,
/// and the hint names the service.
pub proof fn law_silent_commands_are_described(name: Seq<char>, p: CommandProbe)
    ensures
        p.alive ==> occurs_in(
            run_state(Some(p)),
            "pid "@ + decimal(p.pid as nat) + ") is running but not listening"@,
        ),
        !p.alive ==> occurs_in(
            run_state(Some(p)),
            "pid "@ + decimal(p.pid as nat) + ") has exited"@,
        ),
        p.alive ==> occurs_in(run_hint(name, Some(p)), "`ft logs "@ + name + "`"@),
        occurs_in(run_hint(name, Some(p)), "`ft kill "@ + name + "`"@),
        occurs_in(run_hint(name, None), "`ft logs "@ + name + "`"@),
{
    let pid = decimal(p.pid as nat);
    let none = Seq::<char>::empty();
    let look = "check the command's output ("@;
    let wait = "the worker's monitor should tear the service down momentarily; "@;
    let mid = "); stop the service with "@;
    assert("the command (pid "@ == "the command ("@ + "pid "@) by {
        reveal_strlit("the command (pid ");
        reveal_strlit("the command (");
        reveal_strlit("pid ");
    }
    assert("the command (recorded pid "@ == "the command (recorded "@ + "pid "@) by {
        reveal_strlit("the command (recorded pid ");
        reveal_strlit("the command (recorded ");
        reveal_strlit("pid ");
    }
    assert("check the command's output (`ft logs "@ == look + "`ft logs "@) by {
        reveal_strlit("check the command's output (`ft logs ");
        reveal_strlit("check the command's output (");
        reveal_strlit("`ft logs ");
    }
    assert("`)"@ == "`"@ + ")"@) by {
        reveal_strlit("`)");
        reveal_strlit("`");
        reveal_strlit(")");
    }
    assert("`); stop the service with `ft kill "@ == "`"@ + mid + "`ft kill "@) by {
        reveal_strlit("`); stop the service with `ft kill ");
        reveal_strlit("`");
        reveal_strlit("); stop the service with ");
        reveal_strlit("`ft kill ");
    }
    assert("` if it is wedged"@ == "`"@ + " if it is wedged"@) by {
        reveal_strlit("` if it is wedged");
        reveal_strlit("`");
        reveal_strlit(" if it is wedged");
    }
    assert("the worker's monitor should tear the service down momentarily; `ft kill "@ == wait
        + "`ft kill "@) by {
        reveal_strlit("the worker's monitor should tear the service down momentarily; `ft kill ");
        reveal_strlit("the worker's monitor should tear the service down momentarily; ");
        reveal_strlit("`ft kill ");
    }
    assert("` removes it if it lingers"@ == "`"@ + " removes it if it lingers"@) by {
        reveal_strlit("` removes it if it lingers");
        reveal_strlit("`");
        reveal_strlit(" removes it if it lingers");
    }
    assert(") is running but not listening"@ == ") is running but not listening"@ + none);
    assert(") has exited"@ == ") has exited"@ + none);
    lemma_stands_across("the command ("@, "pid "@, pid, ") is running but not listening"@, none);
    lemma_stands_across("the command (recorded "@, "pid "@, pid, ") has exited"@, none);
    lemma_stands_across(look, "`ft logs "@, name, "`"@, ")"@);
    lemma_stands_across(wait, "`ft kill "@, name, "`"@, " removes it if it lingers"@);
    if p.alive {
        let hint = run_hint(name, Some(p));
        let end = "`"@ + " if it is wedged"@;
        let rest = mid + "`ft kill "@ + name + end;
        lemma_stands_across(look, "`ft logs "@, name, "`"@, rest);
        assert(hint == (look + "`ft logs "@) + name + ("`"@ + rest)) by {
            assert((look + "`ft logs "@) + name + ("`"@ + mid + "`ft kill "@) + name + end =~= (look
                + "`ft logs "@) + name + ("`"@ + (mid + "`ft kill "@ + name + end)));
        }
        let front = look + "`ft logs "@ + name + "`"@ + mid;
        lemma_stands_across(front, "`ft kill "@, name, "`"@, " if it is wedged"@);
        assert(hint == (front + "`ft kill "@) + name + end) by {
            assert((look + "`ft logs "@) + name + ("`"@ + mid + "`ft kill "@) =~= front
                + "`ft kill "@);
        }
    }
}

/// A log directory passes exactly where it is there, and the report names it.
pub proof fn law_log_directories_are_named(s: ServiceView, present: bool)
    ensures
        state_check(s, present).status is Pass <==> present,
        state_check(s, present).status.problem() <==> !present,
        occurs_in(state_check(s, present).detail, s.state_dir),
        !present ==> (state_check(s, present).hint matches Some(h) && occurs_in(h, s.name)),
{
    let none = Seq::<char>::empty();
    if present {
        lemma_stands_between("present at "@, s.state_dir, none);
        assert(state_check(s, present).detail =~= "present at "@ + s.state_dir + none);
    } else {
        lemma_stands_between(
            "missing ("@,
            s.state_dir,
            ") — this service's logs cannot be read"@,
        );
        lemma_stands_between(
            "run `ft kill "@,
            s.name,
            "` and start the service again to recreate it"@,
        );
    }
}

/// The checks of a service begin with its worker and end with its log directory; in
/// between stands what is said of its command and of its origin, and nothing else.
pub proof fn law_checks_of_a_service_are_complete(
    s: ServiceView,
    status: ServiceStatus,
    origin: Option<bool>,
    command: Option<CommandProbe>,
    fresh: bool,
    present: bool,
)
    ensures
        ({
            let all = checks_of(s, status, origin, command, fresh, present);
            let survived = status is Stale && (command matches Some(c) && c.alive);
            &&& all.first() == worker_check(s, status, fresh)
            &&& all.last() == state_check(s, present)
            &&& all.len() == 2 + (if survived {
                1int
            } else {
                0
            }) + (if origin is Some {
                1int
            } else {
                0
            })
            &&& survived ==> Some(all[1]) == command_check(s, status, command)
            &&& origin is Some ==> Some(all[all.len() - 2]) == origin_check(s, origin, command)
            &&& all.first().name == "worker "@ + s.name
            &&& all.last().name == "state-dir "@ + s.name
        }),
{
    let a = seq![worker_check(s, status, fresh)];
    let b = if_any(command_check(s, status, command));
    let c = if_any(origin_check(s, origin, command));
    let d = seq![state_check(s, present)];
    let all = a + b + c + d;
    assert(all.first() == a[0]);
    assert(all.last() == d[0]);
    if b.len() > 0 {
        assert(all[1] == b[0]);
    }
    if c.len() > 0 {
        assert(all[all.len() - 2] == c[0]);
    }
}

/// The report of every service stands in the whole report in one piece, in the order
/// of the services, and the whole holds nothing else.
pub proof fn law_every_service_is_reported(
    s: Seq<ServiceView>,
    f: Seq<Findings>,
    n: nat,
    i: int,
)
    requires
        0 <= i < n,
    ensures
        ({
            let all = service_reports(s, f, n);
            let at = service_reports(s, f, i as nat).len() as int;
            let own = checks_of(
                s[i],
                f[i].status,
                f[i].origin,
                f[i].command,
                f[i].fresh,
                f[i].state_present,
            );
            &&& 0 <= at && at + own.len() <= all.len()
            &&& all.subrange(at, at + own.len()) == own
            &&& at + own.len() == service_reports(s, f, (i + 1) as nat).len()
        }),
    decreases n,
{
    let all = service_reports(s, f, n);
    let before = service_reports(s, f, (n - 1) as nat);
    let at = service_reports(s, f, i as nat).len() as int;
    let own = service_report(s[i], f[i]);
    if i < n - 1 {
        law_every_service_is_reported(s, f, (n - 1) as nat, i);
        assert(all.subrange(at, at + own.len()) =~= before.subrange(at, at + own.len()));
    } else {
        assert(all.subrange(at, at + own.len()) =~= own);
    }
}

/// A `cloudflared` that was found passes, with where it was found; one that was not is
/// a warning with a hint.
pub proof fn law_cloudflared_is_reported(path: Seq<char>)
    ensures
        cloudflared_finding(Some(path)).status is Pass,
        cloudflared_finding(Some(path)).hint is None,
        occurs_in(cloudflared_finding(Some(path)).detail, path),
        cloudflared_finding(None).status is Warn,
        cloudflared_finding(None).hint is Some,
{
    let none = Seq::<char>::empty();
    lemma_stands_between("found at "@, path, none);
    assert(cloudflared_finding(Some(path)).detail =~= "found at "@ + path + none);
}

/// A registry that cannot be loaded is a failure; the report gives the error and the
/// hint the file.
pub proof fn law_unreadable_registries_fail(error: Seq<char>, path: Seq<char>)
    ensures
        registry_finding(error, path).status is Fail,
        occurs_in(registry_finding(error, path).detail, error),
        registry_finding(error, path).hint matches Some(h) && occurs_in(h, path),
{
    lemma_stands_between("cannot be loaded ("@, error, ")"@);
    lemma_stands_between(
        "repair or remove "@,
        path,
        " — with it unreadable, every registry-backed command is blocked"@,
    );
}

/// The view of a list of checks has every check, in its place and with all it says.
pub proof fn law_checks_are_viewed_one_by_one(v: Seq<Check>, i: int)
    requires
        0 <= i < v.len(),
    ensures
        check_views(v).len() == v.len(),
        check_views(v)[i].name == v[i].name@,
        check_views(v)[i].status == v[i].status,
        check_views(v)[i].detail == v[i].detail@,
        check_views(v)[i].hint is Some <==> v[i].hint is Some,
        v[i].hint matches Some(h) ==> check_views(v)[i].hint == Some(h@),
{
}

} // verus!
