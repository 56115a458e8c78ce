//! The data model: services, their lifecycle, and the registry of them.

use vstd::prelude::*;
use vstd::string::*;

use crate::clock::{elapsed, elapsed_nanos, now_utc, Timestamp};
use crate::proc::{matches_needle, pid_alive, Identity};
use crate::text::{copy_opt, opt_text};

verus! {

/// Lifecycle state of a tunnel service.
#[derive(Clone, Copy, Debug, PartialEq, Eq, Structural)]
pub enum ServiceStatus {
    /// Worker spawned, public URL not yet discovered.
    Starting,
    /// URL discovered and the worker process is alive.
    Running,
    /// Registered, but the worker process is no longer alive.
    Stale,
}

impl ServiceStatus {
    /// The word for the state.
    pub open spec fn word(self) -> Seq<char> {
        match self {
            ServiceStatus::Starting => "starting"@,
            ServiceStatus::Running => "running"@,
            ServiceStatus::Stale => "stale"@,
        }
    }

    /// The word for the state.
    pub fn as_str(self) -> (r: &'static str)
        ensures
            r@ == self.word(),
    {
        match self {
            ServiceStatus::Starting => "starting",
            ServiceStatus::Running => "running",
            ServiceStatus::Stale => "stale",
        }
    }
}

/// How a tunnel service sources its local HTTP origin.
#[derive(Clone, Copy, Debug, PartialEq, Eq, Structural)]
pub enum ServiceKind {
    /// A static file server for [`Service::dir`], which `ft` runs itself.
    Static,
    /// A server that the operator already runs on [`Service::port`].
    Proxy,
    /// A command that `ft` spawns and owns, and which serves [`Service::port`].
    Run,
    /// The webhook receiver, which `ft` runs itself and which records every
    /// request.
    Hook,
    /// The upload receiver for [`Service::dir`], which `ft` runs itself.
    Drop,
}

impl ServiceKind {
    /// The word for the kind.
    pub open spec fn word(self) -> Seq<char> {
        match self {
            ServiceKind::Static => "static"@,
            ServiceKind::Proxy => "proxy"@,
            ServiceKind::Run => "run"@,
            ServiceKind::Hook => "hook"@,
            ServiceKind::Drop => "drop"@,
        }
    }

    /// The word for the kind.
    pub fn as_str(self) -> (r: &'static str)
        ensures
            r@ == self.word(),
    {
        match self {
            ServiceKind::Static => "static",
            ServiceKind::Proxy => "proxy",
            ServiceKind::Run => "run",
            ServiceKind::Hook => "hook",
            ServiceKind::Drop => "drop",
        }
    }
}

impl Default for ServiceKind {
    fn default() -> (r: Self)
        ensures
            r == ServiceKind::Static,
    {
        ServiceKind::Static
    }
}

/// Behaviour of a static origin, kept with its [`Service`] so that the detached
/// worker applies what the operator asked for.
#[derive(Debug)]
pub struct StaticFlags {
    /// A path that names nothing is answered with the root `index.html`.
    pub spa: bool,
    /// Every response carries permissive CORS headers.
    pub cors: bool,
    /// The secret that every request must carry, where there is one.
    pub token: Option<String>,
}

/// The view of [`StaticFlags`].
pub ghost struct StaticFlagsView {
    pub spa: bool,
    pub cors: bool,
    pub token: Option<Seq<char>>,
}

impl View for StaticFlags {
    type V = StaticFlagsView;

    open spec fn view(&self) -> StaticFlagsView {
        StaticFlagsView { spa: self.spa, cors: self.cors, token: opt_text(self.token) }
    }
}

impl Default for StaticFlags {
    fn default() -> (r: Self)
        ensures
            !r.spa,
            !r.cors,
            r.token is None,
    {
        StaticFlags { spa: false, cors: false, token: None }
    }
}

impl Clone for StaticFlags {
    fn clone(&self) -> (r: Self)
        ensures
            r == *self,
    {
        StaticFlags { spa: self.spa, cors: self.cors, token: copy_opt(&self.token) }
    }
}

/// A single managed tunnel service. Paths are kept as text, which is how the
/// registry stores them.
#[derive(Debug)]
pub struct Service {
    /// Stable numeric id.
    pub id: u64,
    /// Human-friendly name.
    pub name: String,
    /// How the service sources its origin.
    pub kind: ServiceKind,
    /// Absolute path of the served tree (static) or the upload target (drop).
    pub dir: Option<String>,
    /// Local port of the origin.
    pub port: u16,
    /// `http://127.0.0.1:<port>`.
    pub local_url: String,
    /// Public URL, once the worker has discovered it.
    pub public_url: Option<String>,
    /// Pid of the worker, 0 until it is recorded.
    pub worker_pid: u32,
    /// Pid of the `cloudflared` child, once spawned.
    pub tunnel_pid: Option<u32>,
    /// Flags of a static origin.
    pub static_flags: StaticFlags,
    /// Pid of the operator's command, for run services.
    pub command_pid: Option<u32>,
    /// When the entry was reserved.
    pub created_at: Timestamp,
    /// Directory that holds the service's logs.
    pub state_dir: String,
    /// The service runs inside the `ft` process that the operator watches.
    pub foreground: bool,
}

/// The view of a [`Service`].
pub ghost struct ServiceView {
    pub id: u64,
    pub name: Seq<char>,
    pub kind: ServiceKind,
    pub dir: Option<Seq<char>>,
    pub port: u16,
    pub local_url: Seq<char>,
    pub public_url: Option<Seq<char>>,
    pub worker_pid: u32,
    pub tunnel_pid: Option<u32>,
    pub static_flags: StaticFlagsView,
    pub command_pid: Option<u32>,
    pub created_at: Timestamp,
    pub state_dir: Seq<char>,
    pub foreground: bool,
}

impl View for Service {
    type V = ServiceView;

    open spec fn view(&self) -> ServiceView {
        ServiceView {
            id: self.id,
            name: self.name@,
            kind: self.kind,
            dir: opt_text(self.dir),
            port: self.port,
            local_url: self.local_url@,
            public_url: opt_text(self.public_url),
            worker_pid: self.worker_pid,
            tunnel_pid: self.tunnel_pid,
            static_flags: self.static_flags@,
            command_pid: self.command_pid,
            created_at: self.created_at,
            state_dir: self.state_dir@,
            foreground: self.foreground,
        }
    }
}

impl Clone for Service {
    fn clone(&self) -> (r: Self)
        ensures
            r == *self,
    {
        Service {
            id: self.id,
            name: self.name.clone(),
            kind: self.kind,
            dir: copy_opt(&self.dir),
            port: self.port,
            local_url: self.local_url.clone(),
            public_url: copy_opt(&self.public_url),
            worker_pid: self.worker_pid,
            tunnel_pid: self.tunnel_pid,
            static_flags: self.static_flags.clone(),
            command_pid: self.command_pid,
            created_at: self.created_at,
            state_dir: self.state_dir.clone(),
            foreground: self.foreground,
        }
    }
}

/// How long an entry whose worker pid has not been recorded is protected, in
/// seconds. A start resolves that window in milliseconds or removes the entry,
/// so an older entry is what a start that died has left behind.
pub const START_GRACE: u64 = 60;

/// What is known of the process behind a recorded pid.
#[derive(Debug)]
pub struct ProcessProbe {
    /// Some process has the pid.
    pub exists: bool,
    /// What the system tells of it.
    pub identity: Identity,
}

impl ServiceView {
    /// The entry sits between its reservation and the recording of its worker's
    /// pid, and may not be reaped: no pid is recorded, and the entry is younger
    /// than the grace. An entry from the future counts as fresh.
    pub open spec fn starting_at(self, now: Timestamp) -> bool {
        self.worker_pid == 0 && elapsed(now, self.created_at) < 60_000_000_000
    }

    /// The state of the service, given what is known of its worker.
    pub open spec fn status_given(self, worker: ProcessProbe) -> ServiceStatus {
        let alive = if self.foreground {
            worker.exists
        } else {
            matches_needle(worker.identity, "run-worker"@)
        };
        if self.worker_pid == 0 {
            ServiceStatus::Starting
        } else if !alive {
            ServiceStatus::Stale
        } else if self.public_url is Some {
            ServiceStatus::Running
        } else {
            ServiceStatus::Starting
        }
    }
}

impl Service {
    /// The state of the service, given what is known of its worker. A foreground
    /// worker is the `ft` process itself, whose command line carries no
    /// `run-worker`, so there it counts that the process exists; a background
    /// worker must be ours.
    pub fn status(&self, worker: &ProcessProbe) -> (r: ServiceStatus)
        ensures
            r == self@.status_given(*worker),
    {
        if self.worker_pid == 0 {
            return ServiceStatus::Starting;
        }
        let alive = if self.foreground {
            worker.exists
        } else {
            pid_alive(&worker.identity)
        };
        match (alive, &self.public_url) {
            (false, _) => ServiceStatus::Stale,
            (true, Some(_)) => ServiceStatus::Running,
            (true, None) => ServiceStatus::Starting,
        }
    }

    /// Whether the entry may not be reaped at the instant `now`: its worker's pid
    /// is still to be recorded and the grace is still open.
    pub fn start_in_progress_at(&self, now: Timestamp) -> (r: bool)
        ensures
            r == self@.starting_at(now),
    {
        if self.worker_pid != 0 {
            return false;
        }
        elapsed_nanos(now, self.created_at) < 60_000_000_000
    }

    /// Whether the entry may not be reaped now. What the clock shows decides, so
    /// only this is said: an entry with a recorded pid is never protected, and
    /// the answer is the one for some instant.
    pub fn start_in_progress(&self) -> (r: bool)
        ensures
            self.worker_pid != 0 ==> !r,
            exists|now: Timestamp| r == #[trigger] self@.starting_at(now),
    {
        let now = now_utc();
        self.start_in_progress_at(now)
    }
}

/// The registry of all known services.
#[derive(Debug)]
pub struct Registry {
    /// The next id to hand out.
    pub next_id: u64,
    /// The services, in the order in which they were added.
    pub services: Vec<Service>,
}

/// The views of a list of services.
pub open spec fn service_views(v: Seq<Service>) -> Seq<ServiceView> {
    Seq::new(v.len(), |i: int| v[i]@)
}

/// The view of a [`Registry`].
#[verifier::ext_equal]
pub ghost struct RegistryView {
    pub next_id: u64,
    pub services: Seq<ServiceView>,
}

impl View for Registry {
    type V = RegistryView;

    open spec fn view(&self) -> RegistryView {
        RegistryView { next_id: self.next_id, services: service_views(self.services@) }
    }
}

/// The registry with nothing in it.
pub open spec fn empty_registry() -> RegistryView {
    RegistryView { next_id: 1, services: Seq::empty() }
}

impl Default for Registry {
    fn default() -> (r: Self)
        ensures
            r@ == empty_registry(),
    {
        let r = Registry { next_id: 1, services: Vec::new() };
        assert(r@.services =~= Seq::<ServiceView>::empty());
        r
    }
}

/// A copy of a list of services.
pub fn copy_services(v: &Vec<Service>) -> (r: Vec<Service>)
    ensures
        r@ == v@,
{
    let mut out: Vec<Service> = Vec::new();
    let mut i: usize = 0;
    while i < v.len()
        invariant
            i <= v@.len(),
            out@ == v@.take(i as int),
        decreases v@.len() - i,
    {
        out.push(v[i].clone());
        assert(v@.take(i + 1) =~= v@.take(i as int).push(v@[i as int]));
        i = i + 1;
    }
    assert(v@.take(v@.len() as int) =~= v@);
    out
}

impl Clone for Registry {
    fn clone(&self) -> (r: Self)
        ensures
            r@ == self@,
    {
        Registry { next_id: self.next_id, services: copy_services(&self.services) }
    }
}

// ---------------------------------------------------------------------------
// Laws
// ---------------------------------------------------------------------------

/// An entry is protected from the moment it is reserved until sixty seconds have
/// passed, and from then on never again; once a pid is recorded it is not
/// protected at all.
pub proof fn law_protection_ends_with_the_grace(s: ServiceView, now: Timestamp)
    ensures
        s.worker_pid != 0 ==> !s.starting_at(now),
        s.worker_pid == 0 ==> (s.starting_at(now) <==> elapsed(now, s.created_at)
            < START_GRACE * 1_000_000_000),
{
}

/// A service is `Running` only with a recorded worker that is alive and a
/// published URL, and `Stale` only with a recorded worker that is not alive.
pub proof fn law_status_is_grounded(s: ServiceView, worker: ProcessProbe)
    ensures
        s.status_given(worker) is Running ==> s.worker_pid != 0 && s.public_url is Some,
        s.status_given(worker) is Stale ==> s.worker_pid != 0,
        s.worker_pid == 0 ==> s.status_given(worker) is Starting,
        !s.foreground && s.status_given(worker) is Running ==> matches_needle(
            worker.identity,
            "run-worker"@,
        ),
{
}

/// The state follows from three facts: whether a worker is recorded, whether it is
/// alive, and whether a URL is there. A worker in the foreground is alive where some
/// process has its pid, one in the background only where that process is ours.
pub proof fn law_status_is_decided_by_worker_and_url(s: ServiceView, worker: ProcessProbe)
    ensures
        s.status_given(worker) == ServiceStatus::Stale <==> s.worker_pid != 0 && (s.foreground
            && !worker.exists || !s.foreground && !matches_needle(
            worker.identity,
            "run-worker"@,
        )),
        s.status_given(worker) == ServiceStatus::Running <==> s.worker_pid != 0 && s.public_url
            is Some && (s.foreground && worker.exists || !s.foreground && matches_needle(
            worker.identity,
            "run-worker"@,
        )),
{
}

/// Each state and each kind has a word of its own.
pub proof fn law_words_tell_states_and_kinds_apart(
    a: ServiceStatus,
    b: ServiceStatus,
    j: ServiceKind,
    k: ServiceKind,
)
    ensures
        a.word() == b.word() <==> a == b,
        j.word() == k.word() <==> j == k,
        a == ServiceStatus::Running ==> a.word() == "running"@,
        a == ServiceStatus::Starting ==> a.word() == "starting"@,
        a == ServiceStatus::Stale ==> a.word() == "stale"@,
        j == ServiceKind::Static ==> j.word() == "static"@,
        j == ServiceKind::Proxy ==> j.word() == "proxy"@,
        j == ServiceKind::Run ==> j.word() == "run"@,
        j == ServiceKind::Hook ==> j.word() == "hook"@,
        j == ServiceKind::Drop ==> j.word() == "drop"@,
{
    reveal_strlit("running");
    reveal_strlit("starting");
    reveal_strlit("stale");
    reveal_strlit("static");
    reveal_strlit("proxy");
    reveal_strlit("run");
    reveal_strlit("hook");
    reveal_strlit("drop");
    assert("running"@.len() == 7 && "starting"@.len() == 8 && "stale"@.len() == 5);
    assert("static"@.len() == 6 && "proxy"@.len() == 5 && "run"@.len() == 3);
    assert("hook"@[0] == 'h' && "drop"@[0] == 'd');
    assert("hook"@.len() == 4 && "drop"@.len() == 4);
}

/// The view of a service holds every field of it, and that of a registry its counter
/// and every service in its place.
pub proof fn law_views_are_whole(s: Service, r: Registry, i: int)
    ensures
        s@.id == s.id,
        s@.name == s.name@,
        s@.kind == s.kind,
        s@.dir is Some <==> s.dir is Some,
        s.dir matches Some(d) ==> s@.dir == Some(d@),
        s@.port == s.port,
        s@.local_url == s.local_url@,
        s@.public_url is Some <==> s.public_url is Some,
        s.public_url matches Some(u) ==> s@.public_url == Some(u@),
        s@.worker_pid == s.worker_pid,
        s@.tunnel_pid == s.tunnel_pid,
        s@.command_pid == s.command_pid,
        s@.static_flags.spa == s.static_flags.spa,
        s@.static_flags.cors == s.static_flags.cors,
        s@.static_flags.token is Some <==> s.static_flags.token is Some,
        s.static_flags.token matches Some(t) ==> s@.static_flags.token == Some(t@),
        s@.created_at == s.created_at,
        s@.state_dir == s.state_dir@,
        s@.foreground == s.foreground,
        r@.next_id == r.next_id,
        r@.services.len() == r.services@.len(),
        0 <= i < r.services@.len() ==> r@.services[i] == r.services@[i]@,
{
}

} // verus!
