//! A foreground service: origin and tunnel run inside this process, until
//! `cloudflared` exits, the operator's command exits, or a signal arrives. Here
//! stands what is done in which order, and what is undone.

use vstd::prelude::*;
use vstd::string::*;

use crate::bytes::{lossy, lossy_text};
use crate::cloudflared::{extract_url, first_tunnel};
use crate::cmd::reserve::{local_url, local_url_text};
use crate::model::ServiceKind;
use crate::name::{generate_name, generated};
use crate::text::{
    concat3, concat5, decimal, decimal_text, lemma_decimal_injective, lemma_stands_across,
    occurs_in, opt_str, opt_text,
};

verus! {

/// The kind of a foreground service follows its origin.
pub open spec fn kind_of_origin(has_dir: bool, has_command: bool) -> ServiceKind {
    if has_dir {
        ServiceKind::Static
    } else if has_command {
        ServiceKind::Run
    } else {
        ServiceKind::Proxy
    }
}

/// The kind of a foreground service follows its origin: a directory is served, a
/// command is run, and otherwise a port is fronted.
pub fn foreground_kind(has_dir: bool, has_command: bool) -> (r: ServiceKind)
    ensures
        r == kind_of_origin(has_dir, has_command),
{
    if has_dir {
        ServiceKind::Static
    } else if has_command {
        ServiceKind::Run
    } else {
        ServiceKind::Proxy
    }
}

/// What the name of a service is made from where none is asked for.
pub open spec fn base_name(
    kind: ServiceKind,
    dir: Option<Seq<char>>,
    sep: u8,
    port: u16,
) -> Seq<char> {
    match (kind, dir) {
        (ServiceKind::Static, Some(d)) => generated(d, sep),
        _ => kind.word() + "-"@ + decimal(port as nat),
    }
}

/// What the name of a service is made from where none is asked for: the directory
/// that is served, or the kind and the port.
pub fn base_for(kind: ServiceKind, dir: Option<&str>, sep: u8, port: u16) -> (r: String)
    ensures
        r@ == base_name(kind, opt_str(dir), sep, port),
{
    match (kind, dir) {
        (ServiceKind::Static, Some(d)) => generate_name(d, sep),
        _ => concat3(kind.as_str(), "-", decimal_text(port as u64).as_str()),
    }
}

// ---------------------------------------------------------------------------
// Coming up
// ---------------------------------------------------------------------------

/// One step on the way up.
#[derive(Clone, Copy, Debug, PartialEq, Eq, Structural)]
pub enum UpStep {
    /// Reserve the entry; from here on every exit releases it.
    Reserve,
    /// Write the token of the upload receiver to its private file.
    StoreToken,
    /// Open the log that `cloudflared` is copied to.
    OpenTunnelLog,
    /// Start to listen for the signal that `ft kill` sends.
    WatchSignals,
    /// Open what the origin keeps on disk.
    OpenStore,
    /// Start the server of the origin.
    StartServer,
    /// Show the token of the upload receiver.
    ShowToken,
    /// Open the log that the command is copied to.
    OpenCommandLog,
    /// Spawn the operator's command.
    SpawnCommand,
    /// Record the pid of the command on the entry.
    RecordCommand,
    /// Copy what the command says to the terminal and to its log.
    CopyCommand,
    /// Spawn `cloudflared`.
    SpawnTunnel,
    /// Copy what `cloudflared` says, and announce the URL when it comes.
    Announce,
}

/// The steps on the way up, in their order.
pub open spec fn up_steps(kind: ServiceKind) -> Seq<UpStep> {
    match kind {
        ServiceKind::Static => seq![
            UpStep::Reserve,
            UpStep::OpenTunnelLog,
            UpStep::WatchSignals,
            UpStep::StartServer,
            UpStep::SpawnTunnel,
            UpStep::Announce,
        ],
        ServiceKind::Proxy => seq![
            UpStep::Reserve,
            UpStep::OpenTunnelLog,
            UpStep::WatchSignals,
            UpStep::SpawnTunnel,
            UpStep::Announce,
        ],
        ServiceKind::Run => seq![
            UpStep::Reserve,
            UpStep::OpenTunnelLog,
            UpStep::WatchSignals,
            UpStep::OpenCommandLog,
            UpStep::SpawnCommand,
            UpStep::RecordCommand,
            UpStep::CopyCommand,
            UpStep::SpawnTunnel,
            UpStep::Announce,
        ],
        ServiceKind::Hook => seq![
            UpStep::Reserve,
            UpStep::OpenTunnelLog,
            UpStep::WatchSignals,
            UpStep::OpenStore,
            UpStep::StartServer,
            UpStep::SpawnTunnel,
            UpStep::Announce,
        ],
        ServiceKind::Drop => seq![
            UpStep::Reserve,
            UpStep::StoreToken,
            UpStep::OpenTunnelLog,
            UpStep::WatchSignals,
            UpStep::OpenStore,
            UpStep::StartServer,
            UpStep::ShowToken,
            UpStep::SpawnTunnel,
            UpStep::Announce,
        ],
    }
}

/// The steps on the way up, in their order.
pub fn foreground_steps(kind: ServiceKind) -> (r: Vec<UpStep>)
    ensures
        r@ == up_steps(kind),
{
    match kind {
        ServiceKind::Static => vec![
            UpStep::Reserve,
            UpStep::OpenTunnelLog,
            UpStep::WatchSignals,
            UpStep::StartServer,
            UpStep::SpawnTunnel,
            UpStep::Announce,
        ],
        ServiceKind::Proxy => vec![
            UpStep::Reserve,
            UpStep::OpenTunnelLog,
            UpStep::WatchSignals,
            UpStep::SpawnTunnel,
            UpStep::Announce,
        ],
        ServiceKind::Run => vec![
            UpStep::Reserve,
            UpStep::OpenTunnelLog,
            UpStep::WatchSignals,
            UpStep::OpenCommandLog,
            UpStep::SpawnCommand,
            UpStep::RecordCommand,
            UpStep::CopyCommand,
            UpStep::SpawnTunnel,
            UpStep::Announce,
        ],
        ServiceKind::Hook => vec![
            UpStep::Reserve,
            UpStep::OpenTunnelLog,
            UpStep::WatchSignals,
            UpStep::OpenStore,
            UpStep::StartServer,
            UpStep::SpawnTunnel,
            UpStep::Announce,
        ],
        ServiceKind::Drop => vec![
            UpStep::Reserve,
            UpStep::StoreToken,
            UpStep::OpenTunnelLog,
            UpStep::WatchSignals,
            UpStep::OpenStore,
            UpStep::StartServer,
            UpStep::ShowToken,
            UpStep::SpawnTunnel,
            UpStep::Announce,
        ],
    }
}

/// The step can fail, and then the service does not come up. A pid that cannot be
/// recorded is only warned of, and copying and showing do not fail.
pub open spec fn can_fail(step: UpStep) -> bool {
    match step {
        UpStep::StartServer => false,
        UpStep::ShowToken => false,
        UpStep::RecordCommand => false,
        UpStep::CopyCommand => false,
        UpStep::Announce => false,
        _ => true,
    }
}

/// The kind runs a server inside this process.
pub open spec fn has_server(kind: ServiceKind) -> bool {
    kind is Static || kind is Hook || kind is Drop
}

// ---------------------------------------------------------------------------
// Going down
// ---------------------------------------------------------------------------

/// Why a foreground service ends.
#[derive(Clone, Copy, Debug, PartialEq, Eq, Structural)]
pub enum ReaderExit {
    /// `cloudflared` has exited.
    ChildExited,
    /// The operator's command has exited: the origin is gone.
    CommandExited,
    /// A signal has arrived.
    Signal,
}

/// One step on the way down.
#[derive(Clone, Copy, Debug, PartialEq, Eq, Structural)]
pub enum DownStep {
    /// Shut `cloudflared` down and reap it.
    EndTunnel,
    /// End the operator's command, unless it has exited.
    EndCommand,
    /// Stop copying output.
    StopCopying,
    /// Give the server its time to finish, then abort it.
    DrainServer,
    /// Abort the server at once.
    AbortServer,
    /// Remove the entry.
    ReleaseEntry,
}

/// The steps on the way down, in their order.
pub open spec fn down_steps(kind: ServiceKind, exit: ReaderExit) -> Seq<DownStep> {
    let tunnel = if exit is ChildExited {
        Seq::empty()
    } else {
        seq![DownStep::EndTunnel]
    };
    let command = if kind is Run {
        seq![DownStep::EndCommand]
    } else {
        Seq::empty()
    };
    let server = if has_server(kind) {
        seq![DownStep::DrainServer]
    } else {
        Seq::empty()
    };
    tunnel + command + seq![DownStep::StopCopying] + server + seq![DownStep::ReleaseEntry]
}

/// The steps on the way down, in their order. `cloudflared` is shut down where it
/// may still be alive, which is unless its own exit ended the service; the command
/// never outlives the tunnel; and the entry goes last.
pub fn foreground_teardown(kind: ServiceKind, exit: ReaderExit) -> (r: Vec<DownStep>)
    ensures
        r@ == down_steps(kind, exit),
{
    let mut r: Vec<DownStep> = Vec::new();
    if exit != ReaderExit::ChildExited {
        r.push(DownStep::EndTunnel);
    }
    if kind == ServiceKind::Run {
        r.push(DownStep::EndCommand);
    }
    r.push(DownStep::StopCopying);
    if kind == ServiceKind::Static || kind == ServiceKind::Hook || kind == ServiceKind::Drop {
        r.push(DownStep::DrainServer);
    }
    r.push(DownStep::ReleaseEntry);
    assert(r@ =~= down_steps(kind, exit));
    r
}

/// The step stands among the first `n`.
pub open spec fn before(steps: Seq<UpStep>, n: int, step: UpStep) -> bool {
    exists|i: int| 0 <= i < n && #[trigger] steps[i] == step
}

/// Whether the step stands among the first `n`.
fn is_before(steps: &Vec<UpStep>, n: usize, step: UpStep) -> (r: bool)
    requires
        n <= steps@.len(),
    ensures
        r == before(steps@, n as int, step),
{
    let mut i: usize = 0;
    while i < n
        invariant
            i <= n <= steps@.len(),
            forall|k: int| 0 <= k < i ==> steps@[k] != step,
        decreases n - i,
    {
        if steps[i] == step {
            return true;
        }
        i = i + 1;
    }
    false
}

/// Whether the entry is held once the first `reached` steps on the way up are done.
pub fn holds_entry(kind: ServiceKind, reached: usize) -> (r: bool)
    ensures
        r == before(up_steps(kind), reached as int, UpStep::Reserve),
{
    assert(up_steps(kind)[0] == UpStep::Reserve);
    reached > 0
}

/// A list of the step where it is due.
pub open spec fn due(b: bool, step: DownStep) -> Seq<DownStep> {
    if b {
        seq![step]
    } else {
        Seq::empty()
    }
}

/// What is undone when the step fails that comes after the first `reached` on the way
/// up: what these have set going, and last of all the entry that they hold.
pub open spec fn undo_steps(kind: ServiceKind, reached: int) -> Seq<DownStep> {
    let done = up_steps(kind);
    due(before(done, reached, UpStep::StartServer), DownStep::AbortServer) + due(
        before(done, reached, UpStep::SpawnCommand),
        DownStep::EndCommand,
    ) + due(before(done, reached, UpStep::Reserve), DownStep::ReleaseEntry)
}

/// What is undone when the step fails that comes after the first `reached` on the way
/// up.
pub fn foreground_unwind(kind: ServiceKind, reached: usize) -> (r: Vec<DownStep>)
    requires
        reached < up_steps(kind).len(),
    ensures
        r@ == undo_steps(kind, reached as int),
{
    let steps = foreground_steps(kind);
    let mut r: Vec<DownStep> = Vec::new();
    if is_before(&steps, reached, UpStep::StartServer) {
        r.push(DownStep::AbortServer);
    }
    if is_before(&steps, reached, UpStep::SpawnCommand) {
        r.push(DownStep::EndCommand);
    }
    if holds_entry(kind, reached) {
        r.push(DownStep::ReleaseEntry);
    }
    assert(r@ =~= undo_steps(kind, reached as int));
    r
}

/// The failure that the operator is told of when a foreground service ends.
pub open spec fn end_failure(exit: ReaderExit, command: Seq<Vec<u8>>) -> Option<Seq<char>> {
    if exit is CommandExited {
        Some(
            "command '"@ + (if command.len() > 0 {
                lossy(command[0]@)
            } else {
                Seq::empty()
            }) + "' exited — tunnel torn down"@,
        )
    } else {
        None
    }
}

/// How a foreground service ends for the operator: a tunnel whose origin is gone is
/// a failure, anything else is not.
pub fn foreground_result(exit: ReaderExit, command: &[Vec<u8>]) -> (r: Result<(), String>)
    ensures
        match r {
            Ok(()) => end_failure(exit, command@) is None,
            Err(e) => end_failure(exit, command@) == Some(e@),
        },
{
    match exit {
        ReaderExit::CommandExited => {
            let bin = if command.len() > 0 {
                lossy_text(command[0].as_slice())
            } else {
                String::new()
            };
            proof {
                if command@.len() == 0 {
                    assert(bin@ =~= Seq::<char>::empty());
                }
            }
            Err(concat3("command '", bin.as_str(), "' exited — tunnel torn down"))
        },
        _ => Ok(()),
    }
}

// ---------------------------------------------------------------------------
// Announcing the URL
// ---------------------------------------------------------------------------

/// The URL to announce after a line of `cloudflared`, given whether one was found
/// before.
pub open spec fn announced(found: bool, line: Seq<char>) -> Option<Seq<char>> {
    if found {
        None
    } else {
        first_tunnel(line, 0)
    }
}

/// The URL to announce after a line of `cloudflared`: the first that appears, and
/// only that one.
pub fn drain_and_announce(found: &mut bool, line: &str) -> (r: Option<String>)
    ensures
        opt_text(r) == announced(*old(found), line@),
        *final(found) == (*old(found) || r is Some),
{
    if *found {
        return None;
    }
    match extract_url(line) {
        Some(url) => {
            *found = true;
            Some(url)
        },
        None => None,
    }
}

/// What is shown when the URL of a foreground service is there.
pub open spec fn announcement(name: Seq<char>, port: u16, url: Seq<char>) -> Seq<char> {
    "\nStarted "@ + name + "\n\nLocal:   "@ + local_url(port) + "\nPublic:  "@ + url + "\n\n"@
}

/// What is shown when the URL of a foreground service is there.
pub fn announcement_text(name: &str, port: u16, url: &str) -> (r: String)
    ensures
        r@ == announcement(name@, port, url@),
{
    let mut r = concat5(
        "\nStarted ",
        name,
        "\n\nLocal:   ",
        local_url_text(port).as_str(),
        "\nPublic:  ",
    );
    r.append(url);
    r.append("\n\n");
    r
}

// ---------------------------------------------------------------------------
// Laws
// ---------------------------------------------------------------------------

/// The steps release the entry, once and last of all.
pub open spec fn released_last(steps: Seq<DownStep>) -> bool {
    &&& steps.len() > 0
    &&& forall|i: int|
        0 <= i < steps.len() ==> (#[trigger] steps[i] == DownStep::ReleaseEntry <==> i
            == steps.len() - 1)
}

/// Nothing is ever left behind by a failed start: whatever step fails, a server
/// that runs is aborted, a command that runs is ended, and `cloudflared` does not run
/// yet.
pub proof fn law_failed_start_leaves_nothing(kind: ServiceKind, n: int)
    requires
        0 <= n < up_steps(kind).len(),
        can_fail(up_steps(kind)[n]),
    ensures
        before(up_steps(kind), n, UpStep::StartServer) <==> undo_steps(kind, n).contains(
            DownStep::AbortServer,
        ),
        before(up_steps(kind), n, UpStep::SpawnCommand) <==> undo_steps(kind, n).contains(
            DownStep::EndCommand,
        ),
        !before(up_steps(kind), n, UpStep::SpawnTunnel),
{
    let s = up_steps(kind);
    let server = due(before(s, n, UpStep::StartServer), DownStep::AbortServer);
    let command = due(before(s, n, UpStep::SpawnCommand), DownStep::EndCommand);
    let u = undo_steps(kind, n);
    if server.len() > 0 {
        assert(u[0] == DownStep::AbortServer);
    }
    if command.len() > 0 {
        assert(u[server.len() as int] == DownStep::EndCommand);
    }
}

/// Every end of a foreground service releases the entry, once and last of all, where
/// the entry is held: a step that fails after it was reserved, and the way down from a
/// service that was up. A start that fails before that has none to release.
pub proof fn law_every_end_releases_the_entry(kind: ServiceKind, n: int, exit: ReaderExit)
    requires
        0 <= n < up_steps(kind).len(),
    ensures
        before(up_steps(kind), n, UpStep::Reserve) ==> released_last(undo_steps(kind, n)),
        !before(up_steps(kind), n, UpStep::Reserve) ==> undo_steps(kind, n).len() == 0,
        before(up_steps(kind), n, UpStep::Reserve) <==> n > 0,
        before(up_steps(kind), up_steps(kind).len() as int, UpStep::Reserve),
        released_last(down_steps(kind, exit)),
{
    let s = up_steps(kind);
    assert(s[0] == UpStep::Reserve);
}

/// The signal that `ft kill` sends is listened for before anything runs that would
/// be left behind.
pub proof fn law_signals_are_watched_first(kind: ServiceKind, n: int)
    requires
        0 <= n < up_steps(kind).len(),
        up_steps(kind)[n] == UpStep::StartServer || up_steps(kind)[n] == UpStep::SpawnCommand
            || up_steps(kind)[n] == UpStep::SpawnTunnel,
    ensures
        before(up_steps(kind), n, UpStep::WatchSignals),
{
    let s = up_steps(kind);
    if kind is Drop {
        assert(s[3] == UpStep::WatchSignals);
    } else {
        assert(s[2] == UpStep::WatchSignals);
    }
}

/// The log of the command is open before the command runs, and the token of the
/// upload receiver is stored before its server starts.
pub proof fn law_logs_and_tokens_come_first(kind: ServiceKind, n: int)
    requires
        0 <= n < up_steps(kind).len(),
    ensures
        up_steps(kind)[n] is SpawnCommand ==> before(up_steps(kind), n, UpStep::OpenCommandLog),
        kind is Drop && up_steps(kind)[n] is StartServer ==> before(
            up_steps(kind),
            n,
            UpStep::StoreToken,
        ),
{
    let s = up_steps(kind);
    if kind is Drop {
        assert(s[1] == UpStep::StoreToken);
    }
    if kind is Run {
        assert(s[3] == UpStep::OpenCommandLog);
    }
}

/// The operator's command never outlives the tunnel, nor the tunnel the command,
/// however a foreground service ends; a server always gets its time to finish; and
/// `cloudflared` goes first, where it has not gone already.
pub proof fn law_going_down_ends_everything(kind: ServiceKind, exit: ReaderExit)
    ensures
        kind is Run ==> down_steps(kind, exit).contains(DownStep::EndCommand),
        has_server(kind) ==> down_steps(kind, exit).contains(DownStep::DrainServer),
        !(exit is ChildExited) ==> down_steps(kind, exit)[0] == DownStep::EndTunnel,
{
    let s = down_steps(kind, exit);
    let at: int = if exit is ChildExited {
        0
    } else {
        1
    };
    if kind is Run {
        assert(s[at] == DownStep::EndCommand);
    }
    if has_server(kind) {
        assert(s[at + 1] == DownStep::DrainServer);
    }
}

/// The name of a service is never made from nothing.
pub proof fn law_base_name_is_filled(
    kind: ServiceKind,
    dir: Option<Seq<char>>,
    sep: u8,
    port: u16,
)
    ensures
        base_name(kind, dir, sep, port).len() > 0,
{
    reveal_strlit("-");
    if let (ServiceKind::Static, Some(d)) = (kind, dir) {
        crate::name::law_generated_name_is_one_segment(d, sep);
    }
}

/// A directory is served whatever else is given; a command is run where there is no
/// directory; a port is fronted where there is neither.
pub proof fn law_origin_decides_the_kind(has_command: bool)
    ensures
        kind_of_origin(true, has_command) is Static,
        kind_of_origin(false, true) is Run,
        kind_of_origin(false, false) is Proxy,
{
}

/// A name of its own making is that of the directory for a service that serves one, and
/// otherwise tells the kind and the port.
pub proof fn law_base_name_tells_directory_or_port(
    kind: ServiceKind,
    dir: Seq<char>,
    sep: u8,
    p: u16,
    q: u16,
)
    ensures
        base_name(ServiceKind::Static, Some(dir), sep, p) == generated(dir, sep),
        !(kind is Static) ==> base_name(kind, Some(dir), sep, p) == base_name(kind, None, sep, p),
        base_name(kind, None, sep, p) == kind.word() + "-"@ + decimal(p as nat),
        base_name(kind, None, sep, p) == base_name(kind, None, sep, q) ==> p == q,
{
    let head = kind.word() + "-"@;
    let a = base_name(kind, None, sep, p);
    let b = base_name(kind, None, sep, q);
    assert(a.skip(head.len() as int) =~= decimal(p as nat));
    assert(b.skip(head.len() as int) =~= decimal(q as nat));
    lemma_decimal_injective(p as nat, q as nat);
}

/// The step stands at that place and at no other.
pub open spec fn only_at(steps: Seq<UpStep>, step: UpStep, at: int) -> bool {
    &&& 0 <= at < steps.len()
    &&& forall|i: int| 0 <= i < steps.len() ==> (#[trigger] steps[i] == step <==> i == at)
}

/// Every service reserves its entry first, opens the log of its tunnel, and spawns the
/// tunnel and announces it last. A server starts for the kinds that have one, after what
/// it keeps is open; a command is spawned, recorded and copied for the kind that runs
/// one; a token is stored and shown for the kind that has one. Each happens once.
pub proof fn law_every_kind_takes_its_own_steps(kind: ServiceKind)
    ensures
        ({
            let s = up_steps(kind);
            let n = s.len() as int;
            &&& only_at(s, UpStep::Reserve, 0)
            &&& only_at(s, UpStep::SpawnTunnel, n - 2)
            &&& only_at(s, UpStep::Announce, n - 1)
            &&& s.contains(UpStep::OpenTunnelLog) && s.contains(UpStep::WatchSignals)
            &&& s.contains(UpStep::StartServer) <==> kind is Static || kind is Hook || kind is Drop
            &&& s.contains(UpStep::OpenStore) <==> kind is Hook || kind is Drop
            &&& s.contains(UpStep::SpawnCommand) <==> kind is Run
            &&& s.contains(UpStep::StoreToken) <==> kind is Drop
            &&& s.contains(UpStep::ShowToken) <==> kind is Drop
            &&& kind is Run ==> n == 9 && only_at(s, UpStep::OpenCommandLog, 3) && only_at(
                s,
                UpStep::SpawnCommand,
                4,
            ) && only_at(s, UpStep::RecordCommand, 5) && only_at(s, UpStep::CopyCommand, 6)
            &&& !(kind is Run) ==> !s.contains(UpStep::OpenCommandLog) && !s.contains(
                UpStep::RecordCommand,
            ) && !s.contains(UpStep::CopyCommand)
            &&& forall|i: int, j: int| 0 <= i < j < n ==> #[trigger] s[i] != #[trigger] s[j]
        }),
{
    let s = up_steps(kind);
    if kind is Drop {
        assert(s[1] == UpStep::StoreToken);
        assert(s[2] == UpStep::OpenTunnelLog);
        assert(s[3] == UpStep::WatchSignals);
        assert(s[4] == UpStep::OpenStore);
        assert(s[5] == UpStep::StartServer);
        assert(s[6] == UpStep::ShowToken);
    } else {
        assert(s[1] == UpStep::OpenTunnelLog);
        assert(s[2] == UpStep::WatchSignals);
    }
    if kind is Hook {
        assert(s[3] == UpStep::OpenStore);
        assert(s[4] == UpStep::StartServer);
    }
    if kind is Static {
        assert(s[3] == UpStep::StartServer);
    }
    if kind is Run {
        assert(s[4] == UpStep::SpawnCommand);
    }
}

/// What a server keeps is open before it starts, and the token is shown only once it
/// runs.
pub proof fn law_stores_are_open_before_the_server_starts(kind: ServiceKind, n: int)
    requires
        0 <= n < up_steps(kind).len(),
    ensures
        (kind is Hook || kind is Drop) && up_steps(kind)[n] is StartServer ==> before(
            up_steps(kind),
            n,
            UpStep::OpenStore,
        ),
        up_steps(kind)[n] is ShowToken ==> before(up_steps(kind), n, UpStep::StartServer),
        up_steps(kind)[n] is SpawnTunnel ==> before(up_steps(kind), n, UpStep::OpenTunnelLog),
        has_server(kind) && up_steps(kind)[n] is SpawnTunnel ==> before(
            up_steps(kind),
            n,
            UpStep::StartServer,
        ),
        kind is Run && up_steps(kind)[n] is SpawnTunnel ==> before(
            up_steps(kind),
            n,
            UpStep::SpawnCommand,
        ),
{
    let s = up_steps(kind);
    if kind is Drop {
        assert(s[2] == UpStep::OpenTunnelLog);
        assert(s[4] == UpStep::OpenStore);
        assert(s[5] == UpStep::StartServer);
    } else {
        assert(s[1] == UpStep::OpenTunnelLog);
    }
    if kind is Hook {
        assert(s[3] == UpStep::OpenStore);
        assert(s[4] == UpStep::StartServer);
    }
    if kind is Static {
        assert(s[3] == UpStep::StartServer);
    }
    if kind is Run {
        assert(s[4] == UpStep::SpawnCommand);
    }
}

/// On the way down nothing is ended that does not run: the tunnel where it has not
/// exited, the command of a service that runs one, the server of one that has one, which
/// is never cut off. The tunnel goes before the command, the command before the copies of
/// the output, these before the server, and the entry last.
pub proof fn law_going_down_ends_nothing_else(kind: ServiceKind, exit: ReaderExit, i: int, j: int)
    requires
        0 <= i < j < down_steps(kind, exit).len(),
    ensures
        ({
            let s = down_steps(kind, exit);
            &&& s.contains(DownStep::EndTunnel) <==> !(exit is ChildExited)
            &&& s.contains(DownStep::EndCommand) <==> kind is Run
            &&& s.contains(DownStep::DrainServer) <==> kind is Static || kind is Hook || kind is Drop
            &&& !s.contains(DownStep::AbortServer)
            &&& s.contains(DownStep::StopCopying)
            &&& place(s[i]) < place(s[j])
        }),
{
    let s = down_steps(kind, exit);
    let tunnel: int = if exit is ChildExited {
        0
    } else {
        1
    };
    let command: int = if kind is Run {
        1
    } else {
        0
    };
    if tunnel == 1 {
        assert(s[0] == DownStep::EndTunnel);
    }
    if command == 1 {
        assert(s[tunnel] == DownStep::EndCommand);
    }
    assert(s[tunnel + command] == DownStep::StopCopying);
    if has_server(kind) {
        assert(s[tunnel + command + 1] == DownStep::DrainServer);
    }
}

/// The place of a step on the way down.
pub open spec fn place(step: DownStep) -> int {
    match step {
        DownStep::EndTunnel => 0,
        DownStep::EndCommand => 1,
        DownStep::StopCopying => 2,
        DownStep::AbortServer => 3,
        DownStep::DrainServer => 4,
        DownStep::ReleaseEntry => 5,
    }
}

/// Only the exit of the command is a failure, and it names the program.
pub proof fn law_only_a_gone_origin_is_a_failure(command: Seq<Vec<u8>>)
    ensures
        end_failure(ReaderExit::ChildExited, command) is None,
        end_failure(ReaderExit::Signal, command) is None,
        end_failure(ReaderExit::CommandExited, command) matches Some(w) && (command.len() > 0
            ==> occurs_in(w, "'"@ + lossy(command[0]@) + "'"@)),
{
    if command.len() > 0 {
        let bin = lossy(command[0]@);
        assert("command '"@ == "command "@ + "'"@) by {
            reveal_strlit("command '");
            reveal_strlit("command ");
            reveal_strlit("'");
        }
        assert("' exited — tunnel torn down"@ == "'"@ + " exited — tunnel torn down"@) by {
            reveal_strlit("' exited — tunnel torn down");
            reveal_strlit("'");
            reveal_strlit(" exited — tunnel torn down");
        }
        lemma_stands_across("command "@, "'"@, bin, "'"@, " exited — tunnel torn down"@);
    }
}

/// Nothing is announced twice, and the first line with a tunnel's URL is.
pub proof fn law_the_first_url_is_announced(line: Seq<char>)
    ensures
        announced(true, line) is None,
        announced(false, line) == first_tunnel(line, 0),
{
}

/// The announcement shows the name, the local URL with the port, and the public URL, each
/// on its line.
pub proof fn law_announcement_shows_both_urls(name: Seq<char>, port: u16, url: Seq<char>)
    ensures
        occurs_in(announcement(name, port, url), "Started "@ + name + "\n"@),
        occurs_in(
            announcement(name, port, url),
            "Local:   "@ + ("http://127.0.0.1:"@ + decimal(port as nat)) + "\n"@,
        ),
        occurs_in(announcement(name, port, url), "Public:  "@ + url + "\n"@),
{
    let local = "http://127.0.0.1:"@ + decimal(port as nat);
    let all = announcement(name, port, url);
    assert("\nStarted "@ == "\n"@ + "Started "@) by {
        reveal_strlit("\nStarted ");
        reveal_strlit("\n");
        reveal_strlit("Started ");
    }
    assert("\n\nLocal:   "@ == "\n"@ + ("\n"@ + "Local:   "@)) by {
        reveal_strlit("\n\nLocal:   ");
        reveal_strlit("\n");
        reveal_strlit("Local:   ");
    }
    assert("\nPublic:  "@ == "\n"@ + "Public:  "@) by {
        reveal_strlit("\nPublic:  ");
        reveal_strlit("\n");
        reveal_strlit("Public:  ");
    }
    assert("\n\n"@ == "\n"@ + "\n"@) by {
        reveal_strlit("\n\n");
        reveal_strlit("\n");
    }
    let front = "\n"@ + "Started "@ + name + "\n"@ + "\n"@;
    let tail = "Public:  "@ + url + ("\n"@ + "\n"@);
    lemma_stands_across(
        "\n"@,
        "Started "@,
        name,
        "\n"@,
        "\n"@ + "Local:   "@ + local + ("\n"@ + tail),
    );
    lemma_stands_across(front, "Local:   "@, local, "\n"@, tail);
    lemma_stands_across(front + "Local:   "@ + local + "\n"@, "Public:  "@, url, "\n"@, "\n"@);
    assert(all =~= ("\n"@ + "Started "@) + name + ("\n"@ + ("\n"@ + "Local:   "@ + local + ("\n"@
        + tail))));
    assert(all =~= (front + "Local:   "@) + local + ("\n"@ + tail));
    assert(all =~= (front + "Local:   "@ + local + "\n"@ + "Public:  "@) + url + ("\n"@ + "\n"@));
}

} // verus!
