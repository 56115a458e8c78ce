//! A background service: the way from nothing to a worker whose public URL is
//! there, and what is undone where the way is cut short.

use vstd::prelude::*;
use vstd::string::*;

use crate::cmd::run::{
    fail_run_timeout, law_run_failure_names_what_exited, law_run_timeout_names_what_is_missing,
    poll_run, run_failure, run_polled, run_timeout, shown_command, url_known,
    Progress,
};
use crate::cmd::start::{
    fail_start, fail_timeout, last_reason, law_failures_end_with_the_reason,
    law_first_line_is_the_reason, poll_for_url, polled, reason, PollStep, Snapshot,
};
use crate::model::ServiceKind;
use crate::proc::byte_lists;
use crate::text::{decimal, occurs_in, opt_text};

verus! {

/// One step on the way to a worker.
#[derive(Clone, Copy, Debug, PartialEq, Eq, Structural)]
pub enum SetupStep {
    /// Find `cloudflared`.
    FindTunnel,
    /// Create the state directory.
    EnsureState,
    /// Reserve the entry.
    Reserve,
    /// Write the token of the upload receiver to its private file.
    StoreToken,
    /// Spawn the worker.
    SpawnWorker,
    /// Record the pid of the worker on the entry.
    RecordWorker,
}

/// What follows a step.
#[derive(Clone, Copy, Debug, PartialEq, Eq, Structural)]
pub enum AfterSetup {
    /// The next step.
    Next(SetupStep),
    /// Wait for the URL.
    Wait,
    /// Fail: there is nothing to undo.
    Fail,
    /// Release the entry, and fail.
    ReleaseAndFail,
    /// Tear the worker down, release the entry, and fail.
    TearDownAndFail,
}

/// What follows a step, given whether it succeeded.
pub open spec fn after_setup(kind: ServiceKind, step: SetupStep, succeeded: bool) -> AfterSetup {
    if succeeded {
        match step {
            SetupStep::FindTunnel => AfterSetup::Next(SetupStep::EnsureState),
            SetupStep::EnsureState => AfterSetup::Next(SetupStep::Reserve),
            SetupStep::Reserve => if kind is Drop {
                AfterSetup::Next(SetupStep::StoreToken)
            } else {
                AfterSetup::Next(SetupStep::SpawnWorker)
            },
            SetupStep::StoreToken => AfterSetup::Next(SetupStep::SpawnWorker),
            SetupStep::SpawnWorker => AfterSetup::Next(SetupStep::RecordWorker),
            SetupStep::RecordWorker => AfterSetup::Wait,
        }
    } else {
        match step {
            SetupStep::StoreToken => AfterSetup::ReleaseAndFail,
            SetupStep::SpawnWorker => AfterSetup::ReleaseAndFail,
            SetupStep::RecordWorker => AfterSetup::TearDownAndFail,
            _ => AfterSetup::Fail,
        }
    }
}

/// The first step: `cloudflared` is looked for before anything is reserved, so that
/// a missing one leaves nothing behind.
pub fn first_setup() -> (r: SetupStep)
    ensures
        r == SetupStep::FindTunnel,
{
    SetupStep::FindTunnel
}

/// What follows a step, given whether it succeeded.
pub fn next_setup(kind: ServiceKind, step: SetupStep, succeeded: bool) -> (r: AfterSetup)
    ensures
        r == after_setup(kind, step, succeeded),
{
    if succeeded {
        match step {
            SetupStep::FindTunnel => AfterSetup::Next(SetupStep::EnsureState),
            SetupStep::EnsureState => AfterSetup::Next(SetupStep::Reserve),
            SetupStep::Reserve => if kind == ServiceKind::Drop {
                AfterSetup::Next(SetupStep::StoreToken)
            } else {
                AfterSetup::Next(SetupStep::SpawnWorker)
            },
            SetupStep::StoreToken => AfterSetup::Next(SetupStep::SpawnWorker),
            SetupStep::SpawnWorker => AfterSetup::Next(SetupStep::RecordWorker),
            SetupStep::RecordWorker => AfterSetup::Wait,
        }
    } else {
        match step {
            SetupStep::StoreToken => AfterSetup::ReleaseAndFail,
            SetupStep::SpawnWorker => AfterSetup::ReleaseAndFail,
            SetupStep::RecordWorker => AfterSetup::TearDownAndFail,
            _ => AfterSetup::Fail,
        }
    }
}

/// What happens while the URL is waited for.
#[derive(Clone, Copy, Debug, PartialEq, Eq, Structural)]
pub enum Wakeup {
    /// The time is over.
    Expired,
    /// The registry was looked at; and whether the port of a command answers, which
    /// is asked at every look at one.
    Looked { snapshot: Snapshot, origin_ready: bool },
}

/// What is told when the waiting fails.
#[derive(Clone, Copy, Debug, PartialEq, Eq, Structural)]
pub enum WaitFailure {
    /// The time is over.
    TimedOut,
    /// The worker died or its entry is gone.
    WorkerGone,
    /// The registry cannot be read.
    Unreadable,
}

/// What follows while the URL is waited for.
#[derive(Clone, Copy, Debug, PartialEq, Eq, Structural)]
pub enum Waiting {
    /// Show that the service is up.
    Started,
    /// Look again later.
    Again { progress: Progress },
    /// Tear the worker down, remove the entry, and fail; `origin_up` tells whether the
    /// command answered on its port at the last look.
    TearDownAndFail { why: WaitFailure, origin_up: bool },
}

/// What follows a look whose outcome is `step`.
pub open spec fn after_look(step: PollStep, p: Progress) -> Waiting {
    match step {
        PollStep::Started => Waiting::Started,
        PollStep::Again => Waiting::Again { progress: p },
        PollStep::WorkerGone => Waiting::TearDownAndFail {
            why: WaitFailure::WorkerGone,
            origin_up: p.origin_up,
        },
        PollStep::Unreadable => Waiting::TearDownAndFail {
            why: WaitFailure::Unreadable,
            origin_up: p.origin_up,
        },
    }
}

/// What follows while the URL is waited for.
pub open spec fn after_wakeup(kind: ServiceKind, p: Progress, wakeup: Wakeup) -> Waiting {
    match wakeup {
        Wakeup::Expired => Waiting::TearDownAndFail {
            why: WaitFailure::TimedOut,
            origin_up: p.origin_up,
        },
        Wakeup::Looked { snapshot, origin_ready } => if kind is Run {
            let (step, now) = run_polled(snapshot, origin_ready, p);
            after_look(step, now)
        } else {
            after_look(polled(snapshot), p)
        },
    }
}

/// What follows while the URL is waited for, given how far the service had come
/// before.
pub fn next_wait(kind: ServiceKind, progress: Progress, wakeup: Wakeup) -> (r: Waiting)
    ensures
        r == after_wakeup(kind, progress, wakeup),
{
    match wakeup {
        Wakeup::Expired => Waiting::TearDownAndFail {
            why: WaitFailure::TimedOut,
            origin_up: progress.origin_up,
        },
        Wakeup::Looked { snapshot, origin_ready } => {
            let (step, now) = if kind == ServiceKind::Run {
                poll_run(snapshot, origin_ready, progress)
            } else {
                (poll_for_url(snapshot), progress)
            };
            match step {
                PollStep::Started => Waiting::Started,
                PollStep::Again => Waiting::Again { progress: now },
                PollStep::WorkerGone => Waiting::TearDownAndFail {
                    why: WaitFailure::WorkerGone,
                    origin_up: now.origin_up,
                },
                PollStep::Unreadable => Waiting::TearDownAndFail {
                    why: WaitFailure::Unreadable,
                    origin_up: now.origin_up,
                },
            }
        },
    }
}

/// What the operator is told of a wait that failed; nothing where the registry cannot
/// be read, for then what reading it said is told.
pub open spec fn wait_failure(
    kind: ServiceKind,
    why: WaitFailure,
    name: Seq<char>,
    command: Seq<Seq<u8>>,
    port: u16,
    origin_up: bool,
    tunnel: Option<Seq<char>>,
    worker: Option<Seq<char>>,
) -> Option<Seq<char>> {
    let shown = shown_command(command, command.len());
    match why {
        WaitFailure::TimedOut => Some(
            if kind is Run {
                run_timeout(shown, port, origin_up, reason(worker, tunnel))
            } else {
                "timed out waiting for the tunnel URL"@ + reason(tunnel, worker)
            },
        ),
        WaitFailure::WorkerGone => Some(
            if kind is Run {
                run_failure(name, shown, origin_up, reason(worker, tunnel))
            } else {
                "worker for '"@ + name + "' exited before the tunnel came up"@ + reason(
                    tunnel,
                    worker,
                )
            },
        ),
        WaitFailure::Unreadable => None,
    }
}

/// What the operator is told of a wait that failed, given the last lines of the two
/// logs. The log of the tunnel speaks first, but for a command its own does; nothing
/// where the registry cannot be read, for then what reading it said is told.
pub fn failure_text(
    kind: ServiceKind,
    why: WaitFailure,
    name: &str,
    command: &[Vec<u8>],
    port: u16,
    origin_up: bool,
    tunnel: Option<String>,
    worker: Option<String>,
) -> (r: Option<String>)
    ensures
        opt_text(r) == wait_failure(
            kind,
            why,
            name@,
            byte_lists(command@),
            port,
            origin_up,
            opt_text(tunnel),
            opt_text(worker),
        ),
{
    let is_run = kind == ServiceKind::Run;
    let said = if is_run {
        crate::cmd::run::last_reason(worker, tunnel)
    } else {
        last_reason(tunnel, worker)
    };
    match why {
        WaitFailure::TimedOut => Some(
            if is_run {
                fail_run_timeout(command, port, origin_up, said.as_str())
            } else {
                fail_timeout(said.as_str())
            },
        ),
        WaitFailure::WorkerGone => Some(
            if is_run {
                crate::cmd::run::fail_start(name, command, origin_up, said.as_str())
            } else {
                fail_start(name, said.as_str())
            },
        ),
        WaitFailure::Unreadable => None,
    }
}

/// What stands before the error of a registry that could not be read while the URL
/// was waited for.
pub open spec fn read_context(kind: ServiceKind) -> Option<Seq<char>> {
    if kind is Drop {
        Some("re-reading the registry during the drop start poll"@)
    } else {
        None
    }
}

/// What stands before the error of a registry that could not be read while the URL
/// was waited for.
pub fn unreadable_context(kind: ServiceKind) -> (r: Option<String>)
    ensures
        opt_text(r) == read_context(kind),
{
    if kind == ServiceKind::Drop {
        Some("re-reading the registry during the drop start poll".to_owned())
    } else {
        None
    }
}

// ---------------------------------------------------------------------------
// Laws
// ---------------------------------------------------------------------------

/// The step that comes after `n` successes.
pub open spec fn setup_after(kind: ServiceKind, n: nat) -> AfterSetup
    decreases n,
{
    if n == 0 {
        AfterSetup::Next(SetupStep::FindTunnel)
    } else {
        match setup_after(kind, (n - 1) as nat) {
            AfterSetup::Next(step) => after_setup(kind, step, true),
            end => end,
        }
    }
}

/// Every way that succeeds leads to the waiting, over the reservation of the entry
/// and the recording of the worker's pid; the token of an upload receiver is stored
/// before its worker is spawned.
pub proof fn law_setup_leads_to_the_waiting(kind: ServiceKind)
    ensures
        setup_after(kind, 6) == AfterSetup::Wait,
        setup_after(kind, 2) == AfterSetup::Next(SetupStep::Reserve),
        kind is Drop ==> setup_after(kind, 3) == AfterSetup::Next(SetupStep::StoreToken)
            && setup_after(kind, 4) == AfterSetup::Next(SetupStep::SpawnWorker),
        !(kind is Drop) ==> setup_after(kind, 3) == AfterSetup::Next(SetupStep::SpawnWorker)
            && setup_after(kind, 4) == AfterSetup::Next(SetupStep::RecordWorker),
{
    reveal_with_fuel(setup_after, 7);
}

/// A start that fails leaves nothing behind: one that fails before the entry is
/// reserved has nothing to undo, one that fails before the worker is spawned releases
/// the entry, and one that fails after that tears the worker down too.
pub proof fn law_failed_setup_leaves_nothing(kind: ServiceKind, step: SetupStep)
    ensures
        after_setup(kind, step, false) is Fail <==> step is FindTunnel || step is EnsureState
            || step is Reserve,
        after_setup(kind, step, false) is ReleaseAndFail <==> step is StoreToken
            || step is SpawnWorker,
        after_setup(kind, step, false) is TearDownAndFail <==> step is RecordWorker,
{
}

/// A wait leaves no worker and no entry behind where the time is over, the worker is
/// found dead, the entry is gone or the registry cannot be read.
pub proof fn law_failed_wait_tears_down(kind: ServiceKind, p: Progress, wakeup: Wakeup)
    ensures
        wakeup is Expired ==> after_wakeup(kind, p, wakeup) is TearDownAndFail,
        wakeup matches Wakeup::Looked { snapshot, .. } ==> (polled(snapshot) is WorkerGone
            || polled(snapshot) is Unreadable ==> after_wakeup(kind, p, wakeup)
            is TearDownAndFail),
{
}

/// A service is shown as up only where its URL is there, and a command only where its
/// port answers too; and then it is, unless its worker is found dead first.
pub proof fn law_up_means_a_url(kind: ServiceKind, p: Progress, snapshot: Snapshot, ready: bool)
    ensures
        ({
            let up = after_wakeup(
                kind,
                p,
                Wakeup::Looked { snapshot, origin_ready: ready },
            ) is Started;
            if kind is Run {
                up <==> ready && url_known(snapshot, p.url_seen) && !(polled(snapshot)
                    is WorkerGone)
            } else {
                up <==> (snapshot matches Snapshot::Entry { has_url, .. } && has_url)
            }
        }),
{
}

/// `cloudflared` is looked for first and the state directory made before anything is
/// reserved; only an upload receiver has a token to store.
pub proof fn law_nothing_is_reserved_in_vain(kind: ServiceKind, step: SetupStep)
    ensures
        setup_after(kind, 0) == AfterSetup::Next(SetupStep::FindTunnel),
        setup_after(kind, 1) == AfterSetup::Next(SetupStep::EnsureState),
        after_setup(kind, step, true) == AfterSetup::Next(SetupStep::StoreToken) <==> step is Reserve
            && kind is Drop,
        after_setup(kind, step, true) == AfterSetup::Wait <==> step is RecordWorker,
        !(after_setup(kind, step, true) is Fail) && !(after_setup(kind, step, true)
            is ReleaseAndFail) && !(after_setup(kind, step, true) is TearDownAndFail),
{
    reveal_with_fuel(setup_after, 3);
}

/// A wait that fails says why it did, and whether the command had answered when it was
/// looked at last.
pub proof fn law_failed_wait_says_why(
    kind: ServiceKind,
    p: Progress,
    snapshot: Snapshot,
    ready: bool,
)
    ensures
        after_wakeup(kind, p, Wakeup::Expired) == (Waiting::TearDownAndFail {
            why: WaitFailure::TimedOut,
            origin_up: p.origin_up,
        }),
        polled(snapshot) is WorkerGone ==> after_wakeup(
            kind,
            p,
            Wakeup::Looked { snapshot, origin_ready: ready },
        ) == (Waiting::TearDownAndFail { why: WaitFailure::WorkerGone, origin_up: p.origin_up }),
        polled(snapshot) is Unreadable ==> after_wakeup(
            kind,
            p,
            Wakeup::Looked { snapshot, origin_ready: ready },
        ) == (Waiting::TearDownAndFail { why: WaitFailure::Unreadable, origin_up: p.origin_up }),
{
}

/// A wait that goes on remembers what it saw of a command, and has nothing to remember of
/// any other service, whose port is not asked.
pub proof fn law_waiting_remembers(
    kind: ServiceKind,
    p: Progress,
    snapshot: Snapshot,
    ready: bool,
    other: bool,
)
    requires
        after_wakeup(kind, p, Wakeup::Looked { snapshot, origin_ready: ready }) is Again,
    ensures
        kind is Run ==> after_wakeup(kind, p, Wakeup::Looked { snapshot, origin_ready: ready }) == (
        Waiting::Again {
            progress: Progress {
                url_seen: url_known(snapshot, p.url_seen),
                origin_up: ready,
            },
        }),
        !(kind is Run) ==> after_wakeup(
            kind,
            p,
            Wakeup::Looked { snapshot, origin_ready: ready },
        ) == (Waiting::Again { progress: p }) && after_wakeup(
            kind,
            p,
            Wakeup::Looked { snapshot, origin_ready: other },
        ) == (Waiting::Again { progress: p }),
{
}

/// Every wait that fails is told of, but for an unreadable registry, of which reading it
/// has told.
pub proof fn law_failed_waits_are_told_of(
    kind: ServiceKind,
    why: WaitFailure,
    name: Seq<char>,
    command: Seq<Seq<u8>>,
    port: u16,
    up: bool,
    tunnel: Option<Seq<char>>,
    worker: Option<Seq<char>>,
)
    ensures
        wait_failure(kind, why, name, command, port, up, tunnel, worker) is None
            <==> why is Unreadable,
        read_context(kind) is Some <==> kind is Drop,
{
}

/// What is told of a service ends with what its tunnel said last, of a command with what
/// the command said; the other log speaks only where that one is silent. What is told
/// names the worker that exited.
pub proof fn law_told_reason_is_that_of_the_origin(
    kind: ServiceKind,
    name: Seq<char>,
    command: Seq<Seq<u8>>,
    port: u16,
    up: bool,
    said: Seq<char>,
    other: Option<Seq<char>>,
    gone: bool,
)
    ensures
        ({
            let why = if gone {
                WaitFailure::WorkerGone
            } else {
                WaitFailure::TimedOut
            };
            let told = if kind is Run {
                wait_failure(kind, why, name, command, port, up, other, Some(said))
            } else {
                wait_failure(kind, why, name, command, port, up, Some(said), other)
            };
            let silent = if kind is Run {
                wait_failure(kind, why, name, command, port, up, Some(said), None)
            } else {
                wait_failure(kind, why, name, command, port, up, None, Some(said))
            };
            &&& told matches Some(w) && said.is_suffix_of(w)
            &&& silent == told
            &&& gone && !(kind is Run && up) ==> (told matches Some(w) && occurs_in(w, name))
            &&& !gone && kind is Run && !up ==> (told matches Some(w) && occurs_in(
                w,
                decimal(port as nat),
            ) && occurs_in(w, shown_command(command, command.len())))
        }),
{
    let why = reason(Some(said), other);
    let shown = shown_command(command, command.len());
    law_first_line_is_the_reason(said, other);
    law_failures_end_with_the_reason(name, why);
    law_run_failure_names_what_exited(name, shown, why);
    law_run_timeout_names_what_is_missing(shown, port, why);
    assert(said.is_suffix_of(why));
    assert forall|w: Seq<char>| #[trigger] why.is_suffix_of(w) implies said.is_suffix_of(w) by {
        assert(w.subrange(w.len() - said.len(), w.len() as int) =~= why.subrange(
            why.len() - said.len(),
            why.len() as int,
        )) by {
            assert(w.subrange(w.len() - why.len(), w.len() as int) =~= why);
            assert forall|i: int| 0 <= i < said.len() implies w[w.len() - said.len() + i]
                == #[trigger] why[why.len() - said.len() + i] by {
                assert(w.subrange(w.len() - why.len(), w.len() as int)[why.len() - said.len() + i]
                    == w[w.len() - said.len() + i]);
            }
        }
    }
}

} // verus!
