//! The `run` command: a command that `ft` spawns, waits for and fronts.

use vstd::prelude::*;
use vstd::string::*;

use crate::bytes::{lossy, lossy_text};
use crate::cmd::start::{fail_timeout, first_reason, polled, reason, PollStep, Snapshot};
use crate::proc::byte_lists;
use crate::text::{
    concat3, concat4, decimal, decimal_text, lemma_stands_between, lemma_stands_in_part, occurs_in,
    opt_text,
};

verus! {

/// Why a command of so many arguments, or its port, is refused.
pub open spec fn run_refusal(arguments: nat, port: u16, free: bool) -> Option<Seq<char>> {
    if arguments == 0 {
        Some(
            "no command given after `--` — pass the command to run and tunnel, e.g. `ft run --port 3000 -- npm start`"@,
        )
    } else if !free {
        Some(
            "port "@ + decimal(port as nat)
                + " is already in use — the command ft spawns must be able to bind it (is another instance of your server still running?)"@,
        )
    } else {
        None
    }
}

/// Accept the command and its port: there must be a command, and it must be able
/// to bind the port.
pub fn check_run(command: &[Vec<u8>], port: u16, free: bool) -> (r: Result<(), String>)
    ensures
        match r {
            Ok(()) => run_refusal(command@.len(), port, free) is None,
            Err(e) => run_refusal(command@.len(), port, free) == Some(e@),
        },
{
    if command.len() == 0 {
        return Err(
            "no command given after `--` — pass the command to run and tunnel, e.g. `ft run --port 3000 -- npm start`".to_owned(),
        );
    }
    if !free {
        return Err(
            concat3(
                "port ",
                decimal_text(port as u64).as_str(),
                " is already in use — the command ft spawns must be able to bind it (is another instance of your server still running?)",
            ),
        );
    }
    Ok(())
}

/// The first `n` arguments as text, with a space between each two.
pub open spec fn shown_command(command: Seq<Seq<u8>>, n: nat) -> Seq<char>
    decreases n,
{
    if n == 0 {
        Seq::empty()
    } else if n == 1 {
        lossy(command[0])
    } else {
        shown_command(command, (n - 1) as nat) + " "@ + lossy(command[n - 1])
    }
}

/// The command as it is told: its arguments with a space between each two. A byte
/// that is no text never gets in the way of a message.
pub fn command_display(command: &[Vec<u8>]) -> (r: String)
    ensures
        r@ == shown_command(byte_lists(command@), command@.len()),
{
    let mut out = String::new();
    assert(out@ =~= Seq::<char>::empty());
    let mut i: usize = 0;
    while i < command.len()
        invariant
            i <= command@.len(),
            out@ == shown_command(byte_lists(command@), i as nat),
        decreases command@.len() - i,
    {
        let arg = lossy_text(command[i].as_slice());
        assert(byte_lists(command@)[i as int] == command@[i as int]@);
        if i == 0 {
            out = arg;
        } else {
            out = concat3(out.as_str(), " ", arg.as_str());
        }
        i = i + 1;
    }
    out
}

/// How far a command has come while it is waited for.
#[derive(Clone, Copy, Debug, PartialEq, Eq, Structural)]
pub struct Progress {
    /// Its entry had its URL when the registry was read last.
    pub url_seen: bool,
    /// Its port answered at the last look.
    pub origin_up: bool,
}

impl Progress {
    /// Nothing has come yet.
    pub open spec fn fresh() -> Progress {
        Progress { url_seen: false, origin_up: false }
    }

    /// Nothing has come yet.
    pub fn new() -> (r: Progress)
        ensures
            r == Progress::fresh(),
    {
        Progress { url_seen: false, origin_up: false }
    }
}

/// The URL is there after a look: the entry has it, or had it when it was read last
/// and has not changed since.
pub open spec fn url_known(s: Snapshot, seen: bool) -> bool {
    match s {
        Snapshot::Entry { has_url, .. } => has_url,
        Snapshot::Unchanged { .. } => seen,
        _ => false,
    }
}

/// What follows from a look at the registry while a command comes up, and how far it
/// has come then. It is up once its URL is there and its port answers, in whichever
/// order they come; a look that fails it leaves what was known before.
pub open spec fn run_polled(s: Snapshot, ready: bool, p: Progress) -> (PollStep, Progress) {
    match polled(s) {
        PollStep::WorkerGone => (PollStep::WorkerGone, p),
        PollStep::Unreadable => (PollStep::Unreadable, p),
        _ => (
            if url_known(s, p.url_seen) && ready {
                PollStep::Started
            } else {
                PollStep::Again
            },
            Progress { url_seen: url_known(s, p.url_seen), origin_up: ready },
        ),
    }
}

/// What follows from a look at the registry while a command comes up, given whether
/// its port answers and how far it had come before.
pub fn poll_run(snapshot: Snapshot, origin_ready: bool, progress: Progress) -> (r: (
    PollStep,
    Progress,
))
    ensures
        r == run_polled(snapshot, origin_ready, progress),
{
    match crate::cmd::start::poll_for_url(snapshot) {
        PollStep::WorkerGone => (PollStep::WorkerGone, progress),
        PollStep::Unreadable => (PollStep::Unreadable, progress),
        _ => {
            let url_seen = match snapshot {
                Snapshot::Entry { has_url, .. } => has_url,
                Snapshot::Unchanged { .. } => progress.url_seen,
                _ => false,
            };
            let step = if url_seen && origin_ready {
                PollStep::Started
            } else {
                PollStep::Again
            };
            (step, Progress { url_seen, origin_up: origin_ready })
        },
    }
}

/// What is told when the command or its worker is gone before the service was up.
pub open spec fn run_failure(
    name: Seq<char>,
    command: Seq<char>,
    up: bool,
    why: Seq<char>,
) -> Seq<char> {
    if up {
        "'"@ + command + "' exited before the tunnel came up"@ + why
    } else {
        "worker for '"@ + name + "' exited before the tunnel came up"@ + why
    }
}

/// What is told when the command or its worker is gone before the service was up.
pub fn fail_start(name: &str, command: &[Vec<u8>], origin_up: bool, why: &str) -> (r: String)
    ensures
        r@ == run_failure(
            name@,
            shown_command(byte_lists(command@), command@.len()),
            origin_up,
            why@,
        ),
{
    if origin_up {
        concat4("'", command_display(command).as_str(), "' exited before the tunnel came up", why)
    } else {
        crate::cmd::start::fail_start(name, why)
    }
}

/// What is told when the service was not up in time: it names the half that never
/// came.
pub open spec fn run_timeout(command: Seq<char>, port: u16, up: bool, why: Seq<char>) -> Seq<char> {
    if up {
        "timed out waiting for the tunnel URL"@ + why
    } else {
        "'"@ + command + "' never started listening on 127.0.0.1:"@ + decimal(port as nat)
            + " — the server never came up, so no tunnel was left behind"@ + why
    }
}

/// What is told when the service was not up in time.
pub fn fail_run_timeout(command: &[Vec<u8>], port: u16, origin_up: bool, why: &str) -> (r: String)
    ensures
        r@ == run_timeout(
            shown_command(byte_lists(command@), command@.len()),
            port,
            origin_up,
            why@,
        ),
{
    if origin_up {
        fail_timeout(why)
    } else {
        let mut r = concat4(
            "'",
            command_display(command).as_str(),
            "' never started listening on 127.0.0.1:",
            decimal_text(port as u64).as_str(),
        );
        r.append(" — the server never came up, so no tunnel was left behind");
        r.append(why);
        r
    }
}

/// What is added to the message: what the command said last, else what
/// `cloudflared` said.
pub fn last_reason(worker: Option<String>, tunnel: Option<String>) -> (r: String)
    ensures
        r@ == reason(opt_text(worker), opt_text(tunnel)),
{
    first_reason(worker, tunnel)
}

// ---------------------------------------------------------------------------
// Laws
// ---------------------------------------------------------------------------

/// A command is reported as up exactly where its URL is there and its port answers,
/// unless its worker is found dead, its entry gone or the registry unreadable.
pub proof fn law_up_means_listening(s: Snapshot, ready: bool, p: Progress)
    ensures
        run_polled(s, ready, p).0 is Started <==> ready && url_known(s, p.url_seen) && !(polled(
            s,
        ) is WorkerGone),
        run_polled(s, ready, p).0 is Started ==> run_polled(s, ready, p).1 == (Progress {
            url_seen: true,
            origin_up: true,
        }),
{
}

/// A look that fails any service fails a command too, and changes nothing of how far
/// it had come.
pub proof fn law_run_fails_like_any_start(s: Snapshot, ready: bool, p: Progress)
    ensures
        polled(s) is WorkerGone || polled(s) is Unreadable ==> run_polled(s, ready, p) == (
            polled(s),
            p,
        ),
        run_polled(s, ready, p).0 is WorkerGone || run_polled(s, ready, p).0 is Unreadable
            ==> polled(s) == run_polled(s, ready, p).0,
{
}

/// One look at a command: what the registry shows, and whether the port answers.
pub ghost struct Look {
    pub snapshot: Snapshot,
    pub ready: bool,
}

/// Where the first `n` looks lead: the first that settles the matter does.
pub open spec fn run_after(looks: Seq<Look>, n: nat) -> (PollStep, Progress)
    decreases n,
{
    if n == 0 {
        (PollStep::Again, Progress::fresh())
    } else {
        let before = run_after(looks, (n - 1) as nat);
        if before.0 is Again {
            run_polled(looks[n - 1].snapshot, looks[n - 1].ready, before.1)
        } else {
            before
        }
    }
}

/// The registry did not change at the looks from `i` on and before `j`.
pub open spec fn unchanged_between(looks: Seq<Look>, i: int, j: int) -> bool {
    forall|k: int| i <= k < j ==> (#[trigger] looks[k]).snapshot is Unchanged
}

/// A command comes up in whichever order its URL and its port come. Where the URL is
/// there at look `i` and the registry stays as it is, with a live worker, up to look
/// `j`, at which the port answers, the command is up by then.
pub proof fn law_url_and_port_come_in_either_order(looks: Seq<Look>, i: nat, j: nat)
    requires
        i <= j < looks.len(),
        run_after(looks, i).0 is Again,
        looks[i as int].snapshot matches Snapshot::Entry { has_url, .. } && has_url,
        forall|k: int|
            i < k <= j ==> (#[trigger] looks[k]).snapshot == (Snapshot::Unchanged {
                worker_alive: true,
            }),
        looks[j as int].ready,
    ensures
        run_after(looks, j + 1).0 is Started,
{
    lemma_run_goes_on(looks, i, j);
}

/// After look `k`, a command whose URL has come is up or still waited for.
proof fn lemma_run_goes_on(looks: Seq<Look>, i: nat, k: nat)
    requires
        i <= k < looks.len(),
        run_after(looks, i).0 is Again,
        looks[i as int].snapshot matches Snapshot::Entry { has_url, .. } && has_url,
        forall|m: int|
            i < m <= k ==> (#[trigger] looks[m]).snapshot == (Snapshot::Unchanged {
                worker_alive: true,
            }),
    ensures
        run_after(looks, k + 1).0 is Started || (run_after(looks, k + 1).0 is Again && run_after(
            looks,
            k + 1,
        ).1.url_seen),
        looks[k as int].ready ==> run_after(looks, k + 1).0 is Started,
    decreases k,
{
    if k > i {
        lemma_run_goes_on(looks, i, (k - 1) as nat);
    }
}

/// While a command is waited for, its URL counts as seen only where some look saw it
/// on the entry and the registry has not changed since.
pub proof fn law_url_that_is_seen_was_there(looks: Seq<Look>, n: nat)
    requires
        n <= looks.len(),
        run_after(looks, n).0 is Again,
        run_after(looks, n).1.url_seen,
    ensures
        exists|i: int|
            0 <= i < n && ((#[trigger] looks[i]).snapshot matches Snapshot::Entry { has_url, .. }
                && has_url) && unchanged_between(looks, i + 1, n as int),
    decreases n,
{
    if n > 0 {
        let m = n - 1;
        match looks[m].snapshot {
            Snapshot::Entry { has_url, .. } => {
                assert(unchanged_between(looks, m + 1, n as int));
            },
            _ => {
                law_url_that_is_seen_was_there(looks, m as nat);
                let i = choose|i: int|
                    0 <= i < m && ((#[trigger] looks[i]).snapshot matches Snapshot::Entry {
                        has_url,
                        ..
                    } && has_url) && unchanged_between(looks, i + 1, m as int);
                assert(unchanged_between(looks, i + 1, n as int));
            },
        }
    }
}

/// A command is accepted exactly where there is one and its port is free; what is missing
/// is told, and a taken port by its number.
pub proof fn law_refused_commands_are_told_why(arguments: nat, port: u16, free: bool)
    ensures
        run_refusal(arguments, port, free) is None <==> arguments > 0 && free,
        arguments == 0 ==> run_refusal(arguments, port, free) == run_refusal(0, 0, true),
        arguments > 0 && !free ==> (run_refusal(arguments, port, free) matches Some(w) && occurs_in(
            w,
            decimal(port as nat),
        )),
{
    lemma_stands_between(
        "port "@,
        decimal(port as nat),
        " is already in use — the command ft spawns must be able to bind it (is another instance of your server still running?)"@,
    );
}

/// Every argument stands in the command as it is told.
pub proof fn law_every_argument_is_told(command: Seq<Seq<u8>>, n: nat, i: int)
    requires
        0 <= i < n,
    ensures
        occurs_in(shown_command(command, n), lossy(command[i])),
    decreases n,
{
    let all = shown_command(command, n);
    let last = lossy(command[n - 1]);
    let none = Seq::<char>::empty();
    if n == 1 {
        lemma_stands_between(none, last, none);
        assert(none + last + none =~= all);
    } else {
        let before = shown_command(command, (n - 1) as nat);
        if i < n - 1 {
            law_every_argument_is_told(command, (n - 1) as nat, i);
            lemma_stands_in_part(none, before, " "@ + last, lossy(command[i]));
            assert(none + before + (" "@ + last) =~= all);
        } else {
            lemma_stands_between(before + " "@, last, none);
            assert(before + " "@ + last + none =~= all);
        }
    }
}

/// A command is told with its first argument at the beginning, and what follows each with
/// a space before it.
pub proof fn law_arguments_are_told_in_order(command: Seq<Seq<u8>>, n: nat)
    requires
        n > 0,
    ensures
        lossy(command[0]).is_prefix_of(shown_command(command, n)),
        shown_command(command, 1) == lossy(command[0]),
        shown_command(command, n + 1) == shown_command(command, n) + " "@ + lossy(
            command[n as int],
        ),
    decreases n,
{
    if n > 1 {
        law_arguments_are_told_in_order(command, (n - 1) as nat);
        let a = lossy(command[0]);
        let before = shown_command(command, (n - 1) as nat);
        assert(a =~= before.subrange(0, a.len() as int));
        assert(shown_command(command, n).subrange(0, a.len() as int) =~= before.subrange(
            0,
            a.len() as int,
        ));
    }
}

/// A URL is known where the entry has it; an entry that has none takes it back; and where
/// nothing was read anew, what was known stays.
pub proof fn law_what_is_read_counts(alive: bool, has_url: bool, seen: bool)
    ensures
        url_known(Snapshot::Entry { has_url, worker_alive: alive }, seen) == has_url,
        url_known(Snapshot::Unchanged { worker_alive: alive }, seen) == seen,
        !url_known(Snapshot::Gone, seen) && !url_known(Snapshot::Unreadable, seen),
{
}

/// A look that settles nothing remembers what it saw: the URL, and whether the port
/// answered.
pub proof fn law_looks_are_remembered(s: Snapshot, ready: bool, p: Progress)
    ensures
        run_polled(s, ready, p).0 is Again ==> run_polled(s, ready, p).1.origin_up == ready,
        run_polled(s, ready, p).0 is Again ==> run_polled(s, ready, p).1.url_seen == url_known(
            s,
            p.url_seen,
        ),
        !Progress::fresh().url_seen && !Progress::fresh().origin_up,
{
}

/// Where the command had answered it is the command that exited, and otherwise its worker;
/// either is named, and the reason stands at the end.
pub proof fn law_run_failure_names_what_exited(
    name: Seq<char>,
    command: Seq<char>,
    why: Seq<char>,
)
    ensures
        occurs_in(run_failure(name, command, true, why), command),
        occurs_in(run_failure(name, command, false, why), name),
        why.is_suffix_of(run_failure(name, command, true, why)),
        why.is_suffix_of(run_failure(name, command, false, why)),
        run_failure(name, command, false, why) == crate::cmd::start::failed_words(name, why),
{
    let b = "' exited before the tunnel came up"@;
    lemma_stands_between("'"@, command, b + why);
    assert(run_failure(name, command, true, why) =~= "'"@ + command + (b + why));
    lemma_stands_between("worker for '"@, name, b + why);
    assert(run_failure(name, command, false, why) =~= "worker for '"@ + name + (b + why));
}

/// A service that was not up in time is told by the half that never came: the port, with
/// the command, or the URL.
pub proof fn law_run_timeout_names_what_is_missing(command: Seq<char>, port: u16, why: Seq<char>)
    ensures
        occurs_in(run_timeout(command, port, false, why), command),
        occurs_in(run_timeout(command, port, false, why), decimal(port as nat)),
        why.is_suffix_of(run_timeout(command, port, false, why)),
        run_timeout(command, port, true, why) == crate::cmd::start::timeout_words(why),
{
    let a = "' never started listening on 127.0.0.1:"@;
    let p = decimal(port as nat);
    let c = " — the server never came up, so no tunnel was left behind"@;
    lemma_stands_between("'"@, command, a + p + c + why);
    assert(run_timeout(command, port, false, why) =~= "'"@ + command + (a + p + c + why));
    lemma_stands_between("'"@ + command + a, p, c + why);
    assert(run_timeout(command, port, false, why) =~= "'"@ + command + a + p + (c + why));
}

} // verus!
