//! The `kill` command: what is removed from the registry, and what is signalled.

use vstd::prelude::*;
use vstd::string::*;

use crate::clock::Timestamp;
use crate::model::{service_views, Registry, RegistryView, Service, ServiceView};
use crate::output::{print_removed_stale, print_stopped};
use crate::proc::{
    matches_needle, pid_alive, pid_matches, terminate_foreground, terminate_orphan, Identity, Signal,
};
use crate::registry::{
    find_from, id_from, law_removing_keeps_sound, lemma_find_from, lemma_id_from, sound, targets,
};
use crate::text::concat3;

verus! {

/// How a service is torn down.
#[derive(Clone, Copy, Debug, PartialEq, Eq, Structural)]
pub enum TeardownKind {
    /// Only the `ft` process itself is signalled: it shares its group with the
    /// operator's shell.
    ForegroundDirect,
    /// The whole group of the worker is signalled.
    BackgroundGroup,
}

/// How the service is torn down.
pub open spec fn torn_down(s: ServiceView) -> TeardownKind {
    if s.foreground {
        TeardownKind::ForegroundDirect
    } else {
        TeardownKind::BackgroundGroup
    }
}

/// How the service is torn down.
pub fn teardown_kind(service: &Service) -> (r: TeardownKind)
    ensures
        r == torn_down(service@),
{
    if service.foreground {
        TeardownKind::ForegroundDirect
    } else {
        TeardownKind::BackgroundGroup
    }
}

/// What is to become of the target.
#[derive(Debug)]
pub enum KillPlan {
    /// The entry was removed; its processes are to be torn down.
    Remove(Service),
    /// The entry was left in place: its worker's pid is about to be recorded, and
    /// without the entry nothing would ever find that worker again.
    Starting(String),
}

/// What killing `target` at the instant `now` comes to.
pub open spec fn kill_outcome(r: RegistryView, target: Seq<char>, now: Timestamp) -> Option<
    (RegistryView, ServiceView),
> {
    let i = find_from(r.services, target, 0);
    if i >= r.services.len() {
        None
    } else if r.services[i].starting_at(now) {
        Some((r, r.services[i]))
    } else {
        Some(
            (
                RegistryView {
                    next_id: r.next_id,
                    services: r.services.remove(id_from(r.services, r.services[i].id, 0)),
                },
                r.services[i],
            ),
        )
    }
}

/// Decide, together with the removal itself, whether the service that `target`
/// names may be reaped at the instant `now`. Nothing comes back where `target`
/// names no service.
pub fn plan_kill(reg: &mut Registry, target: &str, now: Timestamp) -> (r: Option<KillPlan>)
    ensures
        match r {
            None => kill_outcome(old(reg)@, target@, now) is None && final(reg)@ == old(reg)@,
            Some(KillPlan::Starting(name)) => kill_outcome(old(reg)@, target@, now) matches Some(o)
                && o.1.starting_at(now) && name@ == o.1.name && final(reg)@ == o.0,
            Some(KillPlan::Remove(s)) => kill_outcome(old(reg)@, target@, now) matches Some(o)
                && !o.1.starting_at(now) && s@ == o.1 && final(reg)@ == o.0,
        },
{
    proof {
        lemma_find_from(reg@.services, target@, 0);
    }
    let svc = match reg.find(target) {
        Some(s) => s.clone(),
        None => return None,
    };
    if svc.start_in_progress_at(now) {
        return Some(KillPlan::Starting(svc.name));
    }
    let ghost before = reg.services@;
    let ghost i = find_from(reg@.services, target@, 0);
    let ghost k = id_from(reg@.services, svc.id, 0);
    proof {
        assert(svc@ == reg@.services[i]);
        lemma_id_from(reg@.services, svc.id, 0);
    }
    reg.remove(svc.id);
    assert(service_views(before.remove(k)) =~= service_views(before).remove(k));
    Some(KillPlan::Remove(svc))
}

/// Shown when the target names no service.
pub fn no_match_message(target: &str) -> (r: String)
    ensures
        r@ == "no service matches '"@ + target@ + "'"@,
{
    concat3("no service matches '", target, "'")
}

/// Shown when the target is still starting.
pub fn still_starting_message(name: &str) -> (r: String)
    ensures
        r@ == "service '"@ + name@
            + "' is still starting; try again in a few seconds once its worker pid is recorded"@,
{
    concat3(
        "service '",
        name,
        "' is still starting; try again in a few seconds once its worker pid is recorded",
    )
}

/// The recorded tunnel still is a `cloudflared`.
pub open spec fn tunnel_ours(s: ServiceView, tunnel: Identity) -> bool {
    s.tunnel_pid is Some && matches_needle(tunnel, "cloudflared"@)
}

/// Whether the recorded tunnel still is a `cloudflared`.
pub fn is_tunnel_ours(service: &Service, tunnel: &Identity) -> (r: bool)
    ensures
        r == tunnel_ours(service@, *tunnel),
{
    service.tunnel_pid.is_some() && pid_matches(tunnel, "cloudflared")
}

/// The signals to a foreground service.
pub open spec fn direct_signals(s: ServiceView, worker: Identity, tunnel: Identity) -> Seq<Signal> {
    let own = if matches_needle(worker, "--foreground"@) {
        seq![Signal::Term(s.worker_pid)]
    } else {
        Seq::empty()
    };
    let orphan = if tunnel_ours(s, tunnel) {
        seq![Signal::Term(s.tunnel_pid->0)]
    } else {
        Seq::empty()
    };
    own + orphan
}

/// The signals to a foreground service: to its `ft` process and to its tunnel, each
/// only where it still is what was recorded.
pub fn foreground_signals(service: &Service, worker: &Identity, tunnel: &Identity) -> (r: Vec<
    Signal,
>)
    ensures
        r@ == direct_signals(service@, *worker, *tunnel),
{
    let mut r: Vec<Signal> = Vec::new();
    if let Some(signal) = terminate_foreground(service.worker_pid, worker) {
        r.push(signal);
    }
    if let Some(pid) = service.tunnel_pid {
        if let Some(signal) = terminate_orphan(pid, tunnel) {
            r.push(signal);
        }
    }
    assert(r@ =~= direct_signals(service@, *worker, *tunnel));
    r
}

/// The group of a background service that is ended.
pub open spec fn group_signalled(s: ServiceView, worker: Identity, tunnel: Identity) -> Option<u32> {
    if matches_needle(worker, "run-worker"@) || tunnel_ours(s, tunnel) {
        Some(s.worker_pid)
    } else {
        None
    }
}

/// The group of a background service that is ended: that of its worker, and only
/// where one of its members is known to be ours. The tunnel is in that group.
pub fn signals_group(service: &Service, worker: &Identity, tunnel: &Identity) -> (r: Option<u32>)
    ensures
        r == group_signalled(service@, *worker, *tunnel),
{
    if pid_alive(worker) || is_tunnel_ours(service, tunnel) {
        Some(service.worker_pid)
    } else {
        None
    }
}

/// What is told of a service that was torn down.
pub open spec fn outcome_text(name: Seq<char>, was_running: bool, lingers: bool) -> Seq<char> {
    if !was_running {
        "Removed stale service "@ + name + "."@
    } else if lingers {
        "Sent kill signal to "@ + name + " (a process may still be exiting)."@
    } else {
        "Stopped "@ + name + "."@
    }
}

/// Something of the service has outlived the signals.
pub open spec fn survived(still_worker: bool, still_cloudflared: bool) -> bool {
    still_worker || still_cloudflared
}

/// What is told of a background service, given what its worker and its tunnel
/// were before and are after the signals.
pub fn background_outcome(
    name: &str,
    worker_alive: bool,
    still_worker: bool,
    still_cloudflared: bool,
) -> (r: String)
    ensures
        r@ == outcome_text(name@, worker_alive, survived(still_worker, still_cloudflared)),
{
    if worker_alive {
        if still_worker || still_cloudflared {
            concat3("Sent kill signal to ", name, " (a process may still be exiting).")
        } else {
            print_stopped(name)
        }
    } else {
        print_removed_stale(name)
    }
}

/// What is told of a foreground service, given whether its `ft` process was ours.
pub fn foreground_outcome(name: &str, worker_ours: bool) -> (r: String)
    ensures
        r@ == outcome_text(name@, worker_ours, false),
{
    if worker_ours {
        print_stopped(name)
    } else {
        print_removed_stale(name)
    }
}

// ---------------------------------------------------------------------------
// Laws
// ---------------------------------------------------------------------------

/// A `kill` of a reservation within its grace leaves the registry as it is.
pub proof fn law_fresh_reservation_survives_kill(
    r: RegistryView,
    target: Seq<char>,
    now: Timestamp,
)
    ensures
        kill_outcome(r, target, now) matches Some(o) ==> (o.1.starting_at(now) ==> o.0 == r),
{
}

/// Whatever is signalled is a process that was recorded for the service and still
/// is what was recorded: a foreground service is never ended by its group, and a
/// group is ended only where its leader or the tunnel in it is ours.
pub proof fn law_only_our_own_processes_are_signalled(
    s: ServiceView,
    worker: Identity,
    tunnel: Identity,
    k: int,
)
    ensures
        0 <= k < direct_signals(s, worker, tunnel).len() ==> {
            ||| direct_signals(s, worker, tunnel)[k] == Signal::Term(s.worker_pid)
                && matches_needle(worker, "--foreground"@)
            ||| s.tunnel_pid is Some && direct_signals(s, worker, tunnel)[k] == Signal::Term(
                s.tunnel_pid->0,
            ) && matches_needle(tunnel, "cloudflared"@)
        },
        group_signalled(s, worker, tunnel) is Some ==> matches_needle(worker, "run-worker"@)
            || matches_needle(tunnel, "cloudflared"@),
{
}

/// In a sound registry `kill` removes exactly the service that the target names,
/// and the registry stays sound.
pub proof fn law_kill_removes_the_named_service(
    r: RegistryView,
    target: Seq<char>,
    now: Timestamp,
)
    requires
        sound(r),
    ensures
        kill_outcome(r, target, now) matches Some(o) ==> sound(o.0) && (!o.1.starting_at(now)
            ==> o.0.services == r.services.remove(find_from(r.services, target, 0))),
{
    lemma_find_from(r.services, target, 0);
    let i = find_from(r.services, target, 0);
    if i < r.services.len() {
        let id = r.services[i].id;
        lemma_id_from(r.services, id, 0);
        let k = id_from(r.services, id, 0);
        if k < i {
            assert(r.services[k].id != r.services[i].id);
        }
        assert(k == i);
        law_removing_keeps_sound(r, i);
    }
}

/// A `kill` is about the first service that the target names, and says so; it is refused
/// only where that is still starting, and otherwise takes away that entry and no other.
/// Where the target names none, nothing comes of it.
pub proof fn law_kill_is_about_the_named_service(
    r: RegistryView,
    target: Seq<char>,
    now: Timestamp,
    i: int,
)
    requires
        0 <= i < r.services.len(),
        forall|k: int| 0 <= k < i ==> !targets(target, #[trigger] r.services[k]),
    ensures
        targets(target, r.services[i]) ==> (kill_outcome(r, target, now) matches Some(o) && o.1
            == r.services[i] && o.0.next_id == r.next_id && (r.services[i].starting_at(now)
            ==> o.0 == r) && (!r.services[i].starting_at(now) && (forall|k: int|
            0 <= k < i ==> (#[trigger] r.services[k]).id != r.services[i].id) ==> o.0.services
            == r.services.take(i) + r.services.skip(i + 1))),
        !targets(target, r.services[i]) && i == r.services.len() - 1 ==> kill_outcome(
            r,
            target,
            now,
        ) is None,
{
    lemma_find_from(r.services, target, 0);
    let j = find_from(r.services, target, 0);
    if targets(target, r.services[i]) {
        assert(j == i);
        let id = r.services[i].id;
        lemma_id_from(r.services, id, 0);
        let m = id_from(r.services, id, 0);
        if forall|k: int| 0 <= k < i ==> (#[trigger] r.services[k]).id != id {
            if m < i {
                assert(r.services[m].id == id);
            }
            assert(m == i);
            assert(r.services.remove(i) =~= r.services.take(i) + r.services.skip(i + 1));
        }
    } else if i == r.services.len() - 1 {
        if j < r.services.len() {
            assert(targets(target, r.services[j]));
        }
    }
}

/// Every process of a foreground service that still is what was recorded is asked to
/// end, and the group of a background service is ended wherever its worker or its tunnel
/// still is ours.
pub proof fn law_our_own_processes_are_signalled(
    s: ServiceView,
    worker: Identity,
    tunnel: Identity,
    pid: u32,
)
    ensures
        matches_needle(worker, "--foreground"@) ==> direct_signals(s, worker, tunnel).contains(
            Signal::Term(s.worker_pid),
        ),
        s.tunnel_pid == Some(pid) && matches_needle(tunnel, "cloudflared"@) ==> direct_signals(
            s,
            worker,
            tunnel,
        ).contains(Signal::Term(pid)),
        matches_needle(worker, "run-worker"@) ==> group_signalled(s, worker, tunnel) == Some(
            s.worker_pid,
        ),
        s.tunnel_pid == Some(pid) && matches_needle(tunnel, "cloudflared"@) ==> group_signalled(
            s,
            worker,
            tunnel,
        ) == Some(s.worker_pid),
        s.tunnel_pid is None ==> !tunnel_ours(s, tunnel),
        s.tunnel_pid is None && !matches_needle(worker, "run-worker"@) ==> group_signalled(
            s,
            worker,
            tunnel,
        ) is None,
{
    let all = direct_signals(s, worker, tunnel);
    if matches_needle(worker, "--foreground"@) {
        assert(all[0] == Signal::Term(s.worker_pid));
    }
    if s.tunnel_pid == Some(pid) && matches_needle(tunnel, "cloudflared"@) {
        assert(all[all.len() - 1] == Signal::Term(pid));
    }
}

/// Who kills a service is told what became of it: that it was dead already, that it has
/// ended, or that something of it may still be there.
pub proof fn law_kill_tells_what_became_of_it(name: Seq<char>, lingers: bool)
    ensures
        outcome_text(name, false, lingers) == "Removed stale service "@ + name + "."@,
        outcome_text(name, true, false) == "Stopped "@ + name + "."@,
        outcome_text(name, true, true) == "Sent kill signal to "@ + name
            + " (a process may still be exiting)."@,
{
}

/// A service in the foreground is ended by itself, and one in the background by its
/// group.
pub proof fn law_only_background_services_are_ended_by_group(s: ServiceView)
    ensures
        s.foreground ==> torn_down(s) == TeardownKind::ForegroundDirect,
        !s.foreground ==> torn_down(s) == TeardownKind::BackgroundGroup,
{
}

/// One process that is left is enough for a service to count as alive.
pub proof fn law_one_survivor_counts(other: bool)
    ensures
        survived(true, other) && survived(other, true),
        !survived(false, false),
{
}

} // verus!
