//! The `prune` command: which registry entries no longer stand for anything.

use vstd::prelude::*;
use vstd::string::*;

use crate::clock::Timestamp;
use crate::model::{service_views, Registry, RegistryView, Service, ServiceView};
use crate::proc::{matches_needle, pid_alive, pid_matches, Identity};
use crate::registry::{law_keeping_some_keeps_sound, picked, rising, sound};
use crate::text::{concat3, decimal, decimal_text, texts};

verus! {

/// What the system tells of the processes of one service.
#[derive(Debug)]
pub struct ServiceProbe {
    /// Of the process behind the recorded worker pid.
    pub worker: Identity,
    /// Of the process behind the recorded tunnel pid.
    pub tunnel: Identity,
}

/// What a pass over the registry found.
#[derive(Debug)]
pub struct Reconciliation {
    /// The names of the stale services, in their order.
    pub stale_names: Vec<String>,
    /// The tunnels of stale services that still run.
    pub orphans_to_reap: Vec<u32>,
}

/// The word that the command line of a live worker carries.
pub open spec fn worker_needle(foreground: bool) -> Seq<char> {
    if foreground {
        "--foreground"@
    } else {
        "run-worker"@
    }
}

/// The service no longer stands for anything: its recorded worker is gone, or no
/// worker was ever recorded and the grace is over.
pub open spec fn stale(s: ServiceView, worker: Identity, now: Timestamp) -> bool {
    if s.worker_pid != 0 {
        !matches_needle(worker, worker_needle(s.foreground))
    } else {
        !s.starting_at(now)
    }
}

/// The tunnel that a stale service has left running, where there is one.
pub open spec fn orphan(s: ServiceView, tunnel: Identity) -> Option<u32> {
    match s.tunnel_pid {
        Some(p) if matches_needle(tunnel, "cloudflared"@) => Some(p),
        _ => None,
    }
}

/// The positions below `n` whose services are not stale.
pub open spec fn kept_at(
    s: Seq<ServiceView>,
    probes: Seq<ServiceProbe>,
    now: Timestamp,
    n: nat,
) -> Seq<int>
    decreases n,
{
    if n == 0 {
        Seq::empty()
    } else if stale(s[n - 1], probes[n - 1].worker, now) {
        kept_at(s, probes, now, (n - 1) as nat)
    } else {
        kept_at(s, probes, now, (n - 1) as nat).push(n - 1)
    }
}

/// The names of the stale services among the first `n`.
pub open spec fn stale_names(
    s: Seq<ServiceView>,
    probes: Seq<ServiceProbe>,
    now: Timestamp,
    n: nat,
) -> Seq<Seq<char>>
    decreases n,
{
    if n == 0 {
        Seq::empty()
    } else if stale(s[n - 1], probes[n - 1].worker, now) {
        stale_names(s, probes, now, (n - 1) as nat).push(s[n - 1].name)
    } else {
        stale_names(s, probes, now, (n - 1) as nat)
    }
}

/// The tunnels that the stale services among the first `n` have left running.
pub open spec fn orphans(
    s: Seq<ServiceView>,
    probes: Seq<ServiceProbe>,
    now: Timestamp,
    n: nat,
) -> Seq<u32>
    decreases n,
{
    if n == 0 {
        Seq::empty()
    } else {
        let before = orphans(s, probes, now, (n - 1) as nat);
        match orphan(s[n - 1], probes[n - 1].tunnel) {
            Some(p) if stale(s[n - 1], probes[n - 1].worker, now) => before.push(p),
            _ => before,
        }
    }
}

/// Whether the service no longer stands for anything.
pub fn is_stale(s: &Service, worker: &Identity, now: Timestamp) -> (r: bool)
    ensures
        r == stale(s@, *worker, now),
{
    if s.worker_pid != 0 {
        if s.foreground {
            !pid_matches(worker, "--foreground")
        } else {
            !pid_alive(worker)
        }
    } else {
        !s.start_in_progress_at(now)
    }
}

/// Keep the services that stand for something and drop the stale ones, given what
/// the system tells of the processes of each and the instant `now`.
pub fn classify(reg: &mut Registry, probes: &Vec<ServiceProbe>, now: Timestamp) -> (r: Reconciliation)
    requires
        probes@.len() == old(reg).services@.len(),
    ensures
        final(reg)@ == (RegistryView {
            next_id: old(reg)@.next_id,
            services: picked(
                old(reg)@.services,
                kept_at(old(reg)@.services, probes@, now, probes@.len()),
            ),
        }),
        texts(r.stale_names@) == stale_names(old(reg)@.services, probes@, now, probes@.len()),
        r.orphans_to_reap@ == orphans(old(reg)@.services, probes@, now, probes@.len()),
{
    let ghost all = reg@.services;
    let mut keep: Vec<Service> = Vec::new();
    let mut names: Vec<String> = Vec::new();
    let mut reap: Vec<u32> = Vec::new();
    let mut i: usize = 0;
    assert(service_views(keep@) =~= picked(all, kept_at(all, probes@, now, 0)));
    assert(texts(names@) =~= stale_names(all, probes@, now, 0));
    while i < reg.services.len()
        invariant
            all == service_views(reg.services@),
            reg.next_id == old(reg).next_id,
            probes@.len() == reg.services@.len(),
            i <= reg.services@.len(),
            service_views(keep@) == picked(all, kept_at(all, probes@, now, i as nat)),
            texts(names@) == stale_names(all, probes@, now, i as nat),
            reap@ == orphans(all, probes@, now, i as nat),
        decreases reg.services@.len() - i,
    {
        let s = &reg.services[i];
        let ghost keep_before = keep@;
        let ghost names_before = names@;
        assert(all[i as int] == s@);
        if is_stale(s, &probes[i].worker, now) {
            if let Some(p) = s.tunnel_pid {
                if pid_matches(&probes[i].tunnel, "cloudflared") {
                    reap.push(p);
                }
            }
            names.push(s.name.clone());
            assert(texts(names@) =~= texts(names_before).push(s@.name));
        } else {
            keep.push(s.clone());
            proof {
                let at = kept_at(all, probes@, now, i as nat);
                assert(kept_at(all, probes@, now, (i + 1) as nat) == at.push(i as int));
                assert(picked(all, at.push(i as int)) =~= picked(all, at).push(all[i as int]));
                assert(service_views(keep@) =~= service_views(keep_before).push(all[i as int]));
            }
        }
        i = i + 1;
    }
    reg.services = keep;
    Reconciliation { stale_names: names, orphans_to_reap: reap }
}

/// The list of what was pruned, one name to a line.
pub open spec fn bullets(names: Seq<Seq<char>>) -> Seq<char>
    decreases names.len(),
{
    if names.len() == 0 {
        Seq::empty()
    } else {
        bullets(names.drop_last()) + ("  - "@ + names.last() + "\n"@)
    }
}

/// What is told of a pass, line by line.
pub open spec fn report(names: Seq<Seq<char>>) -> Seq<char> {
    if names.len() == 0 {
        "No stale services.\n"@
    } else {
        "Pruned "@ + decimal(names.len()) + " stale service(s):\n"@ + bullets(names)
    }
}

/// What is told of a pass, line by line.
pub fn report_text(names: &Vec<String>) -> (r: String)
    ensures
        r@ == report(texts(names@)),
{
    if names.len() == 0 {
        return "No stale services.\n".to_owned();
    }
    let head = concat3(
        "Pruned ",
        decimal_text(names.len() as u64).as_str(),
        " stale service(s):\n",
    );
    let list = bullets_text(names);
    let mut out = head;
    out.append(list.as_str());
    out
}

/// The list of names, one to a line.
pub fn bullets_text(names: &Vec<String>) -> (r: String)
    ensures
        r@ == bullets(texts(names@)),
{
    let mut out = String::new();
    let mut i: usize = 0;
    assert(texts(names@).take(0) =~= Seq::<Seq<char>>::empty());
    while i < names.len()
        invariant
            i <= names@.len(),
            out@ == bullets(texts(names@).take(i as int)),
        decreases names@.len() - i,
    {
        let line = concat3("  - ", names[i].as_str(), "\n");
        out.append(line.as_str());
        assert(texts(names@).take(i + 1).drop_last() =~= texts(names@).take(i as int));
        i = i + 1;
    }
    assert(texts(names@).take(names@.len() as int) =~= texts(names@));
    out
}

// ---------------------------------------------------------------------------
// Laws
// ---------------------------------------------------------------------------

/// The positions of the kept services rise, and are exactly those of the services
/// that are not stale.
pub proof fn lemma_kept_at(s: Seq<ServiceView>, probes: Seq<ServiceProbe>, now: Timestamp, n: nat)
    ensures
        rising(kept_at(s, probes, now, n), n as int),
        forall|i: int|
            0 <= i < n ==> (kept_at(s, probes, now, n).contains(i) <==> !stale(
                #[trigger] s[i],
                probes[i].worker,
                now,
            )),
    decreases n,
{
    if n > 0 {
        let m = (n - 1) as nat;
        let before = kept_at(s, probes, now, m);
        let after = kept_at(s, probes, now, n);
        lemma_kept_at(s, probes, now, m);
        assert forall|i: int| 0 <= i < n implies (after.contains(i) <==> !stale(
            #[trigger] s[i],
            probes[i].worker,
            now,
        )) by {
            if !stale(s[n - 1], probes[n - 1].worker, now) {
                if i < m {
                    if before.contains(i) {
                        let k = choose|k: int| 0 <= k < before.len() && before[k] == i;
                        assert(after[k] == i);
                    }
                    if after.contains(i) {
                        let k = choose|k: int| 0 <= k < after.len() && after[k] == i;
                        assert(before[k] == i);
                    }
                } else {
                    assert(after[after.len() - 1] == i);
                }
            } else if i == n - 1 {
                if before.contains(i) {
                    let k = choose|k: int| 0 <= k < before.len() && before[k] == i;
                    assert(before[k] < m);
                }
            }
        }
    }
}

/// A prune keeps a service exactly where it is not stale, keeps the order, and
/// leaves a sound registry sound.
pub proof fn law_prune_drops_only_the_stale(
    r: RegistryView,
    probes: Seq<ServiceProbe>,
    now: Timestamp,
)
    requires
        sound(r),
        probes.len() == r.services.len(),
    ensures
        sound(
            RegistryView {
                next_id: r.next_id,
                services: picked(r.services, kept_at(r.services, probes, now, probes.len())),
            },
        ),
        forall|i: int|
            0 <= i < r.services.len() ==> (kept_at(
                r.services,
                probes,
                now,
                probes.len(),
            ).contains(i) <==> !stale(#[trigger] r.services[i], probes[i].worker, now)),
{
    lemma_kept_at(r.services, probes, now, probes.len());
    law_keeping_some_keeps_sound(r, kept_at(r.services, probes, now, probes.len()));
}

/// A reservation within its grace is never stale, whatever the system tells.
pub proof fn law_fresh_reservation_is_never_stale(
    s: ServiceView,
    worker: Identity,
    now: Timestamp,
)
    requires
        s.starting_at(now),
    ensures
        !stale(s, worker, now),
{
}

/// Only a tunnel that a stale service recorded, and that still is a
/// `cloudflared`, is reaped.
pub proof fn law_only_confirmed_orphans_are_reaped(
    s: Seq<ServiceView>,
    probes: Seq<ServiceProbe>,
    now: Timestamp,
    n: nat,
    k: int,
)
    requires
        n <= s.len(),
        n <= probes.len(),
        0 <= k < orphans(s, probes, now, n).len(),
    ensures
        exists|i: int|
            0 <= i < n && stale(#[trigger] s[i], probes[i].worker, now) && s[i].tunnel_pid == Some(
                orphans(s, probes, now, n)[k],
            ) && matches_needle(probes[i].tunnel, "cloudflared"@),
    decreases n,
{
    let before = orphans(s, probes, now, (n - 1) as nat);
    if k < before.len() {
        law_only_confirmed_orphans_are_reaped(s, probes, now, (n - 1) as nat, k);
    } else {
        assert(stale(s[n - 1], probes[n - 1].worker, now));
    }
}

/// The service stands for nothing any more: its recorded worker is not ours, or none was
/// recorded within the grace of sixty seconds. A worker in the foreground is known by
/// its `--foreground`, one in the background as a `run-worker`.
pub open spec fn gone(s: ServiceView, worker: Identity, now: Timestamp) -> bool {
    ||| s.worker_pid != 0 && s.foreground && !matches_needle(worker, "--foreground"@)
    ||| s.worker_pid != 0 && !s.foreground && !matches_needle(worker, "run-worker"@)
    ||| s.worker_pid == 0 && crate::clock::elapsed(now, s.created_at) >= 60_000_000_000
}

/// The services, each with what the system tells of it.
pub open spec fn with_probes(s: Seq<ServiceView>, probes: Seq<ServiceProbe>, n: nat) -> Seq<
    (ServiceView, ServiceProbe),
> {
    Seq::new(n, |i: int| (s[i], probes[i]))
}

/// A prune takes away the services that are gone and keeps all others, in their order;
/// it names each that it takes away, and gives up to be ended each tunnel that one of
/// them has recorded and that still is a `cloudflared`.
pub proof fn law_prune_tells_the_gone_from_the_rest(
    s: Seq<ServiceView>,
    probes: Seq<ServiceProbe>,
    now: Timestamp,
    n: nat,
)
    requires
        n <= s.len(),
        n <= probes.len(),
    ensures
        picked(s, kept_at(s, probes, now, n)) == with_probes(s, probes, n).filter(
            |x: (ServiceView, ServiceProbe)| !gone(x.0, x.1.worker, now),
        ).map_values(|x: (ServiceView, ServiceProbe)| x.0),
        stale_names(s, probes, now, n) == with_probes(s, probes, n).filter(
            |x: (ServiceView, ServiceProbe)| gone(x.0, x.1.worker, now),
        ).map_values(|x: (ServiceView, ServiceProbe)| x.0.name),
        orphans(s, probes, now, n) == with_probes(s, probes, n).filter(
            |x: (ServiceView, ServiceProbe)|
                gone(x.0, x.1.worker, now) && x.0.tunnel_pid is Some && matches_needle(
                    x.1.tunnel,
                    "cloudflared"@,
                ),
        ).map_values(|x: (ServiceView, ServiceProbe)| x.0.tunnel_pid->0),
    decreases n,
{
    reveal(Seq::filter);
    let all = with_probes(s, probes, n);
    let keep = |x: (ServiceView, ServiceProbe)| !gone(x.0, x.1.worker, now);
    let drop = |x: (ServiceView, ServiceProbe)| gone(x.0, x.1.worker, now);
    let reap = |x: (ServiceView, ServiceProbe)|
        gone(x.0, x.1.worker, now) && x.0.tunnel_pid is Some && matches_needle(
            x.1.tunnel,
            "cloudflared"@,
        );
    let entry = |x: (ServiceView, ServiceProbe)| x.0;
    let name = |x: (ServiceView, ServiceProbe)| x.0.name;
    let pid = |x: (ServiceView, ServiceProbe)| x.0.tunnel_pid->0;
    if n > 0 {
        let m = (n - 1) as nat;
        law_prune_tells_the_gone_from_the_rest(s, probes, now, m);
        let before = with_probes(s, probes, m);
        let x = (s[n - 1], probes[n - 1]);
        assert(all.drop_last() =~= before);
        assert(all.last() == x);
        assert(gone(x.0, x.1.worker, now) == stale(x.0, x.1.worker, now));
        let at = kept_at(s, probes, now, m);
        assert(picked(s, at.push(n - 1)) =~= picked(s, at).push(s[n - 1]));
        assert(before.filter(keep).push(x).map_values(entry) =~= before.filter(keep).map_values(
            entry,
        ).push(entry(x)));
        assert(before.filter(drop).push(x).map_values(name) =~= before.filter(drop).map_values(
            name,
        ).push(name(x)));
        assert(before.filter(reap).push(x).map_values(pid) =~= before.filter(reap).map_values(
            pid,
        ).push(pid(x)));
    }
    assert(picked(s, kept_at(s, probes, now, n)) =~= all.filter(keep).map_values(entry));
    assert(stale_names(s, probes, now, n) =~= all.filter(drop).map_values(name));
    assert(orphans(s, probes, now, n) =~= all.filter(reap).map_values(pid));
}

/// The bullets stand one to a line.
proof fn lemma_bullets(names: Seq<Seq<char>>)
    ensures
        bullets(names) == Seq::new(names.len(), |i: int| "  - "@ + names[i] + "\n"@).flatten(),
    decreases names.len(),
{
    let all = Seq::new(names.len(), |i: int| "  - "@ + names[i] + "\n"@);
    if names.len() > 0 {
        let front = names.drop_last();
        lemma_bullets(front);
        let before = Seq::new(front.len(), |i: int| "  - "@ + front[i] + "\n"@);
        assert(all =~= before.push(all[names.len() - 1]));
        before.lemma_flatten_push(all[names.len() - 1]);
    } else {
        assert(all =~= Seq::<Seq<char>>::empty());
    }
}

/// The report says how many services were pruned and names each on a line of its own, in
/// their order; or that there were none.
pub proof fn law_pruned_services_are_named(names: Seq<Seq<char>>)
    ensures
        names.len() == 0 ==> report(names) == "No stale services.\n"@,
        names.len() > 0 ==> report(names) == "Pruned "@ + decimal(names.len())
            + " stale service(s):\n"@ + Seq::new(
            names.len(),
            |i: int| "  - "@ + names[i] + "\n"@,
        ).flatten(),
{
    lemma_bullets(names);
}

} // verus!
