//! The `sanitize` command: which services dangle.
//!
//! Two kinds of services do. A stale one has lost its worker, or never had one
//! recorded. A zombie has a live worker and a published URL, but nothing answers on
//! its port, so its tunnel serves nothing but errors. Entries are judged on a
//! snapshot, before the registry is locked, because probing takes time; under the
//! lock only entries that are still the judged ones are removed. A foreground
//! service is never removed while its worker lives.

use vstd::prelude::*;
use vstd::string::*;

use crate::clock::{elapsed, Timestamp};
use crate::cmd::kill::{group_signalled, signals_group, tunnel_ours};
use crate::cmd::prune::worker_needle;
use crate::model::{service_views, Registry, RegistryView, Service, ServiceKind, ServiceView};
use crate::proc::{matches_needle, pid_alive, pid_matches, terminate_orphan, Identity, Signal};
use crate::registry::{law_removing_keeps_sound, sound};
use crate::text::{
    concat3, decimal, decimal_text, lemma_stands_between, occurs_at, occurs_in, texts,
};

verus! {

/// Pause between the two probes of a port, in milliseconds: long enough for a
/// restarting server to come back.
pub const REPROBE_DELAY_MS: u64 = 750;

/// Why a service with a live worker serves nothing.
#[derive(Clone, Copy, Debug, PartialEq, Eq, Structural)]
pub enum ZombieReason {
    /// The server behind the tunnel is not `ft`'s own, and died.
    UpstreamDead,
    /// The live worker should be serving the port itself, and does not.
    InProcessServerDead,
}

impl ZombieReason {
    /// The reason in words.
    pub open spec fn words(self, port: u16) -> Seq<char> {
        match self {
            ZombieReason::UpstreamDead => "upstream 127.0.0.1:"@ + decimal(port as nat)
                + " is dead — tunnel was 502ing every request"@,
            ZombieReason::InProcessServerDead => "worker is running but 127.0.0.1:"@ + decimal(
                port as nat,
            )
                + " is not answering — an ft-owned origin (static, hook, or drop) serves that port itself, an anomaly"@,
        }
    }

    /// The reason in words.
    pub fn describe(&self, svc: &Service) -> (r: String)
        ensures
            r@ == self.words(svc.port),
    {
        let port = decimal_text(svc.port as u64);
        match self {
            ZombieReason::UpstreamDead => concat3(
                "upstream 127.0.0.1:",
                port.as_str(),
                " is dead — tunnel was 502ing every request",
            ),
            ZombieReason::InProcessServerDead => concat3(
                "worker is running but 127.0.0.1:",
                port.as_str(),
                " is not answering — an ft-owned origin (static, hook, or drop) serves that port itself, an anomaly",
            ),
        }
    }
}

/// What becomes of one service.
#[derive(Clone, Copy, Debug, PartialEq, Eq, Structural)]
pub enum Action {
    /// Healthy, or not yet to be judged.
    Keep,
    /// Its worker is gone, or its reservation was abandoned.
    PruneStale,
    /// Its worker lives and its port is dead.
    RemoveZombie {
        /// Which kind of zombie it is.
        reason: ZombieReason,
    },
    /// It would be a zombie, but runs in the operator's own terminal.
    SkipForeground,
}

/// Whether the recorded worker is alive; nothing where none is recorded.
pub open spec fn liveness(s: ServiceView, worker: Identity) -> Option<bool> {
    if s.worker_pid == 0 {
        None
    } else {
        Some(matches_needle(worker, worker_needle(s.foreground)))
    }
}

/// Whether the recorded worker is alive. A process that merely has its pid is not
/// enough. Nothing is told where none is recorded.
pub fn worker_alive(svc: &Service, worker: &Identity) -> (r: Option<bool>)
    ensures
        r == liveness(svc@, *worker),
{
    if svc.worker_pid == 0 {
        return None;
    }
    Some(
        if svc.foreground {
            pid_matches(worker, "--foreground")
        } else {
            pid_alive(worker)
        },
    )
}

/// The port of a service is probed: it is running.
pub open spec fn probed(s: ServiceView, alive: Option<bool>) -> bool {
    alive == Some(true) && s.public_url is Some
}

/// The port of a service is probed only where the service is running.
pub fn probes_port(svc: &Service, alive: Option<bool>) -> (r: bool)
    ensures
        r == probed(svc@, alive),
{
    match alive {
        Some(true) => svc.public_url.is_some(),
        _ => false,
    }
}

/// What becomes of a service, given whether its worker is alive (nothing: none is
/// recorded), whether its port is dead (nothing: not probed) and the instant `now`.
pub open spec fn planned(
    s: ServiceView,
    worker_alive: Option<bool>,
    port_dead: Option<bool>,
    now: Timestamp,
) -> Action {
    match worker_alive {
        Some(false) => Action::PruneStale,
        None => if s.starting_at(now) {
            Action::Keep
        } else {
            Action::PruneStale
        },
        Some(true) => if s.public_url is None || port_dead != Some(true) {
            Action::Keep
        } else if s.foreground {
            Action::SkipForeground
        } else {
            Action::RemoveZombie {
                reason: if s.kind is Proxy || s.kind is Run {
                    ZombieReason::UpstreamDead
                } else {
                    ZombieReason::InProcessServerDead
                },
            }
        },
    }
}

/// What becomes of one service. Only a port that failed both probes counts as
/// dead, and only under a worker that is alive and has published its URL.
pub fn plan(
    svc: &Service,
    worker_alive: Option<bool>,
    port_dead: Option<bool>,
    now: Timestamp,
) -> (r: Action)
    ensures
        r == planned(svc@, worker_alive, port_dead, now),
{
    match worker_alive {
        Some(false) => return Action::PruneStale,
        None => {
            return if svc.start_in_progress_at(now) {
                Action::Keep
            } else {
                Action::PruneStale
            };
        },
        Some(true) => {},
    }
    if svc.public_url.is_none() {
        return Action::Keep;
    }
    match port_dead {
        Some(true) => {
            if svc.foreground {
                Action::SkipForeground
            } else {
                Action::RemoveZombie {
                    reason: match svc.kind {
                        ServiceKind::Proxy | ServiceKind::Run => ZombieReason::UpstreamDead,
                        ServiceKind::Static | ServiceKind::Hook | ServiceKind::Drop => {
                            ZombieReason::InProcessServerDead
                        },
                    },
                }
            }
        },
        _ => Action::Keep,
    }
}

/// Two probes found nothing.
pub open spec fn double_dead(first_alive: bool, second_alive: bool) -> bool {
    !first_alive && !second_alive
}

/// A port is dead where two probes, one after the other, found nothing: the second
/// is made only after the first has failed.
pub fn dead_after_double_probe(first_alive: bool, second_alive: bool) -> (r: bool)
    ensures
        r == double_dead(first_alive, second_alive),
{
    if first_alive {
        return false;
    }
    !second_alive
}

/// Why a stale service goes.
pub open spec fn stale_words(s: ServiceView) -> Seq<char> {
    if s.worker_pid == 0 {
        "worker pid was never recorded — the start reservation was abandoned"@
    } else {
        "worker no longer running"@
    }
}

/// Why a stale service goes.
pub fn stale_reason(svc: &Service) -> (r: String)
    ensures
        r@ == stale_words(svc@),
{
    if svc.worker_pid == 0 {
        "worker pid was never recorded — the start reservation was abandoned".to_owned()
    } else {
        "worker no longer running".to_owned()
    }
}

/// A service and what becomes of it.
#[derive(Debug)]
pub struct Judgment {
    /// The entry as it was judged.
    pub svc: Service,
    /// What becomes of it.
    pub action: Action,
}

/// The view of a [`Judgment`].
pub ghost struct JudgmentView {
    pub svc: ServiceView,
    pub action: Action,
}

impl View for Judgment {
    type V = JudgmentView;

    open spec fn view(&self) -> JudgmentView {
        JudgmentView { svc: self.svc@, action: self.action }
    }
}

/// The views of a list of judgments.
pub open spec fn judgment_views(v: Seq<Judgment>) -> Seq<JudgmentView> {
    Seq::new(v.len(), |i: int| v[i]@)
}

/// What was found out of one service before it is judged.
#[derive(Debug)]
pub struct Evidence {
    /// Whether its worker is alive; nothing where none is recorded.
    pub worker_alive: Option<bool>,
    /// Whether its port is dead; nothing where it was not probed.
    pub port_dead: Option<bool>,
}

/// The services among the first `n` that are to be removed.
pub open spec fn candidates_of(
    s: Seq<ServiceView>,
    found: Seq<Evidence>,
    now: Timestamp,
    n: nat,
) -> Seq<JudgmentView>
    decreases n,
{
    if n == 0 {
        Seq::empty()
    } else {
        let before = candidates_of(s, found, now, (n - 1) as nat);
        let action = planned(s[n - 1], found[n - 1].worker_alive, found[n - 1].port_dead, now);
        if action is PruneStale || action is RemoveZombie {
            before.push(JudgmentView { svc: s[n - 1], action })
        } else {
            before
        }
    }
}

/// The names of the foreground services among the first `n` that are left alone.
pub open spec fn skipped_of(
    s: Seq<ServiceView>,
    found: Seq<Evidence>,
    now: Timestamp,
    n: nat,
) -> Seq<Seq<char>>
    decreases n,
{
    if n == 0 {
        Seq::empty()
    } else {
        let before = skipped_of(s, found, now, (n - 1) as nat);
        if planned(s[n - 1], found[n - 1].worker_alive, found[n - 1].port_dead, now) is SkipForeground {
            before.push(s[n - 1].name)
        } else {
            before
        }
    }
}

/// Judge every service of a snapshot: the ones to be removed, and the names of the
/// foreground services that are left alone.
pub fn judge(services: &Vec<Service>, found: &Vec<Evidence>, now: Timestamp) -> (r: (
    Vec<Judgment>,
    Vec<String>,
))
    requires
        found@.len() == services@.len(),
    ensures
        judgment_views(r.0@) == candidates_of(
            service_views(services@),
            found@,
            now,
            services@.len(),
        ),
        texts(r.1@) == skipped_of(service_views(services@), found@, now, services@.len()),
{
    let ghost all = service_views(services@);
    let mut candidates: Vec<Judgment> = Vec::new();
    let mut skipped: Vec<String> = Vec::new();
    let mut i: usize = 0;
    assert(judgment_views(candidates@) =~= candidates_of(all, found@, now, 0));
    assert(texts(skipped@) =~= skipped_of(all, found@, now, 0));
    while i < services.len()
        invariant
            all == service_views(services@),
            found@.len() == services@.len(),
            i <= services@.len(),
            judgment_views(candidates@) == candidates_of(all, found@, now, i as nat),
            texts(skipped@) == skipped_of(all, found@, now, i as nat),
        decreases services@.len() - i,
    {
        let svc = &services[i];
        let ghost c_before = candidates@;
        let ghost s_before = skipped@;
        assert(all[i as int] == svc@);
        let action = plan(svc, found[i].worker_alive, found[i].port_dead, now);
        match action {
            Action::Keep => {},
            Action::SkipForeground => {
                skipped.push(svc.name.clone());
                assert(texts(skipped@) =~= texts(s_before).push(svc@.name));
            },
            Action::PruneStale | Action::RemoveZombie { .. } => {
                candidates.push(Judgment { svc: svc.clone(), action });
                assert(judgment_views(candidates@) =~= judgment_views(c_before).push(
                    JudgmentView { svc: svc@, action },
                ));
            },
        }
        i = i + 1;
    }
    (candidates, skipped)
}

/// The first position from `i` on that holds the judged entry: the same id with
/// the same worker pid; or the length.
pub open spec fn judged_from(s: Seq<ServiceView>, j: ServiceView, i: int) -> int
    decreases s.len() - i,
{
    if i >= s.len() {
        s.len() as int
    } else if s[i].id == j.id && s[i].worker_pid == j.worker_pid {
        i
    } else {
        judged_from(s, j, i + 1)
    }
}

/// What [`judged_from`] says of every position that it passes.
pub proof fn lemma_judged_from(s: Seq<ServiceView>, j: ServiceView, i: int)
    requires
        0 <= i <= s.len(),
    ensures
        i <= judged_from(s, j, i) <= s.len(),
        judged_from(s, j, i) < s.len() ==> s[judged_from(s, j, i)].id == j.id && s[judged_from(
            s,
            j,
            i,
        )].worker_pid == j.worker_pid,
    decreases s.len() - i,
{
    if i < s.len() && !(s[i].id == j.id && s[i].worker_pid == j.worker_pid) {
        lemma_judged_from(s, j, i + 1);
    }
}

/// What is left of the services, and what was removed of them, once the first `n`
/// candidates were looked for.
pub open spec fn applied(s: Seq<ServiceView>, cands: Seq<JudgmentView>, n: nat) -> (
    Seq<ServiceView>,
    Seq<JudgmentView>,
)
    decreases n,
{
    if n == 0 {
        (s, Seq::empty())
    } else {
        let (left, gone) = applied(s, cands, (n - 1) as nat);
        let c = cands[n - 1];
        let p = judged_from(left, c.svc, 0);
        if p < left.len() {
            (left.remove(p), gone.push(JudgmentView { svc: left[p], action: c.action }))
        } else {
            (left, gone)
        }
    }
}

/// Remove every candidate whose entry is still the one that was judged: the same
/// id with the same worker pid. Whatever another process has changed meanwhile
/// stays as it is.
pub fn apply(reg: &mut Registry, candidates: &Vec<Judgment>) -> (r: Vec<Judgment>)
    ensures
        final(reg)@ == (RegistryView {
            next_id: old(reg)@.next_id,
            services: applied(
                old(reg)@.services,
                judgment_views(candidates@),
                candidates@.len(),
            ).0,
        }),
        judgment_views(r@) == applied(
            old(reg)@.services,
            judgment_views(candidates@),
            candidates@.len(),
        ).1,
{
    let ghost cands = judgment_views(candidates@);
    let mut removed: Vec<Judgment> = Vec::new();
    let mut i: usize = 0;
    assert(judgment_views(removed@) =~= Seq::<JudgmentView>::empty());
    while i < candidates.len()
        invariant
            cands == judgment_views(candidates@),
            i <= candidates@.len(),
            reg.next_id == old(reg).next_id,
            service_views(reg.services@) == applied(old(reg)@.services, cands, i as nat).0,
            judgment_views(removed@) == applied(old(reg)@.services, cands, i as nat).1,
        decreases candidates@.len() - i,
    {
        let c = &candidates[i];
        let ghost left = service_views(reg.services@);
        let ghost before = reg.services@;
        let ghost gone = removed@;
        assert(cands[i as int] == c@);
        let mut p: usize = 0;
        while p < reg.services.len() && !(reg.services[p].id == c.svc.id
            && reg.services[p].worker_pid == c.svc.worker_pid)
            invariant
                left == service_views(reg.services@),
                p <= reg.services@.len(),
                judged_from(left, c.svc@, 0) == judged_from(left, c.svc@, p as int),
            decreases reg.services@.len() - p,
        {
            p = p + 1;
        }
        if p < reg.services.len() {
            let svc = reg.services.remove(p);
            assert(service_views(reg.services@) =~= left.remove(p as int));
            removed.push(Judgment { svc, action: c.action });
            assert(judgment_views(removed@) =~= judgment_views(gone).push(
                JudgmentView { svc: left[p as int], action: c.action },
            ));
        }
        i = i + 1;
    }
    removed
}

/// Why a removed service went; nothing for one that is kept or left alone.
pub open spec fn removal_words(j: JudgmentView) -> Option<Seq<char>> {
    match j.action {
        Action::PruneStale => Some(stale_words(j.svc)),
        Action::RemoveZombie { reason } => Some(reason.words(j.svc.port)),
        _ => None,
    }
}

/// Why a removed service went.
pub fn removal_reason(j: &Judgment) -> (r: Option<String>)
    ensures
        match r {
            Some(s) => removal_words(j@) == Some(s@),
            None => removal_words(j@) is None,
        },
{
    match j.action {
        Action::PruneStale => Some(stale_reason(&j.svc)),
        Action::RemoveZombie { reason } => Some(reason.describe(&j.svc)),
        _ => None,
    }
}

/// What is done about the processes of a removed service.
#[derive(Clone, Copy, Debug, PartialEq, Eq, Structural)]
pub enum Effect {
    /// Nothing of it is left that is known to be ours.
    Nothing,
    /// Its tunnel has outlived its worker, and is sent the signal.
    Reap(Signal),
    /// The group of its worker is ended.
    EndGroup(u32),
}

/// What is done about the processes of a removed service.
pub open spec fn effect_of(j: JudgmentView, worker: Identity, tunnel: Identity) -> Effect {
    match j.action {
        Action::PruneStale => if tunnel_ours(j.svc, tunnel) {
            Effect::Reap(Signal::Term(j.svc.tunnel_pid->0))
        } else {
            Effect::Nothing
        },
        Action::RemoveZombie { .. } => match group_signalled(j.svc, worker, tunnel) {
            Some(pgid) => Effect::EndGroup(pgid),
            None => Effect::Nothing,
        },
        _ => Effect::Nothing,
    }
}

/// What is done about the processes of a removed service, given what is known of
/// its worker and its tunnel by now.
pub fn removal_effect(j: &Judgment, worker: &Identity, tunnel: &Identity) -> (r: Effect)
    ensures
        r == effect_of(j@, *worker, *tunnel),
{
    match j.action {
        Action::PruneStale => {
            if let Some(pid) = j.svc.tunnel_pid {
                if let Some(signal) = terminate_orphan(pid, tunnel) {
                    return Effect::Reap(signal);
                }
            }
            Effect::Nothing
        },
        Action::RemoveZombie { .. } => match signals_group(&j.svc, worker, tunnel) {
            Some(pgid) => Effect::EndGroup(pgid),
            None => Effect::Nothing,
        },
        _ => Effect::Nothing,
    }
}

// ---------------------------------------------------------------------------
// Laws
// ---------------------------------------------------------------------------

/// A foreground service whose worker lives is never removed.
pub proof fn law_live_foreground_is_never_removed(
    s: ServiceView,
    port_dead: Option<bool>,
    now: Timestamp,
)
    requires
        s.foreground,
    ensures
        planned(s, Some(true), port_dead, now) is Keep || planned(
            s,
            Some(true),
            port_dead,
            now,
        ) is SkipForeground,
        forall|alive: Option<bool>| !(#[trigger] planned(s, alive, port_dead, now) is RemoveZombie),
{
}

/// A reservation within its grace is kept, whatever was found out of its port.
pub proof fn law_fresh_reservation_is_kept(
    s: ServiceView,
    worker: Identity,
    port_dead: Option<bool>,
    now: Timestamp,
)
    requires
        s.starting_at(now),
    ensures
        planned(s, liveness(s, worker), port_dead, now) is Keep,
{
}

/// A zombie is removed only after both probes failed, under a live worker with a
/// published URL.
pub proof fn law_zombies_are_confirmed(
    s: ServiceView,
    alive: Option<bool>,
    port_dead: Option<bool>,
    now: Timestamp,
)
    requires
        planned(s, alive, port_dead, now) is RemoveZombie,
    ensures
        alive == Some(true),
        port_dead == Some(true),
        s.public_url is Some,
        !s.foreground,
{
}

/// Every stale service that `prune` would drop, `sanitize` drops too, and the
/// other way round.
pub proof fn law_sanitize_agrees_with_prune(
    s: ServiceView,
    worker: Identity,
    port_dead: Option<bool>,
    now: Timestamp,
)
    ensures
        planned(s, liveness(s, worker), port_dead, now) is PruneStale <==> crate::cmd::prune::stale(
            s,
            worker,
            now,
        ),
{
}

/// The group of a foreground service is never ended: it is that of the operator's
/// shell.
pub proof fn law_foreground_groups_are_left_alone(
    s: ServiceView,
    alive: Option<bool>,
    port_dead: Option<bool>,
    now: Timestamp,
    worker: Identity,
    tunnel: Identity,
)
    requires
        s.foreground,
    ensures
        !(effect_of(
            JudgmentView { svc: s, action: planned(s, alive, port_dead, now) },
            worker,
            tunnel,
        ) is EndGroup),
{
}

/// An entry that no candidate matches in id and worker pid survives.
pub proof fn law_unjudged_entries_survive(
    s: Seq<ServiceView>,
    cands: Seq<JudgmentView>,
    n: nat,
    e: ServiceView,
)
    requires
        n <= cands.len(),
        s.contains(e),
        forall|k: int|
            0 <= k < cands.len() ==> !((#[trigger] cands[k]).svc.id == e.id
                && cands[k].svc.worker_pid == e.worker_pid),
    ensures
        applied(s, cands, n).0.contains(e),
    decreases n,
{
    if n > 0 {
        law_unjudged_entries_survive(s, cands, (n - 1) as nat, e);
        let left = applied(s, cands, (n - 1) as nat).0;
        let c = cands[n - 1];
        lemma_judged_from(left, c.svc, 0);
        let p = judged_from(left, c.svc, 0);
        if p < left.len() {
            let i = choose|i: int| 0 <= i < left.len() && left[i] == e;
            assert(i != p);
            let after = left.remove(p);
            if i < p {
                assert(after[i] == e);
            } else {
                assert(after[i - 1] == e);
            }
        }
    }
}

/// Whatever is removed has the id and the worker pid of a candidate.
pub proof fn law_only_judged_entries_go(
    s: Seq<ServiceView>,
    cands: Seq<JudgmentView>,
    n: nat,
    k: int,
)
    requires
        n <= cands.len(),
        0 <= k < applied(s, cands, n).1.len(),
    ensures
        exists|i: int|
            0 <= i < n && (#[trigger] cands[i]).svc.id == applied(s, cands, n).1[k].svc.id
                && cands[i].svc.worker_pid == applied(s, cands, n).1[k].svc.worker_pid
                && cands[i].action == applied(s, cands, n).1[k].action,
    decreases n,
{
    let (left, gone) = applied(s, cands, (n - 1) as nat);
    let c = cands[n - 1];
    lemma_judged_from(left, c.svc, 0);
    if k < gone.len() {
        law_only_judged_entries_go(s, cands, (n - 1) as nat, k);
    }
}

/// A sound registry stays sound.
pub proof fn law_sanitizing_keeps_sound(r: RegistryView, cands: Seq<JudgmentView>, n: nat)
    requires
        sound(r),
        n <= cands.len(),
    ensures
        sound(RegistryView { next_id: r.next_id, services: applied(r.services, cands, n).0 }),
    decreases n,
{
    if n > 0 {
        law_sanitizing_keeps_sound(r, cands, (n - 1) as nat);
        let left = applied(r.services, cands, (n - 1) as nat).0;
        lemma_judged_from(left, cands[n - 1].svc, 0);
        let p = judged_from(left, cands[n - 1].svc, 0);
        if p < left.len() {
            law_removing_keeps_sound(RegistryView { next_id: r.next_id, services: left }, p);
        }
    }
}

/// A service whose worker is gone goes, whatever else is known. One without a worker
/// goes exactly once its grace is over. One with a live worker goes, or is left to
/// its operator, exactly where it has published its URL and its port is known to be
/// dead; the two are told apart by where it runs.
pub proof fn law_services_are_judged_by_what_was_found(
    s: ServiceView,
    port_dead: Option<bool>,
    now: Timestamp,
)
    ensures
        planned(s, Some(false), port_dead, now) is PruneStale,
        s.worker_pid == 0 && elapsed(now, s.created_at) < 60_000_000_000 ==> planned(
            s,
            None,
            port_dead,
            now,
        ) is Keep,
        s.worker_pid == 0 && elapsed(now, s.created_at) >= 60_000_000_000 ==> planned(
            s,
            None,
            port_dead,
            now,
        ) is PruneStale,
        planned(s, Some(true), port_dead, now) is RemoveZombie <==> s.public_url is Some
            && port_dead == Some(true) && !s.foreground,
        planned(s, Some(true), port_dead, now) is SkipForeground <==> s.public_url is Some
            && port_dead == Some(true) && s.foreground,
        !(planned(s, Some(true), port_dead, now) is PruneStale),
{
}

/// The upstream of a proxied port or of a command is blamed where it is not ours;
/// an origin of our own is blamed otherwise.
pub proof fn law_zombies_are_told_apart_by_kind(s: ServiceView, now: Timestamp)
    requires
        s.public_url is Some,
        !s.foreground,
    ensures
        (s.kind is Proxy || s.kind is Run) ==> planned(s, Some(true), Some(true), now) == (
        Action::RemoveZombie { reason: ZombieReason::UpstreamDead }),
        (s.kind is Static || s.kind is Hook || s.kind is Drop) ==> planned(
            s,
            Some(true),
            Some(true),
            now,
        ) == (Action::RemoveZombie { reason: ZombieReason::InProcessServerDead }),
{
}

/// The worker of a foreground service is looked for by the flag it was started with,
/// that of a background service by its subcommand; where none is recorded nothing is
/// claimed.
pub proof fn law_liveness_is_that_of_the_recorded_worker(s: ServiceView, worker: Identity)
    ensures
        liveness(s, worker) is None <==> s.worker_pid == 0,
        s.worker_pid != 0 && s.foreground ==> liveness(s, worker) == Some(
            matches_needle(worker, "--foreground"@),
        ),
        s.worker_pid != 0 && !s.foreground ==> liveness(s, worker) == Some(
            matches_needle(worker, "run-worker"@),
        ),
{
}

/// Only a running service is probed, and one live answer of two is enough.
pub proof fn law_one_answer_is_enough(s: ServiceView, alive: Option<bool>, first: bool, second: bool)
    ensures
        probed(s, alive) ==> s.public_url is Some,
        s.public_url is Some ==> probed(s, Some(true)),
        !probed(s, Some(false)) && !probed(s, None),
        first || second ==> !double_dead(first, second),
        double_dead(false, false),
{
}

/// The reason names the port, and different reasons read differently.
pub proof fn law_reasons_name_the_port(reason: ZombieReason, port: u16)
    ensures
        occurs_in(reason.words(port), "127.0.0.1:"@ + decimal(port as nat)),
        ZombieReason::UpstreamDead.words(port) != ZombieReason::InProcessServerDead.words(port),
{
    reveal_strlit("upstream 127.0.0.1:");
    reveal_strlit("worker is running but 127.0.0.1:");
    reveal_strlit("upstream ");
    reveal_strlit("worker is running but ");
    reveal_strlit("127.0.0.1:");
    let d = decimal(port as nat);
    let host = "127.0.0.1:"@ + d;
    match reason {
        ZombieReason::UpstreamDead => {
            let after = " is dead — tunnel was 502ing every request"@;
            lemma_stands_between("upstream "@, host, after);
            assert(reason.words(port) =~= "upstream "@ + host + after);
        },
        ZombieReason::InProcessServerDead => {
            let after =
                " is not answering — an ft-owned origin (static, hook, or drop) serves that port itself, an anomaly"@;
            lemma_stands_between("worker is running but "@, host, after);
            assert(reason.words(port) =~= "worker is running but "@ + host + after);
        },
    }
    assert(ZombieReason::UpstreamDead.words(port)[0] == 'u');
    assert(ZombieReason::InProcessServerDead.words(port)[0] == 'w');
}

/// A service whose start was abandoned and one whose worker ended are told apart,
/// and every removal has its reason.
pub proof fn law_every_removal_has_its_reason(j: JudgmentView, other: ServiceView)
    ensures
        removal_words(j) is Some <==> j.action is PruneStale || j.action is RemoveZombie,
        j.action is PruneStale ==> removal_words(j) == Some(stale_words(j.svc)),
        j.action matches Action::RemoveZombie { reason } ==> removal_words(j) == Some(
            reason.words(j.svc.port),
        ),
        j.svc.worker_pid == 0 && other.worker_pid != 0 ==> stale_words(j.svc) != stale_words(other),
        j.svc.worker_pid == 0 ==> occurs_in(stale_words(j.svc), "abandoned"@),
        other.worker_pid != 0 ==> occurs_in(stale_words(other), "no longer running"@),
{
    reveal_strlit("worker pid was never recorded — the start reservation was abandoned");
    reveal_strlit("worker no longer running");
    reveal_strlit("abandoned");
    reveal_strlit("no longer running");
    let a = "worker pid was never recorded — the start reservation was abandoned"@;
    let b = "worker no longer running"@;
    assert(a[7] != b[7]);
    assert(a.subrange(a.len() - 9, a.len() as int) =~= "abandoned"@);
    assert(occurs_at(a, "abandoned"@, a.len() - 9));
    assert(b.subrange(7, 24) =~= "no longer running"@);
    assert(occurs_at(b, "no longer running"@, 7));
}

/// Every service that is to go is among the candidates, as it was judged, and every
/// one that is left to its operator is named.
pub proof fn law_judged_services_are_listed(
    s: Seq<ServiceView>,
    found: Seq<Evidence>,
    now: Timestamp,
    n: nat,
    i: int,
)
    requires
        n <= s.len(),
        0 <= i < n,
    ensures
        ({
            let action = planned(s[i], found[i].worker_alive, found[i].port_dead, now);
            &&& (action is PruneStale || action is RemoveZombie) ==> candidates_of(
                s,
                found,
                now,
                n,
            ).contains(JudgmentView { svc: s[i], action })
            &&& action is SkipForeground ==> skipped_of(s, found, now, n).contains(s[i].name)
        }),
    decreases n,
{
    let action = planned(s[i], found[i].worker_alive, found[i].port_dead, now);
    let before = candidates_of(s, found, now, (n - 1) as nat);
    let skipped = skipped_of(s, found, now, (n - 1) as nat);
    let all = candidates_of(s, found, now, n);
    let named = skipped_of(s, found, now, n);
    if i < n - 1 {
        law_judged_services_are_listed(s, found, now, (n - 1) as nat, i);
        if action is PruneStale || action is RemoveZombie {
            let k = choose|k: int|
                0 <= k < before.len() && before[k] == (JudgmentView { svc: s[i], action });
            assert(all[k] == before[k]);
        }
        if action is SkipForeground {
            let k = choose|k: int| 0 <= k < skipped.len() && skipped[k] == s[i].name;
            assert(named[k] == skipped[k]);
        }
    } else {
        if action is PruneStale || action is RemoveZombie {
            assert(all[before.len() as int] == (JudgmentView { svc: s[i], action }));
        }
        if action is SkipForeground {
            assert(named[skipped.len() as int] == s[i].name);
        }
    }
}

/// Whatever is listed was judged so; together there are no more lines than services.
pub proof fn law_listed_services_were_judged(
    s: Seq<ServiceView>,
    found: Seq<Evidence>,
    now: Timestamp,
    n: nat,
)
    requires
        n <= s.len(),
    ensures
        candidates_of(s, found, now, n).len() + skipped_of(s, found, now, n).len() <= n,
        forall|k: int|
            0 <= k < candidates_of(s, found, now, n).len() ==> s.contains(
                (#[trigger] candidates_of(s, found, now, n)[k]).svc,
            ) && (candidates_of(s, found, now, n)[k].action is PruneStale || candidates_of(
                s,
                found,
                now,
                n,
            )[k].action is RemoveZombie),
    decreases n,
{
    if n > 0 {
        law_listed_services_were_judged(s, found, now, (n - 1) as nat);
        assert(s.contains(s[n - 1]));
    }
}

/// Whatever is named as left to its operator runs in the foreground, under that name.
pub proof fn law_named_services_run_in_the_foreground(
    s: Seq<ServiceView>,
    found: Seq<Evidence>,
    now: Timestamp,
    n: nat,
    k: int,
)
    requires
        n <= s.len(),
        0 <= k < skipped_of(s, found, now, n).len(),
    ensures
        exists|i: int|
            0 <= i < n && (#[trigger] s[i]).foreground && s[i].name == skipped_of(
                s,
                found,
                now,
                n,
            )[k],
    decreases n,
{
    let before = skipped_of(s, found, now, (n - 1) as nat);
    if k < before.len() {
        law_named_services_run_in_the_foreground(s, found, now, (n - 1) as nat, k);
    } else {
        assert(s[n - 1].foreground);
    }
}

/// Where no two services share an id, a candidate whose entry is unchanged goes and
/// is reported as it stood; nothing else changes, and the order stays.
pub proof fn law_an_unchanged_candidate_goes(s: Seq<ServiceView>, c: JudgmentView, p: int)
    requires
        0 <= p < s.len(),
        s[p].id == c.svc.id,
        s[p].worker_pid == c.svc.worker_pid,
        forall|i: int, j: int| 0 <= i < j < s.len() ==> s[i].id != s[j].id,
    ensures
        applied(s, seq![c], 1).0 == s.subrange(0, p) + s.subrange(p + 1, s.len() as int),
        applied(s, seq![c], 1).1 == seq![JudgmentView { svc: s[p], action: c.action }],
{
    reveal_with_fuel(applied, 2);
    lemma_judged_from(s, c.svc, 0);
    lemma_judged_passes(s, c.svc, 0, p);
    assert(s.remove(p) =~= s.subrange(0, p) + s.subrange(p + 1, s.len() as int));
    assert(applied(s, seq![c], 1).1 =~= seq![JudgmentView { svc: s[p], action: c.action }]);
}

/// [`judged_from`] passes no position that holds the judged entry.
proof fn lemma_judged_passes(s: Seq<ServiceView>, j: ServiceView, i: int, p: int)
    requires
        0 <= i <= p < s.len(),
        s[p].id == j.id,
        s[p].worker_pid == j.worker_pid,
    ensures
        judged_from(s, j, i) <= p,
    decreases p - i,
{
    if i < p && !(s[i].id == j.id && s[i].worker_pid == j.worker_pid) {
        lemma_judged_passes(s, j, i + 1, p);
    }
}

/// An entry that was started anew since it was judged stays, with all others.
pub proof fn law_restarted_entries_stay(s: Seq<ServiceView>, c: JudgmentView)
    requires
        forall|i: int|
            0 <= i < s.len() && (#[trigger] s[i]).id == c.svc.id ==> s[i].worker_pid
                != c.svc.worker_pid,
    ensures
        applied(s, seq![c], 1) == (s, Seq::<JudgmentView>::empty()),
{
    reveal_with_fuel(applied, 2);
    lemma_judged_from(s, c.svc, 0);
}

/// The tunnel that outlived a stale worker is asked to end, and only while it still is
/// a tunnel of ours; the group of a zombie's worker is ended while one of its members
/// is known to be ours; nothing is done about anything else.
pub proof fn law_removal_ends_what_is_ours(
    j: JudgmentView,
    worker: Identity,
    tunnel: Identity,
    pid: u32,
)
    ensures
        j.action is PruneStale && j.svc.tunnel_pid == Some(pid) && matches_needle(
            tunnel,
            "cloudflared"@,
        ) ==> effect_of(j, worker, tunnel) == Effect::Reap(Signal::Term(pid)),
        j.action is RemoveZombie && matches_needle(worker, "run-worker"@) ==> effect_of(
            j,
            worker,
            tunnel,
        ) == Effect::EndGroup(j.svc.worker_pid),
        j.action is RemoveZombie && j.svc.tunnel_pid == Some(pid) && matches_needle(
            tunnel,
            "cloudflared"@,
        ) ==> effect_of(j, worker, tunnel) == Effect::EndGroup(j.svc.worker_pid),
        !matches_needle(tunnel, "cloudflared"@) && !matches_needle(worker, "run-worker"@)
            ==> effect_of(j, worker, tunnel) is Nothing,
        j.svc.tunnel_pid is None && !matches_needle(worker, "run-worker"@) ==> effect_of(
            j,
            worker,
            tunnel,
        ) is Nothing,
        !(j.action is PruneStale) && !(j.action is RemoveZombie) ==> effect_of(j, worker, tunnel)
            is Nothing,
{
}

/// The view of a list of judgments has every judgment, in its place.
pub proof fn law_judgments_are_viewed_one_by_one(v: Seq<Judgment>, i: int)
    requires
        0 <= i < v.len(),
    ensures
        judgment_views(v).len() == v.len(),
        judgment_views(v)[i].svc == v[i].svc@,
        judgment_views(v)[i].action == v[i].action,
{
}

} // verus!
