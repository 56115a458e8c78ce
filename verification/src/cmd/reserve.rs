//! Reserving an entry for a service that is about to start, and what is recorded
//! on it afterwards. All of it happens under the lock of the registry.

use vstd::prelude::*;
use vstd::string::*;

use crate::clock::Timestamp;
use crate::model::{
    service_views, Registry, RegistryView, Service, ServiceKind, ServiceView, StaticFlags,
    StaticFlagsView,
};
use crate::name::{candidate, first_free, name_fault, unique_name, validate_name};
use crate::registry::{
    id_after, id_from, law_adding_keeps_sound, law_allocated_id_is_fresh, lemma_id_from,
    lemma_numeral_is_the_id, name_among, sound, sound_entry,
};
use crate::state::{service_dir_of, StateDir, StateView};
use crate::text::{concat2, concat3, copy_opt, decimal, decimal_text, opt_text};

verus! {

/// What a start asks of the registry.
#[derive(Debug)]
pub struct Reservation {
    /// How the service sources its origin.
    pub kind: ServiceKind,
    /// The directory of the service, where it has one.
    pub dir: Option<String>,
    /// What the name is made from where none is asked for.
    pub base: String,
    /// The local port of the origin.
    pub port: u16,
    /// The name that is asked for.
    pub name: Option<String>,
    /// The pid of the worker, or 0 where it is still to be spawned.
    pub worker_pid: u32,
    /// The service runs inside this process.
    pub foreground: bool,
    /// The flags of a static origin.
    pub static_flags: StaticFlags,
}

/// The view of a [`Reservation`].
pub ghost struct ReservationView {
    pub kind: ServiceKind,
    pub dir: Option<Seq<char>>,
    pub base: Seq<char>,
    pub port: u16,
    pub name: Option<Seq<char>>,
    pub worker_pid: u32,
    pub foreground: bool,
    pub static_flags: StaticFlagsView,
}

impl View for Reservation {
    type V = ReservationView;

    open spec fn view(&self) -> ReservationView {
        ReservationView {
            kind: self.kind,
            dir: opt_text(self.dir),
            base: self.base@,
            port: self.port,
            name: opt_text(self.name),
            worker_pid: self.worker_pid,
            foreground: self.foreground,
            static_flags: self.static_flags@,
        }
    }
}

/// Why the name that is asked for cannot be had.
pub open spec fn asked_fault(s: Seq<ServiceView>, name: Option<Seq<char>>) -> Option<Seq<char>> {
    match name {
        None => None,
        Some(n) => match name_fault(n) {
            Some(e) => Some(e),
            None => if name_among(s, s.len() as int, n) {
                Some("a service named '"@ + n + "' already exists"@)
            } else {
                None
            },
        },
    }
}

/// `chosen` is the name that a start gets: the one that is asked for, else the
/// first free one made from `base`.
pub open spec fn chosen_name(
    s: Seq<ServiceView>,
    name: Option<Seq<char>>,
    base: Seq<char>,
    chosen: Seq<char>,
) -> bool {
    match name {
        Some(n) => chosen == n,
        None => exists|k: nat| first_free(s, base, k) && chosen == #[trigger] candidate(base, k),
    }
}

/// The name that the start gets.
pub fn reserved_name(reg: &Registry, request: &Reservation) -> (r: Result<String, String>)
    ensures
        match r {
            Ok(n) => asked_fault(reg@.services, request@.name) is None && chosen_name(
                reg@.services,
                request@.name,
                request@.base,
                n@,
            ),
            Err(e) => asked_fault(reg@.services, request@.name) == Some(e@),
        },
{
    match &request.name {
        Some(n) => {
            validate_name(n.as_str())?;
            if reg.name_exists(n.as_str()) {
                return Err(concat3("a service named '", n.as_str(), "' already exists"));
            }
            Ok(n.clone())
        },
        None => Ok(unique_name(reg, request.base.as_str())),
    }
}

/// The URL of the origin on the port.
pub open spec fn local_url(port: u16) -> Seq<char> {
    "http://127.0.0.1:"@ + decimal(port as nat)
}

/// The URL of the origin on the port.
pub fn local_url_text(port: u16) -> (r: String)
    ensures
        r@ == local_url(port),
{
    concat2("http://127.0.0.1:", decimal_text(port as u64).as_str())
}

/// The id that the registry hands out next.
pub open spec fn next_id(r: RegistryView) -> u64 {
    if r.next_id == 0 {
        1
    } else {
        r.next_id
    }
}

/// The entry that is reserved.
pub open spec fn reserved_entry(
    id: u64,
    name: Seq<char>,
    q: ReservationView,
    state: StateView,
    now: Timestamp,
) -> ServiceView {
    ServiceView {
        id,
        name,
        kind: q.kind,
        dir: q.dir,
        port: q.port,
        local_url: local_url(q.port),
        public_url: None,
        worker_pid: q.worker_pid,
        tunnel_pid: None,
        static_flags: q.static_flags,
        command_pid: None,
        created_at: now,
        state_dir: service_dir_of(state, name),
        foreground: q.foreground,
    }
}

/// The registry once the entry is reserved.
pub open spec fn reserved(
    r: RegistryView,
    name: Seq<char>,
    q: ReservationView,
    state: StateView,
    now: Timestamp,
) -> RegistryView {
    RegistryView {
        next_id: id_after(r.next_id),
        services: r.services.push(reserved_entry(next_id(r), name, q, state, now)),
    }
}

/// The reservation is granted: the name is free and fits, and the entry is added.
pub open spec fn granted(
    before: RegistryView,
    after: RegistryView,
    request: ReservationView,
    state: StateView,
    now: Timestamp,
    id: u64,
    name: Seq<char>,
) -> bool {
    &&& asked_fault(before.services, request.name) is None
    &&& chosen_name(before.services, request.name, request.base, name)
    &&& id == next_id(before)
    &&& after == reserved(before, name, request, state, now)
}

/// Reserve a name, an id and an entry for the start, given whether the directory
/// of the service (that of its [`reserved_name`]) could be created. Without a name
/// or a directory nothing is reserved, and the error is told.
pub fn reserve_entry(
    reg: &mut Registry,
    request: &Reservation,
    state: &StateDir,
    created: bool,
    now: Timestamp,
) -> (r: Result<(u64, String), String>)
    ensures
        match r {
            Ok((id, name)) => {
                &&& created
                &&& granted(old(reg)@, final(reg)@, request@, state@, now, id, name@)
            },
            Err(e) => {
                &&& *final(reg) == *old(reg)
                &&& match asked_fault(old(reg)@.services, request@.name) {
                    Some(f) => e@ == f,
                    None => !created && exists|n: Seq<char>| #[trigger]
                        chosen_name(old(reg)@.services, request@.name, request@.base, n) && e@
                            == "creating service directory for '"@ + n + "'"@,
                }
            },
        },
{
    let name = reserved_name(reg, request)?;
    let service_dir = state.ensure_service_dir(name.as_str(), created)?;
    let ghost before = reg.services@;
    let id: u64 = reg.allocate_id();
    let entry = Service {
        id,
        name: name.clone(),
        kind: request.kind,
        dir: copy_opt(&request.dir),
        port: request.port,
        local_url: local_url_text(request.port),
        public_url: None,
        worker_pid: request.worker_pid,
        tunnel_pid: None,
        static_flags: request.static_flags.clone(),
        command_pid: None,
        created_at: now,
        state_dir: service_dir,
        foreground: request.foreground,
    };
    let ghost added = entry;
    reg.services.push(entry);
    assert(added@ == reserved_entry(id, name@, request@, state@, now));
    assert(service_views(reg.services@) =~= service_views(before).push(added@));
    Ok((id, name))
}

/// The registry once the first entry with the id is released.
pub open spec fn released(r: RegistryView, id: u64) -> RegistryView {
    let i = id_from(r.services, id, 0);
    RegistryView {
        next_id: r.next_id,
        services: if i < r.services.len() {
            r.services.remove(i)
        } else {
            r.services
        },
    }
}

/// Release a reserved entry.
pub fn remove_reservation(reg: &mut Registry, id: u64)
    ensures
        final(reg)@ == released(old(reg)@, id),
{
    let ghost before = reg.services@;
    let ghost i = id_from(reg@.services, id, 0);
    proof {
        lemma_id_from(reg@.services, id, 0);
    }
    reg.remove(id);
    proof {
        if i < before.len() {
            assert(service_views(before.remove(i)) =~= service_views(before).remove(i));
        }
    }
}

/// The registry with `e` in place of its entry with the id, where it has one.
pub open spec fn replaced(r: RegistryView, id: u64, e: ServiceView) -> RegistryView {
    let i = id_from(r.services, id, 0);
    RegistryView {
        next_id: r.next_id,
        services: if i < r.services.len() {
            r.services.update(i, e)
        } else {
            r.services
        },
    }
}

/// The entry with the id.
pub open spec fn entry_of(r: RegistryView, id: u64) -> ServiceView {
    r.services[id_from(r.services, id, 0)]
}

/// The entry once the pid of its worker is recorded.
pub open spec fn with_worker(e: ServiceView, pid: u32) -> ServiceView {
    ServiceView { worker_pid: pid, ..e }
}

/// The entry once the pid of its command is recorded.
pub open spec fn with_command(e: ServiceView, pid: u32) -> ServiceView {
    ServiceView { command_pid: Some(pid), ..e }
}

/// Record the pid of the worker on the entry with the id, which a name that is
/// used again cannot confuse.
pub fn record_worker_pid(reg: &mut Registry, id: u64, worker_pid: u32)
    ensures
        final(reg)@ == replaced(old(reg)@, id, with_worker(entry_of(old(reg)@, id), worker_pid)),
{
    let ghost before = reg.services@;
    let ghost i = id_from(reg@.services, id, 0);
    proof {
        lemma_numeral_is_the_id(reg@.services, id, 0);
    }
    match reg.find_mut(decimal_text(id).as_str()) {
        Some(svc) => {
            svc.worker_pid = worker_pid;
        },
        None => {},
    }
    proof {
        if i < before.len() {
            assert(service_views(reg.services@) =~= service_views(before).update(
                i,
                reg.services@[i]@,
            ));
        }
    }
}

/// Record the pid of the operator's command on the entry with the id.
pub fn record_command_pid(reg: &mut Registry, id: u64, pid: u32)
    ensures
        final(reg)@ == replaced(old(reg)@, id, with_command(entry_of(old(reg)@, id), pid)),
{
    let ghost before = reg.services@;
    let ghost i = id_from(reg@.services, id, 0);
    proof {
        lemma_numeral_is_the_id(reg@.services, id, 0);
    }
    match reg.find_mut(decimal_text(id).as_str()) {
        Some(svc) => {
            svc.command_pid = Some(pid);
        },
        None => {},
    }
    proof {
        if i < before.len() {
            assert(service_views(reg.services@) =~= service_views(before).update(
                i,
                reg.services@[i]@,
            ));
        }
    }
}

/// The entry once its URL is published: a pid of `cloudflared` that is recorded
/// already stays.
pub open spec fn published(e: ServiceView, url: Seq<char>, tunnel_pid: Option<u32>) -> ServiceView {
    ServiceView {
        public_url: Some(url),
        tunnel_pid: if e.tunnel_pid is None {
            tunnel_pid
        } else {
            e.tunnel_pid
        },
        ..e
    }
}

/// Publish the URL on the entry with the id, together with the pid of
/// `cloudflared` where none is recorded yet.
pub fn publish_url(reg: &mut Registry, id: u64, url: String, tunnel_pid: Option<u32>)
    ensures
        final(reg)@ == replaced(
            old(reg)@,
            id,
            published(entry_of(old(reg)@, id), url@, tunnel_pid),
        ),
{
    let ghost before = reg.services@;
    let ghost i = id_from(reg@.services, id, 0);
    proof {
        lemma_numeral_is_the_id(reg@.services, id, 0);
    }
    match reg.find_mut(decimal_text(id).as_str()) {
        Some(svc) => {
            svc.public_url = Some(url);
            if svc.tunnel_pid.is_none() {
                svc.tunnel_pid = tunnel_pid;
            }
        },
        None => {},
    }
    proof {
        if i < before.len() {
            assert(service_views(reg.services@) =~= service_views(before).update(
                i,
                reg.services@[i]@,
            ));
        }
    }
}

// ---------------------------------------------------------------------------
// Laws
// ---------------------------------------------------------------------------

/// A start that names no service gets one name only, whoever works it out: two
/// choices from the same registry agree.
pub proof fn law_chosen_name_is_one(
    s: Seq<ServiceView>,
    name: Option<Seq<char>>,
    base: Seq<char>,
    a: Seq<char>,
    b: Seq<char>,
)
    requires
        chosen_name(s, name, base, a),
        chosen_name(s, name, base, b),
    ensures
        a == b,
{
    if name is None {
        let j = choose|k: nat| first_free(s, base, k) && a == #[trigger] candidate(base, k);
        let k = choose|k: nat| first_free(s, base, k) && b == #[trigger] candidate(base, k);
        if j < k {
            assert(name_among(s, s.len() as int, candidate(base, j)));
        }
        if k < j {
            assert(name_among(s, s.len() as int, candidate(base, k)));
        }
    }
}

/// The name that a start gets is filled, and no service has it.
pub proof fn law_chosen_name_is_free(
    s: Seq<ServiceView>,
    name: Option<Seq<char>>,
    base: Seq<char>,
    chosen: Seq<char>,
)
    requires
        asked_fault(s, name) is None,
        chosen_name(s, name, base, chosen),
        base.len() > 0,
    ensures
        chosen.len() > 0,
        !name_among(s, s.len() as int, chosen),
{
    if name is None {
        let k = choose|k: nat| first_free(s, base, k) && chosen == #[trigger] candidate(base, k);
        assert(candidate(base, k).len() >= base.len());
    }
}

/// Reserving keeps a sound registry sound, as long as the request has a port, the
/// directory that its kind demands, and something to make a name from, and the
/// counter has not reached the highest number there is.
pub proof fn law_reserving_keeps_sound(
    r: RegistryView,
    q: ReservationView,
    name: Seq<char>,
    state: StateView,
    now: Timestamp,
)
    requires
        sound(r),
        r.next_id < u64::MAX,
        q.port != 0,
        q.kind is Static ==> q.dir is Some,
        q.kind is Proxy ==> q.dir is None,
        q.base.len() > 0,
        asked_fault(r.services, q.name) is None,
        chosen_name(r.services, q.name, q.base, name),
    ensures
        sound(reserved(r, name, q, state, now)),
{
    law_chosen_name_is_free(r.services, q.name, q.base, name);
    law_adding_keeps_sound(r, reserved_entry(next_id(r), name, q, state, now));
}

/// A background reservation is protected from `kill` and `prune` from the moment
/// it is made until its worker's pid is recorded, for sixty seconds; a foreground
/// one, which has its pid at once, needs no protection.
pub proof fn law_reservation_is_protected(
    id: u64,
    name: Seq<char>,
    q: ReservationView,
    state: StateView,
    made: Timestamp,
    now: Timestamp,
)
    ensures
        reserved_entry(id, name, q, state, made).starting_at(made) <==> q.worker_pid == 0,
        reserved_entry(id, name, q, state, made).starting_at(now) <==> q.worker_pid == 0
            && crate::clock::elapsed(now, made) < 60_000_000_000,
{
}

/// Releasing a reservation takes away exactly what the reservation added.
pub proof fn law_releasing_undoes_reserving(
    r: RegistryView,
    q: ReservationView,
    name: Seq<char>,
    state: StateView,
    now: Timestamp,
)
    requires
        sound(r),
        r.next_id < u64::MAX,
    ensures
        released(reserved(r, name, q, state, now), next_id(r)).services == r.services,
{
    law_allocated_id_is_fresh(r);
    let s = reserved(r, name, q, state, now).services;
    lemma_id_from(s, next_id(r), 0);
    let i = id_from(s, next_id(r), 0);
    if i < r.services.len() {
        assert(r.services[i].id == next_id(r));
    }
    assert(s[r.services.len() as int].id == next_id(r));
    assert(i == r.services.len());
    assert(s.remove(i) =~= r.services);
}

/// What is recorded on an entry changes no other entry, and keeps the registry
/// sound: the id, the name, the port, the kind and the directory stay.
pub proof fn law_recording_keeps_sound(r: RegistryView, id: u64, e: ServiceView)
    requires
        sound(r),
        id_from(r.services, id, 0) < r.services.len(),
        e.id == entry_of(r, id).id,
        e.name == entry_of(r, id).name,
        e.port == entry_of(r, id).port,
        e.kind == entry_of(r, id).kind,
        e.dir == entry_of(r, id).dir,
    ensures
        sound(replaced(r, id, e)),
        forall|k: int|
            0 <= k < r.services.len() && k != id_from(r.services, id, 0) ==> (#[trigger] replaced(
                r,
                id,
                e,
            ).services[k]) == r.services[k],
{
    let i = id_from(r.services, id, 0);
    lemma_id_from(r.services, id, 0);
    let s = replaced(r, id, e).services;
    assert(sound_entry(r.services[i]));
    assert forall|k: int| 0 <= k < s.len() implies sound_entry(#[trigger] s[k]) by {
        assert(sound_entry(r.services[k]));
    }
    assert forall|k: int, m: int| 0 <= k < m < s.len() implies (#[trigger] s[k]).id != (
    #[trigger] s[m]).id by {
        assert(r.services[k].id != r.services[m].id);
    }
    assert forall|k: int, m: int| 0 <= k < m < s.len() implies (#[trigger] s[k]).name != (
    #[trigger] s[m]).name by {
        assert(r.services[k].name != r.services[m].name);
    }
    crate::registry::lemma_max_id(r.services);
    assert forall|k: int| 0 <= k < s.len() implies (#[trigger] s[k]).id
        <= crate::registry::max_id(r.services) by {
        assert(r.services[k].id <= crate::registry::max_id(r.services));
    }
    crate::registry::lemma_max_id_le(s, crate::registry::max_id(r.services));
}

/// The entry that a reservation adds carries what was asked for, and nothing that is
/// not known yet; it stands behind all others, which stay as they were, and the counter
/// goes on behind its id.
pub proof fn law_reserved_entry_carries_the_request(
    r: RegistryView,
    name: Seq<char>,
    q: ReservationView,
    state: StateView,
    now: Timestamp,
    i: int,
)
    requires
        0 <= i < r.services.len(),
    ensures
        reserved_rightly(r, reserved(r, name, q, state, now), name, q, state, now),
        reserved(r, name, q, state, now).services[i] == r.services[i],
{
    reveal_strlit("http://127.0.0.1:");
}

/// The entry was added as it was asked for.
pub open spec fn reserved_rightly(
    before: RegistryView,
    after: RegistryView,
    name: Seq<char>,
    q: ReservationView,
    state: StateView,
    now: Timestamp,
) -> bool {
    let e = after.services[before.services.len() as int];
    &&& after.services.len() == before.services.len() + 1
    &&& e.name == name
    &&& e.kind == q.kind
    &&& e.dir == q.dir
    &&& e.port == q.port
    &&& e.local_url == "http://127.0.0.1:"@ + decimal(e.port as nat)
    &&& e.static_flags.spa == q.static_flags.spa
    &&& e.static_flags.cors == q.static_flags.cors
    &&& e.static_flags.token == q.static_flags.token
    &&& e.worker_pid == q.worker_pid
    &&& e.foreground == q.foreground
    &&& e.created_at == now
    &&& e.state_dir == service_dir_of(state, name)
    &&& e.public_url is None
    &&& e.tunnel_pid is None
    &&& e.command_pid is None
    &&& e.id >= 1
    &&& before.next_id >= 1 ==> e.id == before.next_id
    &&& before.next_id >= 1 && e.id < u64::MAX ==> after.next_id == e.id + 1
}

/// The same holds where the registry was empty: the first entry is the only one.
pub proof fn law_first_entry_carries_the_request(
    r: RegistryView,
    name: Seq<char>,
    q: ReservationView,
    state: StateView,
    now: Timestamp,
)
    requires
        r.services.len() == 0,
    ensures
        reserved_rightly(r, reserved(r, name, q, state, now), name, q, state, now),
{
}

/// A name that is asked for is refused exactly where it is no name or is taken, and the
/// operator is told which; who asks for none is not refused.
pub proof fn law_asked_names_are_refused_for_a_reason(s: Seq<ServiceView>, name: Seq<char>)
    ensures
        asked_fault(s, None) is None,
        name_fault(name) matches Some(e) ==> asked_fault(s, Some(name)) == Some(e),
        name_fault(name) is None && (exists|i: int|
            0 <= i < s.len() && (#[trigger] s[i]).name == name) ==> asked_fault(s, Some(name))
            == Some("a service named '"@ + name + "' already exists"@),
        name_fault(name) is None && (forall|i: int|
            0 <= i < s.len() ==> (#[trigger] s[i]).name != name) ==> asked_fault(
            s,
            Some(name),
        ) is None,
{
    if exists|i: int| 0 <= i < s.len() && (#[trigger] s[i]).name == name {
        assert(name_among(s, s.len() as int, name));
    }
}

/// A name that is asked for is the name that is given; where none is asked for, it is
/// one that no service has, and the base itself where that is free.
pub proof fn law_chosen_name_follows_the_request(
    s: Seq<ServiceView>,
    base: Seq<char>,
    name: Seq<char>,
    chosen: Seq<char>,
)
    ensures
        chosen_name(s, Some(name), base, chosen) <==> chosen == name,
        chosen_name(s, None, base, chosen) ==> forall|i: int|
            0 <= i < s.len() ==> (#[trigger] s[i]).name != chosen,
        (forall|i: int| 0 <= i < s.len() ==> (#[trigger] s[i]).name != base) ==> (chosen_name(
            s,
            None,
            base,
            chosen,
        ) <==> chosen == base),
{
    if chosen_name(s, None, base, chosen) {
        let k = choose|k: nat| first_free(s, base, k) && chosen == #[trigger] candidate(base, k);
        assert(!name_among(s, s.len() as int, chosen));
        assert forall|i: int| 0 <= i < s.len() implies (#[trigger] s[i]).name != chosen by {
            if s[i].name == chosen {
                assert(name_among(s, s.len() as int, chosen));
            }
        }
        if forall|i: int| 0 <= i < s.len() ==> (#[trigger] s[i]).name != base {
            assert(candidate(base, 1) == base);
            assert(!name_among(s, s.len() as int, base));
            if k > 1 {
                assert(name_among(s, s.len() as int, candidate(base, 1)));
            }
        }
    }
    if (forall|i: int| 0 <= i < s.len() ==> (#[trigger] s[i]).name != base) && chosen == base {
        assert(candidate(base, 1) == base);
        assert(!name_among(s, s.len() as int, base));
        assert(first_free(s, base, 1));
        assert(chosen == candidate(base, 1));
    }
}

/// Some service has the name.
pub open spec fn taken(s: Seq<ServiceView>, name: Seq<char>) -> bool {
    exists|i: int| 0 <= i < s.len() && (#[trigger] s[i]).name == name
}

/// Where the base is taken, the name is the base with the lowest number from 2 on behind
/// it that is not.
pub proof fn law_taken_bases_get_the_lowest_free_number(
    s: Seq<ServiceView>,
    base: Seq<char>,
    n: nat,
    chosen: Seq<char>,
)
    requires
        taken(s, base),
        n >= 2,
        forall|k: nat| 2 <= k < n ==> taken(s, base + "-"@ + #[trigger] decimal(k)),
        !taken(s, base + "-"@ + decimal(n)),
    ensures
        chosen_name(s, None, base, chosen) <==> chosen == base + "-"@ + decimal(n),
{
    let free = base + "-"@ + decimal(n);
    assert(candidate(base, n) == free);
    assert forall|k: nat| 1 <= k < n implies name_among(
        s,
        s.len() as int,
        #[trigger] candidate(base, k),
    ) by {
        if k >= 2 {
            assert(taken(s, base + "-"@ + decimal(k)));
        }
    }
    assert(!name_among(s, s.len() as int, free));
    assert(first_free(s, base, n));
    if chosen_name(s, None, base, chosen) {
        assert(chosen_name(s, None, base, free));
        law_chosen_name_is_one(s, None, base, chosen, free);
    }
}

/// Releasing an id takes away the entry that has it, and nothing else; an id that no
/// entry has takes nothing away.
pub proof fn law_release_takes_only_its_entry(r: RegistryView, id: u64, i: int)
    ensures
        released(r, id).next_id == r.next_id,
        0 <= i < r.services.len() && r.services[i].id == id && (forall|k: int|
            0 <= k < i ==> (#[trigger] r.services[k]).id != id) ==> released(r, id).services
            == r.services.take(i) + r.services.skip(i + 1),
        (forall|k: int| 0 <= k < r.services.len() ==> (#[trigger] r.services[k]).id != id)
            ==> released(r, id).services == r.services,
{
    lemma_id_from(r.services, id, 0);
    let j = id_from(r.services, id, 0);
    if 0 <= i < r.services.len() && r.services[i].id == id && (forall|k: int|
        0 <= k < i ==> (#[trigger] r.services[k]).id != id) {
        if j < i {
            assert(r.services[j].id == id);
        }
        assert(j == i);
        assert(r.services.remove(i) =~= r.services.take(i) + r.services.skip(i + 1));
    }
    if forall|k: int| 0 <= k < r.services.len() ==> (#[trigger] r.services[k]).id != id {
        if j < r.services.len() {
            assert(r.services[j].id == id);
        }
    }
}

/// What is recorded later is recorded on the entry with the id and on no other: the pid
/// of the worker, the pid of the command, or the URL together with the pid of
/// `cloudflared` where none is known; everything else on it stays.
pub proof fn law_recording_changes_what_it_records(
    r: RegistryView,
    id: u64,
    i: int,
    pid: u32,
    url: Seq<char>,
    tunnel: Option<u32>,
)
    requires
        0 <= i < r.services.len(),
        r.services[i].id == id,
        forall|k: int| 0 <= k < i ==> (#[trigger] r.services[k]).id != id,
    ensures
        ({
            let e = r.services[i];
            &&& replaced(r, id, with_worker(entry_of(r, id), pid)).services == r.services.update(
                i,
                ServiceView {
                    id,
                    name: e.name,
                    kind: e.kind,
                    dir: e.dir,
                    port: e.port,
                    local_url: e.local_url,
                    public_url: e.public_url,
                    worker_pid: pid,
                    tunnel_pid: e.tunnel_pid,
                    static_flags: e.static_flags,
                    command_pid: e.command_pid,
                    created_at: e.created_at,
                    state_dir: e.state_dir,
                    foreground: e.foreground,
                },
            )
            &&& replaced(r, id, with_command(entry_of(r, id), pid)).services == r.services.update(
                i,
                ServiceView {
                    id,
                    name: e.name,
                    kind: e.kind,
                    dir: e.dir,
                    port: e.port,
                    local_url: e.local_url,
                    public_url: e.public_url,
                    worker_pid: e.worker_pid,
                    tunnel_pid: e.tunnel_pid,
                    static_flags: e.static_flags,
                    command_pid: Some(pid),
                    created_at: e.created_at,
                    state_dir: e.state_dir,
                    foreground: e.foreground,
                },
            )
            &&& replaced(r, id, published(entry_of(r, id), url, tunnel)).services
                == r.services.update(
                i,
                ServiceView {
                    id,
                    name: e.name,
                    kind: e.kind,
                    dir: e.dir,
                    port: e.port,
                    local_url: e.local_url,
                    public_url: Some(url),
                    worker_pid: e.worker_pid,
                    tunnel_pid: match e.tunnel_pid {
                        Some(p) => Some(p),
                        None => tunnel,
                    },
                    static_flags: e.static_flags,
                    command_pid: e.command_pid,
                    created_at: e.created_at,
                    state_dir: e.state_dir,
                    foreground: e.foreground,
                },
            )
            &&& replaced(r, id, with_worker(entry_of(r, id), pid)).next_id == r.next_id
        }),
{
    lemma_id_from(r.services, id, 0);
    let j = id_from(r.services, id, 0);
    if j < i {
        assert(r.services[j].id == id);
    }
    assert(j == i);
}

/// Nothing is recorded for an id that no entry has.
pub proof fn law_nothing_is_recorded_for_an_unknown_id(r: RegistryView, id: u64, e: ServiceView)
    requires
        forall|k: int| 0 <= k < r.services.len() ==> (#[trigger] r.services[k]).id != id,
    ensures
        replaced(r, id, e) == r,
{
    lemma_id_from(r.services, id, 0);
    let j = id_from(r.services, id, 0);
    if j < r.services.len() {
        assert(r.services[j].id == id);
    }
}

/// A granted reservation adds one entry behind the others, with what was asked for, under
/// the id that it gives back and the name that it gives back, which is the one that was
/// asked for where one was.
pub proof fn law_granted_reservation_adds_what_was_asked_for(
    before: RegistryView,
    after: RegistryView,
    request: ReservationView,
    state: StateView,
    now: Timestamp,
    id: u64,
    name: Seq<char>,
)
    requires
        granted(before, after, request, state, now, id, name),
    ensures
        after.services.len() == before.services.len() + 1,
        after.services.drop_last() == before.services,
        request.name is Some ==> request.name == Some(name),
        before.next_id >= 1 ==> id == before.next_id,
        ({
            let e = after.services.last();
            &&& e.id == id && e.name == name
            &&& e.kind == request.kind && e.dir == request.dir && e.port == request.port
            &&& e.worker_pid == request.worker_pid && e.foreground == request.foreground
            &&& e.static_flags == request.static_flags && e.created_at == now
            &&& e.public_url is None && e.tunnel_pid is None && e.command_pid is None
        }),
{
    assert(after.services.drop_last() =~= before.services);
}

} // verus!
