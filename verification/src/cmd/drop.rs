//! The `drop` command: the upload target, the access token, and who owns a bucket.

use vstd::prelude::*;
use vstd::string::*;
use vstd::utf8::*;

use crate::clock::Timestamp;
use crate::cmd::reserve::{
    asked_fault, chosen_name, next_id, reserve_entry as reserve, reserved, Reservation,
    ReservationView,
};
use crate::cmd::start::{same_dir, PortChoice};
use crate::model::{Registry, RegistryView, ServiceKind, ServiceView, StaticFlags, StaticFlagsView};
use crate::server::drop_server::{
    generate_token, hex, law_stored_token_reads_back, law_token_is_hexadecimal,
    law_tokens_of_different_bytes_differ, token_in, TokenError, DEFAULT_MAX_SIZE,
};
use crate::server::listing::under_root;
use crate::state::{StateDir, StateView};
use crate::text::{
    concat2, concat3, concat5, copy_opt, decimal, decimal_text, is_white,
    law_trimming_takes_only_white_space, lemma_stands_between, occurs_in, opt_text, text_trim, trim,
};

verus! {

/// Why the directory is refused as an upload target.
pub open spec fn bucket_refusal(dir: Seq<char>, is_sensitive: bool) -> Option<Seq<char>> {
    if is_sensitive {
        Some(
            "refusing to use "@ + dir
                + " as a drop bucket: it is a sensitive directory, and uploads WRITE into it through a public tunnel"@,
        )
    } else {
        None
    }
}

/// Refuse a sensitive directory as an upload target: there is no way round it,
/// since uploads write into it through a public tunnel.
pub fn check_bucket(dir: &str, is_sensitive: bool) -> (r: Result<(), String>)
    ensures
        match r {
            Ok(()) => bucket_refusal(dir@, is_sensitive) is None,
            Err(e) => bucket_refusal(dir@, is_sensitive) == Some(e@),
        },
{
    if is_sensitive {
        return Err(
            concat3(
                "refusing to use ",
                dir,
                " as a drop bucket: it is a sensitive directory, and uploads WRITE into it through a public tunnel",
            ),
        );
    }
    Ok(())
}

/// The port of the upload receiver: the one that is asked for, or any that is
/// free.
pub open spec fn receiver_port(port: Option<u16>) -> PortChoice {
    match port {
        Some(p) => PortChoice::Explicit(p),
        None => PortChoice::Allocate,
    }
}

/// The port of the upload receiver: the one that is asked for, or any that is
/// free.
pub fn drop_port(port: Option<u16>) -> (r: PortChoice)
    ensures
        r == receiver_port(port),
{
    match port {
        Some(p) => PortChoice::Explicit(p),
        None => PortChoice::Allocate,
    }
}

/// Why the port of the upload receiver is refused.
pub open spec fn port_refusal(port: u16, free: bool) -> Option<Seq<char>> {
    if free {
        None
    } else {
        Some(
            "port "@ + decimal(port as nat)
                + " is already in use — ft's drop origin needs to bind it (is another instance still running?)"@,
        )
    }
}

/// Accept the port of the upload receiver if it is free.
pub fn drop_port_free(port: u16, free: bool) -> (r: Result<(), String>)
    ensures
        match r {
            Ok(()) => port_refusal(port, free) is None,
            Err(e) => port_refusal(port, free) == Some(e@),
        },
{
    if free {
        return Ok(());
    }
    Err(
        concat3(
            "port ",
            decimal_text(port as u64).as_str(),
            " is already in use — ft's drop origin needs to bind it (is another instance still running?)",
        ),
    )
}

/// The cap on one upload: the one that is asked for, or the usual one.
pub open spec fn upload_cap(max_size: Option<u64>) -> u64 {
    match max_size {
        Some(n) => n,
        None => DEFAULT_MAX_SIZE,
    }
}

/// The cap on one upload: the one that is asked for, or the usual one.
pub fn max_size_or_default(max_size: Option<u64>) -> (r: u64)
    ensures
        r == upload_cap(max_size),
{
    match max_size {
        Some(n) => n,
        None => DEFAULT_MAX_SIZE,
    }
}

/// The access token: the one that is asked for, trimmed, or one made from `random`;
/// nothing where a blank one is asked for.
pub open spec fn access_token(asked: Option<Seq<char>>, random: Seq<u8>) -> Option<Seq<char>> {
    match asked {
        Some(t) => if trim(t).len() > 0 {
            Some(trim(t))
        } else {
            None
        },
        None => Some(hex(random)),
    }
}

/// The access token: the one that is asked for, without the white space around it,
/// or one made from `random`. A blank one is refused. Whoever needs the token gets
/// this value, so that none of them sees another.
pub fn resolve_token(token: Option<String>, random: &[u8; 32]) -> (r: Result<String, String>)
    ensures
        match r {
            Ok(t) => access_token(opt_text(token), random@) == Some(t@),
            Err(e) => access_token(opt_text(token), random@) is None && e@
                == "--token must be a non-empty secret"@,
        },
{
    match token {
        Some(asked) => {
            let t = text_trim(asked.as_str());
            if t.as_str().is_empty() {
                return Err("--token must be a non-empty secret".to_owned());
            }
            Ok(t)
        },
        None => Ok(generate_token(random)),
    }
}

/// The service at position `i` is an upload receiver on the bucket. `resolved`
/// holds what the directory of each service resolves to; one that resolves to
/// nothing cannot be shown to be the same.
pub open spec fn owns(
    s: Seq<ServiceView>,
    resolved: Seq<Option<Vec<u8>>>,
    i: int,
    bucket: Seq<u8>,
    sep: u8,
) -> bool {
    &&& s[i].kind is Drop
    &&& s[i].dir is Some
    &&& i < resolved.len()
    &&& resolved[i] matches Some(d)
    &&& same_dir(d@, bucket, sep)
}

/// The first position from `i` on whose service owns the bucket, or the length.
pub open spec fn owner_from(
    s: Seq<ServiceView>,
    resolved: Seq<Option<Vec<u8>>>,
    bucket: Seq<u8>,
    sep: u8,
    i: int,
) -> int
    decreases s.len() - i,
{
    if i >= s.len() {
        s.len() as int
    } else if owns(s, resolved, i, bucket, sep) {
        i
    } else {
        owner_from(s, resolved, bucket, sep, i + 1)
    }
}

/// The name of the upload receiver that owns the bucket already.
pub open spec fn owner(
    s: Seq<ServiceView>,
    resolved: Seq<Option<Vec<u8>>>,
    bucket: Option<Vec<u8>>,
    sep: u8,
) -> Option<Seq<char>> {
    match bucket {
        None => None,
        Some(b) => {
            let i = owner_from(s, resolved, b@, sep, 0);
            if i < s.len() {
                Some(s[i].name)
            } else {
                None
            }
        },
    }
}

/// The name of the upload receiver that owns the bucket already. A service of
/// another kind does not: one that only reads the directory is not disturbed by
/// uploads.
pub fn find_drop_dir_conflict(
    reg: &Registry,
    resolved: &Vec<Option<Vec<u8>>>,
    bucket: &Option<Vec<u8>>,
    sep: u8,
) -> (r: Option<String>)
    ensures
        opt_text(r) == owner(reg@.services, resolved@, *bucket, sep),
{
    let target = match bucket {
        Some(b) => b,
        None => return None,
    };
    let mut i: usize = 0;
    while i < reg.services.len()
        invariant
            i <= reg.services@.len(),
            *bucket == Some(*target),
            owner_from(reg@.services, resolved@, target@, sep, 0) == owner_from(
                reg@.services,
                resolved@,
                target@,
                sep,
                i as int,
            ),
        decreases reg.services@.len() - i,
    {
        let svc = &reg.services[i];
        assert(reg@.services[i as int] == svc@);
        if svc.kind == ServiceKind::Drop && svc.dir.is_some() && i < resolved.len() {
            if let Some(d) = &resolved[i] {
                if under_root(d.as_slice(), target.as_slice(), sep) && under_root(
                    target.as_slice(),
                    d.as_slice(),
                    sep,
                ) {
                    assert(owns(reg@.services, resolved@, i as int, target@, sep));
                    return Some(svc.name.clone());
                }
            }
        }
        i = i + 1;
    }
    None
}

/// What is told when the bucket has an owner.
pub open spec fn conflict_words(dir: Seq<char>, other: Seq<char>) -> Seq<char> {
    "directory "@ + dir + " is already the upload target of drop service '"@ + other
        + "' — one bucket, one owner (a second drop origin on the same directory would race its writes and stack its total-cap allowance)"@
}

/// What an upload receiver asks of the registry.
pub open spec fn drop_request(
    dir: Seq<char>,
    port: u16,
    name: Option<Seq<char>>,
    worker_pid: u32,
    foreground: bool,
) -> ReservationView {
    ReservationView {
        kind: ServiceKind::Drop,
        dir: Some(dir),
        base: "drop-"@ + decimal(port as nat),
        port,
        name,
        worker_pid,
        foreground,
        static_flags: StaticFlagsView { spa: false, cors: false, token: None },
    }
}

/// What an upload receiver asks of the registry.
pub fn drop_reservation(
    dir: &str,
    port: u16,
    name: &Option<String>,
    worker_pid: u32,
    foreground: bool,
) -> (r: Reservation)
    ensures
        r@ == drop_request(dir@, port, opt_text(*name), worker_pid, foreground),
{
    Reservation {
        kind: ServiceKind::Drop,
        dir: Some(dir.to_owned()),
        base: concat2("drop-", decimal_text(port as u64).as_str()),
        port,
        name: copy_opt(name),
        worker_pid,
        foreground,
        static_flags: StaticFlags::default(),
    }
}

/// The reservation of an upload receiver is granted: its bucket has no owner, the name
/// is free and fits, and the entry is added.
pub open spec fn drop_granted(
    before: RegistryView,
    after: RegistryView,
    request: ReservationView,
    resolved: Seq<Option<Vec<u8>>>,
    bucket: Option<Vec<u8>>,
    sep: u8,
    state: StateView,
    now: Timestamp,
    id: u64,
    name: Seq<char>,
) -> bool {
    &&& owner(before.services, resolved, bucket, sep) is None
    &&& asked_fault(before.services, request.name) is None
    &&& chosen_name(before.services, request.name, request.base, name)
    &&& id == next_id(before)
    &&& after == reserved(before, name, request, state, now)
}

/// Reserve the entry of an upload receiver, unless its bucket has an owner. The
/// other conditions are those of every reservation.
pub fn reserve_entry(
    reg: &mut Registry,
    request: &Reservation,
    resolved: &Vec<Option<Vec<u8>>>,
    bucket: &Option<Vec<u8>>,
    sep: u8,
    state: &StateDir,
    created: bool,
    now: Timestamp,
) -> (r: Result<(u64, String), String>)
    requires
        request.dir is Some,
    ensures
        match r {
            Ok((id, name)) => {
                &&& created
                &&& drop_granted(
                    old(reg)@,
                    final(reg)@,
                    request@,
                    resolved@,
                    *bucket,
                    sep,
                    state@,
                    now,
                    id,
                    name@,
                )
            },
            Err(e) => {
                &&& *final(reg) == *old(reg)
                &&& match owner(old(reg)@.services, resolved@, *bucket, sep) {
                    Some(other) => e@ == conflict_words(request@.dir->0, other),
                    None => match asked_fault(old(reg)@.services, request@.name) {
                        Some(f) => e@ == f,
                        None => !created && exists|n: Seq<char>| #[trigger]
                            chosen_name(old(reg)@.services, request@.name, request@.base, n) && e@
                                == "creating service directory for '"@ + n + "'"@,
                    },
                }
            },
        },
{
    if let Some(other) = find_drop_dir_conflict(reg, resolved, bucket, sep) {
        let dir = match &request.dir {
            Some(d) => d.as_str(),
            None => "",
        };
        return Err(
            concat5(
                "directory ",
                dir,
                " is already the upload target of drop service '",
                other.as_str(),
                "' — one bucket, one owner (a second drop origin on the same directory would race its writes and stack its total-cap allowance)",
            ),
        );
    }
    reserve(reg, request, state, created, now)
}

// ---------------------------------------------------------------------------
// Laws
// ---------------------------------------------------------------------------

/// The service at position `i` is an upload receiver whose directory resolves.
pub open spec fn receives(s: Seq<ServiceView>, resolved: Seq<Option<Vec<u8>>>, i: int) -> bool {
    s[i].kind is Drop && s[i].dir is Some && resolved[i] is Some
}

/// No two upload receivers share a bucket.
pub open spec fn one_owner(s: Seq<ServiceView>, resolved: Seq<Option<Vec<u8>>>, sep: u8) -> bool {
    forall|i: int, j: int|
        0 <= i < j < s.len() && #[trigger] receives(s, resolved, i) && #[trigger] receives(
            s,
            resolved,
            j,
        ) ==> !same_dir(resolved[i]->0@, resolved[j]->0@, sep)
}

/// What [`owner_from`] says of every position that it passes.
proof fn lemma_owner_from(
    s: Seq<ServiceView>,
    resolved: Seq<Option<Vec<u8>>>,
    bucket: Seq<u8>,
    sep: u8,
    i: int,
)
    requires
        0 <= i <= s.len(),
    ensures
        i <= owner_from(s, resolved, bucket, sep, i) <= s.len(),
        forall|k: int|
            i <= k < owner_from(s, resolved, bucket, sep, i) ==> !#[trigger] owns(
                s,
                resolved,
                k,
                bucket,
                sep,
            ),
    decreases s.len() - i,
{
    if i < s.len() && !owns(s, resolved, i, bucket, sep) {
        lemma_owner_from(s, resolved, bucket, sep, i + 1);
    }
}

/// One bucket, one owner: where no two upload receivers share a bucket, a
/// reservation that is granted does not change that.
pub proof fn law_one_bucket_one_owner(
    s: Seq<ServiceView>,
    resolved: Seq<Option<Vec<u8>>>,
    bucket: Vec<u8>,
    sep: u8,
    e: ServiceView,
)
    requires
        resolved.len() == s.len(),
        one_owner(s, resolved, sep),
        owner(s, resolved, Some(bucket), sep) is None,
    ensures
        one_owner(s.push(e), resolved.push(Some(bucket)), sep),
{
    lemma_owner_from(s, resolved, bucket@, sep, 0);
    let t = s.push(e);
    let q = resolved.push(Some(bucket));
    assert forall|i: int, j: int|
        0 <= i < j < t.len() && #[trigger] receives(t, q, i) && #[trigger] receives(
            t,
            q,
            j,
        ) implies !same_dir(q[i]->0@, q[j]->0@, sep) by {
        assert(receives(s, resolved, i));
        if j < s.len() {
            assert(receives(s, resolved, j));
        } else {
            assert(!owns(s, resolved, i, bucket@, sep));
        }
    }
}

/// A token never has white space at its ends, so that what is pasted is what is
/// compared: neither one that is asked for nor one that is made. One that is made is
/// read back from its file as it is.
pub proof fn law_resolved_token_is_trimmed(asked: Seq<char>, random: Seq<u8>)
    requires
        random.len() == 32,
    ensures
        trim(trim(asked)) == trim(asked),
        trim(hex(random)) == hex(random),
        token_in(encode_utf8(hex(random) + "\n"@)) == Ok::<Seq<char>, TokenError>(hex(random)),
{
    crate::text::lemma_trim_ends(asked);
    crate::text::lemma_trim_clean(trim(asked));
    law_token_is_hexadecimal(random);
    crate::text::lemma_trim_clean(hex(random));
    let text = hex(random) + "\n"@;
    reveal_strlit("\n");
    assert(is_ascii_chars(text));
    is_ascii_chars_encode_utf8(text);
    law_stored_token_reads_back(hex(random));
}

/// A sensitive directory is refused and any other accepted; a taken port is refused and
/// a free one accepted. The refusal names what is refused.
pub proof fn law_refused_targets_are_named(dir: Seq<char>, port: u16)
    ensures
        bucket_refusal(dir, false) is None,
        bucket_refusal(dir, true) matches Some(w) && occurs_in(w, dir),
        port_refusal(port, true) is None,
        port_refusal(port, false) matches Some(w) && occurs_in(w, decimal(port as nat)),
{
    lemma_stands_between(
        "refusing to use "@,
        dir,
        " as a drop bucket: it is a sensitive directory, and uploads WRITE into it through a public tunnel"@,
    );
    lemma_stands_between(
        "port "@,
        decimal(port as nat),
        " is already in use — ft's drop origin needs to bind it (is another instance still running?)"@,
    );
}

/// What the operator asks for is taken as it is: the port, and the cap on one upload.
pub proof fn law_asked_settings_are_taken(port: u16, cap: u64)
    ensures
        receiver_port(Some(port)) == PortChoice::Explicit(port),
        receiver_port(None) is Allocate,
        upload_cap(Some(cap)) == cap,
        upload_cap(None) == 64 * 1024 * 1024,
{
}

/// A token that is asked for is taken without the white space around it and with nothing
/// else taken away, one that is nothing but white space is refused, and without one
/// every bit of the random bytes goes into the token.
pub proof fn law_token_is_the_asked_or_the_random_one(
    asked: Seq<char>,
    random: Seq<u8>,
    other: Seq<u8>,
)
    ensures
        access_token(Some(asked), random) is None <==> (forall|k: int|
            0 <= k < asked.len() ==> is_white(#[trigger] asked[k])),
        access_token(Some(asked), random) matches Some(t) ==> t.len() > 0 && !is_white(t[0])
            && !is_white(t.last()) && exists|i: int, j: int|
            0 <= i <= j <= asked.len() && #[trigger] asked.subrange(i, j) == t && (forall|k: int|
                0 <= k < i || j <= k < asked.len() ==> is_white(#[trigger] asked[k])),
        access_token(None, random) is Some,
        access_token(None, random) == access_token(None, other) ==> random == other,
{
    law_trimming_takes_only_white_space(asked);
    let (i, j) = choose|i: int, j: int|
        0 <= i <= j <= asked.len() && #[trigger] asked.subrange(i, j) == trim(asked) && (forall|
            k: int,
        |
            0 <= k < i || j <= k < asked.len() ==> is_white(#[trigger] asked[k]));
    if trim(asked).len() > 0 {
        assert(trim(asked)[0] == asked[i]);
    }
    if hex(random) == hex(other) {
        law_tokens_of_different_bytes_differ(random, other);
    }
}

/// An upload receiver whose directory resolves to the bucket owns it; whoever is named
/// as its owner is an upload receiver on it, and the first.
pub proof fn law_owner_is_the_first_receiver_on_the_bucket(
    s: Seq<ServiceView>,
    resolved: Seq<Option<Vec<u8>>>,
    bucket: Vec<u8>,
    sep: u8,
    i: int,
)
    requires
        0 <= i < s.len(),
        resolved.len() == s.len(),
    ensures
        s[i].kind is Drop && s[i].dir is Some && (resolved[i] matches Some(d) && d@ == bucket@)
            ==> owner(s, resolved, Some(bucket), sep) is Some,
        (forall|k: int| 0 <= k < s.len() ==> !((#[trigger] s[k]).kind is Drop)) ==> owner(
            s,
            resolved,
            Some(bucket),
            sep,
        ) is None,
        (forall|k: int| 0 <= k < s.len() ==> (#[trigger] resolved[k]) is None) ==> owner(
            s,
            resolved,
            Some(bucket),
            sep,
        ) is None,
        owner(s, resolved, None, sep) is None,
        owner(s, resolved, Some(bucket), sep) matches Some(n) ==> exists|k: int|
            0 <= k < s.len() && (#[trigger] s[k]).kind is Drop && s[k].name == n,
{
    lemma_owner_from(s, resolved, bucket@, sep, 0);
    lemma_owner_owns(s, resolved, bucket@, sep, 0);
    let at = owner_from(s, resolved, bucket@, sep, 0);
    if s[i].kind is Drop && s[i].dir is Some && (resolved[i] matches Some(d) && d@ == bucket@) {
        assert(owns(s, resolved, i, bucket@, sep));
    }
    if at < s.len() {
        assert(s[at].kind is Drop);
        assert(resolved[at] is Some);
    }
}

/// What [`owner_from`] finds owns the bucket.
proof fn lemma_owner_owns(
    s: Seq<ServiceView>,
    resolved: Seq<Option<Vec<u8>>>,
    bucket: Seq<u8>,
    sep: u8,
    i: int,
)
    requires
        0 <= i <= s.len(),
    ensures
        owner_from(s, resolved, bucket, sep, i) < s.len() ==> owns(
            s,
            resolved,
            owner_from(s, resolved, bucket, sep, i),
            bucket,
            sep,
        ),
    decreases s.len() - i,
{
    if i < s.len() && !owns(s, resolved, i, bucket, sep) {
        lemma_owner_owns(s, resolved, bucket, sep, i + 1);
    }
}

/// The refusal of a bucket names the directory and its owner.
pub proof fn law_conflict_names_both(dir: Seq<char>, other: Seq<char>)
    ensures
        occurs_in(conflict_words(dir, other), dir),
        occurs_in(conflict_words(dir, other), other),
{
    let a = "directory "@;
    let b = " is already the upload target of drop service '"@;
    let c =
        "' — one bucket, one owner (a second drop origin on the same directory would race its writes and stack its total-cap allowance)"@;
    lemma_stands_between(a, dir, b + other + c);
    assert(conflict_words(dir, other) =~= a + dir + (b + other + c));
    lemma_stands_between(a + dir + b, other, c);
}

/// What an upload receiver asks for is what it was started with: its directory, its
/// port, its name and its worker; a name of its own making tells the port.
pub proof fn law_receiver_asks_for_what_it_was_given(
    dir: Seq<char>,
    port: u16,
    name: Option<Seq<char>>,
    worker_pid: u32,
    foreground: bool,
)
    ensures
        ({
            let q = drop_request(dir, port, name, worker_pid, foreground);
            &&& q.kind is Drop
            &&& q.dir == Some(dir)
            &&& q.port == port
            &&& q.name == name
            &&& q.worker_pid == worker_pid
            &&& q.foreground == foreground
            &&& !q.static_flags.spa && !q.static_flags.cors && q.static_flags.token is None
            &&& q.base == "drop-"@ + decimal(port as nat)
        }),
{
}

/// A granted reservation adds one upload receiver to a bucket that had none, under a
/// name that no other service has, and takes the next id.
pub proof fn law_granted_receivers_keep_one_owner(
    before: RegistryView,
    after: RegistryView,
    request: ReservationView,
    resolved: Seq<Option<Vec<u8>>>,
    bucket: Vec<u8>,
    sep: u8,
    state: StateView,
    now: Timestamp,
    id: u64,
    name: Seq<char>,
)
    requires
        resolved.len() == before.services.len(),
        one_owner(before.services, resolved, sep),
        drop_granted(before, after, request, resolved, Some(bucket), sep, state, now, id, name),
    ensures
        one_owner(after.services, resolved.push(Some(bucket)), sep),
        after.services.len() == before.services.len() + 1,
        after.services.drop_last() == before.services,
        after.services.last().id == id,
        after.services.last().name == name,
        request.name is Some ==> request.name == Some(name),
{
    let e = after.services.last();
    assert(after.services =~= before.services.push(e));
    law_one_bucket_one_owner(before.services, resolved, bucket, sep, e);
    assert(after.services.drop_last() =~= before.services);
}

} // verus!
