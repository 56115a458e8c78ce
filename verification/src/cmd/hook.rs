//! The `hook` command: the port of the webhook receiver and how much it keeps.

use vstd::prelude::*;
use vstd::string::*;

use crate::cmd::start::PortChoice;
use crate::path::join;
use crate::server::hook_server::{DEFAULT_KEEP, REQUESTS_FILENAME};
use crate::state::StateDir;
use crate::text::{concat3, decimal, decimal_text, lemma_stands_between, occurs_in};

verus! {

/// The port of the webhook receiver: the one that is asked for, or any that is
/// free.
pub open spec fn receiver_port(port: Option<u16>) -> PortChoice {
    match port {
        Some(p) => PortChoice::Explicit(p),
        None => PortChoice::Allocate,
    }
}

/// Why the port of the webhook receiver is refused.
pub open spec fn port_refusal(port: u16, free: bool) -> Option<Seq<char>> {
    if free {
        None
    } else {
        Some(
            "port "@ + decimal(port as nat)
                + " is already in use — ft's hook origin needs to bind it (is another instance still running?)"@,
        )
    }
}

/// How many requests are kept: the number that is asked for, or the usual one.
pub open spec fn kept(keep: Option<u16>) -> u16 {
    match keep {
        Some(n) => n,
        None => DEFAULT_KEEP,
    }
}

/// The port of the webhook receiver: the one that is asked for, or any that is
/// free.
pub fn hook_port(port: Option<u16>) -> (r: PortChoice)
    ensures
        r == receiver_port(port),
{
    match port {
        Some(p) => PortChoice::Explicit(p),
        None => PortChoice::Allocate,
    }
}

/// Accept the port of the webhook receiver if it is free.
pub fn hook_port_free(port: u16, free: bool) -> (r: Result<(), String>)
    ensures
        match r {
            Ok(()) => port_refusal(port, free) is None,
            Err(e) => port_refusal(port, free) == Some(e@),
        },
{
    if free {
        return Ok(());
    }
    Err(
        concat3(
            "port ",
            decimal_text(port as u64).as_str(),
            " is already in use — ft's hook origin needs to bind it (is another instance still running?)",
        ),
    )
}

/// How many requests are kept: the number that is asked for, or the usual one.
pub fn keep_or_default(keep: Option<u16>) -> (r: u16)
    ensures
        r == kept(keep),
{
    match keep {
        Some(n) => n,
        None => DEFAULT_KEEP,
    }
}

/// Where the requests of a webhook receiver are kept.
pub fn open_hook_log(state: &StateDir, name: &str) -> (r: String)
    ensures
        r@ == state@.of_service(name@, REQUESTS_FILENAME@),
{
    join(state.service_dir(name).as_str(), REQUESTS_FILENAME, state.separator())
}

// ---------------------------------------------------------------------------
// Laws
// ---------------------------------------------------------------------------

/// What the operator asks for is taken as it is: the port, and how many requests are
/// kept, which is two hundred where nothing is asked for.
pub proof fn law_asked_settings_are_taken(port: u16, keep: u16)
    ensures
        receiver_port(Some(port)) == PortChoice::Explicit(port),
        receiver_port(None) is Allocate,
        kept(Some(keep)) == keep,
        kept(None) == 200,
{
}

/// A free port is accepted, a taken one refused by its number.
pub proof fn law_taken_ports_are_refused(port: u16)
    ensures
        port_refusal(port, true) is None,
        port_refusal(port, false) matches Some(w) && occurs_in(w, decimal(port as nat)),
{
    lemma_stands_between(
        "port "@,
        decimal(port as nat),
        " is already in use — ft's hook origin needs to bind it (is another instance still running?)"@,
    );
}

} // verus!
