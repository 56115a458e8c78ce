//! The `proxy` command: a tunnel to a server that the operator already runs.

use vstd::prelude::*;
use vstd::string::*;

use crate::text::{concat3, decimal, decimal_text, lemma_stands_between, occurs_in};

verus! {

/// Why the port of the operator's server is refused.
pub open spec fn upstream_refusal(port: u16, alive: bool) -> Option<Seq<char>> {
    if alive {
        None
    } else {
        Some(
            "nothing is listening on 127.0.0.1:"@ + decimal(port as nat)
                + " — start the server you want to tunnel (or double-check the port number) first"@,
        )
    }
}

/// Accept the port of the operator's server if something listens there: a tunnel
/// to nothing would answer every request with an error.
pub fn check_upstream(port: u16, alive: bool) -> (r: Result<(), String>)
    ensures
        match r {
            Ok(()) => upstream_refusal(port, alive) is None,
            Err(e) => upstream_refusal(port, alive) == Some(e@),
        },
{
    if alive {
        return Ok(());
    }
    Err(
        concat3(
            "nothing is listening on 127.0.0.1:",
            decimal_text(port as u64).as_str(),
            " — start the server you want to tunnel (or double-check the port number) first",
        ),
    )
}

// ---------------------------------------------------------------------------
// Laws
// ---------------------------------------------------------------------------

/// A server that answers is fronted; a port without one is refused by its number.
pub proof fn law_dead_upstreams_are_refused(port: u16)
    ensures
        upstream_refusal(port, true) is None,
        upstream_refusal(port, false) matches Some(w) && occurs_in(w, decimal(port as nat)),
{
    lemma_stands_between(
        "nothing is listening on 127.0.0.1:"@,
        decimal(port as nat),
        " — start the server you want to tunnel (or double-check the port number) first"@,
    );
}

} // verus!
