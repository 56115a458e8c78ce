//! Local ports.

use vstd::prelude::*;

verus! {

/// How long a connection to a port is tried, in milliseconds.
pub const PROBE_TIMEOUT_MS: u64 = 250;

/// How a connection to a port on the loopback address came out.
#[derive(Clone, Copy, Debug, PartialEq, Eq, Structural)]
pub enum ConnectProbe {
    /// It was accepted.
    Accepted,
    /// It was refused.
    Refused,
    /// It failed in another way, or took too long.
    Failed,
}

/// The port is free.
pub open spec fn free(port: u16, probe: ConnectProbe) -> bool {
    port == 0 || probe is Refused
}

/// Whether the port is free: nothing accepts connections there. A port that still
/// waits after its server has stopped refuses them, and is free. Port 0 counts as
/// free, so that whoever refuses it can say why.
pub fn is_port_free(port: u16, probe: ConnectProbe) -> (r: bool)
    ensures
        r == free(port, probe),
{
    if port == 0 {
        return true;
    }
    probe == ConnectProbe::Refused
}

// ---------------------------------------------------------------------------
// Laws
// ---------------------------------------------------------------------------

/// A port is free exactly where a connection to it is refused; one that takes it, or
/// that does not answer in time, is not. Port 0 is never looked at.
pub proof fn law_only_a_refusal_means_free(port: u16)
    requires
        port != 0,
    ensures
        free(port, ConnectProbe::Refused),
        !free(port, ConnectProbe::Accepted),
        !free(port, ConnectProbe::Failed),
        free(0, ConnectProbe::Accepted),
{
}

} // verus!
