//! The `open` command: the public URL of a service, for the browser.

use vstd::prelude::*;
use vstd::string::*;

use crate::cloudflared::{is_tunnel_url, tunnel_url};
use crate::cmd::kill::no_match_message;
use crate::model::{Registry, RegistryView};
use crate::registry::{find_from, law_first_named_service_is_found, lemma_find_from, targets};
use crate::text::{concat3, lemma_stands_across, lemma_stands_between, occurs_in};

verus! {

/// The URL that is opened for `target`, or what is told instead. The registry can
/// be edited by hand, so a URL that is none of a Quick Tunnel never reaches the
/// browser.
pub open spec fn opened(r: RegistryView, target: Seq<char>) -> Result<Seq<char>, Seq<char>> {
    let i = find_from(r.services, target, 0);
    if i >= r.services.len() {
        Err("no service matches '"@ + target + "'"@)
    } else {
        match r.services[i].public_url {
            None => Err("service '"@ + r.services[i].name + "' has no public URL yet"@),
            Some(u) => if tunnel_url(u) {
                Ok(u)
            } else {
                Err(
                    "service '"@ + r.services[i].name
                        + "' has a malformed public URL (expected https://*.trycloudflare.com)"@,
                )
            },
        }
    }
}

/// The URL that is opened for `target`, or what is told instead.
pub fn url_to_open(registry: &Registry, target: &str) -> (r: Result<String, String>)
    ensures
        match r {
            Ok(u) => opened(registry@, target@) == Ok::<Seq<char>, Seq<char>>(u@),
            Err(e) => opened(registry@, target@) == Err::<Seq<char>, Seq<char>>(e@),
        },
{
    proof {
        lemma_find_from(registry@.services, target@, 0);
    }
    let service = match registry.find(target) {
        Some(s) => s,
        None => return Err(no_match_message(target)),
    };
    assert(registry@.services[find_from(registry@.services, target@, 0)] == service@);
    match &service.public_url {
        None => Err(concat3("service '", service.name.as_str(), "' has no public URL yet")),
        Some(url) => {
            if !is_tunnel_url(url.as_str()) {
                return Err(
                    concat3(
                        "service '",
                        service.name.as_str(),
                        "' has a malformed public URL (expected https://*.trycloudflare.com)",
                    ),
                );
            }
            Ok(url.clone())
        },
    }
}

// ---------------------------------------------------------------------------
// Laws
// ---------------------------------------------------------------------------

/// Whatever the registry holds, only the URL of a Quick Tunnel is ever opened.
pub proof fn law_only_tunnels_are_opened(r: RegistryView, target: Seq<char>)
    ensures
        opened(r, target) matches Ok(u) ==> tunnel_url(u),
{
}

/// The URL that is opened is that of the first service that the target names, and it is
/// opened as it stands.
pub proof fn law_url_of_the_named_service_is_opened(
    r: RegistryView,
    target: Seq<char>,
    i: int,
    url: Seq<char>,
)
    requires
        0 <= i < r.services.len(),
        targets(target, r.services[i]),
        forall|k: int| 0 <= k < i ==> !targets(target, #[trigger] r.services[k]),
    ensures
        r.services[i].public_url == Some(url) && tunnel_url(url) ==> opened(r, target) == Ok::<
            Seq<char>,
            Seq<char>,
        >(url),
        r.services[i].public_url == Some(url) && !tunnel_url(url) ==> opened(r, target) is Err,
        r.services[i].public_url is None ==> opened(r, target) is Err,
        opened(r, target) matches Err(e) ==> occurs_in(e, "'"@ + r.services[i].name + "'"@),
{
    law_first_named_service_is_found(r.services, target, i);
    let name = r.services[i].name;
    assert("service '"@ == "service "@ + "'"@) by {
        reveal_strlit("service '");
        reveal_strlit("service ");
        reveal_strlit("'");
    }
    assert("' has no public URL yet"@ == "'"@ + " has no public URL yet"@) by {
        reveal_strlit("' has no public URL yet");
        reveal_strlit("'");
        reveal_strlit(" has no public URL yet");
    }
    assert("' has a malformed public URL (expected https://*.trycloudflare.com)"@ == "'"@
        + " has a malformed public URL (expected https://*.trycloudflare.com)"@) by {
        reveal_strlit("' has a malformed public URL (expected https://*.trycloudflare.com)");
        reveal_strlit("'");
        reveal_strlit(" has a malformed public URL (expected https://*.trycloudflare.com)");
    }
    lemma_stands_across("service "@, "'"@, name, "'"@, " has no public URL yet"@);
    lemma_stands_across(
        "service "@,
        "'"@,
        name,
        "'"@,
        " has a malformed public URL (expected https://*.trycloudflare.com)"@,
    );
}

/// A target that names no service is told of as it was given.
pub proof fn law_unknown_targets_are_named(r: RegistryView, target: Seq<char>)
    requires
        forall|k: int| 0 <= k < r.services.len() ==> !targets(target, #[trigger] r.services[k]),
    ensures
        opened(r, target) matches Err(e) && occurs_in(e, target),
{
    law_first_named_service_is_found(r.services, target, 0);
    lemma_stands_between("no service matches '"@, target, "'"@);
}

} // verus!
