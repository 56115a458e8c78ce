//! Where the state lives: the directory tree under
//! `$XDG_STATE_HOME/freeoxide/tunnel`.

use vstd::prelude::*;
use vstd::string::*;

use crate::name::{all_name_chars, dash_sanitize, dashed, name_char};
use crate::path::{join, joined};
use crate::text::{chars_of, concat3};

verus! {

/// What the environment tells of where state is kept.
#[derive(Debug)]
pub struct StateSources {
    /// The value of `XDG_STATE_HOME`.
    pub xdg_state_home: Option<String>,
    /// That value is an absolute path.
    pub xdg_is_absolute: bool,
    /// That value made absolute, where that is possible.
    pub xdg_made_absolute: Option<String>,
    /// The home directory.
    pub home_dir: Option<String>,
    /// The separator of paths.
    pub sep: u8,
}

/// Why no state directory can be told.
#[derive(Clone, Copy, Debug, PartialEq, Eq, Structural)]
pub enum StateError {
    /// A relative `XDG_STATE_HOME` could not be made absolute.
    RelativeXdg,
    /// There is no home directory.
    NoHome,
}

impl StateError {
    /// The error in words.
    pub open spec fn words(self) -> Seq<char> {
        match self {
            StateError::RelativeXdg => "resolving relative XDG_STATE_HOME"@,
            StateError::NoHome => "could not determine a home directory for state storage"@,
        }
    }

    /// The error in words.
    pub fn message(self) -> (r: &'static str)
        ensures
            r@ == self.words(),
    {
        match self {
            StateError::RelativeXdg => "resolving relative XDG_STATE_HOME",
            StateError::NoHome => "could not determine a home directory for state storage",
        }
    }
}

/// The directory under which state is kept: `$XDG_STATE_HOME`, made absolute, where
/// it is set and not empty; else `~/.local/state`.
pub open spec fn base_dir(s: StateSources) -> Result<Seq<char>, StateError> {
    match s.xdg_state_home {
        Some(x) if x@.len() > 0 => if s.xdg_is_absolute {
            Ok(x@)
        } else {
            match s.xdg_made_absolute {
                Some(a) => Ok(a@),
                None => Err(StateError::RelativeXdg),
            }
        },
        _ => match s.home_dir {
            Some(h) => Ok(joined(joined(h@, ".local"@, s.sep), "state"@, s.sep)),
            None => Err(StateError::NoHome),
        },
    }
}

/// The directory under which state is kept.
fn state_base(s: &StateSources) -> (r: Result<String, StateError>)
    ensures
        match r {
            Ok(p) => base_dir(*s) == Ok::<Seq<char>, StateError>(p@),
            Err(e) => base_dir(*s) == Err::<Seq<char>, StateError>(e),
        },
{
    if let Some(x) = &s.xdg_state_home {
        if !x.as_str().is_empty() {
            if s.xdg_is_absolute {
                return Ok(x.clone());
            }
            return match &s.xdg_made_absolute {
                Some(a) => Ok(a.clone()),
                None => Err(StateError::RelativeXdg),
            };
        }
    }
    match &s.home_dir {
        Some(h) => Ok(join(join(h.as_str(), ".local", s.sep).as_str(), "state", s.sep)),
        None => Err(StateError::NoHome),
    }
}

/// Every character of `s` is a dash.
pub open spec fn all_dashes(s: Seq<char>) -> bool {
    forall|i: int| 0 <= i < s.len() ==> #[trigger] s[i] == '-'
}

/// The path segment for a service name: `-` in place of whatever may not stand in a
/// name, and `service` where only dashes are left.
pub open spec fn segment(name: Seq<char>) -> Seq<char> {
    if all_dashes(dashed(name)) {
        "service"@
    } else {
        dashed(name)
    }
}

/// The path segment for a service name. Dashes at the ends stay, so that `-a` and
/// `a` have segments of their own.
pub fn safe_component(name: &str) -> (r: String)
    ensures
        r@ == segment(name@),
{
    let s = dash_sanitize(name);
    let cs = chars_of(s.as_str());
    let mut i: usize = 0;
    while i < cs.len()
        invariant
            cs@ == s@,
            s@ == dashed(name@),
            i <= cs@.len(),
            forall|k: int| 0 <= k < i ==> #[trigger] s@[k] == '-',
        decreases cs@.len() - i,
    {
        if cs[i] != '-' {
            assert(s@[i as int] != '-');
            return s;
        }
        i = i + 1;
    }
    "service".to_owned()
}

/// The state directory.
#[derive(Debug)]
pub struct StateDir {
    root: String,
    sep: u8,
}

/// The view of a [`StateDir`]: its root, and the separator of the paths under it.
pub ghost struct StateView {
    pub root: Seq<char>,
    pub sep: u8,
}

impl StateView {
    /// The path of `leaf` right under the root.
    pub open spec fn at(self, leaf: Seq<char>) -> Seq<char> {
        joined(self.root, leaf, self.sep)
    }

    /// The path of `leaf` in the directory of a service.
    pub open spec fn of_service(self, name: Seq<char>, leaf: Seq<char>) -> Seq<char> {
        joined(service_dir_of(self, name), leaf, self.sep)
    }

    /// The registry file.
    pub open spec fn live_registry(self) -> Seq<char> {
        self.at("registry.json"@)
    }

    /// The file that the registry is written to before it replaces the live one.
    pub open spec fn new_registry(self) -> Seq<char> {
        self.at("registry.json.tmp"@)
    }

    /// The last good registry before the live one.
    pub open spec fn old_registry(self) -> Seq<char> {
        self.at("registry.json.bak"@)
    }

    /// The file whose lock serializes every change of the registry.
    pub open spec fn registry_lock(self) -> Seq<char> {
        self.at("registry.lock"@)
    }

    /// The worker's log.
    pub open spec fn log_of_worker(self, name: Seq<char>) -> Seq<char> {
        self.of_service(name, "worker.log"@)
    }

    /// The static server's log.
    pub open spec fn log_of_server(self, name: Seq<char>) -> Seq<char> {
        self.of_service(name, "server.log"@)
    }

    /// The tunnel's log.
    pub open spec fn log_of_tunnel(self, name: Seq<char>) -> Seq<char> {
        self.of_service(name, "tunnel.log"@)
    }
}

impl View for StateDir {
    type V = StateView;

    closed spec fn view(&self) -> StateView {
        StateView { root: self.root@, sep: self.sep }
    }
}

impl Clone for StateDir {
    fn clone(&self) -> (r: Self)
        ensures
            r@ == self@,
    {
        StateDir { root: self.root.clone(), sep: self.sep }
    }
}

/// The directory of a service under the root.
pub open spec fn service_dir_of(state: StateView, name: Seq<char>) -> Seq<char> {
    joined(state.at("services"@), segment(name), state.sep)
}

/// The state directory under the directory that state is kept in.
pub open spec fn state_root(base: Seq<char>, sep: u8) -> Seq<char> {
    joined(joined(base, "freeoxide"@, sep), "tunnel"@, sep)
}

impl StateDir {
    /// The state directory that the environment asks for.
    pub fn new(sources: &StateSources) -> (r: Result<StateDir, StateError>)
        ensures
            match r {
                Ok(s) => base_dir(*sources) matches Ok(b) && s@ == (StateView {
                    root: state_root(b, sources.sep),
                    sep: sources.sep,
                }),
                Err(e) => base_dir(*sources) == Err::<Seq<char>, StateError>(e),
            },
    {
        match state_base(sources) {
            Ok(b) => {
                let vendor = join(b.as_str(), "freeoxide", sources.sep);
                Ok(
                    StateDir {
                        root: join(vendor.as_str(), "tunnel", sources.sep),
                        sep: sources.sep,
                    },
                )
            },
            Err(e) => Err(e),
        }
    }

    /// The state directory at the given root.
    pub fn new_at(root: String, sep: u8) -> (r: StateDir)
        ensures
            r@ == (StateView { root: root@, sep }),
    {
        StateDir { root, sep }
    }

    /// The root.
    pub fn root(&self) -> (r: &str)
        ensures
            r@ == self@.root,
    {
        self.root.as_str()
    }

    /// The separator of the paths under the root.
    pub fn separator(&self) -> (r: u8)
        ensures
            r == self@.sep,
    {
        self.sep
    }

    /// The registry file.
    pub fn registry_path(&self) -> (r: String)
        ensures
            r@ == self@.live_registry(),
    {
        join(self.root.as_str(), "registry.json", self.sep)
    }

    /// The file that the registry is written to before it replaces the live one.
    pub fn registry_temp_path(&self) -> (r: String)
        ensures
            r@ == self@.new_registry(),
    {
        join(self.root.as_str(), "registry.json.tmp", self.sep)
    }

    /// The last good registry before the live one.
    pub fn registry_backup_path(&self) -> (r: String)
        ensures
            r@ == self@.old_registry(),
    {
        join(self.root.as_str(), "registry.json.bak", self.sep)
    }

    /// The file whose lock serializes every change of the registry.
    pub fn lock_path(&self) -> (r: String)
        ensures
            r@ == self@.registry_lock(),
    {
        join(self.root.as_str(), "registry.lock", self.sep)
    }

    /// The directory that holds one directory per service.
    pub fn services_dir(&self) -> (r: String)
        ensures
            r@ == self@.at("services"@),
    {
        join(self.root.as_str(), "services", self.sep)
    }

    /// The directory of a service. The name becomes a single path segment, so no
    /// name leads out of the services directory.
    pub fn service_dir(&self, name: &str) -> (r: String)
        ensures
            r@ == service_dir_of(self@, name@),
    {
        join(self.services_dir().as_str(), safe_component(name).as_str(), self.sep)
    }

    /// The worker's log.
    pub fn worker_log(&self, name: &str) -> (r: String)
        ensures
            r@ == self@.log_of_worker(name@),
    {
        join(self.service_dir(name).as_str(), "worker.log", self.sep)
    }

    /// The static server's log.
    pub fn server_log(&self, name: &str) -> (r: String)
        ensures
            r@ == self@.log_of_server(name@),
    {
        join(self.service_dir(name).as_str(), "server.log", self.sep)
    }

    /// The tunnel's log.
    pub fn tunnel_log(&self, name: &str) -> (r: String)
        ensures
            r@ == self@.log_of_tunnel(name@),
    {
        join(self.service_dir(name).as_str(), "tunnel.log", self.sep)
    }

    /// The directory of a service, given whether it could be created (or was there)
    /// as a private one; else what is told of the failure.
    pub fn ensure_service_dir(&self, name: &str, created: bool) -> (r: Result<String, String>)
        ensures
            match r {
                Ok(d) => created && d@ == service_dir_of(self@, name@),
                Err(e) => !created && e@ == "creating service directory for '"@ + name@ + "'"@,
            },
    {
        if created {
            Ok(self.service_dir(name))
        } else {
            Err(concat3("creating service directory for '", name, "'"))
        }
    }
}

// ---------------------------------------------------------------------------
// Laws
// ---------------------------------------------------------------------------

/// The segment for any name is filled and made of characters that may stand in a
/// name: it holds no separator and is neither `.` nor `..`.
pub proof fn law_segment_is_safe(name: Seq<char>)
    ensures
        segment(name).len() > 0,
        all_name_chars(segment(name)),
        !segment(name).contains('/'),
        !segment(name).contains('\\'),
        !segment(name).contains('.'),
{
    reveal_strlit("service");
    let s = segment(name);
    assert(all_name_chars("service"@));
    assert(all_name_chars(s));
    if s.contains('/') {
        let i = choose|i: int| 0 <= i < s.len() && s[i] == '/';
        assert(name_char(s[i]));
    }
    if s.contains('\\') {
        let i = choose|i: int| 0 <= i < s.len() && s[i] == '\\';
        assert(name_char(s[i]));
    }
    if s.contains('.') {
        let i = choose|i: int| 0 <= i < s.len() && s[i] == '.';
        assert(name_char(s[i]));
    }
}

/// Names that are made of the characters of names, and not of dashes alone, keep
/// segments of their own: two of them share a directory only where they are the
/// same.
pub proof fn law_valid_names_keep_their_directories(a: Seq<char>, b: Seq<char>)
    requires
        all_name_chars(a),
        all_name_chars(b),
        !all_dashes(a),
        !all_dashes(b),
        segment(a) == segment(b),
    ensures
        a == b,
{
    assert(dashed(a) =~= a);
    assert(dashed(b) =~= b);
}

/// State is kept where `XDG_STATE_HOME` says, made absolute, and otherwise under the
/// home directory; what cannot be told is an error, and says which.
pub proof fn law_state_is_kept_where_the_environment_says(s: StateSources, x: String, h: String)
    ensures
        s.xdg_state_home == Some(x) && x@.len() > 0 && s.xdg_is_absolute ==> base_dir(s) == Ok::<
            Seq<char>,
            StateError,
        >(x@),
        s.xdg_state_home == Some(x) && x@.len() > 0 && !s.xdg_is_absolute ==> match s.xdg_made_absolute {
            Some(a) => base_dir(s) == Ok::<Seq<char>, StateError>(a@),
            None => base_dir(s) == Err::<Seq<char>, StateError>(StateError::RelativeXdg),
        },
        (s.xdg_state_home is None || s.xdg_state_home == Some(x) && x@.len() == 0) && s.home_dir
            == Some(h) ==> base_dir(s) == Ok::<Seq<char>, StateError>(
            joined(joined(h@, ".local"@, s.sep), "state"@, s.sep),
        ),
        (s.xdg_state_home is None || s.xdg_state_home == Some(x) && x@.len() == 0) && s.home_dir
            is None ==> base_dir(s) == Err::<Seq<char>, StateError>(StateError::NoHome),
{
}

/// The state directory is `freeoxide/tunnel` under what the environment says, and a
/// service has a directory of its own under `services` in it, in which its files lie:
/// each behind the one that holds it.
pub proof fn law_state_directories_lie_in_each_other(
    base: Seq<char>,
    root: Seq<char>,
    name: Seq<char>,
    leaf: Seq<char>,
    sep: u8,
)
    requires
        sep as char == '/',
        base.len() > 0,
        base.last() != '/',
        root.len() > 0,
        root.last() != '/',
    ensures
        state_root(base, sep) == base + "/freeoxide/tunnel"@,
        (StateView { root, sep }).at(leaf) == root + "/"@ + leaf,
        service_dir_of(StateView { root, sep }, name) == root + "/services/"@ + segment(name),
        (StateView { root, sep }).of_service(name, leaf) == root + "/services/"@ + segment(name)
            + "/"@ + leaf,
{
    reveal_strlit("/");
    reveal_strlit("/freeoxide/tunnel");
    reveal_strlit("freeoxide");
    reveal_strlit("tunnel");
    reveal_strlit("services");
    reveal_strlit("/services/");
    let state = StateView { root, sep };
    law_segment_is_safe(name);
    assert(joined(base, "freeoxide"@, sep).last() == 'e');
    assert(state_root(base, sep) =~= base + "/freeoxide/tunnel"@);
    assert(state.at(leaf) =~= root + "/"@ + leaf);
    assert(state.at("services"@).last() == 's');
    assert(service_dir_of(state, name) =~= root + "/services/"@ + segment(name));
    let d = service_dir_of(state, name);
    let g = segment(name);
    assert(d.last() == g.last());
    assert(g.contains(g.last()));
    assert(d.last() != '/');
    assert(state.of_service(name, leaf) =~= root + "/services/"@ + segment(name) + "/"@ + leaf);
}

/// A name of the characters of names is its own segment, unless it is dashes alone;
/// whatever else stands in a name becomes a dash in its place.
pub proof fn law_segment_keeps_what_is_plain(name: Seq<char>, i: int)
    ensures
        (forall|k: int| 0 <= k < name.len() ==> name_char(#[trigger] name[k])) && (exists|k: int|
            0 <= k < name.len() && #[trigger] name[k] != '-') ==> segment(name) == name,
        (forall|k: int| 0 <= k < name.len() ==> !name_char(#[trigger] name[k]) || name[k] == '-')
            ==> segment(name) == "service"@,
        (exists|k: int| 0 <= k < name.len() && name_char(#[trigger] name[k]) && name[k] != '-') && 0
            <= i < name.len() ==> segment(name).len() == name.len() && segment(name)[i] == (
        if name_char(name[i]) {
            name[i]
        } else {
            '-'
        }),
{
    let d = dashed(name);
    if forall|k: int| 0 <= k < name.len() ==> name_char(#[trigger] name[k]) {
        assert(d =~= name);
        if exists|k: int| 0 <= k < name.len() && #[trigger] name[k] != '-' {
            let k = choose|k: int| 0 <= k < name.len() && #[trigger] name[k] != '-';
            assert(d[k] != '-');
        }
    }
    if exists|k: int| 0 <= k < name.len() && name_char(#[trigger] name[k]) && name[k] != '-' {
        let k = choose|k: int|
            0 <= k < name.len() && name_char(#[trigger] name[k]) && name[k] != '-';
        assert(d[k] != '-');
    }
    if forall|k: int| 0 <= k < name.len() ==> !name_char(#[trigger] name[k]) || name[k] == '-' {
        assert forall|k: int| 0 <= k < d.len() implies #[trigger] d[k] == '-' by {
            assert(!name_char(name[k]) || name[k] == '-');
        }
    }
}

/// The live registry, the one that replaces it, the one that it replaced and the lock are
/// four files of their own beside each other, and so are the three logs of a service.
pub proof fn law_files_do_not_get_in_each_others_way(root: Seq<char>, name: Seq<char>, sep: u8)
    requires
        sep as char == '/',
        root.len() > 0,
        root.last() != '/',
    ensures
        ({
            let v = StateView { root, sep };
            &&& v.live_registry() == root + "/"@ + "registry.json"@
            &&& v.new_registry() != v.live_registry() && v.old_registry() != v.live_registry()
            &&& v.new_registry() != v.old_registry()
            &&& v.registry_lock() != v.live_registry() && v.registry_lock() != v.new_registry()
            &&& v.registry_lock() != v.old_registry()
            &&& v.log_of_worker(name) != v.log_of_tunnel(name)
            &&& v.log_of_worker(name) != v.log_of_server(name)
            &&& v.log_of_server(name) != v.log_of_tunnel(name)
        }),
{
    let v = StateView { root, sep };
    let base = "x"@;
    reveal_strlit("x");
    law_state_directories_lie_in_each_other(base, root, name, "registry.json"@, sep);
    law_state_directories_lie_in_each_other(base, root, name, "registry.json.tmp"@, sep);
    law_state_directories_lie_in_each_other(base, root, name, "registry.json.bak"@, sep);
    law_state_directories_lie_in_each_other(base, root, name, "registry.lock"@, sep);
    law_state_directories_lie_in_each_other(base, root, name, "worker.log"@, sep);
    law_state_directories_lie_in_each_other(base, root, name, "server.log"@, sep);
    law_state_directories_lie_in_each_other(base, root, name, "tunnel.log"@, sep);
    reveal_strlit("registry.json");
    reveal_strlit("registry.json.tmp");
    reveal_strlit("registry.json.bak");
    reveal_strlit("registry.lock");
    reveal_strlit("worker.log");
    reveal_strlit("server.log");
    reveal_strlit("tunnel.log");
    let n = (root + "/"@).len() as int;
    assert(v.live_registry()[n + 9] == 'j' && v.registry_lock()[n + 9] == 'l');
    assert(v.new_registry()[n + 9] == 'j' && v.old_registry()[n + 9] == 'j');
    assert(v.new_registry()[n + 14] == 't' && v.old_registry()[n + 14] == 'b');
    let m = (root + "/services/"@ + segment(name) + "/"@).len() as int;
    assert(v.log_of_worker(name)[m] == 'w');
    assert(v.log_of_server(name)[m] == 's');
    assert(v.log_of_tunnel(name)[m] == 't');
}

} // verus!
