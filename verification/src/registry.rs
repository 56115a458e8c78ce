//! The rules of the service registry: what a sound one looks like, how a stored
//! one is read, and how services are found, added and removed.

use vstd::prelude::*;
use vstd::string::*;

use crate::bytes::{blank, is_blank};
use crate::model::{
    empty_registry, service_views, Registry, RegistryView, Service, ServiceKind, ServiceView,
};
use crate::text::{
    all_digits, decimal, decimal_text, decimal_value, lemma_decimal, lemma_stands_between,
    occurs_in, parse_digits, text_all_digits, text_eq,
};

verus! {

/// Upper bound on a stored registry, in bytes. Anything larger is no registry.
pub const MAX_REGISTRY_BYTES: usize = 16_777_216;

// ---------------------------------------------------------------------------
// What a sound registry looks like
// ---------------------------------------------------------------------------

/// What is wrong with a registry.
#[derive(Debug)]
pub enum RegistryError {
    /// The named service has the reserved id 0.
    ReservedId(String),
    /// Two services have the id.
    DuplicateId(u64),
    /// The service with the id has no name.
    EmptyName(u64),
    /// Two services have the name.
    DuplicateName(String),
    /// The named service has the reserved port 0.
    ReservedPort(String),
    /// The named static service has no directory.
    NoDirectory(String),
    /// The named proxy service has a directory.
    UnexpectedDirectory(String),
}

/// The view of a [`RegistryError`].
pub ghost enum Fault {
    ReservedId(Seq<char>),
    DuplicateId(u64),
    EmptyName(u64),
    DuplicateName(Seq<char>),
    ReservedPort(Seq<char>),
    NoDirectory(Seq<char>),
    UnexpectedDirectory(Seq<char>),
}

impl View for RegistryError {
    type V = Fault;

    open spec fn view(&self) -> Fault {
        match self {
            RegistryError::ReservedId(n) => Fault::ReservedId(n@),
            RegistryError::DuplicateId(id) => Fault::DuplicateId(*id),
            RegistryError::EmptyName(id) => Fault::EmptyName(*id),
            RegistryError::DuplicateName(n) => Fault::DuplicateName(n@),
            RegistryError::ReservedPort(n) => Fault::ReservedPort(n@),
            RegistryError::NoDirectory(n) => Fault::NoDirectory(n@),
            RegistryError::UnexpectedDirectory(n) => Fault::UnexpectedDirectory(n@),
        }
    }
}

/// How the standard library writes a text between quotation marks, with escapes.
pub uninterp spec fn quoted(s: Seq<char>) -> Seq<char>;

/// `s` between quotation marks, with escapes: the `Debug` form of `str`.
#[verifier::external_body]
pub(crate) fn quoted_text(s: &str) -> (r: String)
    ensures
        r@ == quoted(s@),
{
    format!("{:?}", s)
}

impl Fault {
    /// The fault in words.
    pub open spec fn words(self) -> Seq<char> {
        match self {
            Fault::ReservedId(n) => "service "@ + quoted(n) + " has reserved id 0"@,
            Fault::DuplicateId(id) => "duplicate service id "@ + decimal(id as nat),
            Fault::EmptyName(id) => "service id "@ + decimal(id as nat) + " has an empty name"@,
            Fault::DuplicateName(n) => "duplicate service name "@ + quoted(n),
            Fault::ReservedPort(n) => "service "@ + quoted(n) + " has reserved port 0"@,
            Fault::NoDirectory(n) => "static service "@ + quoted(n) + " has no directory"@,
            Fault::UnexpectedDirectory(n) => "proxy service "@ + quoted(n)
                + " must not carry a directory"@,
        }
    }
}

impl RegistryError {
    /// The fault in words.
    pub fn message(&self) -> (r: String)
        ensures
            r@ == self@.words(),
    {
        let mut out: String;
        match self {
            RegistryError::ReservedId(n) => {
                out = "service ".to_owned();
                out.append(quoted_text(n.as_str()).as_str());
                out.append(" has reserved id 0");
            },
            RegistryError::DuplicateId(id) => {
                out = "duplicate service id ".to_owned();
                out.append(decimal_text(*id).as_str());
            },
            RegistryError::EmptyName(id) => {
                out = "service id ".to_owned();
                out.append(decimal_text(*id).as_str());
                out.append(" has an empty name");
            },
            RegistryError::DuplicateName(n) => {
                out = "duplicate service name ".to_owned();
                out.append(quoted_text(n.as_str()).as_str());
            },
            RegistryError::ReservedPort(n) => {
                out = "service ".to_owned();
                out.append(quoted_text(n.as_str()).as_str());
                out.append(" has reserved port 0");
            },
            RegistryError::NoDirectory(n) => {
                out = "static service ".to_owned();
                out.append(quoted_text(n.as_str()).as_str());
                out.append(" has no directory");
            },
            RegistryError::UnexpectedDirectory(n) => {
                out = "proxy service ".to_owned();
                out.append(quoted_text(n.as_str()).as_str());
                out.append(" must not carry a directory");
            },
        }
        out
    }
}

/// One of the first `i` services has the id.
pub open spec fn id_among(s: Seq<ServiceView>, i: int, id: u64) -> bool {
    exists|j: int| 0 <= j < i && #[trigger] s[j].id == id
}

/// One of the first `i` services has the name.
pub open spec fn name_among(s: Seq<ServiceView>, i: int, name: Seq<char>) -> bool {
    exists|j: int| 0 <= j < i && #[trigger] s[j].name == name
}

/// What is wrong with the service at position `i`, given those before it.
pub open spec fn entry_fault(s: Seq<ServiceView>, i: int) -> Option<Fault> {
    let e = s[i];
    if e.id == 0 {
        Some(Fault::ReservedId(e.name))
    } else if id_among(s, i, e.id) {
        Some(Fault::DuplicateId(e.id))
    } else if e.name.len() == 0 {
        Some(Fault::EmptyName(e.id))
    } else if name_among(s, i, e.name) {
        Some(Fault::DuplicateName(e.name))
    } else if e.port == 0 {
        Some(Fault::ReservedPort(e.name))
    } else if e.kind is Static && e.dir is None {
        Some(Fault::NoDirectory(e.name))
    } else if e.kind is Proxy && e.dir is Some {
        Some(Fault::UnexpectedDirectory(e.name))
    } else {
        None
    }
}

/// The first fault from position `i` on.
pub open spec fn first_fault(s: Seq<ServiceView>, i: int) -> Option<Fault>
    decreases s.len() - i,
{
    if i >= s.len() {
        None
    } else if entry_fault(s, i) is Some {
        entry_fault(s, i)
    } else {
        first_fault(s, i + 1)
    }
}

/// A service that stands well by itself.
pub open spec fn sound_entry(e: ServiceView) -> bool {
    &&& e.id != 0
    &&& e.name.len() > 0
    &&& e.port != 0
    &&& e.kind is Static ==> e.dir is Some
    &&& e.kind is Proxy ==> e.dir is None
}

/// Every service stands well by itself, and no two share an id or a name.
pub open spec fn sound_services(s: Seq<ServiceView>) -> bool {
    &&& forall|i: int| 0 <= i < s.len() ==> sound_entry(#[trigger] s[i])
    &&& forall|i: int, j: int|
        0 <= i < j < s.len() ==> (#[trigger] s[i]).id != (#[trigger] s[j]).id
    &&& forall|i: int, j: int|
        0 <= i < j < s.len() ==> (#[trigger] s[i]).name != (#[trigger] s[j]).name
}

/// The highest id, or 0 where there is no service.
pub open spec fn max_id(s: Seq<ServiceView>) -> u64
    decreases s.len(),
{
    if s.len() == 0 {
        0
    } else if max_id(s.drop_last()) < s.last().id {
        s.last().id
    } else {
        max_id(s.drop_last())
    }
}

/// The id that comes after `id`; there is none after the highest.
pub open spec fn id_after(id: u64) -> u64 {
    if id < u64::MAX {
        (id + 1) as u64
    } else {
        id
    }
}

/// The registry with its counter moved past every id.
pub open spec fn healed(r: RegistryView) -> RegistryView {
    RegistryView {
        next_id: if r.next_id <= max_id(r.services) {
            id_after(max_id(r.services))
        } else {
            r.next_id
        },
        services: r.services,
    }
}

/// The services are sound and the counter is ahead of every id, as far as it can
/// be.
pub open spec fn sound(r: RegistryView) -> bool {
    &&& sound_services(r.services)
    &&& r.next_id > max_id(r.services) || r.next_id == u64::MAX
}

/// Whether one of the first `i` services has the id.
fn has_id_among(v: &Vec<Service>, i: usize, id: u64) -> (r: bool)
    requires
        i <= v@.len(),
    ensures
        r == id_among(service_views(v@), i as int, id),
{
    let mut k: usize = 0;
    while k < i
        invariant
            k <= i <= v@.len(),
            forall|j: int| 0 <= j < k ==> (#[trigger] service_views(v@)[j]).id != id,
        decreases i - k,
    {
        if v[k].id == id {
            assert(service_views(v@)[k as int].id == id);
            return true;
        }
        k = k + 1;
    }
    false
}

/// Whether one of the first `i` services has the name.
fn has_name_among(v: &Vec<Service>, i: usize, name: &str) -> (r: bool)
    requires
        i <= v@.len(),
    ensures
        r == name_among(service_views(v@), i as int, name@),
{
    let mut k: usize = 0;
    while k < i
        invariant
            k <= i <= v@.len(),
            forall|j: int| 0 <= j < k ==> (#[trigger] service_views(v@)[j]).name != name@,
        decreases i - k,
    {
        if text_eq(v[k].name.as_str(), name) {
            assert(service_views(v@)[k as int].name == name@);
            return true;
        }
        k = k + 1;
    }
    false
}

/// What is wrong with the service at position `i`, given those before it.
fn check_entry(v: &Vec<Service>, i: usize) -> (r: Option<RegistryError>)
    requires
        i < v@.len(),
    ensures
        match r {
            Some(e) => entry_fault(service_views(v@), i as int) == Some(e@),
            None => entry_fault(service_views(v@), i as int) is None,
        },
{
    let s = &v[i];
    assert(service_views(v@)[i as int] == s@);
    if s.id == 0 {
        return Some(RegistryError::ReservedId(s.name.clone()));
    }
    if has_id_among(v, i, s.id) {
        return Some(RegistryError::DuplicateId(s.id));
    }
    if s.name.as_str().is_empty() {
        return Some(RegistryError::EmptyName(s.id));
    }
    if has_name_among(v, i, s.name.as_str()) {
        return Some(RegistryError::DuplicateName(s.name.clone()));
    }
    if s.port == 0 {
        return Some(RegistryError::ReservedPort(s.name.clone()));
    }
    match (s.kind, &s.dir) {
        (ServiceKind::Static, None) => Some(RegistryError::NoDirectory(s.name.clone())),
        (ServiceKind::Proxy, Some(_)) => Some(RegistryError::UnexpectedDirectory(s.name.clone())),
        _ => None,
    }
}

/// The highest id, or 0 where there is no service.
fn highest_id(v: &Vec<Service>) -> (r: u64)
    ensures
        r == max_id(service_views(v@)),
{
    let mut top: u64 = 0;
    let mut i: usize = 0;
    assert(service_views(v@).take(0) =~= Seq::<ServiceView>::empty());
    while i < v.len()
        invariant
            i <= v@.len(),
            top == max_id(service_views(v@).take(i as int)),
        decreases v@.len() - i,
    {
        assert(service_views(v@).take(i + 1).drop_last() =~= service_views(v@).take(i as int));
        if top < v[i].id {
            top = v[i].id;
        }
        i = i + 1;
    }
    assert(service_views(v@).take(v@.len() as int) =~= service_views(v@));
    top
}

// ---------------------------------------------------------------------------
// Finding services
// ---------------------------------------------------------------------------

/// `target` names the service: by its id where it is a row of digits, and by its
/// name otherwise. A row of digits never names a service by its name.
pub open spec fn targets(target: Seq<char>, s: ServiceView) -> bool {
    if target.len() > 0 && all_digits(target) {
        s.id == decimal_value(target)
    } else {
        s.name == target
    }
}

/// The first position from `i` on whose service `target` names, or the length.
pub open spec fn find_from(s: Seq<ServiceView>, target: Seq<char>, i: int) -> int
    decreases s.len() - i,
{
    if i >= s.len() {
        s.len() as int
    } else if targets(target, s[i]) {
        i
    } else {
        find_from(s, target, i + 1)
    }
}

/// The first position from `i` on whose service has the id, or the length.
pub open spec fn id_from(s: Seq<ServiceView>, id: u64, i: int) -> int
    decreases s.len() - i,
{
    if i >= s.len() {
        s.len() as int
    } else if s[i].id == id {
        i
    } else {
        id_from(s, id, i + 1)
    }
}

/// What [`find_from`] says of every position that it passes.
pub proof fn lemma_find_from(s: Seq<ServiceView>, target: Seq<char>, i: int)
    requires
        0 <= i <= s.len(),
    ensures
        i <= find_from(s, target, i) <= s.len(),
        find_from(s, target, i) < s.len() ==> targets(target, s[find_from(s, target, i)]),
        forall|k: int| i <= k < find_from(s, target, i) ==> !targets(target, #[trigger] s[k]),
    decreases s.len() - i,
{
    if i < s.len() && !targets(target, s[i]) {
        lemma_find_from(s, target, i + 1);
    }
}

/// What [`id_from`] says of every position that it passes.
pub proof fn lemma_id_from(s: Seq<ServiceView>, id: u64, i: int)
    requires
        0 <= i <= s.len(),
    ensures
        i <= id_from(s, id, i) <= s.len(),
        id_from(s, id, i) < s.len() ==> s[id_from(s, id, i)].id == id,
        forall|k: int| i <= k < id_from(s, id, i) ==> (#[trigger] s[k]).id != id,
    decreases s.len() - i,
{
    if i < s.len() && s[i].id != id {
        lemma_id_from(s, id, i + 1);
    }
}

/// What a stored registry file holds, and what comes of decoding it.
#[derive(Debug)]
pub struct StoredBlob {
    /// The bytes of the file, of which one more than the bound may be missing.
    pub bytes: Vec<u8>,
    /// The registry that the bytes encode, where they encode one.
    pub decoded: Option<Registry>,
}

impl StoredBlob {
    /// The registry that the file encodes, where that is a sound one.
    pub open spec fn parsed(self) -> Option<RegistryView> {
        match self.decoded {
            Some(r) => if first_fault(r@.services, 0) is None {
                Some(healed(r@))
            } else {
                None
            },
            None => None,
        }
    }

    /// The registry that the file gives: none from an oversized or a blank one.
    pub open spec fn usable(self) -> Option<RegistryView> {
        if self.bytes@.len() > MAX_REGISTRY_BYTES || blank(self.bytes@) {
            None
        } else {
            self.parsed()
        }
    }
}

/// What the backup gives, where there is one.
pub open spec fn backup_gives(backup: Option<StoredBlob>) -> Option<RegistryView> {
    match backup {
        Some(b) => b.usable(),
        None => None,
    }
}

/// The registry that the live file and its backup give. A live file that is
/// missing or blank yields the backup or an empty registry; one that holds
/// anything else must be sound, or the backup is, or there is no registry.
pub open spec fn loads(live: Option<StoredBlob>, backup: Option<StoredBlob>) -> Option<RegistryView> {
    match live {
        Some(b) if !blank(b.bytes@) => match b.usable() {
            Some(r) => Some(r),
            None => backup_gives(backup),
        },
        _ => match backup_gives(backup) {
            Some(r) => Some(r),
            None => Some(empty_registry()),
        },
    }
}

/// One step of replacing the stored registry.
#[derive(Clone, Copy, Debug, PartialEq, Eq, Structural)]
pub enum SaveStep {
    /// Write the new registry to the temporary file, and make it durable.
    WriteTemp,
    /// Copy the live file over the backup.
    Promote,
    /// Rename the temporary file to the live one.
    Commit,
    /// Make the renaming durable.
    SyncDirectory,
}

/// The steps that replace a live file that holds `previous`.
pub open spec fn saving(previous: Option<StoredBlob>) -> Seq<SaveStep> {
    if backup_gives(previous) is Some {
        seq![SaveStep::WriteTemp, SaveStep::Promote, SaveStep::Commit, SaveStep::SyncDirectory]
    } else {
        seq![SaveStep::WriteTemp, SaveStep::Commit, SaveStep::SyncDirectory]
    }
}

/// The id that is handed out where the counter stands at `next`.
pub open spec fn handed_out(next: u64) -> u64 {
    if next == 0 {
        1
    } else {
        next
    }
}

/// What is told of a registry that cannot be loaded.
pub open spec fn corrupted_words(path: Seq<char>) -> Seq<char> {
    "registry file "@ + path + " is corrupted"@
}

impl Registry {
    /// The registry that the stored files give: the live one, else its backup,
    /// else an empty one. Content that is neither sound nor backed up is an
    /// error, never an empty registry.
    pub fn load(path: &str, live: Option<StoredBlob>, backup: Option<StoredBlob>) -> (r: Result<
        Registry,
        String,
    >)
        ensures
            match r {
                Ok(reg) => loads(live, backup) == Some(reg@),
                Err(e) => loads(live, backup) is None && e@ == corrupted_words(path@),
            },
    {
        match live {
            Some(b) => {
                if !is_blank(b.bytes.as_slice()) {
                    if b.bytes.len() <= MAX_REGISTRY_BYTES {
                        if let Some(reg) = Registry::parse(b.decoded) {
                            return Ok(reg);
                        }
                    }
                    return match Registry::load_backup(backup) {
                        Some(reg) => Ok(reg),
                        None => {
                            let mut e = "registry file ".to_owned();
                            e.append(path);
                            e.append(" is corrupted");
                            Err(e)
                        },
                    };
                }
            },
            None => {},
        }
        match Registry::load_backup(backup) {
            Some(reg) => Ok(reg),
            None => Ok(Registry::default()),
        }
    }

    /// The decoded registry, where it is sound.
    pub fn parse(decoded: Option<Registry>) -> (r: Option<Registry>)
        ensures
            match decoded {
                Some(d) => if first_fault(d@.services, 0) is None {
                    r matches Some(reg) && reg@ == healed(d@)
                } else {
                    r is None
                },
                None => r is None,
            },
    {
        match decoded {
            Some(d) => {
                let mut reg = d;
                match reg.validate() {
                    Ok(()) => Some(reg),
                    Err(_) => None,
                }
            },
            None => None,
        }
    }

    /// The registry that the backup gives, where it is usable.
    pub fn load_backup(backup: Option<StoredBlob>) -> (r: Option<Registry>)
        ensures
            match r {
                Some(reg) => backup_gives(backup) == Some(reg@),
                None => backup_gives(backup) is None,
            },
    {
        match backup {
            Some(b) => {
                if b.bytes.len() > MAX_REGISTRY_BYTES || is_blank(b.bytes.as_slice()) {
                    None
                } else {
                    Registry::parse(b.decoded)
                }
            },
            None => None,
        }
    }

    /// The steps that replace the stored registry, given what the live file holds
    /// before. It becomes the backup only where it holds a sound registry, so that
    /// the backup stays a good one.
    pub fn save(previous: Option<StoredBlob>) -> (r: Vec<SaveStep>)
        ensures
            r@ == saving(previous),
    {
        if Registry::load_backup(previous).is_some() {
            vec![
                SaveStep::WriteTemp,
                SaveStep::Promote,
                SaveStep::Commit,
                SaveStep::SyncDirectory,
            ]
        } else {
            vec![SaveStep::WriteTemp, SaveStep::Commit, SaveStep::SyncDirectory]
        }
    }

    /// Check the registry, and move its counter past every id. Unsound content is
    /// rejected, and then nothing is changed.
    pub fn validate(&mut self) -> (r: Result<(), RegistryError>)
        ensures
            match r {
                Ok(()) => first_fault(old(self)@.services, 0) is None && final(self)@ == healed(
                    old(self)@,
                ),
                Err(e) => first_fault(old(self)@.services, 0) == Some(e@) && *final(self) == *old(
                    self,
                ),
            },
            final(self).services@ == old(self).services@,
    {
        let mut i: usize = 0;
        while i < self.services.len()
            invariant
                i <= self.services@.len(),
                *self == *old(self),
                first_fault(self@.services, 0) == first_fault(self@.services, i as int),
            decreases self.services@.len() - i,
        {
            if let Some(e) = check_entry(&self.services, i) {
                return Err(e);
            }
            i = i + 1;
        }
        let top: u64 = highest_id(&self.services);
        if self.next_id <= top {
            self.next_id = top.saturating_add(1);
        }
        Ok(())
    }

    /// Hand out the next id and advance the counter, as far as it goes.
    pub fn allocate_id(&mut self) -> (r: u64)
        ensures
            r == handed_out(old(self).next_id),
            final(self).next_id == id_after(old(self).next_id),
            final(self).services@ == old(self).services@,
    {
        let id: u64 = if self.next_id < 1 {
            1
        } else {
            self.next_id
        };
        self.next_id = self.next_id.saturating_add(1);
        id
    }

    /// The position of the first service that `target` names.
    fn position_of(&self, target: &str) -> (r: Option<usize>)
        ensures
            match r {
                Some(i) => i < self.services@.len() && i == find_from(
                    self@.services,
                    target@,
                    0,
                ),
                None => find_from(self@.services, target@, 0) == self.services@.len(),
            },
    {
        let by_id = !target.is_empty() && text_all_digits(target);
        let wanted: Option<u64> = if by_id {
            parse_digits(target)
        } else {
            None
        };
        let mut i: usize = 0;
        while i < self.services.len()
            invariant
                i <= self.services@.len(),
                by_id == (target@.len() > 0 && all_digits(target@)),
                by_id ==> match wanted {
                    Some(n) => n as nat == decimal_value(target@),
                    None => decimal_value(target@) > u64::MAX,
                },
                find_from(self@.services, target@, 0) == find_from(
                    self@.services,
                    target@,
                    i as int,
                ),
            decreases self.services@.len() - i,
        {
            let hit = if by_id {
                match wanted {
                    Some(n) => self.services[i].id == n,
                    None => false,
                }
            } else {
                text_eq(self.services[i].name.as_str(), target)
            };
            assert(self@.services[i as int] == self.services@[i as int]@);
            assert(hit == targets(target@, self@.services[i as int]));
            if hit {
                return Some(i);
            }
            i = i + 1;
        }
        None
    }

    /// The service that `target` names, by its id or by its name. A row of digits
    /// is an id, never a name.
    pub fn find(&self, target: &str) -> (r: Option<&Service>)
        ensures
            match r {
                Some(s) => {
                    let i = find_from(self@.services, target@, 0);
                    0 <= i < self.services@.len() && *s == self.services@[i] && targets(
                        target@,
                        s@,
                    )
                },
                None => find_from(self@.services, target@, 0) == self.services@.len(),
            },
    {
        proof {
            lemma_find_from(self@.services, target@, 0);
        }
        match self.position_of(target) {
            Some(i) => Some(&self.services[i]),
            None => None,
        }
    }

    /// The service that `target` names, to be changed in place.
    pub fn find_mut(&mut self, target: &str) -> (r: Option<&mut Service>)
        ensures
            match r {
                Some(s) => {
                    let i = find_from(old(self)@.services, target@, 0);
                    &&& 0 <= i < old(self).services@.len()
                    &&& *s == old(self).services@[i]
                    &&& final(self).services@ == old(self).services@.update(i, *final(s))
                    &&& final(self).next_id == old(self).next_id
                },
                None => find_from(old(self)@.services, target@, 0) == old(self).services@.len()
                    && *final(self) == *old(self),
            },
    {
        proof {
            lemma_find_from(self@.services, target@, 0);
        }
        match self.position_of(target) {
            Some(i) => Some(&mut self.services[i]),
            None => None,
        }
    }

    /// Remove and hand out the first service with the id.
    pub fn remove(&mut self, id: u64) -> (r: Option<Service>)
        ensures
            final(self).next_id == old(self).next_id,
            match r {
                Some(s) => {
                    let i = id_from(old(self)@.services, id, 0);
                    &&& 0 <= i < old(self).services@.len()
                    &&& s == old(self).services@[i]
                    &&& final(self).services@ == old(self).services@.remove(i)
                },
                None => id_from(old(self)@.services, id, 0) == old(self).services@.len()
                    && final(self).services@ == old(self).services@,
            },
    {
        let mut i: usize = 0;
        while i < self.services.len()
            invariant
                i <= self.services@.len(),
                *self == *old(self),
                id_from(self@.services, id, 0) == id_from(self@.services, id, i as int),
            decreases self.services@.len() - i,
        {
            assert(self@.services[i as int].id == self.services@[i as int].id);
            if self.services[i].id == id {
                return Some(self.services.remove(i));
            }
            i = i + 1;
        }
        None
    }

    /// Whether a service with the name is registered.
    pub fn name_exists(&self, name: &str) -> (r: bool)
        ensures
            r == name_among(self@.services, self@.services.len() as int, name@),
    {
        has_name_among(&self.services, self.services.len(), name)
    }
}

// ---------------------------------------------------------------------------
// Laws
// ---------------------------------------------------------------------------

/// No id is above the highest.
pub proof fn lemma_max_id(s: Seq<ServiceView>)
    ensures
        forall|i: int| 0 <= i < s.len() ==> (#[trigger] s[i]).id <= max_id(s),
    decreases s.len(),
{
    if s.len() > 0 {
        lemma_max_id(s.drop_last());
        assert forall|i: int| 0 <= i < s.len() implies (#[trigger] s[i]).id <= max_id(s) by {
            if i < s.len() - 1 {
                assert(s.drop_last()[i] == s[i]);
            }
        }
    }
}

/// What bounds every id bounds the highest.
pub proof fn lemma_max_id_le(s: Seq<ServiceView>, bound: u64)
    requires
        forall|i: int| 0 <= i < s.len() ==> (#[trigger] s[i]).id <= bound,
    ensures
        max_id(s) <= bound,
    decreases s.len(),
{
    if s.len() > 0 {
        assert forall|i: int| 0 <= i < s.drop_last().len() implies (#[trigger] s.drop_last()[i]).id
            <= bound by {
            assert(s.drop_last()[i] == s[i]);
        }
        lemma_max_id_le(s.drop_last(), bound);
        assert(s.last() == s[s.len() - 1]);
    }
}

/// No fault from position `i` on means none at any of those positions.
proof fn lemma_first_fault(s: Seq<ServiceView>, i: int)
    requires
        0 <= i <= s.len(),
    ensures
        first_fault(s, i) is None <==> forall|k: int|
            i <= k < s.len() ==> (#[trigger] entry_fault(s, k)) is None,
    decreases s.len() - i,
{
    if i < s.len() {
        lemma_first_fault(s, i + 1);
    }
}

/// A registry is accepted exactly where its services are sound: every one has an
/// id, a name, a port, and a directory as its kind demands, and no two share an
/// id or a name.
pub proof fn law_accepted_iff_sound(s: Seq<ServiceView>)
    ensures
        first_fault(s, 0) is None <==> sound_services(s),
{
    lemma_first_fault(s, 0);
    if first_fault(s, 0) is None {
        assert forall|i: int| 0 <= i < s.len() implies sound_entry(#[trigger] s[i]) by {
            assert(entry_fault(s, i) is None);
        }
        assert forall|i: int, j: int| 0 <= i < j < s.len() implies (#[trigger] s[i]).id != (
        #[trigger] s[j]).id by {
            assert(entry_fault(s, j) is None);
            if s[i].id == s[j].id {
                assert(id_among(s, j, s[j].id));
            }
        }
        assert forall|i: int, j: int| 0 <= i < j < s.len() implies (#[trigger] s[i]).name != (
        #[trigger] s[j]).name by {
            assert(entry_fault(s, j) is None);
            if s[i].name == s[j].name {
                assert(name_among(s, j, s[j].name));
            }
        }
    }
    if sound_services(s) {
        assert forall|k: int| 0 <= k < s.len() implies (#[trigger] entry_fault(s, k)) is None by {
            assert(sound_entry(s[k]));
        }
    }
}

/// A registry that was accepted is sound, its counter is ahead of every id as far
/// as it can be, and accepting it again changes nothing.
pub proof fn law_accepting_heals_once(r: RegistryView)
    requires
        sound_services(r.services),
    ensures
        sound(healed(r)),
        healed(healed(r)) == healed(r),
{
}

/// Whatever is loaded is sound.
pub proof fn law_loaded_registry_is_sound(live: Option<StoredBlob>, backup: Option<StoredBlob>)
    ensures
        loads(live, backup) matches Some(r) ==> sound(r),
{
    if let Some(b) = live {
        if let Some(d) = b.decoded {
            law_accepted_iff_sound(d@.services);
        }
    }
    if let Some(b) = backup {
        if let Some(d) = b.decoded {
            law_accepted_iff_sound(d@.services);
        }
    }
}

/// A live file that holds something but no sound registry never yields an empty
/// registry: without a usable backup there is an error.
pub proof fn law_corruption_is_never_silent(live: StoredBlob, backup: Option<StoredBlob>)
    requires
        !blank(live.bytes@),
        live.usable() is None,
        backup_gives(backup) is None,
    ensures
        loads(Some(live), backup) is None,
{
}

/// The files of the registry.
pub ghost struct Files {
    pub temp: Option<StoredBlob>,
    pub live: Option<StoredBlob>,
    pub backup: Option<StoredBlob>,
}

/// The files once a step is done that stores `new`.
pub open spec fn after_step(f: Files, step: SaveStep, new: StoredBlob) -> Files {
    match step {
        SaveStep::WriteTemp => Files { temp: Some(new), ..f },
        SaveStep::Promote => Files { backup: f.live, ..f },
        SaveStep::Commit => Files { temp: None, live: f.temp, ..f },
        SaveStep::SyncDirectory => f,
    }
}

/// The files when a step is cut short: the file that it writes may hold anything,
/// and a renaming takes place as a whole or not at all.
pub open spec fn cut_short(f: Files, step: SaveStep, junk: Option<StoredBlob>) -> Files {
    match step {
        SaveStep::WriteTemp => Files { temp: junk, ..f },
        SaveStep::Promote => Files { backup: junk, ..f },
        SaveStep::Commit => f,
        SaveStep::SyncDirectory => f,
    }
}

/// The files after the first `n` steps.
pub open spec fn after_steps(f: Files, steps: Seq<SaveStep>, new: StoredBlob, n: nat) -> Files
    decreases n,
{
    if n == 0 {
        f
    } else {
        after_step(after_steps(f, steps, new, (n - 1) as nat), steps[n - 1], new)
    }
}

/// However a save is cut short, what is loaded afterwards is the registry from
/// before or the new one; and once it is through, it is the new one.
pub proof fn law_saving_loses_nothing(
    f: Files,
    new: StoredBlob,
    n: nat,
    junk: Option<StoredBlob>,
)
    requires
        loads(f.live, f.backup) is Some,
        new.usable() is Some,
        n < saving(f.live).len(),
    ensures
        ({
            let steps = saving(f.live);
            let reached = after_steps(f, steps, new, n);
            let cut = cut_short(reached, steps[n as int], junk);
            let done = after_steps(f, steps, new, steps.len());
            &&& loads(cut.live, cut.backup) == loads(f.live, f.backup) || loads(
                cut.live,
                cut.backup,
            ) == new.usable()
            &&& loads(done.live, done.backup) == new.usable()
        }),
{
    reveal_with_fuel(after_steps, 5);
}

/// What was saved reads back as it was: once a save is through whose bytes decode to
/// the sound registry that they stand for, that registry is loaded, counter and
/// services alike.
pub proof fn law_saved_registry_reads_back(f: Files, new: StoredBlob, r: Registry)
    requires
        new.decoded == Some(r),
        new.bytes@.len() <= MAX_REGISTRY_BYTES,
        !blank(new.bytes@),
        sound(r@),
    ensures
        ({
            let done = after_steps(f, saving(f.live), new, saving(f.live).len());
            loads(done.live, done.backup) == Some(r@)
        }),
{
    reveal_with_fuel(after_steps, 5);
    law_accepted_iff_sound(r@.services);
}

/// After a save that is through, the backup gives what the live file gave before,
/// if that was sound, and is left alone otherwise.
pub proof fn law_backup_stays_good(f: Files, new: StoredBlob)
    ensures
        ({
            let done = after_steps(f, saving(f.live), new, saving(f.live).len());
            done.backup == if backup_gives(f.live) is Some {
                f.live
            } else {
                f.backup
            }
        }),
{
    reveal_with_fuel(after_steps, 5);
}

/// The id that a sound registry hands out belongs to none of its services, unless
/// the counter has reached the highest number there is.
pub proof fn law_allocated_id_is_fresh(r: RegistryView)
    requires
        sound(r),
        r.next_id < u64::MAX,
    ensures
        !id_among(
            r.services,
            r.services.len() as int,
            if r.next_id == 0 {
                1
            } else {
                r.next_id
            },
        ),
{
    lemma_max_id(r.services);
}

/// No id is handed out twice: the counter of a sound registry is itself the next
/// id, moves past it when it is handed out, and is never moved back by accepting a
/// registry; unless it has reached the highest number there is.
pub proof fn law_no_id_is_handed_out_twice(r: RegistryView)
    requires
        sound(r),
        r.next_id < u64::MAX,
    ensures
        r.next_id > 0,
        id_after(r.next_id) > r.next_id,
        healed(r).next_id >= r.next_id,
{
}

/// A sound registry stays sound when a sound entry with a fresh name is added
/// under the id that it hands out, unless the counter has reached the highest
/// number there is.
pub proof fn law_adding_keeps_sound(r: RegistryView, e: ServiceView)
    requires
        sound(r),
        r.next_id < u64::MAX,
        sound_entry(e),
        e.id == if r.next_id == 0 {
            1
        } else {
            r.next_id
        },
        !name_among(r.services, r.services.len() as int, e.name),
    ensures
        sound(RegistryView { next_id: id_after(r.next_id), services: r.services.push(e) }),
{
    law_allocated_id_is_fresh(r);
    lemma_max_id(r.services);
    let s = r.services.push(e);
    assert forall|i: int, j: int| 0 <= i < j < s.len() implies (#[trigger] s[i]).id != (
    #[trigger] s[j]).id by {
        if j == r.services.len() && s[i].id == s[j].id {
            assert(r.services[i].id == e.id);
        }
    }
    assert forall|i: int, j: int| 0 <= i < j < s.len() implies (#[trigger] s[i]).name != (
    #[trigger] s[j]).name by {
        if j == r.services.len() && s[i].name == s[j].name {
            assert(r.services[i].name == e.name);
        }
    }
    assert(s.drop_last() =~= r.services);
}

/// A sound registry stays sound when one of its services is removed.
pub proof fn law_removing_keeps_sound(r: RegistryView, i: int)
    requires
        sound(r),
        0 <= i < r.services.len(),
    ensures
        sound(RegistryView { next_id: r.next_id, services: r.services.remove(i) }),
{
    let s = r.services.remove(i);
    assert forall|k: int| 0 <= k < s.len() implies sound_entry(#[trigger] s[k]) by {
        assert(s[k] == r.services[if k < i {
            k
        } else {
            k + 1
        }]);
    }
    assert forall|k: int, m: int| 0 <= k < m < s.len() implies (#[trigger] s[k]).id != (
    #[trigger] s[m]).id by {
        assert(s[k] == r.services[if k < i {
            k
        } else {
            k + 1
        }]);
        assert(s[m] == r.services[if m < i {
            m
        } else {
            m + 1
        }]);
    }
    assert forall|k: int, m: int| 0 <= k < m < s.len() implies (#[trigger] s[k]).name != (
    #[trigger] s[m]).name by {
        assert(s[k] == r.services[if k < i {
            k
        } else {
            k + 1
        }]);
        assert(s[m] == r.services[if m < i {
            m
        } else {
            m + 1
        }]);
    }
    lemma_max_id(r.services);
    assert forall|k: int| 0 <= k < s.len() implies (#[trigger] s[k]).id <= max_id(r.services) by {
        assert(s[k] == r.services[if k < i {
            k
        } else {
            k + 1
        }]);
    }
    lemma_max_id_le(s, max_id(r.services));
}

/// Once the service with an id is removed from a sound registry, nothing with
/// that id is left in it.
pub proof fn law_removed_id_is_gone(r: RegistryView, id: u64)
    requires
        sound(r),
        id_from(r.services, id, 0) < r.services.len(),
    ensures
        !id_among(
            r.services.remove(id_from(r.services, id, 0)),
            r.services.len() - 1,
            id,
        ),
{
    let i = id_from(r.services, id, 0);
    lemma_id_from(r.services, id, 0);
    let s = r.services.remove(i);
    assert forall|k: int| 0 <= k < s.len() implies (#[trigger] s[k]).id != id by {
        assert(s[k] == r.services[if k < i {
            k
        } else {
            k + 1
        }]);
    }
}

/// The numeral of a service's id finds that service in a sound registry, whatever
/// the names of the others are.
pub proof fn law_numeral_finds_the_id(r: RegistryView, i: int)
    requires
        sound(r),
        0 <= i < r.services.len(),
    ensures
        find_from(r.services, decimal(r.services[i].id as nat), 0) == i,
{
    let target = decimal(r.services[i].id as nat);
    lemma_decimal(r.services[i].id as nat);
    lemma_find_from(r.services, target, 0);
    let k = find_from(r.services, target, 0);
    assert(targets(target, r.services[i]));
    if k > i {
        assert(false);
    } else if k < i {
        assert(r.services[k].id == r.services[i].id);
    }
}

/// Looking for the numeral of an id is looking for the id.
pub proof fn lemma_numeral_is_the_id(s: Seq<ServiceView>, id: u64, i: int)
    requires
        0 <= i <= s.len(),
    ensures
        find_from(s, decimal(id as nat), i) == id_from(s, id, i),
    decreases s.len() - i,
{
    lemma_decimal(id as nat);
    if i < s.len() && s[i].id != id {
        lemma_numeral_is_the_id(s, id, i + 1);
    }
}

/// The services at the given positions.
pub open spec fn picked(s: Seq<ServiceView>, at: Seq<int>) -> Seq<ServiceView> {
    Seq::new(at.len(), |i: int| s[at[i]])
}

/// The positions rise and lie below `n`.
pub open spec fn rising(at: Seq<int>, n: int) -> bool {
    &&& forall|i: int| 0 <= i < at.len() ==> 0 <= #[trigger] at[i] < n
    &&& forall|i: int, j: int| 0 <= i < j < at.len() ==> #[trigger] at[i] < #[trigger] at[j]
}

/// A sound registry stays sound when only some of its services are kept, in their
/// order.
pub proof fn law_keeping_some_keeps_sound(r: RegistryView, at: Seq<int>)
    requires
        sound(r),
        rising(at, r.services.len() as int),
    ensures
        sound(RegistryView { next_id: r.next_id, services: picked(r.services, at) }),
{
    let s = picked(r.services, at);
    assert forall|i: int| 0 <= i < s.len() implies sound_entry(#[trigger] s[i]) by {
        assert(s[i] == r.services[at[i]]);
    }
    assert forall|i: int, j: int| 0 <= i < j < s.len() implies (#[trigger] s[i]).id != (
    #[trigger] s[j]).id by {
        assert(at[i] < at[j]);
        assert(s[i] == r.services[at[i]] && s[j] == r.services[at[j]]);
    }
    assert forall|i: int, j: int| 0 <= i < j < s.len() implies (#[trigger] s[i]).name != (
    #[trigger] s[j]).name by {
        assert(at[i] < at[j]);
        assert(s[i] == r.services[at[i]] && s[j] == r.services[at[j]]);
    }
    lemma_max_id(r.services);
    assert forall|i: int| 0 <= i < s.len() implies (#[trigger] s[i]).id <= max_id(r.services) by {
        assert(s[i] == r.services[at[i]]);
    }
    lemma_max_id_le(s, max_id(r.services));
}

/// The two services stand in each other's way: they share an id or a name.
pub open spec fn clash(a: ServiceView, b: ServiceView) -> bool {
    a.id == b.id || a.name == b.name
}

/// The service breaks a rule by itself: it has the id 0, no name or the port 0, or it
/// serves a directory and has none, or fronts a server and has one.
pub open spec fn broken(e: ServiceView) -> bool {
    ||| e.id == 0
    ||| e.name == Seq::<char>::empty()
    ||| e.port == 0
    ||| e.kind == ServiceKind::Static && e.dir is None
    ||| e.kind == ServiceKind::Proxy && e.dir is Some
}

/// A registry is accepted exactly where no service breaks a rule by itself and no two
/// stand in each other's way. Every other combination is accepted.
pub proof fn law_rules_of_a_registry(s: Seq<ServiceView>)
    ensures
        first_fault(s, 0) is None <==> (forall|i: int|
            0 <= i < s.len() ==> !broken(#[trigger] s[i])) && (forall|i: int, j: int|
            0 <= i < j < s.len() ==> !clash(#[trigger] s[i], #[trigger] s[j])),
{
    law_accepted_iff_sound(s);
    if sound_services(s) {
        assert forall|i: int| 0 <= i < s.len() implies !broken(#[trigger] s[i]) by {
            assert(sound_entry(s[i]));
        }
    } else if forall|i: int| 0 <= i < s.len() ==> !broken(#[trigger] s[i]) {
        assert forall|i: int| 0 <= i < s.len() implies sound_entry(#[trigger] s[i]) by {
            assert(!broken(s[i]));
            if s[i].name.len() == 0 {
                assert(s[i].name =~= Seq::<char>::empty());
            }
        }
        if forall|i: int, j: int| 0 <= i < j < s.len() ==> !clash(#[trigger] s[i], #[trigger] s[j]) {
            assert forall|i: int, j: int| 0 <= i < j < s.len() implies (#[trigger] s[i]).id != (
            #[trigger] s[j]).id by {
                assert(!clash(s[i], s[j]));
            }
            assert forall|i: int, j: int| 0 <= i < j < s.len() implies (#[trigger] s[i]).name != (
            #[trigger] s[j]).name by {
                assert(!clash(s[i], s[j]));
            }
        }
    }
}

/// What a refusal tells is true of the registry: the entry that it names is there and
/// breaks the rule that it names.
pub proof fn law_refusals_are_true(s: Seq<ServiceView>, k: int)
    requires
        0 <= k < s.len(),
        forall|j: int| 0 <= j < k ==> entry_fault(s, j) is None,
        entry_fault(s, k) is Some,
    ensures
        first_fault(s, 0) == entry_fault(s, k),
        match first_fault(s, 0)->0 {
            Fault::ReservedId(n) => s[k].id == 0 && n == s[k].name,
            Fault::DuplicateId(id) => s[k].id == id && exists|j: int|
                0 <= j < k && (#[trigger] s[j]).id == id,
            Fault::EmptyName(id) => s[k].id == id && s[k].name.len() == 0,
            Fault::DuplicateName(n) => s[k].name == n && exists|j: int|
                0 <= j < k && (#[trigger] s[j]).name == n,
            Fault::ReservedPort(n) => s[k].port == 0 && n == s[k].name,
            Fault::NoDirectory(n) => s[k].kind == ServiceKind::Static && s[k].dir is None && n
                == s[k].name,
            Fault::UnexpectedDirectory(n) => s[k].kind == ServiceKind::Proxy && s[k].dir is Some
                && n == s[k].name,
        },
{
    lemma_fault_is_the_first(s, 0, k);
}

/// The fault that is told is the first.
proof fn lemma_fault_is_the_first(s: Seq<ServiceView>, i: int, k: int)
    requires
        0 <= i <= k < s.len(),
        forall|j: int| i <= j < k ==> entry_fault(s, j) is None,
        entry_fault(s, k) is Some,
    ensures
        first_fault(s, i) == entry_fault(s, k),
    decreases k - i,
{
    if i < k {
        assert(entry_fault(s, i) is None);
        lemma_fault_is_the_first(s, i + 1, k);
    }
}

/// What is refused is told with the name or the number that it is about.
pub proof fn law_refusals_name_what_they_are_about(n: Seq<char>, id: u64)
    ensures
        occurs_in(Fault::ReservedId(n).words(), quoted(n)),
        occurs_in(Fault::DuplicateName(n).words(), quoted(n)),
        occurs_in(Fault::ReservedPort(n).words(), quoted(n)),
        occurs_in(Fault::NoDirectory(n).words(), quoted(n)),
        occurs_in(Fault::UnexpectedDirectory(n).words(), quoted(n)),
        Fault::DuplicateId(id).words() == "duplicate service id "@ + decimal(id as nat),
        Fault::EmptyName(id).words() == "service id "@ + decimal(id as nat)
            + " has an empty name"@,
{
    lemma_stands_between("service "@, quoted(n), " has reserved id 0"@);
    lemma_stands_between("duplicate service name "@, quoted(n), Seq::empty());
    assert("duplicate service name "@ + quoted(n) + Seq::<char>::empty()
        =~= "duplicate service name "@ + quoted(n));
    lemma_stands_between("service "@, quoted(n), " has reserved port 0"@);
    lemma_stands_between("static service "@, quoted(n), " has no directory"@);
    lemma_stands_between("proxy service "@, quoted(n), " must not carry a directory"@);
}

/// Accepting a registry moves its counter past every id, as far as it goes, and not
/// further than it must: a counter that is past them all stays, and any other goes right
/// behind some id. The services stay as they are.
pub proof fn law_counter_is_moved_past_every_id(r: RegistryView, i: int)
    ensures
        healed(r).services == r.services,
        0 <= i < r.services.len() ==> healed(r).next_id > r.services[i].id
            || r.services[i].id == u64::MAX,
        healed(r).next_id >= r.next_id,
        (forall|k: int| 0 <= k < r.services.len() ==> (#[trigger] r.services[k]).id < r.next_id)
            && r.next_id > 0 ==> healed(r).next_id == r.next_id,
        r.next_id < healed(r).next_id < u64::MAX && r.services.len() > 0 ==> exists|k: int|
            0 <= k < r.services.len() && healed(r).next_id == (#[trigger] r.services[k]).id + 1,
{
    lemma_max_id(r.services);
    lemma_max_id_is_there(r.services);
    if (forall|k: int| 0 <= k < r.services.len() ==> (#[trigger] r.services[k]).id < r.next_id)
        && r.next_id > 0 {
        lemma_max_id_le(r.services, (r.next_id - 1) as u64);
    }
}

/// The highest id is that of some service.
proof fn lemma_max_id_is_there(s: Seq<ServiceView>)
    ensures
        s.len() > 0 ==> exists|k: int| 0 <= k < s.len() && (#[trigger] s[k]).id == max_id(s),
    decreases s.len(),
{
    if s.len() > 0 {
        lemma_max_id_is_there(s.drop_last());
        let front = s.drop_last();
        if max_id(front) < s.last().id {
            assert(s[s.len() - 1].id == max_id(s));
        } else if front.len() > 0 {
            let k = choose|k: int| 0 <= k < front.len() && (#[trigger] front[k]).id == max_id(
                front,
            );
            assert(s[k].id == max_id(s));
        } else {
            assert(s[s.len() - 1].id == max_id(s));
        }
    }
}

/// A row of digits names the service with that id and no other, whatever its name is;
/// anything else names the service that is called so.
pub proof fn law_targets_are_ids_or_names(target: Seq<char>, id: u64, s: ServiceView)
    ensures
        targets(decimal(id as nat), s) <==> s.id == id,
        (exists|i: int| 0 <= i < target.len() && !('0' <= #[trigger] target[i] <= '9')) ==> (targets(
            target,
            s,
        ) <==> s.name == target),
{
    lemma_decimal(id as nat);
    if exists|i: int| 0 <= i < target.len() && !('0' <= #[trigger] target[i] <= '9') {
        let i = choose|i: int| 0 <= i < target.len() && !('0' <= #[trigger] target[i] <= '9');
        crate::text::law_digits_and_letters_are_ascii(target[i]);
        assert(!crate::text::is_digit(target[i]));
    }
}

/// What is found is the first service that the target names; nothing is found only where
/// it names none.
pub proof fn law_first_named_service_is_found(s: Seq<ServiceView>, target: Seq<char>, i: int)
    ensures
        0 <= i < s.len() && targets(target, s[i]) && (forall|k: int|
            0 <= k < i ==> !targets(target, #[trigger] s[k])) ==> find_from(s, target, 0) == i,
        (forall|k: int| 0 <= k < s.len() ==> !targets(target, #[trigger] s[k])) ==> find_from(
            s,
            target,
            0,
        ) == s.len(),
{
    lemma_find_from(s, target, 0);
}

/// A file gives a registry exactly where it is no larger than 16 MiB, is not blank, and
/// decodes to one that is accepted; and then it gives its services as they are.
pub proof fn law_files_that_give_a_registry(b: StoredBlob)
    ensures
        b.usable() is Some <==> b.bytes@.len() <= 16 * 1024 * 1024 && !blank(b.bytes@)
            && b.decoded is Some && first_fault(b.decoded->0@.services, 0) is None,
        b.usable() is Some ==> b.usable()->0.services == b.decoded->0@.services && b.usable()
            == Some(healed(b.decoded->0@)),
{
}

/// The live file is loaded where it gives a registry. Where it is missing or blank, or
/// holds something else, the backup is, where that gives one; and otherwise there is an
/// empty registry in the first case and none in the second.
pub proof fn law_which_file_is_loaded(live: StoredBlob, backup: Option<StoredBlob>)
    ensures
        live.usable() is Some ==> loads(Some(live), backup) == live.usable(),
        live.usable() is None && backup is Some && backup->0.usable() is Some ==> loads(
            Some(live),
            backup,
        ) == backup->0.usable(),
        backup is Some && backup->0.usable() is Some ==> loads(None, backup) == backup->0.usable(),
        backup is None || backup->0.usable() is None ==> {
            &&& loads(None, backup) == Some(empty_registry())
            &&& blank(live.bytes@) ==> loads(Some(live), backup) == Some(empty_registry())
            &&& !blank(live.bytes@) && live.usable() is None ==> loads(Some(live), backup) is None
        },
        empty_registry().next_id == 1 && empty_registry().services.len() == 0,
{
}

/// A save writes the new registry elsewhere before it touches anything, keeps the one
/// from before where that is worth it, and only then puts the new one in its place; the
/// renaming is made durable last.
pub proof fn law_saving_goes_in_order(previous: Option<StoredBlob>)
    ensures
        saving(previous)[0] == SaveStep::WriteTemp,
        saving(previous).last() == SaveStep::SyncDirectory,
        saving(previous)[saving(previous).len() - 2] == SaveStep::Commit,
        previous is Some && previous->0.usable() is Some ==> saving(previous).len() == 4
            && saving(previous)[1] == SaveStep::Promote,
        previous is None || previous->0.usable() is None ==> saving(previous).len() == 3,
{
}

/// The id after another is one higher, as long as there is one.
pub proof fn law_ids_rise_by_one(id: u64)
    ensures
        id < u64::MAX ==> id_after(id) == id + 1,
        id_after(u64::MAX) == u64::MAX,
{
}

/// The id that is handed out is the one that the counter stands at, never 0, and the
/// counter moves past it as far as it can.
pub proof fn law_handed_out_ids_are_left_behind(next: u64)
    ensures
        next > 0 ==> handed_out(next) == next,
        handed_out(next) > 0,
        0 < next < u64::MAX ==> id_after(next) > handed_out(next),
{
}

/// What is told of a registry that cannot be loaded names its file.
pub proof fn law_corrupted_registries_are_named(path: Seq<char>)
    ensures
        crate::text::occurs_in(corrupted_words(path), path),
{
    crate::text::lemma_stands_between("registry file "@, path, " is corrupted"@);
}

} // verus!
