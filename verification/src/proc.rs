//! Which process stands behind a pid, and what it is sent.
//!
//! A pid alone says little: the system hands it out again once its process is
//! gone. So a process is signalled only where its command line (or its image)
//! shows it to be one of ours. Reading those is left to the caller, who hands in
//! an [`Identity`]; the signals are handed back as [`Signal`]s to send.

use vstd::prelude::*;
use vstd::slice::slice_subrange;
use vstd::string::*;
use vstd::utf8::*;

use crate::bytes::{byte_index_from, bytes_between, memmem, utf8_text};
use crate::text::{
    char_occurs_at, chars_of, decimal, decimal_text, has_suffix, index_from,
    law_joined_texts_split_apart, lemma_index_at, lower, occurs_in, same_ignoring_case, split,
    split_from, text_contains, text_eq,
};

verus! {

/// Cap on a `KERN_PROCARGS2` block: one above it cannot be one of ours.
pub const MAX_PROCARGS_BYTES: usize = 1_048_576;

/// What the system tells of the process behind a pid.
#[derive(Debug)]
pub enum Identity {
    /// What `/proc/<pid>/cmdline` holds, where it can be read (Linux).
    Cmdline(Option<Vec<u8>>),
    /// The `KERN_PROCARGS2` block, where it can be fetched (macOS).
    ProcArgs(Option<Vec<u8>>),
    /// The path of the image, where it can be queried (Windows).
    Image(Option<String>),
    /// Only whether the process exists (any other system).
    Liveness(bool),
}

/// Among the parts of a `cmdline` file is one that is UTF-8 and in which `needle`
/// stands.
pub open spec fn cmdline_matches(parts: Seq<Seq<u8>>, needle: Seq<char>) -> bool {
    exists|k: int|
        0 <= k < parts.len() && valid_utf8(#[trigger] parts[k]) && occurs_in(
            decode_utf8(parts[k]),
            needle,
        )
}

/// Whether one of the NUL-separated arguments in `bytes` contains `needle`.
/// Arguments that are not UTF-8 match nothing.
pub fn cmdline_contains(bytes: &[u8], needle: &str) -> (r: bool)
    ensures
        r == cmdline_matches(split_from(bytes@, 0u8, 0), needle@),
{
    let mut i: usize = 0;
    let ghost parts = split_from(bytes@, 0u8, 0);
    let ghost mut done: int = 0;
    assert(parts.subrange(0, parts.len() as int) =~= parts);
    loop
        invariant
            i <= bytes@.len(),
            parts == split_from(bytes@, 0u8, 0),
            0 <= done <= parts.len(),
            parts.subrange(done, parts.len() as int) == split_from(bytes@, 0u8, i as int),
            forall|k: int|
                0 <= k < done ==> !(valid_utf8(#[trigger] parts[k]) && occurs_in(
                    decode_utf8(parts[k]),
                    needle@,
                )),
        decreases bytes@.len() - i,
    {
        let j: usize = byte_index_from(bytes, 0u8, i);
        let ghost rest = split_from(bytes@, 0u8, i as int);
        let part = slice_subrange(bytes, i, j);
        assert(rest[0] == part@) by {
            if j == bytes@.len() {
                assert(bytes@.subrange(i as int, j as int) =~= bytes@.subrange(
                    i as int,
                    bytes@.len() as int,
                ));
            }
        }
        assert(rest.len() >= 1);
        assert(parts[done] == rest[0]) by {
            assert(parts.subrange(done, parts.len() as int)[0] == parts[done]);
        }
        if let Some(s) = utf8_text(part) {
            if text_contains(s.as_str(), needle) {
                return true;
            }
        }
        if j >= bytes.len() {
            assert(done + 1 == parts.len());
            return false;
        }
        proof {
            assert(rest.subrange(1, rest.len() as int) =~= split_from(bytes@, 0u8, j + 1));
            assert(parts.subrange(done + 1, parts.len() as int) =~= rest.subrange(
                1,
                rest.len() as int,
            ));
            done = done + 1;
        }
        i = j + 1;
    }
}

/// The number of arguments that a `KERN_PROCARGS2` block announces: its first
/// four bytes, the lowest first.
pub open spec fn announced_args(blob: Seq<u8>) -> nat {
    (blob[0] + 256 * blob[1] + 65_536 * blob[2] + 16_777_216 * blob[3]) as nat
}

/// The first position from `i` on that holds no NUL.
pub open spec fn skip_nuls(blob: Seq<u8>, i: int) -> int
    decreases blob.len() - i,
{
    if i < blob.len() && blob[i] == 0 {
        skip_nuls(blob, i + 1)
    } else {
        i
    }
}

/// Among the next `n` NUL-terminated entries from position `i` on there is one
/// in which `needle` stands.
pub open spec fn entry_matches(blob: Seq<u8>, needle: Seq<u8>, i: int, n: nat) -> bool
    decreases n,
{
    if n == 0 || i >= blob.len() {
        false
    } else {
        let end = index_from(blob, 0u8, i);
        occurs_in(blob.subrange(i, end), needle) || entry_matches(
            blob,
            needle,
            end + 1,
            (n - 1) as nat,
        )
    }
}

/// Behind the announced number, the path of the program and the padding, one of
/// the announced arguments contains `needle`. What follows them is the
/// environment, which is not searched.
pub open spec fn argv_matches(blob: Seq<u8>, needle: Seq<u8>) -> bool {
    let end = index_from(blob, 0u8, 4);
    blob.len() >= 4 && announced_args(blob) > 0 && end < blob.len() && entry_matches(
        blob,
        needle,
        skip_nuls(blob, end + 1),
        announced_args(blob),
    )
}

/// Whether one of the arguments in a `KERN_PROCARGS2` block contains `needle`.
pub fn argv_contains(blob: &[u8], needle: &str) -> (r: bool)
    ensures
        r == argv_matches(blob@, encode_utf8(needle@)),
{
    if blob.len() < 4 {
        return false;
    }
    let argc: u64 = blob[0] as u64 + 256 * (blob[1] as u64) + 65_536 * (blob[2] as u64)
        + 16_777_216 * (blob[3] as u64);
    if argc == 0 {
        return false;
    }
    let exec_end: usize = byte_index_from(blob, 0u8, 4);
    if exec_end >= blob.len() {
        return false;
    }
    let mut pos: usize = exec_end + 1;
    while pos < blob.len() && blob[pos] == 0
        invariant
            exec_end < pos <= blob@.len(),
            skip_nuls(blob@, exec_end + 1) == skip_nuls(blob@, pos as int),
        decreases blob@.len() - pos,
    {
        pos = pos + 1;
    }
    let needle_bytes = needle.as_bytes();
    let mut left: u64 = argc;
    while left > 0
        invariant
            pos <= blob@.len(),
            needle_bytes@ == encode_utf8(needle@),
            left <= argc,
            argv_matches(blob@, encode_utf8(needle@)) == entry_matches(
                blob@,
                encode_utf8(needle@),
                pos as int,
                left as nat,
            ),
        decreases left,
    {
        if pos >= blob.len() {
            return false;
        }
        let entry_end: usize = byte_index_from(blob, 0u8, pos);
        if memmem(slice_subrange(blob, pos, entry_end), needle_bytes) {
            return true;
        }
        if entry_end >= blob.len() {
            assert(!entry_matches(blob@, needle_bytes@, entry_end + 1, (left - 1) as nat));
            return false;
        }
        pos = entry_end + 1;
        left = left - 1;
    }
    false
}

/// The image that a process with `needle` in its command line runs, on systems
/// where only the image is known.
pub open spec fn image_wanted(needle: Seq<char>) -> Option<Seq<char>> {
    if needle == "run-worker"@ || needle == "--foreground"@ {
        Some("ft.exe"@)
    } else if needle == "cloudflared"@ {
        Some("cloudflared.exe"@)
    } else {
        None
    }
}

/// `s` with its ASCII capital letters made small.
pub open spec fn lower_all(s: Seq<char>) -> Seq<char> {
    Seq::new(s.len(), |i: int| lower(s[i]))
}

/// The process behind the identity carries `needle`.
pub open spec fn matches_needle(id: Identity, needle: Seq<char>) -> bool {
    match id {
        Identity::Cmdline(Some(bytes)) => cmdline_matches(split_from(bytes@, 0u8, 0), needle),
        Identity::ProcArgs(Some(blob)) => blob@.len() <= MAX_PROCARGS_BYTES && argv_matches(
            blob@,
            encode_utf8(needle),
        ),
        Identity::Image(Some(path)) => match image_wanted(needle) {
            Some(want) => has_suffix(lower_all(path@), want),
            None => false,
        },
        Identity::Liveness(alive) => alive,
        _ => false,
    }
}

/// `c`, with an ASCII capital letter made small.
fn lower_char(c: char) -> (r: char)
    ensures
        r == lower(c),
{
    let n: u32 = c as u32;
    if 0x41 <= n && n <= 0x5a {
        (n as u8 + 32) as char
    } else {
        c
    }
}

/// The image path with its ASCII capital letters made small.
fn lowered(s: &str) -> (r: Vec<char>)
    ensures
        r@ == lower_all(s@),
{
    let cs = chars_of(s);
    let mut out: Vec<char> = Vec::new();
    let mut i: usize = 0;
    while i < cs.len()
        invariant
            cs@ == s@,
            i <= cs@.len(),
            out@ == lower_all(s@).take(i as int),
        decreases cs@.len() - i,
    {
        out.push(lower_char(cs[i]));
        assert(lower_all(s@).take(i + 1) =~= lower_all(s@).take(i as int).push(lower(s@[i as int])));
        i = i + 1;
    }
    assert(lower_all(s@).take(s@.len() as int) =~= lower_all(s@));
    out
}

/// Whether the process exists and its command line contains `needle`. Where only
/// the image is known, a needle that names no image matches nothing.
pub fn pid_matches(id: &Identity, needle: &str) -> (r: bool)
    ensures
        r == matches_needle(*id, needle@),
{
    match id {
        Identity::Cmdline(Some(bytes)) => cmdline_contains(bytes.as_slice(), needle),
        Identity::ProcArgs(Some(blob)) => {
            if blob.len() > MAX_PROCARGS_BYTES {
                false
            } else {
                argv_contains(blob.as_slice(), needle)
            }
        },
        Identity::Image(Some(path)) => {
            let want = if text_eq(needle, "run-worker") || text_eq(needle, "--foreground") {
                chars_of("ft.exe")
            } else if text_eq(needle, "cloudflared") {
                chars_of("cloudflared.exe")
            } else {
                return false;
            };
            let low = lowered(path.as_str());
            if want.len() > low.len() {
                return false;
            }
            char_occurs_at(&low, &want, low.len() - want.len())
        },
        Identity::Liveness(alive) => *alive,
        _ => false,
    }
}

/// Whether one of our workers runs behind the identity.
pub fn pid_alive(id: &Identity) -> (r: bool)
    ensures
        r == matches_needle(*id, "run-worker"@),
{
    pid_matches(id, "run-worker")
}

/// A signal for one process.
#[derive(Clone, Copy, Debug, PartialEq, Eq, Structural)]
pub enum Signal {
    /// Ask the process to end.
    Term(u32),
    /// End the process.
    Kill(u32),
}

/// The signal for a `cloudflared` whose worker is gone.
pub open spec fn orphan_signal(pid: u32, id: Identity) -> Option<Signal> {
    if matches_needle(id, "cloudflared"@) {
        Some(Signal::Term(pid))
    } else {
        None
    }
}

/// The signal for a foreground `ft`.
pub open spec fn foreground_signal(pid: u32, id: Identity) -> Option<Signal> {
    if matches_needle(id, "--foreground"@) {
        Some(Signal::Term(pid))
    } else {
        None
    }
}

/// Best-effort end of a `cloudflared` whose worker is gone: the signal to send,
/// and none where the process is not a `cloudflared`.
pub fn terminate_orphan(pid: u32, id: &Identity) -> (r: Option<Signal>)
    ensures
        r == orphan_signal(pid, *id),
{
    if !pid_matches(id, "cloudflared") {
        return None;
    }
    Some(Signal::Term(pid))
}

/// End of a foreground `ft`: the signal to send to that one process (never to its
/// group, which is that of the operator's shell), and none where the process is
/// not a foreground `ft`.
pub fn terminate_foreground(pid: u32, id: &Identity) -> (r: Option<Signal>)
    ensures
        r == foreground_signal(pid, *id),
{
    if !pid_matches(id, "--foreground") {
        return None;
    }
    Some(Signal::Term(pid))
}

/// End of a spawned command child. Its handle is still held, so the pid cannot
/// have been handed out again and no identity is asked for.
pub fn terminate_child(pid: u32) -> (r: Signal)
    ensures
        r == Signal::Kill(pid),
{
    Signal::Kill(pid)
}

// ---------------------------------------------------------------------------
// Ending a process group
// ---------------------------------------------------------------------------

/// How long a process group has between `SIGTERM` and `SIGKILL`, in
/// milliseconds.
pub const GROUP_GRACE_MS: u32 = 1_500;

/// How long to wait between two looks at the group, in milliseconds.
pub const GROUP_STEP_MS: u32 = 50;

/// Where the end of a process group has come to.
#[derive(Clone, Copy, Debug, PartialEq, Eq, Structural)]
pub enum GroupShutdown {
    /// `SIGTERM` was sent, and the given time has been waited since.
    Waiting(u32),
    /// Nothing more is to be done.
    Done,
}

/// What to do next for a process group.
#[derive(Clone, Copy, Debug, PartialEq, Eq, Structural)]
pub enum GroupAction {
    /// Send `SIGTERM` to the group and look whether it still exists.
    TermAndProbe,
    /// Wait the given milliseconds, then look whether the group still exists.
    SleepAndProbe(u32),
    /// Wait the given milliseconds, then send `SIGKILL` to the group.
    SleepAndKill(u32),
    /// Nothing.
    Stop,
}

/// The first step for the group that the worker `pgid` leads.
pub open spec fn group_start(pgid: u32, id: Identity) -> (GroupShutdown, GroupAction) {
    if pgid != 0 && matches_needle(id, "run-worker"@) {
        (GroupShutdown::Waiting(0), GroupAction::TermAndProbe)
    } else {
        (GroupShutdown::Done, GroupAction::Stop)
    }
}

/// The first step for the group that the worker `pgid` leads. No group is
/// recorded as 0, which would mean the caller's own; and a leader that is no
/// longer a worker leads a group that is no longer ours.
pub fn shutdown_process_group(pgid: u32, id: &Identity) -> (r: (GroupShutdown, GroupAction))
    ensures
        r == group_start(pgid, *id),
{
    if pgid == 0 {
        return (GroupShutdown::Done, GroupAction::Stop);
    }
    if !pid_alive(id) {
        return (GroupShutdown::Done, GroupAction::Stop);
    }
    (GroupShutdown::Waiting(0), GroupAction::TermAndProbe)
}

/// What follows a look at the group.
pub open spec fn after_probe(state: GroupShutdown, exists: bool) -> (GroupShutdown, GroupAction) {
    match state {
        GroupShutdown::Waiting(waited) if exists && waited + GROUP_STEP_MS < GROUP_GRACE_MS => (
            GroupShutdown::Waiting((waited + GROUP_STEP_MS) as u32),
            GroupAction::SleepAndProbe(GROUP_STEP_MS),
        ),
        GroupShutdown::Waiting(waited) if exists => (
            GroupShutdown::Done,
            GroupAction::SleepAndKill(GROUP_STEP_MS),
        ),
        _ => (GroupShutdown::Done, GroupAction::Stop),
    }
}

/// The next step once the group was looked at.
pub fn group_probed(state: GroupShutdown, exists: bool) -> (r: (GroupShutdown, GroupAction))
    ensures
        r == after_probe(state, exists),
{
    match state {
        GroupShutdown::Waiting(waited) => {
            if !exists {
                (GroupShutdown::Done, GroupAction::Stop)
            } else if waited < GROUP_GRACE_MS - GROUP_STEP_MS {
                (
                    GroupShutdown::Waiting(waited + GROUP_STEP_MS),
                    GroupAction::SleepAndProbe(GROUP_STEP_MS),
                )
            } else {
                (GroupShutdown::Done, GroupAction::SleepAndKill(GROUP_STEP_MS))
            }
        },
        GroupShutdown::Done => (GroupShutdown::Done, GroupAction::Stop),
    }
}

/// Where `n` looks in a row found the group still there.
pub open spec fn after_probes(n: nat) -> (GroupShutdown, GroupAction)
    decreases n,
{
    if n == 0 {
        (GroupShutdown::Waiting(0), GroupAction::TermAndProbe)
    } else {
        after_probe(after_probes((n - 1) as nat).0, true)
    }
}

/// A group that does not go away is ended with `SIGKILL` after exactly thirty
/// looks, fifty milliseconds apart, and not before; after that nothing more is
/// done.
pub proof fn law_kill_comes_only_after_the_grace(n: nat)
    ensures
        after_probes(n).1 is SleepAndKill <==> n == 30,
        n < 30 ==> after_probes(n).0 == GroupShutdown::Waiting((n * 50) as u32),
        n >= 30 ==> after_probes(n).0 is Done,
        n > 30 ==> after_probes(n).1 is Stop,
    decreases n,
{
    if n > 0 {
        law_kill_comes_only_after_the_grace((n - 1) as nat);
    }
}

/// A recorded pid of 0 is never signalled as a group, and neither is a group
/// whose leader is no longer a worker: the group's end starts done and stays done.
pub proof fn law_only_our_own_groups_are_signalled(pgid: u32, id: Identity, exists: bool)
    ensures
        pgid == 0 || !matches_needle(id, "run-worker"@) ==> group_start(pgid, id) == (
            GroupShutdown::Done,
            GroupAction::Stop,
        ),
        after_probe(GroupShutdown::Done, exists) == (GroupShutdown::Done, GroupAction::Stop),
{
}

// ---------------------------------------------------------------------------
// The command child of a run service
// ---------------------------------------------------------------------------

/// How long a command child has between `SIGTERM` and `SIGKILL`, in
/// milliseconds.
pub const CHILD_SHUTDOWN_GRACE_MS: u64 = 3_000;

/// What a command child is started with.
#[derive(Debug)]
pub struct CommandSpec {
    /// The program.
    pub program: Vec<u8>,
    /// Its arguments.
    pub args: Vec<Vec<u8>>,
    /// The value of the `PORT` variable in its environment.
    pub port: String,
}

/// The views of a list of byte strings.
pub open spec fn byte_lists(v: Seq<Vec<u8>>) -> Seq<Seq<u8>> {
    Seq::new(v.len(), |i: int| v[i]@)
}

/// A copy of the byte strings of `v` from `from` on.
pub fn copy_byte_lists(v: &[Vec<u8>], from: usize) -> (r: Vec<Vec<u8>>)
    requires
        from <= v@.len(),
    ensures
        byte_lists(r@) == byte_lists(v@).subrange(from as int, v@.len() as int),
{
    let mut out: Vec<Vec<u8>> = Vec::new();
    let mut i: usize = from;
    while i < v.len()
        invariant
            from <= i <= v@.len(),
            byte_lists(out@) == byte_lists(v@).subrange(from as int, i as int),
        decreases v@.len() - i,
    {
        let ghost before = out@;
        let item = bytes_between(v[i].as_slice(), 0, v[i].len());
        assert(item@ =~= v@[i as int]@);
        out.push(item);
        assert(byte_lists(out@) =~= byte_lists(before).push(item@));
        assert(byte_lists(v@).subrange(from as int, i + 1) =~= byte_lists(v@).subrange(
            from as int,
            i as int,
        ).push(v@[i as int]@));
        i = i + 1;
    }
    out
}

/// The child is how the operator's command is started for the given port.
pub open spec fn starts(child: CommandSpec, command: Seq<Seq<u8>>, port: u16) -> bool {
    &&& command.len() > 0
    &&& child.program@ == command[0]
    &&& byte_lists(child.args@) == command.subrange(1, command.len() as int)
    &&& child.port@ == decimal(port as nat)
}

/// How the operator's command is started for the given port. An empty command is
/// refused.
pub fn spawn_command_child(command: &[Vec<u8>], port: u16) -> (r: Result<CommandSpec, String>)
    ensures
        match r {
            Ok(spec) => starts(spec, byte_lists(command@), port),
            Err(e) => command@.len() == 0 && e@ == "cannot spawn an empty command"@,
        },
{
    if command.len() == 0 {
        return Err("cannot spawn an empty command".to_owned());
    }
    let program = bytes_between(command[0].as_slice(), 0, command[0].len());
    assert(program@ =~= command@[0]@);
    Ok(CommandSpec { program, args: copy_byte_lists(command, 1), port: decimal_text(port as u64) })
}

/// What is done to end a command child.
#[derive(Clone, Copy, Debug, PartialEq, Eq, Structural)]
pub enum ChildShutdown {
    /// There is no child: only the task that stands for it is dropped.
    DropMonitor,
    /// The child has ended and was reaped.
    Nothing,
    /// `SIGTERM` to the group that the child leads, then up to the grace to end.
    TermGroup(u32),
}

/// How the command child is ended, given whether the task that waits for it has
/// finished.
pub open spec fn child_end(pid: Option<u32>, finished: bool) -> ChildShutdown {
    match pid {
        None => ChildShutdown::DropMonitor,
        Some(p) => if finished {
            ChildShutdown::Nothing
        } else {
            ChildShutdown::TermGroup(p)
        },
    }
}

/// How the command child is ended, given whether the task that waits for it has
/// finished.
pub fn shutdown_child_command(pid: Option<u32>, finished: bool) -> (r: ChildShutdown)
    ensures
        r == child_end(pid, finished),
{
    match pid {
        None => ChildShutdown::DropMonitor,
        Some(p) => {
            if finished {
                ChildShutdown::Nothing
            } else {
                ChildShutdown::TermGroup(p)
            }
        },
    }
}

// ---------------------------------------------------------------------------
// Laws
// ---------------------------------------------------------------------------

/// A process whose command line can be read carries a text exactly where one of its
/// arguments is UTF-8 and holds it: an argument between two others, and no text that
/// only stands across two arguments.
pub proof fn law_arguments_are_searched(
    before: Seq<u8>,
    arg: Seq<char>,
    after: Seq<u8>,
    needle: Seq<char>,
    line: Vec<u8>,
)
    requires
        !encode_utf8(arg).contains(0u8),
        line@ == before + seq![0u8] + encode_utf8(arg) + seq![0u8] + after,
    ensures
        matches_needle(Identity::Cmdline(Some(line)), needle) <==> occurs_in(arg, needle)
            || cmdline_matches(split_from(before, 0u8, 0), needle) || cmdline_matches(
            split_from(after, 0u8, 0),
            needle,
        ),
{
    let b = encode_utf8(arg);
    encode_utf8_valid_utf8(arg);
    encode_utf8_decode_utf8(arg);
    let x = before + seq![0u8] + b;
    law_joined_texts_split_apart(before, b, b, 0u8);
    law_joined_texts_split_apart(x, after, b, 0u8);
    let p = split(before, 0u8);
    let q = split(after, 0u8);
    let all = split(line@, 0u8);
    assert(all =~= p + seq![b] + q);
    if cmdline_matches(p, needle) {
        let k = choose|k: int|
            0 <= k < p.len() && valid_utf8(#[trigger] p[k]) && occurs_in(decode_utf8(p[k]), needle);
        assert(all[k] == p[k]);
    }
    if cmdline_matches(q, needle) {
        let k = choose|k: int|
            0 <= k < q.len() && valid_utf8(#[trigger] q[k]) && occurs_in(decode_utf8(q[k]), needle);
        assert(all[p.len() + 1 + k] == q[k]);
    }
    if occurs_in(arg, needle) {
        assert(all[p.len() as int] == b);
    }
    if cmdline_matches(all, needle) {
        let k = choose|k: int|
            0 <= k < all.len() && valid_utf8(#[trigger] all[k]) && occurs_in(
                decode_utf8(all[k]),
                needle,
            );
        if k < p.len() {
            assert(p[k] == all[k]);
        } else if k > p.len() {
            assert(q[k - p.len() - 1] == all[k]);
        }
    }
}

/// What cannot be read carries nothing; where only the image is known, a worker and a
/// foreground `ft` run `ft.exe`, a tunnel runs `cloudflared.exe`, in whichever case that
/// is written, and nothing else is told by an image; where not even that is known, it
/// counts that the process is there.
pub proof fn law_unreadable_processes_carry_nothing(
    needle: Seq<char>,
    path: String,
    alive: bool,
    big: Vec<u8>,
)
    ensures
        !matches_needle(Identity::Cmdline(None), needle),
        !matches_needle(Identity::ProcArgs(None), needle),
        !matches_needle(Identity::Image(None), needle),
        big@.len() > 1_048_576 ==> !matches_needle(Identity::ProcArgs(Some(big)), needle),
        matches_needle(Identity::Liveness(alive), needle) == alive,
        matches_needle(Identity::Image(Some(path)), "run-worker"@) <==> ends_like(
            path@,
            "ft.exe"@,
        ),
        matches_needle(Identity::Image(Some(path)), "--foreground"@) <==> ends_like(
            path@,
            "ft.exe"@,
        ),
        matches_needle(Identity::Image(Some(path)), "cloudflared"@) <==> ends_like(
            path@,
            "cloudflared.exe"@,
        ),
        needle != "run-worker"@ && needle != "--foreground"@ && needle != "cloudflared"@
            ==> !matches_needle(Identity::Image(Some(path)), needle),
{
    reveal_strlit("run-worker");
    reveal_strlit("--foreground");
    reveal_strlit("cloudflared");
    reveal_strlit("ft.exe");
    reveal_strlit("cloudflared.exe");
    assert("run-worker"@.len() == 10 && "--foreground"@.len() == 12 && "cloudflared"@.len() == 11);
    lemma_ends_like(path@, "ft.exe"@);
    lemma_ends_like(path@, "cloudflared.exe"@);
}

/// The text ends with the word, in whichever case it is written.
pub open spec fn ends_like(s: Seq<char>, word: Seq<char>) -> bool {
    s.len() >= word.len() && same_ignoring_case(s.skip(s.len() - word.len()), word)
}

/// A text ends like a word in small letters where it does so in small letters.
proof fn lemma_ends_like(s: Seq<char>, word: Seq<char>)
    requires
        forall|i: int| 0 <= i < word.len() ==> lower(#[trigger] word[i]) == word[i],
    ensures
        has_suffix(lower_all(s), word) <==> ends_like(s, word),
{
    let low = lower_all(s);
    let n = s.len() - word.len();
    if s.len() >= word.len() {
        let end = s.skip(n);
        if has_suffix(low, word) {
            assert forall|i: int| 0 <= i < end.len() implies lower(#[trigger] end[i]) == lower(
                word[i],
            ) by {
                assert(low.subrange(n, n + word.len())[i] == word[i]);
                assert(low[n + i] == lower(s[n + i]));
            }
        }
        if ends_like(s, word) {
            assert(low.subrange(n, n + word.len()) =~= word) by {
                assert forall|i: int| 0 <= i < word.len() implies low.subrange(
                    n,
                    n + word.len(),
                )[i] == word[i] by {
                    assert(lower(end[i]) == lower(word[i]));
                }
            }
        }
    }
}

/// A block of arguments announces how many there are in its first four bytes, the lowest
/// first; then come the path of the program, its padding, and the arguments one by one.
/// As many are searched as are announced, and what follows them is not.
pub proof fn law_announced_arguments_are_searched(
    count: Seq<u8>,
    path: Seq<u8>,
    pad: Seq<u8>,
    arg: Seq<u8>,
    rest: Seq<u8>,
    needle: Seq<u8>,
)
    requires
        count.len() == 4,
        !path.contains(0u8),
        pad.len() > 0,
        forall|i: int| 0 <= i < pad.len() ==> #[trigger] pad[i] == 0u8,
        arg.len() > 0,
        !arg.contains(0u8),
    ensures
        ({
            let blob = count + path + pad + arg + seq![0u8] + rest;
            let n = count[0] + 256 * count[1] + 65_536 * count[2] + 16_777_216 * count[3];
            let at = 4 + path.len() + pad.len();
            &&& n > 0 && occurs_in(arg, needle) ==> argv_matches(blob, needle)
            &&& n == 0 ==> !argv_matches(blob, needle)
            &&& n == 1 ==> (argv_matches(blob, needle) <==> occurs_in(arg, needle))
            &&& n > 1 ==> (argv_matches(blob, needle) <==> occurs_in(arg, needle) || entry_matches(
                blob,
                needle,
                at as int + arg.len() + 1,
                (n - 1) as nat,
            ))
        }),
{
    let blob = count + path + pad + arg + seq![0u8] + rest;
    let a = 4 + path.len() as int;
    let b = a + pad.len();
    let c = b + arg.len();
    assert forall|k: int| 4 <= k < a implies #[trigger] blob[k] != 0u8 by {
        assert(blob[k] == path[k - 4]);
        assert(path.contains(path[k - 4]));
    }
    assert(blob[a] == pad[0]);
    lemma_index_at(blob, 0u8, 4, a);
    assert forall|k: int| a + 1 <= k < b implies #[trigger] blob[k] == 0u8 by {
        assert(blob[k] == pad[k - a]);
    }
    assert(blob[b] == arg[0]);
    assert(arg.contains(arg[0]));
    lemma_skip_nuls(blob, a + 1, b);
    assert forall|k: int| b <= k < c implies #[trigger] blob[k] != 0u8 by {
        assert(blob[k] == arg[k - b]);
        assert(arg.contains(arg[k - b]));
    }
    assert(blob[c] == 0u8);
    lemma_index_at(blob, 0u8, b, c);
    assert(blob.subrange(b, c) =~= arg);
    assert(blob[0] == count[0] && blob[1] == count[1] && blob[2] == count[2] && blob[3]
        == count[3]);
    reveal_with_fuel(entry_matches, 2);
}

/// Padding is passed over.
proof fn lemma_skip_nuls(blob: Seq<u8>, i: int, p: int)
    requires
        0 <= i <= p < blob.len(),
        forall|k: int| i <= k < p ==> #[trigger] blob[k] == 0u8,
        blob[p] != 0u8,
    ensures
        skip_nuls(blob, i) == p,
    decreases p - i,
{
    if i < p {
        assert(blob[i] == 0u8);
        lemma_skip_nuls(blob, i + 1, p);
    }
}

/// A tunnel whose worker is gone is asked to end exactly where the process is a
/// `cloudflared`, and a foreground `ft` exactly where it is one; each alone, by its own
/// pid.
pub proof fn law_only_what_is_ours_is_ended(pid: u32, id: Identity)
    ensures
        orphan_signal(pid, id) is Some <==> matches_needle(id, "cloudflared"@),
        orphan_signal(pid, id) is Some ==> orphan_signal(pid, id) == Some(Signal::Term(pid)),
        foreground_signal(pid, id) is Some <==> matches_needle(id, "--foreground"@),
        foreground_signal(pid, id) is Some ==> foreground_signal(pid, id) == Some(
            Signal::Term(pid),
        ),
{
}

/// The group of one of our workers is asked to end at once; it is looked at every fifty
/// milliseconds, and left alone as soon as it is gone.
pub proof fn law_groups_are_asked_first_and_left_when_gone(
    pgid: u32,
    id: Identity,
    waited: u32,
    n: nat,
)
    ensures
        pgid != 0 && matches_needle(id, "run-worker"@) ==> group_start(pgid, id).1
            == GroupAction::TermAndProbe && group_start(pgid, id).0 == GroupShutdown::Waiting(0),
        after_probe(GroupShutdown::Waiting(waited), false) == (
            GroupShutdown::Done,
            GroupAction::Stop,
        ),
        0 < n < 30 ==> after_probes(n).1 == GroupAction::SleepAndProbe(50),
        n == 30 ==> after_probes(n).1 == GroupAction::SleepAndKill(50),
{
    law_kill_comes_only_after_the_grace(n);
    if n > 0 {
        law_kill_comes_only_after_the_grace((n - 1) as nat);
    }
}

/// A command that runs is asked to end with its whole group; one that has ended is left
/// alone, and where there is none, only what stands for it is dropped.
pub proof fn law_running_commands_are_ended(pid: u32)
    ensures
        child_end(Some(pid), false) == ChildShutdown::TermGroup(pid),
        child_end(Some(pid), true) == ChildShutdown::Nothing,
        child_end(None, true) == ChildShutdown::DropMonitor,
        child_end(None, false) == ChildShutdown::DropMonitor,
{
}

/// The view of a list of byte strings has every one, in its place.
pub proof fn law_byte_strings_are_viewed_one_by_one(v: Seq<Vec<u8>>, i: int)
    requires
        0 <= i < v.len(),
    ensures
        byte_lists(v).len() == v.len(),
        byte_lists(v)[i] == v[i]@,
{
}

/// The program and the arguments that a child is started with are the command, nothing
/// added and nothing left out, and the child is told the port.
pub proof fn law_children_are_started_as_commanded(
    child: CommandSpec,
    command: Seq<Seq<u8>>,
    port: u16,
)
    requires
        starts(child, command, port),
    ensures
        seq![child.program@] + byte_lists(child.args@) == command,
        child.port@ == decimal(port as nat),
{
    assert(seq![child.program@] + byte_lists(child.args@) =~= command);
}

} // verus!
