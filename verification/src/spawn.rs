//! How the detached worker of a background service is started: its arguments, and
//! the mark by which it knows that `ft` started it.

use vstd::prelude::*;
use vstd::string::*;
use vstd::utf8::*;

use crate::proc::{byte_lists, copy_byte_lists};
use crate::text::{concat3, decimal, decimal_text, opt_str};

verus! {

/// What stands for the directory of a worker that has none. It names nothing, so a
/// worker that took it for a real one would fail.
pub const PROXY_DIR_SENTINEL: &'static str = "/ft-proxy-has-no-directory";

/// The variable that carries the mark of a worker.
pub const WORKER_TOKEN_VARIABLE: &'static str = "FT_WORKER_TOKEN";

// ---------------------------------------------------------------------------
// The mark
// ---------------------------------------------------------------------------

/// The last `width` hexadecimal digits of `n`.
pub open spec fn hex_digits(n: nat, width: nat) -> Seq<char>
    decreases width,
{
    if width == 0 {
        Seq::empty()
    } else {
        hex_digits(n / 16, (width - 1) as nat).push(
            crate::server::drop_server::small_hex((n % 16) as u8),
        )
    }
}

/// The last `width` hexadecimal digits of `n`.
fn hex_text(n: u64, width: u32) -> (r: String)
    ensures
        r@ == hex_digits(n as nat, width as nat),
    decreases width,
{
    if width == 0 {
        let r = String::new();
        assert(r@ =~= Seq::<char>::empty());
        return r;
    }
    let mut r = hex_text(n / 16, width - 1);
    r.push(crate::server::drop_server::hex_char((n % 16) as u8));
    r
}

/// The value that a clock reading and a pid are mixed to.
pub open spec fn mixed(nanos: u64, pid: u32) -> u64 {
    nanos ^ ((pid as int * 0x9E3779B97F4A7C15) % 0x1_0000_0000_0000_0000) as u64
}

/// The mark of a worker, made from a clock reading and a pid. It needs to be there,
/// not to be guessed: a worker that is started by hand has none.
pub fn worker_token(nanos: u64, pid: u32) -> (r: String)
    ensures
        r@ == hex_digits(mixed(nanos, pid) as nat, 16),
{
    let spread: u64 = (pid as u64).wrapping_mul(0x9E3779B97F4A7C15);
    hex_text(nanos ^ spread, 16)
}

// ---------------------------------------------------------------------------
// The arguments
// ---------------------------------------------------------------------------

/// Texts as bytes.
pub open spec fn encoded(v: Seq<Seq<char>>) -> Seq<Seq<u8>> {
    Seq::new(v.len(), |i: int| encode_utf8(v[i]))
}

/// What the arguments begin with.
pub open spec fn leading_args(
    id: u64,
    name: Seq<char>,
    dir: Option<Seq<char>>,
    port: u16,
) -> Seq<Seq<char>> {
    seq![
        "run-worker"@,
        "--id"@,
        decimal(id as nat),
        "--name"@,
        name,
        "--dir"@,
        match dir {
            Some(d) => d,
            None => PROXY_DIR_SENTINEL@,
        },
        "--port"@,
        decimal(port as nat),
    ]
}

/// A flag with a number, where there is one.
pub open spec fn flag(name: Seq<char>, value: Option<u64>) -> Seq<Seq<char>> {
    match value {
        Some(n) => seq![name, decimal(n as nat)],
        None => Seq::empty(),
    }
}

/// The arguments of a worker.
pub open spec fn worker_args(
    id: u64,
    name: Seq<char>,
    dir: Option<Seq<char>>,
    port: u16,
    command: Seq<Seq<u8>>,
    keep: Option<u64>,
    max_size: Option<u64>,
) -> Seq<Seq<u8>> {
    let own = encoded(
        leading_args(id, name, dir, port) + flag("--keep"@, keep) + flag("--max-size"@, max_size),
    );
    if command.len() > 0 {
        own.push(encode_utf8("--"@)) + command
    } else {
        own
    }
}

/// Add a text to the arguments.
fn push_text(args: &mut Vec<Vec<u8>>, text: &str)
    ensures
        byte_lists(final(args)@) == byte_lists(old(args)@).push(encode_utf8(text@)),
{
    let ghost before = args@;
    let bytes = text.as_bytes();
    let item = crate::bytes::bytes_between(bytes, 0, bytes.len());
    assert(item@ =~= encode_utf8(text@));
    args.push(item);
    assert(byte_lists(args@) =~= byte_lists(before).push(item@));
}

/// The arguments of a worker: its own flags, and behind a separator the operator's
/// command as it stands. The token of an upload receiver is not among them, since
/// arguments can be seen by others.
pub fn run_worker_args(
    id: u64,
    name: &str,
    dir: Option<&str>,
    port: u16,
    command: &[Vec<u8>],
    keep: Option<u16>,
    max_size: Option<u64>,
) -> (r: Vec<Vec<u8>>)
    ensures
        byte_lists(r@) == worker_args(
            id,
            name@,
            opt_str(dir),
            port,
            byte_lists(command@),
            (match keep {
                Some(k) => Some(k as u64),
                None => None,
            }),
            max_size,
        ),
{
    let ghost kept: Option<u64> = match keep {
        Some(k) => Some(k as u64),
        None => None,
    };
    let dir_arg = match dir {
        Some(d) => d,
        None => PROXY_DIR_SENTINEL,
    };
    let mut args: Vec<Vec<u8>> = Vec::new();
    push_text(&mut args, "run-worker");
    push_text(&mut args, "--id");
    push_text(&mut args, decimal_text(id).as_str());
    push_text(&mut args, "--name");
    push_text(&mut args, name);
    push_text(&mut args, "--dir");
    push_text(&mut args, dir_arg);
    push_text(&mut args, "--port");
    push_text(&mut args, decimal_text(port as u64).as_str());
    let ghost lead = leading_args(id, name@, opt_str(dir), port);
    assert(byte_lists(args@) =~= encoded(lead));
    if let Some(k) = keep {
        push_text(&mut args, "--keep");
        push_text(&mut args, decimal_text(k as u64).as_str());
    }
    let ghost lead2 = lead + flag("--keep"@, kept);
    assert(byte_lists(args@) =~= encoded(lead2));
    if let Some(n) = max_size {
        push_text(&mut args, "--max-size");
        push_text(&mut args, decimal_text(n).as_str());
    }
    let ghost own = lead2 + flag("--max-size"@, max_size);
    assert(byte_lists(args@) =~= encoded(own));
    if command.len() > 0 {
        push_text(&mut args, "--");
        let ghost before = args@;
        let mut rest = copy_byte_lists(command, 0);
        let ghost tail = rest@;
        assert(byte_lists(tail) =~= byte_lists(command@));
        args.append(&mut rest);
        assert(byte_lists(args@) =~= byte_lists(before) + byte_lists(tail));
    }
    args
}

/// The arguments of the worker of a static service, or of one without a directory.
pub fn spawn_worker(id: u64, name: &str, dir: Option<&str>, port: u16) -> (r: Vec<Vec<u8>>)
    ensures
        byte_lists(r@) == worker_args(id, name@, opt_str(dir), port, Seq::empty(), None, None),
{
    let none: Vec<Vec<u8>> = Vec::new();
    assert(byte_lists(none@) =~= Seq::<Seq<u8>>::empty());
    run_worker_args(id, name, dir, port, none.as_slice(), None, None)
}

/// The arguments of the worker of a webhook receiver, which carry how much it
/// keeps.
pub fn spawn_hook_worker(id: u64, name: &str, port: u16, keep: u16) -> (r: Vec<Vec<u8>>)
    ensures
        byte_lists(r@) == worker_args(
            id,
            name@,
            None,
            port,
            Seq::empty(),
            Some(keep as u64),
            None,
        ),
{
    let none: Vec<Vec<u8>> = Vec::new();
    assert(byte_lists(none@) =~= Seq::<Seq<u8>>::empty());
    run_worker_args(id, name, None, port, none.as_slice(), Some(keep), None)
}

/// The arguments of the worker of an upload receiver, which carry its target and
/// its cap.
pub fn spawn_drop_worker(id: u64, name: &str, dir: &str, port: u16, max_size: u64) -> (r: Vec<
    Vec<u8>,
>)
    ensures
        byte_lists(r@) == worker_args(
            id,
            name@,
            Some(dir@),
            port,
            Seq::empty(),
            None,
            Some(max_size),
        ),
{
    let none: Vec<Vec<u8>> = Vec::new();
    assert(byte_lists(none@) =~= Seq::<Seq<u8>>::empty());
    run_worker_args(id, name, Some(dir), port, none.as_slice(), None, Some(max_size))
}

/// The arguments of the worker of a command.
pub fn spawn_worker_with_command(
    id: u64,
    name: &str,
    dir: Option<&str>,
    port: u16,
    command: &[Vec<u8>],
) -> (r: Vec<Vec<u8>>)
    ensures
        byte_lists(r@) == worker_args(
            id,
            name@,
            opt_str(dir),
            port,
            byte_lists(command@),
            None,
            None,
        ),
{
    run_worker_args(id, name, dir, port, command, None, None)
}

/// What is told when the worker could not be started.
pub open spec fn failure_words(name: Seq<char>) -> Seq<char> {
    "spawning worker for service '"@ + name + "'"@
}

/// What is told when the worker could not be started.
pub fn spawn_failure(name: &str) -> (r: String)
    ensures
        r@ == failure_words(name@),
{
    concat3("spawning worker for service '", name, "'")
}

// ---------------------------------------------------------------------------
// Laws
// ---------------------------------------------------------------------------

/// The operator's command reaches the worker as it stands: it is the end of the
/// arguments, right behind a separator, and what comes before does not depend on
/// it.
pub proof fn law_command_follows_the_separator(
    id: u64,
    name: Seq<char>,
    dir: Option<Seq<char>>,
    port: u16,
    command: Seq<Seq<u8>>,
    keep: Option<u64>,
    max_size: Option<u64>,
)
    requires
        command.len() > 0,
    ensures
        ({
            let own = worker_args(id, name, dir, port, Seq::empty(), keep, max_size);
            worker_args(id, name, dir, port, command, keep, max_size) == own.push(
                encode_utf8("--"@),
            ) + command
        }),
{
}

/// The last `width` digits are `width` digits.
proof fn lemma_hex_digits(n: nat, width: nat)
    ensures
        hex_digits(n, width).len() == width,
    decreases width,
{
    if width > 0 {
        lemma_hex_digits(n / 16, (width - 1) as nat);
    }
}

/// The mark of a worker always has sixteen digits.
pub proof fn law_mark_has_sixteen_digits(nanos: u64, pid: u32)
    ensures
        hex_digits(mixed(nanos, pid) as nat, 16).len() == 16,
{
    lemma_hex_digits(mixed(nanos, pid) as nat, 16);
}

/// A worker is told who it is: each flag is followed by its own value, the number of the
/// service, its name, its directory or what stands for none, and its port; how much to
/// keep and how much to take are told exactly where they are given.
pub proof fn law_worker_is_told_who_it_is(
    id: u64,
    name: Seq<char>,
    dir: Option<Seq<char>>,
    port: u16,
    command: Seq<Seq<u8>>,
    keep: Option<u64>,
    max_size: Option<u64>,
)
    ensures
        ({
            let a = worker_args(id, name, dir, port, command, keep, max_size);
            let text = |s: Seq<char>| encode_utf8(s);
            let kept = if keep is Some {
                2int
            } else {
                0
            };
            let sized = if max_size is Some {
                2int
            } else {
                0
            };
            &&& a[0] == text("run-worker"@)
            &&& a[1] == text("--id"@) && a[2] == text(decimal(id as nat))
            &&& a[3] == text("--name"@) && a[4] == text(name)
            &&& a[5] == text("--dir"@)
            &&& dir matches Some(d) ==> a[6] == text(d)
            &&& dir is None ==> a[6] == text("/ft-proxy-has-no-directory"@)
            &&& a[7] == text("--port"@) && a[8] == text(decimal(port as nat))
            &&& keep matches Some(k) ==> a[9] == text("--keep"@) && a[10] == text(
                decimal(k as nat),
            )
            &&& max_size matches Some(m) ==> a[9 + kept] == text("--max-size"@) && a[10 + kept]
                == text(decimal(m as nat))
            &&& command.len() == 0 ==> a.len() == 9 + kept + sized
            &&& command.len() > 0 ==> a.len() == 10 + kept + sized + command.len()
        }),
{
}

/// Marks made at different instants differ.
pub proof fn law_marks_of_different_instants_differ(a: u64, b: u64, pid: u32)
    requires
        mixed(a, pid) == mixed(b, pid),
    ensures
        a == b,
{
    let k = ((pid as int * 0x9E3779B97F4A7C15) % 0x1_0000_0000_0000_0000) as u64;
    assert(a ^ k == b ^ k ==> a == b) by (bit_vector);
}

/// A mark can be read back: its digits are the number, the highest first.
pub proof fn law_digits_of_a_mark_are_its_number(n: nat, m: nat, width: nat)
    requires
        hex_digits(n, width) == hex_digits(m, width),
    ensures
        width > 0 ==> n % 16 == m % 16,
        width > 0 ==> hex_digits(n / 16, (width - 1) as nat) == hex_digits(
            m / 16,
            (width - 1) as nat,
        ),
{
    if width > 0 {
        let a = hex_digits(n, width);
        let b = hex_digits(m, width);
        assert(a.last() == b.last());
        assert(a.drop_last() =~= hex_digits(n / 16, (width - 1) as nat));
        assert(b.drop_last() =~= hex_digits(m / 16, (width - 1) as nat));
    }
}

/// Every text is encoded in its place.
pub proof fn law_texts_are_encoded_one_by_one(v: Seq<Seq<char>>, i: int)
    requires
        0 <= i < v.len(),
    ensures
        encoded(v).len() == v.len(),
        encoded(v)[i] == encode_utf8(v[i]),
{
}

/// What is told of a worker that could not be started names the service.
pub proof fn law_unstarted_workers_are_named(name: Seq<char>)
    ensures
        crate::text::occurs_in(failure_words(name), name),
{
    crate::text::lemma_stands_between("spawning worker for service '"@, name, "'"@);
}

} // verus!
