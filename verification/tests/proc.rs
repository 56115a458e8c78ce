//! Processes: who they are, and how they are ended.

use freeoxide_tunnel::proc::{
    argv_contains, cmdline_contains, group_probed, pid_alive, pid_matches, shutdown_child_command,
    shutdown_process_group, spawn_command_child, terminate_child, terminate_foreground,
    terminate_orphan, ChildShutdown, GroupAction, GroupShutdown, Identity, Signal,
    MAX_PROCARGS_BYTES,
};

#[test]
fn macos_argv_contains_ignores_environment() {
    let mut blob = Vec::new();
    blob.extend_from_slice(&2u32.to_le_bytes());
    blob.extend_from_slice(b"/usr/local/bin/cloudflared\0");
    blob.push(0);
    blob.extend_from_slice(b"/usr/local/bin/cloudflared\0");
    blob.extend_from_slice(b"tunnel\0");
    blob.extend_from_slice(b"FOO=run-worker\0");
    blob.extend_from_slice(b"BAR=baz\0");

    assert!(argv_contains(&blob, "tunnel"));
    assert!(!argv_contains(&blob, "run-worker"));
    assert!(!argv_contains(&blob, "FOO"));
}

#[test]
fn macos_argv_contains_substring_in_argv() {
    let mut blob = Vec::new();
    blob.extend_from_slice(&1u32.to_le_bytes());
    blob.extend_from_slice(b"/ft\0");
    blob.extend_from_slice(b"ft run-worker --foreground\0");
    assert!(argv_contains(&blob, "run-worker"));
}

#[test]
fn a_block_that_is_cut_off_matches_nothing() {
    assert!(!argv_contains(b"", "ft"));
    assert!(!argv_contains(&[1, 0, 0], "ft"));
    assert!(!argv_contains(&[1, 0, 0, 0], "ft"));
    let mut huge = vec![1, 0, 0, 0];
    huge.extend_from_slice(b"/ft\0run-worker\0");
    assert!(pid_alive(&Identity::ProcArgs(Some(huge.clone()))));
    huge.resize(MAX_PROCARGS_BYTES + 1, b'x');
    assert!(!pid_alive(&Identity::ProcArgs(Some(huge))));
}

#[test]
fn cmdline_contains_finds_self_process() {
    assert!(cmdline_contains(b"/target/debug/deps/proc-1a2b\0--nocapture\0", "proc-1a2b"));
    assert!(!cmdline_contains(b"/target/debug/deps/proc-1a2b\0--nocapture\0", "run-worker"));
    // An argument that is no text matches nothing, and does not hide the others.
    assert!(cmdline_contains(b"\xff\xferun-worker\0run-worker\0", "run-worker"));
    assert!(!cmdline_contains(b"\xff\xferun-worker\0", "run-worker"));
    // A needle never spans two arguments.
    assert!(!cmdline_contains(b"run-\0worker\0", "run-worker"));
}

#[test]
fn terminate_helpers_refuse_a_foreign_pid() {
    let sleep = Identity::Cmdline(Some(b"sleep\x0030\0".to_vec()));
    assert_eq!(terminate_orphan(42, &sleep), None);
    assert_eq!(terminate_foreground(42, &sleep), None);
    let tunnel = Identity::Cmdline(Some(b"/usr/bin/cloudflared\0tunnel\0".to_vec()));
    assert_eq!(terminate_orphan(42, &tunnel), Some(Signal::Term(42)));
    let front = Identity::Cmdline(Some(b"ft\0.\0--foreground\0".to_vec()));
    assert_eq!(terminate_foreground(42, &front), Some(Signal::Term(42)));
    assert_eq!(terminate_child(42), Signal::Kill(42));
}

#[test]
fn pid_matches_unknown_needle_refuses() {
    let image = Identity::Image(Some("C:\\Program Files\\FT.EXE".to_string()));
    assert!(!pid_matches(&image, "totally-bogus-needle"));
    assert!(pid_matches(&image, "run-worker"));
    assert!(pid_matches(&image, "--foreground"));
    assert!(!pid_matches(&image, "cloudflared"));
    assert!(!pid_matches(&Identity::Image(None), "run-worker"));
    assert!(pid_matches(&Identity::Liveness(true), "anything"));
    assert!(!pid_matches(&Identity::Liveness(false), "anything"));
}

#[test]
fn a_group_gets_its_grace_and_no_more() {
    let worker = Identity::Cmdline(Some(b"ft\0run-worker\0".to_vec()));
    let (mut state, action) = shutdown_process_group(7, &worker);
    assert_eq!(action, GroupAction::TermAndProbe);
    let mut looks = 0;
    loop {
        let (next, action) = group_probed(state, true);
        state = next;
        looks += 1;
        match action {
            GroupAction::SleepAndProbe(ms) => assert_eq!(ms, 50),
            GroupAction::SleepAndKill(ms) => {
                assert_eq!(ms, 50);
                break;
            }
            other => panic!("{other:?}"),
        }
    }
    assert_eq!(looks, 30);
    assert_eq!(group_probed(state, true), (GroupShutdown::Done, GroupAction::Stop));
}

#[test]
fn a_group_that_is_gone_is_left_alone() {
    let worker = Identity::Cmdline(Some(b"ft\0run-worker\0".to_vec()));
    assert_eq!(shutdown_process_group(0, &worker), (GroupShutdown::Done, GroupAction::Stop));
    let stranger = Identity::Cmdline(Some(b"sh\0".to_vec()));
    assert_eq!(shutdown_process_group(7, &stranger), (GroupShutdown::Done, GroupAction::Stop));
    let (state, _) = shutdown_process_group(7, &worker);
    assert_eq!(group_probed(state, false), (GroupShutdown::Done, GroupAction::Stop));
}

#[test]
fn command_child_receives_port_in_its_environment() {
    let spec = spawn_command_child(&[b"npm".to_vec(), b"start".to_vec()], 3000).expect("a command");
    assert_eq!(spec.program, b"npm");
    assert_eq!(spec.args, vec![b"start".to_vec()]);
    assert_eq!(spec.port, "3000");
    assert_eq!(spawn_command_child(&[], 3000).unwrap_err(), "cannot spawn an empty command");
}

#[test]
fn pidless_placeholder_shutdown_completes_immediately() {
    assert_eq!(shutdown_child_command(None, false), ChildShutdown::DropMonitor);
}

#[test]
fn finished_monitor_shutdown_completes_immediately() {
    assert_eq!(shutdown_child_command(Some(9), true), ChildShutdown::Nothing);
    assert_eq!(shutdown_child_command(Some(9), false), ChildShutdown::TermGroup(9));
}
