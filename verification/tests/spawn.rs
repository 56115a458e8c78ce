//! The arguments of workers, and ports.

use freeoxide_tunnel::port::{is_port_free, ConnectProbe};
use freeoxide_tunnel::spawn::{
    run_worker_args, spawn_drop_worker, spawn_failure, spawn_hook_worker, spawn_worker,
    spawn_worker_with_command, worker_token, PROXY_DIR_SENTINEL,
};

fn os(args: &[&str]) -> Vec<Vec<u8>> {
    args.iter().map(|a| a.as_bytes().to_vec()).collect()
}

#[test]
fn static_worker_passes_the_real_directory() {
    let args = run_worker_args(7, "blog", Some("/srv/blog"), 8000, &[], None, None);
    assert_eq!(
        args,
        os(&["run-worker", "--id", "7", "--name", "blog", "--dir", "/srv/blog", "--port", "8000"])
    );
    assert_eq!(spawn_worker(7, "blog", Some("/srv/blog"), 8000), args);
}

#[test]
fn proxy_worker_passes_the_sentinel_directory() {
    let args = run_worker_args(9, "api", None, 3000, &[], None, None);
    assert_eq!(
        args,
        os(&[
            "run-worker",
            "--id",
            "9",
            "--name",
            "api",
            "--dir",
            PROXY_DIR_SENTINEL,
            "--port",
            "3000",
        ])
    );
    assert_eq!(spawn_worker(9, "api", None, 3000), args);
}

#[test]
fn run_worker_carries_the_child_command_after_a_separator() {
    let command = os(&["npm", "run", "dev", "--verbose"]);
    let args = run_worker_args(11, "dev", None, 3000, &command, None, None);
    assert_eq!(
        args,
        os(&[
            "run-worker",
            "--id",
            "11",
            "--name",
            "dev",
            "--dir",
            PROXY_DIR_SENTINEL,
            "--port",
            "3000",
            "--",
            "npm",
            "run",
            "dev",
            "--verbose",
        ])
    );
    assert_eq!(spawn_worker_with_command(11, "dev", None, 3000, &command), args);
}

#[test]
fn hook_worker_carries_its_retention_flag_before_the_separator() {
    let args = run_worker_args(12, "gh", None, 9000, &[], Some(50), None);
    assert_eq!(
        args,
        os(&[
            "run-worker",
            "--id",
            "12",
            "--name",
            "gh",
            "--dir",
            PROXY_DIR_SENTINEL,
            "--port",
            "9000",
            "--keep",
            "50",
        ])
    );
    assert_eq!(spawn_hook_worker(12, "gh", 9000, 50), args);
}

#[test]
fn drop_worker_carries_its_directory_and_cap_before_the_separator() {
    let args = run_worker_args(13, "share", Some("/srv/inbox"), 9001, &[], None, Some(4096));
    assert_eq!(
        args,
        os(&[
            "run-worker",
            "--id",
            "13",
            "--name",
            "share",
            "--dir",
            "/srv/inbox",
            "--port",
            "9001",
            "--max-size",
            "4096",
        ])
    );
    assert_eq!(spawn_drop_worker(13, "share", "/srv/inbox", 9001, 4096), args);
}

#[test]
fn bytes_that_are_no_text_reach_the_command() {
    let command = vec![b"run".to_vec(), vec![0xff, 0xfe]];
    let args = run_worker_args(1, "x", None, 1, &command, Some(2), Some(3));
    assert_eq!(args[args.len() - 3..], [b"--".to_vec(), b"run".to_vec(), vec![0xff, 0xfe]]);
}

#[test]
fn the_mark_mixes_the_clock_and_the_pid() {
    assert_eq!(worker_token(0, 0), "0000000000000000");
    assert_eq!(worker_token(0, 1), "9e3779b97f4a7c15");
    assert_eq!(worker_token(0xf, 2), "3c6ef372fe94f825");
    assert_eq!(spawn_failure("web"), "spawning worker for service 'web'");
}

#[test]
fn is_port_free_is_false_while_a_port_is_held() {
    assert!(!is_port_free(8080, ConnectProbe::Accepted));
    assert!(!is_port_free(8080, ConnectProbe::Failed));
}

#[test]
fn a_port_left_in_time_wait_by_a_just_stopped_server_reads_free() {
    assert!(is_port_free(8080, ConnectProbe::Refused));
}

#[test]
fn port_zero_stays_reported_free() {
    assert!(is_port_free(0, ConnectProbe::Failed));
    assert!(is_port_free(0, ConnectProbe::Accepted));
}
