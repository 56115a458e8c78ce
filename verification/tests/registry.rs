//! The registry of services.

use freeoxide_tunnel::clock::{now_utc, Timestamp};
use freeoxide_tunnel::model::{Registry, Service, ServiceKind, StaticFlags};
use freeoxide_tunnel::registry::{SaveStep, StoredBlob, MAX_REGISTRY_BYTES};

fn dummy_service(id: u64, name: &str) -> Service {
    Service {
        id,
        name: name.to_string(),
        kind: ServiceKind::Static,
        dir: Some("/tmp/dir".to_string()),
        port: 1234,
        local_url: "http://127.0.0.1:1234".to_string(),
        public_url: None,
        worker_pid: 0,
        tunnel_pid: None,
        command_pid: None,
        static_flags: StaticFlags::default(),
        created_at: now_utc(),
        state_dir: "/tmp/state".to_string(),
        foreground: false,
    }
}

fn dummy_proxy_service(id: u64, name: &str) -> Service {
    Service { kind: ServiceKind::Proxy, dir: None, ..dummy_service(id, name) }
}

#[test]
fn find_by_numeric_id() {
    let mut reg = Registry::default();
    reg.services.push(dummy_service(1, "alpha"));
    reg.services.push(dummy_service(2, "beta"));
    let found = reg.find("2").expect("id 2 should resolve");
    assert_eq!(found.id, 2);
    assert_eq!(found.name, "beta");
}

#[test]
fn find_by_name() {
    let mut reg = Registry::default();
    reg.services.push(dummy_service(1, "alpha"));
    reg.services.push(dummy_service(2, "beta"));
    let found = reg.find("alpha").expect("name alpha should resolve");
    assert_eq!(found.id, 1);
    assert_eq!(found.name, "alpha");
}

#[test]
fn find_all_digit_target_matches_id_not_name() {
    let mut reg = Registry::default();
    reg.services.push(dummy_service(1, "111"));
    reg.services.push(dummy_service(42, "real"));
    let found = reg.find("1").expect("id 1 should resolve");
    assert_eq!(found.id, 1);
    assert_eq!(found.name, "111");
    let found = reg.find("42").expect("id 42 should resolve");
    assert_eq!(found.id, 42);
    assert_eq!(found.name, "real");
    assert!(reg.find("111").is_none());
}

#[test]
fn only_a_row_of_digits_is_an_id() {
    let mut reg = Registry::default();
    reg.services.push(dummy_service(5, "x"));
    reg.services.push(dummy_service(6, "+5"));
    reg.services.push(dummy_service(7, "99999999999999999999"));
    assert_eq!(reg.find("005").map(|s| s.id), Some(5));
    assert_eq!(reg.find("+5").map(|s| s.id), Some(6));
    assert!(reg.find("99999999999999999999").is_none());
    assert!(reg.find("").is_none());
}

#[test]
fn find_mut_updates_service() {
    let mut reg = Registry::default();
    reg.services.push(dummy_service(1, "alpha"));
    {
        let s = reg.find_mut("1").expect("id 1 should resolve mutably");
        s.port = 9999;
    }
    assert_eq!(reg.services[0].port, 9999);
    {
        let s = reg.find_mut("alpha").expect("name should resolve mutably");
        s.worker_pid = 7;
    }
    assert_eq!(reg.services[0].worker_pid, 7);
}

#[test]
fn allocate_id_sequence_from_default() {
    let mut reg = Registry::default();
    assert_eq!(reg.allocate_id(), 1);
    assert_eq!(reg.allocate_id(), 2);
    assert_eq!(reg.allocate_id(), 3);
    assert_eq!(reg.next_id, 4);
}

#[test]
fn allocate_id_respects_non_default_next_id() {
    let mut reg = Registry { next_id: 100, services: Vec::new() };
    assert_eq!(reg.allocate_id(), 100);
    assert_eq!(reg.allocate_id(), 101);
    assert_eq!(reg.next_id, 102);
}

#[test]
fn the_counter_starts_at_one_and_stops_at_the_top() {
    let mut reg = Registry { next_id: 0, services: Vec::new() };
    assert_eq!(reg.allocate_id(), 1);
    let mut reg = Registry { next_id: u64::MAX, services: Vec::new() };
    assert_eq!(reg.allocate_id(), u64::MAX);
    assert_eq!(reg.next_id, u64::MAX);
}

#[test]
fn remove_returns_and_drops_service() {
    let mut reg = Registry::default();
    reg.services.push(dummy_service(1, "alpha"));
    reg.services.push(dummy_service(2, "beta"));
    let removed = reg.remove(1).expect("id 1 should be removed");
    assert_eq!(removed.id, 1);
    assert_eq!(removed.name, "alpha");
    assert_eq!(reg.services.len(), 1);
    assert_eq!(reg.services[0].id, 2);
    assert!(reg.remove(1).is_none());
    assert!(reg.remove(99).is_none());
}

#[test]
fn name_exists() {
    let mut reg = Registry::default();
    reg.services.push(dummy_service(1, "alpha"));
    assert!(reg.name_exists("alpha"));
    assert!(!reg.name_exists("beta"));
    assert!(!reg.name_exists("1"));
}

#[test]
fn validate_rejects_duplicate_ids_and_heals_next_id() {
    let mut reg =
        Registry { next_id: 1, services: vec![dummy_service(5, "a"), dummy_service(5, "dup")] };
    assert!(reg.validate().is_err(), "duplicate id must be rejected");

    let mut reg = Registry { next_id: 1, services: vec![dummy_service(7, "a")] };
    assert!(reg.validate().is_ok());
    assert_eq!(reg.next_id, 8, "next_id healed past the highest existing id");
}

#[test]
fn validate_rejects_static_without_dir() {
    let mut s = dummy_service(1, "a");
    s.dir = None;
    let mut reg = Registry { next_id: 2, services: vec![s] };
    assert!(reg.validate().is_err(), "static without dir must be rejected");
}

#[test]
fn validate_rejects_proxy_with_dir() {
    let mut s = dummy_proxy_service(1, "a");
    s.dir = Some("/tmp/dir".to_string());
    let mut reg = Registry { next_id: 2, services: vec![s] };
    assert!(reg.validate().is_err(), "proxy with dir must be rejected");
}

#[test]
fn validate_accepts_proxy_without_dir() {
    let mut reg = Registry { next_id: 2, services: vec![dummy_proxy_service(1, "a")] };
    assert!(reg.validate().is_ok(), "proxy without dir is consistent");
}

#[test]
fn validate_rejects_proxy_on_reserved_port() {
    let mut s = dummy_proxy_service(1, "a");
    s.port = 0;
    let mut reg = Registry { next_id: 2, services: vec![s] };
    assert!(reg.validate().is_err(), "proxy on port 0 must be rejected");
}

fn fault_of(services: Vec<Service>) -> String {
    let mut reg = Registry { next_id: 1, services };
    reg.validate().expect_err("unsound services must be rejected").message()
}

#[test]
fn every_fault_says_what_is_wrong() {
    assert_eq!(fault_of(vec![dummy_service(0, "a\"b")]), "service \"a\\\"b\" has reserved id 0");
    assert_eq!(
        fault_of(vec![dummy_service(3, "a"), dummy_service(3, "b")]),
        "duplicate service id 3"
    );
    assert_eq!(fault_of(vec![dummy_service(3, "")]), "service id 3 has an empty name");
    assert_eq!(
        fault_of(vec![dummy_service(3, "a"), dummy_service(4, "a")]),
        "duplicate service name \"a\""
    );
    let mut s = dummy_service(1, "a");
    s.port = 0;
    assert_eq!(fault_of(vec![s]), "service \"a\" has reserved port 0");
    let mut s = dummy_service(1, "a");
    s.dir = None;
    assert_eq!(fault_of(vec![s]), "static service \"a\" has no directory");
    let mut s = dummy_proxy_service(1, "tab\there");
    s.dir = Some("/tmp".to_string());
    assert_eq!(fault_of(vec![s]), "proxy service \"tab\\there\" must not carry a directory");
}

#[test]
fn a_rejected_registry_is_left_alone() {
    let mut reg = Registry { next_id: 1, services: vec![dummy_service(9, "a"), dummy_service(9, "b")] };
    assert!(reg.validate().is_err());
    assert_eq!(reg.next_id, 1);
    assert_eq!(reg.services.len(), 2);
}

#[test]
fn parse_accepts_legacy_registry_without_kind() {
    // An entry without a kind is a static one, with the directory that it carries.
    let legacy = Service {
        kind: ServiceKind::default(),
        dir: Some("/tmp/legacy".to_string()),
        port: 8080,
        local_url: "http://127.0.0.1:8080".to_string(),
        created_at: Timestamp { secs: 1_784_592_000, nanos: 0 },
        state_dir: "/tmp/legacy-state".to_string(),
        ..dummy_service(1, "legacy")
    };
    let reg = Registry::parse(Some(Registry { next_id: 2, services: vec![legacy] }))
        .expect("legacy registry must parse");
    assert_eq!(reg.services.len(), 1);
    assert_eq!(reg.services[0].kind, ServiceKind::Static);
    assert_eq!(reg.services[0].dir, Some("/tmp/legacy".to_string()));
}

#[test]
fn parse_rejects_proxy_entry_with_dir() {
    let broken = Service {
        kind: ServiceKind::Proxy,
        dir: Some("/tmp/leftover".to_string()),
        port: 3000,
        local_url: "http://127.0.0.1:3000".to_string(),
        ..dummy_service(1, "broken")
    };
    assert!(Registry::parse(Some(Registry { next_id: 2, services: vec![broken] })).is_none());
    assert!(Registry::parse(None).is_none());
}

/// A stored file whose bytes decode to `decoded`.
fn blob(bytes: &[u8], decoded: Option<Registry>) -> Option<StoredBlob> {
    Some(StoredBlob { bytes: bytes.to_vec(), decoded })
}

fn good() -> Registry {
    Registry { next_id: 43, services: vec![dummy_service(42, "blog")] }
}

#[test]
fn load_falls_back_to_backup_when_live_corrupt() {
    let loaded = Registry::load(
        "registry.json",
        blob(b"{ this is not json", None),
        blob(b"{good}", Some(good())),
    )
    .expect("must recover from backup");
    assert_eq!(loaded.next_id, 43);
    assert_eq!(loaded.services.len(), 1);
    assert_eq!(loaded.services[0].name, "blog");
}

#[test]
fn load_returns_err_when_both_live_and_backup_corrupt() {
    let res = Registry::load(
        "/s/registry.json",
        blob(b"@@garbage@@", None),
        blob(b"@@garbage@@", None),
    );
    assert_eq!(res.unwrap_err(), "registry file /s/registry.json is corrupted");
}

#[test]
fn load_treats_oversized_registry_as_corruption() {
    let huge = vec![b'x'; MAX_REGISTRY_BYTES + 1];
    let res = Registry::load("registry.json", blob(&huge, Some(good())), None);
    assert!(res.is_err(), "oversized live file with no backup must error, not default");
    let at_the_cap = vec![b'x'; MAX_REGISTRY_BYTES];
    assert!(Registry::load("registry.json", blob(&at_the_cap, Some(good())), None).is_ok());
}

#[test]
fn a_missing_or_blank_registry_is_an_empty_one() {
    for live in [None, blob(b"", None), blob(b" \n\t\r ", None)] {
        let reg = Registry::load("registry.json", live, None).expect("no registry is no error");
        assert_eq!(reg.next_id, 1);
        assert!(reg.services.is_empty());
    }
    let reg = Registry::load("registry.json", blob(b"  ", None), blob(b"{}", Some(good())))
        .expect("a blank one falls back to the backup");
    assert_eq!(reg.services.len(), 1);
}

#[test]
fn what_is_loaded_is_healed() {
    let behind = Registry { next_id: 1, services: vec![dummy_service(42, "blog")] };
    let reg = Registry::load("registry.json", blob(b"{}", Some(behind)), None).expect("sound");
    assert_eq!(reg.next_id, 43);
}

#[test]
fn only_a_sound_file_becomes_the_backup() {
    assert_eq!(
        Registry::save(blob(b"{}", Some(good()))),
        vec![SaveStep::WriteTemp, SaveStep::Promote, SaveStep::Commit, SaveStep::SyncDirectory]
    );
    for previous in [None, blob(b"@@", None), blob(b" ", Some(good()))] {
        assert_eq!(
            Registry::save(previous),
            vec![SaveStep::WriteTemp, SaveStep::Commit, SaveStep::SyncDirectory]
        );
    }
}

#[test]
fn what_was_saved_reads_back() {
    let mut reg = Registry::default();
    for name in ["one", "two"] {
        let id = reg.allocate_id();
        reg.services.push(dummy_service(id, name));
    }
    let saved = format!("{reg:?}");
    let read = Registry::load("registry.json", blob(b"{}", Some(reg)), blob(b"@@", None));
    assert_eq!(format!("{:?}", read.expect("load")), saved);
}

#[test]
fn no_id_is_handed_out_twice() {
    let mut reg = Registry::default();
    let mut seen = Vec::new();
    for name in ["one", "two", "three"] {
        let id = reg.allocate_id();
        reg.services.push(dummy_service(id, name));
        assert!(!seen.contains(&id));
        seen.push(id);
        // A service that is gone does not give its id back.
        reg.remove(id);
    }
    assert_eq!(seen, vec![1, 2, 3]);
}
