//! The state directory.

use freeoxide_tunnel::state::{safe_component, StateDir, StateError, StateSources};

#[test]
fn safe_component_passes_simple_name() {
    assert_eq!(safe_component("blog"), "blog");
}

#[test]
fn safe_component_neutralizes_traversal() {
    assert_eq!(safe_component("../etc"), "---etc");
}

#[test]
fn safe_component_joins_separators_with_dashes() {
    assert_eq!(safe_component("a/b/c"), "a-b-c");
}

#[test]
fn safe_component_pure_traversal_falls_back_to_service() {
    assert_eq!(safe_component(".."), "service");
}

#[test]
fn safe_component_empty_falls_back_to_service() {
    assert_eq!(safe_component("---"), "service");
}

#[test]
fn safe_component_does_not_trim_dashes() {
    // Trimming would make "-a" and "a" the same.
    assert_eq!(safe_component("-a"), "-a");
    assert_eq!(safe_component("a-"), "a-");
    assert_eq!(safe_component("a"), "a");
}

#[test]
fn safe_component_keeps_underscores_and_dashes() {
    assert_eq!(safe_component("blog_1-2"), "blog_1-2");
}

#[test]
fn every_file_has_its_place() {
    let s = StateDir::new_at("/state".to_string(), b'/');
    assert_eq!(s.root(), "/state");
    assert_eq!(s.registry_path(), "/state/registry.json");
    assert_eq!(s.registry_temp_path(), "/state/registry.json.tmp");
    assert_eq!(s.registry_backup_path(), "/state/registry.json.bak");
    assert_eq!(s.lock_path(), "/state/registry.lock");
    assert_eq!(s.services_dir(), "/state/services");
    assert_eq!(s.service_dir("../x"), "/state/services/---x");
    assert_eq!(s.worker_log("web"), "/state/services/web/worker.log");
    assert_eq!(s.server_log("web"), "/state/services/web/server.log");
    assert_eq!(s.tunnel_log("web"), "/state/services/web/tunnel.log");
}

#[test]
fn the_directory_of_a_service_is_made_or_its_failure_told() {
    let s = StateDir::new_at("/state/".to_string(), b'/');
    assert_eq!(s.ensure_service_dir("web", true), Ok("/state/services/web".to_string()));
    assert_eq!(
        s.ensure_service_dir("web", false),
        Err("creating service directory for 'web'".to_string())
    );
}

#[test]
fn different_valid_names_have_different_directories() {
    let s = StateDir::new_at("/state".to_string(), b'/');
    assert_ne!(s.service_dir("a-b"), s.service_dir("a_b"));
}

fn sources(xdg: Option<&str>, absolute: bool, made: Option<&str>, home: Option<&str>) -> StateSources {
    StateSources {
        xdg_state_home: xdg.map(str::to_string),
        xdg_is_absolute: absolute,
        xdg_made_absolute: made.map(str::to_string),
        home_dir: home.map(str::to_string),
        sep: b'/',
    }
}

fn root_of(s: &StateSources) -> Result<String, StateError> {
    StateDir::new(s).map(|d| d.root().to_string())
}

#[test]
fn the_environment_decides_where_state_is_kept() {
    assert_eq!(
        root_of(&sources(Some("/var/state"), true, None, Some("/home/u"))),
        Ok("/var/state/freeoxide/tunnel".to_string())
    );
    assert_eq!(
        root_of(&sources(Some("state"), false, Some("/work/state"), Some("/home/u"))),
        Ok("/work/state/freeoxide/tunnel".to_string())
    );
    assert_eq!(
        root_of(&sources(Some(""), false, None, Some("/home/u"))),
        Ok("/home/u/.local/state/freeoxide/tunnel".to_string())
    );
    assert_eq!(
        root_of(&sources(None, false, None, Some("/home/u"))),
        Ok("/home/u/.local/state/freeoxide/tunnel".to_string())
    );
}

#[test]
fn a_state_directory_that_cannot_be_told_is_an_error() {
    let e = root_of(&sources(Some("state"), false, None, Some("/home/u"))).unwrap_err();
    assert_eq!(e, StateError::RelativeXdg);
    assert_eq!(e.message(), "resolving relative XDG_STATE_HOME");
    let e = root_of(&sources(None, false, None, None)).unwrap_err();
    assert_eq!(e, StateError::NoHome);
    assert_eq!(e.message(), "could not determine a home directory for state storage");
}

#[test]
fn paths_are_joined_by_the_separator_of_the_system() {
    let mut s = sources(None, false, None, Some("C:\\Users\\u"));
    s.sep = b'\\';
    let dir = StateDir::new(&s).expect("a state directory");
    assert_eq!(dir.root(), "C:\\Users\\u\\.local\\state\\freeoxide\\tunnel");
    assert_eq!(dir.separator(), b'\\');
    let at = |root: &str| StateDir::new_at(root.to_string(), b'\\').worker_log("web");
    assert_eq!(at("D:\\s"), "D:\\s\\services\\web\\worker.log");
    assert_eq!(at("D:\\"), "D:\\services\\web\\worker.log");
    assert_eq!(at("D:/s/"), "D:/s/services\\web\\worker.log");
    assert_eq!(at("D:"), "D:services\\web\\worker.log");
}
