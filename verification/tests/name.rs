//! Service names.

use freeoxide_tunnel::clock::Timestamp;
use freeoxide_tunnel::model::{Registry, Service, ServiceKind, StaticFlags};
use freeoxide_tunnel::name::{generate_name, unique_name, validate_name};

fn service_named(name: &str) -> Service {
    Service {
        id: 1,
        name: name.to_string(),
        kind: ServiceKind::Static,
        dir: Some("/tmp".to_string()),
        port: 8000,
        local_url: "http://127.0.0.1:8000".to_string(),
        public_url: None,
        worker_pid: 0,
        tunnel_pid: None,
        static_flags: StaticFlags::default(),
        command_pid: None,
        created_at: Timestamp { secs: 0, nanos: 0 },
        state_dir: "/tmp".to_string(),
        foreground: false,
    }
}

#[test]
fn validate_name_accepts_valid() {
    assert!(validate_name("blog").is_ok());
}

#[test]
fn validate_name_allows_underscores_and_dashes() {
    assert!(validate_name("blog_1-2").is_ok());
}

#[test]
fn validate_name_rejects_spaces() {
    assert!(validate_name("my blog").is_err());
}

#[test]
fn validate_name_rejects_slash() {
    assert!(validate_name("a/b").is_err());
}

#[test]
fn validate_name_rejects_empty() {
    assert!(validate_name("").is_err());
}

#[test]
fn validate_name_rejects_too_long() {
    let long = "a".repeat(65);
    assert!(validate_name(&long).is_err());
}

#[test]
fn validate_name_accepts_exactly_64_chars() {
    let max = "a".repeat(64);
    assert!(validate_name(&max).is_ok());
}

#[test]
fn validate_name_rejects_all_digits() {
    assert!(validate_name("12345").is_err());
}

#[test]
fn every_refusal_says_why() {
    assert_eq!(validate_name("").unwrap_err(), "service name cannot be empty");
    assert_eq!(
        validate_name(&"a".repeat(65)).unwrap_err(),
        "service name cannot be longer than 64 characters"
    );
    assert_eq!(
        validate_name("42").unwrap_err(),
        "service name cannot be all digits — it would clash with numeric IDs"
    );
    assert_eq!(
        validate_name("a b").unwrap_err(),
        "service name 'a b' is invalid — only letters, numbers, '-' and '_' are allowed"
    );
    assert!(validate_name("naïve").is_err());
}

#[test]
fn generate_name_simple_basename() {
    assert_eq!(generate_name("/home/u/blog", b'/'), "blog");
}

#[test]
fn generate_name_parent_dotdot() {
    assert_eq!(generate_name("..", b'/'), "service");
}

#[test]
fn generate_name_trailing_slash() {
    assert_eq!(generate_name("/home/u/blog/", b'/'), "blog");
}

#[test]
fn generate_name_empty_to_default() {
    assert_eq!(generate_name("", b'/'), "service");
}

#[test]
fn generate_name_sanitizes_unsafe_chars() {
    assert_eq!(generate_name("/home/u/my blog!", b'/'), "my-blog");
}

#[test]
fn generated_names_are_one_segment() {
    for dir in ["/a/--", "/", "/x/..", "/x/ü", "/x/.", "/x/a.b/"] {
        let name = generate_name(dir, b'/');
        assert!(!name.is_empty() && !name.contains('/') && !name.contains('.'), "{dir}: {name}");
    }
    assert_eq!(generate_name("/x/.", b'/'), "x");
    assert_eq!(generate_name("/x/a.b/", b'/'), "a-b");
    assert_eq!(generate_name("/a/--", b'/'), "service");
}

#[test]
fn names_are_made_on_systems_with_drives_too() {
    assert_eq!(generate_name("C:\\Users\\u\\my blog", b'\\'), "my-blog");
    assert_eq!(generate_name("C:\\Users/u/blog\\", b'\\'), "blog");
    assert_eq!(generate_name("C:\\", b'\\'), "service");
    assert_eq!(generate_name("c:blog", b'\\'), "blog");
    assert_eq!(generate_name("\\\\server\\share", b'\\'), "service");
    assert_eq!(generate_name("\\\\server\\share\\blog", b'\\'), "blog");
    assert_eq!(generate_name("a\\b", b'\\'), "b");
    assert_eq!(generate_name("a\\..", b'\\'), "service");
    // A backslash is a character like any other where it does not separate.
    assert_eq!(generate_name("a\\b", b'/'), "a-b");
    assert_eq!(generate_name("C:", b'/'), "C");
}

#[test]
fn unique_name_base_free() {
    let registry = Registry::default();
    assert_eq!(unique_name(&registry, "blog"), "blog");
}

#[test]
fn unique_name_base_taken() {
    let mut registry = Registry::default();
    registry.services.push(service_named("blog"));
    assert_eq!(unique_name(&registry, "blog"), "blog-2");
}

#[test]
fn unique_name_base_and_base_2_taken() {
    let mut registry = Registry::default();
    registry.services.push(service_named("blog"));
    registry.services.push(service_named("blog-2"));
    assert_eq!(unique_name(&registry, "blog"), "blog-3");
}

#[test]
fn a_gap_in_the_numbers_is_filled() {
    let mut registry = Registry::default();
    registry.services.push(service_named("blog"));
    registry.services.push(service_named("blog-3"));
    assert_eq!(unique_name(&registry, "blog"), "blog-2");
}

#[test]
fn a_valid_name_finds_its_service() {
    let mut registry = Registry::default();
    registry.services.push(service_named("first"));
    registry.services.push(service_named("a1"));
    assert!(validate_name("a1").is_ok());
    assert_eq!(registry.find("a1").map(|s| s.name.as_str()), Some("a1"));
}
