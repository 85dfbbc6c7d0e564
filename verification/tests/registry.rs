//! The registry of custom backends.
use std::sync::Arc;
use vllm_bench::backends::registry::{
    active_custom, lookup, register_backend, registered_backend_names, registry, set_active,
    Registry,
};

trait Backend {
    fn endpoint(&self) -> &str;
}

struct Fixed(&'static str);

impl Backend for Fixed {
    fn endpoint(&self) -> &str {
        self.0
    }
}

fn endpoint(found: Option<Arc<dyn Backend>>) -> Option<String> {
    found.map(|backend| backend.endpoint().to_string())
}

#[test]
fn nothing_is_registered_at_first() {
    let backends: Registry<dyn Backend> = registry();
    assert!(lookup(&backends, "a").is_none());
    assert!(registered_backend_names(&backends).is_empty());
    assert!(active_custom(&backends).is_none());
}

#[test]
fn registered_backends_are_found() {
    let mut backends: Registry<dyn Backend> = registry();
    register_backend(&mut backends, "my-llm", Arc::new(Fixed("/a")));
    register_backend(&mut backends, "other", Arc::new(Fixed("/b")));
    assert_eq!(endpoint(lookup(&backends, "my-llm")).as_deref(), Some("/a"));
    assert_eq!(endpoint(lookup(&backends, "other")).as_deref(), Some("/b"));
    assert!(lookup(&backends, "my").is_none());
    assert!(lookup(&backends, "").is_none());
}

#[test]
fn registering_again_overwrites() {
    let mut backends: Registry<dyn Backend> = registry();
    register_backend(&mut backends, "x", Arc::new(Fixed("/old")));
    register_backend(&mut backends, "y", Arc::new(Fixed("/y")));
    register_backend(&mut backends, "x", Arc::new(Fixed("/new")));
    assert_eq!(endpoint(lookup(&backends, "x")).as_deref(), Some("/new"));
    assert_eq!(endpoint(lookup(&backends, "y")).as_deref(), Some("/y"));
    assert_eq!(registered_backend_names(&backends), vec!["x", "y"]);
}

#[test]
fn names_are_sorted_as_strings_are() {
    let names = ["b", "", "a", "ab", "B", "\u{e9}", "a\u{10000}", "a\u{ffff}", "10", "9", "b"];
    let mut backends: Registry<dyn Backend> = registry();
    for name in names {
        register_backend(&mut backends, name, Arc::new(Fixed("/")));
    }
    let mut expected: Vec<String> = names.iter().map(|n| n.to_string()).collect();
    expected.sort();
    expected.dedup();
    assert_eq!(registered_backend_names(&backends), expected);
}

#[test]
fn registration_order_does_not_matter() {
    let mut one: Registry<dyn Backend> = registry();
    register_backend(&mut one, "a", Arc::new(Fixed("/a")));
    register_backend(&mut one, "b", Arc::new(Fixed("/b")));
    let mut two: Registry<dyn Backend> = registry();
    register_backend(&mut two, "b", Arc::new(Fixed("/b")));
    register_backend(&mut two, "a", Arc::new(Fixed("/a")));
    assert_eq!(registered_backend_names(&one), registered_backend_names(&two));
    for name in ["a", "b", "c"] {
        assert_eq!(endpoint(lookup(&one, name)), endpoint(lookup(&two, name)));
    }
}

#[test]
fn the_last_selection_is_active() {
    let mut backends: Registry<dyn Backend> = registry();
    set_active(&mut backends, Arc::new(Fixed("/first")));
    assert_eq!(endpoint(active_custom(&backends)).as_deref(), Some("/first"));
    set_active(&mut backends, Arc::new(Fixed("/second")));
    assert_eq!(endpoint(active_custom(&backends)).as_deref(), Some("/second"));
    register_backend(&mut backends, "x", Arc::new(Fixed("/x")));
    assert_eq!(endpoint(active_custom(&backends)).as_deref(), Some("/second"));
    assert_eq!(registered_backend_names(&backends), vec!["x"]);
}

#[test]
fn found_backends_are_the_registered_ones() {
    let mut backends: Registry<u32> = registry();
    let backend = Arc::new(7u32);
    register_backend(&mut backends, "seven", backend.clone());
    assert!(Arc::ptr_eq(&lookup(&backends, "seven").unwrap(), &backend));
}
