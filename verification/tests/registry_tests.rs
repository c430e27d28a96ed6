use policy_engine::policy::Action;
use policy_engine::policy::Policy;
use policy_engine::policy::PolicyAtom;
use policy_engine::policy::Resource;
use policy_engine::registry::Registry;

fn policy_for(table: &str) -> Policy {
    Policy::Atom(PolicyAtom {
        action: Action::Read,
        resource: Resource::Table(table.to_string()),
        filters: vec![],
        attributes: None,
    })
}

#[test]
fn upsert_twice_with_identical_binding_keeps_one_entry() {
    let mut registry = Registry::new();
    registry.upsert("get_user".to_string(), policy_for("Users"));
    registry.upsert("get_user".to_string(), policy_for("Users"));
    assert_eq!(registry.len(), 1);
    assert_eq!(registry.get("get_user"), Some(&policy_for("Users")));
}

#[test]
fn upsert_with_a_different_policy_replaces_the_entry() {
    let mut registry = Registry::new();
    registry.upsert("get_user".to_string(), policy_for("Users"));
    registry.upsert("get_user".to_string(), policy_for("Messages"));
    assert_eq!(registry.len(), 1);
    assert_eq!(registry.get("get_user"), Some(&policy_for("Messages")));
}

#[test]
fn upsert_keeps_the_order_of_other_entries() {
    let mut registry = Registry::new();
    registry.upsert("first".to_string(), policy_for("A"));
    registry.upsert("second".to_string(), policy_for("B"));
    registry.upsert("third".to_string(), policy_for("C"));
    registry.upsert("second".to_string(), policy_for("B2"));
    assert_eq!(registry.len(), 3);
    let entries = registry.entries();
    assert_eq!(entries[0].function_id, "first");
    assert_eq!(entries[1].function_id, "second");
    assert_eq!(entries[2].function_id, "third");
    assert_eq!(entries[1].policy, policy_for("B2"));
}

#[test]
fn a_new_registry_is_empty() {
    let registry = Registry::new();
    assert_eq!(registry.len(), 0);
    assert_eq!(registry.get("anything"), None);
}

#[test]
fn get_distinguishes_functions() {
    let mut registry = Registry::new();
    registry.upsert("a".to_string(), policy_for("A"));
    registry.upsert("b".to_string(), policy_for("B"));
    assert_eq!(registry.get("a"), Some(&policy_for("A")));
    assert_eq!(registry.get("b"), Some(&policy_for("B")));
    assert_eq!(registry.get("c"), None);
}
