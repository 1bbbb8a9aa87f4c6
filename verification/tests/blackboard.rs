use behaviortree_rs::blackboard::Blackboard;
use behaviortree_rs::basic_types::NodeStatus;
use behaviortree_rs::value::{Value, ValueKind};

fn int_of(v: Option<Value>) -> Option<i64> {
    match v {
        Some(Value::Integer(n)) => Some(n),
        _ => None,
    }
}

#[test]
fn no_remapping() {
    let mut bb = Blackboard::new();
    let root = bb.root();
    let left = bb.with_parent(root);
    let right = bb.with_parent(root);

    bb.set(left, "foo", Value::Integer(123));

    assert!(bb.get(left, "foo", ValueKind::Integer).is_some());
    assert!(bb.get(right, "foo", ValueKind::Integer).is_none());
    assert!(bb.get(root, "foo", ValueKind::Integer).is_none());
}

#[test]
fn auto_remapping() {
    let mut bb = Blackboard::new();
    let root = bb.root();
    let left = bb.with_parent(root);
    let right = bb.with_parent(root);

    bb.set_auto_remapping(root, true);
    bb.set_auto_remapping(left, true);
    bb.set_auto_remapping(right, true);

    bb.set(left, "foo", Value::Integer(123));

    assert_eq!(int_of(bb.get(left, "foo", ValueKind::Integer)), Some(123));
    assert_eq!(int_of(bb.get(right, "foo", ValueKind::Integer)), Some(123));
    assert_eq!(int_of(bb.get(root, "foo", ValueKind::Integer)), Some(123));
}

#[test]
fn custom_remapping() {
    let mut bb = Blackboard::new();
    let root = bb.root();
    let left = bb.with_parent(root);
    let right = bb.with_parent(root);

    bb.add_subtree_remapping(right, String::from("foo"), String::from("bar"));
    bb.add_subtree_remapping(left, String::from("foo"), String::from("bar"));

    bb.set(left, "foo", Value::Integer(123));

    assert_eq!(int_of(bb.get(left, "foo", ValueKind::Integer)), Some(123));
    assert_eq!(int_of(bb.get(right, "foo", ValueKind::Integer)), Some(123));
    assert_eq!(int_of(bb.get(root, "bar", ValueKind::Integer)), Some(123));
}

#[test]
fn remapping() {
    let mut bb = Blackboard::new();
    let root = bb.root();
    let child = bb.with_parent(root);
    bb.set(root, "foo", Value::Integer(123));
    assert!(bb.get(child, "foo", ValueKind::Integer).is_none());

    let mut bb = Blackboard::new();
    let root = bb.root();
    let child1 = bb.with_parent(root);
    let child2 = bb.with_parent(child1);
    let child3 = bb.with_parent(child2);
    bb.set_auto_remapping(child1, true);
    bb.set_auto_remapping(child2, true);
    bb.set_auto_remapping(child3, true);
    bb.set(root, "foo", Value::Integer(123));
    assert_eq!(int_of(bb.get(child1, "foo", ValueKind::Integer)), Some(123));
    assert_eq!(int_of(bb.get(child2, "foo", ValueKind::Integer)), Some(123));
    assert_eq!(int_of(bb.get(child3, "foo", ValueKind::Integer)), Some(123));

    let mut bb = Blackboard::new();
    let root = bb.root();
    let child1 = bb.with_parent(root);
    let child2 = bb.with_parent(child1);
    let child3 = bb.with_parent(child2);
    bb.add_subtree_remapping(child1, String::from("child1"), String::from("root"));
    bb.add_subtree_remapping(child2, String::from("child2"), String::from("child1"));
    bb.add_subtree_remapping(child3, String::from("child3"), String::from("child2"));
    bb.set(root, "root", Value::Integer(123));
    assert_eq!(int_of(bb.get(child1, "child1", ValueKind::Integer)), Some(123));
    assert_eq!(int_of(bb.get(child2, "child2", ValueKind::Integer)), Some(123));
    assert_eq!(int_of(bb.get(child3, "child3", ValueKind::Integer)), Some(123));
    assert_eq!(int_of(bb.get(child3, "foo", ValueKind::Integer)), None);
}

#[test]
fn type_matching() {
    let mut bb = Blackboard::new();
    let root = bb.root();
    bb.set(root, "foo", Value::Integer(123));
    assert!(bb.get(root, "foo", ValueKind::Integer).is_some());
    assert!(bb.get(root, "foo", ValueKind::String).is_none());
    assert!(bb.get(root, "foo", ValueKind::Boolean).is_none());
}

#[test]
fn string_entries_are_parsed_and_replaced() {
    let mut bb = Blackboard::new();
    let root = bb.root();
    bb.set(root, "n", Value::String(String::from("42")));
    bb.set(root, "s", Value::String(String::from("Running")));
    bb.set(root, "bad", Value::String(String::from("4x2")));

    assert_eq!(int_of(bb.get(root, "n", ValueKind::Integer)), Some(42));
    // The entry now holds the parsed value, so an exact read finds it.
    assert_eq!(int_of(bb.get_exact(root, "n", ValueKind::Integer)), Some(42));
    assert!(matches!(bb.get(root, "s", ValueKind::Status), Some(Value::Status(NodeStatus::Running))));
    assert!(bb.get(root, "bad", ValueKind::Integer).is_none());
    // A failed parse leaves the string.
    assert!(matches!(bb.get(root, "bad", ValueKind::String), Some(Value::String(s)) if s == "4x2"));
}

#[test]
fn get_exact_does_not_parse() {
    let mut bb = Blackboard::new();
    let root = bb.root();
    bb.set(root, "n", Value::String(String::from("7")));
    assert!(bb.get_exact(root, "n", ValueKind::Integer).is_none());
    assert!(bb.get_exact(root, "n", ValueKind::String).is_some());
}

#[test]
fn read_after_write_overwrites() {
    let mut bb = Blackboard::new();
    let root = bb.root();
    bb.set(root, "k", Value::Integer(1));
    bb.set(root, "k", Value::Integer(2));
    assert_eq!(int_of(bb.get(root, "k", ValueKind::Integer)), Some(2));
    assert_eq!(bb.num_scopes(), 1);
}

#[test]
fn remapped_read_is_remembered_by_child() {
    let mut bb = Blackboard::new();
    let root = bb.root();
    let child = bb.with_parent(root);
    bb.add_subtree_remapping(child, String::from("a"), String::from("b"));
    bb.set(root, "b", Value::Integer(5));
    assert_eq!(int_of(bb.get(child, "a", ValueKind::Integer)), Some(5));
    // Writing through the child now reaches the shared entry.
    bb.set(child, "a", Value::Integer(6));
    assert_eq!(int_of(bb.get(root, "b", ValueKind::Integer)), Some(6));
}

#[test]
fn unknown_scope_is_left_alone() {
    let mut bb = Blackboard::new();
    let root = bb.root();
    bb.set(root, "foo", Value::Integer(7));
    let missing = bb.num_scopes() + 3;
    bb.set(missing, "foo", Value::Integer(9));
    bb.add_subtree_remapping(missing, "foo".to_string(), "bar".to_string());
    bb.set_auto_remapping(missing, true);
    assert!(bb.get(missing, "foo", ValueKind::Integer).is_none());
    assert!(bb.get_exact(missing, "foo", ValueKind::Integer).is_none());
    assert_eq!(int_of(bb.get(root, "foo", ValueKind::Integer)), Some(7));
    assert_eq!(bb.num_scopes(), 1);
}
