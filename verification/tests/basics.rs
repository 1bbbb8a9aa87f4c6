use behaviortree_rs::basic_types::{
    get_remapped_key, is_allowed_port_name, NodeStatus, NodeType, ParseNodeStatusError,
    ParseNodeTypeError, ParsePortDirectionError, PortDirection, PortInfo, PortsList,
    TreeNodeManifest,
};
use behaviortree_rs::blackboard::Blackboard;
use behaviortree_rs::nodes::control::ParallelNode;
use behaviortree_rs::nodes::{check_sync_result, NodeDataGeneric, NodeError, NodeMetadata};
use behaviortree_rs::strmap::StrMap;
use behaviortree_rs::text::{
    i64_to_string, is_bb_pointer, parse_bool, parse_i64, strip_bb_pointer, u64_to_string,
};
use behaviortree_rs::value::{Value, ValueKind};

#[test]
fn status_predicates() {
    assert!(NodeStatus::Idle.is_active());
    assert!(NodeStatus::Skipped.is_active());
    assert!(!NodeStatus::Running.is_active());
    assert!(!NodeStatus::Success.is_active());
    assert!(!NodeStatus::Failure.is_active());
    assert!(NodeStatus::Success.is_completed());
    assert!(NodeStatus::Failure.is_completed());
    assert!(!NodeStatus::Running.is_completed());
    assert!(!NodeStatus::Skipped.is_completed());
}

#[test]
fn status_text_round_trip() {
    for s in [NodeStatus::Idle, NodeStatus::Running, NodeStatus::Success, NodeStatus::Failure, NodeStatus::Skipped] {
        assert_eq!(NodeStatus::from_str(s.as_str()), Ok(s));
    }
    assert_eq!(NodeStatus::from_str("Running"), Ok(NodeStatus::Running));
    assert_eq!(NodeStatus::from_str("running"), Err(ParseNodeStatusError::NoMatch));
    assert_eq!(NodeStatus::Success.to_colorized_string(), "\x1b[32mSUCCESS\x1b[0m");
}

#[test]
fn node_type_and_direction_text() {
    for t in [NodeType::Action, NodeType::Condition, NodeType::Control, NodeType::Decorator, NodeType::SubTree] {
        assert_eq!(NodeType::from_str(t.as_str()), Ok(t));
    }
    assert_eq!(NodeType::from_str("Leaf"), Err(ParseNodeTypeError::NoMatch));
    for d in [PortDirection::Input, PortDirection::Output, PortDirection::InOut] {
        assert_eq!(PortDirection::from_str(d.as_str()), Ok(d));
    }
    assert_eq!(PortDirection::from_str("INOUT"), Ok(PortDirection::InOut));
    assert_eq!(PortDirection::from_str("in"), Err(ParsePortDirectionError::NoMatch));
}

#[test]
fn port_names() {
    assert!(is_allowed_port_name("foo"));
    assert!(is_allowed_port_name("_autoremap"));
    assert!(!is_allowed_port_name("_foo"));
    assert!(!is_allowed_port_name("1foo"));
    assert!(!is_allowed_port_name("name"));
    assert!(!is_allowed_port_name("ID"));
    assert!(!is_allowed_port_name(""));
}

#[test]
fn remapped_keys() {
    assert_eq!(get_remapped_key("port", "="), Some("port".to_string()));
    assert_eq!(get_remapped_key("port", "{=}"), Some("port".to_string()));
    assert_eq!(get_remapped_key("port", "{key}"), Some("key".to_string()));
    assert_eq!(get_remapped_key("port", "value"), None);
    assert_eq!(strip_bb_pointer("{a}"), Some("a"));
    assert_eq!(strip_bb_pointer("{a"), None);
    assert!(is_bb_pointer("{}"));
    assert!(!is_bb_pointer("x"));
}

#[test]
fn number_text() {
    assert_eq!(parse_i64("-42"), Some(-42));
    assert_eq!(parse_i64("+7"), Some(7));
    assert_eq!(parse_i64("9223372036854775807"), Some(i64::MAX));
    assert_eq!(parse_i64("-9223372036854775808"), Some(i64::MIN));
    assert_eq!(parse_i64("9223372036854775808"), None);
    assert_eq!(parse_i64(""), None);
    assert_eq!(parse_i64("1a"), None);
    assert_eq!(parse_bool("true"), Some(true));
    assert_eq!(parse_bool("True"), None);
    assert_eq!(i64_to_string(-305), "-305");
    assert_eq!(u64_to_string(0), "0");
    assert_eq!(behaviortree_rs::text::concat("ab", "cd"), "abcd");
}

#[test]
fn value_text_and_kind() {
    assert_eq!(Value::Integer(-3).as_string(), Some("-3".to_string()));
    assert_eq!(Value::Boolean(true).as_string(), Some("true".to_string()));
    assert_eq!(Value::Status(NodeStatus::Failure).as_string(), Some("FAILURE".to_string()));
    assert_eq!(
        Value::Vec(vec![Value::Integer(1), Value::String("b".to_string())]).as_string(),
        Some("[1,b]".to_string())
    );
    assert_eq!(Value::Empty.as_string(), None);
    assert_eq!(Value::String("s".to_string()).value_kind(), ValueKind::String);
    assert_eq!(ValueKind::Status.as_str(), "NodeStatus");
}

#[test]
fn strmap_last_insert_wins() {
    let mut m: StrMap<i32> = StrMap::new();
    m.insert("a".to_string(), 1);
    m.insert("b".to_string(), 2);
    m.insert("a".to_string(), 3);
    assert_eq!(m.len(), 2);
    assert_eq!(m.get("a"), Some(&3));
    assert!(m.contains_key("b"));
    assert!(!m.contains_key("c"));
    assert_eq!(m.key_at(0), "a");
}

#[test]
fn ports_list_from_keeps_last_port() {
    let ports = PortsList::from(vec![
        PortInfo::input("a", ValueKind::Integer).build(),
        PortInfo::input("a", ValueKind::String).description("second").build(),
        PortInfo::output("b").build(),
    ]);
    assert_eq!(ports.len(), 2);
    assert_eq!(ports.get("a").unwrap().kind(), ValueKind::String);
    assert_eq!(ports.get("a").unwrap().description(), "second");
    assert_eq!(ports.get("b").unwrap().direction(), PortDirection::Output);
    assert_eq!(ports.keys(), vec!["a".to_string(), "b".to_string()]);
}

#[test]
fn port_info_defaults() {
    let p = PortInfo::input("n", ValueKind::Integer).default_value(Value::Integer(4)).parse_expr().build();
    assert!(p.has_default());
    assert!(p.parse_expr());
    assert!(matches!(p.default_value(ValueKind::Integer), Some(Value::Integer(4))));
    assert!(p.default_value(ValueKind::String).is_none());
    let q = PortInfo::input("n", ValueKind::Integer).default_value(Value::Integer(4)).parse_expr().build();
    assert!(p.eq(&q));
    let r = PortInfo::input("n", ValueKind::Integer).build();
    assert!(!p.eq(&r));
}

#[test]
fn parallel_thresholds_count_from_the_end() {
    let p = ParallelNode::default();
    assert_eq!(p.threshold(-1, 4), 4);
    assert_eq!(p.threshold(-2, 4), 3);
    assert_eq!(p.threshold(-10, 4), 0);
    assert_eq!(p.threshold(2, 4), 2);
}

fn node_data(ports: Vec<PortInfo>, values: Vec<(PortDirection, &str, &str)>) -> NodeDataGeneric {
    let manifest = TreeNodeManifest::new(NodeType::Action, "N".to_string(), PortsList::from(ports), String::new());
    let mut meta = NodeMetadata::new("N".to_string(), "N".to_string(), NodeType::Action, manifest);
    for (d, n, v) in values {
        meta.set_port_value(d, n.to_string(), v.to_string());
    }
    NodeDataGeneric { meta, status: NodeStatus::Idle, scope: 0 }
}

#[test]
fn get_input_outcomes() {
    let mut bb = Blackboard::new();
    bb.set(0, "k", Value::String("12".to_string()));
    let data = node_data(
        vec![
            PortInfo::input("plain", ValueKind::Integer).build(),
            PortInfo::input("pointer", ValueKind::Integer).build(),
            PortInfo::input("missing", ValueKind::Integer).build(),
            PortInfo::input("defaulted", ValueKind::Integer).default_value(Value::Integer(9)).build(),
            PortInfo::input("bad", ValueKind::Integer).build(),
            PortInfo::input("dangling", ValueKind::Integer).build(),
            PortInfo::output("out").build(),
            PortInfo::input("typed", ValueKind::Boolean).default_value(Value::Integer(1)).build(),
        ],
        vec![
            (PortDirection::Input, "plain", "5"),
            (PortDirection::Input, "pointer", "{k}"),
            (PortDirection::Input, "bad", "five"),
            (PortDirection::Input, "dangling", "{nothing}"),
            (PortDirection::Output, "out", "{x}"),
        ],
    );
    assert!(matches!(data.get_input(&mut bb, "plain", ValueKind::Integer), Ok(Value::Integer(5))));
    assert!(matches!(data.get_input(&mut bb, "pointer", ValueKind::Integer), Ok(Value::Integer(12))));
    assert!(matches!(data.get_input(&mut bb, "defaulted", ValueKind::Integer), Ok(Value::Integer(9))));
    assert!(matches!(data.get_input(&mut bb, "nope", ValueKind::Integer), Err(NodeError::PortError(p)) if p == "nope"));
    assert!(matches!(data.get_input(&mut bb, "missing", ValueKind::Integer), Err(NodeError::MissingRequiredPort(p)) if p == "missing"));
    assert!(matches!(data.get_input(&mut bb, "bad", ValueKind::Integer), Err(NodeError::PortValueParseError(p, _)) if p == "bad"));
    assert!(matches!(data.get_input(&mut bb, "dangling", ValueKind::Integer), Err(NodeError::BlackboardError(k)) if k == "nothing"));
    assert!(matches!(
        data.get_input(&mut bb, "out", ValueKind::Integer),
        Err(NodeError::PortDirectionError { name, actual: PortDirection::Output, expected: PortDirection::Input }) if name == "out"
    ));
    assert!(matches!(data.get_input(&mut bb, "typed", ValueKind::Integer), Err(NodeError::PortTypeMismatch(p)) if p == "typed"));
    // The pointed-to string entry now holds the parsed integer.
    assert!(matches!(bb.get_exact(0, "k", ValueKind::Integer), Some(Value::Integer(12))));
}

#[test]
fn set_output_keys() {
    let mut bb = Blackboard::new();
    let data = node_data(
        vec![
            PortInfo::output("same").build(),
            PortInfo::output("pointer").build(),
            PortInfo::output("named").build(),
            PortInfo::input("input", ValueKind::String).build(),
        ],
        vec![
            (PortDirection::Output, "same", "="),
            (PortDirection::Output, "pointer", "{target}"),
            (PortDirection::Output, "named", "plain_key"),
            (PortDirection::Input, "input", "x"),
        ],
    );
    assert!(data.set_output(&mut bb, "same", Value::Integer(1)).is_ok());
    assert!(data.set_output(&mut bb, "pointer", Value::Integer(2)).is_ok());
    assert!(data.set_output(&mut bb, "named", Value::Integer(3)).is_ok());
    assert!(matches!(bb.get(0, "same", ValueKind::Integer), Some(Value::Integer(1))));
    assert!(matches!(bb.get(0, "target", ValueKind::Integer), Some(Value::Integer(2))));
    assert!(matches!(bb.get(0, "plain_key", ValueKind::Integer), Some(Value::Integer(3))));
    assert!(matches!(data.set_output(&mut bb, "input", Value::Integer(4)), Err(NodeError::PortError(p)) if p == "input"));
    assert!(matches!(data.set_output(&mut bb, "unset", Value::Integer(4)), Err(NodeError::PortError(p)) if p == "unset"));
}

#[test]
fn port_value_flags() {
    let manifest = TreeNodeManifest::new(NodeType::Action, "N".to_string(), PortsList::new(), String::new());
    let mut meta = NodeMetadata::new("N".to_string(), "p".to_string(), NodeType::Action, manifest);
    assert!(!meta.is_port_value_set("a", PortDirection::Input));
    meta.set_port_value(PortDirection::Input, "a".to_string(), "1".to_string());
    assert!(meta.is_port_value_set("a", PortDirection::Input));
    assert!(!meta.is_port_value_set("a", PortDirection::Output));
}

#[test]
fn sync_result_refuses_running_and_idle() {
    match check_sync_result(Ok(NodeStatus::Running), "main/Act") {
        Err(NodeError::StatusError(path, status)) => {
            assert_eq!(path, "main/Act");
            assert_eq!(status, "RUNNING");
        },
        _ => panic!("Running should be refused"),
    }
    assert!(matches!(check_sync_result(Ok(NodeStatus::Idle), "x"), Err(NodeError::StatusError(_, _))));
    assert!(matches!(check_sync_result(Ok(NodeStatus::Success), "x"), Ok(NodeStatus::Success)));
    assert!(matches!(check_sync_result(Ok(NodeStatus::Skipped), "x"), Ok(NodeStatus::Skipped)));
    assert!(matches!(check_sync_result(Err(NodeError::IndexError), "x"), Err(NodeError::IndexError)));
}
