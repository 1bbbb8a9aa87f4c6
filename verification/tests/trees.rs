use behaviortree_rs::basic_types::{NodeStatus, NodeType, PortInfo, PortsList};
use behaviortree_rs::blackboard::Blackboard;
use behaviortree_rs::error::ParseError;
use behaviortree_rs::node_registry::{ActionNode, NodeRegistry};
use behaviortree_rs::nodes::{
    NodeDataGeneric, NodeError, NodeResult, StatefulActionNode, SyncActionNode,
};
use behaviortree_rs::tree::Tree;
use behaviortree_rs::value::{Value, ValueKind};

/// The leaf nodes used by these tests.
#[derive(Debug, Clone)]
enum TestNode {
    Status,
    SuccessThenFailure { iter: usize },
    Echo,
    RunFor { counter: usize },
    Data,
    StringAppend,
}

fn input_status(ctx: &NodeDataGeneric, bb: &mut Blackboard, port: &str) -> Result<NodeStatus, NodeError> {
    match ctx.get_input(bb, port, ValueKind::Status)? {
        Value::Status(s) => Ok(s),
        _ => Err(NodeError::PortTypeMismatch(port.to_string())),
    }
}

fn input_usize(ctx: &NodeDataGeneric, bb: &mut Blackboard, port: &str) -> Result<usize, NodeError> {
    match ctx.get_input(bb, port, ValueKind::Integer)? {
        Value::Integer(n) if n >= 0 => Ok(n as usize),
        _ => Err(NodeError::PortTypeMismatch(port.to_string())),
    }
}

fn input_string(ctx: &NodeDataGeneric, bb: &mut Blackboard, port: &str) -> Result<String, NodeError> {
    match ctx.get_input(bb, port, ValueKind::String)? {
        Value::String(s) => Ok(s),
        _ => Err(NodeError::PortTypeMismatch(port.to_string())),
    }
}

fn ports_of(ports: Vec<PortInfo>) -> PortsList {
    PortsList::from(ports)
}

impl SyncActionNode for TestNode {
    fn ports(&self) -> PortsList {
        match self {
            TestNode::Status => ports_of(vec![PortInfo::input("status", ValueKind::Status).build()]),
            TestNode::SuccessThenFailure { .. } => ports_of(vec![PortInfo::input("iters", ValueKind::Integer).build()]),
            TestNode::Echo => ports_of(vec![PortInfo::input("msg", ValueKind::String).build()]),
            TestNode::RunFor { .. } => StatefulActionNode::ports(self),
            TestNode::Data => PortsList::new(),
            TestNode::StringAppend => ports_of(vec![
                PortInfo::input("key", ValueKind::String).build(),
                PortInfo::input("char", ValueKind::String).build(),
            ]),
        }
    }

    fn tick(&mut self, ctx: &mut NodeDataGeneric, bb: &mut Blackboard) -> NodeResult {
        match self {
            TestNode::Status => input_status(ctx, bb, "status"),
            TestNode::SuccessThenFailure { iter } => {
                let max_iters = input_usize(ctx, bb, "iters")?;
                if *iter < max_iters {
                    *iter += 1;
                    Ok(NodeStatus::Success)
                } else {
                    Ok(NodeStatus::Failure)
                }
            }
            TestNode::Echo => {
                let msg = input_string(ctx, bb, "msg")?;
                println!("{msg}");
                Ok(NodeStatus::Success)
            }
            TestNode::RunFor { .. } => Err(NodeError::UserError("RunFor is stateful".to_string())),
            TestNode::Data => Ok(NodeStatus::Success),
            TestNode::StringAppend => {
                let key = input_string(ctx, bb, "key")?;
                let ch = input_string(ctx, bb, "char")?;
                let scope = ctx.blackboard();
                let value = match bb.get(scope, &key, ValueKind::String) {
                    Some(Value::String(s)) => s,
                    _ => String::new(),
                };
                bb.set(scope, &key, Value::String(value + &ch));
                Ok(NodeStatus::Success)
            }
        }
    }
}

impl StatefulActionNode for TestNode {
    fn ports(&self) -> PortsList {
        ports_of(vec![
            PortInfo::input("iters", ValueKind::Integer).build(),
            PortInfo::input("status", ValueKind::Status)
                .default_value(Value::Status(NodeStatus::Success))
                .build(),
        ])
    }

    fn on_start(&mut self, _ctx: &mut NodeDataGeneric, _bb: &mut Blackboard) -> NodeResult {
        Ok(NodeStatus::Running)
    }

    fn on_running(&mut self, ctx: &mut NodeDataGeneric, bb: &mut Blackboard) -> NodeResult {
        match self {
            TestNode::RunFor { counter } => {
                let limit = input_usize(ctx, bb, "iters")?;
                if *counter < limit {
                    *counter += 1;
                    Ok(NodeStatus::Running)
                } else {
                    input_status(ctx, bb, "status")
                }
            }
            _ => Err(NodeError::UserError("not a stateful node".to_string())),
        }
    }

    fn on_halted(&mut self, _ctx: &mut NodeDataGeneric, _bb: &mut Blackboard) -> Result<(), NodeError> {
        Ok(())
    }
}

fn registry() -> NodeRegistry<TestNode> {
    let mut registry = NodeRegistry::new();
    registry.insert("StatusNode", ActionNode::Sync(TestNode::Status), NodeType::Action);
    registry.insert("EchoNode", ActionNode::Sync(TestNode::Echo), NodeType::Action);
    registry.insert("RunForNode", ActionNode::Stateful(TestNode::RunFor { counter: 0 }), NodeType::Action);
    registry.insert("RunFor", ActionNode::Stateful(TestNode::RunFor { counter: 0 }), NodeType::Action);
    registry.insert(
        "SuccessThenFailure",
        ActionNode::Sync(TestNode::SuccessThenFailure { iter: 0 }),
        NodeType::Action,
    );
    registry.insert("StringAppend", ActionNode::Sync(TestNode::StringAppend), NodeType::Action);
    registry
}

fn build(xml: &str, registry: &NodeRegistry<TestNode>, name: Option<&str>) -> Result<Tree<TestNode>, ParseError> {
    let builder = Tree::builder(xml, registry).blackboard(Blackboard::new());
    match name {
        Some(n) => builder.tree_name(n).build(),
        None => builder.build(),
    }
}

fn run(xml: &str) -> Result<NodeStatus, NodeError> {
    let registry = registry();
    let tree = build(xml, &registry, Some("main"));
    assert!(tree.is_ok());
    let mut tree = tree.unwrap();
    tree.tick_while_running()
}

#[test]
fn if_then_else() {
    let xml = r#"
        <root>
            <BehaviorTree ID="main">
                <IfThenElse>
                    <StatusNode status="Failure" />
                    <EchoNode msg="Success branch" />
                    <EchoNode msg="Failure branch" />
                </IfThenElse>
            </BehaviorTree>
        </root>
    "#;
    let result = run(xml);
    assert!(matches!(result, Ok(NodeStatus::Success)));
}

#[test]
fn parallel_all() {
    let xml = r#"
        <root>
            <BehaviorTree ID="main">
                <ParallelAll max_failures="-2">
                    <StatusNode status="Success" />
                    <StatusNode status="Failure" />
                    <StatusNode status="Failure" />
                    <StatusNode status="Failure" />
                </ParallelAll>
            </BehaviorTree>
        </root>
    "#;
    let result = run(xml);
    assert!(matches!(result, Ok(NodeStatus::Failure)));
}

#[test]
fn parallel() {
    let xml = r#"
        <root>
            <BehaviorTree ID="main">
                <Parallel failure_count="2" success_count="-1">
                    <StatusNode status="Success" />
                    <StatusNode status="Failure" />
                    <StatusNode status="Failure" />
                    <StatusNode status="Failure" />
                    <StatusNode status="Success" />
                    <StatusNode status="Success" />
                </Parallel>
            </BehaviorTree>
        </root>
    "#;
    let result = run(xml);
    assert!(matches!(result, Ok(NodeStatus::Failure)));
}

#[test]
fn reactive_fallback() {
    let xml = r#"
        <root>
            <BehaviorTree ID="main">
                <ReactiveFallback>
                    <StatusNode status="Failure" />
                    <EchoNode msg="I am echoing!" />
                    <EchoNode msg="I should not echo!" />
                </ReactiveFallback>
            </BehaviorTree>
        </root>
    "#;
    let result = run(xml);
    assert!(matches!(result, Ok(NodeStatus::Success)));
}

#[test]
fn reactive_sequence() {
    let xml = r#"
        <root>
            <BehaviorTree ID="main">
                <ReactiveSequence>
                    <StatusNode status="Success" />
                    <EchoNode msg="I should echo every time!" />
                    <RunForNode iters="3" />
                    <EchoNode msg="I should only echo after 3 iters!" />
                </ReactiveSequence>
            </BehaviorTree>
        </root>
    "#;
    let result = run(xml);
    assert!(matches!(result, Ok(NodeStatus::Success)));
}

#[test]
fn sequence_star() {
    let xml = r#"
        <root>
            <BehaviorTree ID="main">
                <SequenceStar>
                    <StatusNode status="Success" />
                    <EchoNode msg="I should echo only once!" />
                    <RunForNode iters="3" />
                    <EchoNode msg="I should be the last echo!" />
                </SequenceStar>
            </BehaviorTree>
        </root>
    "#;
    let result = run(xml);
    assert!(matches!(result, Ok(NodeStatus::Success)));
}

#[test]
fn sequence_vanilla() {
    let xml = r#"
        <root>
            <BehaviorTree ID="main">
                <Sequence>
                    <StatusNode status="Success" />
                    <EchoNode msg="I should echo only once!" />
                    <RunForNode iters="3" />
                    <EchoNode msg="I should be the last echo!" />
                </Sequence>
            </BehaviorTree>
        </root>
    "#;
    let result = run(xml);
    assert!(matches!(result, Ok(NodeStatus::Success)));
}

#[test]
fn while_do_else() {
    let xml = r#"
        <root>
            <BehaviorTree ID="main">
                <WhileDoElse>
                    <StatusNode status="Failure" />
                    <RunForNode iters="3" />
                    <EchoNode msg="I should echo when StatusNode == Failure!" />
                </WhileDoElse>
            </BehaviorTree>
        </root>
    "#;
    let result = run(xml);
    assert!(matches!(result, Ok(NodeStatus::Success)));
}

#[test]
fn force_failure() {
    let xml = r#"
        <root>
            <BehaviorTree ID="main">
                <ForceFailure>
                    <StatusNode status="Success" />
                </ForceFailure>
            </BehaviorTree>
        </root>
    "#;
    let result = run(xml);
    assert!(matches!(result, Ok(NodeStatus::Failure)));
}

#[test]
fn force_success() {
    let xml = r#"
        <root>
            <BehaviorTree ID="main">
                <ForceSuccess>
                    <StatusNode status="Failure" />
                </ForceSuccess>
            </BehaviorTree>
        </root>
    "#;
    let result = run(xml);
    assert!(matches!(result, Ok(NodeStatus::Success)));
}

#[test]
fn inverter() {
    let xml = r#"
        <root>
            <BehaviorTree ID="main">
                <Inverter>
                    <StatusNode status="Success" />
                </Inverter>
            </BehaviorTree>
        </root>
    "#;
    let result = run(xml);
    assert!(matches!(result, Ok(NodeStatus::Failure)));
}

#[test]
fn keep_running_until_failure() {
    let xml = r#"
        <root>
            <BehaviorTree ID="main">
                <KeepRunningUntilFailure>
                    <Sequence>
                        <RunFor iters="2" status="Success" />
                        <RunFor iters="2" status="Failure" />
                    </Sequence>
                </KeepRunningUntilFailure>
            </BehaviorTree>
        </root>
    "#;
    let result = run(xml);
    assert!(matches!(result, Ok(NodeStatus::Failure)));
}

#[test]
fn repeat() {
    let xml = r#"
        <root>
            <BehaviorTree ID="main">
                <Repeat num_cycles="5">
                    <SuccessThenFailure iters="3" />
                </Repeat>
            </BehaviorTree>
        </root>
    "#;
    let result = run(xml);
    assert!(matches!(result, Ok(NodeStatus::Failure)));
}

#[test]
fn retry() {
    let xml = r#"
        <root>
            <BehaviorTree ID="main">
                <Retry num_attempts="5">
                    <Inverter>
                        <SuccessThenFailure iters="3" />
                    </Inverter>
                </Retry>
            </BehaviorTree>
        </root>
    "#;
    let result = run(xml);
    assert!(matches!(result, Ok(NodeStatus::Success)));
}

#[test]
fn run_once() {
    let xml = r#"
        <root>
            <BehaviorTree ID="main">
                <RunOnce then_skip="true">
                    <SuccessThenFailure iters="3" />
                </RunOnce>
            </BehaviorTree>
        </root>
    "#;
    let result = run(xml);
    assert!(matches!(result, Ok(NodeStatus::Success)));
}

#[test]
fn fallback() {
    let xml = r#"
        <root>
            <BehaviorTree ID="main">
                <Fallback>
                    <StatusNode status="Failure" />
                    <StringAppend key="str" char="a" />
                    <StatusNode status="Failure" />
                    <StringAppend key="str" char="b" />

                    <StatusNode status="Success" />
                    <StringAppend key="str" char="c" />
                    <StatusNode status="Failure" />
                    <StringAppend key="str" char="d" />
                    <StatusNode status="Success" />
                    <StringAppend key="str" char="e" />
                </Fallback>
            </BehaviorTree>
        </root>
    "#;
    let registry = registry();
    let mut tree = build(xml, &registry, Some("main")).unwrap();
    let status = tree.tick_while_running();
    assert!(matches!(status, Ok(NodeStatus::Success)));
    let scope = tree.root_scope();
    let value = tree.root_blackboard_mut().get(scope, "str", ValueKind::String);
    assert!(matches!(value, Some(Value::String(s)) if s == "a"));
}

#[test]
fn parsing_registering() {
    let xml = r#"
        <root main_tree_to_execute="main">
            <BehaviorTree ID="main">
                <SubTree ID="secondary" />
            </BehaviorTree>

            <BehaviorTree ID="secondary">
                <DataNode />
            </BehaviorTree>
        </root>
    "#;
    let mut data_registry = NodeRegistry::new();
    data_registry.insert("DataNode", ActionNode::Sync(TestNode::Data), NodeType::Action);
    data_registry.insert("DataNode2", ActionNode::Sync(TestNode::Data), NodeType::Action);
    data_registry.insert("DataNode3", ActionNode::Sync(TestNode::Data), NodeType::Action);
    assert!(build(xml, &data_registry, None).is_ok());

    let xml = r#"
        <root>
            <BehaviorTree ID="main">
                <SubTree ID="secondary" />
            </BehaviorTree>

            <BehaviorTree ID="secondary">
                <StatusNode status="Success" />
            </BehaviorTree>
        </root>
    "#;
    let registry = registry();
    assert!(build(xml, &registry, None).is_err());

    let xml = r#"
        <root>
            <BehaviorTree ID="main">
                <StatusNode status="Success" />
            </BehaviorTree>
        </root>
    "#;
    assert!(build(xml, &registry, None).is_ok());
}

#[test]
fn parsing_main_tree_attr() {
    let registry = registry();
    let xml = r#"
        <root main_tree_to_execute="main">
            <BehaviorTree ID="main">
                <SubTree ID="secondary" />
            </BehaviorTree>

            <BehaviorTree ID="secondary">
                <StatusNode status="Success" />
            </BehaviorTree>
        </root>
    "#;
    assert!(build(xml, &registry, None).is_ok());

    let xml = r#"
        <root>
            <BehaviorTree ID="main">
                <SubTree ID="secondary" />
            </BehaviorTree>

            <BehaviorTree ID="secondary">
                <StatusNode status="Success" />
            </BehaviorTree>
        </root>
    "#;
    assert!(matches!(build(xml, &registry, None), Err(ParseError::NoMainTree)));

    let xml = r#"
        <root>
            <BehaviorTree ID="main">
                <StatusNode status="Success" />
            </BehaviorTree>
        </root>
    "#;
    assert!(build(xml, &registry, None).is_ok());
}

#[test]
fn parsing_subtrees() {
    let xml = r#"
        <root main_tree_to_execute="main">
            <BehaviorTree ID="main">
                <SubTree ID="one" />
            </BehaviorTree>

            <BehaviorTree ID="one">
                <SubTree ID="two" />
            </BehaviorTree>

            <BehaviorTree ID="two">
                <StatusNode status="Failure" />
            </BehaviorTree>
        </root>
    "#;
    let registry = registry();
    let tree = build(xml, &registry, None);
    assert!(tree.is_ok());
    let mut tree = tree.unwrap();
    let status = tree.tick_while_running();
    assert!(status.is_ok());
    assert!(matches!(status.unwrap(), NodeStatus::Failure));
}

#[test]
fn parsing_node_not_registered() {
    let xml = r#"
        <root main_tree_to_execute="main">
            <BehaviorTree ID="main">
                <StatusNode status="Failure" />
            </BehaviorTree>
        </root>
    "#;
    let registry: NodeRegistry<TestNode> = NodeRegistry::new();
    let tree = build(xml, &registry, None);
    assert!(tree.is_err());
    assert!(matches!(tree, Err(ParseError::UnknownNode(n)) if n == "StatusNode"));
}

#[test]
fn parsing_ignore_treenodesmodel() {
    let xml = r#"
        <root main_tree_to_execute="main">
            <BehaviorTree ID="main">
                <StatusNode status="Failure" />
            </BehaviorTree>

            <TreeNodesModel>
                <Action></Action>
            </TreeNodesModel>
        </root>
    "#;
    let registry = registry();
    assert!(build(xml, &registry, None).is_ok());
}

#[test]
fn factory_registering() {
    let xml = r#"
        <root main_tree_to_execute="main">
            <BehaviorTree ID="main">
                <SubTree ID="secondary" />
            </BehaviorTree>

            <BehaviorTree ID="secondary">
                <DataNode />
            </BehaviorTree>
        </root>
    "#;
    let mut data_registry = NodeRegistry::new();
    data_registry.insert("DataNode", ActionNode::Sync(TestNode::Data), NodeType::Action);
    data_registry.insert("DataNode2", ActionNode::Sync(TestNode::Data), NodeType::Action);
    data_registry.insert("DataNode3", ActionNode::Sync(TestNode::Data), NodeType::Action);
    assert!(build(xml, &data_registry, None).is_ok());

    let xml = r#"
        <root>
            <BehaviorTree ID="main">
                <SubTree ID="secondary" />
            </BehaviorTree>

            <BehaviorTree ID="secondary">
                <StatusNode status="Success" />
            </BehaviorTree>
        </root>
    "#;
    let registry = registry();
    assert!(build(xml, &registry, None).is_err());

    let xml = r#"
        <root>
            <BehaviorTree ID="main">
                <StatusNode status="Success" />
            </BehaviorTree>
        </root>
    "#;
    assert!(build(xml, &registry, None).is_ok());
}

#[test]
fn factory_main_tree_attr() {
    let registry = registry();
    let xml = r#"
        <root main_tree_to_execute="main">
            <BehaviorTree ID="main">
                <SubTree ID="secondary" />
            </BehaviorTree>

            <BehaviorTree ID="secondary">
                <StatusNode status="Success" />
            </BehaviorTree>
        </root>
    "#;
    assert!(build(xml, &registry, None).is_ok());

    let xml = r#"
        <root>
            <BehaviorTree ID="main">
                <SubTree ID="secondary" />
            </BehaviorTree>

            <BehaviorTree ID="secondary">
                <StatusNode status="Success" />
            </BehaviorTree>
        </root>
    "#;
    assert!(matches!(build(xml, &registry, None), Err(ParseError::NoMainTree)));

    let xml = r#"
        <root>
            <BehaviorTree ID="main">
                <StatusNode status="Success" />
            </BehaviorTree>
        </root>
    "#;
    assert!(build(xml, &registry, None).is_ok());
}

#[test]
fn factory_subtrees() {
    let xml = r#"
        <root main_tree_to_execute="main">
            <BehaviorTree ID="main">
                <SubTree ID="one" />
            </BehaviorTree>

            <BehaviorTree ID="one">
                <SubTree ID="two" />
            </BehaviorTree>

            <BehaviorTree ID="two">
                <StatusNode status="Failure" />
            </BehaviorTree>
        </root>
    "#;
    let registry = registry();
    let tree = build(xml, &registry, None);
    assert!(tree.is_ok());
    let mut tree = tree.unwrap();
    let status = tree.tick_while_running();
    assert!(status.is_ok());
    assert!(matches!(status.unwrap(), NodeStatus::Failure));
}

#[test]
fn factory_node_not_registered() {
    let xml = r#"
        <root main_tree_to_execute="main">
            <BehaviorTree ID="main">
                <StatusNode status="Failure" />
            </BehaviorTree>
        </root>
    "#;
    let registry: NodeRegistry<TestNode> = NodeRegistry::new();
    let tree = build(xml, &registry, None);
    assert!(tree.is_err());
    assert!(matches!(tree, Err(ParseError::UnknownNode(n)) if n == "StatusNode"));
}

#[test]
fn factory_ignore_treenodesmodel() {
    let xml = r#"
        <root main_tree_to_execute="main">
            <BehaviorTree ID="main">
                <StatusNode status="Failure" />
            </BehaviorTree>

            <TreeNodesModel>
                <Action></Action>
            </TreeNodesModel>
        </root>
    "#;
    let registry = registry();
    assert!(build(xml, &registry, None).is_ok());
}

#[test]
fn parsing_load_adjacent_controls() {
    let xml = r#"
        <root main_tree_to_execute="main">
            <BehaviorTree ID="main">
                <Sequence>
                    <Fallback>
                        <Fallback>
                            <StatusNode status="Failure" />
                        </Fallback>
                    </Fallback>
                    <Fallback>
                        <EchoNode msg="hello"/>
                    </Fallback>
                </Sequence>
            </BehaviorTree>
        </root>
    "#;
    let registry = registry();
    assert!(build(xml, &registry, None).is_ok());
}

#[test]
fn parsing_async_test() {
    let xml = r#"
        <root main_tree_to_execute="main">
            <BehaviorTree ID="main">
                <Sequence>
                    <Fallback>
                        <Fallback>
                            <StatusNode status="Failure" />
                        </Fallback>
                    </Fallback>
                    <Fallback>
                        <EchoNode msg="hello"/>
                    </Fallback>
                </Sequence>
            </BehaviorTree>
        </root>
    "#;
    let registry = registry();
    let tree = build(xml, &registry, None);
    assert!(tree.is_ok());
    let mut tree = tree.unwrap();
    let res = tree.tick_once();
    assert!(res.is_ok());
}

#[test]
fn factory_load_adjacent_controls() {
    let xml = r#"
        <root main_tree_to_execute="main">
            <BehaviorTree ID="main">
                <Sequence>
                    <Fallback>
                        <Fallback>
                            <StatusNode status="Failure" />
                        </Fallback>
                    </Fallback>
                    <Fallback>
                        <EchoNode msg="hello"/>
                    </Fallback>
                </Sequence>
            </BehaviorTree>
        </root>
    "#;
    let registry = registry();
    assert!(build(xml, &registry, None).is_ok());
}

#[test]
fn factory_async_test() {
    let xml = r#"
        <root main_tree_to_execute="main">
            <BehaviorTree ID="main">
                <Sequence>
                    <Fallback>
                        <Fallback>
                            <StatusNode status="Failure" />
                        </Fallback>
                    </Fallback>
                    <Fallback>
                        <EchoNode msg="hello"/>
                    </Fallback>
                </Sequence>
            </BehaviorTree>
        </root>
    "#;
    let registry = registry();
    let tree = build(xml, &registry, None);
    assert!(tree.is_ok());
    let mut tree = tree.unwrap();
    let res = tree.tick_once();
    assert!(res.is_ok());
}

#[test]
fn visitor() {
    let xml = r#"
        <root main_tree_to_execute="main">
            <BehaviorTree ID="subtree">
                <StatusNode status="Success" />
            </BehaviorTree>

            <BehaviorTree ID="main">
                <Sequence>
                    <Sequence>
                        <Inverter>
                            <StatusNode status="Success" />
                        </Inverter>
                        <StatusNode status = "Failure" />
                        <SubTree ID="subtree" />
                    </Sequence>
                </Sequence>
            </BehaviorTree>
        </root>
    "#;
    let registry = registry();
    let tree = build(xml, &registry, None);
    assert!(tree.is_ok());
    let tree = tree.unwrap();
    let nodes: Vec<&str> = tree.visit_nodes().iter().map(|node| node.name()).collect();
    assert_eq!(
        nodes,
        vec![
            "Sequence",
            "Sequence",
            "Inverter",
            "StatusNode",
            "StatusNode",
            "subtree",
            "StatusNode",
        ]
    );
}

#[test]
fn provided_ports_of_built_in_nodes() {
    let xml = r#"
        <root main_tree_to_execute="main">
            <BehaviorTree ID="main">
                <Parallel success_count="1">
                    <Repeat num_cycles="2">
                        <StatusNode status="Success" />
                    </Repeat>
                </Parallel>
            </BehaviorTree>
        </root>
    "#;
    let registry = registry();
    let tree = build(xml, &registry, None).unwrap();
    let nodes = tree.visit_nodes();
    let parallel = nodes[0].provided_ports();
    assert_eq!(parallel.len(), 2);
    assert!(parallel.contains_key("success_count"));
    assert!(parallel.contains_key("failure_count"));
    let repeat = nodes[1].provided_ports();
    assert_eq!(repeat.len(), 1);
    assert!(repeat.contains_key("num_cycles"));
    assert!(nodes[2].provided_ports().contains_key("status"));
}

fn condition_scenario() {
    let xml = r#"
        <root main_tree_to_execute="main">
            <BehaviorTree ID="main">
                <Fallback>
                    <Condition expr="{count:int} < 5" />
                    <StatusNode status="Failure" />
                </Fallback>
            </BehaviorTree>
        </root>
    "#;
    let registry = registry();
    let tree = build(xml, &registry, None);
    assert!(tree.is_ok());
    let mut tree = tree.unwrap();
    let scope = tree.root_scope();

    tree.root_blackboard_mut().set(scope, "count", Value::Integer(6));
    let res = tree.tick_once();
    assert!(res.is_ok());
    assert_eq!(res.unwrap(), NodeStatus::Failure);

    tree.root_blackboard_mut().set(scope, "count", Value::Integer(2));
    let res = tree.tick_once();
    assert!(res.is_ok());
    assert_eq!(res.unwrap(), NodeStatus::Success);
}

#[test]
fn parsing_condition() {
    condition_scenario();
}

#[test]
fn factory_condition() {
    condition_scenario();
}

#[test]
fn port_expression_without_type_is_refused() {
    let xml = r#"
        <root>
            <BehaviorTree ID="main">
                <Condition expr="{count} < 5" />
            </BehaviorTree>
        </root>
    "#;
    let registry = registry();
    assert!(matches!(build(xml, &registry, None), Err(ParseError::PortExpressionMissingType(v)) if v == "count"));
}

#[test]
fn port_expression_with_unknown_type_is_refused() {
    let xml = r#"
        <root>
            <BehaviorTree ID="main">
                <Condition expr="{count:list} < 5" />
            </BehaviorTree>
        </root>
    "#;
    let registry = registry();
    assert!(matches!(
        build(xml, &registry, None),
        Err(ParseError::PortExpressionInvalidType { ident, value_type }) if ident == "count" && value_type == "list"
    ));
}

#[test]
fn port_expression_that_does_not_compile_is_refused() {
    let xml = r#"
        <root>
            <BehaviorTree ID="main">
                <Condition expr="(1 + " />
            </BehaviorTree>
        </root>
    "#;
    let registry = registry();
    assert!(matches!(build(xml, &registry, None), Err(ParseError::InvalidPortExpression(m)) if !m.is_empty()));
}

fn build_err(xml: &str) -> ParseError {
    let registry = registry();
    match build(xml, &registry, None) {
        Ok(_) => panic!("the tree should not build"),
        Err(e) => e,
    }
}

#[test]
fn missing_root_is_refused() {
    let e = build_err(r#"<BehaviorTree ID="main"><StatusNode status="Success" /></BehaviorTree>"#);
    assert!(matches!(e, ParseError::InternalError(_) | ParseError::MissingRoot));
    let e = build_err(r#"<!-- comment --><root><BehaviorTree ID="main"><StatusNode status="Success"/></BehaviorTree></root>"#);
    assert!(matches!(e, ParseError::MissingRoot));
    let e = build_err("");
    assert!(matches!(e, ParseError::MissingRoot));
}

#[test]
fn empty_root_has_no_main_tree() {
    let e = build_err("<root></root>");
    assert!(matches!(e, ParseError::NoMainTree));
}

#[test]
fn unexpected_element_in_root_is_refused() {
    let e = build_err(r#"<root><Sequence><StatusNode status="Success"/></Sequence></root>"#);
    assert!(matches!(e, ParseError::ExpectedRoot(n) if n == "Sequence"));
}

#[test]
fn tree_without_id_is_refused() {
    let e = build_err(r#"<root><BehaviorTree><StatusNode status="Success"/></BehaviorTree></root>"#);
    assert!(matches!(e, ParseError::MissingAttribute(_)));
}

#[test]
fn tree_with_two_children_is_refused() {
    let e = build_err(r#"<root><BehaviorTree ID="main"><StatusNode status="Success"/><StatusNode status="Success"/></BehaviorTree></root>"#);
    assert!(matches!(e, ParseError::ViolateNodeConstraint(_)));
}

#[test]
fn unknown_tree_name_is_refused() {
    let registry = registry();
    let xml = r#"<root><BehaviorTree ID="main"><StatusNode status="Success"/></BehaviorTree></root>"#;
    assert!(matches!(build(xml, &registry, Some("other")), Err(ParseError::UnknownTree(t)) if t == "other"));
}

#[test]
fn control_without_children_is_refused() {
    let e = build_err(r#"<root><BehaviorTree ID="main"><Sequence></Sequence></BehaviorTree></root>"#);
    assert!(matches!(e, ParseError::ViolateNodeConstraint(_)));
    let e = build_err(r#"<root><BehaviorTree ID="main"><Sequence/></BehaviorTree></root>"#);
    assert!(matches!(e, ParseError::NodeTypeMismatch(t) if t == "Action"));
}

#[test]
fn decorator_with_two_children_is_refused() {
    let e = build_err(r#"<root><BehaviorTree ID="main"><Inverter><StatusNode status="Success"/><StatusNode status="Success"/></Inverter></BehaviorTree></root>"#);
    assert!(matches!(e, ParseError::ViolateNodeConstraint(_)));
}

#[test]
fn leaf_with_children_is_refused() {
    let e = build_err(r#"<root><BehaviorTree ID="main"><StatusNode status="Success"><StatusNode status="Success"/></StatusNode></BehaviorTree></root>"#);
    assert!(matches!(e, ParseError::NodeTypeMismatch(t) if t == "Action"));
}

#[test]
fn unknown_port_is_refused() {
    let e = build_err(r#"<root><BehaviorTree ID="main"><StatusNode state="Success"/></BehaviorTree></root>"#);
    assert!(matches!(e, ParseError::InvalidPort(p, n, ports) if p == "state" && n == "StatusNode" && ports == vec!["status".to_string()]));
}

#[test]
fn missing_required_port_is_refused() {
    let e = build_err(r#"<root><BehaviorTree ID="main"><StatusNode/></BehaviorTree></root>"#);
    assert!(matches!(e, ParseError::MissingRequiredPort { node, port } if node == "StatusNode" && port == "status"));
}

#[test]
fn malformed_xml_is_refused() {
    let e = build_err(r#"<root><BehaviorTree ID="main"><Sequence><StatusNode status="Success"/></Fallback></BehaviorTree></root>"#);
    assert!(matches!(e, ParseError::XMLError(_)));
}

#[test]
fn bad_autoremap_value_is_refused() {
    let e = build_err(r#"<root main_tree_to_execute="main">
        <BehaviorTree ID="main"><SubTree ID="sub" _autoremap="yes"/></BehaviorTree>
        <BehaviorTree ID="sub"><StatusNode status="Success"/></BehaviorTree>
    </root>"#);
    assert!(matches!(e, ParseError::ParseStringError(_)));
}

#[test]
fn subtree_without_id_is_refused() {
    let e = build_err(r#"<root main_tree_to_execute="main">
        <BehaviorTree ID="main"><SubTree/></BehaviorTree>
        <BehaviorTree ID="sub"><StatusNode status="Success"/></BehaviorTree>
    </root>"#);
    assert!(matches!(e, ParseError::MissingAttribute(a) if a == "ID"));
}

#[test]
fn subtree_that_includes_itself_is_refused() {
    let e = build_err(r#"<root main_tree_to_execute="main">
        <BehaviorTree ID="main"><SubTree ID="main"/></BehaviorTree>
    </root>"#);
    assert!(matches!(e, ParseError::ViolateNodeConstraint(_)));
}

#[test]
fn named_tree_is_chosen_over_main_tree() {
    let registry = registry();
    let xml = r#"<root main_tree_to_execute="one">
        <BehaviorTree ID="one"><StatusNode status="Success"/></BehaviorTree>
        <BehaviorTree ID="two"><StatusNode status="Failure"/></BehaviorTree>
    </root>"#;
    let mut tree = build(xml, &registry, Some("two")).unwrap();
    assert!(matches!(tree.tick_while_running(), Ok(NodeStatus::Failure)));
    let mut tree = build(xml, &registry, None).unwrap();
    assert!(matches!(tree.tick_while_running(), Ok(NodeStatus::Success)));
}

#[test]
fn subtree_remapping_reads_and_writes_the_parent_entry() {
    let xml = r#"<root main_tree_to_execute="main">
        <BehaviorTree ID="main">
            <Sequence>
                <SubTree ID="sub" text="{shared}" />
                <SubTree ID="sub" text="{shared}" />
            </Sequence>
        </BehaviorTree>
        <BehaviorTree ID="sub">
            <StringAppend key="text" char="x" />
        </BehaviorTree>
    </root>"#;
    let registry = registry();
    let mut tree = build(xml, &registry, None).unwrap();
    assert!(matches!(tree.tick_while_running(), Ok(NodeStatus::Success)));
    let scope = tree.root_scope();
    let value = tree.root_blackboard_mut().get(scope, "shared", ValueKind::String);
    assert!(matches!(value, Some(Value::String(s)) if s == "xx"));
}

#[test]
fn subtree_values_are_local_without_remapping() {
    let xml = r#"<root main_tree_to_execute="main">
        <BehaviorTree ID="main">
            <SubTree ID="sub" text="start" />
        </BehaviorTree>
        <BehaviorTree ID="sub">
            <StringAppend key="text" char="x" />
        </BehaviorTree>
    </root>"#;
    let registry = registry();
    let mut tree = build(xml, &registry, None).unwrap();
    assert!(matches!(tree.tick_while_running(), Ok(NodeStatus::Success)));
    let scope = tree.root_scope();
    assert!(tree.root_blackboard_mut().get(scope, "text", ValueKind::String).is_none());
}

#[test]
fn autoremapped_subtree_writes_the_parent() {
    let xml = r#"<root main_tree_to_execute="main">
        <BehaviorTree ID="main">
            <SubTree ID="sub" _autoremap="true" />
        </BehaviorTree>
        <BehaviorTree ID="sub">
            <StringAppend key="log" char="y" />
        </BehaviorTree>
    </root>"#;
    let registry = registry();
    let mut tree = build(xml, &registry, None).unwrap();
    assert!(matches!(tree.tick_while_running(), Ok(NodeStatus::Success)));
    let scope = tree.root_scope();
    let value = tree.root_blackboard_mut().get(scope, "log", ValueKind::String);
    assert!(matches!(value, Some(Value::String(s)) if s == "y"));
}

#[test]
fn if_then_else_without_else_fails() {
    let r = run(r#"<root><BehaviorTree ID="main"><IfThenElse>
        <StatusNode status="Failure"/><StatusNode status="Success"/>
    </IfThenElse></BehaviorTree></root>"#);
    assert!(matches!(r, Ok(NodeStatus::Failure)));
}

#[test]
fn if_then_else_with_four_children_is_an_error() {
    let r = run(r#"<root><BehaviorTree ID="main"><IfThenElse>
        <StatusNode status="Success"/><StatusNode status="Success"/>
        <StatusNode status="Success"/><StatusNode status="Success"/>
    </IfThenElse></BehaviorTree></root>"#);
    assert!(matches!(r, Err(NodeError::NodeStructureError(_))));
}

#[test]
fn while_do_else_runs_the_do_branch() {
    let r = run(r#"<root><BehaviorTree ID="main"><WhileDoElse>
        <StatusNode status="Success"/><StatusNode status="Failure"/><StatusNode status="Success"/>
    </WhileDoElse></BehaviorTree></root>"#);
    assert!(matches!(r, Ok(NodeStatus::Failure)));
}

#[test]
fn sequence_fails_at_first_failure() {
    let r = run(r#"<root><BehaviorTree ID="main"><Sequence>
        <StatusNode status="Success"/><StatusNode status="Failure"/><StatusNode status="Success"/>
    </Sequence></BehaviorTree></root>"#);
    assert!(matches!(r, Ok(NodeStatus::Failure)));
}

#[test]
fn sequence_of_skipped_children_is_skipped() {
    let r = run(r#"<root><BehaviorTree ID="main"><Sequence>
        <StatusNode status="Skipped"/><StatusNode status="Skipped"/>
    </Sequence></BehaviorTree></root>"#);
    assert!(matches!(r, Ok(NodeStatus::Skipped)));
}

#[test]
fn fallback_of_failures_fails() {
    let r = run(r#"<root><BehaviorTree ID="main"><Fallback>
        <StatusNode status="Failure"/><StatusNode status="Skipped"/><StatusNode status="Failure"/>
    </Fallback></BehaviorTree></root>"#);
    assert!(matches!(r, Ok(NodeStatus::Failure)));
}

#[test]
fn reactive_sequence_fails_at_failure() {
    let r = run(r#"<root><BehaviorTree ID="main"><ReactiveSequence>
        <StatusNode status="Success"/><StatusNode status="Failure"/>
    </ReactiveSequence></BehaviorTree></root>"#);
    assert!(matches!(r, Ok(NodeStatus::Failure)));
}

#[test]
fn reactive_fallback_of_failures_fails() {
    let r = run(r#"<root><BehaviorTree ID="main"><ReactiveFallback>
        <StatusNode status="Failure"/><StatusNode status="Failure"/>
    </ReactiveFallback></BehaviorTree></root>"#);
    assert!(matches!(r, Ok(NodeStatus::Failure)));
}

#[test]
fn parallel_succeeds_at_threshold() {
    let r = run(r#"<root><BehaviorTree ID="main"><Parallel success_count="2" failure_count="3">
        <StatusNode status="Success"/><StatusNode status="Failure"/><StatusNode status="Success"/>
    </Parallel></BehaviorTree></root>"#);
    assert!(matches!(r, Ok(NodeStatus::Success)));
}

#[test]
fn parallel_threshold_above_children_is_an_error() {
    let r = run(r#"<root><BehaviorTree ID="main"><Parallel success_count="3">
        <StatusNode status="Success"/><StatusNode status="Success"/>
    </Parallel></BehaviorTree></root>"#);
    assert!(matches!(r, Err(NodeError::NodeStructureError(_))));
}

#[test]
fn parallel_all_succeeds_below_failure_threshold() {
    let r = run(r#"<root><BehaviorTree ID="main"><ParallelAll max_failures="2">
        <StatusNode status="Success"/><StatusNode status="Failure"/><StatusNode status="Success"/>
    </ParallelAll></BehaviorTree></root>"#);
    assert!(matches!(r, Ok(NodeStatus::Success)));
}

#[test]
fn parallel_all_of_skipped_children_is_skipped() {
    let r = run(r#"<root><BehaviorTree ID="main"><ParallelAll>
        <StatusNode status="Skipped"/><StatusNode status="Skipped"/>
    </ParallelAll></BehaviorTree></root>"#);
    assert!(matches!(r, Ok(NodeStatus::Skipped)));
}

#[test]
fn repeat_zero_cycles_succeeds_without_ticking() {
    let r = run(r#"<root><BehaviorTree ID="main"><Repeat num_cycles="0">
        <StatusNode status="Failure"/>
    </Repeat></BehaviorTree></root>"#);
    assert!(matches!(r, Ok(NodeStatus::Success)));
}

#[test]
fn repeat_succeeds_after_all_cycles() {
    let r = run(r#"<root><BehaviorTree ID="main"><Repeat num_cycles="3">
        <SuccessThenFailure iters="3" />
    </Repeat></BehaviorTree></root>"#);
    assert!(matches!(r, Ok(NodeStatus::Success)));
}

#[test]
fn retry_gives_up_after_attempts() {
    let r = run(r#"<root><BehaviorTree ID="main"><Retry num_attempts="3">
        <StatusNode status="Failure"/>
    </Retry></BehaviorTree></root>"#);
    assert!(matches!(r, Ok(NodeStatus::Failure)));
}

#[test]
fn repeat_port_out_of_range_is_an_error() {
    let r = run(r#"<root><BehaviorTree ID="main"><Repeat num_cycles="99999999999">
        <StatusNode status="Success"/>
    </Repeat></BehaviorTree></root>"#);
    assert!(matches!(r, Err(NodeError::PortValueParseError(p, _)) if p == "num_cycles"));
}

#[test]
fn run_once_then_skips() {
    let registry = registry();
    let xml = r#"<root><BehaviorTree ID="main"><RunOnce>
        <SuccessThenFailure iters="1" />
    </RunOnce></BehaviorTree></root>"#;
    let mut tree = build(xml, &registry, None).unwrap();
    assert!(matches!(tree.tick_once(), Ok(NodeStatus::Success)));
    assert!(matches!(tree.tick_once(), Ok(NodeStatus::Skipped)));
    assert!(matches!(tree.tick_once(), Ok(NodeStatus::Skipped)));
}

#[test]
fn run_once_without_skip_repeats_the_result() {
    let registry = registry();
    let xml = r#"<root><BehaviorTree ID="main"><RunOnce then_skip="false">
        <SuccessThenFailure iters="1" />
    </RunOnce></BehaviorTree></root>"#;
    let mut tree = build(xml, &registry, None).unwrap();
    assert!(matches!(tree.tick_once(), Ok(NodeStatus::Success)));
    assert!(matches!(tree.tick_once(), Ok(NodeStatus::Success)));
}

#[test]
fn inverter_passes_running_and_tree_halts() {
    let registry = registry();
    let xml = r#"<root><BehaviorTree ID="main"><Inverter>
        <RunForNode iters="5" />
    </Inverter></BehaviorTree></root>"#;
    let mut tree = build(xml, &registry, None).unwrap();
    assert!(matches!(tree.tick_once(), Ok(NodeStatus::Running)));
    assert!(tree.halt_tree().is_ok());
    let nodes = tree.visit_nodes();
    assert_eq!(nodes.len(), 2);
    assert_eq!(nodes[0].status(), NodeStatus::Idle);
    assert_eq!(nodes[1].status(), NodeStatus::Idle);
}

#[test]
fn force_failure_turns_success_into_failure_each_tick() {
    let registry = registry();
    let xml = r#"<root><BehaviorTree ID="main"><ForceFailure>
        <StatusNode status="Success" />
    </ForceFailure></BehaviorTree></root>"#;
    let mut tree = build(xml, &registry, None).unwrap();
    assert!(matches!(tree.tick_exactly_once(), Ok(NodeStatus::Failure)));
    assert!(matches!(tree.tick_exactly_once(), Ok(NodeStatus::Failure)));
}

#[test]
fn sync_action_may_not_return_running() {
    let r = run(r#"<root><BehaviorTree ID="main"><StatusNode status="Running"/></BehaviorTree></root>"#);
    assert!(matches!(r, Err(NodeError::StatusError(_, s)) if s == "RUNNING"));
}

#[test]
fn node_paths_follow_the_tree() {
    let registry = registry();
    let xml = r#"<root><BehaviorTree ID="main"><Sequence><Inverter><StatusNode status="Success"/></Inverter></Sequence></BehaviorTree></root>"#;
    let tree = build(xml, &registry, None).unwrap();
    let nodes = tree.visit_nodes();
    let paths: Vec<&str> = nodes.iter().map(|n| n.data.path()).collect();
    assert_eq!(paths, vec!["Sequence", "Sequence/Inverter", "Sequence/Inverter/StatusNode"]);
}

#[test]
fn reactive_fallback_moves_past_a_running_child() {
    let registry = registry();
    let xml = r#"<root><BehaviorTree ID="main"><ReactiveFallback>
        <RunForNode iters="3" />
        <StatusNode status="Success" />
    </ReactiveFallback></BehaviorTree></root>"#;
    let mut tree = build(xml, &registry, None).unwrap();
    assert!(matches!(tree.tick_exactly_once(), Ok(NodeStatus::Success)));
}

#[test]
fn reactive_fallback_runs_while_a_child_runs_and_none_succeeds() {
    let registry = registry();
    let xml = r#"<root><BehaviorTree ID="main"><ReactiveFallback>
        <RunForNode iters="3" />
        <StatusNode status="Failure" />
    </ReactiveFallback></BehaviorTree></root>"#;
    let mut tree = build(xml, &registry, None).unwrap();
    assert!(matches!(tree.tick_exactly_once(), Ok(NodeStatus::Running)));
}

#[test]
fn force_failure_runs_while_its_child_runs() {
    let registry = registry();
    let xml = r#"<root><BehaviorTree ID="main"><ForceFailure>
        <RunForNode iters="0" />
    </ForceFailure></BehaviorTree></root>"#;
    let mut tree = build(xml, &registry, None).unwrap();
    assert!(matches!(tree.tick_exactly_once(), Ok(NodeStatus::Running)));
    assert!(matches!(tree.tick_exactly_once(), Ok(NodeStatus::Failure)));
}

#[test]
fn condition_refuses_a_shift() {
    let registry = registry();
    let xml = r#"<root><BehaviorTree ID="main">
        <Condition expr="shl(1, 64) == 0" />
    </BehaviorTree></root>"#;
    let mut tree = build(xml, &registry, None).unwrap();
    assert!(matches!(tree.tick_exactly_once(), Err(NodeError::ConditionExpressionError(_))));
}

#[test]
fn condition_evaluates_without_variables() {
    let registry = registry();
    let xml = r#"<root><BehaviorTree ID="main">
        <Condition expr="1 + 2 == 3" />
    </BehaviorTree></root>"#;
    let mut tree = build(xml, &registry, None).unwrap();
    assert!(matches!(tree.tick_exactly_once(), Ok(NodeStatus::Success)));
    let xml = r#"<root><BehaviorTree ID="main">
        <Condition expr="1 + 2 == 4" />
    </BehaviorTree></root>"#;
    let mut tree = build(xml, &registry, None).unwrap();
    assert!(matches!(tree.tick_exactly_once(), Ok(NodeStatus::Failure)));
}

#[test]
fn control_without_children_names_the_constraint() {
    let e = build_err(r#"<root><BehaviorTree ID="main"><Sequence>
    </Sequence></BehaviorTree></root>"#);
    assert!(matches!(e, ParseError::ViolateNodeConstraint(m) if m == "Control nodes must have at least one child"));
}

#[test]
fn decorator_without_child_is_refused() {
    let e = build_err(r#"<root><BehaviorTree ID="main"><Inverter>
    </Inverter></BehaviorTree></root>"#);
    assert!(matches!(e, ParseError::NodeTypeMismatch(m) if m == "Decorator"));
}

#[test]
fn decorator_with_a_second_child_is_refused() {
    let e = build_err(r#"<root><BehaviorTree ID="main"><Inverter>
        <StatusNode status="Success" />
        <StatusNode status="Success" />
    </Inverter></BehaviorTree></root>"#);
    assert!(matches!(e, ParseError::ViolateNodeConstraint(_)));
}

#[test]
fn nested_tree_without_id_is_refused() {
    let e = build_err(r#"<root><BehaviorTree ID="a"><StatusNode status="Success"/></BehaviorTree>
        <BehaviorTree><StatusNode status="Success"/></BehaviorTree></root>"#);
    assert!(matches!(e, ParseError::MissingAttribute(_)));
}

#[test]
fn halting_a_sync_action_does_not_tick_it() {
    let xml = r#"<root><BehaviorTree ID="main">
        <StringAppend key="text" char="x" />
    </BehaviorTree></root>"#;
    let registry = registry();
    let mut tree = build(xml, &registry, None).unwrap();
    assert!(matches!(tree.tick_exactly_once(), Ok(NodeStatus::Success)));
    assert!(tree.halt_tree().is_ok());
    let scope = tree.root_scope();
    let value = tree.root_blackboard_mut().get(scope, "text", ValueKind::String);
    assert!(matches!(value, Some(Value::String(s)) if s == "x"));
}

#[test]
fn force_success_runs_while_its_child_runs() {
    let registry = registry();
    let xml = r#"<root><BehaviorTree ID="main"><ForceSuccess>
        <RunForNode iters="0" status="Failure" />
    </ForceSuccess></BehaviorTree></root>"#;
    let mut tree = build(xml, &registry, None).unwrap();
    assert!(matches!(tree.tick_exactly_once(), Ok(NodeStatus::Running)));
    assert!(matches!(tree.tick_exactly_once(), Ok(NodeStatus::Success)));
}

#[test]
fn retry_fails_when_attempts_run_out_first() {
    let r = run(r#"<root><BehaviorTree ID="main"><Retry num_attempts="3">
        <Inverter><SuccessThenFailure iters="3" /></Inverter>
    </Retry></BehaviorTree></root>"#);
    assert!(matches!(r, Ok(NodeStatus::Failure)));
}

#[test]
fn retry_succeeds_on_the_last_attempt() {
    let r = run(r#"<root><BehaviorTree ID="main"><Retry num_attempts="4">
        <Inverter><SuccessThenFailure iters="3" /></Inverter>
    </Retry></BehaviorTree></root>"#);
    assert!(matches!(r, Ok(NodeStatus::Success)));
}

#[test]
fn repeat_fails_when_a_cycle_fails() {
    let r = run(r#"<root><BehaviorTree ID="main"><Repeat num_cycles="4">
        <SuccessThenFailure iters="3" />
    </Repeat></BehaviorTree></root>"#);
    assert!(matches!(r, Ok(NodeStatus::Failure)));
}

#[test]
fn condition_without_entry_is_a_blackboard_error() {
    let registry = registry();
    let xml = r#"<root><BehaviorTree ID="main">
        <Condition expr="{count:int} < 5" />
    </BehaviorTree></root>"#;
    let mut tree = build(xml, &registry, None).unwrap();
    assert!(matches!(tree.tick_exactly_once(), Err(NodeError::BlackboardError(_))));
}
