//! The registry of node types that a tree can be built from: the built-in
//! control and decorator nodes, and the user's leaf nodes by name.

use vstd::prelude::*;

use crate::basic_types::{is_input_port, NodeStatus, NodeType, PortInfo, PortsList};
use crate::value::{ValueKind, ValueModel};
use crate::nodes::condition::ConditionNode;
use crate::nodes::control::{
    FallbackNode, IfThenElseNode, ParallelAllNode, ParallelNode, ReactiveFallbackNode,
    ReactiveSequenceNode, SequenceNode, SequenceWithMemoryNode, WhileDoElseNode,
};
use crate::nodes::decorator::{
    ForceFailureNode, ForceSuccessNode, InverterNode, KeepRunningUntilFailureNode, RepeatNode,
    RetryNode, RunOnceNode, SubTreeNode,
};
use crate::blackboard::Blackboard;
use crate::nodes::control::{spec_int_input, spec_threshold};
use crate::nodes::decorator::spec_bool_input;
use crate::nodes::{InputError, NodeDataGeneric, NodeImpl, StatefulActionNode, SyncActionNode};
use crate::strmap::{assoc_map, StrMap};
use crate::text::{str_eq, to_owned_string};

verus! {

/// A user's leaf node, as registered: one that completes in a single tick,
/// or one that may run over several ticks.
#[derive(Debug, Clone)]
pub enum ActionNode<A> {
    Sync(A),
    Stateful(A),
}

/// The type of the built-in node named `name`, if there is one.
pub open spec fn builtin_type(name: Seq<char>) -> Option<NodeType> {
    if name == "Sequence"@ || name == "ReactiveSequence"@ || name == "SequenceStar"@
        || name == "Parallel"@ || name == "ParallelAll"@ || name == "Fallback"@
        || name == "ReactiveFallback"@ || name == "IfThenElse"@ || name == "WhileDoElse"@ {
        Some(NodeType::Control)
    } else if name == "Condition"@ {
        Some(NodeType::Action)
    } else if name == "ForceFailure"@ || name == "ForceSuccess"@ || name == "Inverter"@
        || name == "KeepRunningUntilFailure"@ || name == "Repeat"@ || name == "Retry"@
        || name == "RunOnce"@ {
        Some(NodeType::Decorator)
    } else {
        None
    }
}

/// Whether `n` is the built-in node that the name `name` stands for.
pub open spec fn builtin_node_named<A>(name: Seq<char>, n: NodeImpl<A>) -> bool {
    if name == "Sequence"@ {
        n is Sequence
    } else if name == "ReactiveSequence"@ {
        n is ReactiveSequence
    } else if name == "SequenceStar"@ {
        n is SequenceStar
    } else if name == "Parallel"@ {
        n is Parallel
    } else if name == "ParallelAll"@ {
        n is ParallelAll
    } else if name == "Fallback"@ {
        n is Fallback
    } else if name == "ReactiveFallback"@ {
        n is ReactiveFallback
    } else if name == "IfThenElse"@ {
        n is IfThenElse
    } else if name == "WhileDoElse"@ {
        n is WhileDoElse
    } else if name == "Condition"@ {
        n is Condition
    } else if name == "ForceFailure"@ {
        n is ForceFailure
    } else if name == "ForceSuccess"@ {
        n is ForceSuccess
    } else if name == "Inverter"@ {
        n is Inverter
    } else if name == "KeepRunningUntilFailure"@ {
        n is KeepRunningUntilFailure
    } else if name == "Repeat"@ {
        n is Repeat
    } else if name == "Retry"@ {
        n is Retry
    } else if name == "RunOnce"@ {
        n is RunOnce
    } else {
        false
    }
}

/// Whether the built-in node `n` is in the state it starts in: at its first
/// child, with nothing counted, completed or compiled yet.
pub open spec fn fresh_builtin<A>(n: NodeImpl<A>) -> bool {
    match n {
        NodeImpl::Sequence(s) => s.child_idx == 0 && !s.all_skipped,
        NodeImpl::SequenceStar(s) => s.child_idx == 0 && !s.all_skipped,
        NodeImpl::Fallback(f) => f.child_idx == 0 && f.all_skipped,
        NodeImpl::ReactiveSequence(r) => r.running_child is None,
        NodeImpl::ReactiveFallback(r) => r.running_child is None,
        NodeImpl::Parallel(p) => p.completed_list@.len() == 0 && p.success_count == 0 && p.failure_count == 0
            && p.success_threshold == 0 && p.failure_threshold == 0,
        NodeImpl::ParallelAll(p) => p.completed_list@.len() == 0 && p.failure_count == 0 && p.failure_threshold == 0,
        NodeImpl::IfThenElse(i) => i.child_idx == 0,
        NodeImpl::Condition(c) => !c.is_compiled(),
        NodeImpl::Repeat(r) => r.num_cycles == -1 && r.repeat_count == 0,
        NodeImpl::Retry(r) => r.max_attempts == -1 && r.try_count == 0 && r.all_skipped,
        NodeImpl::RunOnce(r) => !r.already_ticked && r.returned_status == NodeStatus::Idle,
        _ => true,
    }
}

/// Different built-in names stand for different nodes: the node that a
/// built-in name gives tells which name it was.
pub proof fn lemma_builtin_names_distinct<A>(a: Seq<char>, b: Seq<char>, n: NodeImpl<A>)
    requires
        builtin_node_named(a, n),
        builtin_node_named(b, n),
    ensures
        a == b,
{
    reveal_strlit("Sequence");
    reveal_strlit("ReactiveSequence");
    reveal_strlit("SequenceStar");
    reveal_strlit("Parallel");
    reveal_strlit("ParallelAll");
    reveal_strlit("Fallback");
    reveal_strlit("ReactiveFallback");
    reveal_strlit("IfThenElse");
    reveal_strlit("WhileDoElse");
    reveal_strlit("Condition");
    reveal_strlit("ForceFailure");
    reveal_strlit("ForceSuccess");
    reveal_strlit("Inverter");
    reveal_strlit("KeepRunningUntilFailure");
    reveal_strlit("Repeat");
    reveal_strlit("Retry");
    reveal_strlit("RunOnce");
}

/// The node that a built-in name gives has the kind that the name's type
/// says: a decorator exactly for a decorator name, a control node for a
/// control name, a condition for the one action name.
pub proof fn lemma_builtin_kind<A>(name: Seq<char>, n: NodeImpl<A>)
    requires
        builtin_node_named(name, n),
    ensures
        builtin_type(name) is Some,
        n.is_decorator() <==> builtin_type(name) == Some(NodeType::Decorator),
        n.is_control() <==> builtin_type(name) == Some(NodeType::Control),
        n is Condition <==> builtin_type(name) == Some(NodeType::Action),
{
    reveal_strlit("Sequence");
    reveal_strlit("ReactiveSequence");
    reveal_strlit("SequenceStar");
    reveal_strlit("Parallel");
    reveal_strlit("ParallelAll");
    reveal_strlit("Fallback");
    reveal_strlit("ReactiveFallback");
    reveal_strlit("IfThenElse");
    reveal_strlit("WhileDoElse");
    reveal_strlit("Condition");
    reveal_strlit("ForceFailure");
    reveal_strlit("ForceSuccess");
    reveal_strlit("Inverter");
    reveal_strlit("KeepRunningUntilFailure");
    reveal_strlit("Repeat");
    reveal_strlit("Retry");
    reveal_strlit("RunOnce");
}

/// A fresh built-in node named `name`, with its type.
#[verifier::rlimit(40)]
pub fn builtin_nodes<A>(name: &str) -> (r: Option<(NodeType, NodeImpl<A>)>)
    ensures
        match r {
            Some((t, n)) => builtin_type(name@) == Some(t) && (n.is_decorator() <==> t == NodeType::Decorator)
                && (t == NodeType::Control ==> n.is_control()) && builtin_node_named(name@, n)
                && fresh_builtin(n),
            None => builtin_type(name@) is None,
        },
{
    proof {
        reveal_strlit("Sequence");
        reveal_strlit("ReactiveSequence");
        reveal_strlit("SequenceStar");
        reveal_strlit("Parallel");
        reveal_strlit("ParallelAll");
        reveal_strlit("Fallback");
        reveal_strlit("ReactiveFallback");
        reveal_strlit("IfThenElse");
        reveal_strlit("WhileDoElse");
        reveal_strlit("Condition");
        reveal_strlit("ForceFailure");
        reveal_strlit("ForceSuccess");
        reveal_strlit("Inverter");
        reveal_strlit("KeepRunningUntilFailure");
        reveal_strlit("Repeat");
        reveal_strlit("Retry");
        reveal_strlit("RunOnce");
    }
    if str_eq(name, "Sequence") {
        Some((NodeType::Control, NodeImpl::Sequence(SequenceNode::default())))
    } else if str_eq(name, "ReactiveSequence") {
        Some((NodeType::Control, NodeImpl::ReactiveSequence(ReactiveSequenceNode::default())))
    } else if str_eq(name, "SequenceStar") {
        Some((NodeType::Control, NodeImpl::SequenceStar(SequenceWithMemoryNode::default())))
    } else if str_eq(name, "Parallel") {
        Some((NodeType::Control, NodeImpl::Parallel(ParallelNode::default())))
    } else if str_eq(name, "ParallelAll") {
        Some((NodeType::Control, NodeImpl::ParallelAll(ParallelAllNode::default())))
    } else if str_eq(name, "Fallback") {
        Some((NodeType::Control, NodeImpl::Fallback(FallbackNode::default())))
    } else if str_eq(name, "ReactiveFallback") {
        Some((NodeType::Control, NodeImpl::ReactiveFallback(ReactiveFallbackNode::default())))
    } else if str_eq(name, "IfThenElse") {
        Some((NodeType::Control, NodeImpl::IfThenElse(IfThenElseNode::default())))
    } else if str_eq(name, "WhileDoElse") {
        Some((NodeType::Control, NodeImpl::WhileDoElse(WhileDoElseNode)))
    } else if str_eq(name, "Condition") {
        Some((NodeType::Action, NodeImpl::Condition(ConditionNode::default())))
    } else if str_eq(name, "ForceFailure") {
        Some((NodeType::Decorator, NodeImpl::ForceFailure(ForceFailureNode)))
    } else if str_eq(name, "ForceSuccess") {
        Some((NodeType::Decorator, NodeImpl::ForceSuccess(ForceSuccessNode)))
    } else if str_eq(name, "Inverter") {
        Some((NodeType::Decorator, NodeImpl::Inverter(InverterNode)))
    } else if str_eq(name, "KeepRunningUntilFailure") {
        Some((NodeType::Decorator, NodeImpl::KeepRunningUntilFailure(KeepRunningUntilFailureNode)))
    } else if str_eq(name, "Repeat") {
        Some((NodeType::Decorator, NodeImpl::Repeat(RepeatNode::default())))
    } else if str_eq(name, "Retry") {
        Some((NodeType::Decorator, NodeImpl::Retry(RetryNode::default())))
    } else if str_eq(name, "RunOnce") {
        Some((NodeType::Decorator, NodeImpl::RunOnce(RunOnceNode::default())))
    } else {
        None
    }
}

/// The names of the ports of a built-in node; `None` for a user's node,
/// whose ports are its own.
pub open spec fn builtin_port_names<A>(node: NodeImpl<A>) -> Option<Set<Seq<char>>> {
    match node {
        NodeImpl::SyncAction(_) | NodeImpl::StatefulAction(_) => None,
        NodeImpl::Condition(_) => Some(set!["expr"@]),
        NodeImpl::Parallel(_) => Some(set!["success_count"@, "failure_count"@]),
        NodeImpl::ParallelAll(_) => Some(set!["max_failures"@]),
        NodeImpl::Repeat(_) => Some(set!["num_cycles"@]),
        NodeImpl::Retry(_) => Some(set!["num_attempts"@]),
        NodeImpl::RunOnce(_) => Some(set!["then_skip"@]),
        _ => Some(Set::<Seq<char>>::empty()),
    }
}

/// Whether `ports` are the ports that the built-in node `node` declares:
/// `expr` for a condition; `success_count` (default -1) and
/// `failure_count` (default 1) for `Parallel`; `max_failures` (default 1)
/// for `ParallelAll`; `num_cycles`, `num_attempts` and `then_skip`
/// (default true) for `Repeat`, `Retry` and `RunOnce`; none for the other
/// built-in nodes. A user's node declares its own.
pub open spec fn declared_builtin_ports<A>(node: NodeImpl<A>, ports: Map<Seq<char>, PortInfo>) -> bool {
    match node {
        NodeImpl::SyncAction(_) | NodeImpl::StatefulAction(_) => true,
        NodeImpl::Condition(_) => is_input_port(ports["expr"@], "expr"@, ValueKind::String, None)
            && ports["expr"@].spec_parse_expr(),
        NodeImpl::Parallel(_) => {
            &&& is_input_port(ports["success_count"@], "success_count"@, ValueKind::Integer, Some(ValueModel::Integer(-1i64)))
            &&& is_input_port(ports["failure_count"@], "failure_count"@, ValueKind::Integer, Some(ValueModel::Integer(1i64)))
        },
        NodeImpl::ParallelAll(_) => is_input_port(ports["max_failures"@], "max_failures"@, ValueKind::Integer,
            Some(ValueModel::Integer(1i64))),
        NodeImpl::Repeat(_) => is_input_port(ports["num_cycles"@], "num_cycles"@, ValueKind::Integer, None),
        NodeImpl::Retry(_) => is_input_port(ports["num_attempts"@], "num_attempts"@, ValueKind::Integer, None),
        NodeImpl::RunOnce(_) => is_input_port(ports["then_skip"@], "then_skip"@, ValueKind::Boolean,
            Some(ValueModel::Boolean(true))),
        _ => true,
    }
}

/// A `Parallel` node whose ports are the ones it declares, and that was
/// given neither `success_count` nor `failure_count`, reads -1 and 1: it
/// succeeds only when every child succeeded, and fails on the first failure.
pub proof fn lemma_parallel_defaults<A>(node: NodeImpl<A>, data: NodeDataGeneric, bb: Blackboard, n: usize)
    requires
        node is Parallel,
        builtin_port_names(node) matches Some(names) && data.meta.manifest.ports.map().dom() == names,
        declared_builtin_ports(node, data.meta.manifest.ports.map()),
        !data.meta.port_values.map().contains_key("success_count"@),
        !data.meta.port_values.map().contains_key("failure_count"@),
    ensures
        spec_int_input(&data, &bb, "success_count"@) == Some(-1i64),
        spec_int_input(&data, &bb, "failure_count"@) == Some(1i64),
        spec_threshold(-1i32, n) == n,
{
    assert(data.meta.manifest.ports.map().contains_key("success_count"@));
    assert(data.meta.manifest.ports.map().contains_key("failure_count"@));
}

/// A `ParallelAll` node whose ports are the ones it declares, and that was
/// not given `max_failures`, reads 1: a single failed child makes it fail.
pub proof fn lemma_parallel_all_defaults<A>(node: NodeImpl<A>, data: NodeDataGeneric, bb: Blackboard, n: usize)
    requires
        node is ParallelAll,
        builtin_port_names(node) matches Some(names) && data.meta.manifest.ports.map().dom() == names,
        declared_builtin_ports(node, data.meta.manifest.ports.map()),
        !data.meta.port_values.map().contains_key("max_failures"@),
    ensures
        spec_int_input(&data, &bb, "max_failures"@) == Some(1i64),
        spec_threshold(1i32, n) == 1,
{
    assert(data.meta.manifest.ports.map().contains_key("max_failures"@));
}

/// A `RunOnce` node whose ports are the ones it declares, and that was not
/// given `then_skip`, reads true: once its child completed it is skipped.
pub proof fn lemma_run_once_defaults<A>(node: NodeImpl<A>, data: NodeDataGeneric, bb: Blackboard)
    requires
        node is RunOnce,
        builtin_port_names(node) matches Some(names) && data.meta.manifest.ports.map().dom() == names,
        declared_builtin_ports(node, data.meta.manifest.ports.map()),
        !data.meta.port_values.map().contains_key("then_skip"@),
    ensures
        spec_bool_input(&data, &bb, "then_skip"@) == Some(true),
{
    assert(data.meta.manifest.ports.map().contains_key("then_skip"@));
}

/// The counts of `Repeat` and `Retry` have no default: a node whose ports
/// are the ones it declares and that was not given its count cannot read it.
pub proof fn lemma_counts_required<A>(node: NodeImpl<A>, data: NodeDataGeneric, port: Seq<char>)
    requires
        (node is Repeat && port == "num_cycles"@) || (node is Retry && port == "num_attempts"@),
        builtin_port_names(node) matches Some(names) && data.meta.manifest.ports.map().dom() == names,
        declared_builtin_ports(node, data.meta.manifest.ports.map()),
        !data.meta.port_values.map().contains_key(port),
    ensures
        data.spec_plain_input(port, ValueKind::Integer) == Some(Err::<ValueModel, InputError>(InputError::Missing)),
{
    assert(data.meta.manifest.ports.map().contains_key(port));
}

/// The ports of a node.
pub fn node_ports<A: SyncActionNode + StatefulActionNode>(node: &NodeImpl<A>) -> (r: PortsList)
    ensures
        builtin_port_names(*node) matches Some(names) ==> r.map().dom() =~= names,
        declared_builtin_ports(*node, r.map()),
{
    match node {
        NodeImpl::SyncAction(a) => SyncActionNode::ports(a),
        NodeImpl::StatefulAction(a) => StatefulActionNode::ports(a),
        NodeImpl::Condition(_) => ConditionNode::ports(),
        NodeImpl::Parallel(_) => ParallelNode::ports(),
        NodeImpl::ParallelAll(_) => ParallelAllNode::ports(),
        NodeImpl::Repeat(_) => RepeatNode::ports(),
        NodeImpl::Retry(_) => RetryNode::ports(),
        NodeImpl::RunOnce(_) => RunOnceNode::ports(),
        _ => PortsList::new(),
    }
}

/// The user's node types by name.
#[derive(Debug)]
pub struct NodeRegistry<A> {
    node_map: StrMap<(NodeType, ActionNode<A>)>,
}

impl<A: Clone> NodeRegistry<A> {
    /// The user's registered nodes by name.
    pub closed spec fn nodes(&self) -> Map<Seq<char>, (NodeType, ActionNode<A>)> {
        self.node_map.map()
    }

    /// The type of the node named `name`: the built-in node's if there is
    /// one of that name, else that of the user's node registered under it.
    pub open spec fn type_of(&self, name: Seq<char>) -> Option<NodeType> {
        match builtin_type(name) {
            Some(t) => Some(t),
            None => if self.nodes().contains_key(name) {
                Some(self.nodes()[name].0)
            } else {
                None
            },
        }
    }

    /// A registry with no user nodes.
    pub fn new() -> (r: Self)
        ensures
            r.nodes() == Map::<Seq<char>, (NodeType, ActionNode<A>)>::empty(),
    {
        NodeRegistry { node_map: StrMap::new() }
    }

    /// Registers `node` under `name`; a later registration of the same name
    /// replaces it.
    pub fn insert(&mut self, name: &str, node: ActionNode<A>, node_type: NodeType)
        ensures
            final(self).nodes() == old(self).nodes().insert(name@, (node_type, node)),
    {
        self.node_map.insert(to_owned_string(name), (node_type, node));
    }

    /// Adds the nodes of `other`, which replace nodes of the same name.
    pub fn merge(&mut self, other: NodeRegistry<A>)
        ensures
            final(self).nodes() == old(self).nodes().union_prefer_right(other.nodes()),
    {
        let mut entries = other.node_map.into_entries();
        let ghost es = entries@;
        let ghost start = self.nodes();
        let ghost mut done: int = 0;
        proof {
            assert(es.take(0) =~= Seq::<(String, (NodeType, ActionNode<A>))>::empty());
            assert(start.union_prefer_right(assoc_map(es.take(0))) =~= start);
            assert(entries@ =~= es.subrange(0, es.len() as int));
        }
        while entries.len() > 0
            invariant
                0 <= done <= es.len(),
                entries@ =~= es.subrange(done, es.len() as int),
                self.nodes() == start.union_prefer_right(assoc_map(es.take(done))),
            decreases entries.len(),
        {
            let e = entries.remove(0);
            proof {
                assert(e == es[done]);
                assert(es.take(done + 1).drop_last() =~= es.take(done));
                assert(es.take(done + 1).last() == e);
            }
            let ghost before = self.nodes();
            self.node_map.insert(e.0, e.1);
            proof {
                assert(start.union_prefer_right(assoc_map(es.take(done + 1))) =~= before.insert(e.0@, e.1));
                done = done + 1;
                assert(entries@ =~= es.subrange(done, es.len() as int));
            }
        }
        proof {
            assert(es.take(done) =~= es);
        }
    }

    /// A fresh node named `name`, with its type: a built-in node if one has
    /// that name, else a copy of the user's node registered under it.
    pub fn build_node(&self, name: &str) -> (r: Option<(NodeType, NodeImpl<A>)>)
        ensures
            match r {
                Some((t, n)) => match builtin_type(name@) {
                    Some(bt) => t == bt && (n.is_decorator() <==> t == NodeType::Decorator)
                        && (t == NodeType::Control ==> n.is_control())
                        && builtin_node_named(name@, n) && fresh_builtin(n),
                    None => self.nodes().contains_key(name@) && t == self.nodes()[name@].0
                        && (n is SyncAction <==> self.nodes()[name@].1 is Sync)
                        && (n is StatefulAction <==> self.nodes()[name@].1 is Stateful),
                },
                None => builtin_type(name@) is None && !self.nodes().contains_key(name@),
            },
    {
        match builtin_nodes(name) {
            Some(b) => Some(b),
            None => match self.node_map.get(name) {
                Some(entry) => {
                    let node = match &entry.1 {
                        ActionNode::Sync(a) => NodeImpl::SyncAction(a.clone()),
                        ActionNode::Stateful(a) => NodeImpl::StatefulAction(a.clone()),
                    };
                    Some((entry.0, node))
                },
                None => None,
            },
        }
    }
}

} // verus!
