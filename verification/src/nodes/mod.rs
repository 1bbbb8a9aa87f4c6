//! The nodes of a behavior tree: their shared data, the way a node is ticked
//! and halted, and the built-in control and decorator nodes.

pub mod condition;
pub mod control;
pub mod decorator;

use vstd::prelude::*;

use crate::basic_types::{
    spec_remapped_key, get_remapped_key, NodeStatus, NodeType, PortDirection, PortsList,
    TreeNodeManifest,
};
use crate::blackboard::{parse_as, spec_parse_as, Blackboard};
use crate::node_registry::{builtin_port_names, node_ports};
use crate::strmap::StrMap;
use crate::text::{str_eq, to_owned_string};
use crate::value::{Value, ValueKind, ValueModel};

verus! {

/// What can go wrong while a node is ticked or halted.
#[derive(Debug)]
pub enum NodeError {
    /// A node returned a status it may not return: `(where, status)`.
    StatusError(String, String),
    /// A child index was out of range.
    IndexError,
    /// The port does not exist, or is not an output port where one is needed.
    PortError(String),
    /// The blackboard has no entry of the needed type at the key.
    BlackboardError(String),
    /// A port value could not be read as the needed type: `(port, type)`.
    PortValueParseError(String, String),
    /// A port was used in the wrong direction.
    PortDirectionError { name: String, actual: PortDirection, expected: PortDirection },
    /// An input port without a value and without a default.
    MissingRequiredPort(String),
    /// The default value of a port is of another type than the one asked for.
    PortTypeMismatch(String),
    /// The children of a node do not fit what it needs.
    NodeStructureError(String),
    /// An error reported by a user's node.
    UserError(String),
    /// A condition's expression could not be compiled or evaluated.
    ConditionExpressionError(String),
}

/// Conditions that may be checked before a node ticks. No node of the
/// library uses them yet.
#[derive(Clone, Debug)]
pub enum PreCond {
    FailureIf,
    SuccessIf,
    SkipIf,
    WhileTrue,
    Count,
}

/// Conditions that may be checked after a node ticks. No node of the
/// library uses them yet.
#[derive(Clone, Debug)]
pub enum PostCond {
    OnHalted,
    OnFailure,
    OnSuccess,
    Always,
    Count,
}

/// The result of ticking a node.
pub type NodeResult = Result<NodeStatus, NodeError>;

/// Whether `r` is the error `PortError(port)`.
pub open spec fn is_port_error<T>(r: Result<T, NodeError>, port: Seq<char>) -> bool {
    r matches Err(NodeError::PortError(p)) && p@ == port
}

/// Whether `r` is the error `BlackboardError(key)`.
pub open spec fn is_blackboard_error<T>(r: Result<T, NodeError>, key: Seq<char>) -> bool {
    r matches Err(NodeError::BlackboardError(k)) && k@ == key
}

/// Configuration common to all nodes.
#[derive(Debug)]
pub struct NodeMetadata {
    pub uid: u16,
    /// Name of the node as registered
    pub name: String,
    /// Path of the node in the tree
    pub path: String,
    /// The type of this node
    pub node_type: NodeType,
    /// Values of ports set in the node's XML attributes, by port name
    pub port_values: StrMap<(PortDirection, String)>,
    pub manifest: TreeNodeManifest,
}

impl NodeMetadata {
    /// Metadata with no port values set.
    pub fn new(name: String, path: String, node_type: NodeType, manifest: TreeNodeManifest) -> (r: Self)
        ensures
            r.uid == 0,
            r.name == name,
            r.path == path,
            r.node_type == node_type,
            r.manifest == manifest,
            r.port_values.map() == Map::<Seq<char>, (PortDirection, String)>::empty(),
    {
        NodeMetadata { uid: 0, name, path, node_type, port_values: StrMap::new(), manifest }
    }

    /// Sets the value of a port, as given by an XML attribute.
    pub fn set_port_value(&mut self, direction: PortDirection, name: String, value: String)
        ensures
            final(self).port_values.map() == old(self).port_values.map().insert(name@, (direction, value)),
            final(self).uid == old(self).uid,
            final(self).name == old(self).name,
            final(self).path == old(self).path,
            final(self).node_type == old(self).node_type,
            final(self).manifest == old(self).manifest,
    {
        self.port_values.insert(name, (direction, value));
    }

    /// Whether a value was set for port `name` in `direction`.
    pub fn is_port_value_set(&self, name: &str, direction: PortDirection) -> (r: bool)
        ensures
            r == (self.port_values.map().contains_key(name@) && self.port_values.map()[name@].0
                == direction),
    {
        match self.port_values.get(name) {
            Some(entry) => entry.0 == direction,
            None => false,
        }
    }
}

/// Data common to all nodes: metadata, current status, and the blackboard
/// scope of the subtree the node belongs to.
#[derive(Debug)]
pub struct NodeDataGeneric {
    pub meta: NodeMetadata,
    /// Current status of this node
    pub status: NodeStatus,
    /// Index of this node's scope in the tree's blackboard
    pub scope: usize,
}

/// The blackboard key that an output port value writes to: the port's own
/// name for `"="`, the text between the braces of a blackboard pointer, and
/// the value itself otherwise.
pub open spec fn spec_output_key(port_name: Seq<char>, port_value: Seq<char>) -> Seq<char> {
    if port_value == "="@ {
        port_name
    } else {
        match crate::text::spec_strip_bb_pointer(port_value) {
            Some(k) => k,
            None => port_value,
        }
    }
}

/// An output port whose value is `{key}` writes the blackboard entry `key`;
/// `=` writes the entry named like the port; any other value is itself the
/// key written.
pub proof fn lemma_output_key_forms(port_name: Seq<char>, key: Seq<char>, literal: Seq<char>)
    requires
        literal != "="@,
        !(literal.len() >= 2 && literal[0] == '{' && literal[literal.len() - 1] == '}'),
    ensures
        spec_output_key(port_name, seq!['{'] + key + seq!['}']) == key,
        spec_output_key(port_name, "="@) == port_name,
        spec_output_key(port_name, literal) == literal,
{
    reveal_strlit("=");
    let p = seq!['{'] + key + seq!['}'];
    assert(p.subrange(1, p.len() - 1) =~= key);
    if p == "="@ {
        assert(p.len() == 1);
    }
}

impl NodeDataGeneric {
    /// The name of the node.
    pub fn name(&self) -> (r: &str)
        ensures
            r@ == self.meta.name@,
    {
        self.meta.name.as_str()
    }

    /// The path of the node in the tree.
    pub fn path(&self) -> (r: &str)
        ensures
            r@ == self.meta.path@,
    {
        self.meta.path.as_str()
    }

    /// The node's blackboard scope.
    pub fn blackboard(&self) -> (r: usize)
        ensures
            r == self.scope,
    {
        self.scope
    }

    /// The current status.
    pub fn status(&self) -> (r: NodeStatus)
        ensures
            r == self.status,
    {
        self.status
    }

    /// Sets the status.
    pub fn set_status(&mut self, status: NodeStatus)
        ensures
            final(self).status == status,
            final(self).meta == old(self).meta,
            final(self).scope == old(self).scope,
    {
        self.status = status;
    }

    /// Sets the status back to `Idle`.
    pub fn reset_status(&mut self)
        ensures
            final(self).status == NodeStatus::Idle,
            final(self).meta == old(self).meta,
            final(self).scope == old(self).scope,
    {
        self.status = NodeStatus::Idle;
    }

    /// The node's type.
    pub fn node_type(&self) -> (r: NodeType)
        ensures
            r == self.meta.node_type,
    {
        self.meta.node_type
    }

    /// The manifest the node was registered with.
    pub fn manifest(&self) -> (r: &TreeNodeManifest)
        ensures
            *r == self.meta.manifest,
    {
        &self.meta.manifest
    }

    /// What reading input port `port` as `kind` gives, where `bb` is the
    /// blackboard and the port value is a plain value or has no blackboard
    /// key; `None` where the value comes from the blackboard.
    pub open spec fn spec_plain_input(&self, port: Seq<char>, kind: ValueKind) -> Option<Result<ValueModel, InputError>> {
        if !self.meta.manifest.ports.map().contains_key(port) {
            Some(Err(InputError::NoPort))
        } else if self.meta.port_values.map().contains_key(port) {
            let (dir, val) = self.meta.port_values.map()[port];
            if dir != PortDirection::Input {
                Some(Err(InputError::WrongDirection))
            } else {
                match spec_remapped_key(port, val@) {
                    Some(_) => None,
                    None => match spec_parse_as(val@, kind) {
                        Some(v) => Some(Ok(v)),
                        None => Some(Err(InputError::Unparsable)),
                    },
                }
            }
        } else {
            let info = self.meta.manifest.ports.map()[port];
            if info.spec_direction() != PortDirection::Input {
                Some(Err(InputError::WrongDirection))
            } else {
                match info.spec_default() {
                    Some(d) => if info.spec_kind() == kind {
                        Some(Ok(d@))
                    } else {
                        Some(Err(InputError::WrongType))
                    },
                    None => Some(Err(InputError::Missing)),
                }
            }
        }
    }

    /// The blackboard key that input port `port` reads, if its value is a
    /// blackboard pointer.
    pub open spec fn spec_input_key(&self, port: Seq<char>) -> Option<Seq<char>> {
        if self.meta.manifest.ports.map().contains_key(port) && self.meta.port_values.map().contains_key(port)
            && self.meta.port_values.map()[port].0 == PortDirection::Input {
            spec_remapped_key(port, self.meta.port_values.map()[port].1@)
        } else {
            None
        }
    }

    /// Reads input port `port_name` as a value of type `kind`. The port must
    /// be one of the manifest's ports. Its value, set in the XML, is either a
    /// blackboard pointer (such as `"{key}"`), which is read from the
    /// blackboard, or a plain value, which is parsed. A port without a value
    /// gives its default.
    pub fn get_input(&self, bb: &mut Blackboard, port_name: &str, kind: ValueKind) -> (r: Result<Value, NodeError>)
        ensures
            !self.meta.manifest.ports.map().contains_key(port_name@) ==> is_port_error(r, port_name@),
            match self.spec_plain_input(port_name@, kind) {
                Some(Ok(v)) => r is Ok && r.unwrap()@ == v,
                Some(Err(e)) => input_error_is(r, e, port_name@),
                None => {
                    let key = self.spec_input_key(port_name@).unwrap();
                    &&& (self.scope < old(bb).scope_count() ==> match old(bb).spec_get(self.scope as nat, key, kind) {
                        Some(v) => r is Ok && r.unwrap()@ == v,
                        None => is_blackboard_error(r, key),
                    })
                    &&& (self.scope >= old(bb).scope_count() ==> is_blackboard_error(r, key))
                },
            },
            self.spec_input_key(port_name@) is Some && self.scope < old(bb).scope_count() ==>
                final(bb).get_effect(old(bb), self.scope as nat, self.spec_input_key(port_name@).unwrap(), kind),
            !(self.spec_input_key(port_name@) is Some && self.scope < old(bb).scope_count()) ==> *final(bb) == *old(bb),
            kind == ValueKind::String ==> forall|s2: nat, k2: Seq<char>| #[trigger] final(bb).read(s2, k2) == old(bb).read(s2, k2),
    {
        if !self.meta.manifest.ports.contains_key(port_name) {
            return Err(NodeError::PortError(to_owned_string(port_name)));
        }
        match self.meta.port_values.get(port_name) {
            Some(entry) => {
                let dir = entry.0;
                let val = &entry.1;
                if dir != PortDirection::Input {
                    return Err(NodeError::PortDirectionError {
                        name: to_owned_string(port_name),
                        actual: dir,
                        expected: PortDirection::Input,
                    });
                }
                match get_remapped_key(port_name, val.as_str()) {
                    Some(key) => {
                        if self.scope >= bb.num_scopes() {
                            return Err(NodeError::BlackboardError(key));
                        }
                        match bb.get(self.scope, key.as_str(), kind) {
                            Some(v) => Ok(v),
                            None => Err(NodeError::BlackboardError(key)),
                        }
                    },
                    None => match parse_as(val.as_str(), kind) {
                        Some(v) => Ok(v),
                        None => Err(NodeError::PortValueParseError(
                            to_owned_string(port_name),
                            to_owned_string(kind.as_str()),
                        )),
                    },
                }
            },
            None => {
                let info = self.meta.manifest.ports.get(port_name).unwrap();
                if info.direction() != PortDirection::Input {
                    return Err(NodeError::PortDirectionError {
                        name: to_owned_string(port_name),
                        actual: info.direction(),
                        expected: PortDirection::Input,
                    });
                }
                if !info.has_default() {
                    return Err(NodeError::MissingRequiredPort(to_owned_string(port_name)));
                }
                match info.default_value(kind) {
                    Some(d) => Ok(d.copy()),
                    None => Err(NodeError::PortTypeMismatch(to_owned_string(port_name))),
                }
            },
        }
    }

    /// Writes `value` to the blackboard through output port `port_name`. The
    /// key is the port's own name for the port value `"="`, the text between
    /// the braces for a blackboard pointer such as `"{foo}"`, and the port
    /// value itself otherwise. Fails unless the port has a value and is an
    /// output port.
    pub fn set_output(&self, bb: &mut Blackboard, port_name: &str, value: Value) -> (r: Result<(), NodeError>)
        ensures
            ({
                let ok = self.meta.port_values.map().contains_key(port_name@)
                    && self.meta.port_values.map()[port_name@].0 == PortDirection::Output;
                let key = spec_output_key(port_name@, self.meta.port_values.map()[port_name@].1@);
                &&& (!ok ==> is_port_error(r, port_name@) && *final(bb) == *old(bb))
                &&& (ok && self.scope < old(bb).scope_count() ==> r is Ok
                    && final(bb).set_effect(old(bb), self.scope as nat, key, value@)
                    && final(bb).read(self.scope as nat, key) == Some(value@))
                &&& (ok && self.scope >= old(bb).scope_count() ==> is_blackboard_error(r, key)
                    && *final(bb) == *old(bb))
            }),
    {
        match self.meta.port_values.get(port_name) {
            Some(entry) => {
                if entry.0 != PortDirection::Output {
                    return Err(NodeError::PortError(to_owned_string(port_name)));
                }
                let port_value = entry.1.as_str();
                let key = if str_eq(port_value, "=") {
                    to_owned_string(port_name)
                } else {
                    match crate::text::strip_bb_pointer(port_value) {
                        Some(k) => to_owned_string(k),
                        None => to_owned_string(port_value),
                    }
                };
                if self.scope >= bb.num_scopes() {
                    return Err(NodeError::BlackboardError(key));
                }
                bb.set(self.scope, key.as_str(), value);
                Ok(())
            },
            None => Err(NodeError::PortError(to_owned_string(port_name))),
        }
    }
}

} // verus!


verus! {

/// The shape of a tree: for each node, whether it needs exactly one child,
/// and the shapes of its children.
pub ghost enum Shape {
    Node(bool, Seq<Shape>),
}

/// The shapes of a sequence of nodes.
pub open spec fn shapes<A>(c: Seq<TreeNode<A>>) -> Seq<Shape>
    decreases c,
{
    Seq::new(c.len(), |i: int| if 0 <= i < c.len() { c[i].shape() } else { Shape::Node(false, Seq::empty()) })
}

/// A shape in which every node that needs exactly one child has one.
pub open spec fn shape_wf(s: Shape) -> bool
    decreases s,
{
    match s {
        Shape::Node(one, kids) => {
            &&& (one ==> kids.len() == 1)
            &&& forall|i: int| 0 <= i < kids.len() ==> shape_wf(#[trigger] kids[i])
        },
    }
}

/// Every node in `c` is well formed.
pub open spec fn children_wf<A>(c: Seq<TreeNode<A>>) -> bool {
    forall|i: int| 0 <= i < c.len() ==> #[trigger] shape_wf(shapes(c)[i])
}

/// The status that the last successful tick of child `j` returned.
pub open spec fn last_of<A>(c: Seq<TreeNode<A>>, j: int) -> Option<NodeStatus> {
    c[j].last@
}

/// Whether the last tick or halt of some child returned an error.
pub open spec fn child_faulted<A>(c: Seq<TreeNode<A>>) -> bool {
    exists|j: int| 0 <= j < c.len() && #[trigger] c[j].fault@
}

/// Why reading an input port without the blackboard fails.
pub enum InputError {
    /// The node has no such port
    NoPort,
    /// The port is not an input port
    WrongDirection,
    /// The port's value cannot be read as the type asked for
    Unparsable,
    /// The port has neither a value nor a default
    Missing,
    /// The port's default is of another type than the one asked for
    WrongType,
}

/// Whether `r` is the error that reading input port `port` gives for `e`.
pub open spec fn input_error_is(r: Result<Value, NodeError>, e: InputError, port: Seq<char>) -> bool {
    match e {
        InputError::NoPort => r matches Err(NodeError::PortError(p)) && p@ == port,
        InputError::WrongDirection => r matches Err(NodeError::PortDirectionError { name, .. }) && name@ == port,
        InputError::Unparsable => r matches Err(NodeError::PortValueParseError(p, _)) && p@ == port,
        InputError::Missing => r matches Err(NodeError::MissingRequiredPort(p)) && p@ == port,
        InputError::WrongType => r matches Err(NodeError::PortTypeMismatch(p)) && p@ == port,
    }
}

/// Every child is `Idle` again, unless halting one of them failed.
pub open spec fn children_reset<A>(c: Seq<TreeNode<A>>) -> bool {
    (forall|j: int| 0 <= j < c.len() ==> #[trigger] c[j].data.status == NodeStatus::Idle) || child_faulted(c)
}

/// Whether the last tick of some child returned `Idle`, which no tick may
/// return.
pub open spec fn child_idle<A>(c: Seq<TreeNode<A>>) -> bool {
    exists|j: int| 0 <= j < c.len() && #[trigger] last_of(c, j) == Some(NodeStatus::Idle)
}

/// Every child keeps the status its last tick returned.
pub open spec fn same_lasts<A>(a: Seq<TreeNode<A>>, b: Seq<TreeNode<A>>) -> bool {
    &&& a.len() == b.len()
    &&& forall|j: int| 0 <= j < a.len() ==> #[trigger] a[j].last@ == b[j].last@
}

/// Trait of user-defined leaf nodes that complete in a single tick.
pub trait SyncActionNode {
    /// The ports of the node.
    fn ports(&self) -> PortsList;

    /// Runs the node; it must return a completed status or `Skipped`.
    fn tick(&mut self, ctx: &mut NodeDataGeneric, bb: &mut Blackboard) -> NodeResult;

    /// Called when the node is halted, for any cleanup; by default it does
    /// nothing.
    fn halt(&mut self, ctx: &mut NodeDataGeneric, bb: &mut Blackboard) -> Result<(), NodeError> {
        Ok(())
    }
}

/// Trait of user-defined leaf nodes that may run over several ticks.
pub trait StatefulActionNode {
    /// The ports of the node.
    fn ports(&self) -> PortsList;

    /// Called on the first tick, when the node is `Idle`.
    fn on_start(&mut self, ctx: &mut NodeDataGeneric, bb: &mut Blackboard) -> NodeResult;

    /// Called on the ticks after the first, while the node is `Running`.
    fn on_running(&mut self, ctx: &mut NodeDataGeneric, bb: &mut Blackboard) -> NodeResult;

    /// Called when the node is halted.
    fn on_halted(&mut self, ctx: &mut NodeDataGeneric, bb: &mut Blackboard) -> Result<(), NodeError>;
}

/// The behavior of a node: a user's leaf node of type `A`, or one of the
/// built-in control and decorator nodes.
#[derive(Debug)]
pub enum NodeImpl<A> {
    SyncAction(A),
    StatefulAction(A),
    Condition(condition::ConditionNode),
    Sequence(control::SequenceNode),
    ReactiveSequence(control::ReactiveSequenceNode),
    SequenceStar(control::SequenceWithMemoryNode),
    Parallel(control::ParallelNode),
    ParallelAll(control::ParallelAllNode),
    Fallback(control::FallbackNode),
    ReactiveFallback(control::ReactiveFallbackNode),
    IfThenElse(control::IfThenElseNode),
    WhileDoElse(control::WhileDoElseNode),
    ForceFailure(decorator::ForceFailureNode),
    ForceSuccess(decorator::ForceSuccessNode),
    Inverter(decorator::InverterNode),
    KeepRunningUntilFailure(decorator::KeepRunningUntilFailureNode),
    Repeat(decorator::RepeatNode),
    Retry(decorator::RetryNode),
    RunOnce(decorator::RunOnceNode),
    SubTree(decorator::SubTreeNode),
}

impl<A> NodeImpl<A> {
    /// Whether the node is a decorator, which has exactly one child.
    pub open spec fn is_decorator(&self) -> bool {
        ||| self is ForceFailure
        ||| self is ForceSuccess
        ||| self is Inverter
        ||| self is KeepRunningUntilFailure
        ||| self is Repeat
        ||| self is Retry
        ||| self is RunOnce
        ||| self is SubTree
    }

    /// Whether the node is a leaf whose result comes from code outside the
    /// library: a user's action, or a condition that `evalexpr` evaluates.
    pub open spec fn is_leaf(&self) -> bool {
        self is SyncAction || self is StatefulAction || self is Condition
    }

    /// Whether the node can refuse a tick for a reason of its own: a port
    /// that cannot be read, a threshold out of reach, a count out of range,
    /// a wrong number of children, or a second running child.
    pub open spec fn may_refuse(&self) -> bool {
        ||| self is Parallel
        ||| self is ParallelAll
        ||| self is Repeat
        ||| self is Retry
        ||| self is RunOnce
        ||| self is IfThenElse
        ||| self is WhileDoElse
        ||| self is ReactiveSequence
        ||| self is ReactiveFallback
    }

    /// Whether the node is a control node.
    pub open spec fn is_control(&self) -> bool {
        !(self is SyncAction || self is StatefulAction || self is Condition || self.is_decorator())
    }
}

/// A node of a tree, with its children.
pub struct TreeNode<A> {
    /// Data common to all nodes
    pub data: NodeDataGeneric,
    /// What the node does
    pub node: NodeImpl<A>,
    /// The children, in order
    pub children: Vec<TreeNode<A>>,
    /// The status that the last successful tick of this node returned
    pub last: Ghost<Option<NodeStatus>>,
    /// Whether the last tick or halt of this node returned an error
    pub fault: Ghost<bool>,
    /// How many ticks of this node have returned a status
    pub ticks: Ghost<nat>,
}

impl<A> TreeNode<A> {
    /// The shape of the subtree rooted here.
    pub open spec fn shape(&self) -> Shape
        decreases self,
    {
        Shape::Node(self.node.is_decorator(), shapes(self.children@))
    }

    /// Every decorator in the subtree has exactly one child.
    pub open spec fn wf(&self) -> bool {
        shape_wf(self.shape())
    }

    /// The status that the last successful tick returned, if any.
    pub open spec fn last_tick(&self) -> Option<NodeStatus> {
        self.last@
    }
}

/// A child at index `i` has the shape that the sequence's shapes list there,
/// which is smaller than the shapes of the whole sequence.
pub proof fn lemma_child_shape<A>(c: Seq<TreeNode<A>>, i: int)
    requires
        0 <= i < c.len(),
    ensures
        shapes(c)[i] == c[i].shape(),
        decreases_to!(shapes(c) => c[i].shape()),
{
    let sh = shapes(c);
    assert(decreases_to!(sh => sh[i]));
}

/// Replacing a child with one of the same shape keeps the shapes.
pub proof fn lemma_update_shape<A>(c: Seq<TreeNode<A>>, i: int, n: TreeNode<A>)
    requires
        0 <= i < c.len(),
        n.shape() == c[i].shape(),
    ensures
        shapes(c.update(i, n)) == shapes(c),
{
    assert(shapes(c.update(i, n)) =~= shapes(c));
}

/// The children of a well-formed node are well formed, and a decorator has
/// one child.
pub proof fn lemma_wf_children<A>(t: TreeNode<A>)
    requires
        t.wf(),
    ensures
        children_wf(t.children@),
        t.node.is_decorator() ==> t.children@.len() == 1,
{
    reveal_with_fuel(shape_wf, 2);
    let sh = t.shape();
    assert(sh == Shape::Node(t.node.is_decorator(), shapes(t.children@)));
    assert(shapes(t.children@).len() == t.children@.len());
    assert forall|i: int| 0 <= i < t.children@.len() implies #[trigger] shape_wf(shapes(t.children@)[i]) by {
        assert(shape_wf(sh));
        let kids = sh->Node_1;
        assert(forall|m: int| 0 <= m < kids.len() ==> #[trigger] shape_wf(kids[m]));
        assert(kids == shapes(t.children@));
        assert(shape_wf(kids[i]));
    }
}

/// A node whose children are well formed, and that has one child if it is
/// a decorator, is well formed.
pub proof fn lemma_wf_node<A>(t: TreeNode<A>)
    requires
        children_wf(t.children@),
        t.node.is_decorator() ==> t.children@.len() == 1,
    ensures
        t.wf(),
{
    let sh = t.shape();
    assert(sh == Shape::Node(t.node.is_decorator(), shapes(t.children@)));
    assert forall|i: int| 0 <= i < sh->Node_1.len() implies shape_wf(#[trigger] sh->Node_1[i]) by {
        assert(shape_wf(shapes(t.children@)[i]));
    }
}

/// Adding a well-formed node to well-formed nodes keeps them well formed.
pub proof fn lemma_push_wf<A>(c: Seq<TreeNode<A>>, n: TreeNode<A>)
    requires
        children_wf(c),
        n.wf(),
    ensures
        children_wf(c.push(n)),
{
    assert forall|i: int| 0 <= i < c.push(n).len() implies #[trigger] shape_wf(shapes(c.push(n))[i]) by {
        if i < c.len() {
            assert(shapes(c.push(n))[i] == shapes(c)[i]);
        }
    }
}

/// A node whose children keep their shapes keeps its own.
pub proof fn lemma_same_shape<A>(t: TreeNode<A>, u: TreeNode<A>)
    requires
        shapes(t.children@) == shapes(u.children@),
        t.node.is_decorator() == u.node.is_decorator(),
    ensures
        t.shape() == u.shape(),
{
}

/// Whether `r` is what a synchronous action at `path` gives when the
/// user's `tick` returned `res`: `Running` and `Idle` are refused as a
/// `StatusError` at `path`; anything else is passed on.
pub open spec fn sync_result_of(r: NodeResult, res: NodeResult, path: Seq<char>) -> bool {
    match res {
        Ok(NodeStatus::Running) | Ok(NodeStatus::Idle) => r matches Err(NodeError::StatusError(p, _)) && p@ == path,
        _ => r == res,
    }
}

/// Whether `r` is what a stateful action at `path` gives when its callback
/// (`on_start` or `on_running`, named by `callback`) returned `res`: `Idle`
/// is refused as a `StatusError` naming the callback; anything else is
/// passed on.
pub open spec fn stateful_result_of(r: NodeResult, res: NodeResult, path: Seq<char>, callback: Seq<char>) -> bool {
    match res {
        Ok(NodeStatus::Idle) => r matches Err(NodeError::StatusError(p, _)) && p@ == path + callback,
        _ => r == res,
    }
}

/// Whether `r` is what ticking the leaf `n` gives, at `path`, from what its
/// user's callback returned; see [`sync_result_of`] and
/// [`stateful_result_of`], and [`lemma_leaf_result`].
pub closed spec fn leaf_result<A>(n: TreeNode<A>, r: NodeResult, path: Seq<char>) -> bool {
    &&& n.node is SyncAction ==> exists|res: NodeResult| sync_result_of(r, res, path)
    &&& n.node is StatefulAction && n.data.status == NodeStatus::Idle
        ==> exists|res: NodeResult| stateful_result_of(r, res, path, "::on_start()"@)
    &&& n.node is StatefulAction && n.data.status == NodeStatus::Running
        ==> exists|res: NodeResult| stateful_result_of(r, res, path, "::on_running()"@)
}

/// What [`leaf_result`] says.
pub proof fn lemma_leaf_result<A>(n: TreeNode<A>, r: NodeResult, path: Seq<char>)
    requires
        leaf_result(n, r, path),
    ensures
        n.node is SyncAction ==> exists|res: NodeResult| sync_result_of(r, res, path),
        n.node is StatefulAction && n.data.status == NodeStatus::Idle
            ==> exists|res: NodeResult| stateful_result_of(r, res, path, "::on_start()"@),
        n.node is StatefulAction && n.data.status == NodeStatus::Running
            ==> exists|res: NodeResult| stateful_result_of(r, res, path, "::on_running()"@),
{
}

/// What a synchronous action's tick gives, from what the user's `tick`
/// returned: `Running` and `Idle` are refused as a `StatusError` at `path`;
/// anything else is passed on.
pub fn check_sync_result(res: NodeResult, path: &str) -> (r: NodeResult)
    ensures
        sync_result_of(r, res, path@),
{
    match res {
        Ok(NodeStatus::Running) => Err(NodeError::StatusError(
            to_owned_string(path),
            to_owned_string(NodeStatus::Running.as_str()),
        )),
        Ok(NodeStatus::Idle) => Err(NodeError::StatusError(
            to_owned_string(path),
            to_owned_string(NodeStatus::Idle.as_str()),
        )),
        other => other,
    }
}

/// Runs a user's synchronous action. It may not return `Running` or `Idle`.
fn sync_tick<A: SyncActionNode>(a: &mut A, data: &mut NodeDataGeneric, bb: &mut Blackboard) -> (r: NodeResult)
    ensures
        r matches Ok(s) ==> s != NodeStatus::Running && s != NodeStatus::Idle,
        exists|res: NodeResult| sync_result_of(r, res, final(data).meta.path@),
{
    let res = a.tick(data, bb);
    check_sync_result(res, data.meta.path.as_str())
}

/// Runs a user's stateful action: `on_start` when it is `Idle`, `on_running`
/// when it is `Running`; neither may return `Idle`. In any other status the
/// node returns that status again. The node's status becomes the result.
fn stateful_tick<A: StatefulActionNode>(a: &mut A, data: &mut NodeDataGeneric, bb: &mut Blackboard) -> (r: NodeResult)
    ensures
        r matches Ok(s) ==> s != NodeStatus::Idle && final(data).status == s,
        old(data).status != NodeStatus::Idle && old(data).status != NodeStatus::Running
            ==> r == Ok::<NodeStatus, NodeError>(old(data).status),
        old(data).status == NodeStatus::Idle
            ==> exists|res: NodeResult| stateful_result_of(r, res, final(data).meta.path@, "::on_start()"@),
        old(data).status == NodeStatus::Running
            ==> exists|res: NodeResult| stateful_result_of(r, res, final(data).meta.path@, "::on_running()"@),
{
    let prev = data.status;
    let new_status = match prev {
        NodeStatus::Idle => {
            let res = a.on_start(data, bb);
            let s = match res {
                Ok(s) => s,
                Err(e) => {
                    assert(stateful_result_of(Err(e), res, data.meta.path@, "::on_start()"@));
                    return Err(e);
                },
            };
            if s == NodeStatus::Idle {
                let r = Err(NodeError::StatusError(
                    crate::text::concat(data.meta.path.as_str(), "::on_start()"),
                    to_owned_string("Idle"),
                ));
                assert(stateful_result_of(r, res, data.meta.path@, "::on_start()"@));
                return r;
            }
            assert(stateful_result_of(Ok(s), res, data.meta.path@, "::on_start()"@));
            s
        },
        NodeStatus::Running => {
            let res = a.on_running(data, bb);
            let s = match res {
                Ok(s) => s,
                Err(e) => {
                    assert(stateful_result_of(Err(e), res, data.meta.path@, "::on_running()"@));
                    return Err(e);
                },
            };
            if s == NodeStatus::Idle {
                let r = Err(NodeError::StatusError(
                    crate::text::concat(data.meta.path.as_str(), "::on_running()"),
                    to_owned_string("Idle"),
                ));
                assert(stateful_result_of(r, res, data.meta.path@, "::on_running()"@));
                return r;
            }
            assert(stateful_result_of(Ok(s), res, data.meta.path@, "::on_running()"@));
            s
        },
        other => other,
    };
    data.status = new_status;
    Ok(new_status)
}

impl<A: SyncActionNode + StatefulActionNode> TreeNode<A> {
    /// The current status.
    pub fn status(&self) -> (r: NodeStatus)
        ensures
            r == self.data.status,
    {
        self.data.status
    }

    /// Sets the status back to `Idle`.
    pub fn reset_status(&mut self)
        ensures
            final(self).data.status == NodeStatus::Idle,
            final(self).data.meta == old(self).data.meta,
            final(self).data.scope == old(self).data.scope,
            final(self).node == old(self).node,
            final(self).children == old(self).children,
            final(self).last == old(self).last,
            final(self).fault == old(self).fault,
            final(self).ticks == old(self).ticks,
    {
        self.data.status = NodeStatus::Idle;
    }

    /// Sets the status.
    pub fn set_status(&mut self, status: NodeStatus)
        ensures
            final(self).data.status == status,
            final(self).data.meta == old(self).data.meta,
            final(self).data.scope == old(self).data.scope,
            final(self).node == old(self).node,
            final(self).children == old(self).children,
            final(self).last == old(self).last,
            final(self).fault == old(self).fault,
    {
        self.data.status = status;
    }

    /// The name of the node.
    pub fn name(&self) -> (r: &str)
        ensures
            r@ == self.data.meta.name@,
    {
        self.data.meta.name.as_str()
    }

    /// The type of the node.
    pub fn node_type(&self) -> (r: NodeType)
        ensures
            r == self.data.meta.node_type,
    {
        self.data.meta.node_type
    }

    /// The children of the node, or `None` for a node without children.
    pub fn children(&self) -> (r: Option<&Vec<TreeNode<A>>>)
        ensures
            match r {
                Some(c) => c@.len() > 0 && *c == self.children,
                None => self.children@.len() == 0,
            },
    {
        if self.children.len() == 0 {
            None
        } else {
            Some(&self.children)
        }
    }

    /// The ports of the node: those of a built-in node, or those the user's
    /// node declares.
    pub fn provided_ports(&self) -> (r: PortsList)
        ensures
            builtin_port_names(self.node) matches Some(names) ==> r.map().dom() =~= names,
    {
        node_ports(&self.node)
    }

    /// The children of the node, to change, or `None` for a node without
    /// children.
    pub fn children_mut(&mut self) -> (r: Option<&mut Vec<TreeNode<A>>>)
        ensures
            old(self).children@.len() == 0 <==> r is None,
            r is None ==> *final(self) == *old(self),
            r matches Some(c) ==> *c == old(self).children && final(self).children == *final(c),
            final(self).data == old(self).data,
            final(self).node == old(self).node,
            final(self).last == old(self).last,
            final(self).fault == old(self).fault,
    {
        if self.children.len() == 0 {
            None
        } else {
            Some(&mut self.children)
        }
    }

    /// Ticks the node. Unless the node returns `Skipped`, its status becomes
    /// the returned status; on `Skipped` the status is left to the node.
    pub fn execute_tick(&mut self, bb: &mut Blackboard) -> (r: NodeResult)
        requires
            old(self).wf(),
        ensures
            final(self).shape() == old(self).shape(),
            r matches Ok(s) ==> final(self).last_tick() == Some(s),
            r matches Ok(s) ==> (s != NodeStatus::Skipped ==> final(self).data.status == s),
            r is Err ==> final(self).last_tick() == old(self).last_tick(),
            old(self).node is SyncAction ==> (r matches Ok(s) ==> s != NodeStatus::Running && s
                != NodeStatus::Idle),
            old(self).node is StatefulAction ==> (r matches Ok(s) ==> s != NodeStatus::Idle),
            leaf_result(*old(self), r, final(self).data.meta.path@),
            final(self).fault@ == (r is Err),
            final(self).ticks@ == old(self).ticks@ + if r is Ok { 1nat } else { 0nat },
            r is Err ==> old(self).node.is_leaf() || old(self).node.may_refuse()
                || child_faulted(final(self).children@) || child_idle(final(self).children@),
        decreases old(self).shape(), 9nat,
    {
        let ghost pre = *self;
        proof {
            lemma_wf_children(*self);
            assert(decreases_to!(self.shape() => self.shape()->Node_1));
        }
        let status = match &mut self.node {
            NodeImpl::SyncAction(a) => sync_tick(a, &mut self.data, bb),
            NodeImpl::StatefulAction(a) => stateful_tick(a, &mut self.data, bb),
            NodeImpl::Condition(n) => n.tick(&mut self.data, bb),
            NodeImpl::Sequence(n) => n.tick(&mut self.data, &mut self.children, bb),
            NodeImpl::ReactiveSequence(n) => n.tick(&mut self.data, &mut self.children, bb),
            NodeImpl::SequenceStar(n) => n.tick(&mut self.data, &mut self.children, bb),
            NodeImpl::Parallel(n) => n.tick(&mut self.data, &mut self.children, bb),
            NodeImpl::ParallelAll(n) => n.tick(&mut self.data, &mut self.children, bb),
            NodeImpl::Fallback(n) => n.tick(&mut self.data, &mut self.children, bb),
            NodeImpl::ReactiveFallback(n) => n.tick(&mut self.data, &mut self.children, bb),
            NodeImpl::IfThenElse(n) => n.tick(&mut self.data, &mut self.children, bb),
            NodeImpl::WhileDoElse(n) => n.tick(&mut self.data, &mut self.children, bb),
            NodeImpl::ForceFailure(n) => n.tick(&mut self.data, &mut self.children, bb),
            NodeImpl::ForceSuccess(n) => n.tick(&mut self.data, &mut self.children, bb),
            NodeImpl::Inverter(n) => n.tick(&mut self.data, &mut self.children, bb),
            NodeImpl::KeepRunningUntilFailure(n) => n.tick(&mut self.data, &mut self.children, bb),
            NodeImpl::Repeat(n) => n.tick(&mut self.data, &mut self.children, bb),
            NodeImpl::Retry(n) => n.tick(&mut self.data, &mut self.children, bb),
            NodeImpl::RunOnce(n) => n.tick(&mut self.data, &mut self.children, bb),
            NodeImpl::SubTree(n) => n.tick(&mut self.data, &mut self.children, bb),
        };
        proof {
            lemma_same_shape(*self, pre);
        }
        match status {
            Ok(s) => {
                if s != NodeStatus::Skipped {
                    self.data.status = s;
                }
                self.last = Ghost(Some(s));
                self.fault = Ghost(false);
                self.ticks = Ghost(self.ticks@ + 1);
                Ok(s)
            },
            Err(e) => {
                self.fault = Ghost(true);
                Err(e)
            },
        }
    }

    /// Halts the node. A leaf or decorator that halts without error is
    /// `Idle` afterwards; a control node is left to its own halting.
    pub fn halt(&mut self, bb: &mut Blackboard) -> (r: Result<(), NodeError>)
        requires
            old(self).wf(),
        ensures
            final(self).shape() == old(self).shape(),
            final(self).last_tick() == old(self).last_tick(),
            final(self).ticks == old(self).ticks,
            final(self).node.is_control() == old(self).node.is_control(),
            r is Ok && !old(self).node.is_control() ==> final(self).data.status == NodeStatus::Idle,
            final(self).fault@ == (r is Err),
            r is Err ==> old(self).node.is_leaf() || child_faulted(final(self).children@),
        decreases old(self).shape(), 9nat,
    {
        let ghost pre = *self;
        proof {
            lemma_wf_children(*self);
            assert(decreases_to!(self.shape() => self.shape()->Node_1));
        }
        let decorated = match &mut self.node {
            NodeImpl::SyncAction(a) => {
                match SyncActionNode::halt(a, &mut self.data, bb) {
                    Ok(_) => {},
                    Err(e) => {
                        self.fault = Ghost(true);
                        return Err(e);
                    },
                }
                self.data.status = NodeStatus::Idle;
                self.fault = Ghost(false);
                return Ok(());
            },
            NodeImpl::StatefulAction(a) => {
                match a.on_halted(&mut self.data, bb) {
                    Ok(_) => {},
                    Err(e) => {
                        self.fault = Ghost(true);
                        return Err(e);
                    },
                }
                self.data.status = NodeStatus::Idle;
                self.fault = Ghost(false);
                return Ok(());
            },
            NodeImpl::Condition(_) => {
                self.data.status = NodeStatus::Idle;
                self.fault = Ghost(false);
                return Ok(());
            },
            NodeImpl::Sequence(n) => {
                let h = n.halt(&mut self.data, &mut self.children, bb);
                self.fault = Ghost(h is Err);
                return h;
            },
            NodeImpl::ReactiveSequence(n) => {
                let h = n.halt(&mut self.data, &mut self.children, bb);
                self.fault = Ghost(h is Err);
                return h;
            },
            NodeImpl::SequenceStar(n) => {
                let h = n.halt(&mut self.data, &mut self.children, bb);
                self.fault = Ghost(h is Err);
                return h;
            },
            NodeImpl::Parallel(n) => {
                let h = n.halt(&mut self.data, &mut self.children, bb);
                self.fault = Ghost(h is Err);
                return h;
            },
            NodeImpl::ParallelAll(n) => {
                let h = n.halt(&mut self.data, &mut self.children, bb);
                self.fault = Ghost(h is Err);
                return h;
            },
            NodeImpl::Fallback(n) => {
                let h = n.halt(&mut self.data, &mut self.children, bb);
                self.fault = Ghost(h is Err);
                return h;
            },
            NodeImpl::ReactiveFallback(n) => {
                let h = n.halt(&mut self.data, &mut self.children, bb);
                self.fault = Ghost(h is Err);
                return h;
            },
            NodeImpl::IfThenElse(n) => {
                let h = n.halt(&mut self.data, &mut self.children, bb);
                self.fault = Ghost(h is Err);
                return h;
            },
            NodeImpl::WhileDoElse(n) => {
                let h = n.halt(&mut self.data, &mut self.children, bb);
                self.fault = Ghost(h is Err);
                return h;
            },
            NodeImpl::ForceFailure(n) => n.halt(&mut self.data, &mut self.children, bb),
            NodeImpl::ForceSuccess(n) => n.halt(&mut self.data, &mut self.children, bb),
            NodeImpl::Inverter(n) => n.halt(&mut self.data, &mut self.children, bb),
            NodeImpl::KeepRunningUntilFailure(n) => n.halt(&mut self.data, &mut self.children, bb),
            NodeImpl::Repeat(n) => n.halt(&mut self.data, &mut self.children, bb),
            NodeImpl::Retry(n) => n.halt(&mut self.data, &mut self.children, bb),
            NodeImpl::RunOnce(n) => n.halt(&mut self.data, &mut self.children, bb),
            NodeImpl::SubTree(n) => n.halt(&mut self.data, &mut self.children, bb),
        };
        match decorated {
            Ok(_) => {},
            Err(e) => {
                self.fault = Ghost(true);
                return Err(e);
            },
        }
        match decorator::reset_child(&mut self.children, bb) {
            Ok(_) => {},
            Err(e) => {
                self.fault = Ghost(true);
                return Err(e);
            },
        }
        self.data.status = NodeStatus::Idle;
        self.fault = Ghost(false);
        Ok(())
    }
}

} // verus!
