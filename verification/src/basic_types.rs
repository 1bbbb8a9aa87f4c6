use vstd::prelude::*;
use vstd::string::*;

use crate::strmap::StrMap;
use crate::text::{spec_strip_bb_pointer, str_eq, strip_bb_pointer, to_owned_string};
use crate::value::{Value, ValueKind, ValueModel};

verus! {

/// Specifies all types of nodes that can be used in a behavior tree.
#[derive(Debug, Clone, Copy, PartialEq, Eq, Structural)]
pub enum NodeType {
    /// Leaf node that executes an action
    Action,
    /// Leaf node that checks a condition
    Condition,
    /// Node with multiple children that executes them in some way.
    Control,
    /// Node with one child that modifies the execution or result of the node.
    Decorator,
    /// Leaf node that is a reference to another BehaviorTree.
    SubTree,
}

/// Specifies the status of a node's execution.
#[derive(Debug, Clone, Copy, PartialEq, Eq, Structural)]
pub enum NodeStatus {
    Idle,
    Running,
    Success,
    Failure,
    Skipped,
}

impl NodeStatus {
    /// Whether the status is `Idle` or `Skipped`.
    pub open spec fn spec_is_active(self) -> bool {
        self == NodeStatus::Idle || self == NodeStatus::Skipped
    }

    /// Whether the status is `Success` or `Failure`.
    pub open spec fn spec_is_completed(self) -> bool {
        self == NodeStatus::Success || self == NodeStatus::Failure
    }

    /// Whether the status is `Idle` or `Skipped`.
    pub fn is_active(&self) -> (r: bool)
        ensures
            r == self.spec_is_active(),
    {
        matches!(self, NodeStatus::Idle | NodeStatus::Skipped)
    }

    /// Whether the status is `Success` or `Failure`.
    pub fn is_completed(&self) -> (r: bool)
        ensures
            r == self.spec_is_completed(),
    {
        matches!(self, NodeStatus::Success | NodeStatus::Failure)
    }

    /// The name of the status, as it is displayed.
    pub fn as_str(&self) -> (r: &'static str)
        ensures
            r@ == status_text(*self),
    {
        match self {
            NodeStatus::Idle => "IDLE",
            NodeStatus::Running => "RUNNING",
            NodeStatus::Success => "SUCCESS",
            NodeStatus::Failure => "FAILURE",
            NodeStatus::Skipped => "SKIPPED",
        }
    }
}

/// The text that a status is displayed as.
pub open spec fn status_text(s: NodeStatus) -> Seq<char> {
    match s {
        NodeStatus::Idle => "IDLE"@,
        NodeStatus::Running => "RUNNING"@,
        NodeStatus::Success => "SUCCESS"@,
        NodeStatus::Failure => "FAILURE"@,
        NodeStatus::Skipped => "SKIPPED"@,
    }
}


/// The escape sequence that starts the colour a status is shown in.
pub open spec fn status_color(s: NodeStatus) -> Seq<char> {
    match s {
        NodeStatus::Idle => "\x1b[36m"@,
        NodeStatus::Running => "\x1b[33m"@,
        NodeStatus::Success => "\x1b[32m"@,
        NodeStatus::Failure => "\x1b[31m"@,
        NodeStatus::Skipped => "\x1b[34m"@,
    }
}

/// The status named by `s`, in upper case or capitalised.
pub open spec fn spec_status_from_str(s: Seq<char>) -> Option<NodeStatus> {
    if s == "IDLE"@ || s == "Idle"@ {
        Some(NodeStatus::Idle)
    } else if s == "RUNNING"@ || s == "Running"@ {
        Some(NodeStatus::Running)
    } else if s == "SUCCESS"@ || s == "Success"@ {
        Some(NodeStatus::Success)
    } else if s == "FAILURE"@ || s == "Failure"@ {
        Some(NodeStatus::Failure)
    } else if s == "SKIPPED"@ || s == "Skipped"@ {
        Some(NodeStatus::Skipped)
    } else {
        None
    }
}

impl NodeStatus {
    /// The status wrapped in the terminal colour codes used to show it.
    pub fn to_colorized_string(&self) -> (r: String)
        ensures
            r@ == status_color(*self) + status_text(*self) + "\x1b[0m"@,
    {
        let color_start = match self {
            NodeStatus::Idle => "\x1b[36m",
            NodeStatus::Running => "\x1b[33m",
            NodeStatus::Success => "\x1b[32m",
            NodeStatus::Failure => "\x1b[31m",
            NodeStatus::Skipped => "\x1b[34m",
        };
        let mut s = String::from_str(color_start);
        s.append(self.as_str());
        s.append("\x1b[0m");
        s
    }

    /// Parses a status from its upper-case or capitalised name.
    pub fn from_str(value: &str) -> (r: Result<NodeStatus, ParseNodeStatusError>)
        ensures
            match spec_status_from_str(value@) {
                Some(s) => r == Ok::<NodeStatus, ParseNodeStatusError>(s),
                None => r == Err::<NodeStatus, ParseNodeStatusError>(ParseNodeStatusError::NoMatch),
            },
    {
        if str_eq(value, "IDLE") || str_eq(value, "Idle") {
            Ok(NodeStatus::Idle)
        } else if str_eq(value, "RUNNING") || str_eq(value, "Running") {
            Ok(NodeStatus::Running)
        } else if str_eq(value, "SUCCESS") || str_eq(value, "Success") {
            Ok(NodeStatus::Success)
        } else if str_eq(value, "FAILURE") || str_eq(value, "Failure") {
            Ok(NodeStatus::Failure)
        } else if str_eq(value, "SKIPPED") || str_eq(value, "Skipped") {
            Ok(NodeStatus::Skipped)
        } else {
            Err(ParseNodeStatusError::NoMatch)
        }
    }
}

/// The text that a node type is displayed as.
pub open spec fn node_type_text(t: NodeType) -> Seq<char> {
    match t {
        NodeType::Action => "Action"@,
        NodeType::Condition => "Condition"@,
        NodeType::Control => "Control"@,
        NodeType::Decorator => "Decorator"@,
        NodeType::SubTree => "SubTree"@,
    }
}

/// The node type named by `s`.
pub open spec fn spec_node_type_from_str(s: Seq<char>) -> Option<NodeType> {
    if s == "Action"@ {
        Some(NodeType::Action)
    } else if s == "Condition"@ {
        Some(NodeType::Condition)
    } else if s == "Control"@ {
        Some(NodeType::Control)
    } else if s == "Decorator"@ {
        Some(NodeType::Decorator)
    } else if s == "SubTree"@ {
        Some(NodeType::SubTree)
    } else {
        None
    }
}

impl NodeType {
    /// The name of the node type, as it is displayed.
    pub fn as_str(&self) -> (r: &'static str)
        ensures
            r@ == node_type_text(*self),
    {
        match self {
            NodeType::Action => "Action",
            NodeType::Condition => "Condition",
            NodeType::Control => "Control",
            NodeType::Decorator => "Decorator",
            NodeType::SubTree => "SubTree",
        }
    }

    /// Parses a node type from its name.
    pub fn from_str(value: &str) -> (r: Result<NodeType, ParseNodeTypeError>)
        ensures
            match spec_node_type_from_str(value@) {
                Some(t) => r == Ok::<NodeType, ParseNodeTypeError>(t),
                None => r == Err::<NodeType, ParseNodeTypeError>(ParseNodeTypeError::NoMatch),
            },
    {
        if str_eq(value, "Action") {
            Ok(NodeType::Action)
        } else if str_eq(value, "Condition") {
            Ok(NodeType::Condition)
        } else if str_eq(value, "Control") {
            Ok(NodeType::Control)
        } else if str_eq(value, "Decorator") {
            Ok(NodeType::Decorator)
        } else if str_eq(value, "SubTree") {
            Ok(NodeType::SubTree)
        } else {
            Err(ParseNodeTypeError::NoMatch)
        }
    }
}

/// A string didn't match any `NodeStatus` values.
#[derive(Debug, Clone, Copy, PartialEq, Eq, Structural)]
pub enum ParseNodeStatusError {
    NoMatch,
}

/// A string didn't match any `NodeType` values.
#[derive(Debug, Clone, Copy, PartialEq, Eq, Structural)]
pub enum ParseNodeTypeError {
    NoMatch,
}

/// A string didn't match any `PortDirection` values.
#[derive(Debug, Clone, Copy, PartialEq, Eq, Structural)]
pub enum ParsePortDirectionError {
    NoMatch,
}

/// The direction of a node port.
#[derive(Debug, Clone, Copy, PartialEq, Eq, Structural)]
pub enum PortDirection {
    Input,
    Output,
    InOut,
}

/// The text that a port direction is displayed as.
pub open spec fn port_direction_text(d: PortDirection) -> Seq<char> {
    match d {
        PortDirection::Input => "Input"@,
        PortDirection::Output => "Output"@,
        PortDirection::InOut => "InOut"@,
    }
}

/// The port direction named by `s`.
pub open spec fn spec_port_direction_from_str(s: Seq<char>) -> Option<PortDirection> {
    if s == "Input"@ || s == "INPUT"@ {
        Some(PortDirection::Input)
    } else if s == "Output"@ || s == "OUTPUT"@ {
        Some(PortDirection::Output)
    } else if s == "InOut"@ || s == "INOUT"@ {
        Some(PortDirection::InOut)
    } else {
        None
    }
}

impl PortDirection {
    /// The name of the direction, as it is displayed.
    pub fn as_str(&self) -> (r: &'static str)
        ensures
            r@ == port_direction_text(*self),
    {
        match self {
            PortDirection::Input => "Input",
            PortDirection::Output => "Output",
            PortDirection::InOut => "InOut",
        }
    }

    /// Parses a port direction from its name.
    pub fn from_str(value: &str) -> (r: Result<PortDirection, ParsePortDirectionError>)
        ensures
            match spec_port_direction_from_str(value@) {
                Some(d) => r == Ok::<PortDirection, ParsePortDirectionError>(d),
                None => r == Err::<PortDirection, ParsePortDirectionError>(
                    ParsePortDirectionError::NoMatch,
                ),
            },
    {
        if str_eq(value, "Input") || str_eq(value, "INPUT") {
            Ok(PortDirection::Input)
        } else if str_eq(value, "Output") || str_eq(value, "OUTPUT") {
            Ok(PortDirection::Output)
        } else if str_eq(value, "InOut") || str_eq(value, "INOUT") {
            Ok(PortDirection::InOut)
        } else {
            Err(ParsePortDirectionError::NoMatch)
        }
    }
}

// ===========================
// Ports
// ===========================

/// Metadata about a node port.
#[derive(Debug)]
pub struct PortInfo {
    name: String,
    /// Direction category for the port
    direction: PortDirection,
    /// The type that values of the port are read as
    kind: ValueKind,
    /// Optional description of the port
    description: String,
    default_value: Option<Value>,
    /// When `true`, the port value is checked as an expression when the tree
    /// is loaded.
    parse_expr: bool,
}

/// Builder for a [`PortInfo`].
pub struct PortInfoBuilder {
    name: String,
    direction: PortDirection,
    description: Option<String>,
    default_value: Option<Value>,
    parse_expr: bool,
    kind: ValueKind,
}

impl PortInfoBuilder {
    pub closed spec fn spec_name(&self) -> Seq<char> {
        self.name@
    }

    pub closed spec fn spec_direction(&self) -> PortDirection {
        self.direction
    }

    pub closed spec fn spec_kind(&self) -> ValueKind {
        self.kind
    }

    pub closed spec fn spec_description(&self) -> Option<Seq<char>> {
        match self.description {
            Some(d) => Some(d@),
            None => None,
        }
    }

    pub closed spec fn spec_default(&self) -> Option<Value> {
        self.default_value
    }

    pub closed spec fn spec_parse_expr(&self) -> bool {
        self.parse_expr
    }

    /// Finishes the port; a missing description becomes the empty string.
    pub fn build(self) -> (r: PortInfo)
        ensures
            r.spec_name() == self.spec_name(),
            r.spec_direction() == self.spec_direction(),
            r.spec_kind() == self.spec_kind(),
            r.spec_description() == (match self.spec_description() {
                Some(d) => d,
                None => Seq::empty(),
            }),
            r.spec_default() == self.spec_default(),
            r.spec_parse_expr() == self.spec_parse_expr(),
    {
        let description = match self.description {
            Some(d) => d,
            None => String::new(),
        };
        PortInfo {
            name: self.name,
            direction: self.direction,
            kind: self.kind,
            description,
            default_value: self.default_value,
            parse_expr: self.parse_expr,
        }
    }

    /// Sets the description of the port.
    pub fn description(self, description: &str) -> (r: Self)
        ensures
            r.spec_name() == self.spec_name(),
            r.spec_direction() == self.spec_direction(),
            r.spec_kind() == self.spec_kind(),
            r.spec_description() == Some(description@),
            r.spec_default() == self.spec_default(),
            r.spec_parse_expr() == self.spec_parse_expr(),
    {
        PortInfoBuilder { description: Some(to_owned_string(description)), ..self }
    }

    /// Sets the default value of the port.
    pub fn default_value(self, value: Value) -> (r: Self)
        ensures
            r.spec_name() == self.spec_name(),
            r.spec_direction() == self.spec_direction(),
            r.spec_kind() == self.spec_kind(),
            r.spec_description() == self.spec_description(),
            r.spec_default() == Some(value),
            r.spec_parse_expr() == self.spec_parse_expr(),
    {
        PortInfoBuilder { default_value: Some(value), ..self }
    }

    /// Asks for the port value to be checked as an expression when the tree
    /// is loaded.
    pub fn parse_expr(self) -> (r: Self)
        ensures
            r.spec_name() == self.spec_name(),
            r.spec_direction() == self.spec_direction(),
            r.spec_kind() == self.spec_kind(),
            r.spec_description() == self.spec_description(),
            r.spec_default() == self.spec_default(),
            r.spec_parse_expr(),
    {
        PortInfoBuilder { parse_expr: true, ..self }
    }
}

impl PortInfo {
    pub closed spec fn spec_name(&self) -> Seq<char> {
        self.name@
    }

    pub closed spec fn spec_direction(&self) -> PortDirection {
        self.direction
    }

    pub closed spec fn spec_kind(&self) -> ValueKind {
        self.kind
    }

    pub closed spec fn spec_description(&self) -> Seq<char> {
        self.description@
    }

    pub closed spec fn spec_default(&self) -> Option<Value> {
        self.default_value
    }

    pub closed spec fn spec_parse_expr(&self) -> bool {
        self.parse_expr
    }

    /// Starts a builder for an input port whose values are read as `kind`.
    pub fn input(name: &str, kind: ValueKind) -> (r: PortInfoBuilder)
        ensures
            r.spec_name() == name@,
            r.spec_direction() == PortDirection::Input,
            r.spec_kind() == kind,
            r.spec_description() is None,
            r.spec_default() is None,
            !r.spec_parse_expr(),
    {
        PortInfoBuilder {
            name: to_owned_string(name),
            direction: PortDirection::Input,
            description: None,
            default_value: None,
            parse_expr: false,
            kind,
        }
    }

    /// Starts a builder for an output port, whose values are strings.
    pub fn output(name: &str) -> (r: PortInfoBuilder)
        ensures
            r.spec_name() == name@,
            r.spec_direction() == PortDirection::Output,
            r.spec_kind() == ValueKind::String,
            r.spec_description() is None,
            r.spec_default() is None,
            !r.spec_parse_expr(),
    {
        PortInfoBuilder {
            name: to_owned_string(name),
            direction: PortDirection::Output,
            description: None,
            default_value: None,
            parse_expr: false,
            kind: ValueKind::String,
        }
    }

    /// The name of the port.
    pub fn name(&self) -> (r: &String)
        ensures
            r@ == self.spec_name(),
    {
        &self.name
    }

    /// The description of the port.
    pub fn description(&self) -> (r: &String)
        ensures
            r@ == self.spec_description(),
    {
        &self.description
    }

    /// The type that values of the port are read as.
    pub fn kind(&self) -> (r: ValueKind)
        ensures
            r == self.spec_kind(),
    {
        self.kind
    }

    /// Whether the port has a default value.
    pub fn has_default(&self) -> (r: bool)
        ensures
            r == self.spec_default() is Some,
    {
        self.default_value.is_some()
    }

    /// The default value, if there is one and the port's type is `kind`.
    pub fn default_value(&self, kind: ValueKind) -> (r: Option<&Value>)
        ensures
            r == (if kind != self.spec_kind() {
                None
            } else {
                match self.spec_default() {
                    Some(v) => Some(&v),
                    None => None,
                }
            }),
    {
        if kind != self.kind {
            None
        } else {
            match &self.default_value {
                Some(v) => Some(v),
                None => None,
            }
        }
    }

    /// Whether the port value is checked as an expression when loading.
    pub fn parse_expr(&self) -> (r: bool)
        ensures
            r == self.spec_parse_expr(),
    {
        self.parse_expr
    }

    /// The direction of the port.
    pub fn direction(&self) -> (r: PortDirection)
        ensures
            r == self.spec_direction(),
    {
        self.direction
    }

    /// Equality of ports; the default values are not compared.
    pub open spec fn spec_eq(&self, other: &PortInfo) -> bool {
        &&& self.spec_name() == other.spec_name()
        &&& self.spec_direction() == other.spec_direction()
        &&& self.spec_kind() == other.spec_kind()
        &&& self.spec_description() == other.spec_description()
        &&& self.spec_parse_expr() == other.spec_parse_expr()
    }

    /// Equality of ports; the default values are not compared.
    pub fn eq(&self, other: &PortInfo) -> (r: bool)
        ensures
            r == self.spec_eq(other),
    {
        str_eq(self.name.as_str(), other.name.as_str()) && self.direction == other.direction
            && self.kind == other.kind && str_eq(
            self.description.as_str(),
            other.description.as_str(),
        ) && self.parse_expr == other.parse_expr
    }
}

/// The ports of a node, by name.
#[derive(Debug)]
pub struct PortsList(StrMap<PortInfo>);

impl PortsList {
    /// The ports by name.
    pub closed spec fn map(&self) -> Map<Seq<char>, PortInfo> {
        self.0.map()
    }

    /// An empty list.
    pub fn new() -> (r: PortsList)
        ensures
            r.map() == Map::<Seq<char>, PortInfo>::empty(),
    {
        PortsList(StrMap::new())
    }

    /// The list of the given ports, keyed by their names; a later port
    /// replaces an earlier one of the same name.
    pub fn from(ports: Vec<PortInfo>) -> (r: PortsList)
        ensures
            r.map() == ports_map(ports@),
    {
        let mut ports = ports;
        let ghost all = ports@;
        let mut list = PortsList::new();
        let ghost mut done: nat = 0;
        while ports.len() > 0
            invariant
                done + ports@.len() == all.len(),
                ports@ == all.subrange(done as int, all.len() as int),
                list.map() == ports_map(all.subrange(0, done as int)),
            decreases ports@.len(),
        {
            let p = ports.remove(0);
            proof {
                let t = all.subrange(0, done + 1 as int);
                assert(t.drop_last() =~= all.subrange(0, done as int));
                assert(t.last() == p);
                done = done + 1;
            }
            let name = p.name.clone();
            list.insert(name, p);
            assert(ports@ =~= all.subrange(done as int, all.len() as int));
        }
        assert(all.subrange(0, done as int) =~= all);
        list
    }

    /// The port named `name`.
    pub fn get(&self, name: &str) -> (r: Option<&PortInfo>)
        ensures
            match r {
                Some(p) => self.map().contains_key(name@) && *p == self.map()[name@],
                None => !self.map().contains_key(name@),
            },
    {
        self.0.get(name)
    }

    /// Whether there is a port named `name`.
    pub fn contains_key(&self, name: &str) -> (r: bool)
        ensures
            r == self.map().contains_key(name@),
    {
        self.0.contains_key(name)
    }

    /// Adds a port under `name`, replacing one of the same name.
    pub fn insert(&mut self, name: String, port: PortInfo)
        ensures
            final(self).map() == old(self).map().insert(name@, port),
    {
        self.0.insert(name, port)
    }

    /// The number of ports.
    pub fn len(&self) -> (r: usize)
        ensures
            r == self.entries().len(),
    {
        self.0.len()
    }

    /// The name of the port at position `i`.
    pub fn key_at(&self, i: usize) -> (r: &String)
        requires
            i < self.entries().len(),
        ensures
            *r == self.entries()[i as int].0,
    {
        self.0.key_at(i)
    }

    /// The port at position `i`.
    pub fn value_at(&self, i: usize) -> (r: &PortInfo)
        requires
            i < self.entries().len(),
        ensures
            *r == self.entries()[i as int].1,
    {
        self.0.value_at(i)
    }

    /// The entries in the order they were added.
    pub closed spec fn entries(&self) -> Seq<(String, PortInfo)> {
        self.0.entries()
    }

    /// The name of each entry is a port of the list, and each port is
    /// named by an entry.
    pub proof fn lemma_keys(&self)
        ensures
            forall|j: int| 0 <= j < self.entries().len() ==> self.map().contains_key(#[trigger] self.entries()[j].0@),
            forall|k: Seq<char>| #[trigger] self.map().contains_key(k) ==> exists|j: int| 0 <= j < self.entries().len()
                && (#[trigger] self.entries()[j]).0@ == k,
    {
        assert forall|j: int| 0 <= j < self.entries().len() implies self.map().contains_key(#[trigger] self.entries()[j].0@) by {
            crate::strmap::lemma_entry_key_in_map(self.0.entries(), j);
        }
        assert forall|k: Seq<char>| #[trigger] self.map().contains_key(k) implies exists|j: int| 0 <= j < self.entries().len()
            && (#[trigger] self.entries()[j]).0@ == k by {
            crate::strmap::lemma_map_key_has_entry(self.0.entries(), k);
            let j = choose|j: int| 0 <= j < self.0.entries().len() && (#[trigger] self.0.entries()[j]).0@ == k;
            assert(self.entries()[j].0@ == k);
        }
    }

    /// The names of all ports, in the order they were added.
    pub fn keys(&self) -> (r: Vec<String>)
        ensures
            r@.len() == self.entries().len(),
            forall|i: int| 0 <= i < r@.len() ==> #[trigger] r@[i] == self.entries()[i].0,
    {
        let mut out: Vec<String> = Vec::new();
        let mut i: usize = 0;
        while i < self.0.len()
            invariant
                i <= self.entries().len(),
                out@.len() == i,
                forall|j: int| 0 <= j < i ==> #[trigger] out@[j] == self.entries()[j].0,
            decreases self.entries().len() - i,
        {
            out.push(self.0.key_at(i).clone());
            i = i + 1;
        }
        out
    }
}

/// The map that a sequence of ports denotes, keyed by name; a later port
/// replaces an earlier one of the same name.
pub open spec fn ports_map(s: Seq<PortInfo>) -> Map<Seq<char>, PortInfo>
    decreases s.len(),
{
    if s.len() == 0 {
        Map::empty()
    } else {
        ports_map(s.drop_last()).insert(s.last().spec_name(), s.last())
    }
}

/// Data pertaining to the node at the time of instantiation during parsing.
#[derive(Debug)]
pub struct TreeNodeManifest {
    pub node_type: NodeType,
    pub registration_id: String,
    pub ports: PortsList,
    pub description: String,
}

impl TreeNodeManifest {
    pub fn new(node_type: NodeType, registration_id: String, ports: PortsList, description: String) -> (r: TreeNodeManifest)
        ensures
            r.node_type == node_type,
            r.registration_id == registration_id,
            r.ports == ports,
            r.description == description,
    {
        TreeNodeManifest { node_type, registration_id, ports, description }
    }
}

pub open spec fn is_ascii_alphabetic(c: char) -> bool {
    ('a' <= c && c <= 'z') || ('A' <= c && c <= 'Z')
}

/// Whether `name` may name a node port: `_autoremap`, or a name that starts
/// with an ASCII letter and is neither `name` nor `ID`.
pub open spec fn spec_is_allowed_port_name(name: Seq<char>) -> bool {
    if name.len() == 0 {
        false
    } else if name == "_autoremap"@ {
        true
    } else if !is_ascii_alphabetic(name[0]) {
        false
    } else {
        !(name == "name"@ || name == "ID"@)
    }
}

/// Returns whether `name` is a valid node port identifier.
pub fn is_allowed_port_name(name: &str) -> (r: bool)
    ensures
        r == spec_is_allowed_port_name(name@),
{
    if name.unicode_len() == 0 {
        false
    } else if str_eq(name, "_autoremap") {
        true
    } else {
        let c = name.get_char(0);
        if !(('a' <= c && c <= 'z') || ('A' <= c && c <= 'Z')) {
            false
        } else {
            !(str_eq(name, "name") || str_eq(name, "ID"))
        }
    }
}

/// The blackboard key that a port value refers to: the port's own name for
/// `"="` or `"{=}"`, the text between the braces for any other blackboard
/// pointer, and none for a plain value.
pub open spec fn spec_remapped_key(port_name: Seq<char>, remapped_port: Seq<char>) -> Option<Seq<char>> {
    if remapped_port == "="@ || remapped_port == "{=}"@ {
        Some(port_name)
    } else {
        spec_strip_bb_pointer(remapped_port)
    }
}

/// A port whose value is `{key}` reads the blackboard entry `key`; `=` and
/// `{=}` read the entry named like the port; any other value is a literal.
pub proof fn lemma_remapped_key_forms(port_name: Seq<char>, key: Seq<char>, literal: Seq<char>)
    requires
        key != "="@,
        literal != "="@,
        !(literal.len() >= 2 && literal[0] == '{' && literal[literal.len() - 1] == '}'),
    ensures
        spec_remapped_key(port_name, seq!['{'] + key + seq!['}']) == Some(key),
        spec_remapped_key(port_name, "="@) == Some(port_name),
        spec_remapped_key(port_name, "{=}"@) == Some(port_name),
        spec_remapped_key(port_name, literal) is None,
{
    reveal_strlit("=");
    reveal_strlit("{=}");
    let p = seq!['{'] + key + seq!['}'];
    assert(p.subrange(1, p.len() - 1) =~= key);
    if p == "{=}"@ {
        assert(key =~= p.subrange(1, p.len() - 1));
        assert(key =~= "="@);
    }
    if p == "="@ {
        assert(p.len() == 1);
    }
}

/// Remaps a blackboard key.
pub fn get_remapped_key(port_name: &str, remapped_port: &str) -> (r: Option<String>)
    ensures
        match r {
            Some(k) => spec_remapped_key(port_name@, remapped_port@) == Some(k@),
            None => spec_remapped_key(port_name@, remapped_port@) is None,
        },
{
    if str_eq(remapped_port, "=") || str_eq(remapped_port, "{=}") {
        Some(to_owned_string(port_name))
    } else {
        match strip_bb_pointer(remapped_port) {
            Some(k) => Some(to_owned_string(k)),
            None => None,
        }
    }
}

/// Reading the text that a status is displayed as gives the status back.
pub proof fn lemma_status_text_round_trip(s: NodeStatus)
    ensures
        spec_status_from_str(status_text(s)) == Some(s),
{
    reveal_strlit("IDLE");
    reveal_strlit("Idle");
    reveal_strlit("RUNNING");
    reveal_strlit("Running");
    reveal_strlit("SUCCESS");
    reveal_strlit("Success");
    reveal_strlit("FAILURE");
    reveal_strlit("Failure");
    reveal_strlit("SKIPPED");
    reveal_strlit("Skipped");
    assert("SUCCESS"@[0] != "RUNNING"@[0] && "SUCCESS"@[0] != "Running"@[0]);
    assert("FAILURE"@[0] != "RUNNING"@[0] && "FAILURE"@[0] != "Running"@[0]);
    assert("FAILURE"@[0] != "SUCCESS"@[0] && "FAILURE"@[0] != "Success"@[0]);
    assert("SKIPPED"@[0] != "RUNNING"@[0] && "SKIPPED"@[0] != "Running"@[0]);
    assert("SKIPPED"@[1] != "SUCCESS"@[1] && "SKIPPED"@[1] != "Success"@[1]);
    assert("SKIPPED"@[0] != "FAILURE"@[0] && "SKIPPED"@[0] != "Failure"@[0]);
}

/// Reading the text that a node type is displayed as gives the type back.
pub proof fn lemma_node_type_text_round_trip(t: NodeType)
    ensures
        spec_node_type_from_str(node_type_text(t)) == Some(t),
{
    reveal_strlit("Action");
    reveal_strlit("Condition");
    reveal_strlit("Control");
    reveal_strlit("Decorator");
    reveal_strlit("SubTree");
    assert("Action"@.len() == 6 && "Condition"@.len() == 9 && "Control"@.len() == 7);
    assert("Decorator"@.len() == 9 && "SubTree"@.len() == 7);
    assert("Condition"@[0] != "Action"@[0]);
    assert("Control"@[0] != "Action"@[0] && "Control"@[3] != "Condition"@[3]);
    assert("Decorator"@[0] != "Action"@[0] && "Decorator"@[0] != "Condition"@[0] && "Decorator"@[0] != "Control"@[0]);
    assert("SubTree"@[0] != "Action"@[0] && "SubTree"@[0] != "Condition"@[0] && "SubTree"@[0] != "Control"@[0]);
}

/// Reading the text that a port direction is displayed as gives the
/// direction back.
pub proof fn lemma_port_direction_text_round_trip(d: PortDirection)
    ensures
        spec_port_direction_from_str(port_direction_text(d)) == Some(d),
{
    reveal_strlit("Input");
    reveal_strlit("INPUT");
    reveal_strlit("Output");
    reveal_strlit("OUTPUT");
    reveal_strlit("InOut");
    reveal_strlit("INOUT");
    assert("InOut"@[2] != "Input"@[2] && "InOut"@[1] != "INPUT"@[1]);
}

/// Whether `p` is an input port read as `kind`, with `default` as its
/// default value.
pub open spec fn is_input_port(p: PortInfo, name: Seq<char>, kind: ValueKind, default: Option<ValueModel>) -> bool {
    &&& p.spec_name() == name
    &&& p.spec_direction() == PortDirection::Input
    &&& p.spec_kind() == kind
    &&& match (p.spec_default(), default) {
        (Some(v), Some(m)) => v@ == m,
        (None, None) => true,
        _ => false,
    }
}

} // verus!
