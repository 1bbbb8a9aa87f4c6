//! Building a tree from the events of its XML description.

use vstd::prelude::*;

use crate::basic_types::{
    is_allowed_port_name, spec_is_allowed_port_name, spec_remapped_key, NodeStatus, NodeType, PortDirection, PortInfo, PortsList,
    TreeNodeManifest,
};
use crate::blackboard::{spec_parse_as, Blackboard, Resolution};
use crate::error::ParseError;
use crate::node_registry::{
    builtin_node_named, builtin_port_names, builtin_type, declared_builtin_ports, fresh_builtin, node_ports, NodeRegistry,
};
use crate::nodes::condition::{
    compile_expression, expression_error, expression_variable_names, expression_variables, is_variable_type,
    spec_is_variable_type, spec_split_colon, split_colon,
};
use crate::nodes::decorator::SubTreeNode;
use crate::nodes::{
    children_wf, lemma_push_wf, lemma_wf_node, InputError, NodeDataGeneric, NodeImpl, NodeMetadata,
    StatefulActionNode, SyncActionNode, TreeNode,
};
use crate::strmap::{keys_distinct, lemma_distinct_keys_len, StrMap};
use crate::text::{
    concat, nat_decimal, parse_bool, spec_strip_bb_pointer, str_eq, strip_bb_pointer, to_owned_string, u64_to_string,
};
use crate::value::{Value, ValueKind, ValueModel};
use crate::xml::{XmlEvent, XmlTag};

verus! {

/// What reading the next element of a tree gives.
pub enum CreateNodeControl<A> {
    /// A node, with its subtree
    Node(TreeNode<A>),
    /// Nothing (a comment)
    Continue,
    /// The end tag of the enclosing element
    End,
}

/// The value of the first attribute named `key` among `attrs`, if any.
pub open spec fn attr_value(attrs: Seq<(String, String)>, key: Seq<char>) -> Option<Seq<char>>
    decreases attrs.len(),
{
    if attrs.len() == 0 {
        None
    } else if attrs[0].0@ == key {
        Some(attrs[0].1@)
    } else {
        attr_value(attrs.drop_first(), key)
    }
}

/// The value of attribute `key`, if the tag has it.
fn attribute<'a>(tag: &'a XmlTag, key: &str) -> (r: Option<&'a String>)
    ensures
        match r {
            Some(v) => exists|i: int| 0 <= i < tag.attributes@.len() && tag.attributes@[i].0@ == key@ && tag.attributes@[i].1 == *v,
            None => forall|i: int| 0 <= i < tag.attributes@.len() ==> tag.attributes@[i].0@ != key@,
        },
        match r {
            Some(v) => attr_value(tag.attributes@, key@) == Some(v@),
            None => attr_value(tag.attributes@, key@) is None,
        },
{
    let mut i: usize = 0;
    proof {
        assert(tag.attributes@.skip(0) =~= tag.attributes@);
    }
    while i < tag.attributes.len()
        invariant
            i <= tag.attributes@.len(),
            forall|j: int| 0 <= j < i ==> tag.attributes@[j].0@ != key@,
            attr_value(tag.attributes@, key@) == attr_value(tag.attributes@.skip(i as int), key@),
        decreases tag.attributes@.len() - i,
    {
        proof {
            assert(tag.attributes@.skip(i as int).drop_first() =~= tag.attributes@.skip(i + 1));
        }
        if str_eq(tag.attributes[i].0.as_str(), key) {
            return Some(&tag.attributes[i].1);
        }
        i = i + 1;
    }
    None
}

/// The port values that a node's attributes set: each attribute, in order,
/// sets the port of its name, in that port's direction.
pub open spec fn applied_ports(
    m: Map<Seq<char>, (PortDirection, String)>,
    attrs: Seq<(String, String)>,
    ports: Map<Seq<char>, PortInfo>,
) -> Map<Seq<char>, (PortDirection, String)>
    decreases attrs.len(),
{
    if attrs.len() == 0 {
        m
    } else {
        let last = attrs.last();
        applied_ports(m, attrs.drop_last(), ports).insert(last.0@, (ports[last.0@].spec_direction(), last.1))
    }
}

/// Each attribute of a tag with distinct keys gives its port the
/// attribute's value, in the port's own direction; a key that no attribute
/// names keeps what it had.
pub proof fn lemma_applied_ports(
    m: Map<Seq<char>, (PortDirection, String)>,
    attrs: Seq<(String, String)>,
    ports: Map<Seq<char>, PortInfo>,
    key: Seq<char>,
)
    requires
        forall|i: int, j: int| 0 <= i < j < attrs.len() ==> (#[trigger] attrs[i]).0@ != (#[trigger] attrs[j]).0@,
    ensures
        forall|i: int| 0 <= i < attrs.len() && (#[trigger] attrs[i]).0@ == key
            ==> applied_ports(m, attrs, ports).contains_key(key)
                && applied_ports(m, attrs, ports)[key] == (ports[key].spec_direction(), attrs[i].1),
        (forall|i: int| 0 <= i < attrs.len() ==> (#[trigger] attrs[i]).0@ != key)
            ==> applied_ports(m, attrs, ports).contains_key(key) == m.contains_key(key)
                && applied_ports(m, attrs, ports)[key] == m[key],
    decreases attrs.len(),
{
    if attrs.len() > 0 {
        let t = attrs.drop_last();
        assert forall|i: int, j: int| 0 <= i < j < t.len() implies (#[trigger] t[i]).0@ != (#[trigger] t[j]).0@ by {
            assert(t[i] == attrs[i] && t[j] == attrs[j]);
        }
        lemma_applied_ports(m, t, ports, key);
        assert forall|i: int| 0 <= i < attrs.len() && (#[trigger] attrs[i]).0@ == key
            implies applied_ports(m, attrs, ports).contains_key(key)
                && applied_ports(m, attrs, ports)[key] == (ports[key].spec_direction(), attrs[i].1) by {
            if i < attrs.len() - 1 {
                assert(t[i] == attrs[i]);
                assert(attrs[i].0@ != attrs[attrs.len() - 1].0@);
            }
        }
        if forall|i: int| 0 <= i < attrs.len() ==> (#[trigger] attrs[i]).0@ != key {
            assert(attrs[attrs.len() - 1].0@ != key);
            assert forall|i: int| 0 <= i < t.len() implies (#[trigger] t[i]).0@ != key by {
                assert(t[i] == attrs[i]);
            }
        }
    }
}

/// A node whose port values its tag's attributes set reads an input port
/// that an attribute sets to a plain value as that value, parsed as the
/// type asked for.
pub proof fn lemma_literal_attribute_read(
    data: NodeDataGeneric,
    attrs: Seq<(String, String)>,
    i: int,
    kind: ValueKind,
)
    requires
        forall|a: int, b: int| 0 <= a < b < attrs.len() ==> (#[trigger] attrs[a]).0@ != (#[trigger] attrs[b]).0@,
        0 <= i < attrs.len(),
        data.meta.port_values.map() == applied_ports(Map::empty(), attrs, data.meta.manifest.ports.map()),
        data.meta.manifest.ports.map().contains_key(attrs[i].0@),
        data.meta.manifest.ports.map()[attrs[i].0@].spec_direction() == PortDirection::Input,
        spec_remapped_key(attrs[i].0@, attrs[i].1@) is None,
    ensures
        data.spec_plain_input(attrs[i].0@, kind) == match spec_parse_as(attrs[i].1@, kind) {
            Some(v) => Some(Ok::<ValueModel, InputError>(v)),
            None => Some(Err::<ValueModel, InputError>(InputError::Unparsable)),
        },
{
    lemma_applied_ports(Map::empty(), attrs, data.meta.manifest.ports.map(), attrs[i].0@);
}

/// A node as parsing leaves it: not yet ticked, reading its ports in
/// blackboard scope `scope`, at a path that starts with `prefix`.
pub open spec fn fresh_under<A>(n: TreeNode<A>, prefix: Seq<char>, scope: usize) -> bool {
    &&& n.data.scope == scope
    &&& n.data.status == NodeStatus::Idle
    &&& n.last_tick() is None
    &&& prefix.is_prefix_of(n.data.meta.path@)
}

/// Whether a `<SubTree>` attribute sets auto-remapping to a value that is
/// neither `true` nor `false`.
pub open spec fn bad_autoremap(attr: (String, String)) -> bool {
    attr.0@ == "_autoremap"@ && attr.1@ != "true"@ && attr.1@ != "false"@
}

/// The path prefix of the nodes of a subtree whose `<SubTree>` tag has the
/// attributes `attrs` and the ID `id`, inside the tree named `tree_name`:
/// the tree's name and `/` (unless it is empty), then the tag's `name`, or
/// else its ID, `::` and the counter `uid`, and a final `/`.
pub open spec fn subtree_path_prefix(tree_name: Seq<char>, attrs: Seq<(String, String)>, id: Seq<char>, uid: u32) -> Seq<char> {
    let base = if tree_name.len() > 0 { tree_name + "/"@ } else { tree_name };
    let named = match attr_value(attrs, "name"@) {
        Some(name) => base + name,
        None => base + id + "::"@ + nat_decimal(uid as nat),
    };
    named + "/"@
}

/// Whether the attribute of a `<SubTree>` tag is a literal port value: a
/// port name other than `_autoremap` whose value is not a blackboard
/// pointer. Its value is written, as a string, into the subtree's scope.
pub open spec fn literal_port(attr: (String, String)) -> bool {
    &&& attr.0@ != "_autoremap"@
    &&& spec_is_allowed_port_name(attr.0@)
    &&& spec_strip_bb_pointer(attr.1@) is None
}

/// Whether a `<SubTree>` tag's attributes have distinct keys (as an XML tag
/// has) and none of them turns auto-remapping on.
pub open spec fn plain_subtree_attrs(attrs: Seq<(String, String)>) -> bool {
    &&& forall|i: int, j: int| 0 <= i < j < attrs.len() ==> (#[trigger] attrs[i]).0@ != (#[trigger] attrs[j]).0@
    &&& forall|i: int| 0 <= i < attrs.len() && (#[trigger] attrs[i]).0@ == "_autoremap"@ ==> attrs[i].1@ != "true"@
}

/// Whether every `<SubTree>` element of `tokens` has plain attributes; its
/// writes then stay in the scope it creates.
pub open spec fn plain_subtrees(tokens: Seq<XmlEvent>) -> bool {
    forall|k: int| 0 <= k < tokens.len() ==> match #[trigger] tokens[k] {
        XmlEvent::Empty(t) => t.name@ == "SubTree"@ ==> plain_subtree_attrs(t.attributes@),
        _ => true,
    }
}

/// Whether every scope of `old` reads in `new` what it read in `old`.
pub open spec fn reads_kept(old: Blackboard, new: Blackboard) -> bool {
    &&& old.scope_count() <= new.scope_count()
    &&& forall|s: nat, k: Seq<char>| s < old.scope_count() ==> #[trigger] new.read(s, k) == old.read(s, k)
}

/// The auto-remapping setting that a `<SubTree>` tag's attributes give:
/// that of its last `_autoremap` attribute, else off.
pub open spec fn subtree_auto(attrs: Seq<(String, String)>) -> bool
    decreases attrs.len(),
{
    if attrs.len() == 0 {
        false
    } else if attrs.last().0@ == "_autoremap"@ {
        attrs.last().1@ == "true"@
    } else {
        subtree_auto(attrs.drop_last())
    }
}

/// The remappings that a `<SubTree>` tag's attributes give: each attribute
/// that may name a port and whose value is a blackboard pointer `{key}`
/// remaps that port to `key`.
pub open spec fn subtree_remaps(attrs: Seq<(String, String)>) -> Map<Seq<char>, Seq<char>>
    decreases attrs.len(),
{
    if attrs.len() == 0 {
        Map::empty()
    } else {
        let last = attrs.last();
        let m = subtree_remaps(attrs.drop_last());
        if last.0@ != "_autoremap"@ && spec_is_allowed_port_name(last.0@)
            && spec_strip_bb_pointer(last.1@) is Some {
            m.insert(last.0@, spec_strip_bb_pointer(last.1@).unwrap())
        } else {
            m
        }
    }
}

/// Whether `text` is an expression that `evalexpr` compiles and whose
/// `{key:type}` variables each name a type: `int`, `float`, `str` or `bool`.
pub open spec fn port_expression_ok(text: Seq<char>) -> bool {
    &&& expression_error(text) is None
    &&& forall|i: int| 0 <= i < expression_variable_names(text).len()
        && (#[trigger] spec_strip_bb_pointer(expression_variable_names(text)[i])) is Some
        ==> (spec_split_colon(spec_strip_bb_pointer(expression_variable_names(text)[i]).unwrap()) matches Some(parts)
            && spec_is_variable_type(parts.1))
}

/// Whether `r` is one of the errors of an expression that a port refuses.
pub open spec fn is_expression_error(r: Result<(), ParseError>) -> bool {
    ||| r matches Err(ParseError::InvalidPortExpression(_))
    ||| r matches Err(ParseError::PortExpressionMissingType(_))
    ||| r matches Err(ParseError::PortExpressionInvalidType { .. })
}

/// Whether `r` is an error that setting a node's ports from its attributes
/// gives.
pub open spec fn is_port_error<T>(r: Result<T, ParseError>) -> bool {
    ||| r matches Err(ParseError::InvalidPort(_, _, _))
    ||| r matches Err(ParseError::MissingRequiredPort { .. })
    ||| r matches Err(ParseError::InvalidPortExpression(_))
    ||| r matches Err(ParseError::PortExpressionMissingType(_))
    ||| r matches Err(ParseError::PortExpressionInvalidType { .. })
}

/// Checks that `text` is an expression whose `{key:type}` variables name a
/// type: `int`, `float`, `str` or `bool`.
fn validate_port_expression(text: &str) -> (r: Result<(), ParseError>)
    ensures
        !(r matches Err(ParseError::NoMainTree)),
        r is Ok <==> port_expression_ok(text@),
        r is Err ==> is_expression_error(r),
        expression_error(text@) is Some ==> r matches Err(ParseError::InvalidPortExpression(_)),
{
    let expr = match compile_expression(text) {
        Ok(e) => e,
        Err(msg) => return Err(ParseError::InvalidPortExpression(msg)),
    };
    let keys = expression_variables(&expr);
    let ghost names = keys@.map_values(|s: String| s@);
    let mut i: usize = 0;
    while i < keys.len()
        invariant
            i <= keys@.len(),
            expression_error(text@) is None,
            names == expression_variable_names(text@),
            names == keys@.map_values(|s: String| s@),
            forall|j: int| 0 <= j < i && (#[trigger] spec_strip_bb_pointer(names[j])) is Some
                ==> (spec_split_colon(spec_strip_bb_pointer(names[j]).unwrap()) matches Some(parts)
                    && spec_is_variable_type(parts.1)),
        decreases keys@.len() - i,
    {
        assert(keys[i as int]@ == names[i as int]);
        match strip_bb_pointer(keys[i].as_str()) {
            Some(inner) => match split_colon(inner) {
                Some((name, var_type)) => {
                    proof {
                        lemma_split_colon_spec(inner@, name@, var_type@);
                    }
                    if !is_variable_type(var_type.as_str()) {
                        return Err(ParseError::PortExpressionInvalidType { ident: name, value_type: var_type });
                    }
                },
                None => return Err(ParseError::PortExpressionMissingType(to_owned_string(inner))),
            },
            None => {},
        }
        i = i + 1;
    }
    Ok(())
}

/// The split that [`split_colon`] returns is the one of
/// [`spec_split_colon`].
proof fn lemma_split_colon_spec(s: Seq<char>, a: Seq<char>, b: Seq<char>)
    requires
        exists|i: int| 0 <= i < s.len() && s[i] == ':'
            && (forall|j: int| 0 <= j < i ==> s[j] != ':')
            && a == s.subrange(0, i) && b == s.subrange(i + 1, s.len() as int),
    ensures
        spec_split_colon(s) == Some((a, b)),
{
    let w = choose|w: int| 0 <= w < s.len() && s[w] == ':'
        && (forall|j: int| 0 <= j < w ==> s[j] != ':')
        && a == s.subrange(0, w) && b == s.subrange(w + 1, s.len() as int);
    let c = choose|c: int| 0 <= c < s.len() && s[c] == ':' && forall|j: int| 0 <= j < c ==> s[j] != ':';
    assert(c == w) by {
        if c < w {
            assert(s[c] != ':');
        }
        if w < c {
            assert(s[w] != ':');
        }
    }
}

/// Whether every attribute names a port.
pub open spec fn attributes_are_ports(attrs: Seq<(String, String)>, ports: Map<Seq<char>, PortInfo>) -> bool {
    forall|i: int| 0 <= i < attrs.len() ==> #[trigger] ports.contains_key(attrs[i].0@)
}

/// Whether every attribute that sets a port read as an expression holds an
/// expression that the port accepts.
pub open spec fn attribute_expressions_ok(attrs: Seq<(String, String)>, ports: Map<Seq<char>, PortInfo>) -> bool {
    forall|i: int| 0 <= i < attrs.len() && #[trigger] ports[attrs[i].0@].spec_parse_expr()
        ==> port_expression_ok(attrs[i].1@)
}

/// Whether port `p` has a value in its own direction, or a default.
pub open spec fn port_filled(values: Map<Seq<char>, (PortDirection, String)>, ports: Map<Seq<char>, PortInfo>, p: Seq<char>) -> bool {
    (values.contains_key(p) && values[p].0 == ports[p].spec_direction()) || ports[p].spec_default() is Some
}

/// Whether every port has a value in its own direction, or a default.
pub open spec fn ports_filled(values: Map<Seq<char>, (PortDirection, String)>, ports: Map<Seq<char>, PortInfo>) -> bool {
    forall|p: Seq<char>| #[trigger] ports.contains_key(p) ==> port_filled(values, ports, p)
}

/// Sets the node's port values from its XML attributes. Every attribute
/// must name a port of the node, and afterwards every port must have a
/// value or a default.
pub fn add_ports_to_node(meta: &mut NodeMetadata, node_name: &str, attributes: &Vec<(String, String)>) -> (r: Result<(), ParseError>)
    ensures
        !(r matches Err(ParseError::NoMainTree)),
        final(meta).name == old(meta).name,
        final(meta).path == old(meta).path,
        final(meta).node_type == old(meta).node_type,
        final(meta).manifest == old(meta).manifest,
        ({
            let ports = old(meta).manifest.ports.map();
            let applied = applied_ports(old(meta).port_values.map(), attributes@, ports);
            &&& (r is Ok <==> attributes_are_ports(attributes@, ports) && attribute_expressions_ok(attributes@, ports)
                && ports_filled(applied, ports))
            &&& (!attributes_are_ports(attributes@, ports) ==> *final(meta) == *old(meta)
                && (r matches Err(ParseError::InvalidPort(a, nn, ks))
                && nn@ == node_name@
                && !ports.contains_key(a@)
                && (exists|i: int| 0 <= i < attributes@.len() && #[trigger] attributes@[i].0 == a)
                && ks@.len() == old(meta).manifest.ports.entries().len()
                && forall|j: int| 0 <= j < ks@.len() ==> #[trigger] ks@[j] == old(meta).manifest.ports.entries()[j].0))
            &&& (attributes_are_ports(attributes@, ports) && !attribute_expressions_ok(attributes@, ports)
                ==> is_expression_error(r))
            &&& (attributes_are_ports(attributes@, ports) && attribute_expressions_ok(attributes@, ports)
                ==> final(meta).port_values.map() == applied)
            &&& (attributes_are_ports(attributes@, ports) && attribute_expressions_ok(attributes@, ports)
                && !ports_filled(applied, ports)
                ==> (r matches Err(ParseError::MissingRequiredPort { node, port })
                    && node@ == node_name@ && ports.contains_key(port@) && !port_filled(applied, ports, port@)))
        }),
{
    let ghost ports = old(meta).manifest.ports.map();
    let mut i: usize = 0;
    while i < attributes.len()
        invariant
            i <= attributes@.len(),
            forall|j: int| 0 <= j < i ==> #[trigger] meta.manifest.ports.map().contains_key(attributes@[j].0@),
            *meta == *old(meta),
        decreases attributes@.len() - i,
    {
        if !meta.manifest.ports.contains_key(attributes[i].0.as_str()) {
            let ks = meta.manifest.ports.keys();
            assert(attributes@[i as int].0 == attributes[i as int].0);
            return Err(ParseError::InvalidPort(
                attributes[i].0.clone(),
                to_owned_string(node_name),
                ks,
            ));
        }
        i = i + 1;
    }
    assert(attributes_are_ports(attributes@, ports));
    let mut k: usize = 0;
    while k < attributes.len()
        invariant
            k <= attributes@.len(),
            ports == old(meta).manifest.ports.map(),
            attributes_are_ports(attributes@, ports),
            meta.name == old(meta).name,
            meta.path == old(meta).path,
            meta.node_type == old(meta).node_type,
            meta.manifest == old(meta).manifest,
            meta.port_values.map() == applied_ports(old(meta).port_values.map(), attributes@.take(k as int), ports),
            forall|j: int| 0 <= j < k && #[trigger] ports[attributes@[j].0@].spec_parse_expr()
                ==> port_expression_ok(attributes@[j].1@),
        decreases attributes@.len() - k,
    {
        assert(ports.contains_key(attributes@[k as int].0@));
        let port = meta.manifest.ports.get(attributes[k].0.as_str()).unwrap();
        if port.parse_expr() {
            match validate_port_expression(attributes[k].1.as_str()) {
                Ok(_) => {},
                Err(e) => {
                    assert(!attribute_expressions_ok(attributes@, ports)) by {
                        assert(ports[attributes@[k as int].0@].spec_parse_expr());
                    }
                    return Err(e);
                },
            }
        }
        let dir = port.direction();
        proof {
            assert(attributes@.take(k + 1).drop_last() =~= attributes@.take(k as int));
            assert(attributes@.take(k + 1).last() == attributes@[k as int]);
        }
        meta.set_port_value(dir, attributes[k].0.clone(), attributes[k].1.clone());
        k = k + 1;
    }
    proof {
        assert(attributes@.take(k as int) =~= attributes@);
    }
    assert(attribute_expressions_ok(attributes@, ports));
    let n = meta.manifest.ports.len();
    proof {
        meta.manifest.ports.lemma_keys();
    }
    let mut p: usize = 0;
    while p < n
        invariant
            p <= n,
            n == meta.manifest.ports.entries().len(),
            ports == old(meta).manifest.ports.map(),
            meta.manifest == old(meta).manifest,
            meta.port_values.map() == applied_ports(old(meta).port_values.map(), attributes@, ports),
            forall|j: int| 0 <= j < p ==> port_filled(meta.port_values.map(), ports, #[trigger] meta.manifest.ports.entries()[j].0@),
            meta.name == old(meta).name,
            meta.path == old(meta).path,
            meta.node_type == old(meta).node_type,
            attributes_are_ports(attributes@, ports),
            attribute_expressions_ok(attributes@, ports),
        decreases n - p,
    {
        let port_name = meta.manifest.ports.key_at(p);
        proof {
            meta.manifest.ports.lemma_keys();
            assert(meta.manifest.ports.map().contains_key(meta.manifest.ports.entries()[p as int].0@));
        }
        let info = meta.manifest.ports.get(port_name.as_str()).unwrap();
        let direction = info.direction();
        if !(meta.is_port_value_set(port_name.as_str(), direction) || info.has_default()) {
            assert(!ports_filled(meta.port_values.map(), ports));
            return Err(ParseError::MissingRequiredPort {
                node: to_owned_string(node_name),
                port: port_name.clone(),
            });
        }
        p = p + 1;
    }
    proof {
        assert forall|q: Seq<char>| #[trigger] ports.contains_key(q) implies port_filled(meta.port_values.map(), ports, q) by {
            old(meta).manifest.ports.lemma_keys();
            let j = choose|j: int| 0 <= j < old(meta).manifest.ports.entries().len()
                && (#[trigger] old(meta).manifest.ports.entries()[j]).0@ == q;
            assert(port_filled(meta.port_values.map(), ports, meta.manifest.ports.entries()[j].0@));
        }
    }
    Ok(())
}

/// Whether the event before `pos` is the start tag of a `<BehaviorTree>`
/// whose `ID` is `id`.
pub open spec fn tree_starts_at(tokens: Seq<XmlEvent>, id: Seq<char>, pos: usize) -> bool {
    &&& 0 < pos <= tokens.len()
    &&& tokens[pos - 1] matches XmlEvent::Start(t)
    &&& t.name@ == "BehaviorTree"@
    &&& exists|i: int| 0 <= i < t.attributes@.len() && t.attributes@[i].0@ == "ID"@ && t.attributes@[i].1@ == id
}

/// Whether the events from `a` up to `b` are all comments.
pub open spec fn only_comments(tokens: Seq<XmlEvent>, a: int, b: int) -> bool {
    forall|j: int| a <= j < b ==> #[trigger] tokens[j] is Comment
}

/// How many more start tags than end tags the events from `a` up to `i`
/// hold.
pub open spec fn depth(tokens: Seq<XmlEvent>, a: int, i: int) -> int
    decreases i - a,
{
    if i <= a {
        0
    } else {
        depth(tokens, a, i - 1) + match tokens[i - 1] {
            XmlEvent::Start(_) => 1int,
            XmlEvent::End(_) => -1int,
            _ => 0int,
        }
    }
}

/// Whether the events from `a` up to `b` are a run of whole elements and
/// other events: every end tag among them closes a start tag among them,
/// and every start tag is closed.
pub open spec fn balanced(tokens: Seq<XmlEvent>, a: int, b: int) -> bool {
    &&& a <= b
    &&& depth(tokens, a, b) == 0
    &&& forall|k: int| a <= k <= b ==> #[trigger] depth(tokens, a, k) >= 0
}

/// Whether the element that starts at `p` ends just before `q`: an empty
/// element, or a start tag, balanced content and an end tag.
pub open spec fn element_end(tokens: Seq<XmlEvent>, p: int, q: int) -> bool {
    ||| (0 <= p < tokens.len() && tokens[p] is Empty && q == p + 1)
    ||| (0 <= p && p + 1 < q <= tokens.len() && tokens[p] is Start && tokens[q - 1] is End
        && balanced(tokens, p + 1, q - 1))
}

/// Whether the events from `a` up to `b` are the elements `es`, each given
/// by where it starts and where it ends, in order, with only comments
/// before, between and after them.
pub open spec fn elements_at(tokens: Seq<XmlEvent>, a: int, b: int, es: Seq<(int, int)>) -> bool
    decreases es.len(),
{
    if es.len() == 0 {
        a <= b && only_comments(tokens, a, b)
    } else {
        let l = es.last();
        &&& a <= l.0
        &&& l.1 <= b
        &&& element_end(tokens, l.0, l.1)
        &&& only_comments(tokens, l.1, b)
        &&& elements_at(tokens, a, l.0, es.drop_last())
    }
}

/// Whether `n` is the node that the element whose event is `e` gives: one
/// of the element's name, or, for `<SubTree/>`, a subtree node.
pub open spec fn node_of_element<A>(n: TreeNode<A>, e: XmlEvent) -> bool {
    match e {
        XmlEvent::Start(t) => n.data.meta.name == t.name,
        XmlEvent::Empty(t) => if t.name@ == "SubTree"@ {
            n.data.meta.node_type == NodeType::SubTree
        } else {
            n.data.meta.name == t.name
        },
        _ => false,
    }
}

/// Whether `nodes` are the nodes of the elements from `a` up to `b`, in
/// order.
pub open spec fn nodes_of_elements<A>(tokens: Seq<XmlEvent>, a: int, b: int, nodes: Seq<TreeNode<A>>) -> bool {
    exists|es: Seq<(int, int)>| #[trigger] elements_at(tokens, a, b, es) && es.len() == nodes.len()
        && forall|i: int| 0 <= i < nodes.len() ==> node_of_element(#[trigger] nodes[i], tokens[es[i].0])
}

/// An element ends at one place only.
pub proof fn lemma_element_end_unique(tokens: Seq<XmlEvent>, p: int, a: int, b: int)
    requires
        element_end(tokens, p, a),
        element_end(tokens, p, b),
    ensures
        a == b,
{
    if tokens[p] is Start {
        if a < b {
            assert(depth(tokens, p + 1, a) == depth(tokens, p + 1, a - 1) - 1);
            assert(depth(tokens, p + 1, a) >= 0);
        } else if b < a {
            assert(depth(tokens, p + 1, b) == depth(tokens, p + 1, b - 1) - 1);
            assert(depth(tokens, p + 1, b) >= 0);
        }
    }
}

/// Whether `n` is the node of the first element after `start`, with only
/// comments before it, and its children are the nodes of that element's
/// child elements.
pub open spec fn root_element<A>(tokens: Seq<XmlEvent>, start: int, n: TreeNode<A>) -> bool {
    exists|q: int, qn: int| #![trigger element_end(tokens, q, qn)]
        start <= q && only_comments(tokens, start, q) && element_end(tokens, q, qn)
        && node_of_element(n, tokens[q])
        && (tokens[q] is Start ==> nodes_of_elements(tokens, q + 1, qn - 1, n.children@))
}

/// A comment after a run of elements extends the run.
pub proof fn lemma_elements_comment(tokens: Seq<XmlEvent>, a: int, b: int, es: Seq<(int, int)>)
    requires
        elements_at(tokens, a, b, es),
        0 <= b < tokens.len(),
        tokens[b] is Comment,
    ensures
        elements_at(tokens, a, b + 1, es),
{
}

/// Depth adds up over consecutive runs of events.
pub proof fn lemma_depth_split(tokens: Seq<XmlEvent>, a: int, b: int, c: int)
    requires
        a <= b <= c,
    ensures
        depth(tokens, a, c) == depth(tokens, a, b) + depth(tokens, b, c),
    decreases c - b,
{
    if c > b {
        lemma_depth_split(tokens, a, b, c - 1);
    }
}

/// Two balanced runs one after the other are one balanced run.
pub proof fn lemma_balanced_concat(tokens: Seq<XmlEvent>, a: int, b: int, c: int)
    requires
        balanced(tokens, a, b),
        balanced(tokens, b, c),
    ensures
        balanced(tokens, a, c),
{
    lemma_depth_split(tokens, a, b, c);
    assert forall|k: int| a <= k <= c implies #[trigger] depth(tokens, a, k) >= 0 by {
        if k > b {
            lemma_depth_split(tokens, a, b, k);
            assert(depth(tokens, b, k) >= 0);
        }
    }
}

/// A single event that is neither a start nor an end tag is balanced.
pub proof fn lemma_balanced_other(tokens: Seq<XmlEvent>, a: int)
    requires
        0 <= a < tokens.len(),
        !(tokens[a] is Start),
        !(tokens[a] is End),
    ensures
        balanced(tokens, a, a + 1),
{
    assert(depth(tokens, a, a) == 0);
    assert forall|k: int| a <= k <= a + 1 implies #[trigger] depth(tokens, a, k) >= 0 by {
        if k == a + 1 {
            assert(depth(tokens, a, k) == depth(tokens, a, a) + 0);
        }
    }
}

/// A whole element is balanced.
pub proof fn lemma_element_balanced(tokens: Seq<XmlEvent>, p: int, q: int)
    requires
        element_end(tokens, p, q),
    ensures
        balanced(tokens, p, q),
{
    if tokens[p] is Empty {
        lemma_balanced_other(tokens, p);
    } else {
        assert(depth(tokens, p, p + 1) == depth(tokens, p, p) + 1);
        lemma_depth_split(tokens, p, p + 1, q - 1);
        assert(depth(tokens, p, q) == depth(tokens, p, q - 1) - 1);
        assert forall|k: int| p <= k <= q implies #[trigger] depth(tokens, p, k) >= 0 by {
            if p + 1 <= k <= q - 1 {
                lemma_depth_split(tokens, p, p + 1, k);
                assert(depth(tokens, p + 1, k) >= 0);
            } else if k == p + 1 {
            }
        }
    }
}

/// Whether an event inside a `<BehaviorTree>` may come before its child
/// element: a comment, a declaration or other text.
pub open spec fn skippable(e: XmlEvent) -> bool {
    !(e is Start) && !(e is Empty) && !(e is End)
}

/// Whether the events from `a` up to `b` may all come before a tree's child
/// element.
pub open spec fn only_skippable(tokens: Seq<XmlEvent>, a: int, b: int) -> bool {
    forall|j: int| a <= j < b ==> skippable(#[trigger] tokens[j])
}

/// Whether the body of a tree, from `start`, is events that may be
/// skipped, its child element from `c` up to `ce`, comments, and the end
/// tag named `tag` just before `q`.
pub open spec fn tree_body_at(tokens: Seq<XmlEvent>, start: int, q: int, tag: Seq<char>, c: int, ce: int) -> bool {
    &&& start <= c
    &&& only_skippable(tokens, start, c)
    &&& element_end(tokens, c, ce)
    &&& ce < q <= tokens.len()
    &&& only_comments(tokens, ce, q - 1)
    &&& tokens[q - 1] matches XmlEvent::End(n) && n@ == tag
}

/// Whether the body of a tree from `start` goes on after its first part with
/// more than comments before the end tag named `tag`: its first part is the
/// child element from `c` up to `a`, or, with no element before it, an end
/// tag named `tag` at `c`; the event at `q2` after it is neither a comment
/// nor an end tag named `tag`.
pub open spec fn tree_body_extra(tokens: Seq<XmlEvent>, start: int, c: int, a: int, q2: int, tag: Seq<char>) -> bool {
    &&& start <= c
    &&& only_skippable(tokens, start, c)
    &&& (element_end(tokens, c, a) || (0 <= c < tokens.len() && a == c + 1
        && (tokens[c] matches XmlEvent::End(n) && n@ == tag)))
    &&& a <= q2 < tokens.len()
    &&& only_comments(tokens, a, q2)
    &&& !(tokens[q2] is Comment)
    &&& !(tokens[q2] matches XmlEvent::End(n) && n@ == tag)
}

/// Whether the body of a tree from `start` is a single child element and
/// the end tag named `tag`, which ends just before `q`.
pub open spec fn tree_body(tokens: Seq<XmlEvent>, start: int, q: int, tag: Seq<char>) -> bool {
    exists|c: int, ce: int| #[trigger] tree_body_at(tokens, start, q, tag, c, ce)
}

/// The trees that the content of `<root>` from `pos` registers, added to
/// `roots`: each `<BehaviorTree>` element with an `ID`, a single child
/// element and its end tag maps its ID to the index after its start tag;
/// `<TreeNodesModel>` elements and comments are passed over, and `</root>`
/// ends the content. `None` when the content is not of that form.
pub open spec fn scan_trees(tokens: Seq<XmlEvent>, pos: int, roots: Map<Seq<char>, usize>) -> Option<Map<Seq<char>, usize>>
    decreases tokens.len() - pos,
{
    if pos < 0 || pos >= tokens.len() {
        None
    } else {
        match tokens[pos] {
            XmlEvent::Comment => scan_trees(tokens, pos + 1, roots),
            XmlEvent::End(n) => if n@ == "root"@ { Some(roots) } else { None },
            XmlEvent::Start(t) => if t.name@ == "TreeNodesModel"@ {
                if exists|q: int| #[trigger] element_end(tokens, pos, q) {
                    let q = choose|q: int| #[trigger] element_end(tokens, pos, q);
                    if pos < q {
                        scan_trees(tokens, q, roots)
                    } else {
                        None
                    }
                } else {
                    None
                }
            } else if t.name@ == "BehaviorTree"@ {
                match attr_value(t.attributes@, "ID"@) {
                    Some(id) => if exists|q: int| #[trigger] tree_body(tokens, pos + 1, q, "BehaviorTree"@) {
                        let q = choose|q: int| #[trigger] tree_body(tokens, pos + 1, q, "BehaviorTree"@);
                        if pos < q && pos + 1 <= usize::MAX {
                            scan_trees(tokens, q, roots.insert(id, (pos + 1) as usize))
                        } else {
                            None
                        }
                    } else {
                        None
                    },
                    None => None,
                }
            } else {
                None
            },
            _ => None,
        }
    }
}

/// Whether `e` may come before the `<root>` start tag: a declaration or
/// another start tag.
pub open spec fn before_root(e: XmlEvent) -> bool {
    e is Decl || (e matches XmlEvent::Start(t) && t.name@ != "root"@)
}

/// Whether the event at `k` is the `<root>` start tag, with only events that
/// may come before it ahead of it.
pub open spec fn root_at(tokens: Seq<XmlEvent>, k: int) -> bool {
    &&& 0 <= k < tokens.len()
    &&& is_start_named(tokens[k], "root"@)
    &&& forall|j: int| 0 <= j < k ==> before_root(#[trigger] tokens[j])
}

/// The text of an optional string.
pub open spec fn opt_view(o: Option<String>) -> Option<Seq<char>> {
    match o {
        Some(s) => Some(s@),
        None => None,
    }
}

/// Whether `e` is a start tag or an empty element named `name`.
pub open spec fn is_tag_named(e: XmlEvent, name: Seq<char>) -> bool {
    (e matches XmlEvent::Start(t) && t.name@ == name) || (e matches XmlEvent::Empty(t) && t.name@ == name)
}

/// Whether `name` is the tag of an element of `tokens` that the registry
/// does not know.
pub open spec fn unregistered_tag<A: Clone>(tokens: Seq<XmlEvent>, registry: NodeRegistry<A>, name: Seq<char>) -> bool {
    registry.type_of(name) is None && exists|k: int| 0 <= k < tokens.len() && #[trigger] is_tag_named(tokens[k], name)
}

/// Whether `e` is a start tag named `name`.
pub open spec fn is_start_named(e: XmlEvent, name: Seq<char>) -> bool {
    e matches XmlEvent::Start(t) && t.name@ == name
}

/// Whether `e` is an end tag named `name`.
pub open spec fn is_end_named(e: XmlEvent, name: Seq<char>) -> bool {
    e matches XmlEvent::End(n) && n@ == name
}

/// Reads a tree from its XML events.
pub(crate) struct Parser {
    pub(crate) tokens: Vec<XmlEvent>,
    /// For each tree by ID, the index of the event after its start tag
    pub(crate) tree_roots: StrMap<usize>,
    pub(crate) main_tree_id: Option<String>,
    pub(crate) tree_uid: u32,
}

impl Parser {
    /// Each registered tree starts just after a `<BehaviorTree>` start tag
    /// with its `ID`.
    pub(crate) open spec fn roots_wf(&self) -> bool {
        &&& forall|id: Seq<char>| #[trigger] self.tree_roots.map().contains_key(id)
            ==> tree_starts_at(self.tokens@, id, self.tree_roots.map()[id])
        &&& keys_distinct(self.tree_roots.entries())
    }

    /// A parser over `tokens`.
    pub(crate) fn new(tokens: Vec<XmlEvent>) -> (r: Parser)
        ensures
            r.tokens == tokens,
            r.tree_roots.map() == Map::<Seq<char>, usize>::empty(),
            r.main_tree_id is None,
            r.roots_wf(),
    {
        Parser { tokens, tree_roots: StrMap::new(), main_tree_id: None, tree_uid: 0 }
    }


    /// The index after the element whose start tag is at `p`: its start
    /// tag, its content up to the end tag that closes it, and that end tag.
    fn skip_element(&self, p: usize, name: &str) -> (r: Result<usize, ParseError>)
        requires
            p < self.tokens@.len(),
            self.tokens@[p as int] is Start,
        ensures
            !(r matches Err(ParseError::UnknownNode(_))),
            match r {
                Ok(q) => element_end(self.tokens@, p as int, q as int),
                Err(_) => forall|q: int| !#[trigger] element_end(self.tokens@, p as int, q),
            },
    {
        let n = self.tokens.len();
        let mut d: usize = 0;
        let mut i = p + 1;
        proof {
            assert(depth(self.tokens@, p + 1, p + 1) == 0);
        }
        while i < self.tokens.len()
            invariant
                p < i <= self.tokens@.len(),
                self.tokens@[p as int] is Start,
                d == depth(self.tokens@, p + 1, i as int),
                d <= i,
                forall|k: int| p + 1 <= k <= i ==> #[trigger] depth(self.tokens@, p + 1, k) >= 0,
                forall|k: int| p + 1 <= k < i ==> !(self.tokens@[k] is End && #[trigger] depth(self.tokens@, p + 1, k) == 0),
            decreases self.tokens@.len() - i,
        {
            proof {
                assert(depth(self.tokens@, p + 1, i + 1) == depth(self.tokens@, p + 1, i as int) + match self.tokens@[i as int] {
                    XmlEvent::Start(_) => 1int,
                    XmlEvent::End(_) => -1int,
                    _ => 0int,
                });
            }
            match &self.tokens[i] {
                XmlEvent::Start(_) => {
                    d = d + 1;
                },
                XmlEvent::End(_) => {
                    if d == 0 {
                        proof {
                            assert(balanced(self.tokens@, p + 1, i as int));
                        }
                        return Ok(i + 1);
                    }
                    d = d - 1;
                },
                _ => {},
            }
            i = i + 1;
        }
        proof {
            assert forall|q: int| !#[trigger] element_end(self.tokens@, p as int, q) by {
                if element_end(self.tokens@, p as int, q) {
                    assert(depth(self.tokens@, p + 1, q - 1) == 0);
                }
            }
        }
        Err(ParseError::XMLError(concat("Missing end tag: ", name)))
    }

    /// Finds the `<root>` element and registers the trees in it.
    pub(crate) fn register_bt_from_text(&mut self) -> (r: Result<(), ParseError>)
        ensures
            !(r matches Err(ParseError::UnknownNode(_))),
            final(self).tokens == old(self).tokens,
            old(self).roots_wf() ==> final(self).roots_wf(),
            r is Ok ==> exists|k: int| 0 <= k < old(self).tokens@.len() && #[trigger] is_start_named(old(self).tokens@[k], "root"@),
            r is Ok ==> exists|k: int| 0 <= k < old(self).tokens@.len() && #[trigger] is_end_named(old(self).tokens@[k], "root"@),
            old(self).tokens@.len() == 0 ==> r matches Err(ParseError::MissingRoot),
            old(self).tokens@.len() >= 2 && is_start_named(old(self).tokens@[0], "root"@)
                && is_end_named(old(self).tokens@[1], "root"@) ==> r is Ok,
            old(self).tokens@.len() >= 2 && is_start_named(old(self).tokens@[0], "root"@)
                && (old(self).tokens@[1] matches XmlEvent::Start(t) && t.name@ == "BehaviorTree"@
                    && forall|i: int| 0 <= i < t.attributes@.len() ==> t.attributes@[i].0@ != "ID"@)
                ==> r matches Err(ParseError::MissingAttribute(_)),
            forall|id: Seq<char>| #[trigger] old(self).tree_roots.map().contains_key(id)
                ==> final(self).tree_roots.map().contains_key(id),
            forall|id: Seq<char>| #[trigger] final(self).tree_roots.map().contains_key(id)
                && !(old(self).tree_roots.map().contains_key(id)
                    && final(self).tree_roots.map()[id] == old(self).tree_roots.map()[id])
                ==> tree_starts_at(old(self).tokens@, id, final(self).tree_roots.map()[id]),
            // A document of the expected form registers exactly its trees,
            // and its main tree if `<root>` names one.
            forall|k: int| #[trigger] root_at(old(self).tokens@, k) ==> {
                &&& (scan_trees(old(self).tokens@, k + 1, old(self).tree_roots.map()) matches Some(m)
                    ==> r is Ok && final(self).tree_roots.map() == m)
                &&& opt_view(final(self).main_tree_id) == match attr_value(
                    old(self).tokens@[k]->Start_0.attributes@,
                    "main_tree_to_execute"@,
                ) {
                    Some(v) => Some(v),
                    None => opt_view(old(self).main_tree_id),
                }
            },
    {
        let mut pos: usize = 0;
        loop
            invariant_except_break
                pos > 0 && self.tokens@.len() > 0 ==> !is_start_named(self.tokens@[0], "root"@),
                forall|j: int| 0 <= j < pos ==> before_root(#[trigger] self.tokens@[j]),
                self.main_tree_id == old(self).main_tree_id,
            invariant
                self.tokens == old(self).tokens,
                self.tree_roots == old(self).tree_roots,
                pos <= self.tokens@.len(),
            ensures
                0 < pos <= self.tokens@.len(),
                is_start_named(self.tokens@[pos - 1], "root"@),
                is_start_named(self.tokens@[0], "root"@) ==> pos == 1,
                root_at(self.tokens@, pos - 1),
                opt_view(self.main_tree_id) == match attr_value(
                    self.tokens@[pos - 1]->Start_0.attributes@,
                    "main_tree_to_execute"@,
                ) {
                    Some(v) => Some(v),
                    None => opt_view(old(self).main_tree_id),
                },
            decreases self.tokens@.len() - pos,
        {
            proof {
                reveal_strlit("root");
            }
            if pos >= self.tokens.len() {
                return Err(ParseError::MissingRoot);
            }
            let mut found = false;
            let mut main: Option<String> = None;
            match &self.tokens[pos] {
                XmlEvent::Decl => {},
                XmlEvent::Start(tag) => {
                    if str_eq(tag.name.as_str(), "root") {
                        found = true;
                        main = match attribute(tag, "main_tree_to_execute") {
                            Some(id) => Some(id.clone()),
                            None => None,
                        };
                    }
                },
                _ => return Err(ParseError::MissingRoot),
            }
            pos = pos + 1;
            if found {
                if main.is_some() {
                    self.main_tree_id = main;
                }
                break;
            }
        }
        proof {
            assert forall|k: int| #[trigger] root_at(self.tokens@, k) implies k == pos - 1 by {
                if k < pos - 1 {
                    assert(before_root(self.tokens@[k]));
                }
                if k > pos - 1 {
                    assert(before_root(self.tokens@[pos - 1]));
                }
            }
        }
        self.register_trees(pos)
    }

    /// Registers the `<BehaviorTree>` elements from `pos` up to `</root>`,
    /// skipping a `<TreeNodesModel>`. Each tree must have an `ID` and a
    /// single child.
    fn register_trees(&mut self, start: usize) -> (r: Result<(), ParseError>)
        ensures
            !(r matches Err(ParseError::UnknownNode(_))),
            final(self).tokens == old(self).tokens,
            final(self).main_tree_id == old(self).main_tree_id,
            old(self).roots_wf() ==> final(self).roots_wf(),
            r is Ok ==> exists|k: int| start <= k < old(self).tokens@.len() && #[trigger] is_end_named(old(self).tokens@[k], "root"@),
            start >= old(self).tokens@.len() ==> r is Err,
            start < old(self).tokens@.len() && is_end_named(old(self).tokens@[start as int], "root"@)
                ==> r is Ok && final(self).tree_roots == old(self).tree_roots,
            start < old(self).tokens@.len() && (old(self).tokens@[start as int] matches XmlEvent::Start(t)
                && t.name@ != "TreeNodesModel"@ && t.name@ != "BehaviorTree"@)
                ==> r matches Err(ParseError::ExpectedRoot(_)),
            start < old(self).tokens@.len() && (old(self).tokens@[start as int] matches XmlEvent::Start(t)
                && t.name@ == "BehaviorTree"@
                && forall|i: int| 0 <= i < t.attributes@.len() ==> t.attributes@[i].0@ != "ID"@)
                ==> r matches Err(ParseError::MissingAttribute(_)),
            // Trees stay registered; a tree registered anew starts after `start`.
            forall|id: Seq<char>| #[trigger] old(self).tree_roots.map().contains_key(id)
                ==> final(self).tree_roots.map().contains_key(id),
            forall|id: Seq<char>| #[trigger] final(self).tree_roots.map().contains_key(id)
                && !(old(self).tree_roots.map().contains_key(id)
                    && final(self).tree_roots.map()[id] == old(self).tree_roots.map()[id])
                ==> start < final(self).tree_roots.map()[id] && tree_starts_at(old(self).tokens@, id, final(self).tree_roots.map()[id]),
            // Content of the expected form registers exactly its trees.
            scan_trees(old(self).tokens@, start as int, old(self).tree_roots.map()) matches Some(m)
                ==> r is Ok && final(self).tree_roots.map() == m,
            // A tree with more than one child element, or none, is refused.
            start < old(self).tokens@.len() && (old(self).tokens@[start as int] matches XmlEvent::Start(t)
                && t.name@ == "BehaviorTree"@ && attr_value(t.attributes@, "ID"@) is Some)
                ==> forall|c: int, a: int, q2: int| #[trigger] tree_body_extra(old(self).tokens@, start + 1, c, a, q2, "BehaviorTree"@)
                    ==> r matches Err(ParseError::ViolateNodeConstraint(_)),
    {
        let ghost goal = scan_trees(old(self).tokens@, start as int, old(self).tree_roots.map());
        let mut pos = start;
        loop
            invariant
                self.tokens == old(self).tokens,
                self.main_tree_id == old(self).main_tree_id,
                old(self).roots_wf() ==> self.roots_wf(),
                start <= pos,
                pos == start ==> self.tree_roots == old(self).tree_roots,
                start < self.tokens@.len() && (is_end_named(self.tokens@[start as int], "root"@)
                    || (self.tokens@[start as int] matches XmlEvent::Start(t)
                        && t.name@ != "TreeNodesModel"@ && t.name@ != "BehaviorTree"@)) ==> pos == start,
                start < self.tokens@.len() && (self.tokens@[start as int] matches XmlEvent::Start(t)
                    && t.name@ == "BehaviorTree"@
                    && forall|i: int| 0 <= i < t.attributes@.len() ==> t.attributes@[i].0@ != "ID"@) ==> pos == start,
                forall|id: Seq<char>| #[trigger] old(self).tree_roots.map().contains_key(id)
                    ==> self.tree_roots.map().contains_key(id),
                forall|id: Seq<char>| #[trigger] self.tree_roots.map().contains_key(id)
                    && !(old(self).tree_roots.map().contains_key(id)
                        && self.tree_roots.map()[id] == old(self).tree_roots.map()[id])
                    ==> start < self.tree_roots.map()[id] && tree_starts_at(self.tokens@, id, self.tree_roots.map()[id]),
                goal == scan_trees(old(self).tokens@, start as int, old(self).tree_roots.map()),
                goal is Some ==> scan_trees(self.tokens@, pos as int, self.tree_roots.map()) == goal,
                start < self.tokens@.len() && (self.tokens@[start as int] matches XmlEvent::Start(t)
                    && t.name@ == "BehaviorTree"@ && attr_value(t.attributes@, "ID"@) is Some)
                    && (exists|c: int, a: int, q2: int| #[trigger] tree_body_extra(self.tokens@, start + 1, c, a, q2, "BehaviorTree"@))
                    ==> pos == start,
            decreases self.tokens@.len() - pos,
        {
            proof {
                reveal_strlit("root");
                reveal_strlit("TreeNodesModel");
                reveal_strlit("BehaviorTree");
                assert("TreeNodesModel"@[0] != "BehaviorTree"@[0]);
            }
            if pos >= self.tokens.len() {
                return Err(ParseError::InternalError(to_owned_string(
                    "Something bad has happened. Please report this. Eof",
                )));
            }
            let mut next = pos + 1;
            match &self.tokens[pos] {
                XmlEvent::Start(tag) => {
                    if str_eq(tag.name.as_str(), "TreeNodesModel") {
                        next = match self.skip_element(pos, tag.name.as_str()) {
                            Ok(p) => p,
                            Err(e) => return Err(e),
                        };
                        proof {
                            if goal is Some {
                                let q = choose|q: int| #[trigger] element_end(self.tokens@, pos as int, q);
                                lemma_element_end_unique(self.tokens@, pos as int, q, next as int);
                            }
                        }
                    } else {
                        if !str_eq(tag.name.as_str(), "BehaviorTree") {
                            return Err(ParseError::ExpectedRoot(tag.name.clone()));
                        }
                        let id = match attribute(tag, "ID") {
                            Some(id) => id.clone(),
                            None => return Err(ParseError::MissingAttribute(to_owned_string(
                                "Found BehaviorTree definition without ID. Cannot continue parsing.",
                            ))),
                        };
                        let tree_name = tag.name.clone();
                        let ghost before = self.tree_roots.map();
                        let ghost idv = id@;
                        self.tree_roots.insert(id, pos + 1);
                        next = match self.skip_tree_body(pos + 1, tree_name.as_str()) {
                            Ok(p) => p,
                            Err(e) => return Err(e),
                        };
                        proof {
                            if goal is Some {
                                assert(attr_value(tag.attributes@, "ID"@) == Some(idv));
                                let q = choose|q: int| #[trigger] tree_body(self.tokens@, pos + 1, q, "BehaviorTree"@);
                                assert(tree_name@ == "BehaviorTree"@);
                                assert(next == q);
                                assert(self.tree_roots.map() == before.insert(idv, (pos + 1) as usize));
                            }
                        }
                    }
                },
                XmlEvent::End(name) => {
                    if !str_eq(name.as_str(), "root") {
                        return Err(ParseError::InternalError(to_owned_string(
                            "A non-root end tag was found. This should not happen. Please report this.",
                        )));
                    } else {
                        proof {
                            assert(is_end_named(self.tokens@[pos as int], "root"@));
                        }
                        return Ok(());
                    }
                },
                XmlEvent::Comment => {},
                _ => {
                    return Err(ParseError::InternalError(to_owned_string(
                        "Something bad has happened. Please report this.",
                    )));
                },
            }
            pos = next;
        }
    }

    /// Skips the body of a `<BehaviorTree>` whose content starts at `start`:
    /// its single child element, then its end tag.
    fn skip_tree_body(&self, start: usize, tree_tag: &str) -> (r: Result<usize, ParseError>)
        ensures
            !(r matches Err(ParseError::UnknownNode(_))),
            r matches Ok(p) ==> start < p <= self.tokens@.len(),
            r matches Ok(p) ==> (self.tokens@[p - 1] matches XmlEvent::End(n) && n@ == tree_tag@),
            start >= self.tokens@.len() ==> r matches Err(ParseError::UnexpectedEof),
            forall|q: int| #[trigger] tree_body(self.tokens@, start as int, q, tree_tag@)
                ==> r == Ok::<usize, ParseError>(q as usize),
            // More than one child element, or none, is refused.
            forall|c: int, a: int, q2: int| #[trigger] tree_body_extra(self.tokens@, start as int, c, a, q2, tree_tag@)
                ==> r matches Err(ParseError::ViolateNodeConstraint(_)),
    {
        let mut pos = start;
        loop
            invariant_except_break
                forall|q: int, c: int, ce: int| #![trigger tree_body_at(self.tokens@, start as int, q, tree_tag@, c, ce)]
                    tree_body_at(self.tokens@, start as int, q, tree_tag@, c, ce) ==> pos <= c,
                only_skippable(self.tokens@, start as int, pos as int),
                forall|c: int, a: int, q2: int| #![trigger tree_body_extra(self.tokens@, start as int, c, a, q2, tree_tag@)]
                    tree_body_extra(self.tokens@, start as int, c, a, q2, tree_tag@) ==> pos <= c,
            invariant
                start <= pos,
            ensures
                start < pos <= self.tokens@.len(),
                forall|c: int, a: int, q2: int| #![trigger tree_body_extra(self.tokens@, start as int, c, a, q2, tree_tag@)]
                    tree_body_extra(self.tokens@, start as int, c, a, q2, tree_tag@) ==> pos == a,
                forall|q: int, c: int, ce: int| #![trigger tree_body_at(self.tokens@, start as int, q, tree_tag@, c, ce)]
                    tree_body_at(self.tokens@, start as int, q, tree_tag@, c, ce) ==> pos == ce,
            decreases self.tokens@.len() - pos,
        {
            if pos >= self.tokens.len() {
                return Err(ParseError::UnexpectedEof);
            }
            match &self.tokens[pos] {
                XmlEvent::Comment => {
                    proof {
                        assert forall|q: int, c: int, ce: int| #![trigger tree_body_at(self.tokens@, start as int, q, tree_tag@, c, ce)]
                            tree_body_at(self.tokens@, start as int, q, tree_tag@, c, ce) implies pos + 1 <= c by {
                            assert(pos <= c);
                        }
                        assert forall|c: int, a: int, q2: int| #![trigger tree_body_extra(self.tokens@, start as int, c, a, q2, tree_tag@)]
                            tree_body_extra(self.tokens@, start as int, c, a, q2, tree_tag@) implies pos + 1 <= c by {
                            assert(pos <= c);
                        }
                    }
                    pos = pos + 1;
                },
                XmlEvent::End(name) => {
                    proof {
                        assert forall|c: int, a: int, q2: int| #![trigger tree_body_extra(self.tokens@, start as int, c, a, q2, tree_tag@)]
                            tree_body_extra(self.tokens@, start as int, c, a, q2, tree_tag@) implies c == pos by {
                            assert(pos <= c);
                            if pos < c {
                                assert(skippable(self.tokens@[pos as int]));
                            }
                        }
                        assert forall|q: int, c: int, ce: int| #![trigger tree_body_at(self.tokens@, start as int, q, tree_tag@, c, ce)]
                            tree_body_at(self.tokens@, start as int, q, tree_tag@, c, ce) implies false by {
                            if pos < c {
                                assert(skippable(self.tokens@[pos as int]));
                            }
                        }
                    }
                    if str_eq(name.as_str(), tree_tag) {
                        pos = pos + 1;
                        break;
                    } else {
                        return Err(ParseError::ViolateNodeConstraint(to_owned_string(
                            "Expected end tag for BehaviorTree",
                        )));
                    }
                },
                XmlEvent::Start(t) => {
                    proof {
                        assert forall|c: int, a: int, q2: int| #![trigger tree_body_extra(self.tokens@, start as int, c, a, q2, tree_tag@)]
                            tree_body_extra(self.tokens@, start as int, c, a, q2, tree_tag@) implies c == pos by {
                            assert(pos <= c);
                            if pos < c {
                                assert(skippable(self.tokens@[pos as int]));
                            }
                        }
                    }
                    let p = match self.skip_element(pos, t.name.as_str()) {
                        Ok(p) => p,
                        Err(e) => {
                            proof {
                                assert forall|q: int, c: int, ce: int| #![trigger tree_body_at(self.tokens@, start as int, q, tree_tag@, c, ce)]
                                    tree_body_at(self.tokens@, start as int, q, tree_tag@, c, ce) implies false by {
                                    if pos < c {
                                        assert(skippable(self.tokens@[pos as int]));
                                    }
                                }
                            }
                            return Err(e);
                        },
                    };
                    proof {
                        assert forall|q: int, c: int, ce: int| #![trigger tree_body_at(self.tokens@, start as int, q, tree_tag@, c, ce)]
                            tree_body_at(self.tokens@, start as int, q, tree_tag@, c, ce) implies p == ce by {
                            if pos < c {
                                assert(skippable(self.tokens@[pos as int]));
                            }
                            lemma_element_end_unique(self.tokens@, c, ce, p as int);
                        }
                        assert forall|c: int, a: int, q2: int| #![trigger tree_body_extra(self.tokens@, start as int, c, a, q2, tree_tag@)]
                            tree_body_extra(self.tokens@, start as int, c, a, q2, tree_tag@) implies p == a by {
                            lemma_element_end_unique(self.tokens@, c, a, p as int);
                        }
                    }
                    pos = p;
                    break;
                },
                XmlEvent::Empty(_) => {
                    proof {
                        assert forall|c: int, a: int, q2: int| #![trigger tree_body_extra(self.tokens@, start as int, c, a, q2, tree_tag@)]
                            tree_body_extra(self.tokens@, start as int, c, a, q2, tree_tag@) implies pos + 1 == a by {
                            assert(pos <= c);
                            if pos < c {
                                assert(skippable(self.tokens@[pos as int]));
                            }
                        }
                        assert forall|q: int, c: int, ce: int| #![trigger tree_body_at(self.tokens@, start as int, q, tree_tag@, c, ce)]
                            tree_body_at(self.tokens@, start as int, q, tree_tag@, c, ce) implies pos + 1 == ce by {
                            if pos < c {
                                assert(skippable(self.tokens@[pos as int]));
                            }
                        }
                    }
                    pos = pos + 1;
                    break;
                },
                _ => {
                    proof {
                        assert forall|q: int, c: int, ce: int| #![trigger tree_body_at(self.tokens@, start as int, q, tree_tag@, c, ce)]
                            tree_body_at(self.tokens@, start as int, q, tree_tag@, c, ce) implies pos + 1 <= c by {
                            assert(pos <= c);
                            if pos == c {
                                assert(self.tokens@[c] is Start || self.tokens@[c] is Empty);
                            }
                        }
                        assert forall|c: int, a: int, q2: int| #![trigger tree_body_extra(self.tokens@, start as int, c, a, q2, tree_tag@)]
                            tree_body_extra(self.tokens@, start as int, c, a, q2, tree_tag@) implies pos + 1 <= c by {
                            assert(pos <= c);
                        }
                    }
                    pos = pos + 1;
                },
            }
        }
        let ghost q0 = pos;
        loop
            invariant
                q0 <= pos <= self.tokens@.len(),
                start < q0,
                only_comments(self.tokens@, q0 as int, pos as int),
                forall|q: int, c: int, ce: int| #![trigger tree_body_at(self.tokens@, start as int, q, tree_tag@, c, ce)]
                    tree_body_at(self.tokens@, start as int, q, tree_tag@, c, ce) ==> q0 == ce && pos <= q - 1,
                forall|c: int, a: int, q2: int| #![trigger tree_body_extra(self.tokens@, start as int, c, a, q2, tree_tag@)]
                    tree_body_extra(self.tokens@, start as int, c, a, q2, tree_tag@) ==> q0 == a && pos <= q2,
            decreases self.tokens@.len() - pos,
        {
            if pos >= self.tokens.len() {
                return Err(ParseError::ViolateNodeConstraint(to_owned_string(
                    "BehaviorTree node may only have one child",
                )));
            }
            match &self.tokens[pos] {
                XmlEvent::Comment => {
                    proof {
                        assert forall|q: int, c: int, ce: int| #![trigger tree_body_at(self.tokens@, start as int, q, tree_tag@, c, ce)]
                            tree_body_at(self.tokens@, start as int, q, tree_tag@, c, ce) implies pos + 1 <= q - 1 by {
                            if pos == q - 1 {
                                assert(self.tokens@[q - 1] is End);
                            }
                        }
                        assert forall|c: int, a: int, q2: int| #![trigger tree_body_extra(self.tokens@, start as int, c, a, q2, tree_tag@)]
                            tree_body_extra(self.tokens@, start as int, c, a, q2, tree_tag@) implies pos + 1 <= q2 by {
                            assert(pos != q2);
                        }
                    }
                    pos = pos + 1;
                },
                XmlEvent::End(name) => {
                    if str_eq(name.as_str(), tree_tag) {
                        proof {
                            assert forall|q: int, c: int, ce: int| #![trigger tree_body_at(self.tokens@, start as int, q, tree_tag@, c, ce)]
                                tree_body_at(self.tokens@, start as int, q, tree_tag@, c, ce) implies pos + 1 == q by {
                                if pos < q - 1 {
                                    assert(self.tokens@[pos as int] is Comment);
                                }
                            }
                            assert forall|c: int, a: int, q2: int| #![trigger tree_body_extra(self.tokens@, start as int, c, a, q2, tree_tag@)]
                                tree_body_extra(self.tokens@, start as int, c, a, q2, tree_tag@) implies false by {
                                if pos < q2 {
                                    assert(self.tokens@[pos as int] is Comment);
                                }
                            }
                        }
                        return Ok(pos + 1);
                    } else {
                        proof {
                            assert forall|q: int, c: int, ce: int| #![trigger tree_body_at(self.tokens@, start as int, q, tree_tag@, c, ce)]
                                tree_body_at(self.tokens@, start as int, q, tree_tag@, c, ce) implies false by {
                                if pos < q - 1 {
                                    assert(self.tokens@[pos as int] is Comment);
                                }
                            }
                        }
                        return Err(ParseError::ViolateNodeConstraint(to_owned_string(
                            "Expected end tag for BehaviorTree",
                        )));
                    }
                },
                _ => {
                    proof {
                        assert forall|q: int, c: int, ce: int| #![trigger tree_body_at(self.tokens@, start as int, q, tree_tag@, c, ce)]
                            tree_body_at(self.tokens@, start as int, q, tree_tag@, c, ce) implies false by {
                            if pos < q - 1 {
                                assert(self.tokens@[pos as int] is Comment);
                            }
                        }
                    }
                    return Err(ParseError::ViolateNodeConstraint(to_owned_string(
                        "BehaviorTree node may only have one child",
                    )));
                },
            }
        }
    }
}

/// A fresh number for naming a subtree: the counter's value, which then
/// goes up by one.
fn get_uid(uid: &mut u32) -> (r: u32)
    ensures
        r == *old(uid),
        *final(uid) == (if *old(uid) == u32::MAX { 0 } else { *old(uid) + 1 }),
{
    let r = *uid;
    *uid = uid.wrapping_add(1);
    r
}

/// A node with its data; its status starts `Idle`.
fn make_node<A>(meta: NodeMetadata, scope: usize, node: NodeImpl<A>, children: Vec<TreeNode<A>>) -> (r: TreeNode<A>)
    ensures
        r.data.meta == meta,
        r.data.scope == scope,
        r.data.status == NodeStatus::Idle,
        r.node == node,
        r.children == children,
        r.last_tick() is None,
        !r.fault@,
{
    TreeNode {
        data: NodeDataGeneric { meta, status: NodeStatus::Idle, scope },
        node,
        children,
        last: Ghost(None),
        fault: Ghost(false),
        ticks: Ghost(0),
    }
}

impl Parser {
    /// Builds the tree with ID `tree_id` from its single child. `fuel`
    /// bounds how deep subtrees may nest.
    pub(crate) fn recursively_build_subtree<A: SyncActionNode + StatefulActionNode + Clone>(
        &self,
        registry: &NodeRegistry<A>,
        tree_id: &str,
        tree_name: &str,
        path_prefix: &str,
        bb: &mut Blackboard,
        scope: usize,
        uid: &mut u32,
        fuel: usize,
    ) -> (r: Result<TreeNode<A>, ParseError>)
        requires
            scope < old(bb).scope_count(),
        ensures
            !(r matches Err(ParseError::NoMainTree)),
            plain_subtrees(self.tokens@) ==> reads_kept(*old(bb), *final(bb)),
            r matches Err(ParseError::UnknownNode(t)) ==> unregistered_tag(self.tokens@, *registry, t@),
            final(bb).extends(*old(bb)),
            r matches Ok(n) ==> n.wf() && fresh_under(n, path_prefix@, scope),
            !self.tree_roots.map().contains_key(tree_id@) ==> (r matches Err(ParseError::UnknownTree(t)) && t@ == tree_id@),
            r matches Ok(n) ==> self.tree_roots.map().contains_key(tree_id@)
                && root_element(self.tokens@, self.tree_roots.map()[tree_id@] as int, n),
        decreases fuel, self.tokens@.len() + 1, 0nat,
    {
        let start = match self.tree_roots.get(tree_id) {
            Some(p) => *p,
            None => return Err(ParseError::UnknownTree(to_owned_string(tree_id))),
        };
        let mut pos = start;
        while pos < self.tokens.len()
            invariant
                scope < bb.scope_count(),
                bb.extends(*old(bb)),
                plain_subtrees(self.tokens@) ==> reads_kept(*old(bb), *bb),
                self.tree_roots.map().contains_key(tree_id@),
                start == self.tree_roots.map()[tree_id@],
                start <= pos,
                only_comments(self.tokens@, start as int, pos as int),
            decreases self.tokens@.len() - pos,
        {
            match self.build_child(registry, pos, bb, scope, tree_name, path_prefix, uid, fuel) {
                Ok((CreateNodeControl::Node(child), next)) => {
                    proof {
                        assert(element_end(self.tokens@, pos as int, next as int));
                    }
                    return Ok(child);
                },
                Ok((CreateNodeControl::Continue, next)) => {
                    proof {
                        assert(self.tokens@[pos as int] is Comment);
                    }
                    pos = next;
                },
                Ok((CreateNodeControl::End, _)) => {
                    return Err(ParseError::NodeTypeMismatch(to_owned_string("SubTree")));
                },
                Err(e) => return Err(e),
            }
        }
        Err(ParseError::UnexpectedEof)
    }

    /// Builds the children of an element, up to its end tag; returns them
    /// and the index after the end tag.
    fn build_children<A: SyncActionNode + StatefulActionNode + Clone>(
        &self,
        registry: &NodeRegistry<A>,
        start: usize,
        bb: &mut Blackboard,
        scope: usize,
        tree_name: &str,
        path_prefix: &str,
        uid: &mut u32,
        fuel: usize,
    ) -> (r: Result<(Vec<TreeNode<A>>, usize), ParseError>)
        requires
            scope < old(bb).scope_count(),
        ensures
            !(r matches Err(ParseError::NoMainTree)),
            plain_subtrees(self.tokens@) ==> reads_kept(*old(bb), *final(bb)),
            r matches Err(ParseError::UnknownNode(t)) ==> unregistered_tag(self.tokens@, *registry, t@),
            final(bb).extends(*old(bb)),
            r matches Ok((c, next)) ==> children_wf(c@) && start < next <= self.tokens@.len()
                && forall|i: int| 0 <= i < c@.len() ==> fresh_under(#[trigger] c@[i], path_prefix@, scope),
            r matches Ok((c, next)) ==> self.tokens@[next - 1] is End,
            r matches Ok((c, next)) ==> balanced(self.tokens@, start as int, next - 1),
            r matches Ok((c, next)) ==> nodes_of_elements(self.tokens@, start as int, next - 1, c@),
            forall|k: int| #[trigger] only_comments(self.tokens@, start as int, k) && start <= k < self.tokens@.len()
                && self.tokens@[k] is End ==> (r matches Ok((c, next)) && c@.len() == 0 && next == k + 1),
        decreases fuel, self.tokens@.len() - start, 3nat,
    {
        let mut nodes: Vec<TreeNode<A>> = Vec::new();
        let mut pos = start;
        let ghost mut es: Seq<(int, int)> = Seq::empty();
        proof {
            assert(balanced(self.tokens@, start as int, start as int));
        }
        while pos < self.tokens.len()
            invariant
                start <= pos,
                balanced(self.tokens@, start as int, pos as int),
                elements_at(self.tokens@, start as int, pos as int, es),
                es.len() == nodes@.len(),
                forall|i: int| 0 <= i < nodes@.len() ==> node_of_element(#[trigger] nodes@[i], self.tokens@[es[i].0]),
                scope < bb.scope_count(),
                bb.extends(*old(bb)),
                plain_subtrees(self.tokens@) ==> reads_kept(*old(bb), *bb),
                children_wf(nodes@),
                forall|i: int| 0 <= i < nodes@.len() ==> fresh_under(#[trigger] nodes@[i], path_prefix@, scope),
                only_comments(self.tokens@, start as int, pos as int) ==> nodes@.len() == 0,
                forall|k: int| #[trigger] only_comments(self.tokens@, start as int, k) && start <= k < self.tokens@.len()
                    && self.tokens@[k] is End ==> pos <= k,
            decreases self.tokens@.len() - pos,
        {
            match self.build_child(registry, pos, bb, scope, tree_name, path_prefix, uid, fuel) {
                Ok((CreateNodeControl::Node(node), next)) => {
                    proof {
                        lemma_push_wf(nodes@, node);
                        lemma_element_balanced(self.tokens@, pos as int, next as int);
                        lemma_balanced_concat(self.tokens@, start as int, pos as int, next as int);
                        let es2 = es.push((pos as int, next as int));
                        assert(es2.drop_last() =~= es);
                        assert(elements_at(self.tokens@, start as int, next as int, es2));
                        es = es2;
                    }
                    nodes.push(node);
                    pos = next;
                },
                Ok((CreateNodeControl::Continue, next)) => {
                    proof {
                        lemma_balanced_other(self.tokens@, pos as int);
                        lemma_balanced_concat(self.tokens@, start as int, pos as int, next as int);
                        lemma_elements_comment(self.tokens@, start as int, pos as int, es);
                    }
                    pos = next;
                },
                Ok((CreateNodeControl::End, next)) => {
                    proof {
                        assert(elements_at(self.tokens@, start as int, next - 1, es));
                    }
                    return Ok((nodes, next));
                },
                Err(e) => return Err(e),
            }
        }
        Err(ParseError::UnexpectedEof)
    }

    /// Builds a control or decorator node from its start tag at `pos`, its
    /// children and its end tag.
    fn build_parent<A: SyncActionNode + StatefulActionNode + Clone>(
        &self,
        registry: &NodeRegistry<A>,
        pos: usize,
        tag: &XmlTag,
        bb: &mut Blackboard,
        scope: usize,
        tree_name: &str,
        path_prefix: &str,
        uid: &mut u32,
        fuel: usize,
    ) -> (r: Result<(TreeNode<A>, usize), ParseError>)
        requires
            scope < old(bb).scope_count(),
            pos < self.tokens@.len(),
            self.tokens@[pos as int] == XmlEvent::Start(*tag),
        ensures
            !(r matches Err(ParseError::NoMainTree)),
            plain_subtrees(self.tokens@) ==> reads_kept(*old(bb), *final(bb)),
            r matches Err(ParseError::UnknownNode(t)) ==> unregistered_tag(self.tokens@, *registry, t@),
            final(bb).extends(*old(bb)),
            r matches Ok((n, next)) ==> element_end(self.tokens@, pos as int, next as int),
            r matches Ok((n, next)) ==> nodes_of_elements(self.tokens@, pos + 1, next - 1, n.children@),
            r matches Ok((n, next)) ==> {
                &&& n.wf()
                &&& pos < next <= self.tokens@.len()
                &&& fresh_under(n, path_prefix@, scope)
                &&& n.data.meta.name == tag.name
                &&& (builtin_type(tag.name@) is Some ==> builtin_node_named(tag.name@, n.node) && fresh_builtin(n.node))
                &&& declared_builtin_ports(n.node, n.data.meta.manifest.ports.map())
                &&& (builtin_port_names(n.node) matches Some(names) ==> n.data.meta.manifest.ports.map().dom() == names)
                &&& n.data.meta.path@ == path_prefix@ + tag.name@
                &&& registry.type_of(tag.name@) == Some(n.data.meta.node_type)
                &&& n.data.meta.node_type == NodeType::Control ==> n.children@.len() >= 1
                &&& n.data.meta.node_type == NodeType::Decorator ==> n.children@.len() == 1
                &&& forall|i: int| 0 <= i < n.children@.len()
                    ==> fresh_under(#[trigger] n.children@[i], path_prefix@ + tag.name@ + "/"@, scope)
                &&& n.data.meta.port_values.map() == applied_ports(
                    Map::empty(),
                    tag.attributes@,
                    n.data.meta.manifest.ports.map(),
                )
            },
            registry.type_of(tag.name@) is None ==> r matches Err(ParseError::UnknownNode(_)),
            (registry.type_of(tag.name@) is Some && registry.type_of(tag.name@).unwrap() != NodeType::Control
                && registry.type_of(tag.name@).unwrap() != NodeType::Decorator)
                ==> r matches Err(ParseError::NodeTypeMismatch(_)),
            // An element without child elements.
            forall|k: int| #[trigger] only_comments(self.tokens@, pos + 1, k) && pos + 1 <= k < self.tokens@.len()
                && self.tokens@[k] is End ==> {
                &&& registry.type_of(tag.name@) == Some(NodeType::Control)
                    ==> (r matches Err(ParseError::ViolateNodeConstraint(m))
                        && m@ == "Control nodes must have at least one child"@)
                &&& registry.type_of(tag.name@) == Some(NodeType::Decorator)
                    ==> (r matches Err(ParseError::NodeTypeMismatch(m)) && m@ == "Decorator"@)
            },
            // A decorator whose first child element is followed by a second
            // element.
            registry.type_of(tag.name@) == Some(NodeType::Decorator) ==> forall|q: int, qn: int, q2: int|
                #![trigger only_comments(self.tokens@, pos + 1, q), element_end(self.tokens@, q, qn), only_comments(self.tokens@, qn, q2)]
                only_comments(self.tokens@, pos + 1, q) && pos + 1 <= q && element_end(self.tokens@, q, qn)
                && qn <= q2 < self.tokens@.len() && only_comments(self.tokens@, qn, q2)
                && (self.tokens@[q2] is Start || self.tokens@[q2] is Empty) ==> r is Err,
        decreases fuel, self.tokens@.len() - pos, 1nat,
    {
        proof {
            assert(self.tokens.len() == self.tokens@.len());
        }
        proof {
            reveal_strlit("Control nodes must have at least one child");
            reveal_strlit("Decorator");
        }
        let node_name = tag.name.as_str();
        let path = concat(path_prefix, node_name);
        let (node_type, node) = match registry.build_node(node_name) {
            Some(b) => b,
            None => {
                proof {
                    assert(is_tag_named(self.tokens@[pos as int], tag.name@));
                }
                return Err(ParseError::UnknownNode(tag.name.clone()));
            },
        };
        let manifest = TreeNodeManifest::new(node_type, tag.name.clone(), node_ports(&node), String::new());
        let mut meta = NodeMetadata::new(tag.name.clone(), path.clone(), node_type, manifest);
        let child_prefix = concat(path.as_str(), "/");
        match node_type {
            NodeType::Control => {
                let (children, next) = match self.build_children(registry, pos + 1, bb, scope, tree_name, child_prefix.as_str(), uid, fuel) {
                    Ok(c) => c,
                    Err(e) => return Err(e),
                };
                if children.len() == 0 {
                    return Err(ParseError::ViolateNodeConstraint(to_owned_string(
                        "Control nodes must have at least one child",
                    )));
                }
                match add_ports_to_node(&mut meta, node_name, &tag.attributes) {
                    Ok(_) => {},
                    Err(e) => return Err(e),
                }
                let n = make_node(meta, scope, node, children);
                proof {
                    lemma_wf_node(n);
                }
                Ok((n, next))
            },
            NodeType::Decorator => {
                let mut p = pos + 1;
                let mut child: Option<TreeNode<A>> = None;
                let ghost mut cp: int = 0;
                while p < self.tokens.len()
                    invariant_except_break
                        child is None,
                        only_comments(self.tokens@, pos + 1, p as int),
                        balanced(self.tokens@, pos + 1, p as int),
                        forall|k: int| #[trigger] only_comments(self.tokens@, pos + 1, k)
                            && pos + 1 <= k < self.tokens@.len() && !(self.tokens@[k] is Comment) ==> p <= k,
                    invariant
                        forall|k: int| #[trigger] only_comments(self.tokens@, pos + 1, k) && pos + 1 <= k < self.tokens@.len()
                            && self.tokens@[k] is End ==> p <= k,
                        child is Some ==> balanced(self.tokens@, pos + 1, p as int),
                        child is Some ==> element_end(self.tokens@, cp, p as int)
                            && only_comments(self.tokens@, pos + 1, cp) && pos + 1 <= cp
                            && node_of_element(child.unwrap(), self.tokens@[cp]),
                        pos < p,
                        scope < bb.scope_count(),
                        bb.extends(*old(bb)),
                        plain_subtrees(self.tokens@) ==> reads_kept(*old(bb), *bb),
                plain_subtrees(self.tokens@) ==> reads_kept(*old(bb), *bb),
                        registry.type_of(tag.name@) == Some(NodeType::Decorator),
                        child is Some ==> child.unwrap().wf() && fresh_under(child.unwrap(), child_prefix@, scope),
                        child is Some ==> forall|k: int| #[trigger] only_comments(self.tokens@, pos + 1, k)
                            && pos + 1 <= k < self.tokens@.len() ==> !(self.tokens@[k] is End),
                        child is Some ==> forall|q: int, qn: int| #[trigger] only_comments(self.tokens@, pos + 1, q)
                            && pos + 1 <= q && #[trigger] element_end(self.tokens@, q, qn) ==> p == qn,
                    ensures
                        child is None ==> p >= self.tokens@.len(),
                    decreases self.tokens@.len() - p,
                {
                    match self.build_child(registry, p, bb, scope, tree_name, child_prefix.as_str(), uid, fuel) {
                        Ok((CreateNodeControl::Node(c), next)) => {
                            proof {
                                assert forall|k: int| #[trigger] only_comments(self.tokens@, pos + 1, k)
                                    && pos + 1 <= k < self.tokens@.len() implies !(self.tokens@[k] is End) by {
                                    if self.tokens@[k] is End {
                                        assert(p <= k);
                                        if p < k {
                                            assert(self.tokens@[p as int] is Comment);
                                        }
                                    }
                                }
                                assert forall|q: int, qn: int| #[trigger] only_comments(self.tokens@, pos + 1, q)
                                    && pos + 1 <= q && #[trigger] element_end(self.tokens@, q, qn) implies next == qn by {
                                    assert(p <= q);
                                    if p < q {
                                        assert(self.tokens@[p as int] is Comment);
                                    }
                                    lemma_element_end_unique(self.tokens@, q, qn, next as int);
                                }
                            }
                            proof {
                                lemma_element_balanced(self.tokens@, p as int, next as int);
                                lemma_balanced_concat(self.tokens@, pos + 1, p as int, next as int);
                                cp = p as int;
                            }
                            child = Some(c);
                            p = next;
                            break;
                        },
                        Ok((CreateNodeControl::Continue, next)) => {
                            proof {
                                assert(self.tokens@[p as int] is Comment);
                                assert forall|k: int| #[trigger] only_comments(self.tokens@, pos + 1, k) && pos + 1 <= k < self.tokens@.len()
                                    && self.tokens@[k] is End implies next <= k by {
                                    if k == p {
                                        assert(!(self.tokens@[k] is End));
                                    }
                                }
                                assert forall|k: int| #[trigger] only_comments(self.tokens@, pos + 1, k) && pos + 1 <= k < self.tokens@.len()
                                    && !(self.tokens@[k] is Comment) implies next <= k by {
                                    if k == p {
                                        assert(self.tokens@[k] is Comment);
                                    }
                                }
                                lemma_balanced_other(self.tokens@, p as int);
                                lemma_balanced_concat(self.tokens@, pos + 1, p as int, next as int);
                            }
                            p = next;
                        },
                        Ok((CreateNodeControl::End, _)) => {
                            return Err(ParseError::NodeTypeMismatch(to_owned_string("Decorator")));
                        },
                        Err(e) => return Err(e),
                    }
                }
                let child = match child {
                    Some(c) => c,
                    None => return Err(ParseError::UnexpectedEof),
                };
                let mut end: usize = 0;
                let ghost first_next = p as int;
                while p < self.tokens.len()
                    invariant
                        pos < p,
                        end == 0 || (pos < end && end <= self.tokens@.len()),
                        bb.extends(*old(bb)),
                        plain_subtrees(self.tokens@) ==> reads_kept(*old(bb), *bb),
                plain_subtrees(self.tokens@) ==> reads_kept(*old(bb), *bb),
                        registry.type_of(tag.name@) == Some(NodeType::Decorator),
                        forall|k: int| #[trigger] only_comments(self.tokens@, pos + 1, k)
                            && pos + 1 <= k < self.tokens@.len() ==> !(self.tokens@[k] is End),
                        forall|q: int, qn: int| #[trigger] only_comments(self.tokens@, pos + 1, q)
                            && pos + 1 <= q && #[trigger] element_end(self.tokens@, q, qn) ==> first_next == qn,
                        first_next <= p,
                        only_comments(self.tokens@, first_next, p as int),
                        element_end(self.tokens@, cp, first_next),
                        only_comments(self.tokens@, pos + 1, cp),
                        pos + 1 <= cp,
                        node_of_element(child, self.tokens@[cp]),
                        end == 0 ==> balanced(self.tokens@, pos + 1, p as int),
                        end != 0 ==> end == p + 1 && balanced(self.tokens@, pos + 1, p as int)
                            && self.tokens@[p as int] is End,
                        end != 0 ==> forall|q2: int| #[trigger] only_comments(self.tokens@, first_next, q2)
                            && first_next <= q2 < self.tokens@.len() ==> !(self.tokens@[q2] is Start || self.tokens@[q2] is Empty),
                    decreases self.tokens@.len() - p,
                {
                    match &self.tokens[p] {
                        XmlEvent::Comment => {
                            proof {
                                lemma_balanced_other(self.tokens@, p as int);
                                lemma_balanced_concat(self.tokens@, pos + 1, p as int, p + 1);
                            }
                            p = p + 1;
                        },
                        XmlEvent::End(name) => {
                            if str_eq(name.as_str(), node_name) {
                                proof {
                                    assert forall|q2: int| #[trigger] only_comments(self.tokens@, first_next, q2)
                                        && first_next <= q2 < self.tokens@.len()
                                        implies !(self.tokens@[q2] is Start || self.tokens@[q2] is Empty) by {
                                        if q2 > p {
                                            assert(self.tokens@[p as int] is Comment);
                                        } else if q2 < p {
                                            assert(self.tokens@[q2] is Comment);
                                        }
                                    }
                                }
                                end = p + 1;
                                break;
                            } else {
                                return Err(ParseError::ViolateNodeConstraint(concat(
                                    "Expected end tag for Decorator ",
                                    node_name,
                                )));
                            }
                        },
                        _ => {
                            return Err(ParseError::ViolateNodeConstraint(concat(
                                concat("Decorator node [", node_name).as_str(),
                                "] may only have one child",
                            )));
                        },
                    }
                }
                if end == 0 {
                    return Err(ParseError::ViolateNodeConstraint(concat(
                        concat("Decorator node [", node_name).as_str(),
                        "] may only have one child",
                    )));
                }
                let ghost child_node = child;
                let mut children: Vec<TreeNode<A>> = Vec::new();
                proof {
                    lemma_push_wf(children@, child);
                }
                children.push(child);
                match add_ports_to_node(&mut meta, node_name, &tag.attributes) {
                    Ok(_) => {},
                    Err(e) => return Err(e),
                }
                let n = make_node(meta, scope, node, children);
                proof {
                    lemma_wf_node(n);
                    let es = seq![(cp, first_next)];
                    assert(es.drop_last() =~= Seq::<(int, int)>::empty());
                    assert(elements_at(self.tokens@, pos + 1, cp, Seq::<(int, int)>::empty()));
                    assert(es.last() == (cp, first_next));
                    assert(end - 1 == p);
                    assert(elements_at(self.tokens@, pos + 1, end - 1, es));
                    assert(n.children@[0] == child_node);
                    assert(nodes_of_elements(self.tokens@, pos + 1, end - 1, n.children@));
                }
                Ok((n, end))
            },
            other => Err(ParseError::NodeTypeMismatch(to_owned_string(other.as_str()))),
        }
    }

    /// Builds a `<SubTree>` node: a child scope of `scope` set up from the
    /// attributes (`_autoremap`, remappings from blackboard pointers, values
    /// otherwise), with the tree named by `ID` built in it.
    fn build_subtree_node<A: SyncActionNode + StatefulActionNode + Clone>(
        &self,
        registry: &NodeRegistry<A>,
        tag: &XmlTag,
        bb: &mut Blackboard,
        scope: usize,
        tree_name: &str,
        path_prefix: &str,
        uid: &mut u32,
        fuel: usize,
    ) -> (r: Result<TreeNode<A>, ParseError>)
        requires
            scope < old(bb).scope_count(),
        ensures
            !(r matches Err(ParseError::NoMainTree)),
            r matches Err(ParseError::UnknownNode(t)) ==> unregistered_tag(self.tokens@, *registry, t@),
            final(bb).extends(*old(bb)),
            r matches Ok(n) ==> {
                &&& n.wf()
                &&& fresh_under(n, path_prefix@, scope)
                &&& n.data.meta.node_type == NodeType::SubTree
                &&& n.children@.len() == 1
                &&& n.children@[0].data.scope == old(bb).scope_count()
                &&& final(bb).parent(old(bb).scope_count()) == Some(scope)
                &&& final(bb).auto(old(bb).scope_count()) == subtree_auto(tag.attributes@)
                &&& final(bb).remapping_view(old(bb).scope_count()) == subtree_remaps(tag.attributes@)
                &&& exists|i: int|
                    0 <= i < tag.attributes@.len() && tag.attributes@[i].0@ == "ID"@
                        && n.data.meta.name == tag.attributes@[i].1
                        && n.data.meta.path@ == path_prefix@ + tag.attributes@[i].1@
            },
            (exists|i: int| 0 <= i < tag.attributes@.len() && bad_autoremap(#[trigger] tag.attributes@[i]))
                ==> r matches Err(ParseError::ParseStringError(_)),
            (forall|i: int| 0 <= i < tag.attributes@.len() ==> tag.attributes@[i].0@ != "ID"@) ==> r is Err,
            // With plain attributes the writes stay in the new scope, and each
            // literal port value of the tag is there, as a string.
            plain_subtrees(self.tokens@) && plain_subtree_attrs(tag.attributes@)
                ==> reads_kept(*old(bb), *final(bb)),
            // The subtree's nodes are named under the subtree's own path.
            r matches Ok(n) ==> subtree_path_prefix(
                tree_name@,
                tag.attributes@,
                attr_value(tag.attributes@, "ID"@).unwrap(),
                *old(uid),
            ).is_prefix_of(n.children@[0].data.meta.path@),
            // Any other key of the new scope, without a remapping rule, reads
            // nothing.
            r is Ok && plain_subtrees(self.tokens@) && plain_subtree_attrs(tag.attributes@)
                ==> forall|key: Seq<char>|
                    (forall|i: int| 0 <= i < tag.attributes@.len() && literal_port(#[trigger] tag.attributes@[i])
                        ==> tag.attributes@[i].0@ != key)
                    && !subtree_remaps(tag.attributes@).contains_key(key)
                    ==> #[trigger] final(bb).read(old(bb).scope_count(), key) is None,
            r is Ok && plain_subtrees(self.tokens@) && plain_subtree_attrs(tag.attributes@)
                ==> forall|i: int| 0 <= i < tag.attributes@.len() && literal_port(#[trigger] tag.attributes@[i])
                    ==> final(bb).read(old(bb).scope_count(), tag.attributes@[i].0@)
                        == Some(ValueModel::String(tag.attributes@[i].1@)),
        decreases fuel, 0nat, 1nat,
    {
        let child_scope = bb.with_parent(scope);
        let ghost attrs = tag.attributes@;
        let mut i: usize = 0;
        while i < tag.attributes.len()
            invariant
                attrs == tag.attributes@,
                i <= attrs.len(),
                child_scope == old(bb).scope_count(),
                child_scope < bb.scope_count(),
                scope < bb.scope_count(),
                bb.extends(*old(bb)),
                bb.parent(child_scope as nat) == Some(scope),
                bb.auto(child_scope as nat) == subtree_auto(attrs.take(i as int)),
                bb.remapping_view(child_scope as nat) == subtree_remaps(attrs.take(i as int)),
                forall|j: int| 0 <= j < i ==> !bad_autoremap(#[trigger] attrs[j]),
                plain_subtree_attrs(attrs) ==> !bb.auto(child_scope as nat),
                plain_subtree_attrs(attrs) ==> reads_kept(*old(bb), *bb),
                plain_subtree_attrs(attrs) ==> forall|key: Seq<char>| #[trigger] bb.storage(child_scope as nat).contains_key(key)
                    ==> exists|j: int| 0 <= j < i && literal_port(attrs[j]) && attrs[j].0@ == key,
                plain_subtree_attrs(attrs) ==> forall|key: Seq<char>| #[trigger] bb.remapping(child_scope as nat).contains_key(key)
                    ==> exists|j: int| 0 <= j < i && attrs[j].0@ == key,
                plain_subtree_attrs(attrs) ==> forall|j: int| 0 <= j < i && literal_port(#[trigger] attrs[j])
                    ==> bb.storage(child_scope as nat).contains_key(attrs[j].0@)
                        && (bb.storage(child_scope as nat)[attrs[j].0@] as nat) < bb.entry_count()
                        && bb.entry(bb.storage(child_scope as nat)[attrs[j].0@] as nat) == ValueModel::String(attrs[j].1@),
            decreases attrs.len() - i,
        {
            let attr = tag.attributes[i].0.as_str();
            let value = tag.attributes[i].1.as_str();
            proof {
                assert(attrs.take(i + 1).drop_last() =~= attrs.take(i as int));
                assert(attrs.take(i + 1).last() == attrs[i as int]);
            }
            let ghost before = *bb;
            if str_eq(attr, "_autoremap") {
                match parse_bool(value) {
                    Some(b) => bb.set_auto_remapping(child_scope, b),
                    None => return Err(ParseError::ParseStringError(to_owned_string(
                        "provided string was not `true` or `false`",
                    ))),
                }
                proof {
                    assert(bb.remapping_view(child_scope as nat) =~= before.remapping_view(child_scope as nat));
                }
            } else if is_allowed_port_name(attr) {
                match strip_bb_pointer(value) {
                    Some(k) => {
                        let internal = to_owned_string(attr);
                        let external = to_owned_string(k);
                        bb.add_subtree_remapping(child_scope, internal, external);
                        proof {
                            assert(bb.remapping_view(child_scope as nat) =~= before.remapping_view(
                                child_scope as nat,
                            ).insert(attr@, k@));
                        }
                    },
                    None => {
                        proof {
                            if plain_subtree_attrs(attrs) {
                                if bb.storage(child_scope as nat).contains_key(attr@) {
                                    let j = choose|j: int| 0 <= j < i && literal_port(attrs[j]) && attrs[j].0@ == attr@;
                                    assert(attrs[j].0@ != attrs[i as int].0@);
                                }
                                if bb.remapping(child_scope as nat).contains_key(attr@) {
                                    let j = choose|j: int| 0 <= j < i && attrs[j].0@ == attr@;
                                    assert(attrs[j].0@ != attrs[i as int].0@);
                                }
                                bb.lemma_unmapped_resolution(child_scope as nat, attr@);
                            }
                        }
                        let stored = Value::String(to_owned_string(value));
                        proof {
                            assert(stored@ == ValueModel::String(attrs[i as int].1@));
                        }
                        bb.set(child_scope, attr, stored);
                        proof {
                            assert(bb.parent(child_scope as nat) == before.parent(child_scope as nat));
                            assert(bb.remapping_view(child_scope as nat) =~= before.remapping_view(child_scope as nat));
                            if plain_subtree_attrs(attrs) {
                                let e = before.entry_count();
                                before.lemma_entry_count_fits();
                                assert(before.resolve(child_scope as nat, attr@) == Resolution::Create(child_scope as nat, attr@));
                                assert(bb.set_effect(&before, child_scope as nat, attr@, stored@));
                                assert(bb.storage(child_scope as nat) == before.storage(child_scope as nat).insert(attr@, e as usize));
                                assert(bb.entry(e) == ValueModel::String(attrs[i as int].1@));
                                assert forall|j: int| 0 <= j < i + 1 && literal_port(#[trigger] attrs[j])
                                    implies bb.storage(child_scope as nat).contains_key(attrs[j].0@)
                                        && (bb.storage(child_scope as nat)[attrs[j].0@] as nat) < bb.entry_count()
                                        && bb.entry(bb.storage(child_scope as nat)[attrs[j].0@] as nat)
                                            == ValueModel::String(attrs[j].1@) by {
                                    if j < i {
                                        assert(attrs[j].0@ != attrs[i as int].0@);
                                        let idx = before.storage(child_scope as nat)[attrs[j].0@] as nat;
                                        assert(bb.entry(idx) == before.entry(idx));
                                    } else {
                                        assert(attrs[j] == attrs[i as int]);
                                    }
                                }
                                assert forall|key: Seq<char>| #[trigger] bb.storage(child_scope as nat).contains_key(key)
                                    implies exists|j: int| 0 <= j < i + 1 && literal_port(attrs[j]) && attrs[j].0@ == key by {
                                    if key != attr@ {
                                        assert(before.storage(child_scope as nat).contains_key(key));
                                    } else {
                                        assert(attrs[i as int].0@ == key && literal_port(attrs[i as int]));
                                    }
                                }
                            }
                        }
                    },
                }
            } else {
                proof {
                    assert(bb.remapping_view(child_scope as nat) =~= before.remapping_view(child_scope as nat));
                }
            }
            i = i + 1;
        }
        proof {
            assert(attrs.take(i as int) =~= attrs);
            if plain_subtree_attrs(attrs) {
                assert forall|j: int| 0 <= j < attrs.len() && literal_port(#[trigger] attrs[j])
                    implies bb.read(child_scope as nat, attrs[j].0@) == Some(ValueModel::String(attrs[j].1@)) by {
                    bb.lemma_stored_read(child_scope as nat, attrs[j].0@);
                }
                assert forall|key: Seq<char>|
                    (forall|j: int| 0 <= j < attrs.len() && literal_port(#[trigger] attrs[j]) ==> attrs[j].0@ != key)
                    && !subtree_remaps(attrs).contains_key(key)
                    implies #[trigger] bb.read(child_scope as nat, key) is None by {
                    if bb.storage(child_scope as nat).contains_key(key) {
                        let j = choose|j: int| 0 <= j < i && literal_port(attrs[j]) && attrs[j].0@ == key;
                        assert(literal_port(attrs[j]));
                    }
                    assert(!bb.remapping_view(child_scope as nat).contains_key(key));
                    bb.lemma_unmapped_read(child_scope as nat, key);
                }
            }
        }
        let ghost filled = *bb;
        let id = match attribute(tag, "ID") {
            Some(id) => id,
            None => return Err(ParseError::MissingAttribute(to_owned_string("ID"))),
        };
        let mut subtree_name = to_owned_string(tree_name);
        if tree_name.unicode_len() > 0 {
            subtree_name = concat(subtree_name.as_str(), "/");
        }
        match attribute(tag, "name") {
            Some(name) => {
                subtree_name = concat(subtree_name.as_str(), name.as_str());
            },
            None => {
                let n = get_uid(uid);
                let with_id = concat(concat(subtree_name.as_str(), id.as_str()).as_str(), "::");
                subtree_name = concat(with_id.as_str(), u64_to_string(n as u64).as_str());
            },
        }
        let new_prefix = concat(subtree_name.as_str(), "/");
        let path = concat(path_prefix, id.as_str());
        if fuel == 0 {
            return Err(ParseError::ViolateNodeConstraint(concat(
                concat("SubTree [", id.as_str()).as_str(),
                "] includes itself",
            )));
        }
        let ghost mid = *bb;
        let child = match self.recursively_build_subtree(registry, id.as_str(), subtree_name.as_str(), new_prefix.as_str(), bb, child_scope, uid, fuel - 1) {
            Ok(c) => c,
            Err(e) => return Err(e),
        };
        proof {
            assert(bb.parent(child_scope as nat) == mid.parent(child_scope as nat));
        }
        let manifest = TreeNodeManifest::new(NodeType::Control, tag.name.clone(), PortsList::new(), String::new());
        let meta = NodeMetadata::new(id.clone(), path, NodeType::SubTree, manifest);
        let mut children: Vec<TreeNode<A>> = Vec::new();
        proof {
            lemma_push_wf(children@, child);
        }
        children.push(child);
        let n = make_node(meta, scope, NodeImpl::SubTree(SubTreeNode), children);
        proof {
            lemma_wf_node(n);
            assert(path_prefix@.is_prefix_of(n.data.meta.path@)) by {
                assert(path_prefix@ =~= n.data.meta.path@.subrange(0, path_prefix@.len() as int));
            }
        }
        Ok(n)
    }

    /// Reads the element at `pos`: a node with its subtree, a comment to
    /// skip, or the end tag of the enclosing element. Returns it with the
    /// index after it.
    fn build_child<A: SyncActionNode + StatefulActionNode + Clone>(
        &self,
        registry: &NodeRegistry<A>,
        pos: usize,
        bb: &mut Blackboard,
        scope: usize,
        tree_name: &str,
        path_prefix: &str,
        uid: &mut u32,
        fuel: usize,
    ) -> (r: Result<(CreateNodeControl<A>, usize), ParseError>)
        requires
            scope < old(bb).scope_count(),
        ensures
            !(r matches Err(ParseError::NoMainTree)),
            plain_subtrees(self.tokens@) ==> reads_kept(*old(bb), *final(bb)),
            r matches Err(ParseError::UnknownNode(t)) ==> unregistered_tag(self.tokens@, *registry, t@),
            final(bb).extends(*old(bb)),
            r matches Ok((c, next)) ==> pos < next <= self.tokens@.len()
                && (c matches CreateNodeControl::Node(n) ==> n.wf() && fresh_under(n, path_prefix@, scope)),
            r matches Ok((c, next)) ==> (c is Node ==> element_end(self.tokens@, pos as int, next as int)),
            pos >= self.tokens@.len() ==> r matches Err(ParseError::UnexpectedEof),
            pos < self.tokens@.len() ==> match self.tokens@[pos as int] {
                XmlEvent::End(_) => r matches Ok((CreateNodeControl::End, next)) && next == pos + 1,
                XmlEvent::Comment => r matches Ok((CreateNodeControl::Continue, next)) && next == pos + 1,
                XmlEvent::Decl | XmlEvent::Other => r matches Err(ParseError::InternalError(_)),
                XmlEvent::Start(tag) => {
                    &&& (r matches Ok((c, _)) ==> (c matches CreateNodeControl::Node(n)
                        && n.data.meta.name == tag.name
                        && n.data.meta.path@ == path_prefix@ + tag.name@
                        && (builtin_type(tag.name@) is Some ==> builtin_node_named(tag.name@, n.node) && fresh_builtin(n.node))
                        && declared_builtin_ports(n.node, n.data.meta.manifest.ports.map())
                        && (builtin_port_names(n.node) matches Some(names) ==> n.data.meta.manifest.ports.map().dom() == names)
                        && registry.type_of(tag.name@) == Some(n.data.meta.node_type)
                        && (n.data.meta.node_type == NodeType::Control || n.data.meta.node_type == NodeType::Decorator)))
                    &&& (r matches Ok((c, next)) ==> (c matches CreateNodeControl::Node(n)
                        && nodes_of_elements(self.tokens@, pos + 1, next - 1, n.children@)
                        && (n.data.meta.node_type == NodeType::Control ==> n.children@.len() >= 1)
                        && (n.data.meta.node_type == NodeType::Decorator ==> n.children@.len() == 1)
                        && forall|i: int| 0 <= i < n.children@.len()
                            ==> fresh_under(#[trigger] n.children@[i], path_prefix@ + tag.name@ + "/"@, scope)))
                    &&& (registry.type_of(tag.name@) is None ==> r matches Err(ParseError::UnknownNode(_)))
                    &&& (forall|k: int| #[trigger] only_comments(self.tokens@, pos + 1, k) && pos + 1 <= k < self.tokens@.len()
                        && self.tokens@[k] is End ==> {
                        &&& registry.type_of(tag.name@) == Some(NodeType::Control)
                            ==> (r matches Err(ParseError::ViolateNodeConstraint(m))
                                && m@ == "Control nodes must have at least one child"@)
                        &&& registry.type_of(tag.name@) == Some(NodeType::Decorator)
                            ==> (r matches Err(ParseError::NodeTypeMismatch(m)) && m@ == "Decorator"@)
                    })
                    &&& (registry.type_of(tag.name@) == Some(NodeType::Decorator) ==> forall|q: int, qn: int, q2: int|
                        #![trigger only_comments(self.tokens@, pos + 1, q), element_end(self.tokens@, q, qn), only_comments(self.tokens@, qn, q2)]
                        only_comments(self.tokens@, pos + 1, q) && pos + 1 <= q && element_end(self.tokens@, q, qn)
                        && qn <= q2 < self.tokens@.len() && only_comments(self.tokens@, qn, q2)
                        && (self.tokens@[q2] is Start || self.tokens@[q2] is Empty) ==> r is Err)
                },
                XmlEvent::Empty(tag) => if tag.name@ == "SubTree"@ {
                    &&& (r matches Ok((c, next)) ==> (next == pos + 1 && (c matches CreateNodeControl::Node(n)
                        && n.data.meta.node_type == NodeType::SubTree && n.children@.len() == 1)))
                    &&& ((forall|i: int| 0 <= i < tag.attributes@.len() ==> tag.attributes@[i].0@ != "ID"@) ==> r is Err)
                } else {
                    &&& (r matches Ok((c, next)) ==> (next == pos + 1 && (c matches CreateNodeControl::Node(n)
                        && n.data.meta.name == tag.name
                        && n.data.meta.path@ == path_prefix@ + tag.name@
                        && (builtin_type(tag.name@) is Some ==> builtin_node_named(tag.name@, n.node) && fresh_builtin(n.node))
                        && declared_builtin_ports(n.node, n.data.meta.manifest.ports.map())
                        && (builtin_port_names(n.node) matches Some(names) ==> n.data.meta.manifest.ports.map().dom() == names)
                        && n.data.meta.node_type == NodeType::Action
                        && registry.type_of(tag.name@) == Some(NodeType::Action)
                        && n.children@.len() == 0
                        && n.data.meta.port_values.map() == applied_ports(
                            Map::empty(),
                            tag.attributes@,
                            n.data.meta.manifest.ports.map(),
                        ))))
                    &&& (registry.type_of(tag.name@) is None ==> r matches Err(ParseError::UnknownNode(_)))
                    &&& ((registry.type_of(tag.name@) is Some && registry.type_of(tag.name@).unwrap() != NodeType::Action)
                        ==> r matches Err(ParseError::NodeTypeMismatch(_)))
                    &&& (registry.type_of(tag.name@) == Some(NodeType::Action) && r is Err ==> is_port_error(r))
                },
            },
        decreases fuel, self.tokens@.len() - pos, 2nat,
    {
        if pos >= self.tokens.len() {
            return Err(ParseError::UnexpectedEof);
        }
        match &self.tokens[pos] {
            XmlEvent::Start(tag) => {
                match self.build_parent(registry, pos, tag, bb, scope, tree_name, path_prefix, uid, fuel) {
                    Ok((n, next)) => Ok((CreateNodeControl::Node(n), next)),
                    Err(e) => Err(e),
                }
            },
            XmlEvent::Empty(tag) => {
                let node_name = tag.name.as_str();
                if str_eq(node_name, "SubTree") {
                    match self.build_subtree_node(registry, tag, bb, scope, tree_name, path_prefix, uid, fuel) {
                        Ok(n) => Ok((CreateNodeControl::Node(n), pos + 1)),
                        Err(e) => Err(e),
                    }
                } else {
                    let (node_type, node) = match registry.build_node(node_name) {
                        Some(b) => b,
                        None => {
                            proof {
                                assert(is_tag_named(self.tokens@[pos as int], tag.name@));
                            }
                            return Err(ParseError::UnknownNode(tag.name.clone()));
                        },
                    };
                    if node_type != NodeType::Action {
                        return Err(ParseError::NodeTypeMismatch(to_owned_string("Action")));
                    }
                    let path = concat(path_prefix, node_name);
                    let manifest = TreeNodeManifest::new(node_type, tag.name.clone(), node_ports(&node), String::new());
                    let mut meta = NodeMetadata::new(tag.name.clone(), path, node_type, manifest);
                    match add_ports_to_node(&mut meta, node_name, &tag.attributes) {
                        Ok(_) => {},
                        Err(e) => return Err(e),
                    }
                    let n = make_node(meta, scope, node, Vec::new());
                    proof {
                        lemma_wf_node(n);
                    }
                    Ok((CreateNodeControl::Node(n), pos + 1))
                }
            },
            XmlEvent::End(_) => Ok((CreateNodeControl::End, pos + 1)),
            XmlEvent::Comment => Ok((CreateNodeControl::Continue, pos + 1)),
            _ => Err(ParseError::InternalError(to_owned_string(
                "Didn't match one of the expected XML tag types.",
            ))),
        }
    }
}

/// The ID of the tree to build: the name the caller gave, else the main
/// tree named in the XML, else the only tree there is.
pub open spec fn spec_select_tree(
    n_trees: nat,
    first_tree: Seq<char>,
    main_tree_id: Option<Seq<char>>,
    tree_name: Option<Seq<char>>,
) -> Option<Seq<char>> {
    match tree_name {
        Some(name) => Some(name),
        None => match main_tree_id {
            Some(id) => Some(id),
            None => if n_trees == 1 { Some(first_tree) } else { None },
        },
    }
}

/// The ID of the tree to build among the registered trees `trees`: the
/// name the caller gave, else the main tree named in the XML, else the only
/// tree there is.
pub open spec fn tree_choice(
    trees: Map<Seq<char>, usize>,
    main_tree_id: Option<Seq<char>>,
    tree_name: Option<Seq<char>>,
) -> Option<Seq<char>> {
    match tree_name {
        Some(name) => Some(name),
        None => match main_tree_id {
            Some(id) => Some(id),
            None => if trees.dom().len() == 1 { Some(trees.dom().choose()) } else { None },
        },
    }
}

/// The text of an optional string slice.
pub open spec fn opt_str_view(o: Option<&str>) -> Option<Seq<char>> {
    match o {
        Some(s) => Some(s@),
        None => None,
    }
}

/// What building the chosen tree of the document whose `<root>` start tag is
/// at `k` gives, when its content registers its trees in `roots`: the main
/// tree is the `main_tree_to_execute` of `<root>`, else `main_tree_id`.
/// `NoMainTree` when no tree is chosen, `UnknownTree` when the chosen ID is
/// not a tree of the document, and otherwise a root built from the element
/// inside the chosen tree, if any.
pub open spec fn chosen_tree_result<A>(
    tokens: Seq<XmlEvent>,
    k: int,
    roots: Map<Seq<char>, usize>,
    main_tree_id: Option<Seq<char>>,
    tree_name: Option<Seq<char>>,
    r: Result<TreeNode<A>, ParseError>,
) -> bool {
    scan_trees(tokens, k + 1, roots) matches Some(m) ==> {
        let main = match attr_value(tokens[k]->Start_0.attributes@, "main_tree_to_execute"@) {
            Some(v) => Some(v),
            None => main_tree_id,
        };
        match tree_choice(m, main, tree_name) {
            None => r matches Err(ParseError::NoMainTree),
            Some(id) => {
                &&& !(r matches Err(ParseError::NoMainTree))
                &&& (!m.contains_key(id) ==> (r matches Err(ParseError::UnknownTree(t)) && t@ == id))
                &&& (r matches Ok(n) ==> m.contains_key(id) && root_element(tokens, m[id] as int, n))
            },
        }
    }
}

/// With distinct keys, the choice over the list of trees is the choice over
/// the map they denote.
proof fn lemma_choice_of_entries(roots: StrMap<usize>, main: Option<Seq<char>>, name: Option<Seq<char>>)
    requires
        keys_distinct(roots.entries()),
    ensures
        ({
            let first = if roots.entries().len() > 0 { roots.entries()[0].0@ } else { Seq::empty() };
            spec_select_tree(roots.entries().len(), first, main, name) == tree_choice(roots.map(), main, name)
        }),
{
    lemma_distinct_keys_len(roots.entries());
    if roots.entries().len() == 1 {
        let d = roots.map().dom();
        assert(d.contains(d.choose()));
    }
}

impl Parser {
    /// The ID of the tree to build, after the trees were registered; see
    /// [`spec_select_tree`].
    fn select_tree(&self, tree_name: Option<&str>) -> (r: Result<String, ParseError>)
        ensures
            ({
                let first = if self.tree_roots.entries().len() > 0 { self.tree_roots.entries()[0].0@ } else { Seq::empty() };
                let main = match self.main_tree_id { Some(m) => Some(m@), None => None };
                let name = match tree_name { Some(n) => Some(n@), None => None };
                match spec_select_tree(self.tree_roots.entries().len(), first, main, name) {
                    Some(id) => r is Ok && r.unwrap()@ == id,
                    None => r matches Err(ParseError::NoMainTree),
                }
            }),
    {
        let n = self.tree_roots.len();
        if n > 1 && self.main_tree_id.is_none() && tree_name.is_none() {
            Err(ParseError::NoMainTree)
        } else if n == 1 && self.main_tree_id.is_none() && tree_name.is_none() {
            Ok(self.tree_roots.key_at(0).clone())
        } else if tree_name.is_some() {
            Ok(to_owned_string(tree_name.unwrap()))
        } else if self.main_tree_id.is_some() {
            Ok(self.main_tree_id.as_ref().unwrap().clone())
        } else {
            Err(ParseError::NoMainTree)
        }
    }

    /// Builds, in `scope`, the registered tree that [`spec_select_tree`]
    /// chooses: `NoMainTree` when it chooses none, `UnknownTree` when no tree
    /// of the chosen ID is registered.
    pub(crate) fn build_selected_tree<A: SyncActionNode + StatefulActionNode + Clone>(
        &mut self,
        registry: &NodeRegistry<A>,
        tree_name: Option<&str>,
        bb: &mut Blackboard,
        scope: usize,
    ) -> (r: Result<TreeNode<A>, ParseError>)
        requires
            scope < old(bb).scope_count(),
        ensures
            r matches Err(ParseError::UnknownNode(t)) ==> unregistered_tag(old(self).tokens@, *registry, t@),
            final(bb).extends(*old(bb)),
            final(self).tokens == old(self).tokens,
            final(self).tree_roots == old(self).tree_roots,
            final(self).main_tree_id == old(self).main_tree_id,
            r matches Ok(n) ==> n.wf() && fresh_under(n, Seq::empty(), scope),
            ({
                let s = *old(self);
                let first = if s.tree_roots.entries().len() > 0 { s.tree_roots.entries()[0].0@ } else { Seq::empty() };
                let main = match s.main_tree_id { Some(m) => Some(m@), None => None };
                let name = match tree_name { Some(n) => Some(n@), None => None };
                match spec_select_tree(s.tree_roots.entries().len(), first, main, name) {
                    None => r matches Err(ParseError::NoMainTree),
                    Some(id) => {
                        &&& !(r matches Err(ParseError::NoMainTree))
                        &&& (!s.tree_roots.map().contains_key(id) ==> (r matches Err(ParseError::UnknownTree(t)) && t@ == id))
                        &&& (r matches Ok(n) ==> s.tree_roots.map().contains_key(id)
                            && root_element(s.tokens@, s.tree_roots.map()[id] as int, n))
                    },
                }
            }),
    {
        let tree_id = match self.select_tree(tree_name) {
            Ok(id) => id,
            Err(e) => return Err(e),
        };
        let mut uid = self.tree_uid;
        let fuel = self.tree_roots.len();
        let r = self.recursively_build_subtree(registry, tree_id.as_str(), "", "", bb, scope, &mut uid, fuel);
        self.tree_uid = uid;
        r
    }

    /// Registers the trees of the XML and builds the chosen one in `scope`;
    /// see [`Parser::build_selected_tree`].
    pub(crate) fn create_tree<A: SyncActionNode + StatefulActionNode + Clone>(
        &mut self,
        registry: &NodeRegistry<A>,
        tree_name: Option<&str>,
        bb: &mut Blackboard,
        scope: usize,
    ) -> (r: Result<TreeNode<A>, ParseError>)
        requires
            scope < old(bb).scope_count(),
            old(self).roots_wf(),
        ensures
            r matches Err(ParseError::UnknownNode(t)) ==> unregistered_tag(old(self).tokens@, *registry, t@),
            final(bb).extends(*old(bb)),
            r matches Ok(n) ==> n.wf() && fresh_under(n, Seq::empty(), scope),
            r is Ok ==> final(self).roots_wf(),
            final(self).tokens == old(self).tokens,
            // A document of the expected form builds the tree it chooses.
            forall|k: int| #[trigger] root_at(old(self).tokens@, k) ==> chosen_tree_result(
                old(self).tokens@,
                k,
                old(self).tree_roots.map(),
                opt_view(old(self).main_tree_id),
                opt_str_view(tree_name),
                r,
            ),
            r matches Ok(root) ==> ({
                let s = *final(self);
                let first = if s.tree_roots.entries().len() > 0 { s.tree_roots.entries()[0].0@ } else { Seq::empty() };
                let main = match s.main_tree_id { Some(m) => Some(m@), None => None };
                let name = match tree_name { Some(n) => Some(n@), None => None };
                spec_select_tree(s.tree_roots.entries().len(), first, main, name) matches Some(id)
                    && s.tree_roots.map().contains_key(id)
                    && tree_starts_at(s.tokens@, id, s.tree_roots.map()[id])
                    && root_element(s.tokens@, s.tree_roots.map()[id] as int, root)
            }),
    {
        match self.register_bt_from_text() {
            Ok(_) => {},
            Err(e) => return Err(e),
        }
        let ghost registered = *self;
        let r = self.build_selected_tree(registry, tree_name, bb, scope);
        proof {
            let main = match registered.main_tree_id { Some(m) => Some(m@), None => None };
            lemma_choice_of_entries(registered.tree_roots, main, opt_str_view(tree_name));
            assert(opt_view(registered.main_tree_id) == main);
        }
        r
    }
}

} // verus!
