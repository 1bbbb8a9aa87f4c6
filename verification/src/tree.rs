//! A behavior tree: the root node with the blackboard of its scopes, and
//! the ways to tick it.

use vstd::prelude::*;

use crate::basic_types::NodeStatus;
use crate::blackboard::Blackboard;
use crate::error::ParseError;
use crate::node_registry::NodeRegistry;
use crate::nodes::{child_faulted, NodeError, NodeResult, StatefulActionNode, SyncActionNode, TreeNode};
use crate::parser::{chosen_tree_result, opt_str_view, root_at, root_element, tree_starts_at, unregistered_tag, Parser};
use crate::text::to_owned_string;
use crate::xml::{document_events, events_of, tokenize, xml_unreadable, XmlEvent};

verus! {

/// How often the root is ticked.
#[derive(Debug, Clone, Copy, PartialEq, Eq, Structural)]
pub enum TickOption {
    /// Until the root is neither idle nor running
    WhileRunning,
    /// Until the root is not idle
    ExactlyOnce,
    /// Until the root is not idle
    OnceUnlessWokenUp,
}

/// Whether the root is ticked again after returning `s`.
pub open spec fn ticks_again(opt: TickOption, s: NodeStatus) -> bool {
    s == NodeStatus::Idle || (opt == TickOption::WhileRunning && s == NodeStatus::Running)
}

/// The nodes of a subtree in pre-order: the node, then the subtrees of its
/// children in order.
pub open spec fn preorder<A>(t: TreeNode<A>) -> Seq<TreeNode<A>>
    decreases t,
{
    seq![t] + preorder_all(t.children@)
}

/// The pre-order nodes of each subtree in `c`, one after another.
pub open spec fn preorder_all<A>(c: Seq<TreeNode<A>>) -> Seq<TreeNode<A>>
    decreases c,
{
    if c.len() == 0 {
        Seq::empty()
    } else {
        preorder_all(c.drop_last()) + preorder(c.last())
    }
}

/// The nodes that a list of references refers to.
pub open spec fn derefs<A>(s: Seq<&TreeNode<A>>) -> Seq<TreeNode<A>> {
    s.map_values(|r: &TreeNode<A>| *r)
}

/// Adds the nodes of the subtree at `node` to `out`, in pre-order.
fn collect_nodes<'a, A>(node: &'a TreeNode<A>, out: &mut Vec<&'a TreeNode<A>>)
    ensures
        derefs(final(out)@) == derefs(old(out)@) + preorder(*node),
    decreases *node,
{
    let ghost start = derefs(out@);
    out.push(node);
    let mut i: usize = 0;
    while i < node.children.len()
        invariant
            i <= node.children@.len(),
            derefs(out@) == start.push(*node) + preorder_all(node.children@.take(i as int)),
        decreases node.children@.len() - i,
    {
        proof {
            assert(node.children@.take(i + 1).drop_last() =~= node.children@.take(i as int));
            assert(node.children@.take(i + 1).last() == node.children@[i as int]);
            assert(decreases_to!(*node => node.children));
        }
        let ghost before = derefs(out@);
        collect_nodes(&node.children[i], out);
        proof {
            assert(derefs(out@) =~= start.push(*node) + preorder_all(node.children@.take(i + 1)));
        }
        i = i + 1;
    }
    proof {
        assert(node.children@.take(i as int) =~= node.children@);
        assert(derefs(out@) =~= start + preorder(*node));
    }
}

/// A behavior tree.
pub struct Tree<A> {
    root: TreeNode<A>,
    blackboard: Blackboard,
}

/// The root node of a built tree, or the error.
pub open spec fn built_root<A: SyncActionNode + StatefulActionNode>(r: Result<Tree<A>, ParseError>) -> Result<TreeNode<A>, ParseError> {
    match r {
        Ok(t) => Ok(t.root_node()),
        Err(e) => Err(e),
    }
}

/// Builds a tree from XML.
pub struct TreeBuilder<'a, A> {
    pub registry: &'a NodeRegistry<A>,
    pub xml: &'a str,
    pub tree_name: Option<&'a str>,
    pub blackboard: Option<Blackboard>,
}

impl<'a, A: SyncActionNode + StatefulActionNode + Clone> TreeBuilder<'a, A> {
    /// Builds the tree with this ID.
    pub fn tree_name(self, name: &'a str) -> (r: Self)
        ensures
            r.tree_name == Some(name),
            r.registry == self.registry,
            r.xml == self.xml,
            r.blackboard == self.blackboard,
    {
        TreeBuilder { tree_name: Some(name), ..self }
    }

    /// Builds the tree over this blackboard, in its root scope.
    pub fn blackboard(self, blackboard: Blackboard) -> (r: Self)
        ensures
            r.blackboard == Some(blackboard),
            r.registry == self.registry,
            r.xml == self.xml,
            r.tree_name == self.tree_name,
    {
        TreeBuilder { blackboard: Some(blackboard), ..self }
    }

    /// Reads the XML and builds the tree: the one named with
    /// [`TreeBuilder::tree_name`], else the `main_tree_to_execute` of the
    /// XML, else its only tree. The tree's nodes use the blackboard's root
    /// scope, or a new blackboard's.
    pub fn build(self) -> (r: Result<Tree<A>, ParseError>)
        ensures
            r matches Ok(t) ==> {
                &&& t.wf()
                &&& t.root_node().data.scope == 0
                &&& t.root_node().data.status == NodeStatus::Idle
                &&& t.root_node().last_tick() is None
                &&& self.blackboard matches Some(b) ==> t.spec_blackboard().extends(b)
            },
            // The root is the node of the element inside the chosen
            // `<BehaviorTree>` of the XML's events.
            r matches Ok(t) ==> exists|ev: Seq<XmlEvent>, id: Seq<char>, p: usize|
                #![trigger events_of(self.xml@, ev), tree_starts_at(ev, id, p)]
                events_of(self.xml@, ev) && tree_starts_at(ev, id, p) && root_element(ev, p as int, t.root_node())
                && (self.tree_name matches Some(name) ==> id == name@),
            // XML that reads builds the tree that its `<root>` chooses:
            // `NoMainTree` when it chooses none, `UnknownTree` when it is not
            // there.
            // An unknown node is one that the XML names and the registry
            // does not know.
            r matches Err(ParseError::UnknownNode(t)) ==> exists|ev: Seq<XmlEvent>| #[trigger] document_events(self.xml@, ev)
                && unregistered_tag(ev, *self.registry, t@),
            !xml_unreadable(self.xml@) ==> exists|ev: Seq<XmlEvent>| #[trigger] document_events(self.xml@, ev)
                && forall|k: int| #[trigger] root_at(ev, k) ==> chosen_tree_result(
                    ev,
                    k,
                    Map::empty(),
                    None,
                    opt_str_view(self.tree_name),
                    built_root(r),
                ),
    {
        let tokens = match tokenize(self.xml) {
            Ok(t) => t,
            Err(e) => return Err(e),
        };
        let mut bb = match self.blackboard {
            Some(b) => b,
            None => Blackboard::new(),
        };
        let scope = bb.root();
        let mut parser = Parser::new(tokens);
        let ghost ev = parser.tokens@;
        let result = parser.create_tree(self.registry, self.tree_name, &mut bb, scope);
        let r = match result {
            Ok(root) => Ok(Tree { root, blackboard: bb }),
            Err(e) => Err(e),
        };
        proof {
            assert(built_root(r) == result);
            assert(document_events(self.xml@, ev));
        }
        r
    }
}

impl<A: SyncActionNode + StatefulActionNode> Tree<A> {
    /// Every decorator of the tree has one child.
    pub closed spec fn wf(&self) -> bool {
        self.root.wf()
    }

    /// The root node.
    pub closed spec fn root_node(&self) -> TreeNode<A> {
        self.root
    }

    /// The blackboard.
    pub closed spec fn spec_blackboard(&self) -> Blackboard {
        self.blackboard
    }

    /// A tree with this root.
    pub fn new(root: TreeNode<A>, blackboard: Blackboard) -> (r: Tree<A>)
        requires
            root.wf(),
        ensures
            r.wf(),
            r.root_node() == root,
            r.spec_blackboard() == blackboard,
    {
        Tree { root, blackboard }
    }

    /// A builder for a tree from `xml`, with the nodes of `node_registry`.
    pub fn builder<'a>(xml: &'a str, node_registry: &'a NodeRegistry<A>) -> (r: TreeBuilder<'a, A>)
        ensures
            r.xml == xml,
            r.registry == node_registry,
            r.tree_name is None,
            r.blackboard is None,
    {
        TreeBuilder { registry: node_registry, xml, tree_name: None, blackboard: None }
    }

    /// Ticks the root until it returns neither `Idle` nor, with
    /// `WhileRunning`, `Running`; a completed root is set back to `Idle`.
    /// (A root that has not stopped after `u64::MAX` ticks is reported as
    /// a `StatusError`.)
    fn tick_root(&mut self, opt: TickOption) -> (r: NodeResult)
        requires
            old(self).wf(),
        ensures
            final(self).wf(),
            r matches Ok(s) ==> final(self).root_node().last_tick() == Some(s),
            r matches Ok(s) ==> !ticks_again(opt, s),
            r matches Ok(s) ==> (s == NodeStatus::Success || s == NodeStatus::Failure
                ==> final(self).root_node().data.status == NodeStatus::Idle),
            r is Err ==> final(self).root_node().fault@ || (final(self).root_node().last_tick() is Some
                && ticks_again(opt, final(self).root_node().last_tick().unwrap())),
    {
        let mut status = NodeStatus::Idle;
        let mut count: u64 = 0;
        let mut ticked = false;
        while (status == NodeStatus::Idle || (opt == TickOption::WhileRunning && status == NodeStatus::Running))
            && count < u64::MAX
            invariant
                self.wf(),
                ticked ==> self.root.last_tick() == Some(status),
            ticked ==> !self.root.fault@,
                ticked ==> (status == NodeStatus::Success || status == NodeStatus::Failure
                    ==> self.root.data.status == NodeStatus::Idle),
                !ticked ==> status == NodeStatus::Idle && count == 0,
            decreases u64::MAX - count,
        {
            status = match self.root.execute_tick(&mut self.blackboard) {
                Ok(s) => s,
                Err(e) => return Err(e),
            };
            if status.is_completed() {
                self.root.reset_status();
            }
            ticked = true;
            count = count + 1;
        }
        if status == NodeStatus::Idle || (opt == TickOption::WhileRunning && status == NodeStatus::Running) {
            return Err(NodeError::StatusError(to_owned_string("Tree"), to_owned_string(status.as_str())));
        }
        Ok(status)
    }

    /// Ticks the tree once; a root that returns `Idle` is ticked again.
    pub fn tick_exactly_once(&mut self) -> (r: NodeResult)
        requires
            old(self).wf(),
        ensures
            final(self).wf(),
            r matches Ok(s) ==> final(self).root_node().last_tick() == Some(s),
            r matches Ok(s) ==> s != NodeStatus::Idle,
            r is Err ==> final(self).root_node().fault@ || (final(self).root_node().last_tick() is Some
                && ticks_again(TickOption::ExactlyOnce, final(self).root_node().last_tick().unwrap())),
    {
        self.tick_root(TickOption::ExactlyOnce)
    }

    /// Ticks the tree once; a root that returns `Idle` is ticked again.
    pub fn tick_once(&mut self) -> (r: NodeResult)
        requires
            old(self).wf(),
        ensures
            final(self).wf(),
            r matches Ok(s) ==> final(self).root_node().last_tick() == Some(s),
            r matches Ok(s) ==> s != NodeStatus::Idle,
            r is Err ==> final(self).root_node().fault@ || (final(self).root_node().last_tick() is Some
                && ticks_again(TickOption::OnceUnlessWokenUp, final(self).root_node().last_tick().unwrap())),
    {
        self.tick_root(TickOption::OnceUnlessWokenUp)
    }

    /// Ticks the tree until its root is no longer running.
    pub fn tick_while_running(&mut self) -> (r: NodeResult)
        requires
            old(self).wf(),
        ensures
            final(self).wf(),
            r matches Ok(s) ==> final(self).root_node().last_tick() == Some(s),
            r matches Ok(s) ==> s != NodeStatus::Idle && s != NodeStatus::Running,
            r is Err ==> final(self).root_node().fault@ || (final(self).root_node().last_tick() is Some
                && ticks_again(TickOption::WhileRunning, final(self).root_node().last_tick().unwrap())),
    {
        self.tick_root(TickOption::WhileRunning)
    }

    /// The blackboard of the tree.
    pub fn root_blackboard(&self) -> (r: &Blackboard)
        ensures
            *r == self.spec_blackboard(),
    {
        &self.blackboard
    }

    /// The blackboard of the tree, to change.
    pub fn root_blackboard_mut(&mut self) -> (r: &mut Blackboard)
        ensures
            *r == old(self).spec_blackboard(),
            final(self).root_node() == old(self).root_node(),
            final(self).spec_blackboard() == *final(r),
    {
        &mut self.blackboard
    }

    /// The blackboard scope of the root node.
    pub fn root_scope(&self) -> (r: usize)
        ensures
            r == self.root_node().data.scope,
    {
        self.root.data.scope
    }

    /// Halts the root node.
    pub fn halt_tree(&mut self) -> (r: Result<(), NodeError>)
        requires
            old(self).wf(),
        ensures
            final(self).wf(),
            final(self).root_node().last_tick() == old(self).root_node().last_tick(),
            r is Ok && !old(self).root_node().node.is_control() ==> final(self).root_node().data.status == NodeStatus::Idle,
            final(self).root_node().fault@ == (r is Err),
            r is Err ==> old(self).root_node().node.is_leaf() || child_faulted(final(self).root_node().children@),
    {
        self.root.halt(&mut self.blackboard)
    }

    /// The nodes of the tree in pre-order: each node before its children,
    /// the children in order.
    pub fn visit_nodes(&self) -> (r: Vec<&TreeNode<A>>)
        ensures
            derefs(r@) == preorder(self.root_node()),
    {
        let mut out: Vec<&TreeNode<A>> = Vec::new();
        collect_nodes(&self.root, &mut out);
        proof {
            assert(derefs(out@) =~= preorder(self.root));
        }
        out
    }
}

} // verus!
