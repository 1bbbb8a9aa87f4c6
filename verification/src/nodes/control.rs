//! Control nodes: nodes with any number of children that tick them in some
//! order and combine their results.

use vstd::prelude::*;

use crate::basic_types::{NodeStatus, PortInfo, PortsList};
use crate::value::{Value, ValueKind, ValueModel};
use crate::basic_types::is_input_port;
use crate::blackboard::Blackboard;
use crate::nodes::{
    child_faulted, child_idle, children_reset, children_wf, lemma_child_shape, lemma_update_shape, last_of, same_lasts, shape_wf, shapes,
    NodeDataGeneric, NodeError, NodeResult, StatefulActionNode, SyncActionNode, TreeNode,
};
use crate::text::to_owned_string;

verus! {

/// Ticking child `i` changed only that child, kept its shape and the
/// children's well-formedness.
pub proof fn lemma_after_child_tick<A>(before: Seq<TreeNode<A>>, after: Seq<TreeNode<A>>, i: int)
    requires
        0 <= i < before.len(),
        after == before.update(i, after[i]),
        after[i].shape() == before[i].shape(),
        children_wf(before),
    ensures
        shapes(after) == shapes(before),
        children_wf(after),
        forall|j: int| 0 <= j < before.len() && j != i ==> #[trigger] after[j] == before[j],
{
    lemma_update_shape(before, i, after[i]);
}

/// Halts child `index` if it is running, then sets its status to `Idle`.
pub fn halt_child<A: SyncActionNode + StatefulActionNode>(
    children: &mut Vec<TreeNode<A>>,
    index: usize,
    bb: &mut Blackboard,
) -> (r: Result<(), NodeError>)
    requires
        children_wf(old(children)@),
    ensures
        shapes(final(children)@) == shapes(old(children)@),
        same_lasts(final(children)@, old(children)@),
        forall|j: int| 0 <= j < old(children)@.len() && j != index ==> #[trigger] final(children)@[j] == old(children)@[j],
        index >= old(children)@.len() ==> (r matches Err(NodeError::IndexError)) && final(children)@ == old(children)@,
        r is Ok ==> index < old(children)@.len() && final(children)@[index as int].data.status == NodeStatus::Idle,
        index < old(children)@.len() && old(children)@[index as int].data.status != NodeStatus::Running ==> r is Ok,
        r is Err && index < old(children)@.len() ==> final(children)@[index as int].fault@,
        ticked_once(old(children)@, final(children)@, 0, 0),
    decreases shapes(old(children)@), 3nat,
{
    if index >= children.len() {
        return Err(NodeError::IndexError);
    }
    let ghost before = children@;
    proof {
        lemma_child_shape(children@, index as int);
        assert(shape_wf(shapes(children@)[index as int]));
    }
    if children[index].status() == NodeStatus::Running {
        let h = children[index].halt(bb);
        proof {
            lemma_after_child_tick(before, children@, index as int);
        }
        match h {
            Ok(_) => {},
            Err(e) => return Err(e),
        }
    }
    let ghost mid = children@;
    children[index].reset_status();
    proof {
        lemma_after_child_tick(mid, children@, index as int);
    }
    Ok(())
}

/// Halts the children from `start` on, in order, stopping at the first error.
pub fn halt_children<A: SyncActionNode + StatefulActionNode>(
    children: &mut Vec<TreeNode<A>>,
    start: usize,
    bb: &mut Blackboard,
) -> (r: Result<(), NodeError>)
    requires
        children_wf(old(children)@),
    ensures
        shapes(final(children)@) == shapes(old(children)@),
        same_lasts(final(children)@, old(children)@),
        start >= old(children)@.len() ==> (r matches Err(NodeError::IndexError)) && final(children)@ == old(children)@,
        r is Ok ==> forall|j: int| start <= j < old(children)@.len() ==> #[trigger] final(children)@[j].data.status == NodeStatus::Idle,
        forall|j: int| 0 <= j < start && j < old(children)@.len() ==> #[trigger] final(children)@[j] == old(children)@[j],
        r is Err && start < old(children)@.len() ==> child_faulted(final(children)@),
        ticked_once(old(children)@, final(children)@, 0, 0),
    decreases shapes(old(children)@), 4nat,
{
    let n = children.len();
    if start >= n {
        return Err(NodeError::IndexError);
    }
    let mut i = start;
    while i < n
        invariant
            start <= i <= n,
            n == children@.len(),
            n == old(children)@.len(),
            children_wf(children@),
            shapes(children@) == shapes(old(children)@),
            same_lasts(children@, old(children)@),
            forall|j: int| start <= j < i ==> #[trigger] children@[j].data.status == NodeStatus::Idle,
            forall|j: int| 0 <= j < start ==> #[trigger] children@[j] == old(children)@[j],
            ticked_once(old(children)@, children@, 0, 0),
        decreases n - i,
    {
        let ghost before = children@;
        let h = halt_child(children, i, bb);
        match h {
            Ok(_) => {},
            Err(e) => {
                proof {
                    assert(children@[i as int].fault@);
                }
                return Err(e);
            },
        }
        proof {
            assert forall|j: int| start <= j < i + 1 implies #[trigger] children@[j].data.status == NodeStatus::Idle by {
                if j < i {
                    assert(children@[j] == before[j]);
                }
            }
            assert forall|j: int| 0 <= j < start implies #[trigger] children@[j] == old(children)@[j] by {
                assert(children@[j] == before[j]);
            }
        }
        i = i + 1;
    }
    Ok(())
}

/// Halts all children, ignoring errors.
pub fn reset_children<A: SyncActionNode + StatefulActionNode>(
    children: &mut Vec<TreeNode<A>>,
    bb: &mut Blackboard,
)
    requires
        children_wf(old(children)@),
    ensures
        shapes(final(children)@) == shapes(old(children)@),
        same_lasts(final(children)@, old(children)@),
        (forall|j: int| 0 <= j < final(children)@.len() ==> #[trigger] final(children)@[j].data.status == NodeStatus::Idle)
            || child_faulted(final(children)@),
        ticked_once(old(children)@, final(children)@, 0, 0),
    decreases shapes(old(children)@), 5nat,
{
    let _ = halt_children(children, 0, bb);
}

/// Ticks child `i`.
fn tick_child<A: SyncActionNode + StatefulActionNode>(
    children: &mut Vec<TreeNode<A>>,
    i: usize,
    bb: &mut Blackboard,
) -> (r: NodeResult)
    requires
        children_wf(old(children)@),
        i < old(children)@.len(),
    ensures
        shapes(final(children)@) == shapes(old(children)@),
        children_wf(final(children)@),
        final(children)@.len() == old(children)@.len(),
        forall|j: int| 0 <= j < old(children)@.len() && j != i ==> #[trigger] final(children)@[j] == old(children)@[j],
        r matches Ok(s) ==> last_of(final(children)@, i as int) == Some(s),
        r is Err ==> last_of(final(children)@, i as int) == last_of(old(children)@, i as int),
        r matches Ok(s) ==> (s != NodeStatus::Skipped ==> final(children)@[i as int].data.status == s),
        final(children)@[i as int].fault@ == (r is Err),
        r is Ok ==> ticked_once(old(children)@, final(children)@, i as int, i + 1),
        r is Err ==> ticked_once(old(children)@, final(children)@, 0, 0),
    decreases shapes(old(children)@), 3nat,
{
    let ghost before = children@;
    proof {
        lemma_child_shape(children@, i as int);
        assert(shape_wf(shapes(children@)[i as int]));
    }
    let r = children[i].execute_tick(bb);
    proof {
        lemma_after_child_tick(before, children@, i as int);
    }
    r
}

/// Whether, from `a` to `c`, the children from `lo` up to `hi` were each
/// ticked once more with a status returned, and the others not.
pub open spec fn ticked_once<A>(a: Seq<TreeNode<A>>, c: Seq<TreeNode<A>>, lo: int, hi: int) -> bool {
    &&& a.len() == c.len()
    &&& forall|j: int| 0 <= j < a.len() ==> #[trigger] c[j].ticks@ == a[j].ticks@ + if lo <= j < hi { 1nat } else { 0nat }
}

/// Whether, from `a` to `c`, each child below `hi` that is not in `done`
/// was ticked once more with a status returned, and no other child was.
pub open spec fn ticked_unless_done<A>(a: Seq<TreeNode<A>>, c: Seq<TreeNode<A>>, done: Seq<usize>, hi: int) -> bool {
    &&& a.len() == c.len()
    &&& forall|j: int| 0 <= j < a.len() ==> #[trigger] c[j].ticks@ == a[j].ticks@
        + if j < hi && !done.contains(j as usize) { 1nat } else { 0nat }
}

/// Whether a child's result lets a sequence go on to the next child.
pub open spec fn seq_passes(s: Option<NodeStatus>) -> bool {
    s == Some(NodeStatus::Success) || s == Some(NodeStatus::Skipped)
}

/// Whether a child's result lets a reactive fallback go on to the next
/// child: it failed, was skipped, or is still running.
pub open spec fn reactive_fallback_passes(s: Option<NodeStatus>) -> bool {
    s == Some(NodeStatus::Failure) || s == Some(NodeStatus::Skipped) || s == Some(NodeStatus::Running)
}

/// Whether two children returned `Running` on their last tick.
pub open spec fn two_running<A>(c: Seq<TreeNode<A>>) -> bool {
    exists|j: int, k: int| 0 <= j < k < c.len() && #[trigger] last_of(c, j) == Some(NodeStatus::Running)
        && #[trigger] last_of(c, k) == Some(NodeStatus::Running)
}

/// Whether a child other than the recorded running child `recorded` last
/// returned `Running`.
pub open spec fn other_running<A>(c: Seq<TreeNode<A>>, recorded: Option<usize>) -> bool {
    recorded matches Some(k) && exists|j: int| 0 <= j < c.len() && j != k
        && #[trigger] last_of(c, j) == Some(NodeStatus::Running)
}

/// Whether a child's result lets a fallback go on to the next child.
pub open spec fn fallback_passes(s: Option<NodeStatus>) -> bool {
    s == Some(NodeStatus::Failure) || s == Some(NodeStatus::Skipped)
}

/// Ticks its children in order while they succeed, resuming where it left
/// off after a child that is still running.
#[derive(Debug)]
pub struct SequenceNode {
    pub child_idx: usize,
    pub all_skipped: bool,
}

impl SequenceNode {
    /// A sequence at its first child.
    pub fn default() -> (r: Self)
        ensures
            r.child_idx == 0,
            !r.all_skipped,
    {
        SequenceNode { child_idx: 0, all_skipped: false }
    }

    /// Ticks the children from the one it stopped at. A running child makes
    /// the sequence running and remembered; a failing child makes it fail
    /// and start over; when every remaining child succeeded or was skipped it
    /// succeeds, or is skipped if every child of this run was skipped.
    pub fn tick<A: SyncActionNode + StatefulActionNode>(
        &mut self,
        data: &mut NodeDataGeneric,
        children: &mut Vec<TreeNode<A>>,
        bb: &mut Blackboard,
    ) -> (r: NodeResult)
        requires
            children_wf(old(children)@),
        ensures
            shapes(final(children)@) == shapes(old(children)@),
            r matches Ok(s) ==> s != NodeStatus::Idle,
            old(self).child_idx <= old(children)@.len() ==> ({
                let c = final(children)@;
                let i0 = old(self).child_idx as int;
                let k = final(self).child_idx as int;
                &&& (r is Ok ==> final(self).child_idx <= c.len())
                &&& (r == Ok::<NodeStatus, NodeError>(NodeStatus::Running) ==> i0 <= k < c.len()
                    && last_of(c, k) == Some(NodeStatus::Running)
                    && forall|j: int| i0 <= j < k ==> seq_passes(#[trigger] last_of(c, j)))
                &&& (r == Ok::<NodeStatus, NodeError>(NodeStatus::Running) ==> ticked_once(old(children)@, c, i0, k + 1))
                &&& (r == Ok::<NodeStatus, NodeError>(NodeStatus::Failure) ==> k == 0 && exists|f: int|
                    i0 <= f < c.len() && #[trigger] last_of(c, f) == Some(NodeStatus::Failure)
                    && forall|j: int| i0 <= j < f ==> seq_passes(#[trigger] last_of(c, j)))
                &&& (r == Ok::<NodeStatus, NodeError>(NodeStatus::Failure) ==> exists|f: int|
                    i0 <= f < c.len() && #[trigger] last_of(c, f) == Some(NodeStatus::Failure)
                    && ticked_once(old(children)@, c, i0, f + 1))
                &&& (r == Ok::<NodeStatus, NodeError>(NodeStatus::Success) || r == Ok::<NodeStatus, NodeError>(NodeStatus::Skipped)
                    ==> k == 0 && forall|j: int| i0 <= j < c.len() ==> seq_passes(#[trigger] last_of(c, j)))
                &&& (r == Ok::<NodeStatus, NodeError>(NodeStatus::Success) || r == Ok::<NodeStatus, NodeError>(NodeStatus::Skipped)
                    ==> ticked_once(old(children)@, c, i0, c.len() as int))
                &&& (r == Ok::<NodeStatus, NodeError>(NodeStatus::Skipped) ==> forall|j: int| i0 <= j < c.len()
                    ==> #[trigger] last_of(c, j) == Some(NodeStatus::Skipped))
            }),
            r is Err ==> child_faulted(final(children)@) || child_idle(final(children)@),
            r is Err && !child_faulted(final(children)@) ==> r matches Err(NodeError::StatusError(_, _)),
            old(self).child_idx <= old(children)@.len() ==> (r matches Ok(s) && (s == NodeStatus::Success || s == NodeStatus::Failure) ==> children_reset(final(children)@)),
        decreases shapes(old(children)@), 7nat,
    {
        if data.status == NodeStatus::Idle {
            self.all_skipped = true;
        }
        data.status = NodeStatus::Running;
        let n = children.len();
        let ghost i0 = self.child_idx as int;
        while self.child_idx < n
            invariant
                n == children@.len(),
                n == old(children)@.len(),
                shapes(children@) == shapes(old(children)@),
                children_wf(children@),
                self.child_idx >= i0,
                i0 <= n ==> self.child_idx <= n,
                i0 == old(self).child_idx,
                forall|j: int| i0 <= j < self.child_idx ==> seq_passes(#[trigger] last_of(children@, j)),
                self.all_skipped ==> forall|j: int| i0 <= j < self.child_idx ==> #[trigger] last_of(children@, j) == Some(NodeStatus::Skipped),
                i0 <= n ==> ticked_once(old(children)@, children@, i0, self.child_idx as int),
            decreases n - self.child_idx,
        {
            let i = self.child_idx;
            let ghost before = children@;
            let ghost was_all = self.all_skipped;
            let child_status = match tick_child(children, i, bb) {
                Ok(s) => s,
                Err(e) => return Err(e),
            };
            proof {
                assert forall|j: int| i0 <= j < i implies #[trigger] last_of(children@, j) == last_of(before, j)
                    && seq_passes(last_of(children@, j))
                    && (was_all ==> last_of(children@, j) == Some(NodeStatus::Skipped)) by {
                    assert(children@[j] == before[j]);
                    assert(seq_passes(last_of(before, j)));
                    if was_all {
                        assert(last_of(before, j) == Some(NodeStatus::Skipped));
                    }
                }
            }
            self.all_skipped = self.all_skipped && child_status == NodeStatus::Skipped;
            match child_status {
                NodeStatus::Running => return Ok(NodeStatus::Running),
                NodeStatus::Failure => {
                    let ghost c1 = children@;
                    reset_children(children, bb);
                    self.child_idx = 0;
                    proof {
                        assert(last_of(children@, i as int) == last_of(c1, i as int));
                        assert forall|j: int| i0 <= j < i implies seq_passes(#[trigger] last_of(children@, j)) by {
                            assert(last_of(children@, j) == last_of(c1, j));
                        }
                    }
                    return Ok(NodeStatus::Failure);
                },
                NodeStatus::Success | NodeStatus::Skipped => {
                    self.child_idx = self.child_idx + 1;
                },
                NodeStatus::Idle => {
                    return Err(NodeError::StatusError(to_owned_string("SequenceNode"), to_owned_string("Idle")));
                },
            }
        }
        let ghost c1 = children@;
        if self.child_idx == n {
            reset_children(children, bb);
            self.child_idx = 0;
        }
        proof {
            assert forall|j: int| i0 <= j < n implies #[trigger] last_of(children@, j) == last_of(c1, j)
                && seq_passes(last_of(children@, j))
                && (self.all_skipped ==> last_of(children@, j) == Some(NodeStatus::Skipped)) by {
                assert(seq_passes(last_of(c1, j)));
                if self.all_skipped {
                    assert(last_of(c1, j) == Some(NodeStatus::Skipped));
                }
            }
        }
        if self.all_skipped {
            Ok(NodeStatus::Skipped)
        } else {
            Ok(NodeStatus::Success)
        }
    }

    /// Halting starts the sequence over; the children are not halted.
    pub fn halt<A: SyncActionNode + StatefulActionNode>(
        &mut self,
        data: &mut NodeDataGeneric,
        children: &mut Vec<TreeNode<A>>,
        bb: &mut Blackboard,
    ) -> (r: Result<(), NodeError>)
        requires
            children_wf(old(children)@),
        ensures
            r is Ok,
            final(self).child_idx == 0,
            final(children)@ == old(children)@,
        decreases shapes(old(children)@), 7nat,
    {
        self.child_idx = 0;
        Ok(())
    }
}

/// Halts every child from `start` on, whatever its status, ignoring errors.
fn halt_each<A: SyncActionNode + StatefulActionNode>(
    children: &mut Vec<TreeNode<A>>,
    start: usize,
    bb: &mut Blackboard,
)
    requires
        children_wf(old(children)@),
    ensures
        shapes(final(children)@) == shapes(old(children)@),
        same_lasts(final(children)@, old(children)@),
        forall|j: int| 0 <= j < start && j < old(children)@.len() ==> #[trigger] final(children)@[j] == old(children)@[j],
        forall|j: int| start <= j < old(children)@.len() ==> #[trigger] final(children)@[j].fault@
            || old(children)@[j].node.is_control() || final(children)@[j].data.status == NodeStatus::Idle,
        ticked_once(old(children)@, final(children)@, 0, 0),
        forall|j: int| 0 <= j < old(children)@.len()
            ==> #[trigger] final(children)@[j].node.is_control() == old(children)@[j].node.is_control(),
    decreases shapes(old(children)@), 4nat,
{
    let n = children.len();
    let mut i = start;
    while i < n
        invariant
            n == children@.len(),
            n == old(children)@.len(),
            children_wf(children@),
            shapes(children@) == shapes(old(children)@),
            same_lasts(children@, old(children)@),
            start <= i,
            forall|j: int| 0 <= j < start && j < n ==> #[trigger] children@[j] == old(children)@[j],
            forall|j: int| start <= j < i && j < n ==> #[trigger] children@[j].fault@
                || old(children)@[j].node.is_control() || children@[j].data.status == NodeStatus::Idle,
            forall|j: int| i <= j < n ==> #[trigger] children@[j] == old(children)@[j],
            ticked_once(old(children)@, children@, 0, 0),
            forall|j: int| 0 <= j < n ==> #[trigger] children@[j].node.is_control() == old(children)@[j].node.is_control(),
        decreases n - i,
    {
        let ghost before = children@;
        proof {
            lemma_child_shape(children@, i as int);
            assert(shape_wf(shapes(children@)[i as int]));
        }
        let _ = children[i].halt(bb);
        proof {
            lemma_after_child_tick(before, children@, i as int);
        }
        i = i + 1;
    }
}

/// Ticks its children in order while they fail, resuming where it left off
/// after a child that is still running.
#[derive(Debug)]
pub struct FallbackNode {
    pub child_idx: usize,
    pub all_skipped: bool,
}

impl FallbackNode {
    /// A fallback at its first child.
    pub fn default() -> (r: Self)
        ensures
            r.child_idx == 0,
            r.all_skipped,
    {
        FallbackNode { child_idx: 0, all_skipped: true }
    }

    /// Ticks the children from the one it stopped at. A running child makes
    /// the fallback running and remembered; a succeeding child makes it
    /// succeed and start over; when every remaining child failed or was
    /// skipped it fails, or is skipped if every child of this run was skipped.
    pub fn tick<A: SyncActionNode + StatefulActionNode>(
        &mut self,
        data: &mut NodeDataGeneric,
        children: &mut Vec<TreeNode<A>>,
        bb: &mut Blackboard,
    ) -> (r: NodeResult)
        requires
            children_wf(old(children)@),
        ensures
            shapes(final(children)@) == shapes(old(children)@),
            r matches Ok(s) ==> s != NodeStatus::Idle,
            old(self).child_idx <= old(children)@.len() ==> ({
                let c = final(children)@;
                let i0 = old(self).child_idx as int;
                let k = final(self).child_idx as int;
                &&& (r is Ok ==> final(self).child_idx <= c.len())
                &&& (r == Ok::<NodeStatus, NodeError>(NodeStatus::Running) ==> i0 <= k < c.len()
                    && last_of(c, k) == Some(NodeStatus::Running)
                    && forall|j: int| i0 <= j < k ==> fallback_passes(#[trigger] last_of(c, j)))
                &&& (r == Ok::<NodeStatus, NodeError>(NodeStatus::Running) ==> ticked_once(old(children)@, c, i0, k + 1))
                &&& (r == Ok::<NodeStatus, NodeError>(NodeStatus::Success) ==> k == 0 && exists|f: int|
                    i0 <= f < c.len() && #[trigger] last_of(c, f) == Some(NodeStatus::Success)
                    && forall|j: int| i0 <= j < f ==> fallback_passes(#[trigger] last_of(c, j)))
                &&& (r == Ok::<NodeStatus, NodeError>(NodeStatus::Success) ==> exists|f: int|
                    i0 <= f < c.len() && #[trigger] last_of(c, f) == Some(NodeStatus::Success)
                    && ticked_once(old(children)@, c, i0, f + 1))
                &&& (r == Ok::<NodeStatus, NodeError>(NodeStatus::Failure) || r == Ok::<NodeStatus, NodeError>(NodeStatus::Skipped)
                    ==> k == 0 && forall|j: int| i0 <= j < c.len() ==> fallback_passes(#[trigger] last_of(c, j)))
                &&& (r == Ok::<NodeStatus, NodeError>(NodeStatus::Failure) || r == Ok::<NodeStatus, NodeError>(NodeStatus::Skipped)
                    ==> ticked_once(old(children)@, c, i0, c.len() as int))
                &&& (r == Ok::<NodeStatus, NodeError>(NodeStatus::Skipped) ==> forall|j: int| i0 <= j < c.len()
                    ==> #[trigger] last_of(c, j) == Some(NodeStatus::Skipped))
            }),
            r is Err ==> child_faulted(final(children)@) || child_idle(final(children)@),
            r is Err && !child_faulted(final(children)@) ==> r matches Err(NodeError::StatusError(_, _)),
            old(self).child_idx <= old(children)@.len() ==> (r matches Ok(s) && (s == NodeStatus::Success || s == NodeStatus::Failure) ==> children_reset(final(children)@)),
        decreases shapes(old(children)@), 7nat,
    {
        if data.status == NodeStatus::Idle {
            self.all_skipped = true;
        }
        data.status = NodeStatus::Running;
        let n = children.len();
        let ghost i0 = self.child_idx as int;
        while self.child_idx < n
            invariant
                n == children@.len(),
                n == old(children)@.len(),
                shapes(children@) == shapes(old(children)@),
                children_wf(children@),
                self.child_idx >= i0,
                i0 <= n ==> self.child_idx <= n,
                i0 == old(self).child_idx,
                forall|j: int| i0 <= j < self.child_idx ==> fallback_passes(#[trigger] last_of(children@, j)),
                self.all_skipped ==> forall|j: int| i0 <= j < self.child_idx ==> #[trigger] last_of(children@, j) == Some(NodeStatus::Skipped),
                i0 <= n ==> ticked_once(old(children)@, children@, i0, self.child_idx as int),
            decreases n - self.child_idx,
        {
            let i = self.child_idx;
            let ghost before = children@;
            let ghost was_all = self.all_skipped;
            let child_status = match tick_child(children, i, bb) {
                Ok(s) => s,
                Err(e) => return Err(e),
            };
            proof {
                assert forall|j: int| i0 <= j < i implies #[trigger] last_of(children@, j) == last_of(before, j)
                    && fallback_passes(last_of(children@, j))
                    && (was_all ==> last_of(children@, j) == Some(NodeStatus::Skipped)) by {
                    assert(children@[j] == before[j]);
                    assert(fallback_passes(last_of(before, j)));
                    if was_all {
                        assert(last_of(before, j) == Some(NodeStatus::Skipped));
                    }
                }
            }
            self.all_skipped = self.all_skipped && child_status == NodeStatus::Skipped;
            match child_status {
                NodeStatus::Running => return Ok(NodeStatus::Running),
                NodeStatus::Failure | NodeStatus::Skipped => {
                    self.child_idx = self.child_idx + 1;
                },
                NodeStatus::Success => {
                    let ghost c1 = children@;
                    reset_children(children, bb);
                    self.child_idx = 0;
                    proof {
                        assert(last_of(children@, i as int) == last_of(c1, i as int));
                        assert forall|j: int| i0 <= j < i implies fallback_passes(#[trigger] last_of(children@, j)) by {
                            assert(last_of(children@, j) == last_of(c1, j));
                        }
                    }
                    return Ok(NodeStatus::Success);
                },
                NodeStatus::Idle => {
                    return Err(NodeError::StatusError(to_owned_string("FallbackNode"), to_owned_string("Idle")));
                },
            }
        }
        let ghost c1 = children@;
        if self.child_idx == n {
            reset_children(children, bb);
            self.child_idx = 0;
        }
        proof {
            assert forall|j: int| i0 <= j < n implies #[trigger] last_of(children@, j) == last_of(c1, j)
                && fallback_passes(last_of(children@, j))
                && (self.all_skipped ==> last_of(children@, j) == Some(NodeStatus::Skipped)) by {
                assert(fallback_passes(last_of(c1, j)));
                if self.all_skipped {
                    assert(last_of(c1, j) == Some(NodeStatus::Skipped));
                }
            }
        }
        if self.all_skipped {
            Ok(NodeStatus::Skipped)
        } else {
            Ok(NodeStatus::Failure)
        }
    }

    /// Halting starts the fallback over; the children are not halted.
    pub fn halt<A: SyncActionNode + StatefulActionNode>(
        &mut self,
        data: &mut NodeDataGeneric,
        children: &mut Vec<TreeNode<A>>,
        bb: &mut Blackboard,
    ) -> (r: Result<(), NodeError>)
        requires
            children_wf(old(children)@),
        ensures
            r is Ok,
            final(self).child_idx == 0,
            final(self).all_skipped,
            final(children)@ == old(children)@,
        decreases shapes(old(children)@), 7nat,
    {
        self.child_idx = 0;
        self.all_skipped = true;
        Ok(())
    }
}

/// Like a sequence, but remembers its place across failures: after a
/// failure it resumes at the child that failed.
#[derive(Debug)]
pub struct SequenceWithMemoryNode {
    pub child_idx: usize,
    pub all_skipped: bool,
}

impl SequenceWithMemoryNode {
    /// A sequence at its first child.
    pub fn default() -> (r: Self)
        ensures
            r.child_idx == 0,
            !r.all_skipped,
    {
        SequenceWithMemoryNode { child_idx: 0, all_skipped: false }
    }

    /// Ticks the children from the one it stopped at. A running child makes
    /// the node running; a failing child makes it fail, halting the children
    /// from that one on but staying at it; when every remaining child
    /// succeeded or was skipped it halts all children, starts over and
    /// succeeds, or is skipped if every child of this run was skipped.
    pub fn tick<A: SyncActionNode + StatefulActionNode>(
        &mut self,
        data: &mut NodeDataGeneric,
        children: &mut Vec<TreeNode<A>>,
        bb: &mut Blackboard,
    ) -> (r: NodeResult)
        requires
            children_wf(old(children)@),
        ensures
            shapes(final(children)@) == shapes(old(children)@),
            r matches Ok(s) ==> s != NodeStatus::Idle,
            old(self).child_idx <= old(children)@.len() ==> ({
                let c = final(children)@;
                let i0 = old(self).child_idx as int;
                let k = final(self).child_idx as int;
                &&& (r is Ok ==> final(self).child_idx <= c.len())
                &&& (r == Ok::<NodeStatus, NodeError>(NodeStatus::Running) || r == Ok::<NodeStatus, NodeError>(NodeStatus::Failure)
                    ==> i0 <= k < c.len() && forall|j: int| i0 <= j < k ==> seq_passes(#[trigger] last_of(c, j)))
                &&& (r == Ok::<NodeStatus, NodeError>(NodeStatus::Running) ==> last_of(c, k) == Some(NodeStatus::Running))
                &&& (r == Ok::<NodeStatus, NodeError>(NodeStatus::Failure) ==> last_of(c, k) == Some(NodeStatus::Failure))
                &&& (r == Ok::<NodeStatus, NodeError>(NodeStatus::Running) || r == Ok::<NodeStatus, NodeError>(NodeStatus::Failure)
                    ==> ticked_once(old(children)@, c, i0, k + 1))
                &&& (r == Ok::<NodeStatus, NodeError>(NodeStatus::Success) || r == Ok::<NodeStatus, NodeError>(NodeStatus::Skipped)
                    ==> ticked_once(old(children)@, c, i0, c.len() as int))
                // A failure halts the children from the failed one on; the
                // end of the run halts them all.
                &&& (r == Ok::<NodeStatus, NodeError>(NodeStatus::Failure) ==> forall|j: int| k <= j < c.len()
                    ==> #[trigger] c[j].fault@ || c[j].node.is_control() || c[j].data.status == NodeStatus::Idle)
                &&& (r == Ok::<NodeStatus, NodeError>(NodeStatus::Success) || r == Ok::<NodeStatus, NodeError>(NodeStatus::Skipped)
                    ==> forall|j: int| 0 <= j < c.len()
                    ==> #[trigger] c[j].fault@ || c[j].node.is_control() || c[j].data.status == NodeStatus::Idle)
                &&& (r == Ok::<NodeStatus, NodeError>(NodeStatus::Success) || r == Ok::<NodeStatus, NodeError>(NodeStatus::Skipped)
                    ==> k == 0 && forall|j: int| i0 <= j < c.len() ==> seq_passes(#[trigger] last_of(c, j)))
                &&& (r == Ok::<NodeStatus, NodeError>(NodeStatus::Skipped) ==> forall|j: int| i0 <= j < c.len()
                    ==> #[trigger] last_of(c, j) == Some(NodeStatus::Skipped))
            }),
            r is Err ==> child_faulted(final(children)@) || child_idle(final(children)@),
            r is Err && !child_faulted(final(children)@) ==> r matches Err(NodeError::StatusError(_, _)),
        decreases shapes(old(children)@), 7nat,
    {
        if data.status == NodeStatus::Idle {
            self.all_skipped = true;
        }
        data.status = NodeStatus::Running;
        let n = children.len();
        let ghost i0 = self.child_idx as int;
        while self.child_idx < n
            invariant
                n == children@.len(),
                n == old(children)@.len(),
                shapes(children@) == shapes(old(children)@),
                children_wf(children@),
                self.child_idx >= i0,
                i0 <= n ==> self.child_idx <= n,
                i0 == old(self).child_idx,
                forall|j: int| i0 <= j < self.child_idx ==> seq_passes(#[trigger] last_of(children@, j)),
                self.all_skipped ==> forall|j: int| i0 <= j < self.child_idx ==> #[trigger] last_of(children@, j) == Some(NodeStatus::Skipped),
                i0 <= n ==> ticked_once(old(children)@, children@, i0, self.child_idx as int),
            decreases n - self.child_idx,
        {
            let i = self.child_idx;
            let ghost before = children@;
            let ghost was_all = self.all_skipped;
            let child_status = match tick_child(children, i, bb) {
                Ok(s) => s,
                Err(e) => return Err(e),
            };
            proof {
                assert forall|j: int| i0 <= j < i implies #[trigger] last_of(children@, j) == last_of(before, j)
                    && seq_passes(last_of(children@, j))
                    && (was_all ==> last_of(children@, j) == Some(NodeStatus::Skipped)) by {
                    assert(children@[j] == before[j]);
                    assert(seq_passes(last_of(before, j)));
                    if was_all {
                        assert(last_of(before, j) == Some(NodeStatus::Skipped));
                    }
                }
            }
            self.all_skipped = self.all_skipped && child_status == NodeStatus::Skipped;
            match child_status {
                NodeStatus::Running => return Ok(NodeStatus::Running),
                NodeStatus::Failure => {
                    let ghost c1 = children@;
                    halt_each(children, i, bb);
                    proof {
                        assert(last_of(children@, i as int) == last_of(c1, i as int));
                        assert forall|j: int| i0 <= j < i implies seq_passes(#[trigger] last_of(children@, j)) by {
                            assert(last_of(children@, j) == last_of(c1, j));
                        }
                    }
                    return Ok(NodeStatus::Failure);
                },
                NodeStatus::Success | NodeStatus::Skipped => {
                    self.child_idx = self.child_idx + 1;
                },
                NodeStatus::Idle => {
                    return Err(NodeError::StatusError(to_owned_string("SequenceStarNode"), to_owned_string("Idle")));
                },
            }
        }
        let ghost c1 = children@;
        if self.child_idx == n {
            halt_each(children, 0, bb);
            self.child_idx = 0;
        }
        proof {
            assert forall|j: int| i0 <= j < n implies #[trigger] last_of(children@, j) == last_of(c1, j)
                && seq_passes(last_of(children@, j))
                && (self.all_skipped ==> last_of(children@, j) == Some(NodeStatus::Skipped)) by {
                assert(seq_passes(last_of(c1, j)));
                if self.all_skipped {
                    assert(last_of(c1, j) == Some(NodeStatus::Skipped));
                }
            }
        }
        if self.all_skipped {
            Ok(NodeStatus::Skipped)
        } else {
            Ok(NodeStatus::Success)
        }
    }

    /// Halting starts the node over and halts its children.
    pub fn halt<A: SyncActionNode + StatefulActionNode>(
        &mut self,
        data: &mut NodeDataGeneric,
        children: &mut Vec<TreeNode<A>>,
        bb: &mut Blackboard,
    ) -> (r: Result<(), NodeError>)
        requires
            children_wf(old(children)@),
        ensures
            r is Ok,
            final(self).child_idx == 0,
            shapes(final(children)@) == shapes(old(children)@),
            same_lasts(final(children)@, old(children)@),
        decreases shapes(old(children)@), 7nat,
    {
        self.child_idx = 0;
        reset_children(children, bb);
        Ok(())
    }
}

/// A sequence that ticks its children from the first one on every tick, so
/// that an earlier child can take over from a running one.
#[derive(Debug)]
pub struct ReactiveSequenceNode {
    /// The child that returned `Running`, if any
    pub running_child: Option<usize>,
}

impl ReactiveSequenceNode {
    /// A node with no running child.
    pub fn default() -> (r: Self)
        ensures
            r.running_child is None,
    {
        ReactiveSequenceNode { running_child: None }
    }

    /// Ticks the children in order. A running child halts all the others and
    /// makes the node running; only one child may ever be the running one.
    /// A child returning `Failure` halts all children and the node returns
    /// `Failure`; a skipped child is halted. When no child stopped the node it
    /// returns `Success`, or `Skipped` if every child was skipped.
    pub fn tick<A: SyncActionNode + StatefulActionNode>(
        &mut self,
        data: &mut NodeDataGeneric,
        children: &mut Vec<TreeNode<A>>,
        bb: &mut Blackboard,
    ) -> (r: NodeResult)
        requires
            children_wf(old(children)@),
        ensures
            shapes(final(children)@) == shapes(old(children)@),
            r matches Ok(s) ==> s != NodeStatus::Idle,
            ({
                let c = final(children)@;
                &&& (r == Ok::<NodeStatus, NodeError>(NodeStatus::Running) ==> exists|k: int|
                    0 <= k < c.len() && #[trigger] last_of(c, k) == Some(NodeStatus::Running)
                    && final(self).running_child == Some(k as usize)
                    && ticked_once(old(children)@, c, 0, k + 1)
                    && (forall|j: int| 0 <= j < k ==> seq_passes(#[trigger] last_of(c, j)))
                    && (forall|j: int| 0 <= j < c.len() && j != k ==> #[trigger] c[j].data.status == NodeStatus::Idle))
                &&& (r == Ok::<NodeStatus, NodeError>(NodeStatus::Failure) ==> exists|k: int|
                    0 <= k < c.len() && #[trigger] last_of(c, k) == Some(NodeStatus::Failure)
                    && ticked_once(old(children)@, c, 0, k + 1)
                    && forall|j: int| 0 <= j < k ==> seq_passes(#[trigger] last_of(c, j)))
                &&& (r == Ok::<NodeStatus, NodeError>(NodeStatus::Success) || r == Ok::<NodeStatus, NodeError>(NodeStatus::Skipped)
                    ==> final(self).running_child is None && ticked_once(old(children)@, c, 0, c.len() as int)
                    && forall|j: int| 0 <= j < c.len() ==> seq_passes(#[trigger] last_of(c, j)))
                &&& (r == Ok::<NodeStatus, NodeError>(NodeStatus::Skipped) ==> forall|j: int| 0 <= j < c.len()
                    ==> #[trigger] last_of(c, j) == Some(NodeStatus::Skipped))
            }),
            r is Err ==> child_faulted(final(children)@) || child_idle(final(children)@)
                || (r matches Err(NodeError::NodeStructureError(_)) && other_running(final(children)@, old(self).running_child)),
            r == Ok::<NodeStatus, NodeError>(NodeStatus::Failure) ==> children_reset(final(children)@),
        decreases shapes(old(children)@), 7nat,
    {
        let mut all_skipped = true;
        data.status = NodeStatus::Running;
        let n = children.len();
        let mut index: usize = 0;
        while index < n
            invariant
                n == children@.len(),
                n == old(children)@.len(),
                shapes(children@) == shapes(old(children)@),
                children_wf(children@),
                index <= n,
                forall|j: int| 0 <= j < index ==> seq_passes(#[trigger] last_of(children@, j)),
                all_skipped ==> forall|j: int| 0 <= j < index ==> #[trigger] last_of(children@, j) == Some(NodeStatus::Skipped),
                self.running_child == old(self).running_child,
                ticked_once(old(children)@, children@, 0, index as int),
            decreases n - index,
        {
            let ghost before = children@;
            let ghost was_all = all_skipped;
            let child_status = match tick_child(children, index, bb) {
                Ok(s) => s,
                Err(e) => return Err(e),
            };
            proof {
                assert forall|j: int| 0 <= j < index implies #[trigger] last_of(children@, j) == last_of(before, j)
                    && seq_passes(last_of(children@, j))
                    && (was_all ==> last_of(children@, j) == Some(NodeStatus::Skipped)) by {
                    assert(children@[j] == before[j]);
                    assert(seq_passes(last_of(before, j)));
                    if was_all {
                        assert(last_of(before, j) == Some(NodeStatus::Skipped));
                    }
                }
            }
            all_skipped = all_skipped && child_status == NodeStatus::Skipped;
            match child_status {
                NodeStatus::Running => {
                    let ghost c1 = children@;
                    let mut i: usize = 0;
                    while i < n
                        invariant
                            n == children@.len(),
                            n == old(children)@.len(),
                            shapes(children@) == shapes(old(children)@),
                            children_wf(children@),
                            same_lasts(children@, c1),
                            ticked_once(old(children)@, children@, 0, index + 1),
                            index < n,
                            forall|j: int| 0 <= j < i && j != index ==> #[trigger] children@[j].data.status == NodeStatus::Idle,
                        decreases n - i,
                    {
                        if i != index {
                            let ghost c2 = children@;
                            match halt_child(children, i, bb) {
                                Ok(_) => {},
                                Err(e) => return Err(e),
                            }
                            proof {
                                assert forall|j: int| 0 <= j < i + 1 && j != index implies #[trigger] children@[j].data.status == NodeStatus::Idle by {
                                    if j < i {
                                        assert(children@[j] == c2[j]);
                                    }
                                }
                            }
                        }
                        i = i + 1;
                    }
                    proof {
                        assert(last_of(children@, index as int) == last_of(c1, index as int));
                        assert forall|j: int| 0 <= j < index implies seq_passes(#[trigger] last_of(children@, j)) by {
                            assert(last_of(children@, j) == last_of(c1, j));
                        }
                    }
                    match self.running_child {
                        None => {
                            self.running_child = Some(index);
                        },
                        Some(k) => {
                            if k != index {
                                assert(last_of(children@, index as int) == Some(NodeStatus::Running));
                                return Err(NodeError::NodeStructureError(to_owned_string(
                                    "[ReactiveSequence]: Only a single child can return Running.",
                                )));
                            }
                        },
                    }
                    return Ok(NodeStatus::Running);
                },
                NodeStatus::Failure => {
                    let ghost c1 = children@;
                    reset_children(children, bb);
                    proof {
                        assert(last_of(children@, index as int) == last_of(c1, index as int));
                        assert forall|j: int| 0 <= j < index implies seq_passes(#[trigger] last_of(children@, j)) by {
                            assert(last_of(children@, j) == last_of(c1, j));
                        }
                    }
                    return Ok(NodeStatus::Failure);
                },
                NodeStatus::Success => {},
                NodeStatus::Skipped => {
                    let ghost c1 = children@;
                    match halt_child(children, index, bb) {
                        Ok(_) => {},
                        Err(e) => return Err(e),
                    }
                    proof {
                        assert forall|j: int| 0 <= j < index + 1 implies #[trigger] last_of(children@, j) == last_of(c1, j) by {}
                    }
                },
                NodeStatus::Idle => {
                    return Err(NodeError::StatusError(to_owned_string("ReactiveSequence"), to_owned_string("Idle")));
                },
            }
            index = index + 1;
        }
        self.running_child = None;
        if all_skipped {
            Ok(NodeStatus::Skipped)
        } else {
            Ok(NodeStatus::Success)
        }
    }

    /// Halting forgets the running child; the children are not halted.
    pub fn halt<A: SyncActionNode + StatefulActionNode>(
        &mut self,
        data: &mut NodeDataGeneric,
        children: &mut Vec<TreeNode<A>>,
        bb: &mut Blackboard,
    ) -> (r: Result<(), NodeError>)
        requires
            children_wf(old(children)@),
        ensures
            r is Ok,
            final(self).running_child is None,
            final(children)@ == old(children)@,
        decreases shapes(old(children)@), 7nat,
    {
        self.running_child = None;
        Ok(())
    }
}

/// A fallback that ticks its children from the first one on every tick, so
/// that an earlier child can take over from a running one.
#[derive(Debug)]
pub struct ReactiveFallbackNode {
    /// The child that returned `Running`, if any
    pub running_child: Option<usize>,
}

impl ReactiveFallbackNode {
    /// A node with no running child.
    pub fn default() -> (r: Self)
        ensures
            r.running_child is None,
    {
        ReactiveFallbackNode { running_child: None }
    }

    /// Ticks every child in order, as a fallback that does not wait: a
    /// child that fails or is still running lets the next sibling be
    /// ticked, and a skipped child is halted. The first child that succeeds
    /// stops the node, which resets its children and succeeds. Otherwise the
    /// node is running when a child is running, skipped when every child was
    /// skipped, and fails when every child failed or was skipped. Only one
    /// child may ever be the running one.
    pub fn tick<A: SyncActionNode + StatefulActionNode>(
        &mut self,
        data: &mut NodeDataGeneric,
        children: &mut Vec<TreeNode<A>>,
        bb: &mut Blackboard,
    ) -> (r: NodeResult)
        requires
            children_wf(old(children)@),
        ensures
            shapes(final(children)@) == shapes(old(children)@),
            r matches Ok(s) ==> s != NodeStatus::Idle,
            ({
                let c = final(children)@;
                &&& (r == Ok::<NodeStatus, NodeError>(NodeStatus::Success) ==> exists|k: int|
                    0 <= k < c.len() && #[trigger] last_of(c, k) == Some(NodeStatus::Success)
                    && ticked_once(old(children)@, c, 0, k + 1)
                    && (forall|j: int| 0 <= j < k ==> reactive_fallback_passes(#[trigger] last_of(c, j)))
                    && ((forall|j: int| 0 <= j < c.len() ==> #[trigger] c[j].data.status == NodeStatus::Idle) || child_faulted(c)))
                &&& (r == Ok::<NodeStatus, NodeError>(NodeStatus::Running) ==> exists|k: int|
                    0 <= k < c.len() && #[trigger] last_of(c, k) == Some(NodeStatus::Running)
                    && final(self).running_child == Some(k as usize)
                    && ticked_once(old(children)@, c, 0, c.len() as int)
                    && (forall|j: int| 0 <= j < c.len() ==> reactive_fallback_passes(#[trigger] last_of(c, j))))
                &&& (r == Ok::<NodeStatus, NodeError>(NodeStatus::Failure) || r == Ok::<NodeStatus, NodeError>(NodeStatus::Skipped)
                    ==> final(self).running_child is None && ticked_once(old(children)@, c, 0, c.len() as int)
                    && forall|j: int| 0 <= j < c.len() ==> fallback_passes(#[trigger] last_of(c, j)))
                &&& (r == Ok::<NodeStatus, NodeError>(NodeStatus::Skipped) <==> r is Ok && forall|j: int| 0 <= j < c.len()
                    ==> #[trigger] last_of(c, j) == Some(NodeStatus::Skipped))
            }),
            r is Err ==> child_faulted(final(children)@) || child_idle(final(children)@)
                || (r matches Err(NodeError::NodeStructureError(_))
                    && (two_running(final(children)@) || other_running(final(children)@, old(self).running_child))),
            r == Ok::<NodeStatus, NodeError>(NodeStatus::Success) ==> children_reset(final(children)@),
        decreases shapes(old(children)@), 7nat,
    {
        let mut all_skipped = true;
        let mut running: Option<usize> = None;
        data.status = NodeStatus::Running;
        let n = children.len();
        let mut index: usize = 0;
        while index < n
            invariant
                n == children@.len(),
                n == old(children)@.len(),
                shapes(children@) == shapes(old(children)@),
                children_wf(children@),
                index <= n,
                forall|j: int| 0 <= j < index ==> reactive_fallback_passes(#[trigger] last_of(children@, j)),
                all_skipped <==> forall|j: int| 0 <= j < index ==> #[trigger] last_of(children@, j) == Some(NodeStatus::Skipped),
                running matches Some(k) ==> k < index && last_of(children@, k as int) == Some(NodeStatus::Running)
                    && self.running_child == Some(k),
                running is None ==> self.running_child == old(self).running_child
                    && forall|j: int| 0 <= j < index ==> #[trigger] last_of(children@, j) != Some(NodeStatus::Running),
                ticked_once(old(children)@, children@, 0, index as int),
            decreases n - index,
        {
            let ghost before = children@;
            let ghost was_all = all_skipped;
            let child_status = match tick_child(children, index, bb) {
                Ok(s) => s,
                Err(e) => return Err(e),
            };
            proof {
                assert forall|j: int| 0 <= j < index implies #[trigger] last_of(children@, j) == last_of(before, j) by {
                    assert(children@[j] == before[j]);
                }
            }
            all_skipped = all_skipped && child_status == NodeStatus::Skipped;
            match child_status {
                NodeStatus::Running => {
                    match self.running_child {
                        Some(k) => {
                            if k != index {
                                proof {
                                    if running is Some {
                                        assert(last_of(children@, k as int) == Some(NodeStatus::Running));
                                        assert(two_running(children@));
                                    } else {
                                        assert(last_of(children@, index as int) == Some(NodeStatus::Running));
                                    }
                                }
                                return Err(NodeError::NodeStructureError(to_owned_string(
                                    "[ReactiveFallback]: Only a single child can return Running.",
                                )));
                            }
                        },
                        None => {},
                    }
                    self.running_child = Some(index);
                    running = Some(index);
                },
                NodeStatus::Success => {
                    let ghost c1 = children@;
                    reset_children(children, bb);
                    self.running_child = None;
                    proof {
                        assert(last_of(children@, index as int) == last_of(c1, index as int));
                        assert forall|j: int| 0 <= j < index implies reactive_fallback_passes(#[trigger] last_of(children@, j)) by {
                            assert(last_of(children@, j) == last_of(c1, j));
                        }
                    }
                    return Ok(NodeStatus::Success);
                },
                NodeStatus::Failure => {},
                NodeStatus::Skipped => {
                    let ghost c1 = children@;
                    match halt_child(children, index, bb) {
                        Ok(_) => {},
                        Err(e) => return Err(e),
                    }
                    proof {
                        assert forall|j: int| 0 <= j < index + 1 implies #[trigger] last_of(children@, j) == last_of(c1, j) by {}
                    }
                },
                NodeStatus::Idle => {
                    return Err(NodeError::StatusError(to_owned_string("ReactiveFallback"), to_owned_string("Idle")));
                },
            }
            proof {
                assert forall|j: int| 0 <= j < index implies #[trigger] last_of(children@, j) == last_of(before, j) by {}
                if was_all {
                    assert forall|j: int| 0 <= j < index implies #[trigger] last_of(children@, j) == Some(NodeStatus::Skipped) by {
                        assert(last_of(before, j) == Some(NodeStatus::Skipped));
                    }
                } else {
                    let w = choose|w: int| 0 <= w < index && #[trigger] last_of(before, w) != Some(NodeStatus::Skipped);
                    assert(last_of(children@, w) != Some(NodeStatus::Skipped));
                }
                assert(last_of(children@, index as int) == Some(child_status));
            }
            index = index + 1;
        }
        if running.is_some() {
            return Ok(NodeStatus::Running);
        }
        self.running_child = None;
        proof {
            assert forall|j: int| 0 <= j < n implies fallback_passes(#[trigger] last_of(children@, j)) by {
                assert(reactive_fallback_passes(last_of(children@, j)));
            }
        }
        if all_skipped {
            Ok(NodeStatus::Skipped)
        } else {
            Ok(NodeStatus::Failure)
        }
    }

    /// Halting forgets the running child; the children are not halted.
    pub fn halt<A: SyncActionNode + StatefulActionNode>(
        &mut self,
        data: &mut NodeDataGeneric,
        children: &mut Vec<TreeNode<A>>,
        bb: &mut Blackboard,
    ) -> (r: Result<(), NodeError>)
        requires
            children_wf(old(children)@),
        ensures
            r is Ok,
            final(self).running_child is None,
            final(children)@ == old(children)@,
        decreases shapes(old(children)@), 7nat,
    {
        self.running_child = None;
        Ok(())
    }
}

/// Whether `list` holds `i`.
fn contains_index(list: &Vec<usize>, i: usize) -> (r: bool)
    ensures
        r == list@.contains(i),
{
    let mut k: usize = 0;
    while k < list.len()
        invariant
            k <= list@.len(),
            forall|j: int| 0 <= j < k ==> list@[j] != i,
        decreases list@.len() - k,
    {
        if list[k] == i {
            return true;
        }
        k = k + 1;
    }
    false
}

/// The integer that input port `port` gives: its plain value, its
/// default, or the blackboard entry it points to, read as an integer.
pub open spec fn spec_int_input(data: &NodeDataGeneric, bb: &Blackboard, port: Seq<char>) -> Option<i64> {
    match data.spec_plain_input(port, ValueKind::Integer) {
        Some(Ok(ValueModel::Integer(n))) => Some(n),
        Some(_) => None,
        None => if data.scope < bb.scope_count() {
            match bb.spec_get(data.scope as nat, data.spec_input_key(port).unwrap(), ValueKind::Integer) {
                Some(ValueModel::Integer(n)) => Some(n),
                _ => None,
            }
        } else {
            None
        },
    }
}

/// Whether an integer read from a port fits an `i32`.
pub open spec fn fits_i32(v: Option<i64>) -> bool {
    v is Some && i32::MIN <= v.unwrap() <= i32::MAX
}

/// Whether an integer read from a port is a threshold, as an `i32`, that
/// `n` children can reach.
pub open spec fn fits_threshold(v: Option<i64>, n: usize) -> bool {
    fits_i32(v) && spec_threshold(v.unwrap() as i32, n) <= n
}

/// Whether an integer read from a port is a count from 0 to `n`.
pub open spec fn fits_count(v: Option<i64>, n: usize) -> bool {
    v is Some && 0 <= v.unwrap() <= n
}

/// The integer that input port `port` gives without the blackboard: its
/// plain value or its default.
pub open spec fn plain_int(data: &NodeDataGeneric, port: Seq<char>) -> Option<i64> {
    match data.spec_plain_input(port, ValueKind::Integer) {
        Some(Ok(ValueModel::Integer(n))) => Some(n),
        _ => None,
    }
}

/// Reads an integer input port.
pub fn input_integer(data: &NodeDataGeneric, bb: &mut Blackboard, port: &str) -> (r: Result<i64, NodeError>)
    ensures
        match spec_int_input(data, old(bb), port@) {
            Some(n) => r == Ok::<i64, NodeError>(n),
            None => r is Err,
        },
{
    match data.get_input(bb, port, ValueKind::Integer) {
        Ok(Value::Integer(n)) => Ok(n),
        Ok(_) => Err(NodeError::PortTypeMismatch(to_owned_string(port))),
        Err(e) => Err(e),
    }
}

/// Reads an input port that holds an `i32`.
pub fn input_i32(data: &NodeDataGeneric, bb: &mut Blackboard, port: &str) -> (r: Result<i32, NodeError>)
    ensures
        match spec_int_input(data, old(bb), port@) {
            Some(n) => if i32::MIN <= n <= i32::MAX { r == Ok::<i32, NodeError>(n as i32) } else { r is Err },
            None => r is Err,
        },
{
    let n = match input_integer(data, bb, port) {
        Ok(n) => n,
        Err(e) => return Err(e),
    };
    if n < -2147483648 || n > 2147483647 {
        return Err(NodeError::PortValueParseError(to_owned_string(port), to_owned_string("i32")));
    }
    Ok(n as i32)
}

/// Reads an input port that holds a `usize`.
pub fn input_usize(data: &NodeDataGeneric, bb: &mut Blackboard, port: &str) -> (r: Result<usize, NodeError>)
    ensures
        match spec_int_input(data, old(bb), port@) {
            Some(n) => if 0 <= n <= usize::MAX { r == Ok::<usize, NodeError>(n as usize) } else { r is Err },
            None => r is Err,
        },
{
    let n = match input_integer(data, bb, port) {
        Ok(n) => n,
        Err(e) => return Err(e),
    };
    if n < 0 || n as u64 > usize::MAX as u64 {
        return Err(NodeError::PortValueParseError(to_owned_string(port), to_owned_string("usize")));
    }
    Ok(n as usize)
}

/// The number of children a threshold asks for: the threshold itself when
/// it is not negative, else counted from the number of children, with `-1`
/// meaning all of them.
pub open spec fn spec_threshold(threshold: i32, n_children: usize) -> int {
    if threshold < 0 {
        let v = n_children + threshold + 1;
        if v > 0 { v } else { 0 }
    } else {
        threshold as int
    }
}

/// Computes a threshold for `n_children` children.
fn compute_threshold(threshold: i32, n_children: usize) -> (r: usize)
    ensures
        r == spec_threshold(threshold, n_children),
{
    if threshold < 0 {
        let k: u64 = (-(threshold as i64) - 1) as u64;
        if (n_children as u64) >= k {
            n_children - (k as usize)
        } else {
            0
        }
    } else {
        threshold as usize
    }
}

/// The number of children before `upto` that are not in `done` and whose
/// last tick returned `s`.
pub open spec fn count_new<A>(c: Seq<TreeNode<A>>, done: Seq<usize>, upto: int, s: NodeStatus) -> int
    decreases upto,
{
    if upto <= 0 {
        0
    } else {
        count_new(c, done, upto - 1, s) + if !done.contains((upto - 1) as usize) && last_of(c, upto - 1) == Some(s) {
            1int
        } else {
            0int
        }
    }
}

/// At most `upto` children are counted.
pub proof fn lemma_count_new_bounds<A>(c: Seq<TreeNode<A>>, done: Seq<usize>, upto: int, s: NodeStatus)
    requires
        0 <= upto,
    ensures
        0 <= count_new(c, done, upto, s) <= upto,
    decreases upto,
{
    if upto > 0 {
        lemma_count_new_bounds(c, done, upto - 1, s);
    }
}

/// The count depends only on the last results of the children it looks at.
pub proof fn lemma_count_new_same<A>(a: Seq<TreeNode<A>>, b: Seq<TreeNode<A>>, done: Seq<usize>, upto: int, s: NodeStatus)
    requires
        forall|j: int| 0 <= j < upto ==> #[trigger] last_of(a, j) == last_of(b, j),
    ensures
        count_new(a, done, upto, s) == count_new(b, done, upto, s),
    decreases upto,
{
    if upto > 0 {
        assert(last_of(a, upto - 1) == last_of(b, upto - 1));
        lemma_count_new_same(a, b, done, upto - 1, s);
    }
}

/// Whether a parallel node that had `sc0` successes has, counting the
/// children up to and including `i`, enough successes and skipped children
/// to reach `required`.
pub open spec fn parallel_succeeds<A>(c: Seq<TreeNode<A>>, done: Seq<usize>, i: int, sc0: int, required: int) -> bool {
    sc0 + count_new(c, done, i + 1, NodeStatus::Success) + count_new(c, done, i + 1, NodeStatus::Skipped) >= required
}

/// Whether a parallel node over `n` children that had `fc0` failures has,
/// counting the children up to and including `i`, so many failures that
/// `required` successes are out of reach, or reached the failure threshold.
pub open spec fn parallel_fails<A>(
    c: Seq<TreeNode<A>>,
    done: Seq<usize>,
    i: int,
    n: int,
    fc0: int,
    required: int,
    failure_threshold: int,
) -> bool {
    let f = fc0 + count_new(c, done, i + 1, NodeStatus::Failure);
    f + required > n || f >= failure_threshold
}

/// Whether, after each of the children before `upto`, a parallel node
/// neither succeeded nor failed.
pub open spec fn parallel_undecided<A>(
    c: Seq<TreeNode<A>>,
    done: Seq<usize>,
    upto: int,
    n: int,
    sc0: int,
    fc0: int,
    required: int,
    failure_threshold: int,
) -> bool {
    forall|j: int| #![trigger parallel_succeeds(c, done, j, sc0, required)]
        0 <= j && j < upto ==> !parallel_succeeds(c, done, j, sc0, required)
            && !parallel_fails(c, done, j, n, fc0, required, failure_threshold)
}

/// Whether the children before `upto` returned the same on their last tick.
pub open spec fn same_lasts_before<A>(a: Seq<TreeNode<A>>, b: Seq<TreeNode<A>>, upto: int) -> bool {
    forall|j: int| 0 <= j < upto ==> #[trigger] last_of(a, j) == last_of(b, j)
}

/// Counts over children with the same last results agree.
pub proof fn lemma_counts_same<A>(a: Seq<TreeNode<A>>, b: Seq<TreeNode<A>>, done: Seq<usize>, upto: int)
    requires
        same_lasts_before(a, b, upto),
    ensures
        count_new(a, done, upto, NodeStatus::Success) == count_new(b, done, upto, NodeStatus::Success),
        count_new(a, done, upto, NodeStatus::Failure) == count_new(b, done, upto, NodeStatus::Failure),
        count_new(a, done, upto, NodeStatus::Skipped) == count_new(b, done, upto, NodeStatus::Skipped),
{
    lemma_count_new_same(a, b, done, upto, NodeStatus::Success);
    lemma_count_new_same(a, b, done, upto, NodeStatus::Failure);
    lemma_count_new_same(a, b, done, upto, NodeStatus::Skipped);
}

/// `i` is in `d + extra` exactly when it is in `d`, if every element of
/// `extra` is below `i`.
pub proof fn lemma_split_contains(d: Seq<usize>, extra: Seq<usize>, i: usize)
    requires
        forall|m: int| 0 <= m < extra.len() ==> #[trigger] extra[m] < i,
    ensures
        (d + extra).contains(i) == d.contains(i),
{
    if (d + extra).contains(i) {
        let w = choose|w: int| 0 <= w < (d + extra).len() && (d + extra)[w] == i;
        if w >= d.len() {
            assert(extra[w - d.len()] == i);
        }
        assert(d[w] == i);
    }
    if d.contains(i) {
        let w = choose|w: int| 0 <= w < d.len() && d[w] == i;
        assert((d + extra)[w] == i);
    }
}

/// An undecided parallel node that neither succeeds nor fails after child
/// `upto` is undecided up to the next child.
pub proof fn lemma_undecided_extend<A>(
    c: Seq<TreeNode<A>>,
    done: Seq<usize>,
    upto: int,
    n: int,
    sc0: int,
    fc0: int,
    required: int,
    failure_threshold: int,
)
    requires
        parallel_undecided(c, done, upto, n, sc0, fc0, required, failure_threshold),
        !parallel_succeeds(c, done, upto, sc0, required),
        !parallel_fails(c, done, upto, n, fc0, required, failure_threshold),
    ensures
        parallel_undecided(c, done, upto + 1, n, sc0, fc0, required, failure_threshold),
{
}

/// Resetting the children keeps what a parallel node decided from their
/// last results.
pub proof fn lemma_parallel_reset<A>(
    a: Seq<TreeNode<A>>,
    b: Seq<TreeNode<A>>,
    done: Seq<usize>,
    i: int,
    n: int,
    sc0: int,
    fc0: int,
    required: int,
    failure_threshold: int,
)
    requires
        same_lasts(a, b),
        0 <= i < n == b.len(),
    ensures
        parallel_succeeds(a, done, i, sc0, required) == parallel_succeeds(b, done, i, sc0, required),
        parallel_fails(a, done, i, n, fc0, required, failure_threshold) == parallel_fails(b, done, i, n, fc0, required, failure_threshold),
        parallel_undecided(b, done, i, n, sc0, fc0, required, failure_threshold)
            ==> parallel_undecided(a, done, i, n, sc0, fc0, required, failure_threshold),
        count_new(a, done, i + 1, NodeStatus::Success) == count_new(b, done, i + 1, NodeStatus::Success),
        count_new(a, done, i + 1, NodeStatus::Failure) == count_new(b, done, i + 1, NodeStatus::Failure),
        count_new(a, done, i + 1, NodeStatus::Skipped) == count_new(b, done, i + 1, NodeStatus::Skipped),
{
    assert(same_lasts_before(a, b, i + 1));
    assert(same_lasts_before(a, b, i));
    lemma_counts_same(a, b, done, i + 1);
    if parallel_undecided(b, done, i, n, sc0, fc0, required, failure_threshold) {
        lemma_undecided_same(a, b, done, i, n, sc0, fc0, required, failure_threshold);
    }
}

/// Whether a parallel node is undecided depends only on the last results
/// of the children it looks at.
pub proof fn lemma_undecided_same<A>(
    a: Seq<TreeNode<A>>,
    b: Seq<TreeNode<A>>,
    done: Seq<usize>,
    upto: int,
    n: int,
    sc0: int,
    fc0: int,
    required: int,
    failure_threshold: int,
)
    requires
        same_lasts_before(a, b, upto),
        parallel_undecided(b, done, upto, n, sc0, fc0, required, failure_threshold),
    ensures
        parallel_undecided(a, done, upto, n, sc0, fc0, required, failure_threshold),
{
    if !parallel_undecided(a, done, upto, n, sc0, fc0, required, failure_threshold) {
        let j = choose|j: int| 0 <= j && j < upto && (parallel_succeeds(a, done, j, sc0, required)
            || parallel_fails(a, done, j, n, fc0, required, failure_threshold));
        assert(same_lasts_before(a, b, j + 1));
        lemma_counts_same(a, b, done, j + 1);
        assert(!parallel_succeeds(b, done, j, sc0, required));
    }
}

/// Ticks all its children on every tick; succeeds once enough of them have
/// succeeded, fails once enough have failed.
#[derive(Debug)]
pub struct ParallelNode {
    pub success_threshold: usize,
    pub failure_threshold: usize,
    /// Children that have completed
    pub completed_list: Vec<usize>,
    pub success_count: usize,
    pub failure_count: usize,
}

impl ParallelNode {
    /// A node with nothing completed.
    pub fn default() -> (r: Self)
        ensures
            r.completed_list@.len() == 0,
            r.success_count == 0,
            r.failure_count == 0,
            r.success_threshold == 0,
            r.failure_threshold == 0,
    {
        ParallelNode {
            success_threshold: 0,
            failure_threshold: 0,
            completed_list: Vec::new(),
            success_count: 0,
            failure_count: 0,
        }
    }

    /// The ports: `success_count` (default -1, all children) and
    /// `failure_count` (default 1).
    pub fn ports() -> (r: PortsList)
        ensures
            r.map().dom() =~= set!["success_count"@, "failure_count"@],
            is_input_port(r.map()["success_count"@], "success_count"@, ValueKind::Integer, Some(ValueModel::Integer(-1i64))),
            is_input_port(r.map()["failure_count"@], "failure_count"@, ValueKind::Integer, Some(ValueModel::Integer(1i64))),
    {
        proof {
        reveal_strlit("success_count");
        reveal_strlit("failure_count");
            assert("success_count"@[0] != "failure_count"@[0]);
        }
        let mut p = PortsList::new();
        p.insert(to_owned_string("success_count"),
            PortInfo::input("success_count", ValueKind::Integer).default_value(Value::Integer(-1)).build());
        p.insert(to_owned_string("failure_count"),
            PortInfo::input("failure_count", ValueKind::Integer).default_value(Value::Integer(1)).build());
        p
    }

    /// The number of children a threshold asks for; see [`spec_threshold`].
    pub fn threshold(&self, threshold: i32, n_children: usize) -> (r: usize)
        ensures
            r == spec_threshold(threshold, n_children),
    {
        compute_threshold(threshold, n_children)
    }

    /// Forgets the completed children and the counts.
    pub fn clear(&mut self)
        ensures
            final(self).completed_list@.len() == 0,
            final(self).success_count == 0,
            final(self).failure_count == 0,
            final(self).success_threshold == old(self).success_threshold,
            final(self).failure_threshold == old(self).failure_threshold,
    {
        self.completed_list.clear();
        self.success_count = 0;
        self.failure_count = 0;
    }

    /// Ticks each child that has not completed. After each child it checks
    /// whether enough children succeeded (skipped ones count as successes)
    /// or enough failed that success is out of reach; either way it resets
    /// and halts the children and returns the outcome. Otherwise it is
    /// running, or skipped when every child was skipped.
    pub fn tick<A: SyncActionNode + StatefulActionNode>(
        &mut self,
        data: &mut NodeDataGeneric,
        children: &mut Vec<TreeNode<A>>,
        bb: &mut Blackboard,
    ) -> (r: NodeResult)
        requires
            children_wf(old(children)@),
        ensures
            shapes(final(children)@) == shapes(old(children)@),
            r matches Ok(s) ==> s != NodeStatus::Idle,
            r is Ok ==> final(self).success_threshold <= old(children)@.len()
                && final(self).failure_threshold <= old(children)@.len(),
            r is Ok ==> exists|sc: i32| spec_int_input(old(data), old(bb), "success_count"@) == Some(sc as i64)
                && final(self).success_threshold == #[trigger] spec_threshold(sc, old(children).len()),
            spec_int_input(old(data), old(bb), "success_count"@) is None ==> r is Err,
            r == Ok::<NodeStatus, NodeError>(NodeStatus::Success) || r == Ok::<NodeStatus, NodeError>(NodeStatus::Failure)
                ==> final(self).completed_list@.len() == 0 && final(self).success_count == 0 && final(self).failure_count == 0,
            old(children)@.len() > 0 && (r == Ok::<NodeStatus, NodeError>(NodeStatus::Running) || r == Ok::<NodeStatus, NodeError>(NodeStatus::Skipped))
                ==> final(self).success_count < final(self).success_threshold
                && final(self).failure_count < final(self).failure_threshold,
            old(children)@.len() == 0 ==> r is Err || r == Ok::<NodeStatus, NodeError>(NodeStatus::Skipped),
            // With counts that cannot overflow, the outcome is that of the
            // first child after which the node succeeds or fails.
            r is Ok && old(self).success_count + old(children)@.len() <= usize::MAX
                && old(self).failure_count + old(children)@.len() <= usize::MAX ==> ({
                let c = final(children)@;
                let d = old(self).completed_list@;
                let n = old(children)@.len() as int;
                let sc0 = old(self).success_count as int;
                let fc0 = old(self).failure_count as int;
                let req = final(self).success_threshold as int;
                let ft = final(self).failure_threshold as int;
                &&& (r == Ok::<NodeStatus, NodeError>(NodeStatus::Success) ==> exists|i: int|
                    0 <= i < n && #[trigger] parallel_succeeds(c, d, i, sc0, req)
                        && parallel_undecided(c, d, i, n, sc0, fc0, req, ft))
                &&& (r == Ok::<NodeStatus, NodeError>(NodeStatus::Failure) ==> exists|i: int|
                    0 <= i < n && #[trigger] parallel_fails(c, d, i, n, fc0, req, ft)
                        && !parallel_succeeds(c, d, i, sc0, req)
                        && parallel_undecided(c, d, i, n, sc0, fc0, req, ft))
                &&& (r == Ok::<NodeStatus, NodeError>(NodeStatus::Running) || r == Ok::<NodeStatus, NodeError>(NodeStatus::Skipped)
                    ==> parallel_undecided(c, d, n, n, sc0, fc0, req, ft))
                &&& (r == Ok::<NodeStatus, NodeError>(NodeStatus::Skipped) <==> (r == Ok::<NodeStatus, NodeError>(NodeStatus::Running)
                    || r == Ok::<NodeStatus, NodeError>(NodeStatus::Skipped)) && count_new(c, d, n, NodeStatus::Skipped) == n)
            }),
            r is Err ==> child_faulted(final(children)@)
                || !fits_threshold(spec_int_input(old(data), old(bb), "success_count"@), old(children).len())
                || !fits_count(plain_int(old(data), "failure_count"@), old(children).len()),
            fits_i32(spec_int_input(old(data), old(bb), "success_count"@))
                && !fits_threshold(spec_int_input(old(data), old(bb), "success_count"@), old(children).len())
                && (plain_int(old(data), "failure_count"@) matches Some(f) && 0 <= f <= usize::MAX)
                ==> (r matches Err(NodeError::NodeStructureError(_))) && final(children)@ == old(children)@,
            fits_threshold(spec_int_input(old(data), old(bb), "success_count"@), old(children).len())
                && (plain_int(old(data), "failure_count"@) matches Some(f) && old(children).len() < f <= usize::MAX)
                ==> (r matches Err(NodeError::NodeStructureError(_))) && final(children)@ == old(children)@,
            r == Ok::<NodeStatus, NodeError>(NodeStatus::Running) || r == Ok::<NodeStatus, NodeError>(NodeStatus::Skipped)
                ==> forall|j: int| 0 <= j < old(children)@.len() && old(self).completed_list@.contains(j as usize)
                    ==> #[trigger] final(children)@[j] == old(children)@[j],
            r matches Ok(s) && (s == NodeStatus::Success || s == NodeStatus::Failure) ==> children_reset(final(children)@),
            // Only the children that had not completed are ticked, each once,
            // in order until the outcome is decided.
            r == Ok::<NodeStatus, NodeError>(NodeStatus::Running) || r == Ok::<NodeStatus, NodeError>(NodeStatus::Skipped)
                ==> ticked_unless_done(old(children)@, final(children)@, old(self).completed_list@, old(children)@.len() as int),
            r == Ok::<NodeStatus, NodeError>(NodeStatus::Success) || r == Ok::<NodeStatus, NodeError>(NodeStatus::Failure)
                ==> exists|h: int| 0 < h <= old(children)@.len()
                    && #[trigger] ticked_unless_done(old(children)@, final(children)@, old(self).completed_list@, h),
        decreases shapes(old(children)@), 7nat,
    {
        let n = children.len();
        let sc = match input_i32(data, bb, "success_count") {
            Ok(v) => v,
            Err(e) => return Err(e),
        };
        self.success_threshold = self.threshold(sc, n);
        let ghost bb1 = *bb;
        self.failure_threshold = match input_usize(data, bb, "failure_count") {
            Ok(v) => v,
            Err(e) => return Err(e),
        };
        proof {
            if plain_int(old(data), "failure_count"@) is Some {
                assert(spec_int_input(data, &bb1, "failure_count"@) == plain_int(old(data), "failure_count"@));
            }
        }
        if n < self.success_threshold {
            return Err(NodeError::NodeStructureError(to_owned_string(
                "Number of children is less than the threshold. Can never succeed.",
            )));
        }
        if n < self.failure_threshold {
            return Err(NodeError::NodeStructureError(to_owned_string(
                "Number of children is less than the threshold. Can never fail.",
            )));
        }
        let ghost d = old(self).completed_list@;
        let ghost sc0 = old(self).success_count as int;
        let ghost fc0 = old(self).failure_count as int;
        let ghost fits = old(self).success_count + n <= usize::MAX && old(self).failure_count + n <= usize::MAX;
        let ghost req = self.success_threshold as int;
        let ghost ft = self.failure_threshold as int;
        let ghost mut extra: Seq<usize> = Seq::empty();
        proof {
            assert(self.completed_list@ =~= d + extra);
        }
        let mut skipped_count: usize = 0;
        let mut i: usize = 0;
        while i < n
            invariant
                n == children@.len(),
                n == old(children)@.len(),
                shapes(children@) == shapes(old(children)@),
                children_wf(children@),
                i <= n,
                skipped_count <= i,
                self.success_threshold <= n,
                self.failure_threshold <= n,
                req == self.success_threshold,
                ft == self.failure_threshold,
                spec_int_input(old(data), old(bb), "success_count"@) == Some(sc as i64),
                self.success_threshold == spec_threshold(sc, old(children).len()),
                plain_int(old(data), "failure_count"@) is Some && 0 <= plain_int(old(data), "failure_count"@).unwrap() <= usize::MAX
                    ==> self.failure_threshold == plain_int(old(data), "failure_count"@).unwrap(),
                i > 0 ==> self.success_count < self.success_threshold && self.failure_count < self.failure_threshold,
                i > 0 ==> skipped_count < self.success_threshold,
                d == old(self).completed_list@,
                sc0 == old(self).success_count,
                fc0 == old(self).failure_count,
                fits == (old(self).success_count + n <= usize::MAX && old(self).failure_count + n <= usize::MAX),
                self.completed_list@ == d + extra,
                forall|m: int| 0 <= m < extra.len() ==> #[trigger] extra[m] < i,
                forall|j: int| 0 <= j < n && d.contains(j as usize) ==> #[trigger] children@[j] == old(children)@[j],
                skipped_count == count_new(children@, d, i as int, NodeStatus::Skipped),
                fits ==> self.success_count == sc0 + count_new(children@, d, i as int, NodeStatus::Success),
                fits ==> self.failure_count == fc0 + count_new(children@, d, i as int, NodeStatus::Failure),
                fits ==> parallel_undecided(children@, d, i as int, n as int, sc0, fc0, req, ft),
                ticked_unless_done(old(children)@, children@, d, i as int),
            decreases n - i,
        {
            let ghost before = children@;
            proof {
                lemma_count_new_bounds(children@, d, i as int, NodeStatus::Success);
                lemma_count_new_bounds(children@, d, i as int, NodeStatus::Failure);
                lemma_split_contains(d, extra, i);
            }
            if !contains_index(&self.completed_list, i) {
                proof {
                    if d.contains(i) {
                        let w = choose|w: int| 0 <= w < d.len() && d[w] == i;
                        assert((d + extra)[w] == i);
                    }
                }
                match tick_child(children, i, bb) {
                    Ok(NodeStatus::Skipped) => {
                        skipped_count = skipped_count + 1;
                    },
                    Ok(NodeStatus::Success) => {
                        self.completed_list.push(i);
                        proof {
                            extra = extra.push(i);
                            assert(self.completed_list@ =~= d + extra);
                        }
                        self.success_count = self.success_count.wrapping_add(1);
                    },
                    Ok(NodeStatus::Failure) => {
                        self.completed_list.push(i);
                        proof {
                            extra = extra.push(i);
                            assert(self.completed_list@ =~= d + extra);
                        }
                        self.failure_count = self.failure_count.wrapping_add(1);
                    },
                    Ok(_) => {},
                    Err(e) => return Err(e),
                }
            }
            proof {
                assert(ticked_unless_done(old(children)@, children@, d, i + 1));
                assert(same_lasts_before(children@, before, i as int));
                lemma_counts_same(children@, before, d, i as int);
                if fits {
                    lemma_undecided_same(children@, before, d, i as int, n as int, sc0, fc0, req, ft);
                }
            }
            let required = self.success_threshold;
            if self.success_count >= required || skipped_count >= required || self.success_count
                >= required - skipped_count {
                let ghost c1 = children@;
                self.clear();
                reset_children(children, bb);
                proof {
                    lemma_parallel_reset(children@, c1, d, i as int, n as int, sc0, fc0, req, ft);
                    assert(ticked_unless_done(old(children)@, children@, d, i + 1));
                }
                return Ok(NodeStatus::Success);
            }
            if self.failure_count > n || n - self.failure_count < required || self.failure_count
                >= self.failure_threshold {
                let ghost c1 = children@;
                self.clear();
                reset_children(children, bb);
                proof {
                    lemma_parallel_reset(children@, c1, d, i as int, n as int, sc0, fc0, req, ft);
                    assert(ticked_unless_done(old(children)@, children@, d, i + 1));
                }
                return Ok(NodeStatus::Failure);
            }
            proof {
                if fits {
                    lemma_undecided_extend(children@, d, i as int, n as int, sc0, fc0, req, ft);
                }
            }
            i = i + 1;
        }
        if skipped_count == n {
            Ok(NodeStatus::Skipped)
        } else {
            Ok(NodeStatus::Running)
        }
    }

    /// Halting does nothing.
    pub fn halt<A: SyncActionNode + StatefulActionNode>(
        &mut self,
        data: &mut NodeDataGeneric,
        children: &mut Vec<TreeNode<A>>,
        bb: &mut Blackboard,
    ) -> (r: Result<(), NodeError>)
        requires
            children_wf(old(children)@),
        ensures
            r is Ok,
            final(children)@ == old(children)@,
        decreases shapes(old(children)@), 7nat,
    {
        Ok(())
    }
}

/// Ticks all its children until each has completed or been skipped; fails
/// if at least `max_failures` of them failed, else succeeds.
#[derive(Debug)]
pub struct ParallelAllNode {
    pub failure_threshold: usize,
    /// Children that have completed
    pub completed_list: Vec<usize>,
    pub failure_count: usize,
}

impl ParallelAllNode {
    /// A node with nothing completed.
    pub fn default() -> (r: Self)
        ensures
            r.completed_list@.len() == 0,
            r.failure_count == 0,
            r.failure_threshold == 0,
    {
        ParallelAllNode { failure_threshold: 0, completed_list: Vec::new(), failure_count: 0 }
    }

    /// The port `max_failures` (default 1).
    pub fn ports() -> (r: PortsList)
        ensures
            r.map().dom() =~= set!["max_failures"@],
            is_input_port(r.map()["max_failures"@], "max_failures"@, ValueKind::Integer, Some(ValueModel::Integer(1i64))),
    {
        proof {
        reveal_strlit("max_failures");
        }
        let mut p = PortsList::new();
        p.insert(to_owned_string("max_failures"),
            PortInfo::input("max_failures", ValueKind::Integer).default_value(Value::Integer(1)).build());
        p
    }

    /// The number of failures that makes the node fail; see
    /// [`spec_threshold`].
    pub fn failure_threshold(&self, threshold: i32, n_children: usize) -> (r: usize)
        ensures
            r == spec_threshold(threshold, n_children),
    {
        compute_threshold(threshold, n_children)
    }

    /// Ticks each child that has not completed. When every child has
    /// completed or was skipped in this tick, it halts the children and
    /// returns `Failure` if the failures reached the threshold, else
    /// `Success`; when all were skipped it returns `Skipped`; otherwise it is
    /// running.
    pub fn tick<A: SyncActionNode + StatefulActionNode>(
        &mut self,
        data: &mut NodeDataGeneric,
        children: &mut Vec<TreeNode<A>>,
        bb: &mut Blackboard,
    ) -> (r: NodeResult)
        requires
            children_wf(old(children)@),
        ensures
            shapes(final(children)@) == shapes(old(children)@),
            r matches Ok(s) ==> s != NodeStatus::Idle,
            r is Ok ==> final(self).failure_threshold <= old(children)@.len(),
            r is Ok ==> exists|mf: i32| spec_int_input(old(data), old(bb), "max_failures"@) == Some(mf as i64)
                && final(self).failure_threshold == #[trigger] spec_threshold(mf, old(children).len()),
            spec_int_input(old(data), old(bb), "max_failures"@) is None ==> r is Err,
            r == Ok::<NodeStatus, NodeError>(NodeStatus::Success) || r == Ok::<NodeStatus, NodeError>(NodeStatus::Failure)
                ==> final(self).completed_list@.len() == 0 && final(self).failure_count == 0,
            r == Ok::<NodeStatus, NodeError>(NodeStatus::Skipped) ==> forall|j: int|
                0 <= j < final(children)@.len() ==> #[trigger] last_of(final(children)@, j) == Some(NodeStatus::Skipped),
            // With a failure count that cannot overflow, the outcome follows
            // from what the children not completed before returned.
            r is Ok && old(self).failure_count + old(children)@.len() <= usize::MAX ==> ({
                let c = final(children)@;
                let d = old(self).completed_list@;
                let n = old(children)@.len() as int;
                let succeeded = count_new(c, d, n, NodeStatus::Success);
                let failed = count_new(c, d, n, NodeStatus::Failure);
                let skipped = count_new(c, d, n, NodeStatus::Skipped);
                let finished = skipped != n && d.len() + succeeded + failed + skipped >= n;
                let fails = old(self).failure_count + failed >= final(self).failure_threshold;
                &&& (r == Ok::<NodeStatus, NodeError>(NodeStatus::Skipped) <==> skipped == n)
                &&& (r == Ok::<NodeStatus, NodeError>(NodeStatus::Failure) <==> finished && fails)
                &&& (r == Ok::<NodeStatus, NodeError>(NodeStatus::Success) <==> finished && !fails)
                &&& (r == Ok::<NodeStatus, NodeError>(NodeStatus::Running) <==> skipped != n && !finished)
            }),
            r is Err ==> child_faulted(final(children)@) || child_idle(final(children)@)
                || !fits_threshold(spec_int_input(old(data), old(bb), "max_failures"@), old(children).len()),
            fits_i32(spec_int_input(old(data), old(bb), "max_failures"@))
                && !fits_threshold(spec_int_input(old(data), old(bb), "max_failures"@), old(children).len())
                ==> (r matches Err(NodeError::NodeStructureError(_))) && final(children)@ == old(children)@,
            r == Ok::<NodeStatus, NodeError>(NodeStatus::Running) || r == Ok::<NodeStatus, NodeError>(NodeStatus::Skipped)
                ==> forall|j: int| 0 <= j < old(children)@.len() && old(self).completed_list@.contains(j as usize)
                    ==> #[trigger] final(children)@[j] == old(children)@[j],
            r matches Ok(s) && (s == NodeStatus::Success || s == NodeStatus::Failure) ==> children_reset(final(children)@),
            // Each child that had not completed is ticked once.
            r is Ok ==> ticked_unless_done(old(children)@, final(children)@, old(self).completed_list@, old(children)@.len() as int),
        decreases shapes(old(children)@), 7nat,
    {
        let n = children.len();
        let mf = match input_i32(data, bb, "max_failures") {
            Ok(v) => v,
            Err(e) => return Err(e),
        };
        self.failure_threshold = self.failure_threshold(mf, n);
        if n < self.failure_threshold {
            return Err(NodeError::NodeStructureError(to_owned_string(
                "Number of children is less than the threshold. Can never fail.",
            )));
        }
        let ghost d = old(self).completed_list@;
        let ghost fc0 = old(self).failure_count as int;
        let ghost fits = old(self).failure_count + n <= usize::MAX;
        let ghost mut extra: Seq<usize> = Seq::empty();
        proof {
            assert(self.completed_list@ =~= d + extra);
        }
        let mut skipped_count: usize = 0;
        data.status = NodeStatus::Running;
        let mut i: usize = 0;
        while i < n
            invariant
                n == children@.len(),
                n == old(children)@.len(),
                shapes(children@) == shapes(old(children)@),
                children_wf(children@),
                i <= n,
                skipped_count <= i,
                self.failure_threshold <= n,
                spec_int_input(old(data), old(bb), "max_failures"@) == Some(mf as i64),
                self.failure_threshold == spec_threshold(mf, old(children).len()),
                skipped_count == i ==> forall|j: int| 0 <= j < i ==> #[trigger] last_of(children@, j) == Some(NodeStatus::Skipped),
                d == old(self).completed_list@,
                fc0 == old(self).failure_count,
                fits == (old(self).failure_count + n <= usize::MAX),
                self.completed_list@ == d + extra,
                forall|m: int| 0 <= m < extra.len() ==> #[trigger] extra[m] < i,
                forall|j: int| 0 <= j < n && d.contains(j as usize) ==> #[trigger] children@[j] == old(children)@[j],
                extra.len() == count_new(children@, d, i as int, NodeStatus::Success)
                    + count_new(children@, d, i as int, NodeStatus::Failure),
                skipped_count == count_new(children@, d, i as int, NodeStatus::Skipped),
                fits ==> self.failure_count == fc0 + count_new(children@, d, i as int, NodeStatus::Failure),
                ticked_unless_done(old(children)@, children@, d, i as int),
            decreases n - i,
        {
            let ghost before = children@;
            proof {
                lemma_count_new_bounds(children@, d, i as int, NodeStatus::Failure);
                lemma_split_contains(d, extra, i);
            }
            if !contains_index(&self.completed_list, i) {
                proof {
                    if d.contains(i) {
                        let w = choose|w: int| 0 <= w < d.len() && d[w] == i;
                        assert((d + extra)[w] == i);
                    }
                }
                let status = match tick_child(children, i, bb) {
                    Ok(s) => s,
                    Err(e) => return Err(e),
                };
                proof {
                    assert forall|j: int| 0 <= j < i implies #[trigger] last_of(children@, j) == last_of(before, j)
                        && (skipped_count == i ==> last_of(children@, j) == Some(NodeStatus::Skipped)) by {
                        assert(children@[j] == before[j]);
                        if skipped_count == i {
                            assert(last_of(before, j) == Some(NodeStatus::Skipped));
                        }
                    }
                }
                match status {
                    NodeStatus::Success => {
                        self.completed_list.push(i);
                        proof {
                            extra = extra.push(i);
                            assert(self.completed_list@ =~= d + extra);
                        }
                    },
                    NodeStatus::Failure => {
                        self.completed_list.push(i);
                        proof {
                            extra = extra.push(i);
                            assert(self.completed_list@ =~= d + extra);
                        }
                        self.failure_count = self.failure_count.wrapping_add(1);
                    },
                    NodeStatus::Skipped => {
                        skipped_count = skipped_count + 1;
                    },
                    NodeStatus::Running => {},
                    NodeStatus::Idle => {
                        return Err(NodeError::StatusError(to_owned_string("ParallelAllNode"), to_owned_string("Idle")));
                    },
                }
            }
            proof {
                assert(ticked_unless_done(old(children)@, children@, d, i + 1));
                assert(same_lasts_before(children@, before, i as int));
                lemma_counts_same(children@, before, d, i as int);
            }
            i = i + 1;
        }
        if skipped_count == n {
            return Ok(NodeStatus::Skipped);
        }
        if skipped_count >= n || self.completed_list.len() >= n - skipped_count {
            let ghost c1 = children@;
            reset_children(children, bb);
            proof {
                assert(same_lasts_before(children@, c1, n as int));
                lemma_counts_same(children@, c1, d, n as int);
            }
            self.completed_list.clear();
            let status = if self.failure_count >= self.failure_threshold {
                NodeStatus::Failure
            } else {
                NodeStatus::Success
            };
            self.failure_count = 0;
            return Ok(status);
        }
        Ok(NodeStatus::Running)
    }

    /// Halting does nothing.
    pub fn halt<A: SyncActionNode + StatefulActionNode>(
        &mut self,
        data: &mut NodeDataGeneric,
        children: &mut Vec<TreeNode<A>>,
        bb: &mut Blackboard,
    ) -> (r: Result<(), NodeError>)
        requires
            children_wf(old(children)@),
        ensures
            r is Ok,
            final(children)@ == old(children)@,
        decreases shapes(old(children)@), 7nat,
    {
        Ok(())
    }
}

/// Ticks its first child as a condition, then the second child when the
/// condition succeeded, or the third, if there is one, when it failed.
#[derive(Debug)]
pub struct IfThenElseNode {
    /// The branch being run: 0 while the condition runs
    pub child_idx: usize,
}

impl IfThenElseNode {
    /// A node that starts at its condition.
    pub fn default() -> (r: Self)
        ensures
            r.child_idx == 0,
    {
        IfThenElseNode { child_idx: 0 }
    }

    /// Ticks the condition (unless a branch is running), then the chosen
    /// branch, whose result becomes the node's; a completed branch halts the
    /// children and the node starts over. A failed condition without a third
    /// child makes the node fail.
    pub fn tick<A: SyncActionNode + StatefulActionNode>(
        &mut self,
        data: &mut NodeDataGeneric,
        children: &mut Vec<TreeNode<A>>,
        bb: &mut Blackboard,
    ) -> (r: NodeResult)
        requires
            children_wf(old(children)@),
        ensures
            shapes(final(children)@) == shapes(old(children)@),
            ({
                let c = final(children)@;
                let n = c.len();
                &&& (n < 2 || n > 3 ==> r matches Err(NodeError::NodeStructureError(_)))
                &&& (r == Ok::<NodeStatus, NodeError>(NodeStatus::Running) ==>
                    (final(self).child_idx == 0 && last_of(c, 0) == Some(NodeStatus::Running))
                    || (1 <= final(self).child_idx < n && last_of(c, final(self).child_idx as int) == Some(NodeStatus::Running)))
                &&& (r matches Ok(s) ==> (s != NodeStatus::Running ==> final(self).child_idx == 0 && (
                    (s == NodeStatus::Failure && n == 2 && last_of(c, 0) == Some(NodeStatus::Failure))
                    || (last_of(c, 1) == Some(s) && (old(self).child_idx == 1 || last_of(c, 0) == Some(NodeStatus::Success)))
                    || (n == 3 && last_of(c, 2) == Some(s) && (old(self).child_idx == 2 || last_of(c, 0) == Some(NodeStatus::Failure))))))
                &&& (r is Err ==> n < 2 || n > 3 || child_faulted(c) || child_idle(c)
                    || (old(self).child_idx == 0 && last_of(c, 0) == Some(NodeStatus::Skipped))
                    || old(self).child_idx >= n)
                // The condition is ticked only when no branch is running.
                &&& (r is Ok && old(self).child_idx == 0 && n >= 2 ==> c[0].ticks@ == old(children)@[0].ticks@ + 1)
                &&& (r is Ok && old(self).child_idx != 0 && n >= 2 ==> c[0].ticks@ == old(children)@[0].ticks@)
                // A branch that completes resets the children.
                &&& (r matches Ok(s) && s != NodeStatus::Running
                    && (n == 3 || old(self).child_idx != 0 || last_of(c, 0) != Some(NodeStatus::Failure))
                    ==> children_reset(c))
            }),
        decreases shapes(old(children)@), 7nat,
    {
        let n = children.len();
        if n < 2 || n > 3 {
            return Err(NodeError::NodeStructureError(to_owned_string(
                "IfThenElseNode must have either 2 or 3 children.",
            )));
        }
        data.status = NodeStatus::Running;
        if self.child_idx == 0 {
            let status = match tick_child(children, 0, bb) {
                Ok(s) => s,
                Err(e) => {
                    assert(children@[0].fault@);
                    return Err(e);
                },
            };
            match status {
                NodeStatus::Running => return Ok(NodeStatus::Running),
                NodeStatus::Success => {
                    self.child_idx = 1;
                },
                NodeStatus::Failure => {
                    if n == 3 {
                        self.child_idx = 2;
                    } else {
                        return Ok(NodeStatus::Failure);
                    }
                },
                NodeStatus::Idle => {
                    assert(last_of(children@, 0) == Some(NodeStatus::Idle));
                    return Err(NodeError::StatusError(to_owned_string("IfThenElseNode"), to_owned_string("Idle")));
                },
                NodeStatus::Skipped => {},
            }
        }
        if self.child_idx > 0 && self.child_idx < n {
            let ghost c0 = children@;
            let status = match tick_child(children, self.child_idx, bb) {
                Ok(s) => s,
                Err(e) => {
                    assert(children@[self.child_idx as int].fault@);
                    return Err(e);
                },
            };
            proof {
                assert(children@[0] == c0[0]);
            }
            match status {
                NodeStatus::Running => return Ok(NodeStatus::Running),
                s => {
                    let ghost c1 = children@;
                    reset_children(children, bb);
                    proof {
                        assert(last_of(children@, 0) == last_of(c1, 0));
                        assert(last_of(children@, 1) == last_of(c1, 1));
                        assert(n == 3 ==> last_of(children@, 2) == last_of(c1, 2));
                    }
                    self.child_idx = 0;
                    return Ok(s);
                },
            }
        }
        Err(NodeError::NodeStructureError(to_owned_string(
            "Something unexpected happened in IfThenElseNode",
        )))
    }

    /// Halting starts the node over and halts its children.
    pub fn halt<A: SyncActionNode + StatefulActionNode>(
        &mut self,
        data: &mut NodeDataGeneric,
        children: &mut Vec<TreeNode<A>>,
        bb: &mut Blackboard,
    ) -> (r: Result<(), NodeError>)
        requires
            children_wf(old(children)@),
        ensures
            r is Ok,
            final(self).child_idx == 0,
            shapes(final(children)@) == shapes(old(children)@),
            same_lasts(final(children)@, old(children)@),
        decreases shapes(old(children)@), 7nat,
    {
        self.child_idx = 0;
        reset_children(children, bb);
        Ok(())
    }
}

/// Ticks its first child as a condition on every tick; while it succeeds
/// the second child runs, while it fails the third (if there is one).
#[derive(Debug)]
pub struct WhileDoElseNode;

impl WhileDoElseNode {
    /// Ticks the condition, then halts the branch that was not chosen and
    /// ticks the chosen one; its result becomes the node's. A failed
    /// condition without a third child makes the node fail. A skipped
    /// condition gives `Idle`. Unless the result is `Running` the children
    /// are halted.
    pub fn tick<A: SyncActionNode + StatefulActionNode>(
        &mut self,
        data: &mut NodeDataGeneric,
        children: &mut Vec<TreeNode<A>>,
        bb: &mut Blackboard,
    ) -> (r: NodeResult)
        requires
            children_wf(old(children)@),
        ensures
            shapes(final(children)@) == shapes(old(children)@),
            ({
                let c = final(children)@;
                let n = c.len();
                &&& (n < 2 || n > 3 ==> r matches Err(NodeError::NodeStructureError(_)))
                &&& (r matches Ok(s) ==> (
                    (last_of(c, 0) == Some(NodeStatus::Running) && s == NodeStatus::Running)
                    || (last_of(c, 0) == Some(NodeStatus::Success) && last_of(c, 1) == Some(s))
                    || (last_of(c, 0) == Some(NodeStatus::Failure) && n == 3 && last_of(c, 2) == Some(s))
                    || (last_of(c, 0) == Some(NodeStatus::Failure) && n == 2 && s == NodeStatus::Failure)
                    || (last_of(c, 0) == Some(NodeStatus::Skipped) && s == NodeStatus::Idle)
                    || (last_of(c, 0) == Some(NodeStatus::Idle) && s == NodeStatus::Idle)))
                &&& (r is Err ==> n < 2 || n > 3 || child_faulted(c))
            }),
            r matches Ok(s) && (s == NodeStatus::Success || s == NodeStatus::Failure) ==> children_reset(final(children)@),
            // The condition is ticked once; the branch that was not chosen
            // is halted.
            r is Ok ==> final(children)@[0].ticks@ == old(children)@[0].ticks@ + 1,
            r == Ok::<NodeStatus, NodeError>(NodeStatus::Running) && final(children)@.len() == 3
                && last_of(final(children)@, 0) == Some(NodeStatus::Success)
                ==> final(children)@[2].data.status == NodeStatus::Idle,
            r == Ok::<NodeStatus, NodeError>(NodeStatus::Running) && final(children)@.len() == 3
                && last_of(final(children)@, 0) == Some(NodeStatus::Failure)
                ==> final(children)@[1].data.status == NodeStatus::Idle,
        decreases shapes(old(children)@), 7nat,
    {
        let n = children.len();
        if n < 2 || n > 3 {
            return Err(NodeError::NodeStructureError(to_owned_string(
                "IfThenElseNode must have either 2 or 3 children.",
            )));
        }
        data.status = NodeStatus::Running;
        let condition_status = match tick_child(children, 0, bb) {
            Ok(s) => s,
            Err(e) => {
                assert(children@[0].fault@);
                return Err(e);
            },
        };
        if condition_status == NodeStatus::Running {
            return Ok(NodeStatus::Running);
        }
        let ghost c0 = children@;
        let mut status = NodeStatus::Idle;
        match condition_status {
            NodeStatus::Success => {
                if n == 3 {
                    match halt_child(children, 2, bb) {
                        Ok(_) => {},
                        Err(e) => {
                            assert(children@[2].fault@);
                            return Err(e);
                        },
                    }
                }
                let ghost c1 = children@;
                status = match tick_child(children, 1, bb) {
                    Ok(s) => s,
                    Err(e) => {
                        assert(children@[1].fault@);
                        return Err(e);
                    },
                };
                proof {
                    assert(children@[0] == c1[0]);
                    assert(last_of(c1, 0) == last_of(c0, 0));
                }
            },
            NodeStatus::Failure => {
                if n == 3 {
                    match halt_child(children, 1, bb) {
                        Ok(_) => {},
                        Err(e) => {
                            assert(children@[1].fault@);
                            return Err(e);
                        },
                    }
                    let ghost c1 = children@;
                    status = match tick_child(children, 2, bb) {
                        Ok(s) => s,
                        Err(e) => {
                            assert(children@[2].fault@);
                            return Err(e);
                        },
                    };
                    proof {
                        assert(children@[0] == c1[0]);
                        assert(last_of(c1, 0) == last_of(c0, 0));
                    }
                } else {
                    status = NodeStatus::Failure;
                }
            },
            _ => {},
        }
        if status == NodeStatus::Running {
            Ok(NodeStatus::Running)
        } else {
            let ghost c2 = children@;
            reset_children(children, bb);
            proof {
                assert(last_of(children@, 0) == last_of(c2, 0));
                assert(last_of(children@, 1) == last_of(c2, 1));
                assert(n == 3 ==> last_of(children@, 2) == last_of(c2, 2));
            }
            Ok(status)
        }
    }

    /// Halting halts the children.
    pub fn halt<A: SyncActionNode + StatefulActionNode>(
        &mut self,
        data: &mut NodeDataGeneric,
        children: &mut Vec<TreeNode<A>>,
        bb: &mut Blackboard,
    ) -> (r: Result<(), NodeError>)
        requires
            children_wf(old(children)@),
        ensures
            r is Ok,
            shapes(final(children)@) == shapes(old(children)@),
            same_lasts(final(children)@, old(children)@),
            (forall|j: int| 0 <= j < final(children)@.len() ==> #[trigger] final(children)@[j].data.status == NodeStatus::Idle)
                || child_faulted(final(children)@),
        decreases shapes(old(children)@), 7nat,
    {
        reset_children(children, bb);
        Ok(())
    }
}

/// Thresholds count like negative indexes in Python: `-1` asks for all
/// children, `-k` for all but `k - 1` of them, and a threshold that is not
/// negative asks for itself.
pub proof fn lemma_threshold(threshold: i32, n_children: usize)
    ensures
        spec_threshold(-1i32, n_children) == n_children,
        threshold >= 0 ==> spec_threshold(threshold, n_children) == threshold,
        threshold < 0 && n_children + threshold + 1 >= 0 ==> spec_threshold(threshold, n_children)
            == n_children + threshold + 1,
        0 <= spec_threshold(threshold, n_children),
        threshold < 0 ==> spec_threshold(threshold, n_children) <= n_children,
{
}

} // verus!
