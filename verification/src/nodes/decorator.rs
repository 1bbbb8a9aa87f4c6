//! Decorator nodes: nodes with exactly one child whose ticking or result
//! they change.

use vstd::prelude::*;

use crate::basic_types::{NodeStatus, PortInfo, PortsList};
use crate::blackboard::Blackboard;
use crate::nodes::control::{fits_i32, input_i32, lemma_after_child_tick, spec_int_input};
use crate::nodes::{
    child_faulted, child_idle, children_wf, lemma_child_shape, last_of, same_lasts, shape_wf, shapes, NodeDataGeneric,
    NodeError, NodeResult, StatefulActionNode, SyncActionNode, TreeNode,
};
use crate::text::to_owned_string;
use crate::value::{Value, ValueKind, ValueModel};
use crate::basic_types::is_input_port;

verus! {

/// Halts the child if it is running and sets its status to `Idle`.
pub fn reset_child<A: SyncActionNode + StatefulActionNode>(
    children: &mut Vec<TreeNode<A>>,
    bb: &mut Blackboard,
) -> (r: Result<(), NodeError>)
    requires
        children_wf(old(children)@),
    ensures
        shapes(final(children)@) == shapes(old(children)@),
        same_lasts(final(children)@, old(children)@),
        old(children)@.len() > 0 ==> final(children)@[0].ticks == old(children)@[0].ticks,
        r is Ok && old(children)@.len() > 0 ==> final(children)@[0].data.status == NodeStatus::Idle,
        old(children)@.len() > 0 && old(children)@[0].data.status != NodeStatus::Running ==> r is Ok,
        forall|j: int| 1 <= j < old(children)@.len() ==> #[trigger] final(children)@[j] == old(children)@[j],
        r is Err ==> old(children)@.len() > 0 && final(children)@[0].fault@,
    decreases shapes(old(children)@), 3nat,
{
    if children.len() == 0 {
        return Ok(());
    }
    let ghost before = children@;
    proof {
        lemma_child_shape(children@, 0);
        assert(shape_wf(shapes(children@)[0]));
    }
    if children[0].status() == NodeStatus::Running {
        let h = children[0].halt(bb);
        proof {
            lemma_after_child_tick(before, children@, 0);
        }
        match h {
            Ok(_) => {},
            Err(e) => return Err(e),
        }
    }
    let ghost mid = children@;
    children[0].reset_status();
    proof {
        lemma_after_child_tick(mid, children@, 0);
    }
    Ok(())
}

/// Halts the child; the same as [`reset_child`].
pub fn halt_child<A: SyncActionNode + StatefulActionNode>(
    children: &mut Vec<TreeNode<A>>,
    bb: &mut Blackboard,
) -> (r: Result<(), NodeError>)
    requires
        children_wf(old(children)@),
    ensures
        shapes(final(children)@) == shapes(old(children)@),
        same_lasts(final(children)@, old(children)@),
        old(children)@.len() > 0 ==> final(children)@[0].ticks == old(children)@[0].ticks,
        r is Ok && old(children)@.len() > 0 ==> final(children)@[0].data.status == NodeStatus::Idle,
        old(children)@.len() > 0 && old(children)@[0].data.status != NodeStatus::Running ==> r is Ok,
        forall|j: int| 1 <= j < old(children)@.len() ==> #[trigger] final(children)@[j] == old(children)@[j],
        r is Err ==> old(children)@.len() > 0 && final(children)@[0].fault@,
    decreases shapes(old(children)@), 4nat,
{
    reset_child(children, bb)
}

/// Ticks the only child.
fn tick_only_child<A: SyncActionNode + StatefulActionNode>(
    children: &mut Vec<TreeNode<A>>,
    bb: &mut Blackboard,
) -> (r: NodeResult)
    requires
        children_wf(old(children)@),
        old(children)@.len() == 1,
    ensures
        shapes(final(children)@) == shapes(old(children)@),
        children_wf(final(children)@),
        final(children)@.len() == 1,
        r matches Ok(s) ==> last_of(final(children)@, 0) == Some(s),
        r is Err ==> last_of(final(children)@, 0) == last_of(old(children)@, 0),
        final(children)@[0].fault@ == (r is Err),
        final(children)@[0].ticks@ == old(children)@[0].ticks@ + if r is Ok { 1nat } else { 0nat },
    decreases shapes(old(children)@), 3nat,
{
    let ghost before = children@;
    proof {
        lemma_child_shape(children@, 0);
        assert(shape_wf(shapes(children@)[0]));
    }
    let r = children[0].execute_tick(bb);
    proof {
        lemma_after_child_tick(before, children@, 0);
    }
    r
}

/// Whether a status is `Success` or `Failure`.
pub open spec fn completed(s: NodeStatus) -> bool {
    s == NodeStatus::Success || s == NodeStatus::Failure
}

/// The result of a decorator that turns a completed child into `outcome`
/// and is running otherwise.
pub open spec fn forced(child: NodeStatus, outcome: NodeStatus) -> NodeStatus {
    if completed(child) { outcome } else { NodeStatus::Running }
}

/// The result of an inverter whose child returned `child`.
pub open spec fn inverted(child: NodeStatus) -> NodeStatus {
    match child {
        NodeStatus::Success => NodeStatus::Failure,
        NodeStatus::Failure => NodeStatus::Success,
        other => other,
    }
}

/// The result of a decorator over its child's tick: `r` is the decorator's
/// result and `c` the child after the tick.
pub open spec fn decorates<A>(r: NodeResult, c: Seq<TreeNode<A>>, f: spec_fn(NodeStatus) -> NodeStatus) -> bool {
    r matches Ok(s) ==> (last_of(c, 0) is Some && s == f(last_of(c, 0).unwrap()))
}

/// Turns a completed child into a failure.
#[derive(Debug)]
pub struct ForceFailureNode;

/// Turns a completed child into a success.
#[derive(Debug)]
pub struct ForceSuccessNode;

/// Swaps the child's success and failure.
#[derive(Debug)]
pub struct InverterNode;

/// Keeps running while the child succeeds; fails when it fails.
#[derive(Debug)]
pub struct KeepRunningUntilFailureNode;

/// Runs a subtree.
#[derive(Debug)]
pub struct SubTreeNode;

impl ForceFailureNode {
    /// Ticks the child and returns only `Failure` or `Running`: a completed
    /// child is halted and the node fails; otherwise the node is running.
    pub fn tick<A: SyncActionNode + StatefulActionNode>(
        &mut self,
        data: &mut NodeDataGeneric,
        children: &mut Vec<TreeNode<A>>,
        bb: &mut Blackboard,
    ) -> (r: NodeResult)
        requires
            children_wf(old(children)@),
            old(children)@.len() == 1,
        ensures
            shapes(final(children)@) == shapes(old(children)@),
            decorates(r, final(children)@, |s: NodeStatus| forced(s, NodeStatus::Failure)),
            r is Ok ==> ticks_of(final(children)@, 0) == ticks_of(old(children)@, 0) + 1,
            r matches Ok(s) ==> s == NodeStatus::Failure || s == NodeStatus::Running,
            r == Ok::<NodeStatus, NodeError>(NodeStatus::Failure) ==> final(children)@[0].data.status == NodeStatus::Idle,
            r is Err ==> child_faulted(final(children)@) || child_idle(final(children)@),
            r is Err && !child_faulted(final(children)@) ==> r matches Err(NodeError::StatusError(_, _)),
        decreases shapes(old(children)@), 7nat,
    {
        data.status = NodeStatus::Running;
        let child_status = match tick_only_child(children, bb) {
            Ok(s) => s,
            Err(e) => return Err(e),
        };
        if child_status.is_completed() {
            match reset_child(children, bb) {
                Ok(_) => {},
                Err(e) => return Err(e),
            }
            return Ok(NodeStatus::Failure);
        }
        Ok(NodeStatus::Running)
    }

    /// Halting halts the child.
    pub fn halt<A: SyncActionNode + StatefulActionNode>(
        &mut self,
        data: &mut NodeDataGeneric,
        children: &mut Vec<TreeNode<A>>,
        bb: &mut Blackboard,
    ) -> (r: Result<(), NodeError>)
        requires
            children_wf(old(children)@),
        ensures
            shapes(final(children)@) == shapes(old(children)@),
            same_lasts(final(children)@, old(children)@),
            r is Ok && old(children)@.len() > 0 ==> final(children)@[0].data.status == NodeStatus::Idle,
            old(children)@.len() > 0 && old(children)@[0].data.status != NodeStatus::Running ==> r is Ok,
            r is Err ==> child_faulted(final(children)@),
        decreases shapes(old(children)@), 7nat,
    {
        reset_child(children, bb)
    }
}

impl ForceSuccessNode {
    /// Ticks the child and returns only `Success` or `Running`: a completed
    /// child is halted and the node succeeds; otherwise the node is running.
    pub fn tick<A: SyncActionNode + StatefulActionNode>(
        &mut self,
        data: &mut NodeDataGeneric,
        children: &mut Vec<TreeNode<A>>,
        bb: &mut Blackboard,
    ) -> (r: NodeResult)
        requires
            children_wf(old(children)@),
            old(children)@.len() == 1,
        ensures
            shapes(final(children)@) == shapes(old(children)@),
            decorates(r, final(children)@, |s: NodeStatus| forced(s, NodeStatus::Success)),
            r is Ok ==> ticks_of(final(children)@, 0) == ticks_of(old(children)@, 0) + 1,
            r matches Ok(s) ==> s == NodeStatus::Success || s == NodeStatus::Running,
            r == Ok::<NodeStatus, NodeError>(NodeStatus::Success) ==> final(children)@[0].data.status == NodeStatus::Idle,
            r is Err ==> child_faulted(final(children)@) || child_idle(final(children)@),
            r is Err && !child_faulted(final(children)@) ==> r matches Err(NodeError::StatusError(_, _)),
        decreases shapes(old(children)@), 7nat,
    {
        data.status = NodeStatus::Running;
        let child_status = match tick_only_child(children, bb) {
            Ok(s) => s,
            Err(e) => return Err(e),
        };
        if child_status.is_completed() {
            match reset_child(children, bb) {
                Ok(_) => {},
                Err(e) => return Err(e),
            }
            return Ok(NodeStatus::Success);
        }
        Ok(NodeStatus::Running)
    }

    /// Halting does nothing of its own.
    pub fn halt<A: SyncActionNode + StatefulActionNode>(
        &mut self,
        data: &mut NodeDataGeneric,
        children: &mut Vec<TreeNode<A>>,
        bb: &mut Blackboard,
    ) -> (r: Result<(), NodeError>)
        requires
            children_wf(old(children)@),
        ensures
            r is Ok,
            final(children)@ == old(children)@,
        decreases shapes(old(children)@), 7nat,
    {
        Ok(())
    }
}

impl InverterNode {
    /// Ticks the child; a success becomes a failure and a failure a success
    /// (halting the child), `Running` and `Skipped` pass on, `Idle` is an
    /// error.
    pub fn tick<A: SyncActionNode + StatefulActionNode>(
        &mut self,
        data: &mut NodeDataGeneric,
        children: &mut Vec<TreeNode<A>>,
        bb: &mut Blackboard,
    ) -> (r: NodeResult)
        requires
            children_wf(old(children)@),
            old(children)@.len() == 1,
        ensures
            shapes(final(children)@) == shapes(old(children)@),
            decorates(r, final(children)@, |s: NodeStatus| inverted(s)),
            r matches Ok(s) ==> s != NodeStatus::Idle,
            r is Err ==> child_faulted(final(children)@) || child_idle(final(children)@),
            r is Err && !child_faulted(final(children)@) ==> r matches Err(NodeError::StatusError(_, _)),
            // The child is ticked once, and reset once it has completed.
            r is Ok ==> ticks_of(final(children)@, 0) == ticks_of(old(children)@, 0) + 1,
            r matches Ok(s) && (s == NodeStatus::Success || s == NodeStatus::Failure)
                ==> final(children)@[0].data.status == NodeStatus::Idle,
            !child_faulted(final(children)@) && child_idle(final(children)@)
                ==> r matches Err(NodeError::StatusError(_, _)),
        decreases shapes(old(children)@), 7nat,
    {
        data.status = NodeStatus::Running;
        let child_status = match tick_only_child(children, bb) {
            Ok(s) => s,
            Err(e) => return Err(e),
        };
        match child_status {
            NodeStatus::Success => {
                match reset_child(children, bb) {
                    Ok(_) => {},
                    Err(e) => return Err(e),
                }
                Ok(NodeStatus::Failure)
            },
            NodeStatus::Failure => {
                match reset_child(children, bb) {
                    Ok(_) => {},
                    Err(e) => return Err(e),
                }
                Ok(NodeStatus::Success)
            },
            NodeStatus::Running => Ok(NodeStatus::Running),
            NodeStatus::Skipped => Ok(NodeStatus::Skipped),
            NodeStatus::Idle => Err(NodeError::StatusError(to_owned_string("InverterNode"), to_owned_string("Idle"))),
        }
    }

    /// Halting does nothing of its own.
    pub fn halt<A: SyncActionNode + StatefulActionNode>(
        &mut self,
        data: &mut NodeDataGeneric,
        children: &mut Vec<TreeNode<A>>,
        bb: &mut Blackboard,
    ) -> (r: Result<(), NodeError>)
        requires
            children_wf(old(children)@),
        ensures
            r is Ok,
            final(children)@ == old(children)@,
        decreases shapes(old(children)@), 7nat,
    {
        Ok(())
    }
}

/// The result of a keep-running decorator whose child returned `child`.
pub open spec fn kept_running(child: NodeStatus) -> NodeStatus {
    if child == NodeStatus::Failure { NodeStatus::Failure } else { NodeStatus::Running }
}

impl KeepRunningUntilFailureNode {
    /// Ticks the child; a success halts it and the node keeps running, a
    /// failure halts it and the node fails; otherwise the node is running.
    pub fn tick<A: SyncActionNode + StatefulActionNode>(
        &mut self,
        data: &mut NodeDataGeneric,
        children: &mut Vec<TreeNode<A>>,
        bb: &mut Blackboard,
    ) -> (r: NodeResult)
        requires
            children_wf(old(children)@),
            old(children)@.len() == 1,
        ensures
            shapes(final(children)@) == shapes(old(children)@),
            decorates(r, final(children)@, |s: NodeStatus| kept_running(s)),
            r is Ok ==> ticks_of(final(children)@, 0) == ticks_of(old(children)@, 0) + 1,
            r is Err ==> child_faulted(final(children)@) || child_idle(final(children)@),
            r is Err && !child_faulted(final(children)@) ==> r matches Err(NodeError::StatusError(_, _)),
        decreases shapes(old(children)@), 7nat,
    {
        data.status = NodeStatus::Running;
        let child_status = match tick_only_child(children, bb) {
            Ok(s) => s,
            Err(e) => return Err(e),
        };
        match child_status {
            NodeStatus::Success => {
                match reset_child(children, bb) {
                    Ok(_) => {},
                    Err(e) => return Err(e),
                }
                Ok(NodeStatus::Running)
            },
            NodeStatus::Failure => {
                match reset_child(children, bb) {
                    Ok(_) => {},
                    Err(e) => return Err(e),
                }
                Ok(NodeStatus::Failure)
            },
            NodeStatus::Running => Ok(NodeStatus::Running),
            _ => Ok(data.status),
        }
    }

    /// Halting does nothing of its own.
    pub fn halt<A: SyncActionNode + StatefulActionNode>(
        &mut self,
        data: &mut NodeDataGeneric,
        children: &mut Vec<TreeNode<A>>,
        bb: &mut Blackboard,
    ) -> (r: Result<(), NodeError>)
        requires
            children_wf(old(children)@),
        ensures
            r is Ok,
            final(children)@ == old(children)@,
        decreases shapes(old(children)@), 7nat,
    {
        Ok(())
    }
}

impl SubTreeNode {
    /// Ticks the subtree and returns its status; the node becomes running
    /// when it was idle.
    pub fn tick<A: SyncActionNode + StatefulActionNode>(
        &mut self,
        data: &mut NodeDataGeneric,
        children: &mut Vec<TreeNode<A>>,
        bb: &mut Blackboard,
    ) -> (r: NodeResult)
        requires
            children_wf(old(children)@),
            old(children)@.len() == 1,
        ensures
            shapes(final(children)@) == shapes(old(children)@),
            decorates(r, final(children)@, |s: NodeStatus| s),
            r is Ok ==> ticks_of(final(children)@, 0) == ticks_of(old(children)@, 0) + 1,
            r is Err ==> child_faulted(final(children)@) || child_idle(final(children)@),
            r is Err && !child_faulted(final(children)@) ==> r matches Err(NodeError::StatusError(_, _)),
        decreases shapes(old(children)@), 7nat,
    {
        if data.status == NodeStatus::Idle {
            data.status = NodeStatus::Running;
        }
        tick_only_child(children, bb)
    }

    /// Halting does nothing of its own.
    pub fn halt<A: SyncActionNode + StatefulActionNode>(
        &mut self,
        data: &mut NodeDataGeneric,
        children: &mut Vec<TreeNode<A>>,
        bb: &mut Blackboard,
    ) -> (r: Result<(), NodeError>)
        requires
            children_wf(old(children)@),
        ensures
            r is Ok,
            final(children)@ == old(children)@,
        decreases shapes(old(children)@), 7nat,
    {
        Ok(())
    }
}

/// The boolean that input port `port` gives: its plain value, its default,
/// or the blackboard entry it points to, read as a boolean.
pub open spec fn spec_bool_input(data: &NodeDataGeneric, bb: &Blackboard, port: Seq<char>) -> Option<bool> {
    match data.spec_plain_input(port, ValueKind::Boolean) {
        Some(Ok(ValueModel::Boolean(b))) => Some(b),
        Some(_) => None,
        None => if data.scope < bb.scope_count() {
            match bb.spec_get(data.scope as nat, data.spec_input_key(port).unwrap(), ValueKind::Boolean) {
                Some(ValueModel::Boolean(b)) => Some(b),
                _ => None,
            }
        } else {
            None
        },
    }
}

/// Reads a boolean input port.
fn input_bool(data: &NodeDataGeneric, bb: &mut Blackboard, port: &str) -> (r: Result<bool, NodeError>)
    ensures
        match spec_bool_input(data, old(bb), port@) {
            Some(b) => r == Ok::<bool, NodeError>(b),
            None => r is Err,
        },
{
    match data.get_input(bb, port, ValueKind::Boolean) {
        Ok(Value::Boolean(b)) => Ok(b),
        Ok(_) => Err(NodeError::PortTypeMismatch(to_owned_string(port))),
        Err(e) => Err(e),
    }
}

/// Whether a loop over `count` past rounds goes on with a limit of `limit`
/// rounds, where `-1` means no limit.
pub open spec fn spec_goes_on(count: usize, limit: i32) -> bool {
    limit == -1 || count < limit
}

fn goes_on(count: usize, limit: i32) -> (r: bool)
    ensures
        r == spec_goes_on(count, limit),
{
    limit == -1 || (limit >= 0 && (count as u64) < (limit as u64))
}

/// How many ticks of child `j` have returned a status.
pub open spec fn ticks_of<A>(c: Seq<TreeNode<A>>, j: int) -> int {
    c[j].ticks@ as int
}

/// Whether `n` more rounds after `start` rounds use up a limit of `limit`
/// rounds: the limit is not `-1`, `start + n` reaches it, and the last of
/// the `n` rounds began below it.
pub open spec fn rounds_use_up(start: int, n: int, limit: i32) -> bool {
    &&& limit != -1
    &&& start + n >= limit
    &&& (n == 0 || start + n - 1 < limit)
}

/// Whether `n >= 1` more rounds after `start` rounds all began below a limit
/// of `limit` rounds (`-1`: without limit).
pub open spec fn rounds_within(start: int, n: int, limit: i32) -> bool {
    n >= 1 && (limit == -1 || start + n - 1 < limit)
}

/// Ticks its child again each time it succeeds, up to `num_cycles` times
/// (`-1`: without limit).
#[derive(Debug)]
pub struct RepeatNode {
    pub num_cycles: i32,
    pub repeat_count: usize,
}

impl RepeatNode {
    /// A node that has not repeated yet.
    pub fn default() -> (r: Self)
        ensures
            r.num_cycles == -1,
            r.repeat_count == 0,
    {
        RepeatNode { num_cycles: -1, repeat_count: 0 }
    }

    /// The port `num_cycles`.
    pub fn ports() -> (r: PortsList)
        ensures
            r.map().dom() =~= set!["num_cycles"@],
            is_input_port(r.map()["num_cycles"@], "num_cycles"@, ValueKind::Integer, None),
    {
        proof {
        reveal_strlit("num_cycles");
        }
        let mut p = PortsList::new();
        p.insert(to_owned_string("num_cycles"), PortInfo::input("num_cycles", ValueKind::Integer).build());
        p
    }

    /// While fewer than `num_cycles` successes were counted, ticks the child:
    /// a success is counted and the child halted; a failure resets the count
    /// and fails; `Running` and `Skipped` are returned (a skipped child is
    /// halted). When the count is reached it starts over and succeeds.
    pub fn tick<A: SyncActionNode + StatefulActionNode>(
        &mut self,
        data: &mut NodeDataGeneric,
        children: &mut Vec<TreeNode<A>>,
        bb: &mut Blackboard,
    ) -> (r: NodeResult)
        requires
            children_wf(old(children)@),
            old(children)@.len() == 1,
        ensures
            shapes(final(children)@) == shapes(old(children)@),
            r matches Ok(s) ==> s != NodeStatus::Idle,
            r matches Ok(s) ==> (s != NodeStatus::Success ==> last_of(final(children)@, 0) == Some(s)),
            r == Ok::<NodeStatus, NodeError>(NodeStatus::Success) ==> final(self).repeat_count == 0
                && !spec_goes_on(old(self).repeat_count, final(self).num_cycles) || last_of(final(children)@, 0) == Some(NodeStatus::Success),
            r == Ok::<NodeStatus, NodeError>(NodeStatus::Failure) ==> final(self).repeat_count == 0,
            r == Ok::<NodeStatus, NodeError>(NodeStatus::Success) ==> final(self).repeat_count == 0,
            // Success comes once the child's successes in this tick reach
            // `num_cycles` with those counted before; a failure comes from
            // the child's tick after its successes in this tick.
            r == Ok::<NodeStatus, NodeError>(NodeStatus::Success) ==> rounds_use_up(
                old(self).repeat_count as int,
                ticks_of(final(children)@, 0) - ticks_of(old(children)@, 0),
                final(self).num_cycles,
            ),
            r == Ok::<NodeStatus, NodeError>(NodeStatus::Failure) ==> rounds_within(
                old(self).repeat_count as int,
                ticks_of(final(children)@, 0) - ticks_of(old(children)@, 0),
                final(self).num_cycles,
            ),
            r is Ok ==> spec_int_input(old(data), old(bb), "num_cycles"@) == Some(final(self).num_cycles as i64),
            spec_int_input(old(data), old(bb), "num_cycles"@) is None ==> r is Err,
            r is Err ==> child_faulted(final(children)@) || child_idle(final(children)@)
                || !fits_i32(spec_int_input(old(data), old(bb), "num_cycles"@)) || final(self).repeat_count == usize::MAX,
        decreases shapes(old(children)@), 7nat,
    {
        self.num_cycles = match input_i32(data, bb, "num_cycles") {
            Ok(v) => v,
            Err(e) => return Err(e),
        };
        let mut do_loop = goes_on(self.repeat_count, self.num_cycles);
        data.status = NodeStatus::Running;
        let ghost started = self.repeat_count;
        while do_loop
            invariant
                shapes(children@) == shapes(old(children)@),
                children_wf(children@),
                children@.len() == 1,
                do_loop == spec_goes_on(self.repeat_count, self.num_cycles),
                spec_int_input(old(data), old(bb), "num_cycles"@) == Some(self.num_cycles as i64),
                self.repeat_count != started ==> last_of(children@, 0) == Some(NodeStatus::Success),
                self.repeat_count >= started,
                started == old(self).repeat_count,
                ticks_of(children@, 0) == ticks_of(old(children)@, 0) + self.repeat_count - started,
                self.repeat_count > started ==> (self.num_cycles == -1 || self.repeat_count - 1 < self.num_cycles),
            decreases usize::MAX - self.repeat_count,
        {
            let ghost counted = self.repeat_count;
            let child_status = match tick_only_child(children, bb) {
                Ok(s) => s,
                Err(e) => return Err(e),
            };
            match child_status {
                NodeStatus::Success => {
                    if self.repeat_count == usize::MAX {
                        return Err(NodeError::NodeStructureError(to_owned_string(
                            "Repeat count is out of range.",
                        )));
                    }
                    self.repeat_count = self.repeat_count + 1;
                    do_loop = goes_on(self.repeat_count, self.num_cycles);
                    match reset_child(children, bb) {
                        Ok(_) => {},
                        Err(e) => return Err(e),
                    }
                },
                NodeStatus::Failure => {
                    self.repeat_count = 0;
                    match reset_child(children, bb) {
                        Ok(_) => {},
                        Err(e) => return Err(e),
                    }
                    return Ok(NodeStatus::Failure);
                },
                NodeStatus::Running => return Ok(NodeStatus::Running),
                NodeStatus::Skipped => {
                    match reset_child(children, bb) {
                        Ok(_) => {},
                        Err(e) => return Err(e),
                    }
                    return Ok(NodeStatus::Skipped);
                },
                NodeStatus::Idle => {
                    return Err(NodeError::StatusError(to_owned_string("RepeatNode"), to_owned_string("Idle")));
                },
            }
        }
        self.repeat_count = 0;
        Ok(NodeStatus::Success)
    }

    /// Halting resets the count.
    pub fn halt<A: SyncActionNode + StatefulActionNode>(
        &mut self,
        data: &mut NodeDataGeneric,
        children: &mut Vec<TreeNode<A>>,
        bb: &mut Blackboard,
    ) -> (r: Result<(), NodeError>)
        requires
            children_wf(old(children)@),
        ensures
            r is Ok,
            final(self).repeat_count == 0,
            final(children)@ == old(children)@,
        decreases shapes(old(children)@), 7nat,
    {
        self.repeat_count = 0;
        Ok(())
    }
}

/// Ticks its child again each time it fails, up to `num_attempts` times
/// (`-1`: without limit).
#[derive(Debug)]
pub struct RetryNode {
    pub max_attempts: i32,
    pub try_count: usize,
    pub all_skipped: bool,
}

impl RetryNode {
    /// A node that has not tried yet.
    pub fn default() -> (r: Self)
        ensures
            r.max_attempts == -1,
            r.try_count == 0,
            r.all_skipped,
    {
        RetryNode { max_attempts: -1, try_count: 0, all_skipped: true }
    }

    /// The port `num_attempts`.
    pub fn ports() -> (r: PortsList)
        ensures
            r.map().dom() =~= set!["num_attempts"@],
            is_input_port(r.map()["num_attempts"@], "num_attempts"@, ValueKind::Integer, None),
    {
        proof {
        reveal_strlit("num_attempts");
        }
        let mut p = PortsList::new();
        p.insert(to_owned_string("num_attempts"), PortInfo::input("num_attempts", ValueKind::Integer).build());
        p
    }

    /// While fewer than `num_attempts` failures were counted, ticks the
    /// child: a success resets the count and succeeds; a failure is counted
    /// and the child halted; `Running` and `Skipped` are returned (a skipped
    /// child is halted). When the attempts are used up it starts over and
    /// fails, or is skipped if the child was never ticked since it was idle.
    pub fn tick<A: SyncActionNode + StatefulActionNode>(
        &mut self,
        data: &mut NodeDataGeneric,
        children: &mut Vec<TreeNode<A>>,
        bb: &mut Blackboard,
    ) -> (r: NodeResult)
        requires
            children_wf(old(children)@),
            old(children)@.len() == 1,
        ensures
            shapes(final(children)@) == shapes(old(children)@),
            r matches Ok(s) ==> s != NodeStatus::Idle,
            r == Ok::<NodeStatus, NodeError>(NodeStatus::Success) ==> last_of(final(children)@, 0) == Some(NodeStatus::Success)
                && final(self).try_count == 0,
            r == Ok::<NodeStatus, NodeError>(NodeStatus::Running) ==> last_of(final(children)@, 0) == Some(NodeStatus::Running),
            r == Ok::<NodeStatus, NodeError>(NodeStatus::Failure) ==> final(self).try_count == 0,
            r == Ok::<NodeStatus, NodeError>(NodeStatus::Failure) && final(children)@ != old(children)@
                ==> last_of(final(children)@, 0) == Some(NodeStatus::Failure),
            // Failure comes once the child's failures in this tick reach
            // `num_attempts` with those counted before; a success comes from
            // the child's tick after its failures in this tick.
            r == Ok::<NodeStatus, NodeError>(NodeStatus::Failure) ==> rounds_use_up(
                old(self).try_count as int,
                ticks_of(final(children)@, 0) - ticks_of(old(children)@, 0),
                final(self).max_attempts,
            ),
            r == Ok::<NodeStatus, NodeError>(NodeStatus::Success) ==> rounds_within(
                old(self).try_count as int,
                ticks_of(final(children)@, 0) - ticks_of(old(children)@, 0),
                final(self).max_attempts,
            ),
            r is Ok ==> spec_int_input(old(data), old(bb), "num_attempts"@) == Some(final(self).max_attempts as i64),
            spec_int_input(old(data), old(bb), "num_attempts"@) is None ==> r is Err,
            r is Err ==> child_faulted(final(children)@) || child_idle(final(children)@)
                || !fits_i32(spec_int_input(old(data), old(bb), "num_attempts"@)) || final(self).try_count == usize::MAX,
        decreases shapes(old(children)@), 7nat,
    {
        self.max_attempts = match input_i32(data, bb, "num_attempts") {
            Ok(v) => v,
            Err(e) => return Err(e),
        };
        let mut do_loop = goes_on(self.try_count, self.max_attempts);
        if data.status == NodeStatus::Idle {
            self.all_skipped = true;
        }
        data.status = NodeStatus::Running;
        let ghost c0 = children@;
        while do_loop
            invariant
                shapes(children@) == shapes(old(children)@),
                children_wf(children@),
                children@.len() == 1,
                do_loop == spec_goes_on(self.try_count, self.max_attempts),
                spec_int_input(old(data), old(bb), "num_attempts"@) == Some(self.max_attempts as i64),
                children@ != c0 ==> last_of(children@, 0) == Some(NodeStatus::Failure) && !self.all_skipped,
                c0 == old(children)@,
                self.try_count >= old(self).try_count,
                ticks_of(children@, 0) == ticks_of(old(children)@, 0) + self.try_count - old(self).try_count,
                self.try_count > old(self).try_count ==> (self.max_attempts == -1 || self.try_count - 1 < self.max_attempts),
            decreases usize::MAX - self.try_count,
        {
            let ghost counted = self.try_count;
            let child_status = match tick_only_child(children, bb) {
                Ok(s) => s,
                Err(e) => return Err(e),
            };
            self.all_skipped = self.all_skipped && child_status == NodeStatus::Skipped;
            match child_status {
                NodeStatus::Success => {
                    self.try_count = 0;
                    match reset_child(children, bb) {
                        Ok(_) => {},
                        Err(e) => return Err(e),
                    }
                    return Ok(NodeStatus::Success);
                },
                NodeStatus::Failure => {
                    if self.try_count == usize::MAX {
                        return Err(NodeError::NodeStructureError(to_owned_string(
                            "Retry count is out of range.",
                        )));
                    }
                    self.try_count = self.try_count + 1;
                    do_loop = goes_on(self.try_count, self.max_attempts);
                    let ghost c1 = children@;
                    match reset_child(children, bb) {
                        Ok(_) => {},
                        Err(e) => return Err(e),
                    }
                    proof {
                        assert(last_of(children@, 0) == last_of(c1, 0));
                        if children@ == c0 {
                            assert(last_of(c0, 0) == Some(NodeStatus::Failure));
                        }
                    }
                },
                NodeStatus::Running => return Ok(NodeStatus::Running),
                NodeStatus::Skipped => {
                    match reset_child(children, bb) {
                        Ok(_) => {},
                        Err(e) => return Err(e),
                    }
                    return Ok(NodeStatus::Skipped);
                },
                NodeStatus::Idle => {
                    return Err(NodeError::StatusError(to_owned_string("RetryNode"), to_owned_string("Idle")));
                },
            }
        }
        self.try_count = 0;
        if self.all_skipped {
            Ok(NodeStatus::Skipped)
        } else {
            Ok(NodeStatus::Failure)
        }
    }

    /// Halting resets the count and halts the child.
    pub fn halt<A: SyncActionNode + StatefulActionNode>(
        &mut self,
        data: &mut NodeDataGeneric,
        children: &mut Vec<TreeNode<A>>,
        bb: &mut Blackboard,
    ) -> (r: Result<(), NodeError>)
        requires
            children_wf(old(children)@),
        ensures
            final(self).try_count == 0,
            shapes(final(children)@) == shapes(old(children)@),
            same_lasts(final(children)@, old(children)@),
            r is Err ==> child_faulted(final(children)@),
        decreases shapes(old(children)@), 7nat,
    {
        self.try_count = 0;
        reset_child(children, bb)
    }
}

/// Ticks its child until it completes once; afterwards it is skipped, or
/// keeps returning that result when `then_skip` is false.
#[derive(Debug)]
pub struct RunOnceNode {
    pub already_ticked: bool,
    pub returned_status: NodeStatus,
}

impl RunOnceNode {
    /// A node whose child has not completed.
    pub fn default() -> (r: Self)
        ensures
            !r.already_ticked,
            r.returned_status == NodeStatus::Idle,
    {
        RunOnceNode { already_ticked: false, returned_status: NodeStatus::Idle }
    }

    /// The port `then_skip` (default true).
    pub fn ports() -> (r: PortsList)
        ensures
            r.map().dom() =~= set!["then_skip"@],
            is_input_port(r.map()["then_skip"@], "then_skip"@, ValueKind::Boolean, Some(ValueModel::Boolean(true))),
    {
        proof {
        reveal_strlit("then_skip");
        }
        let mut p = PortsList::new();
        p.insert(to_owned_string("then_skip"),
            PortInfo::input("then_skip", ValueKind::Boolean).default_value(Value::Boolean(true)).build());
        p
    }

    /// Once the child has completed, returns `Skipped` (or, with `then_skip`
    /// false, the child's result) without ticking it. Before that, ticks the
    /// child and returns its status; a completed child is remembered and
    /// halted.
    pub fn tick<A: SyncActionNode + StatefulActionNode>(
        &mut self,
        data: &mut NodeDataGeneric,
        children: &mut Vec<TreeNode<A>>,
        bb: &mut Blackboard,
    ) -> (r: NodeResult)
        requires
            children_wf(old(children)@),
            old(children)@.len() == 1,
        ensures
            shapes(final(children)@) == shapes(old(children)@),
            old(self).already_ticked ==> final(children)@ == old(children)@ && *final(self) == *old(self)
                && match spec_bool_input(old(data), old(bb), "then_skip"@) {
                    Some(true) => r == Ok::<NodeStatus, NodeError>(NodeStatus::Skipped),
                    Some(false) => r == Ok::<NodeStatus, NodeError>(old(self).returned_status),
                    None => r is Err,
                },
            spec_bool_input(old(data), old(bb), "then_skip"@) is None ==> r is Err,
            !old(self).already_ticked ==> decorates(r, final(children)@, |s: NodeStatus| s),
            !old(self).already_ticked && r is Ok ==> ticks_of(final(children)@, 0) == ticks_of(old(children)@, 0) + 1,
            !old(self).already_ticked ==> (r matches Ok(s) ==> (completed(s) ==> final(self).already_ticked
                && final(self).returned_status == s)),
            r is Err ==> spec_bool_input(old(data), old(bb), "then_skip"@) is None || child_faulted(final(children)@),
        decreases shapes(old(children)@), 7nat,
    {
        let skip = match input_bool(data, bb, "then_skip") {
            Ok(b) => b,
            Err(e) => return Err(e),
        };
        if self.already_ticked {
            if skip {
                return Ok(NodeStatus::Skipped);
            } else {
                return Ok(self.returned_status);
            }
        }
        data.status = NodeStatus::Running;
        let status = match tick_only_child(children, bb) {
            Ok(s) => s,
            Err(e) => return Err(e),
        };
        if status.is_completed() {
            self.already_ticked = true;
            self.returned_status = status;
            match reset_child(children, bb) {
                Ok(_) => {},
                Err(e) => return Err(e),
            }
        }
        Ok(status)
    }

    /// Halting does nothing of its own.
    pub fn halt<A: SyncActionNode + StatefulActionNode>(
        &mut self,
        data: &mut NodeDataGeneric,
        children: &mut Vec<TreeNode<A>>,
        bb: &mut Blackboard,
    ) -> (r: Result<(), NodeError>)
        requires
            children_wf(old(children)@),
        ensures
            r is Ok,
            final(children)@ == old(children)@,
        decreases shapes(old(children)@), 7nat,
    {
        Ok(())
    }
}

/// Inverting twice gives back the child's status.
pub proof fn lemma_invert_twice(s: NodeStatus)
    ensures
        inverted(inverted(s)) == s,
{
}

/// An inverter swaps a success and a failure of its child and passes any
/// other status on.
pub proof fn lemma_inverter_swaps(s: NodeStatus)
    ensures
        inverted(NodeStatus::Success) == NodeStatus::Failure,
        inverted(NodeStatus::Failure) == NodeStatus::Success,
        !completed(s) ==> inverted(s) == s,
        completed(s) ==> completed(inverted(s)) && inverted(s) != s,
{
}

/// A node that forces success never fails, and one that forces failure
/// never succeeds; either is running while its child has not completed.
pub proof fn lemma_forced_outcomes(s: NodeStatus)
    ensures
        !completed(s) ==> forced(s, NodeStatus::Success) == NodeStatus::Running,
        !completed(s) ==> forced(s, NodeStatus::Failure) == NodeStatus::Running,
        forced(s, NodeStatus::Success) != NodeStatus::Failure,
        forced(s, NodeStatus::Failure) != NodeStatus::Success,
        completed(s) ==> forced(s, NodeStatus::Success) == NodeStatus::Success,
        completed(s) ==> forced(s, NodeStatus::Failure) == NodeStatus::Failure,
{
}

/// A node that keeps running until failure returns only `Running` or
/// `Failure`, and `Failure` only for a failed child.
pub proof fn lemma_kept_running_outcomes(s: NodeStatus)
    ensures
        kept_running(s) == NodeStatus::Running || kept_running(s) == NodeStatus::Failure,
        kept_running(s) == NodeStatus::Failure <==> s == NodeStatus::Failure,
{
}

} // verus!
