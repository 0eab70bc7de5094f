//! Backward execution: walk a tensor's graph from the output node in
//! reverse creation order, invoking each registered step exactly once with
//! the live gradient store and the pass's checkpoint resolver.

use vstd::prelude::*;
use crate::checkpoint::{Checkpointer, RetroForward};
use crate::grads::Gradients;
use crate::graph::{Graph, NodeID};
use crate::ops::{Backward, Ops, OpsStep};
use crate::tensor::{AutodiffTensor, TensorData};

verus! {

/// A tensor of ones with the same shape as the given one: the seed gradient
/// of the output node of a backward pass.
pub fn ones_like(t: &TensorData) -> (r: TensorData)
    ensures
        r.shape@ == t.shape@,
        r.data@.len() == t.data@.len(),
        forall|i: int| 0 <= i < r.data@.len() ==> r.data@[i] == 1i64,
{
    let shape = t.duplicate().shape;
    let mut data: Vec<i64> = Vec::new();
    let mut i: usize = 0;
    while i < t.data.len()
        invariant
            i <= t.data.len(),
            data@.len() == i,
            forall|j: int| 0 <= j < i ==> data@[j] == 1i64,
        decreases t.data.len() - i,
    {
        data.push(1);
        i = i + 1;
    }
    TensorData { shape, data }
}

/// Run one backward pass over the given tensor's graph: seed the output
/// node with a gradient of ones, build the pass's checkpointer from the
/// decided actions, then invoke every registered step, youngest node first
/// (reverse creation order, so each node's consumers run before it). Every
/// gradient-requiring parent referenced by any step of the graph ends up
/// with a gradient entry.
pub fn execute_backward<BO: Backward<R>, R: RetroForward>(root: AutodiffTensor<BO, R>) -> (g:
    Gradients)
    requires
        root.graph.wf(),
    ensures
        g.entries@.contains_key(root.node.id),
        forall|i: int, p: int|
            0 <= i < root.graph.steps@.len() && 0 <= p
                < root.graph.steps@[i].ops.parents@.len() && (#[trigger] root.graph.steps@[i].ops.parents@[p])
                is Some ==> g.entries@.contains_key(root.graph.steps@[i].ops.parents@[p]->0.id),
{
    let AutodiffTensor { primitive, node, graph } = root;
    let Graph { steps, decided, unsure: _ } = graph;
    let ghost steps0 = steps@;
    let mut grads = Gradients::new();
    let seed = ones_like(&primitive);
    grads.register(node.id, seed);
    let mut checkpointer: Checkpointer<R> = Checkpointer::from_actions(decided);
    let mut remaining = steps;
    while remaining.len() > 0
        invariant
            remaining@.len() <= steps0.len(),
            remaining@ == steps0.subrange(0, remaining@.len() as int),
            grads.entries@.contains_key(node.id),
            forall|i: int, p: int|
                remaining@.len() <= i < steps0.len() && 0 <= p < steps0[i].ops.parents@.len() && (
                #[trigger] steps0[i].ops.parents@[p]) is Some ==> grads.entries@.contains_key(
                    steps0[i].ops.parents@[p]->0.id,
                ),
        decreases remaining@.len(),
    {
        let ghost n = remaining@.len();
        let step = remaining.pop().unwrap();
        proof {
            assert(step == steps0[n - 1]);
            assert(remaining@ =~= steps0.subrange(0, remaining@.len() as int));
        }
        let OpsStep { ops, backward } = step;
        backward.backward(ops, &mut grads, &mut checkpointer);
    }
    grads
}

/// An operation whose backward hands each gradient-requiring parent the
/// fixed gradient recorded in its state at preparation time.
pub struct FixedGradBackward;

impl<R: RetroForward> Backward<R> for FixedGradBackward {
    type State = TensorData;

    fn backward(
        &self,
        ops: Ops<TensorData, R>,
        grads: &mut Gradients,
        _checkpointer: &mut Checkpointer<R>,
    ) {
        let Ops { parents, node: _, state } = ops;
        let mut i: usize = 0;
        while i < parents.len()
            invariant
                i <= parents.len(),
                forall|j: int|
                    0 <= j < i && (#[trigger] parents@[j]) is Some ==> grads.entries@.contains_key(
                        parents@[j]->0.id,
                    ),
                forall|k: u64|
                    old(grads).entries@.contains_key(k) ==> grads.entries@.contains_key(k),
            decreases parents.len() - i,
        {
            match &parents[i] {
                Option::Some(parent) => {
                    let value = state.duplicate();
                    grads.register(parent.id, value);
                }
                Option::None => {}
            }
            i = i + 1;
        }
    }
}

/// An operation whose backward resolves a checkpointed value — the node
/// identity recorded in its state — and hands it to each gradient-requiring
/// parent; when the lookup fails, a scalar zero flows instead so the pass
/// can finish and the bug shows up in the gradients.
pub struct RecalledGradBackward;

impl<R: RetroForward> Backward<R> for RecalledGradBackward {
    type State = NodeID;

    fn backward(
        &self,
        ops: Ops<NodeID, R>,
        grads: &mut Gradients,
        checkpointer: &mut Checkpointer<R>,
    ) {
        let Ops { parents, node: _, state } = ops;
        let resolved = checkpointer.resolve(state);
        let value = match resolved {
            Result::Ok(v) => v,
            Result::Err(_) => {
                let mut data: Vec<i64> = Vec::new();
                data.push(0);
                TensorData { shape: Vec::new(), data }
            }
        };
        let mut i: usize = 0;
        while i < parents.len()
            invariant
                i <= parents.len(),
                forall|j: int|
                    0 <= j < i && (#[trigger] parents@[j]) is Some ==> grads.entries@.contains_key(
                        parents@[j]->0.id,
                    ),
                forall|k: u64|
                    old(grads).entries@.contains_key(k) ==> grads.entries@.contains_key(k),
            decreases parents.len() - i,
        {
            match &parents[i] {
                Option::Some(parent) => {
                    let contribution = value.duplicate();
                    grads.register(parent.id, contribution);
                }
                Option::None => {}
            }
            i = i + 1;
        }
    }
}

/// An operation with empty backward state: its backward hands each
/// gradient-requiring parent a scalar zero contribution, so the parents are
/// reached without carrying any state.
pub struct ZeroGradBackward;

impl<R: RetroForward> Backward<R> for ZeroGradBackward {
    type State = ();

    fn backward(
        &self,
        ops: Ops<(), R>,
        grads: &mut Gradients,
        _checkpointer: &mut Checkpointer<R>,
    ) {
        let Ops { parents, node: _, state: () } = ops;
        let mut i: usize = 0;
        while i < parents.len()
            invariant
                i <= parents.len(),
                forall|j: int|
                    0 <= j < i && (#[trigger] parents@[j]) is Some ==> grads.entries@.contains_key(
                        parents@[j]->0.id,
                    ),
                forall|k: u64|
                    old(grads).entries@.contains_key(k) ==> grads.entries@.contains_key(k),
            decreases parents.len() - i,
        {
            match &parents[i] {
                Option::Some(parent) => {
                    let mut data: Vec<i64> = Vec::new();
                    data.push(0);
                    grads.register(parent.id, TensorData { shape: Vec::new(), data });
                }
                Option::None => {}
            }
            i = i + 1;
        }
    }
}

/// A recomputation procedure that rebuilds a value as a scalar tensor with
/// a fixed element, whatever its inputs.
#[derive(PartialEq, Eq, Structural)]
pub struct RetroFill {
    /// The element the rebuilt scalar holds.
    pub value: i64,
}

impl RetroForward for RetroFill {
    fn duplicate(&self) -> (r: Self) {
        RetroFill { value: self.value }
    }

    fn rebuild(&self, _inputs: &Vec<TensorData>) -> TensorData {
        let mut data: Vec<i64> = Vec::new();
        data.push(self.value);
        TensorData { shape: Vec::new(), data }
    }
}

} // verus!
