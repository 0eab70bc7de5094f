//! The operation-preparation protocol: a staged pipeline an operation
//! implementer passes through before a new tensor node is constructed. The
//! stages prevent a tracked operation from being finished without backward
//! state and spare untracked operations the cost of building one.

use vstd::prelude::*;
use core::marker::PhantomData;
use crate::checkpoint::{Checkpointer, CheckpointingAction, RetroForward};
use crate::grads::Gradients;
use crate::graph::{ComputingProperty, Graph, Node, NodeID, NodeIdGen, Requirement};
use crate::tensor::{
    any_graph_has_id, any_node_requires_grad, grad_parent_ids, graphs_wf_below,
    lemma_grad_parent_ids_empty, AutodiffTensor, TensorData,
};

verus! {

/// The backward function of one operation kind: reads its state and
/// checkpointed values, computes per-parent gradients, and accumulates them
/// into the gradient store keyed by parent identity — every referenced
/// parent receives an entry, and no existing entry is dropped.
pub trait Backward<R: RetroForward>: Sized {
    /// Operation-specific state carried from preparation to the backward
    /// pass.
    type State;

    /// Consume the operation's payload and accumulate gradients for its
    /// referenced parents.
    fn backward(
        &self,
        ops: Ops<Self::State, R>,
        grads: &mut Gradients,
        checkpointer: &mut Checkpointer<R>,
    )
        ensures
            forall|i: int|
                0 <= i < ops.parents@.len() && ops.parents@[i] is Some
                    ==> final(grads).entries@.contains_key((#[trigger] ops.parents@[i])->0.id),
            forall|k: u64|
                old(grads).entries@.contains_key(k) ==> final(grads).entries@.contains_key(k),
    ;
}

/// The payload handed to an operation's backward function: up to one
/// reference per parent (only parents that require a gradient), the
/// operation's own node, and its backward state.
pub struct Ops<S, R> {
    /// One entry per parent of the operation; present only when a gradient
    /// must reach that parent.
    pub parents: Vec<Option<Node<R>>>,
    /// The node this operation produced.
    pub node: Node<R>,
    /// The operation-specific backward state.
    pub state: S,
}

/// The backward unit registered for one node: the operation's payload and
/// its backward function, invoked exactly once during a backward pass.
pub struct OpsStep<BO, R> where BO: Backward<R>, R: RetroForward {
    /// The payload handed to the backward function.
    pub ops: Ops<BO::State, R>,
    /// The backward function.
    pub backward: BO,
}

/// How a checkpointed value is obtained at backward time: it was computed
/// and saved, or it is recomputed through a recorded procedure.
pub enum CheckpointStrategy<R> {
    /// The value was computed during the forward pass and saved.
    Computed,
    /// The value is recomputed on demand.
    Recompute {
        /// The recorded recomputation procedure.
        retro_forward: R,
    },
}

/// Where an operation's backward state comes from: saved at preparation
/// time, or rebuilt from the operation's inputs.
pub enum StateStrategy {
    /// The state was saved at preparation time.
    Saved,
    /// The state is rebuilt from the inputs.
    FromInputs,
}

/// Initial stage of the preparation pipeline.
pub struct Init;

/// Stage after the compute property has been chosen.
pub struct ComputePropertyChosen;

/// Stage of an operation that participates in the backward pass.
pub struct TrackedOp;

/// Stage of an operation that does not participate in the backward pass.
pub struct UnTrackedOp;

/// An operation in preparation. The stage parameter makes only one stage's
/// methods reachable at a time: the property is chosen (or defaulted) from
/// `Init`, the operation is classified from there, and only the matching
/// stage can be finished.
pub struct OpsPrep<BO, R, Mode> where BO: Backward<R>, R: RetroForward {
    /// The operation's parent nodes, one per input.
    pub nodes: Vec<Node<R>>,
    /// The parents' graphs, one per input.
    pub graphs: Vec<Graph<BO, R>>,
    /// The aggregate requirement: grad as soon as any parent requires grad,
    /// re-derived at construction, never cached.
    pub requirement: Requirement,
    /// The operation's backward function.
    pub backward: BO,
    /// How the output's value will be reproduced for the backward pass.
    pub compute_property: ComputingProperty<R>,
    /// Checkpointing actions already decided during this preparation.
    pub checkpointing_actions: Vec<CheckpointingAction<R>>,
    /// Checkpointing actions whose need is not yet known.
    pub unsure_checkpointing_actions: Vec<CheckpointingAction<R>>,
    /// The current stage; carries no data.
    pub marker: PhantomData<Mode>,
}

/// The shared well-formedness of a preparation at any stage: one graph per
/// parent node, and the aggregate requirement derived from the parents.
pub open spec fn prep_wf<BO: Backward<R>, R: RetroForward, Mode>(
    p: OpsPrep<BO, R, Mode>,
) -> bool {
    &&& p.nodes@.len() == p.graphs@.len()
    &&& p.requirement == (if any_node_requires_grad(p.nodes@) {
        Requirement::Grad
    } else {
        Requirement::NoGrad
    })
}

/// The stage-independent fields of two preparations agree.
pub open spec fn prep_same_fields<BO: Backward<R>, R: RetroForward, M1, M2>(
    a: OpsPrep<BO, R, M1>,
    b: OpsPrep<BO, R, M2>,
) -> bool {
    &&& a.nodes@ == b.nodes@
    &&& a.graphs@ == b.graphs@
    &&& a.requirement == b.requirement
    &&& a.backward == b.backward
    &&& a.checkpointing_actions@ == b.checkpointing_actions@
    &&& a.unsure_checkpointing_actions@ == b.unsure_checkpointing_actions@
}

/// Enum handed back when an operation is classified: only the matching
/// stage's `finish` is reachable.
pub enum OpsKind<BO, R> where BO: Backward<R>, R: RetroForward {
    /// The operation participates in the backward pass.
    TrackedOp(OpsPrep<BO, R, TrackedOp>),
    /// The operation does not participate in the backward pass.
    UnTrackedOp(OpsPrep<BO, R, UnTrackedOp>),
}

impl<BO: Backward<R>, R: RetroForward> OpsPrep<BO, R, Init> {
    /// Begin preparing an operation from its parents. The aggregate
    /// requirement is derived here, on every operation: the output requires
    /// a gradient exactly when at least one parent does. The compute
    /// property starts undecided.
    pub fn new(nodes: Vec<Node<R>>, graphs: Vec<Graph<BO, R>>, backward: BO) -> (r: OpsPrep<
        BO,
        R,
        Init,
    >)
        requires
            nodes@.len() == graphs@.len(),
        ensures
            prep_wf(r),
            r.nodes@ == nodes@,
            r.graphs@ == graphs@,
            r.backward == backward,
            r.compute_property is Ambiguous,
            r.checkpointing_actions@ == Seq::<CheckpointingAction<R>>::empty(),
            r.unsure_checkpointing_actions@ == Seq::<CheckpointingAction<R>>::empty(),
    {
        let mut any_grad = false;
        let mut i: usize = 0;
        while i < nodes.len()
            invariant
                i <= nodes.len(),
                any_grad == any_node_requires_grad(nodes@.subrange(0, i as int)),
            decreases nodes.len() - i,
        {
            proof {
                assert(nodes@.subrange(0, i + 1)[i as int] == nodes@[i as int]);
                assert(forall|j: int|
                    0 <= j < i ==> nodes@.subrange(0, i + 1)[j] == nodes@.subrange(0, i as int)[j]);
            }
            match nodes[i].requirement {
                Requirement::Grad => {
                    any_grad = true;
                }
                Requirement::NoGrad => {
                    proof {
                        if any_node_requires_grad(nodes@.subrange(0, i + 1)) {
                            let w = choose|w: int|
                                0 <= w < nodes@.subrange(0, i + 1).len() && (#[trigger] nodes@.subrange(
                                    0,
                                    i + 1,
                                )[w]).requirement is Grad;
                            assert(nodes@.subrange(0, i as int)[w].requirement is Grad);
                        }
                    }
                }
            }
            i = i + 1;
        }
        proof {
            assert(nodes@.subrange(0, nodes@.len() as int) =~= nodes@);
        }
        let requirement = if any_grad {
            Requirement::Grad
        } else {
            Requirement::NoGrad
        };
        OpsPrep {
            nodes,
            graphs,
            requirement,
            backward,
            compute_property: ComputingProperty::Ambiguous,
            checkpointing_actions: Vec::new(),
            unsure_checkpointing_actions: Vec::new(),
            marker: PhantomData,
        }
    }

    /// Tag the output as compute-bound: its value is cheap to keep, so it
    /// is always materialized.
    pub fn compute_bound(self) -> (r: OpsPrep<BO, R, ComputePropertyChosen>)
        ensures
            prep_same_fields(self, r),
            r.compute_property is ComputeBound,
    {
        let OpsPrep {
            nodes,
            graphs,
            requirement,
            backward,
            compute_property: _,
            checkpointing_actions,
            unsure_checkpointing_actions,
            marker: _,
        } = self;
        OpsPrep {
            nodes,
            graphs,
            requirement,
            backward,
            compute_property: ComputingProperty::ComputeBound,
            checkpointing_actions,
            unsure_checkpointing_actions,
            marker: PhantomData,
        }
    }

    /// Tag the output as memory-bound: its value is expensive to keep, so
    /// only the given recomputation procedure is retained and the value is
    /// rebuilt on demand.
    pub fn memory_bound(self, retro_forward: R) -> (r: OpsPrep<BO, R, ComputePropertyChosen>)
        ensures
            prep_same_fields(self, r),
            r.compute_property == (ComputingProperty::MemoryBound { retro_forward }),
    {
        let OpsPrep {
            nodes,
            graphs,
            requirement,
            backward,
            compute_property: _,
            checkpointing_actions,
            unsure_checkpointing_actions,
            marker: _,
        } = self;
        OpsPrep {
            nodes,
            graphs,
            requirement,
            backward,
            compute_property: ComputingProperty::MemoryBound { retro_forward },
            checkpointing_actions,
            unsure_checkpointing_actions,
            marker: PhantomData,
        }
    }
}

/// A step appended to a sequence changes which identities occur by exactly
/// that step's identity.
pub proof fn lemma_has_id_push<BO: Backward<R>, R: RetroForward>(
    s: Seq<OpsStep<BO, R>>,
    x: OpsStep<BO, R>,
    id: NodeID,
)
    ensures
        crate::graph::seq_has_id(s.push(x), id) <==> (crate::graph::seq_has_id(s, id)
            || x.ops.node.id == id),
{
    if crate::graph::seq_has_id(s, id) {
        let i = choose|i: int| 0 <= i < s.len() && s[i].ops.node.id == id;
        assert(s.push(x)[i].ops.node.id == id);
    }
    if x.ops.node.id == id {
        assert(s.push(x)[s.len() as int].ops.node.id == id);
    }
    if crate::graph::seq_has_id(s.push(x), id) {
        let i = choose|i: int| 0 <= i < s.push(x).len() && s.push(x)[i].ops.node.id == id;
        if i < s.len() {
            assert(s[i].ops.node.id == id);
        }
    }
}

/// Classify a preparation: tracked exactly when the aggregate requirement
/// asks for a gradient. This is the single policy decision point: an
/// operation participates in the backward pass only if at least one input
/// requires gradients.
fn classify<BO: Backward<R>, R: RetroForward, Mode>(p: OpsPrep<BO, R, Mode>) -> (r: OpsKind<
    BO,
    R,
>)
    ensures
        r is TrackedOp <==> p.requirement is Grad,
        r matches OpsKind::TrackedOp(q) ==> prep_same_fields(p, q) && q.compute_property
            == p.compute_property,
        r matches OpsKind::UnTrackedOp(q) ==> prep_same_fields(p, q) && q.compute_property
            == p.compute_property,
{
    let OpsPrep {
        nodes,
        graphs,
        requirement,
        backward,
        compute_property,
        checkpointing_actions,
        unsure_checkpointing_actions,
        marker: _,
    } = p;
    match requirement.is_none() {
        false => OpsKind::TrackedOp(
            OpsPrep {
                nodes,
                graphs,
                requirement,
                backward,
                compute_property,
                checkpointing_actions,
                unsure_checkpointing_actions,
                marker: PhantomData,
            },
        ),
        true => OpsKind::UnTrackedOp(
            OpsPrep {
                nodes,
                graphs,
                requirement,
                backward,
                compute_property,
                checkpointing_actions,
                unsure_checkpointing_actions,
                marker: PhantomData,
            },
        ),
    }
}

impl<BO: Backward<R>, R: RetroForward> OpsPrep<BO, R, ComputePropertyChosen> {
    /// Classify an operation whose backward pass needs a state: tracked
    /// exactly when some parent requires a gradient.
    pub fn stateful(self) -> (r: OpsKind<BO, R>)
        ensures
            r is TrackedOp <==> self.requirement is Grad,
            r matches OpsKind::TrackedOp(q) ==> prep_same_fields(self, q) && q.compute_property
                == self.compute_property,
            r matches OpsKind::UnTrackedOp(q) ==> prep_same_fields(self, q) && q.compute_property
                == self.compute_property,
    {
        classify(self)
    }
}

impl<BO: Backward<R>, R: RetroForward> OpsPrep<BO, R, Init> {
    /// Classify an operation whose backward pass needs a state, skipping
    /// the compute-property choice (it stays undecided).
    pub fn stateful(self) -> (r: OpsKind<BO, R>)
        ensures
            r is TrackedOp <==> self.requirement is Grad,
            r matches OpsKind::TrackedOp(q) ==> prep_same_fields(self, q) && q.compute_property
                == self.compute_property,
            r matches OpsKind::UnTrackedOp(q) ==> prep_same_fields(self, q) && q.compute_property
                == self.compute_property,
    {
        classify(self)
    }
}

impl<BO: Backward<R>, R: RetroForward> OpsPrep<BO, R, UnTrackedOp> {
    /// Finish an untracked operation: the output node is built purely from
    /// the parents' graphs and the chosen compute property. No backward
    /// step is registered, and — the aggregate requirement being none — the
    /// node carries no parent edges that require a gradient.
    pub fn finish(self, output: TensorData, ids: &mut NodeIdGen) -> (t: AutodiffTensor<BO, R>)
        requires
            prep_wf(self),
            self.requirement is NoGrad,
            graphs_wf_below(self.graphs@, old(ids).next as int),
            old(ids).next < u64::MAX,
        ensures
            final(ids).next == old(ids).next + 1,
            t.primitive == output,
            t.node.id == old(ids).next,
            t.node.requirement is NoGrad,
            t.node.parents@ == Seq::<NodeID>::empty(),
            t.node.properties == self.compute_property,
            t.graph.wf(),
            t.graph.ids_below(old(ids).next as int),
            !t.graph.contains_step(t.node.id),
            forall|id: NodeID|
                #[trigger] t.graph.contains_step(id) <==> any_graph_has_id(self.graphs@, id),
            t.graph.decided@ == crate::tensor::concat_decided(self.graphs@)
                + self.checkpointing_actions@,
            t.graph.unsure@ == crate::tensor::concat_unsure(self.graphs@)
                + self.unsure_checkpointing_actions@,
    {
        proof {
            lemma_grad_parent_ids_empty(self.nodes@);
        }
        let OpsPrep {
            nodes,
            graphs,
            requirement,
            backward: _,
            compute_property,
            checkpointing_actions,
            unsure_checkpointing_actions,
            marker: _,
        } = self;
        AutodiffTensor::from_parents(
            output,
            &nodes,
            graphs,
            requirement,
            compute_property,
            checkpointing_actions,
            unsure_checkpointing_actions,
            ids,
        )
    }
}

impl<BO: Backward<R>, R: RetroForward> OpsPrep<BO, R, TrackedOp> {
    /// Finish a tracked operation: build the output node from the parents'
    /// graphs, then package the gradient-requiring parents, the new node
    /// and the backward state into the operation's payload, and register
    /// the backward step for the new node.
    pub fn finish(self, state: BO::State, output: TensorData, ids: &mut NodeIdGen) -> (t:
        AutodiffTensor<BO, R>)
        requires
            prep_wf(self),
            self.requirement is Grad,
            graphs_wf_below(self.graphs@, old(ids).next as int),
            old(ids).next < u64::MAX,
        ensures
            final(ids).next == old(ids).next + 1,
            t.primitive == output,
            t.node.id == old(ids).next,
            t.node.requirement is Grad,
            t.node.parents@ == grad_parent_ids(self.nodes@),
            t.node.properties == self.compute_property,
            t.graph.wf(),
            t.graph.ids_below(old(ids).next + 1),
            t.graph.contains_step(t.node.id),
            t.graph.steps@.len() >= 1,
            ({
                let s = t.graph.steps@.last();
                &&& s.backward == self.backward
                &&& s.ops.state == state
                &&& s.ops.node.id == t.node.id
                &&& s.ops.node.parents@ == t.node.parents@
                &&& s.ops.node.requirement == t.node.requirement
                &&& s.ops.node.properties == t.node.properties
                &&& s.ops.parents@.len() == self.nodes@.len()
                &&& forall|i: int|
                    0 <= i < self.nodes@.len() ==> ((#[trigger] s.ops.parents@[i]) is Some
                        <==> self.nodes@[i].requirement is Grad)
                &&& forall|i: int|
                    0 <= i < self.nodes@.len() && (#[trigger] s.ops.parents@[i]) is Some ==> {
                        &&& s.ops.parents@[i]->0.id == self.nodes@[i].id
                        &&& s.ops.parents@[i]->0.parents@ == self.nodes@[i].parents@
                        &&& s.ops.parents@[i]->0.requirement == self.nodes@[i].requirement
                        &&& s.ops.parents@[i]->0.properties == self.nodes@[i].properties
                    }
            }),
            forall|i: int|
                0 <= i < t.graph.steps@.len() - 1 ==> crate::tensor::any_graph_has_step(
                    self.graphs@,
                    #[trigger] t.graph.steps@[i],
                ),
            forall|id: NodeID|
                id != t.node.id ==> ((#[trigger] t.graph.contains_step(id)) <==> any_graph_has_id(
                    self.graphs@,
                    id,
                )),
            t.graph.decided@ == crate::tensor::concat_decided(self.graphs@)
                + self.checkpointing_actions@,
            t.graph.unsure@ == crate::tensor::concat_unsure(self.graphs@)
                + self.unsure_checkpointing_actions@,
    {
        let OpsPrep {
            nodes,
            graphs,
            requirement,
            backward,
            compute_property,
            checkpointing_actions,
            unsure_checkpointing_actions,
            marker: _,
        } = self;
        let ghost graphs0 = graphs@;
        let base = AutodiffTensor::from_parents(
            output,
            &nodes,
            graphs,
            requirement,
            compute_property,
            checkpointing_actions,
            unsure_checkpointing_actions,
            ids,
        );
        let mut parents: Vec<Option<Node<R>>> = Vec::new();
        let mut i: usize = 0;
        while i < nodes.len()
            invariant
                i <= nodes.len(),
                parents@.len() == i,
                forall|j: int|
                    0 <= j < i ==> ((#[trigger] parents@[j]) is Some <==> nodes@[j].requirement
                        is Grad),
                forall|j: int|
                    0 <= j < i && (#[trigger] parents@[j]) is Some ==> {
                        &&& parents@[j]->0.id == nodes@[j].id
                        &&& parents@[j]->0.parents@ == nodes@[j].parents@
                        &&& parents@[j]->0.requirement == nodes@[j].requirement
                        &&& parents@[j]->0.properties == nodes@[j].properties
                    },
            decreases nodes.len() - i,
        {
            parents.push(nodes[i].clone_if_require_grad());
            i = i + 1;
        }
        let own_node = base.node.duplicate();
        let ops = Ops { parents, node: own_node, state };
        let step = OpsStep { ops, backward };
        let ghost base_steps = base.graph.steps@;
        let t = base.register_step(step);
        proof {
            assert(t.graph.steps@.last() == step);
            assert forall|id: NodeID| id != t.node.id implies ((
            #[trigger] t.graph.contains_step(id)) <==> any_graph_has_id(graphs0, id)) by {
                lemma_has_id_push(base_steps, step, id);
            }
            assert(t.graph.contains_step(t.node.id)) by {
                lemma_has_id_push(base_steps, step, t.node.id);
            }
            assert(t.graph.ids_below(old(ids).next + 1));
        }
        t
    }

    /// Record a decided checkpointing action for another tensor: a value
    /// snapshot when its node is compute-bound or undecided, the
    /// recomputation recipe when it is memory-bound. Returns the node's
    /// identity for later lookup from inside the backward state.
    pub fn checkpoint<BO2: Backward<R>>(&mut self, tensor: &AutodiffTensor<BO2, R>) -> (r: NodeID)
        ensures
            r == tensor.node.id,
            final(self).nodes@ == old(self).nodes@,
            final(self).graphs@ == old(self).graphs@,
            final(self).requirement == old(self).requirement,
            final(self).backward == old(self).backward,
            final(self).compute_property == old(self).compute_property,
            final(self).unsure_checkpointing_actions@ == old(self).unsure_checkpointing_actions@,
            final(self).checkpointing_actions@.len() == old(self).checkpointing_actions@.len() + 1,
            forall|i: int|
                0 <= i < old(self).checkpointing_actions@.len()
                    ==> #[trigger] final(self).checkpointing_actions@[i] == old(
                    self,
                ).checkpointing_actions@[i],
            action_records(final(self).checkpointing_actions@.last(), tensor.node, tensor.primitive),
    {
        let action = record_action(tensor);
        self.checkpointing_actions.push(action);
        tensor.node.id
    }

    /// Record an unsure checkpointing action: identical classification, but
    /// queued in the unsure buffer for a consumer that cannot know at
    /// preparation time whether the value will be needed.
    pub fn might_need<BO2: Backward<R>>(&mut self, tensor: &AutodiffTensor<BO2, R>) -> (r: NodeID)
        ensures
            r == tensor.node.id,
            final(self).nodes@ == old(self).nodes@,
            final(self).graphs@ == old(self).graphs@,
            final(self).requirement == old(self).requirement,
            final(self).backward == old(self).backward,
            final(self).compute_property == old(self).compute_property,
            final(self).checkpointing_actions@ == old(self).checkpointing_actions@,
            final(self).unsure_checkpointing_actions@.len() == old(
                self,
            ).unsure_checkpointing_actions@.len() + 1,
            forall|i: int|
                0 <= i < old(self).unsure_checkpointing_actions@.len()
                    ==> #[trigger] final(self).unsure_checkpointing_actions@[i] == old(
                    self,
                ).unsure_checkpointing_actions@[i],
            action_records(
                final(self).unsure_checkpointing_actions@.last(),
                tensor.node,
                tensor.primitive,
            ),
    {
        let action = record_action(tensor);
        self.unsure_checkpointing_actions.push(action);
        tensor.node.id
    }
}

impl<BO, R: RetroForward> OpsPrep<BO, R, Init> where BO: Backward<R, State = ()> {
    /// Prepare a stateless operation, skipping the compute-property choice:
    /// classify it and finish at once with a unit state. A tracked output
    /// gets its backward step registered; an untracked one only its node.
    pub fn stateless(self, output: TensorData, ids: &mut NodeIdGen) -> (t: AutodiffTensor<BO, R>)
        requires
            prep_wf(self),
            graphs_wf_below(self.graphs@, old(ids).next as int),
            old(ids).next < u64::MAX,
        ensures
            final(ids).next == old(ids).next + 1,
            t.primitive == output,
            t.node.id == old(ids).next,
            t.node.requirement == self.requirement,
            t.node.parents@ == grad_parent_ids(self.nodes@),
            t.node.properties == self.compute_property,
            t.graph.wf(),
            self.requirement is NoGrad ==> !t.graph.contains_step(t.node.id),
            self.requirement is Grad ==> t.graph.contains_step(t.node.id),
    {
        let ghost nodes0 = self.nodes@;
        match self.stateful() {
            OpsKind::TrackedOp(prep) => prep.finish((), output, ids),
            OpsKind::UnTrackedOp(prep) => {
                proof {
                    lemma_grad_parent_ids_empty(nodes0);
                }
                prep.finish(output, ids)
            }
        }
    }
}

impl<BO, R: RetroForward> OpsPrep<BO, R, ComputePropertyChosen> where BO: Backward<R, State = ()> {
    /// Prepare a stateless operation whose compute property was chosen:
    /// classify it and finish at once with a unit state.
    pub fn stateless(self, output: TensorData, ids: &mut NodeIdGen) -> (t: AutodiffTensor<BO, R>)
        requires
            prep_wf(self),
            graphs_wf_below(self.graphs@, old(ids).next as int),
            old(ids).next < u64::MAX,
        ensures
            final(ids).next == old(ids).next + 1,
            t.primitive == output,
            t.node.id == old(ids).next,
            t.node.requirement == self.requirement,
            t.node.parents@ == grad_parent_ids(self.nodes@),
            t.node.properties == self.compute_property,
            t.graph.wf(),
            self.requirement is NoGrad ==> !t.graph.contains_step(t.node.id),
            self.requirement is Grad ==> t.graph.contains_step(t.node.id),
    {
        let ghost nodes0 = self.nodes@;
        match self.stateful() {
            OpsKind::TrackedOp(prep) => prep.finish((), output, ids),
            OpsKind::UnTrackedOp(prep) => {
                proof {
                    lemma_grad_parent_ids_empty(nodes0);
                }
                prep.finish(output, ids)
            }
        }
    }
}

/// The action records the given node faithfully: a snapshot of the value
/// for a compute-bound or undecided node, the recipe for a memory-bound
/// one; the action's identity equals the node's identity either way.
pub open spec fn action_records<R>(
    a: CheckpointingAction<R>,
    node: Node<R>,
    primitive: TensorData,
) -> bool {
    &&& a.spec_id() == node.id
    &&& (node.properties is ComputeBound || node.properties is Ambiguous) ==> {
        &&& a matches CheckpointingAction::Compute { node_ref, state_content }
        &&& node_ref.id == node.id
        &&& node_ref.parents@ == node.parents@
        &&& node_ref.requirement == node.requirement
        &&& node_ref.properties == node.properties
        &&& state_content.shape@ == primitive.shape@
        &&& state_content.data@ == primitive.data@
    }
    &&& node.properties is MemoryBound ==> {
        &&& a matches CheckpointingAction::Recompute { node_ref, retro_forward }
        &&& node_ref.id == node.id
        &&& node_ref.parents@ == node.parents@
        &&& node_ref.requirement == node.requirement
        &&& node_ref.properties == node.properties
        &&& retro_forward == node.properties->retro_forward
    }
}

/// Build the checkpointing action for one tensor: a value snapshot when its
/// node is compute-bound or undecided, the shared recipe when it is
/// memory-bound.
fn record_action<BO2: Backward<R>, R: RetroForward>(tensor: &AutodiffTensor<BO2, R>) -> (a:
    CheckpointingAction<R>)
    ensures
        action_records(a, tensor.node, tensor.primitive),
{
    match &tensor.node.properties {
        ComputingProperty::ComputeBound | ComputingProperty::Ambiguous => {
            CheckpointingAction::Compute {
                node_ref: tensor.node.duplicate(),
                state_content: tensor.primitive.duplicate(),
            }
        }
        ComputingProperty::MemoryBound { retro_forward } => {
            CheckpointingAction::Recompute {
                node_ref: tensor.node.duplicate(),
                retro_forward: retro_forward.duplicate(),
            }
        }
    }
}

} // verus!
