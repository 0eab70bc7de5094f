//! The primitive tensor value the core operates on: a shape together with
//! row-major flat storage. Arithmetic on elements saturates, so every
//! operation is total on well-formed tensors.

use vstd::prelude::*;
use crate::checkpoint::{CheckpointingAction, RetroForward};
use crate::graph::{
    sorted_steps, seq_has_step, ComputingProperty, Graph, Node, NodeID, NodeIdGen, Requirement,
};
use crate::ops::{Backward, OpsStep};

verus! {

/// Number of elements a tensor of shape `dims` holds: the product of the
/// extents, 1 for the empty shape.
pub open spec fn shape_product(dims: Seq<usize>) -> int
    decreases dims.len(),
{
    if dims.len() == 0 {
        1
    } else {
        dims[0] * shape_product(dims.drop_first())
    }
}

/// The product of a concatenation is the product of the parts.
pub proof fn lemma_shape_product_concat(a: Seq<usize>, b: Seq<usize>)
    ensures
        shape_product(a + b) == shape_product(a) * shape_product(b),
    decreases a.len(),
{
    if a.len() == 0 {
        assert(a + b =~= b);
    } else {
        lemma_shape_product_concat(a.drop_first(), b);
        assert((a + b).drop_first() =~= a.drop_first() + b);
        assert(shape_product(a + b) == a[0] * (shape_product(a.drop_first()) * shape_product(b)))
            by (nonlinear_arith)
            requires
                shape_product(a + b) == (a + b)[0] * shape_product((a + b).drop_first()),
                (a + b)[0] == a[0],
                shape_product((a + b).drop_first()) == shape_product(a.drop_first()) * shape_product(b),
        ;
        assert(a[0] * (shape_product(a.drop_first()) * shape_product(b))
            == (a[0] * shape_product(a.drop_first())) * shape_product(b)) by (nonlinear_arith);
    }
}

/// A product of extents is never negative.
pub proof fn lemma_shape_product_nonneg(dims: Seq<usize>)
    ensures
        shape_product(dims) >= 0,
    decreases dims.len(),
{
    if dims.len() > 0 {
        lemma_shape_product_nonneg(dims.drop_first());
        assert(dims[0] * shape_product(dims.drop_first()) >= 0) by (nonlinear_arith)
            requires
                dims[0] >= 0,
                shape_product(dims.drop_first()) >= 0,
        ;
    }
}

/// A shape with a zero extent holds no elements.
pub proof fn lemma_shape_product_zero(dims: Seq<usize>, i: int)
    requires
        0 <= i < dims.len(),
        dims[i] == 0,
    ensures
        shape_product(dims) == 0,
    decreases dims.len(),
{
    if i == 0 {
        lemma_shape_product_nonneg(dims.drop_first());
        assert(dims[0] * shape_product(dims.drop_first()) == 0) by (nonlinear_arith)
            requires
                dims[0] == 0,
        ;
    } else {
        lemma_shape_product_zero(dims.drop_first(), i - 1);
        assert(dims[0] * shape_product(dims.drop_first()) == 0) by (nonlinear_arith)
            requires
                shape_product(dims.drop_first()) == 0,
        ;
    }
}

/// When every extent from position `i` on is at least one, the whole
/// product is at least the product of the first `i` extents.
pub proof fn lemma_shape_product_prefix_bound(dims: Seq<usize>, i: int)
    requires
        0 <= i <= dims.len(),
        forall|j: int| i <= j < dims.len() ==> dims[j] >= 1,
    ensures
        shape_product(dims) >= shape_product(dims.subrange(0, i)),
    decreases dims.len() - i,
{
    lemma_shape_product_nonneg(dims.subrange(0, i));
    if i == dims.len() {
        assert(dims.subrange(0, i) =~= dims);
    } else {
        lemma_shape_product_prefix_bound(dims, i + 1);
        assert(dims.subrange(0, i + 1) =~= dims.subrange(0, i) + seq![dims[i]]);
        lemma_shape_product_concat(dims.subrange(0, i), seq![dims[i]]);
        assert(seq![dims[i]].drop_first() =~= Seq::<usize>::empty());
        assert(shape_product(Seq::<usize>::empty()) == 1);
        assert(shape_product(seq![dims[i]]) == dims[i] * 1);
        assert(shape_product(dims.subrange(0, i)) * dims[i] >= shape_product(dims.subrange(0, i)))
            by (nonlinear_arith)
            requires
                dims[i] >= 1,
                shape_product(dims.subrange(0, i)) >= 0,
        ;
    }
}

/// Addition on `i64` clipped to the representable range.
pub open spec fn sat_add(a: int, b: int) -> int {
    if a + b > i64::MAX {
        i64::MAX as int
    } else if a + b < i64::MIN {
        i64::MIN as int
    } else {
        a + b
    }
}

/// Saturating addition of two elements.
pub fn sat_add_i64(a: i64, b: i64) -> (r: i64)
    ensures
        r as int == sat_add(a as int, b as int),
{
    let s: i128 = a as i128 + b as i128;
    if s > i64::MAX as i128 {
        i64::MAX
    } else if s < i64::MIN as i128 {
        i64::MIN
    } else {
        s as i64
    }
}

/// Whether two extent vectors hold the same extents.
pub fn shapes_equal(a: &Vec<usize>, b: &Vec<usize>) -> (r: bool)
    ensures
        r == (a@ == b@),
{
    if a.len() != b.len() {
        assert(a@ != b@);
        return false;
    }
    let mut i: usize = 0;
    while i < a.len()
        invariant
            i <= a.len(),
            a@.len() == b@.len(),
            forall|j: int| 0 <= j < i ==> a@[j] == b@[j],
        decreases a.len() - i,
    {
        if a[i] != b[i] {
            assert(a@ != b@);
            return false;
        }
        i = i + 1;
    }
    proof {
        assert(a@ =~= b@);
    }
    true
}

/// A tensor value: extents of each dimension and row-major flat storage.
pub struct TensorData {
    /// Extent of each dimension, outermost first.
    pub shape: Vec<usize>,
    /// The elements, row-major.
    pub data: Vec<i64>,
}

impl TensorData {
    /// The storage holds exactly one element per position of the shape.
    pub open spec fn wf(self) -> bool {
        self.data@.len() == shape_product(self.shape@)
    }

    /// An exact copy.
    pub fn duplicate(&self) -> (r: TensorData)
        ensures
            r.shape@ == self.shape@,
            r.data@ == self.data@,
    {
        let mut shape: Vec<usize> = Vec::new();
        let mut i: usize = 0;
        while i < self.shape.len()
            invariant
                i <= self.shape.len(),
                shape@ =~= self.shape@.subrange(0, i as int),
            decreases self.shape.len() - i,
        {
            shape.push(self.shape[i]);
            i = i + 1;
        }
        let mut data: Vec<i64> = Vec::new();
        let mut j: usize = 0;
        while j < self.data.len()
            invariant
                j <= self.data.len(),
                data@ =~= self.data@.subrange(0, j as int),
            decreases self.data.len() - j,
        {
            data.push(self.data[j]);
            j = j + 1;
        }
        assert(shape@ =~= self.shape@);
        assert(data@ =~= self.data@);
        TensorData { shape, data }
    }

    /// Elementwise saturating sum of two tensors of the same shape.
    pub fn sat_tensor_add(&self, other: &TensorData) -> (r: TensorData)
        requires
            self.shape@ == other.shape@,
            self.data@.len() == other.data@.len(),
        ensures
            r.shape@ == self.shape@,
            r.data@.len() == self.data@.len(),
            forall|i: int|
                0 <= i < r.data@.len() ==> r.data@[i] as int == sat_add(
                    self.data@[i] as int,
                    other.data@[i] as int,
                ),
    {
        let mut data: Vec<i64> = Vec::new();
        let mut i: usize = 0;
        while i < self.data.len()
            invariant
                i <= self.data.len(),
                self.data@.len() == other.data@.len(),
                data@.len() == i,
                forall|j: int|
                    0 <= j < i ==> data@[j] as int == sat_add(
                        self.data@[j] as int,
                        other.data@[j] as int,
                    ),
            decreases self.data.len() - i,
        {
            data.push(sat_add_i64(self.data[i], other.data[i]));
            i = i + 1;
        }
        let mut shape: Vec<usize> = Vec::new();
        let mut s: usize = 0;
        while s < self.shape.len()
            invariant
                s <= self.shape.len(),
                shape@ =~= self.shape@.subrange(0, s as int),
            decreases self.shape.len() - s,
        {
            shape.push(self.shape[s]);
            s = s + 1;
        }
        assert(shape@ =~= self.shape@);
        TensorData { shape, data }
    }

    /// A tensor of the given shape with every element equal to `value`, or
    /// `None` when a prefix of the extents already overflows the address
    /// space.
    pub fn filled(shape: Vec<usize>, value: i64) -> (r: Option<TensorData>)
        ensures
            (forall|i: int|
                0 <= i <= shape@.len() ==> shape_product(#[trigger] shape@.subrange(0, i))
                    <= usize::MAX) ==> r is Some,
            r is Some ==> {
                let t = r->0;
                &&& t.wf()
                &&& t.shape == shape
                &&& forall|k: int| 0 <= k < t.data@.len() ==> t.data@[k] == value
            },
    {
        let mut n: usize = 1;
        let mut i: usize = 0;
        assert(shape@.subrange(0, 0) =~= Seq::<usize>::empty());
        while i < shape.len()
            invariant
                i <= shape.len(),
                n == shape_product(shape@.subrange(0, i as int)),
            decreases shape.len() - i,
        {
            let d = shape[i];
            proof {
                assert(shape@.subrange(0, i + 1) =~= shape@.subrange(0, i as int)
                    + seq![shape@[i as int]]);
                lemma_shape_product_concat(shape@.subrange(0, i as int), seq![shape@[i as int]]);
                assert(seq![shape@[i as int]].drop_first() =~= Seq::<usize>::empty());
                assert(shape_product(Seq::<usize>::empty()) == 1);
                assert(shape_product(seq![shape@[i as int]]) == d * 1);
            }
            let next = n.checked_mul(d);
            match next {
                Some(m) => {
                    n = m;
                }
                None => {
                    return None;
                }
            }
            i = i + 1;
        }
        assert(shape@.subrange(0, shape@.len() as int) =~= shape@);
        let mut data: Vec<i64> = Vec::new();
        let mut k: usize = 0;
        while k < n
            invariant
                k <= n,
                data@.len() == k,
                forall|j: int| 0 <= j < k ==> data@[j] == value,
            decreases n - k,
        {
            data.push(value);
            k = k + 1;
        }
        Some(TensorData { shape, data })
    }
}

/// Whether any node of the sequence requires a gradient.
pub open spec fn any_node_requires_grad<R>(s: Seq<Node<R>>) -> bool {
    exists|i: int| 0 <= i < s.len() && s[i].requirement is Grad
}

/// The identities of the nodes that require a gradient, in order: the
/// parent edges a new node carries.
pub open spec fn grad_parent_ids<R>(s: Seq<Node<R>>) -> Seq<NodeID>
    decreases s.len(),
{
    if s.len() == 0 {
        Seq::empty()
    } else {
        grad_parent_ids(s.drop_last()) + (if s.last().requirement is Grad {
            seq![s.last().id]
        } else {
            Seq::empty()
        })
    }
}

/// When no node requires a gradient, a new node carries no parent edges.
pub proof fn lemma_grad_parent_ids_empty<R>(s: Seq<Node<R>>)
    requires
        !any_node_requires_grad(s),
    ensures
        grad_parent_ids(s) =~= Seq::<NodeID>::empty(),
    decreases s.len(),
{
    if s.len() > 0 {
        assert(!any_node_requires_grad(s.drop_last()));
        lemma_grad_parent_ids_empty(s.drop_last());
    }
}

/// Whether some graph of the sequence holds a step producing `id`.
pub open spec fn any_graph_has_id<BO: Backward<R>, R: RetroForward>(
    gs: Seq<Graph<BO, R>>,
    id: NodeID,
) -> bool {
    exists|g: int| 0 <= g < gs.len() && gs[g].contains_step(id)
}

/// Whether some graph of the sequence holds the exact step `x`.
pub open spec fn any_graph_has_step<BO: Backward<R>, R: RetroForward>(
    gs: Seq<Graph<BO, R>>,
    x: OpsStep<BO, R>,
) -> bool {
    exists|g: int| 0 <= g < gs.len() && seq_has_step(gs[g].steps@, x)
}

/// The decided checkpointing actions of the graphs, concatenated in order.
pub open spec fn concat_decided<BO: Backward<R>, R: RetroForward>(
    gs: Seq<Graph<BO, R>>,
) -> Seq<CheckpointingAction<R>>
    decreases gs.len(),
{
    if gs.len() == 0 {
        Seq::empty()
    } else {
        concat_decided(gs.drop_last()) + gs.last().decided@
    }
}

/// The unsure checkpointing actions of the graphs, concatenated in order.
pub open spec fn concat_unsure<BO: Backward<R>, R: RetroForward>(
    gs: Seq<Graph<BO, R>>,
) -> Seq<CheckpointingAction<R>>
    decreases gs.len(),
{
    if gs.len() == 0 {
        Seq::empty()
    } else {
        concat_unsure(gs.drop_last()) + gs.last().unsure@
    }
}

/// All graphs of the sequence are well formed and all their step
/// identities lie below `bound`.
pub open spec fn graphs_wf_below<BO: Backward<R>, R: RetroForward>(
    gs: Seq<Graph<BO, R>>,
    bound: int,
) -> bool {
    forall|g: int|
        0 <= g < gs.len() ==> (#[trigger] gs[g]).wf() && gs[g].ids_below(bound)
}

/// A tensor tracked by the autodiff engine: the primitive value, the node
/// that identifies it in the computation graph, and the graph of its whole
/// ancestry.
pub struct AutodiffTensor<BO, R> where BO: Backward<R>, R: RetroForward {
    /// The primitive tensor value.
    pub primitive: TensorData,
    /// The node identifying this tensor in the graph.
    pub node: Node<R>,
    /// The backward steps and queued actions of this tensor's ancestry.
    pub graph: Graph<BO, R>,
}

impl<BO: Backward<R>, R: RetroForward> AutodiffTensor<BO, R> {
    /// Build the output tensor of an operation from its parents: a fresh
    /// node whose parent edges are exactly the parents that require a
    /// gradient, and a graph merged from the parents' graphs — no step is
    /// registered here — with the operation's queued actions appended.
    pub fn from_parents(
        output: TensorData,
        nodes: &Vec<Node<R>>,
        graphs: Vec<Graph<BO, R>>,
        requirement: Requirement,
        compute_property: ComputingProperty<R>,
        checkpointing_actions: Vec<CheckpointingAction<R>>,
        unsure_checkpointing_actions: Vec<CheckpointingAction<R>>,
        ids: &mut NodeIdGen,
    ) -> (t: AutodiffTensor<BO, R>)
        requires
            graphs_wf_below(graphs@, old(ids).next as int),
            old(ids).next < u64::MAX,
        ensures
            final(ids).next == old(ids).next + 1,
            t.primitive == output,
            t.node.id == old(ids).next,
            t.node.requirement == requirement,
            t.node.properties == compute_property,
            t.node.parents@ == grad_parent_ids(nodes@),
            t.graph.wf(),
            t.graph.ids_below(old(ids).next as int),
            !t.graph.contains_step(t.node.id),
            forall|id: NodeID|
                #[trigger] t.graph.contains_step(id) <==> any_graph_has_id(graphs@, id),
            forall|i: int|
                0 <= i < t.graph.steps@.len() ==> any_graph_has_step(
                    graphs@,
                    #[trigger] t.graph.steps@[i],
                ),
            forall|g: int, j: int|
                0 <= g < graphs@.len() && 0 <= j < graphs@[g].steps@.len()
                    ==> t.graph.contains_step(
                    (#[trigger] graphs@[g].steps@[j]).ops.node.id,
                ),
            t.graph.decided@ == concat_decided(graphs@) + checkpointing_actions@,
            t.graph.unsure@ == concat_unsure(graphs@) + unsure_checkpointing_actions@,
    {
        let ghost graphs0 = graphs@;
        let mut remaining = graphs;
        let mut merged: Graph<BO, R> = Graph::empty();
        let n = remaining.len();
        proof {
            assert(concat_decided(graphs0.subrange(0, 0)) =~= Seq::<CheckpointingAction<R>>::empty());
            assert(concat_unsure(graphs0.subrange(0, 0)) =~= Seq::<CheckpointingAction<R>>::empty());
        }
        let mut done: usize = 0;
        while remaining.len() > 0
            invariant
                graphs_wf_below(graphs0, old(ids).next as int),
                done + remaining@.len() == n,
                n == graphs0.len(),
                remaining@ == graphs0.subrange(done as int, n as int),
                merged.wf(),
                merged.ids_below(old(ids).next as int),
                forall|id: NodeID|
                    #[trigger] merged.contains_step(id) <==> any_graph_has_id(
                        graphs0.subrange(0, done as int),
                        id,
                    ),
                forall|i: int|
                    0 <= i < merged.steps@.len() ==> any_graph_has_step(
                        graphs0.subrange(0, done as int),
                        #[trigger] merged.steps@[i],
                    ),
                forall|g: int, j: int|
                    0 <= g < done && 0 <= j < graphs0[g].steps@.len() ==> merged.contains_step(
                        (#[trigger] graphs0[g].steps@[j]).ops.node.id,
                    ),
                merged.decided@ == concat_decided(graphs0.subrange(0, done as int)),
                merged.unsure@ == concat_unsure(graphs0.subrange(0, done as int)),
            decreases remaining@.len(),
        {
            let ghost prev = merged;
            let g = remaining.remove(0);
            proof {
                assert(g == graphs0[done as int]);
                assert(remaining@ =~= graphs0.subrange(done + 1, n as int));
            }
            merged = Graph::merge(merged, g);
            done = done + 1;
            proof {
                let pre = graphs0.subrange(0, done - 1);
                let cur = graphs0.subrange(0, done as int);
                assert(pre =~= cur.drop_last());
                assert(merged.decided@ =~= concat_decided(cur));
                assert(merged.unsure@ =~= concat_unsure(cur));
                assert forall|id: NodeID| #[trigger] merged.contains_step(id) implies
                    any_graph_has_id(cur, id) by {
                    if prev.contains_step(id) {
                        let w = choose|w: int| 0 <= w < pre.len() && pre[w].contains_step(id);
                        assert(cur[w].contains_step(id));
                    } else {
                        assert(g.contains_step(id));
                        assert(cur[done - 1].contains_step(id));
                    }
                }
                assert forall|id: NodeID| any_graph_has_id(cur, id) implies
                    #[trigger] merged.contains_step(id) by {
                    let w = choose|w: int| 0 <= w < cur.len() && cur[w].contains_step(id);
                    if w < done - 1 {
                        assert(pre[w].contains_step(id));
                        assert(any_graph_has_id(pre, id));
                        assert(prev.contains_step(id));
                    } else {
                        assert(g.contains_step(id));
                    }
                }
                assert forall|i: int| 0 <= i < merged.steps@.len() implies any_graph_has_step(
                    cur,
                    #[trigger] merged.steps@[i],
                ) by {
                    if seq_has_step(prev.steps@, merged.steps@[i]) {
                        assert(any_graph_has_step(pre, merged.steps@[i]));
                        let w = choose|w: int|
                            0 <= w < pre.len() && seq_has_step(pre[w].steps@, merged.steps@[i]);
                        assert(seq_has_step(cur[w].steps@, merged.steps@[i]));
                    } else {
                        assert(seq_has_step(g.steps@, merged.steps@[i]));
                        assert(seq_has_step(cur[done - 1].steps@, merged.steps@[i]));
                    }
                }
                assert(merged.ids_below(old(ids).next as int)) by {
                    assert forall|i: int| 0 <= i < merged.steps@.len() implies (
                    #[trigger] merged.steps@[i]).ops.node.id < old(ids).next by {
                        let x = merged.steps@[i];
                        if seq_has_step(prev.steps@, x) {
                            let w = choose|w: int| 0 <= w < prev.steps@.len() && prev.steps@[w] == x;
                        } else {
                            assert(seq_has_step(g.steps@, x));
                            let w = choose|w: int| 0 <= w < g.steps@.len() && g.steps@[w] == x;
                            assert(graphs0[done - 1].ids_below(old(ids).next as int));
                        }
                    }
                }
            }
        }
        proof {
            assert(graphs0.subrange(0, n as int) =~= graphs0);
        }
        let id = ids.fresh();
        let mut parents: Vec<NodeID> = Vec::new();
        let mut i: usize = 0;
        proof {
            assert(grad_parent_ids(nodes@.subrange(0, 0)) =~= Seq::<NodeID>::empty());
        }
        while i < nodes.len()
            invariant
                i <= nodes.len(),
                parents@ == grad_parent_ids(nodes@.subrange(0, i as int)),
            decreases nodes.len() - i,
        {
            proof {
                assert(nodes@.subrange(0, i + 1).drop_last() =~= nodes@.subrange(0, i as int));
                assert(nodes@.subrange(0, i + 1).last() == nodes@[i as int]);
            }
            match nodes[i].requirement {
                Requirement::Grad => {
                    parents.push(nodes[i].id);
                    proof {
                        assert(parents@ =~= grad_parent_ids(nodes@.subrange(0, i + 1)));
                    }
                }
                Requirement::NoGrad => {
                    proof {
                        assert(parents@ =~= grad_parent_ids(nodes@.subrange(0, i + 1)));
                    }
                }
            }
            i = i + 1;
        }
        proof {
            assert(nodes@.subrange(0, nodes@.len() as int) =~= nodes@);
        }
        let node = Node { id, parents, requirement, properties: compute_property };
        let mut decided = checkpointing_actions;
        let mut unsure = unsure_checkpointing_actions;
        let Graph { steps, decided: mut merged_decided, unsure: mut merged_unsure } = merged;
        merged_decided.append(&mut decided);
        merged_unsure.append(&mut unsure);
        let graph = Graph { steps, decided: merged_decided, unsure: merged_unsure };
        AutodiffTensor { primitive: output, node, graph }
    }

    /// Register the backward step of a tracked operation: the step joins the
    /// graph keyed by this tensor's own node, which is younger than every
    /// step already present.
    pub fn register_step(self, step: OpsStep<BO, R>) -> (t: AutodiffTensor<BO, R>)
        requires
            self.graph.wf(),
            self.graph.ids_below(step.ops.node.id as int),
        ensures
            t.primitive == self.primitive,
            t.node == self.node,
            t.graph.wf(),
            t.graph.steps@ == self.graph.steps@.push(step),
            t.graph.decided@ == self.graph.decided@,
            t.graph.unsure@ == self.graph.unsure@,
    {
        let AutodiffTensor { primitive, node, graph } = self;
        let Graph { steps: mut steps, decided, unsure } = graph;
        steps.push(step);
        proof {
            assert(sorted_steps(steps@));
        }
        AutodiffTensor { primitive, node, graph: Graph { steps, decided, unsure } }
    }
}

} // verus!
