//! Identity and connectivity of computation-graph nodes. Nodes are created
//! strictly forward with fresh, strictly increasing identities, so the graph
//! is a DAG by construction and every parent's identity is smaller than its
//! child's.

use vstd::prelude::*;
use crate::checkpoint::{CheckpointingAction, RetroForward};
use crate::ops::{Backward, OpsStep};

verus! {

/// Identity of one node of the computation graph; unique and immutable.
pub type NodeID = u64;

/// Whether gradients must flow through a node.
#[derive(Clone, Copy, PartialEq, Eq, Structural)]
pub enum Requirement {
    /// At least one path to this node needs a gradient.
    Grad,
    /// No gradient is required anywhere below this node.
    NoGrad,
}

impl Requirement {
    /// True when no gradient is required.
    pub fn is_none(&self) -> (r: bool)
        ensures
            r == (*self is NoGrad),
    {
        match self {
            Requirement::Grad => false,
            Requirement::NoGrad => true,
        }
    }
}

/// How a node's value is reproduced when the backward pass needs it:
/// cheap to keep, expensive to keep (recompute through a recorded
/// procedure), or not yet decided.
pub enum ComputingProperty<R> {
    /// The value is cheap to keep; always materialize it.
    ComputeBound,
    /// The value is expensive to keep; rebuild it on demand through the
    /// recorded recomputation procedure.
    MemoryBound {
        /// The recorded recomputation procedure.
        retro_forward: R,
    },
    /// Undecided; resolved lazily as if compute-bound.
    Ambiguous,
}

impl<R: RetroForward> ComputingProperty<R> {
    /// An exact copy.
    pub fn duplicate(&self) -> (r: ComputingProperty<R>)
        ensures
            r == *self,
    {
        match self {
            ComputingProperty::ComputeBound => ComputingProperty::ComputeBound,
            ComputingProperty::MemoryBound { retro_forward } => ComputingProperty::MemoryBound {
                retro_forward: retro_forward.duplicate(),
            },
            ComputingProperty::Ambiguous => ComputingProperty::Ambiguous,
        }
    }
}

/// One node of the computation graph: identity, the identities of the
/// parents gradients flow to, whether a gradient is required, and how its
/// value is reproduced. Immutable once created.
pub struct Node<R> {
    /// Unique identity; never changes.
    pub id: NodeID,
    /// Identities of the parents that themselves require a gradient.
    pub parents: Vec<NodeID>,
    /// Whether gradients must flow through this node.
    pub requirement: Requirement,
    /// How the node's value is reproduced for the backward pass.
    pub properties: ComputingProperty<R>,
}

impl<R: RetroForward> Node<R> {
    /// An exact copy.
    pub fn duplicate(&self) -> (r: Node<R>)
        ensures
            r.id == self.id,
            r.parents@ == self.parents@,
            r.requirement == self.requirement,
            r.properties == self.properties,
    {
        let mut parents: Vec<NodeID> = Vec::new();
        let mut i: usize = 0;
        while i < self.parents.len()
            invariant
                i <= self.parents.len(),
                parents@ =~= self.parents@.subrange(0, i as int),
            decreases self.parents.len() - i,
        {
            parents.push(self.parents[i]);
            i = i + 1;
        }
        assert(parents@ =~= self.parents@);
        Node {
            id: self.id,
            parents,
            requirement: self.requirement,
            properties: self.properties.duplicate(),
        }
    }

    /// A copy of this node when it requires a gradient, nothing otherwise:
    /// a parent is referenced by a backward step only if a gradient must
    /// reach it.
    pub fn clone_if_require_grad(&self) -> (r: Option<Node<R>>)
        ensures
            self.requirement is Grad ==> r is Some && r->0.id == self.id && r->0.parents@
                == self.parents@ && r->0.requirement == self.requirement && r->0.properties
                == self.properties,
            self.requirement is NoGrad ==> r is None,
    {
        match self.requirement {
            Requirement::Grad => Some(self.duplicate()),
            Requirement::NoGrad => None,
        }
    }
}

/// A sequence of backward steps is ordered: node identities are strictly
/// increasing, so each step appears once and parents (always older) come
/// first.
pub open spec fn sorted_steps<BO: Backward<R>, R: RetroForward>(s: Seq<OpsStep<BO, R>>) -> bool {
    forall|i: int, j: int|
        0 <= i < j < s.len() ==> s[i].ops.node.id < s[j].ops.node.id
}

/// A sequence of backward steps ordered the other way round: node
/// identities strictly decreasing.
pub open spec fn sorted_steps_desc<BO: Backward<R>, R: RetroForward>(
    s: Seq<OpsStep<BO, R>>,
) -> bool {
    forall|i: int, j: int|
        0 <= i < j < s.len() ==> s[i].ops.node.id > s[j].ops.node.id
}

/// Whether the exact step `x` occurs in `s`.
pub open spec fn seq_has_step<BO: Backward<R>, R: RetroForward>(
    s: Seq<OpsStep<BO, R>>,
    x: OpsStep<BO, R>,
) -> bool {
    exists|i: int| 0 <= i < s.len() && s[i] == x
}

/// Whether some step of `s` produces the node `id`.
pub open spec fn seq_has_id<BO: Backward<R>, R: RetroForward>(
    s: Seq<OpsStep<BO, R>>,
    id: NodeID,
) -> bool {
    exists|i: int| 0 <= i < s.len() && s[i].ops.node.id == id
}

/// A step found in a sequence is still found after another step is
/// appended.
pub proof fn lemma_has_step_push<BO: Backward<R>, R: RetroForward>(
    s: Seq<OpsStep<BO, R>>,
    x: OpsStep<BO, R>,
    y: OpsStep<BO, R>,
)
    requires
        seq_has_step(s, x),
    ensures
        seq_has_step(s.push(y), x),
{
    let t = choose|t: int| 0 <= t < s.len() && s[t] == x;
    assert(s.push(y)[t] == x);
}

/// An append-only structure owned by one tensor: the backward steps of its
/// whole ancestry keyed by the node each produces, together with the
/// checkpointing actions queued while those operations were prepared. A
/// tensor's graph is built by merging its parents' graphs.
pub struct Graph<BO, R> where BO: Backward<R>, R: RetroForward {
    /// Backward steps of the ancestry, ordered by strictly increasing node
    /// identity.
    pub steps: Vec<OpsStep<BO, R>>,
    /// Checkpointing actions already decided at preparation time.
    pub decided: Vec<CheckpointingAction<R>>,
    /// Checkpointing actions whose need is not yet known; a consumer
    /// decides lazily whether to materialize them.
    pub unsure: Vec<CheckpointingAction<R>>,
}

impl<BO: Backward<R>, R: RetroForward> Graph<BO, R> {
    /// Steps are ordered by strictly increasing node identity, so each node
    /// has at most one step.
    pub open spec fn wf(self) -> bool {
        sorted_steps(self.steps@)
    }

    /// Whether the graph holds a step producing `id`.
    pub open spec fn contains_step(self, id: NodeID) -> bool {
        seq_has_id(self.steps@, id)
    }

    /// Every step's node identity is below `bound`.
    pub open spec fn ids_below(self, bound: int) -> bool {
        forall|i: int|
            0 <= i < self.steps@.len() ==> (#[trigger] self.steps@[i]).ops.node.id < bound
    }

    /// A graph with no steps and no pending actions.
    pub fn empty() -> (r: Graph<BO, R>)
        ensures
            r.steps@ =~= Seq::<OpsStep<BO, R>>::empty(),
            r.decided@ =~= Seq::<CheckpointingAction<R>>::empty(),
            r.unsure@ =~= Seq::<CheckpointingAction<R>>::empty(),
            r.wf(),
    {
        Graph { steps: Vec::new(), decided: Vec::new(), unsure: Vec::new() }
    }

    /// Merge two graphs: the union of their steps keyed by node identity —
    /// a node produced in both ancestries keeps the left copy — and the
    /// concatenation of their queued actions.
    pub fn merge(a: Graph<BO, R>, b: Graph<BO, R>) -> (r: Graph<BO, R>)
        requires
            a.wf(),
            b.wf(),
        ensures
            r.wf(),
            forall|id: NodeID|
                #[trigger] r.contains_step(id) <==> a.contains_step(id) || b.contains_step(id),
            forall|i: int|
                0 <= i < r.steps@.len() ==> seq_has_step(a.steps@, #[trigger] r.steps@[i])
                    || seq_has_step(b.steps@, r.steps@[i]),
            forall|j: int|
                0 <= j < a.steps@.len() ==> seq_has_step(r.steps@, #[trigger] a.steps@[j]),
            forall|j: int|
                0 <= j < b.steps@.len() && !a.contains_step(
                    (#[trigger] b.steps@[j]).ops.node.id,
                ) ==> seq_has_step(r.steps@, b.steps@[j]),
            r.decided@ == a.decided@ + b.decided@,
            r.unsure@ == a.unsure@ + b.unsure@,
    {
        let Graph { steps: mut a_steps, decided: mut a_decided, unsure: mut a_unsure } = a;
        let Graph { steps: mut b_steps, decided: mut b_decided, unsure: mut b_unsure } = b;
        let ghost a0 = a_steps@;
        let ghost b0 = b_steps@;
        let mut acc: Vec<OpsStep<BO, R>> = Vec::new();
        while a_steps.len() > 0 || b_steps.len() > 0
            invariant
                sorted_steps(a0),
                sorted_steps(b0),
                a_steps@.len() <= a0.len(),
                b_steps@.len() <= b0.len(),
                a_steps@ == a0.subrange(0, a_steps@.len() as int),
                b_steps@ == b0.subrange(0, b_steps@.len() as int),
                sorted_steps_desc(acc@),
                forall|i: int, t: int|
                    0 <= i < a_steps@.len() && 0 <= t < acc@.len() ==> (
                    #[trigger] a_steps@[i]).ops.node.id < (#[trigger] acc@[t]).ops.node.id,
                forall|i: int, t: int|
                    0 <= i < b_steps@.len() && 0 <= t < acc@.len() ==> (
                    #[trigger] b_steps@[i]).ops.node.id < (#[trigger] acc@[t]).ops.node.id,
                forall|t: int|
                    0 <= t < acc@.len() ==> seq_has_step(a0, #[trigger] acc@[t]) || seq_has_step(
                        b0,
                        acc@[t],
                    ),
                forall|i: int|
                    a_steps@.len() <= i < a0.len() ==> seq_has_step(acc@, #[trigger] a0[i]),
                forall|i: int|
                    b_steps@.len() <= i < b0.len() ==> seq_has_step(acc@, #[trigger] b0[i])
                        || seq_has_id(a0, b0[i].ops.node.id),
            decreases a_steps@.len() + b_steps@.len(),
        {
            let take_from_a: bool;
            let mut drop_b: bool = false;
            if a_steps.len() == 0 {
                take_from_a = false;
            } else if b_steps.len() == 0 {
                take_from_a = true;
            } else {
                let aid = a_steps[a_steps.len() - 1].ops.node.id;
                let bid = b_steps[b_steps.len() - 1].ops.node.id;
                if aid == bid {
                    take_from_a = true;
                    drop_b = true;
                } else if aid > bid {
                    take_from_a = true;
                } else {
                    take_from_a = false;
                }
            }
            if drop_b {
                let ghost dropped = b_steps@[b_steps@.len() - 1];
                let duplicate = b_steps.pop();
                proof {
                    assert(b_steps@ =~= b0.subrange(0, b_steps@.len() as int));
                    assert(seq_has_id(a0, dropped.ops.node.id)) by {
                        assert(a0[a_steps@.len() - 1] == a_steps@[a_steps@.len() - 1]);
                    }
                }
            }
            let ghost prev_acc = acc@;
            if take_from_a {
                let s = a_steps.pop().unwrap();
                proof {
                    assert(a_steps@ =~= a0.subrange(0, a_steps@.len() as int));
                    assert(a0[a_steps@.len() as int] == s);
                }
                acc.push(s);
            } else {
                let s = b_steps.pop().unwrap();
                proof {
                    assert(b_steps@ =~= b0.subrange(0, b_steps@.len() as int));
                    assert(b0[b_steps@.len() as int] == s);
                }
                acc.push(s);
            }
            proof {
                assert(acc@[acc@.len() - 1] == acc@.last());
                assert forall|i: int| a_steps@.len() <= i < a0.len() implies seq_has_step(
                    acc@,
                    #[trigger] a0[i],
                ) by {
                    if i == a_steps@.len() && take_from_a {
                        assert(acc@[acc@.len() - 1] == a0[i]);
                    } else {
                        assert(seq_has_step(prev_acc, a0[i]));
                        lemma_has_step_push(prev_acc, a0[i], acc@.last());
                        assert(acc@ =~= prev_acc.push(acc@.last()));
                    }
                }
                assert forall|i: int| b_steps@.len() <= i < b0.len() implies (seq_has_step(
                    acc@,
                    #[trigger] b0[i],
                ) || seq_has_id(a0, b0[i].ops.node.id)) by {
                    if i == b_steps@.len() && !take_from_a {
                        assert(acc@[acc@.len() - 1] == b0[i]);
                    } else if seq_has_step(prev_acc, b0[i]) {
                        lemma_has_step_push(prev_acc, b0[i], acc@.last());
                        assert(acc@ =~= prev_acc.push(acc@.last()));
                    }
                }
                assert forall|t: int| 0 <= t < acc@.len() implies (seq_has_step(
                    a0,
                    #[trigger] acc@[t],
                ) || seq_has_step(b0, acc@[t])) by {
                    if t < prev_acc.len() {
                        assert(acc@[t] == prev_acc[t]);
                    } else {
                        if take_from_a {
                            assert(acc@[t] == a0[a_steps@.len() as int]);
                        } else {
                            assert(acc@[t] == b0[b_steps@.len() as int]);
                        }
                    }
                }
            }
        }
        let ghost accd = acc@;
        let mut steps: Vec<OpsStep<BO, R>> = Vec::new();
        while acc.len() > 0
            invariant
                acc@ == accd.subrange(0, acc@.len() as int),
                steps@.len() + acc@.len() == accd.len(),
                forall|t: int|
                    0 <= t < steps@.len() ==> #[trigger] steps@[t] == accd[accd.len() - 1 - t],
            decreases acc@.len(),
        {
            let ghost n = acc@.len();
            let s = acc.pop().unwrap();
            proof {
                assert(s == accd[n - 1]);
            }
            steps.push(s);
            proof {
                assert(acc@ =~= accd.subrange(0, acc@.len() as int));
            }
        }
        proof {
            assert(sorted_steps(steps@)) by {
                assert(sorted_steps_desc(accd));
                assert forall|i: int, j: int| 0 <= i < j < steps@.len() implies steps@[i].ops.node.id
                    < steps@[j].ops.node.id by {
                    assert(steps@[i] == accd[accd.len() - 1 - i]);
                    assert(steps@[j] == accd[accd.len() - 1 - j]);
                }
            }
            assert forall|t: int| 0 <= t < accd.len() implies seq_has_step(
                steps@,
                #[trigger] accd[t],
            ) by {
                assert(steps@[accd.len() - 1 - t] == accd[t]);
            }
            assert forall|t: int| 0 <= t < steps@.len() implies seq_has_step(
                accd,
                #[trigger] steps@[t],
            ) by {
                assert(steps@[t] == accd[accd.len() - 1 - t]);
            }
        }
        a_decided.append(&mut b_decided);
        a_unsure.append(&mut b_unsure);
        let r = Graph { steps, decided: a_decided, unsure: a_unsure };
        proof {
            assert forall|j: int| 0 <= j < a0.len() implies seq_has_step(
                r.steps@,
                #[trigger] a0[j],
            ) by {
                assert(seq_has_step(accd, a0[j]));
                let t = choose|t: int| 0 <= t < accd.len() && accd[t] == a0[j];
                assert(r.steps@[accd.len() - 1 - t] == accd[t]);
            }
            assert forall|j: int|
                0 <= j < b0.len() && !seq_has_id(a0, (#[trigger] b0[j]).ops.node.id) implies
                seq_has_step(r.steps@, b0[j]) by {
                assert(seq_has_step(accd, b0[j]));
                let t = choose|t: int| 0 <= t < accd.len() && accd[t] == b0[j];
                assert(r.steps@[accd.len() - 1 - t] == accd[t]);
            }
            assert forall|id: NodeID| #[trigger] r.contains_step(id) implies seq_has_id(a0, id)
                || seq_has_id(b0, id) by {
                let i = choose|i: int| 0 <= i < r.steps@.len() && r.steps@[i].ops.node.id == id;
                assert(seq_has_step(accd, r.steps@[i]));
                let t = choose|t: int| 0 <= t < accd.len() && accd[t] == r.steps@[i];
                if seq_has_step(a0, accd[t]) {
                    let u = choose|u: int| 0 <= u < a0.len() && a0[u] == accd[t];
                    assert(a0[u].ops.node.id == id);
                } else {
                    let u = choose|u: int| 0 <= u < b0.len() && b0[u] == accd[t];
                    assert(b0[u].ops.node.id == id);
                }
            }
            assert forall|id: NodeID| seq_has_id(a0, id) || seq_has_id(b0, id) implies
                #[trigger] r.contains_step(id) by {
                if seq_has_id(a0, id) {
                    let u = choose|u: int| 0 <= u < a0.len() && a0[u].ops.node.id == id;
                    assert(seq_has_step(r.steps@, a0[u]));
                    let t = choose|t: int| 0 <= t < r.steps@.len() && r.steps@[t] == a0[u];
                } else {
                    let u = choose|u: int| 0 <= u < b0.len() && b0[u].ops.node.id == id;
                    if seq_has_id(a0, id) {
                    } else if seq_has_id(a0, b0[u].ops.node.id) {
                        let w = choose|w: int|
                            0 <= w < a0.len() && a0[w].ops.node.id == b0[u].ops.node.id;
                        assert(seq_has_step(r.steps@, a0[w]));
                        let t = choose|t: int| 0 <= t < r.steps@.len() && r.steps@[t] == a0[w];
                    } else {
                        assert(seq_has_step(r.steps@, b0[u]));
                        let t = choose|t: int| 0 <= t < r.steps@.len() && r.steps@[t] == b0[u];
                    }
                }
            }
            assert forall|i: int| 0 <= i < r.steps@.len() implies seq_has_step(
                a0,
                #[trigger] r.steps@[i],
            ) || seq_has_step(b0, r.steps@[i]) by {
                assert(seq_has_step(accd, r.steps@[i]));
                let t = choose|t: int| 0 <= t < accd.len() && accd[t] == r.steps@[i];
            }
        }
        r
    }
}

/// Source of fresh node identities: hands out strictly increasing values,
/// so a node's identity is always greater than the identities of everything
/// created before it.
pub struct NodeIdGen {
    /// The next identity to hand out.
    pub next: NodeID,
}

impl NodeIdGen {
    /// A source that starts at zero.
    pub fn new() -> (r: NodeIdGen)
        ensures
            r.next == 0,
    {
        NodeIdGen { next: 0 }
    }

    /// Hand out the next identity.
    pub fn fresh(&mut self) -> (id: NodeID)
        requires
            old(self).next < u64::MAX,
        ensures
            id == old(self).next,
            final(self).next == old(self).next + 1,
    {
        let id = self.next;
        self.next = self.next + 1;
        id
    }
}

} // verus!
