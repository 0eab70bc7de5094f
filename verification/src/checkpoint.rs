//! The checkpointing subsystem: trades memory for recomputation. A node is
//! checkpointed either by value (a snapshot taken during preparation) or by
//! recipe (a recorded recomputation procedure, run at most once per backward
//! pass and memoized).

use vstd::prelude::*;
use std::collections::HashMap;
use crate::graph::{Node, NodeID};
use crate::tensor::TensorData;

verus! {

broadcast use vstd::std_specs::hash::group_hash_axioms;

/// A recorded recomputation procedure: rebuilds a node's value from the
/// values of the node's recorded parents. Operation implementers provide
/// the procedure; the checkpointer decides when (and whether) it runs.
pub trait RetroForward: Sized {
    /// An exact copy, so one recorded procedure can be shared between a
    /// node's computing property and the actions that reference it.
    fn duplicate(&self) -> (r: Self)
        ensures
            r == *self,
    ;

    /// Rebuild the value from the resolved values of the recorded parents,
    /// in recording order. Nothing is promised of the result; the
    /// checkpointer memoizes whatever comes back.
    fn rebuild(&self, inputs: &Vec<TensorData>) -> TensorData;
}

/// A checkpointing decision taken while an operation is prepared: either
/// the value was captured now, or only the recipe to rebuild it was.
pub enum CheckpointingAction<R> {
    /// The value was captured at preparation time.
    Compute {
        /// The node the captured value belongs to.
        node_ref: Node<R>,
        /// The captured value.
        state_content: TensorData,
    },
    /// Only the recipe was captured; the value is rebuilt on demand from
    /// the node's own recorded parents.
    Recompute {
        /// The node the recipe belongs to.
        node_ref: Node<R>,
        /// The recorded recomputation procedure.
        retro_forward: R,
    },
}

impl<R> CheckpointingAction<R> {
    /// The identity of the node this action belongs to; an action's
    /// identity always equals its node's identity.
    pub fn id(&self) -> (r: NodeID)
        ensures
            r == self.spec_id(),
    {
        match self {
            CheckpointingAction::Compute { node_ref, state_content: _ } => node_ref.id,
            CheckpointingAction::Recompute { node_ref, retro_forward: _ } => node_ref.id,
        }
    }

    /// The identity of the node this action belongs to.
    pub open spec fn spec_id(&self) -> NodeID {
        match self {
            CheckpointingAction::Compute { node_ref, .. } => node_ref.id,
            CheckpointingAction::Recompute { node_ref, .. } => node_ref.id,
        }
    }
}

/// What the checkpointer holds for one node: the value itself, or the
/// recipe and the parents to rebuild it from.
pub enum CheckpointEntry<R> {
    /// The value is available.
    Stored {
        /// The stored value.
        value: TensorData,
    },
    /// The value has not been built this pass; only the recipe is held.
    Pending {
        /// The recorded recomputation procedure.
        retro: R,
        /// Identities of the parents the recipe reads, in order.
        parents: Vec<NodeID>,
    },
}

/// Why a checkpoint lookup failed; a logic error in the owning operation,
/// reported loudly with the offending node.
#[derive(Clone, Copy, PartialEq, Eq, Structural, Debug)]
pub enum CheckpointError {
    /// The node has no recorded action at all.
    NotRecorded {
        /// The node that was asked for.
        id: NodeID,
    },
    /// A recipe references a parent that was not created before the node,
    /// so the recorded structure cannot be a forward-built DAG.
    Unresolvable {
        /// The node whose recipe is broken.
        id: NodeID,
    },
}

/// Every entry stored in `m1` is still stored, unchanged, in `m2`: a value
/// materialized during a backward pass stays materialized for the rest of
/// the pass.
pub open spec fn stored_preserved<R>(
    m1: Map<u64, CheckpointEntry<R>>,
    m2: Map<u64, CheckpointEntry<R>>,
) -> bool {
    forall|k: u64|
        m1.contains_key(k) && m1[k] is Stored ==> m2.contains_key(k) && m2[k] == m1[k]
}

/// A pending entry whose parents are all materialized and all older than
/// the node itself: the recipe can run immediately.
pub open spec fn ready_to_recompute<R>(m: Map<u64, CheckpointEntry<R>>, id: u64) -> bool {
    &&& m.contains_key(id)
    &&& m[id] is Pending
    &&& forall|j: int|
        0 <= j < m[id]->parents@.len() ==> (m[id]->parents@[j] < id && m.contains_key(
            #[trigger] m[id]->parents@[j],
        ) && m[m[id]->parents@[j]] is Stored)
}

/// Resolves node identities to values during one backward pass: a stored
/// value is returned as it is; a pending one is rebuilt through its recipe,
/// memoized, and every later resolution returns the memoized value without
/// running the recipe again.
pub struct Checkpointer<R> {
    /// What is held for each checkpointed node.
    pub entries: HashMap<u64, CheckpointEntry<R>>,
    /// How many times a recipe has been run this pass; saturates rather
    /// than wrap at the top of its range.
    pub recomputations: u64,
}

/// The entry an action stands for: a stored value for a captured snapshot,
/// a pending recipe (reading the node's own recorded parents) otherwise.
pub open spec fn entry_of<R>(a: CheckpointingAction<R>) -> CheckpointEntry<R> {
    match a {
        CheckpointingAction::Compute { node_ref: _, state_content } => CheckpointEntry::Stored {
            value: state_content,
        },
        CheckpointingAction::Recompute { node_ref, retro_forward } => CheckpointEntry::Pending {
            retro: retro_forward,
            parents: node_ref.parents,
        },
    }
}

/// The checkpointer state a sequence of actions builds, first to last: for
/// each node the latest action wins.
pub open spec fn actions_to_map<R>(s: Seq<CheckpointingAction<R>>) -> Map<u64, CheckpointEntry<R>>
    decreases s.len(),
{
    if s.len() == 0 {
        Map::empty()
    } else {
        actions_to_map(s.drop_last()).insert(s.last().spec_id(), entry_of(s.last()))
    }
}

impl<R: RetroForward> Checkpointer<R> {
    /// An empty checkpointer with no recipe runs recorded.
    pub fn new() -> (r: Checkpointer<R>)
        ensures
            r.entries@ == Map::<u64, CheckpointEntry<R>>::empty(),
            r.recomputations == 0,
    {
        Checkpointer { entries: HashMap::new(), recomputations: 0 }
    }

    /// Build the checkpointer of one backward pass from the decided actions
    /// queued during the forward pass, first to last.
    pub fn from_actions(actions: Vec<CheckpointingAction<R>>) -> (r: Checkpointer<R>)
        ensures
            r.entries@ == actions_to_map(actions@),
            r.recomputations == 0,
    {
        let ghost actions0 = actions@;
        let mut remaining = actions;
        let mut out: Checkpointer<R> = Checkpointer::new();
        let n = remaining.len();
        let mut done: usize = 0;
        proof {
            assert(actions_to_map(actions0.subrange(0, 0)) =~= Map::<
                u64,
                CheckpointEntry<R>,
            >::empty());
        }
        while remaining.len() > 0
            invariant
                done + remaining@.len() == n,
                n == actions0.len(),
                remaining@ == actions0.subrange(done as int, n as int),
                out.entries@ == actions_to_map(actions0.subrange(0, done as int)),
                out.recomputations == 0,
            decreases remaining@.len(),
        {
            let a = remaining.remove(0);
            proof {
                assert(a == actions0[done as int]);
                assert(remaining@ =~= actions0.subrange(done + 1, n as int));
            }
            match a {
                CheckpointingAction::Compute { node_ref, state_content } => {
                    let id = node_ref.id;
                    out.entries.insert(id, CheckpointEntry::Stored { value: state_content });
                }
                CheckpointingAction::Recompute { node_ref, retro_forward } => {
                    let id = node_ref.id;
                    out.entries.insert(
                        id,
                        CheckpointEntry::Pending { retro: retro_forward, parents: node_ref.parents },
                    );
                }
            }
            done = done + 1;
            proof {
                assert(actions0.subrange(0, done - 1) =~= actions0.subrange(
                    0,
                    done as int,
                ).drop_last());
                assert(out.entries@ =~= actions_to_map(actions0.subrange(0, done as int)));
            }
        }
        proof {
            assert(actions0.subrange(0, n as int) =~= actions0);
        }
        out
    }

    /// Resolve one node to a value. A stored value is returned unchanged
    /// and nothing else moves — in particular no recipe runs, which is the
    /// memoization guarantee. A pending value is rebuilt after its parents
    /// are resolved (recursively), stored, and returned; the recipe counter
    /// grows by exactly one for this node. A node with no entry, or a
    /// recipe whose parent is not older than the node, fails loudly.
    pub fn resolve(&mut self, id: NodeID) -> (r: Result<TensorData, CheckpointError>)
        ensures
            stored_preserved(old(self).entries@, final(self).entries@),
            forall|k: u64|
                old(self).entries@.contains_key(k) ==> final(self).entries@.contains_key(k),
            forall|k: u64|
                final(self).entries@.contains_key(k) ==> old(self).entries@.contains_key(k),
            final(self).recomputations >= old(self).recomputations,
            !old(self).entries@.contains_key(id) ==> r == Err::<TensorData, CheckpointError>(
                CheckpointError::NotRecorded { id },
            ) && final(self).entries@ == old(self).entries@ && final(self).recomputations == old(
                self,
            ).recomputations,
            old(self).entries@.contains_key(id) && old(self).entries@[id] is Stored ==> {
                &&& r is Ok
                &&& r->Ok_0.shape@ == old(self).entries@[id]->value.shape@
                &&& r->Ok_0.data@ == old(self).entries@[id]->value.data@
                &&& final(self).entries@ == old(self).entries@
                &&& final(self).recomputations == old(self).recomputations
            },
            r is Ok ==> final(self).entries@.contains_key(id) && final(self).entries@[id]
                is Stored && final(self).entries@[id]->value.shape@ == r->Ok_0.shape@
                && final(self).entries@[id]->value.data@ == r->Ok_0.data@,
            ready_to_recompute(old(self).entries@, id) ==> {
                &&& r is Ok
                &&& final(self).recomputations as int == (if old(self).recomputations == u64::MAX {
                    u64::MAX as int
                } else {
                    old(self).recomputations + 1
                })
                &&& forall|k: u64|
                    k != id && old(self).entries@.contains_key(k)
                        ==> final(self).entries@.contains_key(k) && final(self).entries@[k] == old(
                        self,
                    ).entries@[k]
                &&& forall|k: u64|
                    final(self).entries@.contains_key(k) ==> k == id || old(
                        self,
                    ).entries@.contains_key(k)
            },
        decreases id,
    {
        let entry = self.entries.remove(&id);
        match entry {
            Option::None => {
                proof {
                    assert(self.entries@ =~= old(self).entries@);
                }
                Err(CheckpointError::NotRecorded { id })
            }
            Option::Some(CheckpointEntry::Stored { value }) => {
                let out = value.duplicate();
                self.entries.insert(id, CheckpointEntry::Stored { value });
                proof {
                    assert(self.entries@ =~= old(self).entries@);
                }
                Ok(out)
            }
            Option::Some(CheckpointEntry::Pending { retro, parents }) => {
                let ghost removed = self.entries@;
                let mut values: Vec<TensorData> = Vec::new();
                let mut k: usize = 0;
                let ghost happy = ready_to_recompute(old(self).entries@, id);
                while k < parents.len()
                    invariant
                        k <= parents.len(),
                        removed == old(self).entries@.remove(id),
                        old(self).entries@.contains_key(id),
                        old(self).entries@[id] is Pending,
                        parents@ == old(self).entries@[id]->parents@,
                        happy == ready_to_recompute(old(self).entries@, id),
                        stored_preserved(old(self).entries@, self.entries@),
                        forall|q: u64|
                            old(self).entries@.contains_key(q) && q != id ==> self.entries@.contains_key(q),
                        forall|q: u64|
                            self.entries@.contains_key(q) ==> old(self).entries@.contains_key(q),
                        !self.entries@.contains_key(id),
                        self.recomputations >= old(self).recomputations,
                        happy ==> self.entries@ == removed && self.recomputations == old(
                            self,
                        ).recomputations,
                    decreases parents.len() - k,
                {
                    let p = parents[k];
                    if p >= id {
                        self.entries.insert(id, CheckpointEntry::Pending { retro, parents });
                        proof {
                            assert(!happy);
                        }
                        return Err(CheckpointError::Unresolvable { id });
                    }
                    let resolved = self.resolve(p);
                    match resolved {
                        Result::Ok(v) => {
                            proof {
                                if happy {
                                    assert(removed.contains_key(p) && removed[p] is Stored);
                                }
                            }
                            values.push(v);
                        }
                        Result::Err(e) => {
                            proof {
                                if happy {
                                    assert(removed.contains_key(p) && removed[p] is Stored);
                                }
                            }
                            self.entries.insert(id, CheckpointEntry::Pending { retro, parents });
                            return Err(e);
                        }
                    }
                    k = k + 1;
                }
                let built = retro.rebuild(&values);
                let stored = built.duplicate();
                self.entries.insert(id, CheckpointEntry::Stored { value: stored });
                self.recomputations = self.recomputations.saturating_add(1);
                proof {
                    if happy {
                        assert(self.entries@ =~= old(self).entries@.insert(
                            id,
                            CheckpointEntry::Stored { value: stored },
                        ));
                    }
                }
                Ok(built)
            }
        }
    }
}

} // verus!
