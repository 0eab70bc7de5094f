//! The gradient accumulator of one backward pass: a mapping from node
//! identities to gradient tensors, created fresh per pass, mutated only by
//! backward steps, and discarded when the pass ends.

use vstd::prelude::*;
use std::collections::HashMap;
use crate::graph::NodeID;
use crate::tensor::{sat_add, shapes_equal, TensorData};

verus! {

broadcast use vstd::std_specs::hash::group_hash_axioms;

/// Gradients accumulated for the nodes of one backward pass.
pub struct Gradients {
    /// The accumulated gradient of each node that has received one.
    pub entries: HashMap<u64, TensorData>,
}

impl Gradients {
    /// An empty accumulator.
    pub fn new() -> (r: Gradients)
        ensures
            r.entries@ == Map::<u64, TensorData>::empty(),
    {
        Gradients { entries: HashMap::new() }
    }

    /// The gradient accumulated so far for one node, if any.
    pub fn get(&self, id: NodeID) -> (r: Option<&TensorData>)
        ensures
            r is Some <==> self.entries@.contains_key(id),
            r is Some ==> *r->0 == self.entries@[id],
    {
        self.entries.get(&id)
    }

    /// Accumulate a gradient for one node: a first contribution is stored
    /// as it is; a later one of the same shape is added elementwise
    /// (saturating) into the existing entry rather than overwriting it. A
    /// contribution whose shape disagrees with the existing entry signals a
    /// bug in the operation that produced it: the entry is left untouched
    /// and `false` comes back so the caller can fail loudly.
    pub fn register(&mut self, id: NodeID, value: TensorData) -> (ok: bool)
        ensures
            final(self).entries@.contains_key(id),
            forall|k: u64|
                k != id ==> (final(self).entries@.contains_key(k) == old(
                    self,
                ).entries@.contains_key(k)),
            forall|k: u64|
                k != id && old(self).entries@.contains_key(k) ==> final(self).entries@[k] == old(
                    self,
                ).entries@[k],
            !old(self).entries@.contains_key(id) ==> ok && final(self).entries@[id] == value,
            old(self).entries@.contains_key(id) && old(self).entries@[id].shape@ == value.shape@
                && old(self).entries@[id].data@.len() == value.data@.len() ==> {
                &&& ok
                &&& final(self).entries@[id].shape@ == value.shape@
                &&& final(self).entries@[id].data@.len() == value.data@.len()
                &&& forall|i: int|
                    0 <= i < value.data@.len() ==> final(self).entries@[id].data@[i] as int
                        == sat_add(
                        old(self).entries@[id].data@[i] as int,
                        value.data@[i] as int,
                    )
            },
            old(self).entries@.contains_key(id) && !(old(self).entries@[id].shape@ == value.shape@
                && old(self).entries@[id].data@.len() == value.data@.len())
                ==> !ok && final(self).entries@ == old(self).entries@,
    {
        let existing = self.entries.remove(&id);
        match existing {
            Option::None => {
                self.entries.insert(id, value);
                proof {
                    assert(self.entries@ =~= old(self).entries@.insert(id, value));
                }
                true
            }
            Option::Some(present) => {
                if shapes_equal(&present.shape, &value.shape) && present.data.len()
                    == value.data.len() {
                    let sum = present.sat_tensor_add(&value);
                    self.entries.insert(id, sum);
                    true
                } else {
                    self.entries.insert(id, present);
                    proof {
                        assert(self.entries@ =~= old(self).entries@);
                    }
                    false
                }
            }
        }
    }
}

} // verus!
