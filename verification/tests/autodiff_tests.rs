use autodiff_core::backward::{execute_backward, FixedGradBackward, RecalledGradBackward, RetroFill, ZeroGradBackward};
use autodiff_core::broadcast::{broadcast_shape, sum_dim, BroadcastError};
use autodiff_core::checkpoint::{CheckpointError, CheckpointingAction, Checkpointer};
use autodiff_core::grads::Gradients;
use autodiff_core::graph::{ComputingProperty, Graph, Node, NodeIdGen, Requirement};
use autodiff_core::ops::{OpsKind, OpsPrep};
use autodiff_core::tensor::{AutodiffTensor, TensorData};

type Prep = OpsPrep<FixedGradBackward, RetroFill, autodiff_core::ops::Init>;

fn tensor(shape: Vec<usize>, data: Vec<i64>) -> TensorData {
    TensorData { shape, data }
}

fn scalar(v: i64) -> TensorData {
    tensor(Vec::new(), vec![v])
}

fn leaf(
    ids: &mut NodeIdGen,
    requirement: Requirement,
    value: i64,
) -> AutodiffTensor<FixedGradBackward, RetroFill> {
    let node = Node {
        id: ids.fresh(),
        parents: Vec::new(),
        requirement,
        properties: ComputingProperty::Ambiguous,
    };
    AutodiffTensor { primitive: scalar(value), node, graph: Graph::empty() }
}

#[test]
fn untracked_finish_registers_no_step() {
    // An operation none of whose parents requires a gradient stays
    // untracked: no backward step joins the graph and the output node
    // carries no parent edges.
    let mut ids = NodeIdGen::new();
    let a = leaf(&mut ids, Requirement::NoGrad, 2);
    let b = leaf(&mut ids, Requirement::NoGrad, 3);
    let nodes = vec![a.node.duplicate(), b.node.duplicate()];
    let graphs = vec![a.graph, b.graph];
    let prep = Prep::new(nodes, graphs, FixedGradBackward);
    match prep.stateful() {
        OpsKind::TrackedOp(_) => panic!("operation with no grad-requiring parent was tracked"),
        OpsKind::UnTrackedOp(p) => {
            let out = p.finish(scalar(6), &mut ids);
            assert_eq!(out.graph.steps.len(), 0);
            assert_eq!(out.node.parents.len(), 0);
            assert!(matches!(out.node.requirement, Requirement::NoGrad));
        }
    }
}

#[test]
fn tracked_backward_populates_every_grad_parent() {
    // With one parent requiring a gradient the operation is tracked, and
    // replaying the graph backward gives that parent (and only it) a
    // gradient entry.
    let mut ids = NodeIdGen::new();
    let a = leaf(&mut ids, Requirement::Grad, 2);
    let b = leaf(&mut ids, Requirement::NoGrad, 3);
    let a_id = a.node.id;
    let b_id = b.node.id;
    let nodes = vec![a.node.duplicate(), b.node.duplicate()];
    let graphs = vec![a.graph, b.graph];
    let prep = Prep::new(nodes, graphs, FixedGradBackward);
    let out = match prep.stateful() {
        OpsKind::TrackedOp(p) => p.finish(scalar(9), scalar(6), &mut ids),
        OpsKind::UnTrackedOp(_) => panic!("operation with a grad-requiring parent was untracked"),
    };
    assert_eq!(out.graph.steps.len(), 1);
    assert_eq!(out.node.parents, vec![a_id]);
    let root_id = out.node.id;
    let grads = execute_backward(out);
    let ga = grads.get(a_id).expect("grad-requiring parent received no gradient");
    assert_eq!(ga.data, vec![9]);
    assert!(grads.get(b_id).is_none());
    let seed = grads.get(root_id).expect("output node was not seeded");
    assert_eq!(seed.data, vec![1]);
}

#[test]
fn tracked_two_level_graph_reaches_both_parents() {
    // Two chained tracked operations: the backward pass reaches the leaf
    // through the intermediate node, and both receive entries.
    let mut ids = NodeIdGen::new();
    let a = leaf(&mut ids, Requirement::Grad, 2);
    let a_id = a.node.id;
    let prep = Prep::new(vec![a.node.duplicate()], vec![a.graph], FixedGradBackward);
    let mid = match prep.stateful() {
        OpsKind::TrackedOp(p) => p.finish(scalar(5), scalar(4), &mut ids),
        OpsKind::UnTrackedOp(_) => panic!("tracked expected"),
    };
    let mid_id = mid.node.id;
    let prep2 = Prep::new(vec![mid.node.duplicate()], vec![mid.graph], FixedGradBackward);
    let out = match prep2.stateful() {
        OpsKind::TrackedOp(p) => p.finish(scalar(7), scalar(8), &mut ids),
        OpsKind::UnTrackedOp(_) => panic!("tracked expected"),
    };
    assert_eq!(out.graph.steps.len(), 2);
    let grads = execute_backward(out);
    assert_eq!(grads.get(mid_id).expect("intermediate missing").data, vec![7]);
    assert_eq!(grads.get(a_id).expect("leaf missing").data, vec![5]);
}

#[test]
fn checkpoint_records_snapshot_or_recipe() {
    // A compute-bound (or undecided) tensor is checkpointed by value, a
    // memory-bound one by recipe; the action's identity is the node's.
    let mut ids = NodeIdGen::new();
    let a = leaf(&mut ids, Requirement::Grad, 2);
    let mut memory_bound = leaf(&mut ids, Requirement::Grad, 11);
    memory_bound.node.properties = ComputingProperty::MemoryBound {
        retro_forward: RetroFill { value: 42 },
    };
    let prep = Prep::new(vec![a.node.duplicate()], vec![a.graph], FixedGradBackward);
    let mut classified = match prep.stateful() {
        OpsKind::TrackedOp(p) => p,
        OpsKind::UnTrackedOp(_) => panic!("tracked expected"),
    };
    let snap_id = classified.checkpoint(&memory_bound);
    assert_eq!(snap_id, memory_bound.node.id);
    let plain = leaf(&mut ids, Requirement::NoGrad, 7);
    let plain_id = classified.checkpoint(&plain);
    assert_eq!(plain_id, plain.node.id);
    assert_eq!(classified.checkpointing_actions.len(), 2);
    match &classified.checkpointing_actions[0] {
        CheckpointingAction::Recompute { node_ref, retro_forward } => {
            assert_eq!(node_ref.id, snap_id);
            assert_eq!(retro_forward.value, 42);
        }
        CheckpointingAction::Compute { .. } => panic!("memory-bound node captured by value"),
    }
    match &classified.checkpointing_actions[1] {
        CheckpointingAction::Compute { node_ref, state_content } => {
            assert_eq!(node_ref.id, plain_id);
            assert_eq!(state_content.data, vec![7]);
        }
        CheckpointingAction::Recompute { .. } => panic!("compute-bound node captured by recipe"),
    }
    assert_eq!(classified.checkpointing_actions[0].id(), snap_id);
    assert_eq!(classified.checkpointing_actions[1].id(), plain_id);
}

#[test]
fn might_need_fills_the_unsure_buffer() {
    let mut ids = NodeIdGen::new();
    let a = leaf(&mut ids, Requirement::Grad, 2);
    let other = leaf(&mut ids, Requirement::NoGrad, 5);
    let prep = Prep::new(vec![a.node.duplicate()], vec![a.graph], FixedGradBackward);
    let mut classified = match prep.stateful() {
        OpsKind::TrackedOp(p) => p,
        OpsKind::UnTrackedOp(_) => panic!("tracked expected"),
    };
    let id = classified.might_need(&other);
    assert_eq!(id, other.node.id);
    assert_eq!(classified.checkpointing_actions.len(), 0);
    assert_eq!(classified.unsure_checkpointing_actions.len(), 1);
}

#[test]
fn compute_property_transitions() {
    let mut ids = NodeIdGen::new();
    let a = leaf(&mut ids, Requirement::Grad, 2);
    let prep = Prep::new(vec![a.node.duplicate()], vec![Graph::empty()], FixedGradBackward);
    assert!(matches!(prep.compute_property, ComputingProperty::Ambiguous));
    let chosen = prep.compute_bound();
    assert!(matches!(chosen.compute_property, ComputingProperty::ComputeBound));
    let b = leaf(&mut ids, Requirement::Grad, 3);
    let prep2 = Prep::new(vec![b.node.duplicate()], vec![Graph::empty()], FixedGradBackward);
    let chosen2 = prep2.memory_bound(RetroFill { value: 3 });
    match chosen2.compute_property {
        ComputingProperty::MemoryBound { ref retro_forward } => {
            assert_eq!(retro_forward.value, 3)
        }
        _ => panic!("memory_bound did not record the recipe"),
    }
}

#[test]
fn checkpointer_memoizes_recomputation() {
    // Resolving the same recomputable node twice within one pass runs the
    // recorded procedure exactly once: the second resolution is served from
    // the memoized value and moves nothing.
    let stored_node: Node<RetroFill> = Node {
        id: 0,
        parents: Vec::new(),
        requirement: Requirement::Grad,
        properties: ComputingProperty::Ambiguous,
    };
    let pending_node: Node<RetroFill> = Node {
        id: 1,
        parents: vec![0],
        requirement: Requirement::Grad,
        properties: ComputingProperty::Ambiguous,
    };
    let actions = vec![
        CheckpointingAction::Compute { node_ref: stored_node, state_content: scalar(10) },
        CheckpointingAction::Recompute {
            node_ref: pending_node,
            retro_forward: RetroFill { value: 5 },
        },
    ];
    let mut c: Checkpointer<RetroFill> = Checkpointer::from_actions(actions);
    assert_eq!(c.recomputations, 0);
    let first = c.resolve(1).expect("recomputable node failed to resolve");
    assert_eq!(first.data, vec![5]);
    assert_eq!(c.recomputations, 1);
    let second = c.resolve(1).expect("memoized node failed to resolve");
    assert_eq!(second.data, vec![5]);
    assert_eq!(c.recomputations, 1);
    let stored = c.resolve(0).expect("stored node failed to resolve");
    assert_eq!(stored.data, vec![10]);
    assert_eq!(c.recomputations, 1);
}

#[test]
fn checkpointer_resolves_chains_once_each() {
    // A recipe whose parent is itself recomputable: both run exactly once.
    let n0: Node<RetroFill> = Node {
        id: 0,
        parents: Vec::new(),
        requirement: Requirement::Grad,
        properties: ComputingProperty::Ambiguous,
    };
    let n1: Node<RetroFill> = Node {
        id: 1,
        parents: vec![0],
        requirement: Requirement::Grad,
        properties: ComputingProperty::Ambiguous,
    };
    let n2: Node<RetroFill> = Node {
        id: 2,
        parents: vec![1],
        requirement: Requirement::Grad,
        properties: ComputingProperty::Ambiguous,
    };
    let actions = vec![
        CheckpointingAction::Compute { node_ref: n0, state_content: scalar(10) },
        CheckpointingAction::Recompute { node_ref: n1, retro_forward: RetroFill { value: 5 } },
        CheckpointingAction::Recompute { node_ref: n2, retro_forward: RetroFill { value: 6 } },
    ];
    let mut c: Checkpointer<RetroFill> = Checkpointer::from_actions(actions);
    let v = c.resolve(2).expect("chain failed to resolve");
    assert_eq!(v.data, vec![6]);
    assert_eq!(c.recomputations, 2);
    c.resolve(2).expect("memoized chain failed");
    c.resolve(1).expect("memoized parent failed");
    assert_eq!(c.recomputations, 2);
}

#[test]
fn checkpointer_missing_node_fails_loudly() {
    let mut c: Checkpointer<RetroFill> = Checkpointer::from_actions(Vec::new());
    match c.resolve(9) {
        Err(CheckpointError::NotRecorded { id }) => assert_eq!(id, 9),
        _ => panic!("a lookup with no recorded action must fail"),
    }
}

#[test]
fn checkpointer_rejects_forward_reference() {
    // A recipe naming a parent not older than the node cannot come from a
    // forward-built DAG and is rejected.
    let bad: Node<RetroFill> = Node {
        id: 1,
        parents: vec![2],
        requirement: Requirement::Grad,
        properties: ComputingProperty::Ambiguous,
    };
    let actions = vec![CheckpointingAction::Recompute {
        node_ref: bad,
        retro_forward: RetroFill { value: 5 },
    }];
    let mut c: Checkpointer<RetroFill> = Checkpointer::from_actions(actions);
    match c.resolve(1) {
        Err(CheckpointError::Unresolvable { id }) => assert_eq!(id, 1),
        _ => panic!("a forward reference must be rejected"),
    }
}

#[test]
fn checkpointed_value_flows_through_backward() {
    // Full pipeline: a memory-bound parent is checkpointed by recipe during
    // preparation; at backward time the checkpointer rebuilds its value
    // through the recorded procedure and the backward step hands it to the
    // parent as its gradient.
    type RecallPrep = OpsPrep<RecalledGradBackward, RetroFill, autodiff_core::ops::Init>;
    let mut ids = NodeIdGen::new();
    let node = Node {
        id: ids.fresh(),
        parents: Vec::new(),
        requirement: Requirement::Grad,
        properties: ComputingProperty::MemoryBound { retro_forward: RetroFill { value: 33 } },
    };
    let a: AutodiffTensor<RecalledGradBackward, RetroFill> =
        AutodiffTensor { primitive: scalar(2), node, graph: Graph::empty() };
    let a_id = a.node.id;
    let prep = RecallPrep::new(vec![a.node.duplicate()], vec![Graph::empty()], RecalledGradBackward);
    let mut prep = match prep.stateful() {
        OpsKind::TrackedOp(p) => p,
        OpsKind::UnTrackedOp(_) => panic!("tracked expected"),
    };
    let checkpointed = prep.checkpoint(&a);
    assert_eq!(checkpointed, a_id);
    let out = prep.finish(checkpointed, scalar(1), &mut ids);
    assert_eq!(out.graph.decided.len(), 1);
    let grads = execute_backward(out);
    assert_eq!(grads.get(a_id).expect("checkpointed parent missing").data, vec![33]);
}

#[test]
fn stateless_tracked_and_untracked() {
    type StatelessPrep = OpsPrep<ZeroGradBackward, RetroFill, autodiff_core::ops::Init>;
    let mut ids = NodeIdGen::new();
    // Untracked: no step joins the graph.
    let node_a = Node::<RetroFill> {
        id: ids.fresh(),
        parents: Vec::new(),
        requirement: Requirement::NoGrad,
        properties: ComputingProperty::Ambiguous,
    };
    let prep = StatelessPrep::new(vec![node_a], vec![Graph::empty()], ZeroGradBackward);
    let out = prep.stateless(scalar(1), &mut ids);
    assert_eq!(out.graph.steps.len(), 0);
    // Tracked: the step is registered and backward reaches the parent.
    let node_b = Node::<RetroFill> {
        id: ids.fresh(),
        parents: Vec::new(),
        requirement: Requirement::Grad,
        properties: ComputingProperty::Ambiguous,
    };
    let b_id = node_b.id;
    let prep2 = StatelessPrep::new(vec![node_b], vec![Graph::empty()], ZeroGradBackward);
    let out2 = prep2.stateless(scalar(2), &mut ids);
    assert_eq!(out2.graph.steps.len(), 1);
    let grads = execute_backward(out2);
    assert_eq!(grads.get(b_id).unwrap().data, vec![0]);
}

#[test]
fn filled_builds_constant_tensors() {
    let t = TensorData::filled(vec![2, 3], 7).unwrap();
    assert_eq!(t.shape, vec![2, 3]);
    assert_eq!(t.data, vec![7, 7, 7, 7, 7, 7]);
}

#[test]
fn gradients_accumulate_by_addition() {
    let mut g = Gradients::new();
    assert!(g.register(3, tensor(vec![2], vec![1, 2])));
    assert!(g.register(3, tensor(vec![2], vec![10, 20])));
    assert_eq!(g.get(3).unwrap().data, vec![11, 22]);
    // A mismatched shape leaves the entry untouched and reports failure.
    assert!(!g.register(3, tensor(vec![3], vec![1, 2, 3])));
    assert_eq!(g.get(3).unwrap().data, vec![11, 22]);
    assert!(g.get(4).is_none());
}

#[test]
fn gradients_addition_saturates() {
    let mut g = Gradients::new();
    assert!(g.register(1, tensor(vec![1], vec![i64::MAX])));
    assert!(g.register(1, tensor(vec![1], vec![1])));
    assert_eq!(g.get(1).unwrap().data, vec![i64::MAX]);
}

#[test]
fn broadcast_reduces_first_axis() {
    // Grad of shape [2, 3, 4] reduced to [1, 3, 4]: each cell of the
    // result is the sum over the first axis.
    let mut data = Vec::new();
    for x in 0..24 {
        data.push(x as i64);
    }
    let grad = tensor(vec![2, 3, 4], data);
    let target = vec![1usize, 3, 4];
    let r = broadcast_shape(grad, &target).expect("valid broadcast rejected");
    assert_eq!(r.shape, vec![1, 3, 4]);
    let mut expected = Vec::new();
    for i in 0..3 {
        for j in 0..4 {
            let a = (i * 4 + j) as i64;
            let b = (12 + i * 4 + j) as i64;
            expected.push(a + b);
        }
    }
    assert_eq!(r.data, expected);
}

#[test]
fn broadcast_reduces_two_axes() {
    // Grad [2, 3, 4] to target [1, 3, 1]: both axis 0 and axis 2 collapse.
    let mut data = Vec::new();
    for x in 0..24 {
        data.push(x as i64);
    }
    let grad = tensor(vec![2, 3, 4], data);
    let target = vec![1usize, 3, 1];
    let r = broadcast_shape(grad, &target).expect("valid broadcast rejected");
    assert_eq!(r.shape, vec![1, 3, 1]);
    let mut expected = Vec::new();
    for i in 0..3 {
        let mut s = 0i64;
        for k in 0..2 {
            for j in 0..4 {
                s += (k * 12 + i * 4 + j) as i64;
            }
        }
        expected.push(s);
    }
    assert_eq!(r.data, expected);
}

#[test]
fn broadcast_mismatch_is_fatal_not_truncated() {
    // Grad [2, 3, 4] against target [2, 2, 4]: the middle extent disagrees
    // and is not one, so the reduction reports the offending axis instead
    // of truncating.
    let mut data = Vec::new();
    for x in 0..24 {
        data.push(x as i64);
    }
    let grad = tensor(vec![2, 3, 4], data);
    let target = vec![2usize, 2, 4];
    match broadcast_shape(grad, &target) {
        Err(BroadcastError { axis, grad_extent, target_extent }) => {
            assert_eq!(axis, 1);
            assert_eq!(grad_extent, 3);
            assert_eq!(target_extent, 2);
        }
        Ok(_) => panic!("mismatched broadcast must abort, never silently truncate"),
    }
}

#[test]
fn broadcast_identity_when_shapes_agree() {
    let grad = tensor(vec![2, 2], vec![1, 2, 3, 4]);
    let target = vec![2usize, 2];
    let r = broadcast_shape(grad, &target).expect("identity broadcast rejected");
    assert_eq!(r.shape, vec![2, 2]);
    assert_eq!(r.data, vec![1, 2, 3, 4]);
}

#[test]
fn sum_dim_middle_axis() {
    let grad = tensor(vec![2, 3, 2], (0..12).collect());
    let r = sum_dim(&grad, 1);
    assert_eq!(r.shape, vec![2, 1, 2]);
    assert_eq!(r.data, vec![6, 9, 24, 27]);
}

#[test]
fn sum_dim_empty_axis_gives_zeros() {
    let grad = tensor(vec![2, 0, 2], Vec::new());
    let r = sum_dim(&grad, 1);
    assert_eq!(r.shape, vec![2, 1, 2]);
    assert_eq!(r.data, vec![0, 0, 0, 0]);
}
