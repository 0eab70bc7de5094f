//! Gradient broadcast reduction: when a forward operation expanded a
//! smaller tensor to a larger shape, the backward gradient is summed along
//! each broadcast dimension, collapsing it back to extent one, so the chain
//! rule accumulates correctly. A dimension that disagrees without the
//! target extent being one is a contract violation and is reported, never
//! silently truncated.

use vstd::prelude::*;
use vstd::arithmetic::div_mod::lemma_fundamental_div_mod_converse;
use vstd::arithmetic::mul::lemma_mul_inequality;
use crate::tensor::{
    lemma_shape_product_concat, lemma_shape_product_nonneg, lemma_shape_product_prefix_bound,
    lemma_shape_product_zero, sat_add, sat_add_i64, shape_product, TensorData,
};

verus! {

/// Saturating sum of the `count` elements `data[start]`, `data[start +
/// step]`, ..., folded in index order.
pub open spec fn col_sum(data: Seq<i64>, start: int, step: int, count: int) -> int
    decreases count,
{
    if count <= 0 {
        0
    } else {
        sat_add(col_sum(data, start, step, count - 1), data[start + (count - 1) * step] as int)
    }
}

/// The shape after summing along `dim`: that extent collapses to one.
pub open spec fn reduce_dim_shape(shape: Seq<usize>, dim: int) -> Seq<usize> {
    shape.update(dim, 1usize)
}

/// The storage after summing along `dim`: position `k` of the result holds
/// the saturating sum over that axis of the source.
#[verifier::opaque]
pub open spec fn reduce_dim_data(shape: Seq<usize>, data: Seq<i64>, dim: int) -> Seq<i64> {
    let outer = shape_product(shape.subrange(0, dim));
    let d = shape[dim] as int;
    let inner = shape_product(shape.subrange(dim + 1, shape.len() as int));
    Seq::new(
        (outer * inner) as nat,
        |k: int| col_sum(data, (k / inner) * d * inner + (k % inner), inner, d) as i64,
    )
}

/// Sum a tensor along one dimension, collapsing it to extent one. The
/// result must still fit in the address space, which only a degenerate
/// zero-extent axis could violate.
#[verifier::rlimit(30)]
#[verifier::loop_isolation(false)]
pub fn sum_dim(t: &TensorData, dim: usize) -> (r: TensorData)
    requires
        t.wf(),
        dim < t.shape@.len(),
        shape_product(reduce_dim_shape(t.shape@, dim as int)) <= usize::MAX,
    ensures
        r.wf(),
        r.shape@ == reduce_dim_shape(t.shape@, dim as int),
        r.data@ == reduce_dim_data(t.shape@, t.data@, dim as int),
{
    let rank = t.shape.len();
    let d = t.shape[dim];
    let ghost outer_s = shape_product(t.shape@.subrange(0, dim as int));
    let ghost inner_s = shape_product(t.shape@.subrange(dim + 1, rank as int));
    proof {
        lemma_shape_product_nonneg(t.shape@.subrange(0, dim as int));
        lemma_shape_product_nonneg(t.shape@.subrange(dim + 1, rank as int));
        assert(t.shape@ =~= t.shape@.subrange(0, dim as int) + seq![t.shape@[dim as int]]
            + t.shape@.subrange(dim + 1, rank as int));
        lemma_shape_product_concat(
            t.shape@.subrange(0, dim as int) + seq![t.shape@[dim as int]],
            t.shape@.subrange(dim + 1, rank as int),
        );
        lemma_shape_product_concat(t.shape@.subrange(0, dim as int), seq![t.shape@[dim as int]]);
        assert(seq![t.shape@[dim as int]].drop_first() =~= Seq::<usize>::empty());
        assert(shape_product(Seq::<usize>::empty()) == 1);
        assert(shape_product(seq![t.shape@[dim as int]]) == d * 1);
        assert(t.data@.len() == (outer_s * d) * inner_s);
        let us = reduce_dim_shape(t.shape@, dim as int);
        assert(us =~= t.shape@.subrange(0, dim as int) + seq![1usize] + t.shape@.subrange(
            dim + 1,
            rank as int,
        ));
        lemma_shape_product_concat(
            t.shape@.subrange(0, dim as int) + seq![1usize],
            t.shape@.subrange(dim + 1, rank as int),
        );
        lemma_shape_product_concat(t.shape@.subrange(0, dim as int), seq![1usize]);
        assert(seq![1usize].drop_first() =~= Seq::<usize>::empty());
        assert(shape_product(seq![1usize]) == 1 * 1);
        assert(shape_product(us) == (outer_s * 1) * inner_s);
        assert(outer_s * 1 == outer_s) by (nonlinear_arith);
        assert(shape_product(us) == outer_s * inner_s);
    }
    // Extent product of the trailing dimensions.
    let mut inner: usize = 1;
    let mut has_inner_zero = false;
    let mut i: usize = dim + 1;
    proof {
        assert(t.shape@.subrange(dim + 1, dim + 1) =~= Seq::<usize>::empty());
    }
    while i < rank
        invariant
            dim + 1 <= i <= rank,
            rank == t.shape@.len(),
            !has_inner_zero ==> inner == shape_product(t.shape@.subrange(dim + 1, i as int)),
            has_inner_zero ==> exists|z: int| dim + 1 <= z < i && t.shape@[z] == 0,
        decreases rank - i,
    {
        if has_inner_zero || t.shape[i] == 0 {
            if t.shape[i] == 0 {
                proof {
                    assert(t.shape@[i as int] == 0);
                }
                has_inner_zero = true;
            }
        } else {
            proof {
                assert(t.shape@.subrange(dim + 1, i + 1) =~= t.shape@.subrange(dim + 1, i as int)
                    + seq![t.shape@[i as int]]);
                lemma_shape_product_concat(
                    t.shape@.subrange(dim + 1, i as int),
                    seq![t.shape@[i as int]],
                );
                assert(seq![t.shape@[i as int]].drop_first() =~= Seq::<usize>::empty());
                assert(shape_product(seq![t.shape@[i as int]]) == t.shape@[i as int] * 1);
            }
            match inner.checked_mul(t.shape[i]) {
                Option::Some(m) => {
                    inner = m;
                }
                Option::None => {
                    // The trailing extents already exceed the address
                    // space: either a later zero extent collapses the
                    // product, or no leading block can exist at all.
                    let later_zero = scan_zero(t, i + 1, rank);
                    proof {
                        if later_zero {
                            let z = choose|z: int| i + 1 <= z < rank && t.shape@[z] == 0;
                            lemma_shape_product_zero(
                                t.shape@.subrange(dim + 1, rank as int),
                                z - (dim + 1),
                            );
                            assert(outer_s * inner_s == 0) by (nonlinear_arith)
                                requires
                                    inner_s == 0,
                            ;
                        } else {
                            assert(inner_s > usize::MAX) by {
                                lemma_shape_product_prefix_bound(
                                    t.shape@.subrange(dim + 1, rank as int),
                                    i + 1 - (dim + 1),
                                );
                                assert(t.shape@.subrange(dim + 1, rank as int).subrange(
                                    0,
                                    i + 1 - (dim + 1),
                                ) =~= t.shape@.subrange(dim + 1, i + 1));
                            }
                            assert(outer_s == 0) by (nonlinear_arith)
                                requires
                                    outer_s * inner_s <= usize::MAX,
                                    inner_s > usize::MAX,
                                    outer_s >= 0,
                                    inner_s >= 0,
                            ;
                            assert(outer_s * inner_s == 0) by (nonlinear_arith)
                                requires
                                    outer_s == 0,
                            ;
                        }
                    }
                    let empty_out = finish_sum(t, dim, 0, 0, d);
                    return empty_out;
                }
            }
        }
        i = i + 1;
    }
    if has_inner_zero {
        proof {
            let z = choose|z: int| dim + 1 <= z < rank && t.shape@[z] == 0;
            lemma_shape_product_zero(
                t.shape@.subrange(dim + 1, rank as int),
                z - (dim + 1),
            );
            assert(inner_s == 0);
            assert(outer_s * inner_s == 0) by (nonlinear_arith)
                requires
                    inner_s == 0,
            ;
        }
        let empty_out = finish_sum(t, dim, 0, 0, d);
        return empty_out;
    }
    proof {
        assert(inner == inner_s);
    }
    if inner == 0 {
        proof {
            assert(outer_s * inner_s == 0) by (nonlinear_arith)
                requires
                    inner_s == 0,
            ;
        }
        let empty_out = finish_sum(t, dim, 0, 0, d);
        return empty_out;
    }
    // Extent product of the leading dimensions.
    let mut outer: usize = 1;
    let mut j: usize = 0;
    proof {
        assert(t.shape@.subrange(0, 0) =~= Seq::<usize>::empty());
    }
    while j < dim
        invariant
            j <= dim,
            dim < rank,
            rank == t.shape@.len(),
            outer == shape_product(t.shape@.subrange(0, j as int)),
            inner == inner_s,
            inner >= 1,
            outer_s * inner_s <= usize::MAX,
            inner_s == shape_product(t.shape@.subrange(dim + 1, rank as int)),
            outer_s == shape_product(t.shape@.subrange(0, dim as int)),
        decreases dim - j,
    {
        proof {
            assert(t.shape@.subrange(0, j + 1) =~= t.shape@.subrange(0, j as int)
                + seq![t.shape@[j as int]]);
            lemma_shape_product_concat(t.shape@.subrange(0, j as int), seq![t.shape@[j as int]]);
            assert(seq![t.shape@[j as int]].drop_first() =~= Seq::<usize>::empty());
            assert(shape_product(seq![t.shape@[j as int]]) == t.shape@[j as int] * 1);
        }
        match outer.checked_mul(t.shape[j]) {
            Option::Some(m) => {
                outer = m;
            }
            Option::None => {
                let prefix_zero = scan_zero(t, j + 1, dim);
                if prefix_zero {
                    proof {
                        let z = choose|z: int| j + 1 <= z < dim && t.shape@[z] == 0;
                        lemma_shape_product_zero(t.shape@.subrange(0, dim as int), z);
                        assert(outer_s == 0);
                        assert(outer_s * inner_s == 0) by (nonlinear_arith)
                            requires
                                outer_s == 0,
                        ;
                    }
                    let empty_out = finish_sum(t, dim, 0, inner, d);
                    return empty_out;
                } else {
                    proof {
                        lemma_shape_product_prefix_bound(
                            t.shape@.subrange(0, dim as int),
                            j + 1,
                        );
                        assert(t.shape@.subrange(0, dim as int).subrange(0, j + 1)
                            =~= t.shape@.subrange(0, j + 1));
                        assert(outer_s > usize::MAX);
                        assert(outer_s * inner_s > usize::MAX) by (nonlinear_arith)
                            requires
                                outer_s > usize::MAX,
                                inner_s >= 1,
                        ;
                        assert(false);
                    }
                    let empty_out = finish_sum(t, dim, 0, inner, d);
                    return empty_out;
                }
            }
        }
        j = j + 1;
    }
    proof {
        assert(outer == outer_s);
    }
    finish_sum(t, dim, outer, inner, d)
}

/// Whether some extent in positions `from..to` of the shape is zero.
fn scan_zero(t: &TensorData, from: usize, to: usize) -> (r: bool)
    requires
        to <= t.shape@.len(),
    ensures
        r == exists|z: int| from <= z < to && t.shape@[z] == 0,
{
    let mut i: usize = from;
    if from >= to {
        return false;
    }
    while i < to
        invariant
            from <= i <= to,
            to <= t.shape@.len(),
            forall|z: int| from <= z < i ==> t.shape@[z] != 0,
        decreases to - i,
    {
        if t.shape[i] == 0 {
            proof {
                assert(t.shape@[i as int] == 0);
            }
            return true;
        }
        i = i + 1;
    }
    false
}

/// The accumulation loops of `sum_dim`, once the block sizes are known:
/// for each leading block and each trailing position, fold the saturating
/// sum over the collapsed axis.
#[verifier::rlimit(60)]
#[verifier::loop_isolation(false)]
fn finish_sum(t: &TensorData, dim: usize, outer: usize, inner: usize, d: usize) -> (r: TensorData)
    requires
        t.wf(),
        dim < t.shape@.len(),
        d == t.shape@[dim as int],
        outer == shape_product(t.shape@.subrange(0, dim as int)) || (outer == 0 && shape_product(
            t.shape@.subrange(0, dim as int),
        ) * shape_product(t.shape@.subrange(dim + 1, t.shape@.len() as int)) == 0),
        outer as int * inner as int == shape_product(t.shape@.subrange(0, dim as int))
            * shape_product(t.shape@.subrange(dim + 1, t.shape@.len() as int)),
        inner == shape_product(t.shape@.subrange(dim + 1, t.shape@.len() as int)) || outer == 0,
        shape_product(reduce_dim_shape(t.shape@, dim as int)) <= usize::MAX,
    ensures
        r.wf(),
        r.shape@ == reduce_dim_shape(t.shape@, dim as int),
        r.data@ == reduce_dim_data(t.shape@, t.data@, dim as int),
{
    let rank = t.shape.len();
    let dl = t.data.len();
    let ghost outer_s = shape_product(t.shape@.subrange(0, dim as int));
    let ghost inner_s = shape_product(t.shape@.subrange(dim + 1, rank as int));
    proof {
        lemma_shape_product_nonneg(t.shape@.subrange(0, dim as int));
        lemma_shape_product_nonneg(t.shape@.subrange(dim + 1, rank as int));
        assert(t.shape@ =~= t.shape@.subrange(0, dim as int) + seq![t.shape@[dim as int]]
            + t.shape@.subrange(dim + 1, rank as int));
        lemma_shape_product_concat(
            t.shape@.subrange(0, dim as int) + seq![t.shape@[dim as int]],
            t.shape@.subrange(dim + 1, rank as int),
        );
        lemma_shape_product_concat(t.shape@.subrange(0, dim as int), seq![t.shape@[dim as int]]);
        assert(seq![t.shape@[dim as int]].drop_first() =~= Seq::<usize>::empty());
        assert(shape_product(Seq::<usize>::empty()) == 1);
        assert(shape_product(seq![t.shape@[dim as int]]) == d * 1);
        assert(t.data@.len() == (outer_s * d) * inner_s);
        assert(t.data@.len() <= usize::MAX);
        let us = reduce_dim_shape(t.shape@, dim as int);
        assert(us =~= t.shape@.subrange(0, dim as int) + seq![1usize] + t.shape@.subrange(
            dim + 1,
            rank as int,
        ));
        lemma_shape_product_concat(
            t.shape@.subrange(0, dim as int) + seq![1usize],
            t.shape@.subrange(dim + 1, rank as int),
        );
        lemma_shape_product_concat(t.shape@.subrange(0, dim as int), seq![1usize]);
        assert(seq![1usize].drop_first() =~= Seq::<usize>::empty());
        assert(shape_product(seq![1usize]) == 1 * 1);
        assert(outer_s * 1 == outer_s) by (nonlinear_arith);
        assert(shape_product(us) == outer_s * inner_s);
        assert((outer_s * d) * inner_s == (outer_s * inner_s) * d) by (nonlinear_arith);
    }
    let mut data: Vec<i64> = Vec::new();
    let mut o: usize = 0;
    while o < outer
        invariant
            o <= outer,
            rank == t.shape@.len(),
            dim < rank,
            d == t.shape@[dim as int],
            t.data@.len() == (outer_s * d) * inner_s,
            t.data@.len() == (outer_s * inner_s) * d,
            outer as int * inner as int == outer_s * inner_s,
            outer_s >= 0,
            inner_s >= 0,
            outer == 0 || (outer == outer_s && inner == inner_s),
            data@.len() == o * inner,
            forall|k: int|
                0 <= k < o * inner ==> #[trigger] data@[k] as int == col_sum(
                    t.data@,
                    (k / inner as int) * d * inner as int + (k % inner as int),
                    inner as int,
                    d as int,
                ),
        decreases outer - o,
    {
        let mut u: usize = 0;
        proof {
            lemma_mul_inequality(o + 1, outer as int, inner as int);
            assert((o + 1) * inner == o * inner + inner) by (nonlinear_arith);
        }
        while u < inner
            invariant
                u <= inner,
                o < outer,
                rank == t.shape@.len(),
                dim < rank,
                d == t.shape@[dim as int],
                t.data@.len() == (outer_s * d) * inner_s,
                t.data@.len() == (outer_s * inner_s) * d,
                outer as int * inner as int == outer_s * inner_s,
                outer == outer_s && inner == inner_s,
                o * inner + inner <= outer as int * inner as int,
                data@.len() == o * inner + u,
                forall|k: int|
                    0 <= k < o * inner + u ==> #[trigger] data@[k] as int == col_sum(
                        t.data@,
                        (k / inner as int) * d * inner as int + (k % inner as int),
                        inner as int,
                        d as int,
                    ),
            decreases inner - u,
        {
            proof {
                assert((o + 1) * d <= outer_s * d) by (nonlinear_arith)
                    requires
                        o + 1 <= outer_s,
                        d >= 0,
                ;
                assert((o + 1) * d == o * d + d) by (nonlinear_arith);
                lemma_mul_inequality(o * d + d, outer_s * d, inner as int);
                assert((o * d + d) * inner as int == (o * d) * inner as int + d * inner as int)
                    by (nonlinear_arith);
                assert((outer_s * d) * inner_s == (outer_s * d) * inner as int);
                assert(o * d >= 0 && d * inner as int >= 0 && (o * d) * inner as int >= o * d)
                    by (nonlinear_arith)
                    requires
                        o >= 0,
                        d >= 0,
                        inner >= 1,
                ;
                assert((o * d) * inner as int + d * inner as int <= t.data@.len());
                if d == 0 {
                    assert((o * d) * inner as int == 0) by (nonlinear_arith)
                        requires
                            d == 0,
                    ;
                } else {
                    assert(inner as int <= d * inner as int) by (nonlinear_arith)
                        requires
                            d >= 1,
                            inner >= 0,
                    ;
                    assert((o * d) * inner as int + u < t.data@.len());
                }
            }
            let base = (o * d) * inner + u;
            proof {
                assert((o * d) * inner as int == o as int * d * inner as int)
                    by (nonlinear_arith);
            }
            let mut acc: i64 = 0;
            let mut jj: usize = 0;
            while jj < d
                invariant
                    jj <= d,
                    u < inner,
                    base == (o * d) * inner as int + u,
                    (o * d) * inner as int + d * inner as int <= t.data@.len(),
                    acc as int == col_sum(t.data@, base as int, inner as int, jj as int),
                decreases d - jj,
            {
                proof {
                    lemma_mul_inequality(jj + 1, d as int, inner as int);
                    assert((jj + 1) * inner == jj * inner + inner) by (nonlinear_arith);
                }
                let idx = base + jj * inner;
                acc = sat_add_i64(acc, t.data[idx]);
                jj = jj + 1;
            }
            data.push(acc);
            proof {
                let k = o * inner as int + u;
                lemma_fundamental_div_mod_converse(k, inner as int, o as int, u as int);
                assert((k / inner as int) * d * inner as int + (k % inner as int) == base) by {
                    assert(o as int * d * inner as int == (o * d) * inner as int)
                        by (nonlinear_arith);
                }
                assert(data@[k] as int == col_sum(
                    t.data@,
                    base as int,
                    inner as int,
                    d as int,
                ));
            }
            u = u + 1;
        }
        o = o + 1;
    }
    let shape = build_reduced_shape(t, dim);
    proof {
        reveal(reduce_dim_data);
        assert(data@.len() == outer as int * inner as int);
        if outer == 0 {
            assert(outer_s * inner_s == 0);
        }
        assert(data@ =~= reduce_dim_data(t.shape@, t.data@, dim as int));
    }
    TensorData { shape, data }
}

/// Whether a gradient of shape `grad_shape` can be reduced to `target`:
/// each dimension either agrees or the target extent is one.
pub open spec fn reduce_ok(grad_shape: Seq<usize>, target: Seq<usize>) -> bool {
    forall|i: int|
        0 <= i < target.len() ==> (grad_shape[i] == target[i] || target[i] == 1)
}

/// The shape and storage after the reductions of `broadcast_shape` from
/// dimension `i` on, applied left to right.
#[verifier::opaque]
pub open spec fn broadcast_steps(
    shape: Seq<usize>,
    data: Seq<i64>,
    target: Seq<usize>,
    i: int,
) -> (Seq<usize>, Seq<i64>)
    decreases shape.len() - i,
{
    if i < 0 || i >= shape.len() {
        (shape, data)
    } else if shape[i] != target[i] {
        broadcast_steps(
            reduce_dim_shape(shape, i),
            reduce_dim_data(shape, data, i),
            target,
            i + 1,
        )
    } else {
        broadcast_steps(shape, data, target, i + 1)
    }
}

/// The diagnostic of a failed broadcast reduction: the offending dimension
/// and the two extents that disagree there.
#[derive(Clone, Copy, PartialEq, Eq, Structural, Debug)]
pub struct BroadcastError {
    /// The first dimension whose extents disagree while the target extent
    /// is not one.
    pub axis: usize,
    /// The gradient's extent at that dimension.
    pub grad_extent: usize,
    /// The target extent at that dimension.
    pub target_extent: usize,
}

/// Make sure the gradient tensor has the given shape. If broadcasting
/// happened during the forward pass, the gradient is summed along each
/// broadcast dimension, left to right, collapsing it back to extent one. A
/// dimension that disagrees while the target extent is not one is a
/// forward/backward shape mismatch in an operation — a contract violation —
/// and comes back as an error naming the offending extents, never as a
/// silently truncated tensor.
#[verifier::rlimit(50)]
#[verifier::spinoff_prover]
#[verifier::loop_isolation(false)]
pub fn broadcast_shape(grad: TensorData, shape: &Vec<usize>) -> (r: Result<
    TensorData,
    BroadcastError,
>)
    requires
        grad.wf(),
        grad.shape@.len() == shape@.len(),
        forall|i: int|
            0 <= i <= shape@.len() ==> shape_product(#[trigger] shape@.subrange(0, i))
                * shape_product(grad.shape@.subrange(i, grad.shape@.len() as int)) <= usize::MAX,
    ensures
        r is Ok <==> reduce_ok(grad.shape@, shape@),
        r matches Ok(t) ==> {
            &&& t.wf()
            &&& t.shape@ == shape@
            &&& t.shape@ == broadcast_steps(grad.shape@, grad.data@, shape@, 0).0
            &&& t.data@ == broadcast_steps(grad.shape@, grad.data@, shape@, 0).1
        },
        r matches Err(e) ==> {
            &&& e.axis < shape@.len()
            &&& grad.shape@[e.axis as int] != shape@[e.axis as int]
            &&& shape@[e.axis as int] != 1
            &&& e.grad_extent == grad.shape@[e.axis as int]
            &&& e.target_extent == shape@[e.axis as int]
            &&& forall|j: int|
                0 <= j < e.axis ==> (grad.shape@[j] == shape@[j] || shape@[j] == 1)
        },
{
    let rank = shape.len();
    let mut current = grad;
    let ghost grad0 = grad;
    let mut i: usize = 0;
    proof {
        reveal(broadcast_steps);
        assert(current.shape@ =~= shape@.subrange(0, 0) + grad0.shape@.subrange(0, rank as int));
    }
    while i < rank
        invariant
            i <= rank,
            current.wf(),
            current.shape@ == shape@.subrange(0, i as int) + grad0.shape@.subrange(
                i as int,
                rank as int,
            ),
            forall|j: int| 0 <= j < i ==> (grad0.shape@[j] == shape@[j] || shape@[j] == 1),
            broadcast_steps(current.shape@, current.data@, shape@, i as int) == broadcast_steps(
                grad0.shape@,
                grad0.data@,
                shape@,
                0,
            ),
        decreases rank - i,
    {
        proof {
            reveal(broadcast_steps);
            assert(current.shape@[i as int] == grad0.shape@[i as int]);
        }
        let cs = current.shape[i];
        let ts = shape[i];
        if cs != ts {
            if ts != 1 {
                return Err(BroadcastError { axis: i, grad_extent: cs, target_extent: ts });
            }
            proof {
                let reduced = reduce_dim_shape(current.shape@, i as int);
                assert(reduced =~= shape@.subrange(0, i + 1) + grad0.shape@.subrange(
                    i + 1,
                    rank as int,
                ));
                lemma_shape_product_concat(
                    shape@.subrange(0, i + 1),
                    grad0.shape@.subrange(i + 1, rank as int),
                );
                assert(shape_product(reduced) <= usize::MAX);
            }
            let next = sum_dim(&current, i);
            proof {
                assert(next.shape@ =~= shape@.subrange(0, i + 1) + grad0.shape@.subrange(
                    i + 1,
                    rank as int,
                ));
            }
            current = next;
        } else {
            proof {
                assert(current.shape@ =~= shape@.subrange(0, i + 1) + grad0.shape@.subrange(
                    i + 1,
                    rank as int,
                ));
            }
        }
        i = i + 1;
    }
    proof {
        reveal(broadcast_steps);
        assert(current.shape@ =~= shape@);
        assert(broadcast_steps(current.shape@, current.data@, shape@, rank as int) == (
            current.shape@,
            current.data@,
        ));
    }
    Ok(current)
}

/// The shape vector with the summed dimension collapsed to one.
#[verifier::loop_isolation(false)]
fn build_reduced_shape(t: &TensorData, dim: usize) -> (r: Vec<usize>)
    requires
        dim < t.shape@.len(),
    ensures
        r@ == reduce_dim_shape(t.shape@, dim as int),
{
    let mut shape: Vec<usize> = Vec::new();
    let mut i: usize = 0;
    while i < t.shape.len()
        invariant
            i <= t.shape@.len(),
            dim < t.shape@.len(),
            shape@ =~= reduce_dim_shape(t.shape@, dim as int).subrange(0, i as int),
        decreases t.shape@.len() - i,
    {
        if i == dim {
            shape.push(1);
        } else {
            shape.push(t.shape[i]);
        }
        proof {
            assert(shape@ =~= reduce_dim_shape(t.shape@, dim as int).subrange(0, i + 1));
        }
        i = i + 1;
    }
    proof {
        assert(shape@ =~= reduce_dim_shape(t.shape@, dim as int));
    }
    shape
}

} // verus!
