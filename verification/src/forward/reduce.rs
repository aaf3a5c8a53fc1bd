//! The `ReduceMean` operator.
use vstd::prelude::*;
use crate::error::ShapeInferenceError;
use crate::forward::common::{one_shape, outcome, single, Outcome};
use crate::forward::slice::{all_axes, counted_axes, list_of_axes};
use crate::onnx::{NodeProto, NodeView};
use crate::shape::{signed, Shape, ShapeView};

verus! {

/// The sizes without the dimensions that `axes` name, or with 1 in place of each of them.
pub open spec fn reduced(dims: Seq<i64>, axes: Seq<int>, keep: bool) -> Seq<i64>
    decreases dims.len(),
{
    if dims.len() == 0 {
        Seq::empty()
    } else {
        let before = reduced(dims.drop_last(), axes, keep);
        if !axes.contains(dims.len() - 1) {
            before.push(dims.last())
        } else if keep {
            before.push(1)
        } else {
            before
        }
    }
}

/// `ReduceMean`: the mean is taken over the dimensions that the attribute `axes` names, those below
/// zero counted from the last. Without the attribute they are all dimensions, or none where
/// `noop_with_empty_axes` asks for that. `keepdims` keeps them, with size 1.
pub open spec fn reduce_mean(node: NodeView, shape: ShapeView) -> Outcome {
    let rank = shape.dims.len();
    let default = if node.int_or("noop_with_empty_axes"@, 0) == 0 {
        all_axes(rank)
    } else {
        Seq::empty()
    };
    let axes = counted_axes(node.ints_or("axes"@, default), rank);
    let keep = node.int_or("keepdims"@, 1) == 1;
    single(shape.data_type, reduced(signed(shape.dims), axes, keep))
}

fn is_axis(axes: &Vec<i64>, rank: usize, axis: usize) -> (found: bool)
    ensures
        found == counted_axes(axes@, rank as nat).contains(axis as int),
{
    let ghost counted = counted_axes(axes@, rank as nat);
    let mut i: usize = 0;
    while i < axes.len()
        invariant
            i <= axes@.len(),
            counted == counted_axes(axes@, rank as nat),
            forall|j: int| 0 <= j < i ==> counted[j] != axis,
        decreases axes@.len() - i,
    {
        let at: i128 = if axes[i] < 0 {
            axes[i] as i128 + rank as i128
        } else {
            axes[i] as i128
        };
        assert(at == counted[i as int]);
        if at == axis as i128 {
            return true;
        }
        i = i + 1;
    }
    false
}

/// The rule for `ReduceMean`.
pub fn infer_reduce_mean(node: &NodeProto, shape: &Shape) -> (result: Option<
    Result<Vec<Shape>, ShapeInferenceError>,
>)
    ensures
        outcome(result) == reduce_mean(node@, shape@),
{
    let dims = shape.signed_dims();
    let rank: usize = dims.len();
    let default: Vec<i64> = if node.int_or("noop_with_empty_axes", 0) == 0 {
        list_of_axes(rank)
    } else {
        Vec::new()
    };
    let axes = node.ints_or("axes", default);
    let keep: bool = node.int_or("keepdims", 1) == 1;
    let ghost counted = counted_axes(axes@, rank as nat);
    let mut out: Vec<i64> = Vec::new();
    let mut i: usize = 0;
    while i < rank
        invariant
            i <= rank,
            rank == dims@.len(),
            counted == counted_axes(axes@, rank as nat),
            out@ == reduced(dims@.take(i as int), counted, keep),
        decreases rank - i,
    {
        proof {
            let next = dims@.take(i + 1);
            assert(next.drop_last() =~= dims@.take(i as int));
            assert(next.last() == dims@[i as int]);
        }
        if !is_axis(&axes, rank, i) {
            out.push(dims[i]);
        } else if keep {
            out.push(1);
        }
        i = i + 1;
    }
    assert(dims@.take(i as int) =~= dims@);
    one_shape(shape.data_type, out.as_slice())
}

} // verus!
