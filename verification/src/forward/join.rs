//! Operators that put the dimensions of their inputs together: `Gather` and `Concat`.
use vstd::prelude::*;
use crate::arith::{checked_sum, sum};
use crate::error::ShapeInferenceError;
use crate::forward::common::{
    invalid, invalid_node, missing, missing_attribute, one_shape, outcome, single, Outcome,
};
use crate::onnx::{view_option, views, NodeProto, NodeView};
use crate::shape::{signed, Shape, ShapeView};

verus! {

/// `Gather`: the dimension at the axis gives way to the dimensions of the indices. An axis below
/// zero counts from the last dimension.
pub open spec fn gather(node: NodeView, data: ShapeView, indices: ShapeView) -> Outcome {
    let dims = signed(data.dims);
    let rank = dims.len() as int;
    let axis = node.int_or("axis"@, 0);
    if rank < 1 {
        Some(Err(invalid(node, "data tensor must have rank 1 or greater"@)))
    } else if axis >= rank || axis < -rank {
        Some(Err(invalid(node, "axis must be less than data tensor rank"@)))
    } else {
        let at = if axis < 0 {
            axis + rank
        } else {
            axis as int
        };
        single(data.data_type, dims.take(at) + signed(indices.dims) + dims.skip(at + 1))
    }
}

fn append_range(list: &mut Vec<i64>, more: &Vec<i64>, from: usize, to: usize)
    requires
        from <= to <= more@.len(),
    ensures
        final(list)@ == old(list)@ + more@.subrange(from as int, to as int),
{
    let ghost before = list@;
    let mut i: usize = from;
    assert(more@.subrange(from as int, from as int) =~= Seq::<i64>::empty());
    assert(before + more@.subrange(from as int, from as int) =~= before);
    while i < to
        invariant
            from <= i <= to,
            to <= more@.len(),
            list@ == before + more@.subrange(from as int, i as int),
        decreases to - i,
    {
        list.push(more[i]);
        i = i + 1;
        assert(list@ =~= before + more@.subrange(from as int, i as int));
    }
}

/// The rule for `Gather`.
pub fn infer_gather(node: &NodeProto, data: &Shape, indices: &Shape) -> (result: Option<
    Result<Vec<Shape>, ShapeInferenceError>,
>)
    ensures
        outcome(result) == gather(node@, data@, indices@),
{
    let dims = data.signed_dims();
    let inner = indices.signed_dims();
    if dims.len() < 1 {
        return Some(
            Err(invalid_node(node, "data tensor must have rank 1 or greater".to_owned())),
        );
    }
    let rank: i128 = dims.len() as i128;
    let axis: i128 = node.int_or("axis", 0) as i128;
    if axis >= rank || axis < -rank {
        return Some(
            Err(invalid_node(node, "axis must be less than data tensor rank".to_owned())),
        );
    }
    let at: usize = if axis < 0 {
        (axis + rank) as usize
    } else {
        axis as usize
    };
    let mut out: Vec<i64> = Vec::new();
    append_range(&mut out, &dims, 0, at);
    append_range(&mut out, &inner, 0, inner.len());
    append_range(&mut out, &dims, at + 1, dims.len());
    assert(out@ =~= dims@.take(at as int) + inner@ + dims@.skip(at + 1));
    one_shape(data.data_type, out.as_slice())
}

/// The sizes of the shapes along one dimension, which each of them has to have.
pub open spec fn sizes_along(shapes: Seq<ShapeView>, at: int) -> Option<Seq<i64>> {
    if forall|i: int| 0 <= i < shapes.len() ==> at < (#[trigger] shapes[i]).dims.len() {
        Some(Seq::new(shapes.len(), |i: int| shapes[i].dims[at] as i64))
    } else {
        None
    }
}

/// `Concat`: the shape of the first input, but for the dimension at the axis, where the sizes of
/// all inputs are added up. An axis below zero counts from the last dimension.
pub open spec fn concatenate(node: NodeView, shapes: Seq<ShapeView>) -> Outcome {
    let dims = signed(shapes[0].dims);
    let rank = dims.len() as int;
    match node.find("axis"@) {
        None => Some(Err(missing(node, "axis"@))),
        Some(attribute) => {
            let axis = attribute.i as int;
            if axis >= 0 && rank == 0 {
                None
            } else if axis < -rank || axis > rank - 1 {
                Some(
                    Err(
                        invalid(
                            node,
                            "axis attribute needs to be smaller than input tensor rank"@,
                        ),
                    ),
                )
            } else {
                let at = if axis < 0 {
                    rank + axis
                } else {
                    axis
                };
                match sizes_along(shapes, at) {
                    Some(sizes) => match sum(sizes) {
                        Some(total) => single(shapes[0].data_type, dims.update(at, total)),
                        None => None,
                    },
                    None => None,
                }
            }
        },
    }
}

fn collect_sizes(shapes: &[&Shape], at: usize) -> (sizes: Option<Vec<i64>>)
    ensures
        view_option(sizes) == sizes_along(views(shapes@), at as int),
{
    let mut sizes: Vec<i64> = Vec::new();
    let mut i: usize = 0;
    while i < shapes.len()
        invariant
            i <= shapes@.len(),
            sizes@.len() == i,
            forall|j: int|
                0 <= j < i ==> {
                    &&& at < (#[trigger] views(shapes@)[j]).dims.len()
                    &&& sizes@[j] == views(shapes@)[j].dims[at as int] as i64
                },
        decreases shapes@.len() - i,
    {
        assert(views(shapes@)[i as int] == shapes@[i as int]@);
        if at >= shapes[i].rank() {
            return None;
        }
        sizes.push(
            #[verifier::truncate]
            (shapes[i].dim(at) as i64),
        );
        i = i + 1;
    }
    assert(sizes@ =~= sizes_along(views(shapes@), at as int).unwrap());
    Some(sizes)
}

/// The rule for `Concat`.
pub fn infer_concat(node: &NodeProto, shapes: &[&Shape]) -> (result: Option<
    Result<Vec<Shape>, ShapeInferenceError>,
>)
    requires
        shapes@.len() > 0,
    ensures
        outcome(result) == concatenate(node@, views(shapes@)),
{
    let axis: i128 = match node.find_attribute("axis") {
        None => {
            return Some(Err(missing_attribute(node, "axis")));
        },
        Some(attribute) => attribute.i as i128,
    };
    let mut dims = shapes[0].signed_dims();
    let rank: i128 = dims.len() as i128;
    if axis >= 0 && rank == 0 {
        return None;
    }
    if axis < -rank || axis > rank - 1 {
        return Some(
            Err(
                invalid_node(
                    node,
                    "axis attribute needs to be smaller than input tensor rank".to_owned(),
                ),
            ),
        );
    }
    let at: usize = if axis < 0 {
        (rank + axis) as usize
    } else {
        axis as usize
    };
    match collect_sizes(shapes, at) {
        Some(sizes) => match checked_sum(sizes.as_slice()) {
            Some(total) => {
                dims[at] = total;
                one_shape(shapes[0].data_type, dims.as_slice())
            },
            None => None,
        },
        None => None,
    }
}

} // verus!
