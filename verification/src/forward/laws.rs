//! What holds of the rules for the single operators.
pub mod join;
pub mod names;
pub mod reshape;
pub mod simple;
pub mod slice;
pub mod window;

use vstd::prelude::*;
use vstd::arithmetic::div_mod::{
    lemma_fundamental_div_mod, lemma_fundamental_div_mod_converse, lemma_mod_bound, lemma_small_mod,
};
use crate::arith::{
    in_i64, law_rounded_up_is_the_ceiling, magnitude, product, quotient, quotient_rounded_up, sum,
    unsigned_product,
};
use crate::forward::common::{static_ints, Outcome};
use crate::forward::elementwise::cast;
use crate::forward::join::{concatenate, gather, sizes_along};
use crate::forward::reduce::{reduce_mean, reduced};
use crate::forward::reshape::{
    filled, first_negative, goes, reshape, squeeze, squeezed, unsqueeze, unsqueeze_axes,
    with_ones,
};
use crate::forward::slice::{
    all_axes, axes_of, counted_axes, ends_of, slice, slice_end, slice_length, slice_start,
    sliceable, sliced, starts_of, steps_of,
};
use crate::forward::window::{places, residual, total_pad, window, window_dims};
use crate::onnx::{NodeView, TensorView};
use crate::shape::{lemma_signed_unsigned, lemma_unsigned_signed, signed, unsigned, ShapeView};

verus! {

/// The outcome with the given shape and no other.
pub open spec fn only(shape: ShapeView) -> Outcome {
    Some(Ok(seq![shape]))
}

/// A cast to the element type that a shape has changes nothing.
pub proof fn law_cast_to_its_own_type(node: NodeView, shape: ShapeView)
    requires
        node.find("to"@) matches Some(attribute) && attribute.i == shape.data_type.code(),
    ensures
        cast(node, shape) == only(shape),
{
}

/// The start and the end of a slice come to lie within the dimension, or, backwards, before its
/// first element.
pub proof fn law_slice_stays_inside(size: int, start: int, end: int, step: int)
    requires
        step != 0,
        sliceable(size, step),
    ensures
        step > 0 ==> 0 <= slice_start(size, start, step) <= size,
        step > 0 ==> 0 <= slice_end(size, end, step) <= size,
        step < 0 ==> 0 <= slice_start(size, start, step) < size,
        step < 0 ==> -1 <= slice_end(size, end, step) < size,
{
}

/// A slice that goes forwards, with its start and its end brought into range once, keeps them.
pub proof fn law_slice_bounds_settle(size: int, start: int, end: int, step: int)
    requires
        step > 0,
        sliceable(size, step),
    ensures
        slice_start(size, slice_start(size, start, step), step) == slice_start(size, start, step),
        slice_end(size, slice_end(size, end, step), step) == slice_end(size, end, step),
{
}

/// A slice takes no more elements than the dimension has.
pub proof fn law_slice_is_no_longer(size: int, start: int, end: int, step: int)
    requires
        step != 0,
        sliceable(size, step),
    ensures
        0 <= slice_length(size, start, end, step) <= size,
{
    let extent = slice_end(size, end, step) - slice_start(size, start, step);
    let n = magnitude(extent);
    let d = magnitude(step);
    assert(0 <= n / d <= n) by (nonlinear_arith)
        requires
            n >= 0,
            d >= 1,
    ;
    if n >= 1 && d >= 2 {
        assert(n / d + 1 <= n) by (nonlinear_arith)
            requires
                n >= 1,
                d >= 2,
        ;
    }
    if d == 1 {
        assert(n % 1 == 0);
    }
    if n == 0 {
        lemma_small_mod(0, d as nat);
    }
    assert(quotient_rounded_up(extent, step) <= n);
}

/// A start or an end below zero counts from the end of the dimension.
pub proof fn law_positions_below_zero_count_from_the_end(size: int, position: int, step: int)
    requires
        0 <= position < size,
    ensures
        slice_start(size, position - size, step) == slice_start(size, position, step),
        slice_end(size, position - size, step) == slice_end(size, position, step),
{
}

/// A slice of everything, forwards or backwards, takes everything.
pub proof fn law_whole_slice(size: int)
    requires
        size >= 1,
    ensures
        slice_length(size, 0, size, 1) == size,
        slice_length(size, -1, -size - 1, -1) == size,
{
    assert(size / 1 == size && size % 1 == 0);
    assert(magnitude(1) == 1 && magnitude(-1) == 1 && magnitude(-size) == size);
}

proof fn lemma_sliced(
    out: Seq<i64>,
    dims: Seq<i64>,
    axes: Seq<int>,
    starts: Seq<i64>,
    ends: Seq<i64>,
    steps: Seq<i64>,
    k: int,
)
    requires
        0 <= k,
        out.len() == dims.len(),
        forall|i: int| 0 <= i < dims.len() ==> #[trigger] out[i] <= dims[i],
    ensures
        sliced(out, dims, axes, starts, ends, steps, k) matches Some(Ok(after)) ==> after.len()
            == dims.len() && forall|i: int|
            0 <= i < dims.len() ==> #[trigger] after[i] <= dims[i],
    decreases axes.len() - k,
{
    if k < axes.len() && k < starts.len() && k < ends.len() && 0 <= axes[k] < dims.len()
        && steps[k] != 0 {
        let size = dims[axes[k]] as int;
        if sliceable(size, steps[k] as int) {
            law_slice_is_no_longer(size, starts[k] as int, ends[k] as int, steps[k] as int);
            let length = slice_length(size, starts[k] as int, ends[k] as int, steps[k] as int);
            lemma_sliced(
                out.update(axes[k], length as i64),
                dims,
                axes,
                starts,
                ends,
                steps,
                k + 1,
            );
        }
    }
}

proof fn lemma_sliced_axes(
    out: Seq<i64>,
    dims: Seq<i64>,
    axes: Seq<int>,
    starts: Seq<i64>,
    ends: Seq<i64>,
    steps: Seq<i64>,
    k: int,
)
    requires
        0 <= k <= axes.len(),
        out.len() == dims.len(),
        forall|i: int, j: int| 0 <= i < j < axes.len() ==> #[trigger] axes[i] != #[trigger] axes[j],
    ensures
        sliced(out, dims, axes, starts, ends, steps, k) matches Some(Ok(after)) ==> {
            &&& after.len() == dims.len()
            &&& forall|j: int|
                k <= j < axes.len() ==> after[#[trigger] axes[j]] == slice_length(
                    dims[axes[j]] as int,
                    starts[j] as int,
                    ends[j] as int,
                    steps[j] as int,
                )
            &&& forall|i: int|
                0 <= i < dims.len() && (forall|j: int|
                    k <= j < axes.len() ==> #[trigger] axes[j] != i) ==> #[trigger] after[i]
                    == out[i]
        },
    decreases axes.len() - k,
{
    if let Some(Ok(after)) = sliced(out, dims, axes, starts, ends, steps, k) {
        if k < axes.len() {
            let size = dims[axes[k]] as int;
            law_slice_is_no_longer(size, starts[k] as int, ends[k] as int, steps[k] as int);
            let length = slice_length(size, starts[k] as int, ends[k] as int, steps[k] as int);
            let next = out.update(axes[k], length as i64);
            lemma_sliced_axes(next, dims, axes, starts, ends, steps, k + 1);
            assert(after[axes[k]] == next[axes[k]]);
            assert forall|i: int|
                0 <= i < dims.len() && (forall|j: int|
                    k <= j < axes.len() ==> #[trigger] axes[j] != i) implies #[trigger] after[i]
                == out[i] by {
                assert(axes[k] != i);
                assert(next[i] == out[i]);
            }
        }
    }
}

/// `Slice` with starts, ends, axes and steps takes along each axis what its own start, end and step
/// ask for, and leaves the other dimensions as they are. No axis may be named twice.
pub proof fn law_slice_takes_each_axis_alone(
    data: ShapeView,
    axes: Seq<int>,
    starts: Seq<i64>,
    ends: Seq<i64>,
    steps: Seq<i64>,
    axis: int,
)
    requires
        0 <= axis < data.dims.len(),
        forall|i: int, j: int| 0 <= i < j < axes.len() ==> #[trigger] axes[i] != #[trigger] axes[j],
    ensures
        sliced(
            signed(data.dims),
            signed(data.dims),
            axes,
            starts,
            ends,
            steps,
            0,
        ) matches Some(Ok(out)) ==> {
            &&& out.len() == data.dims.len()
            &&& !axes.contains(axis) ==> out[axis] == signed(data.dims)[axis]
            &&& forall|k: int|
                0 <= k < axes.len() && #[trigger] axes[k] == axis ==> out[axis] == slice_length(
                    signed(data.dims)[axis] as int,
                    starts[k] as int,
                    ends[k] as int,
                    steps[k] as int,
                )
        },
{
    let dims = signed(data.dims);
    lemma_sliced_axes(dims, dims, axes, starts, ends, steps, 0);
    if let Some(Ok(out)) = sliced(dims, dims, axes, starts, ends, steps, 0) {
        if !axes.contains(axis) {
            assert forall|j: int| 0 <= j < axes.len() implies #[trigger] axes[j] != axis by {
                assert(axes.contains(axes[j]));
            }
            assert(out[axis] == dims[axis]);
        }
    }
}

/// `Slice` keeps the element type and the number of dimensions, and no size grows.
pub proof fn law_slice_shrinks(
    node: NodeView,
    data: ShapeView,
    inputs: nat,
    table: Map<Seq<char>, TensorView>,
)
    ensures
        slice(node, data, inputs, table) matches Some(Ok(out)) ==> {
            &&& out.len() == 1
            &&& out[0].data_type == data.data_type
            &&& out[0].dims.len() == data.dims.len()
            &&& forall|i: int|
                0 <= i < data.dims.len() ==> #[trigger] signed(out[0].dims)[i] <= signed(
                    data.dims,
                )[i]
        },
{
    let dims = signed(data.dims);
    if let Some(Ok(_)) = slice(node, data, inputs, table) {
        let starts = starts_of(static_ints(table, node.input[1])->Ok_0, dims);
        let ends = ends_of(static_ints(table, node.input[2])->Ok_0, dims);
        let axes = axes_of(node, inputs, dims.len(), table).unwrap()->Ok_0;
        let steps = steps_of(node, inputs, starts.len(), table).unwrap()->Ok_0;
        let counted = counted_axes(axes, dims.len());
        lemma_sliced(dims, dims, counted, starts, ends, steps, 0);
        lemma_signed_unsigned(
            sliced(dims, dims, counted, starts, ends, steps, 0).unwrap()->Ok_0,
        );
    }
}

/// `Gather` gives as many dimensions as both inputs have, less one, and keeps the element type.
pub proof fn law_gather_joins_ranks(node: NodeView, data: ShapeView, indices: ShapeView)
    ensures
        gather(node, data, indices) matches Some(Ok(out)) ==> {
            &&& out.len() == 1
            &&& out[0].data_type == data.data_type
            &&& out[0].dims.len() == data.dims.len() + indices.dims.len() - 1
        },
{
}

/// `Concat` keeps the element type, the number of dimensions and all sizes but one of the first
/// input.
pub proof fn law_concat_keeps_the_first_shape(node: NodeView, shapes: Seq<ShapeView>)
    requires
        shapes.len() > 0,
    ensures
        concatenate(node, shapes) matches Some(Ok(out)) ==> {
            &&& out.len() == 1
            &&& out[0].data_type == shapes[0].data_type
            &&& out[0].dims.len() == shapes[0].dims.len()
            &&& exists|at: int|
                0 <= at < shapes[0].dims.len() && (#[trigger] shapes[0].dims.update(
                    at,
                    out[0].dims[at],
                )) == out[0].dims
        },
{
    if let Some(Ok(out)) = concatenate(node, shapes) {
        let dims = signed(shapes[0].dims);
        let rank = dims.len() as int;
        let axis = node.find("axis"@).unwrap().i as int;
        let at = if axis < 0 {
            rank + axis
        } else {
            axis
        };
        let total = sum(sizes_along(shapes, at).unwrap()).unwrap();
        lemma_unsigned_signed(shapes[0].dims);
        assert(unsigned(dims.update(at, total)) =~= unsigned(dims).update(at, total as u64));
        assert(shapes[0].dims.update(at, out[0].dims[at]) =~= out[0].dims);
    }
}

/// `Concat` of a single input gives its shape.
pub proof fn law_concat_of_one(node: NodeView, shape: ShapeView)
    ensures
        concatenate(node, seq![shape]) matches Some(Ok(_)) ==> concatenate(node, seq![shape])
            == only(shape),
{
    if let Some(Ok(_)) = concatenate(node, seq![shape]) {
        let dims = signed(shape.dims);
        let axis = node.find("axis"@).unwrap().i as int;
        let at = if axis < 0 {
            dims.len() + axis
        } else {
            axis
        };
        let sizes = sizes_along(seq![shape], at).unwrap();
        assert(sizes =~= seq![dims[at]]);
        assert(sizes.drop_last() =~= Seq::<i64>::empty());
        assert(sum(sizes.drop_last()) == Some(0i64));
        assert(sum(sizes) == Some(dims[at]));
        assert(dims.update(at, dims[at]) =~= dims);
        lemma_unsigned_signed(shape.dims);
    }
}

proof fn lemma_reduced(dims: Seq<i64>, axes: Seq<int>, keep: bool)
    ensures
        reduced(dims, axes, keep).len() <= dims.len(),
        keep ==> reduced(dims, axes, keep).len() == dims.len(),
        axes.len() == 0 ==> reduced(dims, axes, keep) == dims,
        keep ==> forall|i: int|
            0 <= i < dims.len() ==> #[trigger] reduced(dims, axes, keep)[i] == (if axes.contains(
                i,
            ) {
                1i64
            } else {
                dims[i]
            }),
    decreases dims.len(),
{
    if dims.len() > 0 {
        lemma_reduced(dims.drop_last(), axes, keep);
        if axes.len() == 0 {
            assert(dims =~= dims.drop_last().push(dims.last()));
        }
    }
}

/// `ReduceMean` that keeps the dimensions keeps their number; otherwise there are no more.
pub proof fn law_reduce_mean_keeps_dimensions(node: NodeView, shape: ShapeView)
    ensures
        reduce_mean(node, shape) matches Some(Ok(out)) && out.len() == 1 && out[0].data_type
            == shape.data_type && out[0].dims.len() <= shape.dims.len() && (node.int_or(
            "keepdims"@,
            1,
        ) == 1 ==> out[0].dims.len() == shape.dims.len()),
{
    let rank = shape.dims.len();
    let default = if node.int_or("noop_with_empty_axes"@, 0) == 0 {
        all_axes(rank)
    } else {
        Seq::empty()
    };
    let axes = counted_axes(node.ints_or("axes"@, default), rank);
    lemma_reduced(signed(shape.dims), axes, node.int_or("keepdims"@, 1) == 1);
}

/// `ReduceMean` over no axes at all gives the shape of its input.
pub proof fn law_reduce_mean_over_nothing(node: NodeView, shape: ShapeView)
    requires
        match node.find("axes"@) {
            Some(attribute) => attribute.ints.len() == 0,
            None => node.int_or("noop_with_empty_axes"@, 0) != 0,
        },
    ensures
        reduce_mean(node, shape) == only(shape),
{
    lemma_reduced(signed(shape.dims), Seq::empty(), node.int_or("keepdims"@, 1) == 1);
    assert(counted_axes(Seq::empty(), shape.dims.len()) =~= Seq::<int>::empty());
    lemma_unsigned_signed(shape.dims);
    let rank = shape.dims.len();
    let default = if node.int_or("noop_with_empty_axes"@, 0) == 0 {
        all_axes(rank)
    } else {
        Seq::empty()
    };
    assert(node.ints_or("axes"@, default) =~= Seq::<i64>::empty());
}

proof fn lemma_first_negative(sizes: Seq<i64>)
    ensures
        first_negative(sizes) is None ==> forall|i: int|
            0 <= i < sizes.len() ==> #[trigger] sizes[i] >= 0,
    decreases sizes.len(),
{
    if sizes.len() > 0 {
        let rest = sizes.drop_first();
        lemma_first_negative(rest);
        if first_negative(sizes) is None {
            assert forall|i: int| 0 <= i < sizes.len() implies #[trigger] sizes[i] >= 0 by {
                if i > 0 {
                    assert(rest[i - 1] == sizes[i]);
                }
            }
        }
    }
}

proof fn lemma_product_of_sizes(sizes: Seq<i64>)
    requires
        product(sizes) is Some,
        forall|i: int| 0 <= i < sizes.len() ==> #[trigger] sizes[i] >= 0,
    ensures
        product(sizes).unwrap() >= 0,
        unsigned_product(unsigned(sizes)) == Some(product(sizes).unwrap() as u64),
    decreases sizes.len(),
{
    if sizes.len() > 0 {
        let rest = sizes.drop_last();
        lemma_product_of_sizes(rest);
        assert(unsigned(sizes).drop_last() =~= unsigned(rest));
        let partial = product(rest).unwrap();
        let last = sizes.last();
        assert(sizes[sizes.len() - 1] >= 0);
        assert(partial * last >= 0) by (nonlinear_arith)
            requires
                partial >= 0,
                last >= 0,
        ;
        assert(unsigned(sizes).last() == last as u64);
    }
}

/// `Reshape` keeps the number of elements, unless zeros of the wanted sizes stand for sizes of the
/// input.
pub proof fn law_reshape_keeps_elements(
    node: NodeView,
    shape: ShapeView,
    table: Map<Seq<char>, TensorView>,
)
    requires
        node.int_or("allowzero"@, 0) == 1 || (node.input.len() >= 2 && table.contains_key(
            node.input[1],
        ) ==> !table[node.input[1]].int64_data.contains(0)),
    ensures
        reshape(node, shape, table) matches Some(Ok(out)) ==> out.len() == 1 && out[0].data_type
            == shape.data_type && out[0].element_count() == shape.element_count(),
{
    if let Some(Ok(_)) = reshape(node, shape, table) {
        let wanted = table[node.input[1]].int64_data;
        lemma_first_negative(wanted);
        lemma_product_of_sizes(wanted);
        let dims = signed(shape.dims);
        let allow = node.int_or("allowzero"@, 0) == 1;
        assert(filled(wanted, dims, allow).unwrap() =~= wanted);
        let count = shape.element_count().unwrap();
        let total = product(wanted).unwrap();
        assert(total == count as i64);
        assert((count as i64) as u64 == count) by (bit_vector);
    }
}

proof fn lemma_one_more(sizes: Seq<u64>, at: int)
    requires
        0 <= at <= sizes.len(),
    ensures
        unsigned_product(sizes.insert(at, 1)) == unsigned_product(sizes),
    decreases sizes.len(),
{
    let longer = sizes.insert(at, 1);
    if at == sizes.len() {
        assert(longer.drop_last() =~= sizes);
        if let Some(partial) = unsigned_product(sizes) {
            assert(partial * 1 == partial) by (nonlinear_arith);
        }
    } else {
        lemma_one_more(sizes.drop_last(), at);
        assert(longer.drop_last() =~= sizes.drop_last().insert(at, 1));
        assert(longer.last() == sizes.last());
    }
}

proof fn lemma_with_ones(dims: Seq<i64>, axes: Seq<i64>, rank: int)
    ensures
        with_ones(dims, axes, rank) matches Some(out) ==> {
            &&& out.len() == dims.len() + axes.len()
            &&& unsigned_product(unsigned(out)) == unsigned_product(unsigned(dims))
        },
    decreases axes.len(),
{
    if axes.len() > 0 {
        let at = if axes[0] < 0 {
            rank + axes[0]
        } else {
            axes[0] as int
        };
        if 0 <= at <= dims.len() {
            lemma_with_ones(dims.insert(at, 1), axes.drop_first(), rank);
            lemma_one_more(unsigned(dims), at);
            assert(unsigned(dims.insert(at, 1)) =~= unsigned(dims).insert(at, 1));
        }
    }
}

/// `Unsqueeze` keeps the element type and the number of elements.
pub proof fn law_unsqueeze_keeps_elements(
    node: NodeView,
    shape: ShapeView,
    inputs: nat,
    table: Map<Seq<char>, TensorView>,
)
    ensures
        unsqueeze(node, shape, inputs, table) matches Some(Ok(out)) ==> out.len() == 1
            && out[0].data_type == shape.data_type && out[0].element_count()
            == shape.element_count(),
{
    if let Some(Ok(axes)) = unsqueeze_axes(node, inputs, table) {
        lemma_with_ones(
            signed(shape.dims),
            axes,
            (shape.dims.len() + axes.len()) as int,
        );
        lemma_unsigned_signed(shape.dims);
    }
}

proof fn lemma_squeezed_product(dims: Seq<i64>, axes: Option<Seq<i64>>)
    requires
        forall|i: int| 0 <= i < dims.len() && goes(axes, i, #[trigger] dims[i]) ==> dims[i] == 1,
    ensures
        unsigned_product(unsigned(squeezed(dims, axes))) == unsigned_product(unsigned(dims)),
    decreases dims.len(),
{
    if dims.len() > 0 {
        let rest = dims.drop_last();
        assert forall|i: int|
            0 <= i < rest.len() && goes(axes, i, #[trigger] rest[i]) implies rest[i] == 1 by {
            assert(rest[i] == dims[i]);
        }
        lemma_squeezed_product(rest, axes);
        let before = squeezed(rest, axes);
        assert(unsigned(dims).drop_last() =~= unsigned(rest));
        assert(unsigned(dims).last() == dims.last() as u64);
        if goes(axes, dims.len() - 1, dims.last()) {
            assert(dims[dims.len() - 1] == 1);
            if let Some(partial) = unsigned_product(unsigned(rest)) {
                assert(partial * 1 == partial) by (nonlinear_arith);
            }
        } else {
            let longer = unsigned(before.push(dims.last()));
            assert(longer.drop_last() =~= unsigned(before));
            assert(longer.last() == dims.last() as u64);
        }
    }
}

/// `Squeeze` without axes keeps the element type and the number of elements; with axes it does so
/// where each dimension that goes has size 1.
pub proof fn law_squeeze_keeps_elements(
    node: NodeView,
    shape: ShapeView,
    inputs: nat,
    table: Map<Seq<char>, TensorView>,
)
    requires
        inputs == 2 && node.input.len() >= 2 && table.contains_key(node.input[1]) ==> forall|i: int|
            0 <= i < shape.dims.len() && table[node.input[1]].int64_data.contains(i as i64)
                ==> #[trigger] shape.dims[i] == 1,
    ensures
        squeeze(node, shape, inputs, table) matches Some(Ok(out)) ==> out.len() == 1
            && out[0].data_type == shape.data_type && out[0].element_count()
            == shape.element_count(),
{
    let dims = signed(shape.dims);
    lemma_unsigned_signed(shape.dims);
    if inputs == 2 {
        if node.input.len() >= 2 && table.contains_key(node.input[1]) {
            let axes = table[node.input[1]].int64_data;
            assert forall|i: int|
                0 <= i < dims.len() && goes(Some(axes), i, #[trigger] dims[i]) implies dims[i]
                == 1 by {
                assert(shape.dims[i] == 1);
            }
            lemma_squeezed_product(dims, Some(axes));
        }
    } else {
        lemma_squeezed_product(dims, None);
    }
}

proof fn lemma_squeezed_alike(dims: Seq<i64>, some: Option<Seq<i64>>, other: Option<Seq<i64>>)
    requires
        forall|i: int|
            0 <= i < dims.len() ==> goes(some, i, #[trigger] dims[i]) == goes(other, i, dims[i]),
    ensures
        squeezed(dims, some) == squeezed(dims, other),
    decreases dims.len(),
{
    if dims.len() > 0 {
        let rest = dims.drop_last();
        assert forall|i: int| 0 <= i < rest.len() implies goes(some, i, #[trigger] rest[i])
            == goes(other, i, rest[i]) by {
            assert(rest[i] == dims[i]);
        }
        lemma_squeezed_alike(rest, some, other);
        assert(dims[dims.len() - 1] == dims.last());
    }
}

proof fn lemma_squeezed_tail(dims: Seq<i64>, axes: Option<Seq<i64>>, from: int)
    requires
        0 <= from <= dims.len(),
        forall|i: int| from <= i < dims.len() ==> !goes(axes, i, #[trigger] dims[i]),
    ensures
        squeezed(dims, axes) == squeezed(dims.take(from), axes) + dims.skip(from),
    decreases dims.len(),
{
    if from == dims.len() {
        assert(dims.take(from) =~= dims);
        assert(squeezed(dims, axes) + dims.skip(from) =~= squeezed(dims, axes));
    } else {
        let rest = dims.drop_last();
        assert forall|i: int| from <= i < rest.len() implies !goes(axes, i, #[trigger] rest[i]) by {
            assert(rest[i] == dims[i]);
        }
        lemma_squeezed_tail(rest, axes, from);
        assert(rest.take(from) =~= dims.take(from));
        assert(!goes(axes, dims.len() - 1, dims[dims.len() - 1]));
        assert(squeezed(dims, axes) =~= squeezed(dims.take(from), axes) + dims.skip(from));
    }
}

proof fn lemma_with_ones_last(dims: Seq<i64>, axes: Seq<i64>, rank: int)
    requires
        axes.len() > 0,
        with_ones(dims, axes, rank) is Some,
        forall|i: int| 0 <= i < axes.len() ==> #[trigger] axes[i] >= 0,
    ensures
        ({
            let before = with_ones(dims, axes.drop_last(), rank);
            &&& before is Some
            &&& axes.last() <= before.unwrap().len()
            &&& with_ones(dims, axes, rank) == Some(before.unwrap().insert(axes.last() as int, 1))
        }),
    decreases axes.len(),
{
    let next = dims.insert(axes[0] as int, 1);
    if axes.len() == 1 {
        assert(axes.drop_last() =~= Seq::<i64>::empty());
        assert(axes.drop_first() =~= Seq::<i64>::empty());
        assert(with_ones(next, axes.drop_first(), rank) == Some(next));
    } else {
        assert(axes.drop_first().drop_last() =~= axes.drop_last().drop_first());
        let rest = axes.drop_first();
        assert forall|i: int| 0 <= i < rest.len() implies #[trigger] rest[i] >= 0 by {
            assert(rest[i] == axes[i + 1]);
        }
        lemma_with_ones_last(next, rest, rank);
        assert(axes.drop_last()[0] == axes[0]);
    }
}

/// Whether the axes ascend, from zero or a larger one on.
pub open spec fn ascending(axes: Seq<i64>) -> bool {
    &&& forall|i: int| 0 <= i < axes.len() ==> #[trigger] axes[i] >= 0
    &&& forall|i: int, j: int| 0 <= i < j < axes.len() ==> #[trigger] axes[i] < #[trigger] axes[j]
}

/// An index taken as a signed number stays as it is, or comes out below zero.
proof fn lemma_signed_index(index: int)
    requires
        0 <= index <= u64::MAX,
    ensures
        index as i64 == index || (index as i64) < 0,
{
    let x = index as u64;
    assert(x > 0x7fff_ffff_ffff_ffff ==> (x as i64) < 0) by (bit_vector);
}

/// Axes that ascend are at least as far apart as their places.
proof fn lemma_gap(axes: Seq<i64>, i: int, j: int)
    requires
        ascending(axes),
        0 <= i <= j < axes.len(),
    ensures
        axes[j] - axes[i] >= j - i,
    decreases j - i,
{
    if i < j {
        lemma_gap(axes, i, j - 1);
        assert(axes[j - 1] < axes[j]);
    }
}

proof fn lemma_with_ones_succeeds(dims: Seq<i64>, axes: Seq<i64>, rank: int)
    requires
        forall|j: int| 0 <= j < axes.len() ==> 0 <= #[trigger] axes[j] <= dims.len() + j,
    ensures
        with_ones(dims, axes, rank) is Some,
    decreases axes.len(),
{
    if axes.len() > 0 {
        let rest = axes.drop_first();
        let next = dims.insert(axes[0] as int, 1);
        assert forall|j: int| 0 <= j < rest.len() implies 0 <= #[trigger] rest[j] <= next.len()
            + j by {
            assert(rest[j] == axes[j + 1]);
        }
        lemma_with_ones_succeeds(next, rest, rank);
    }
}

proof fn lemma_ones_at_axes(dims: Seq<i64>, axes: Seq<i64>, rank: int)
    requires
        with_ones(dims, axes, rank) is Some,
        ascending(axes),
    ensures
        forall|j: int|
            0 <= j < axes.len() ==> (#[trigger] axes[j]) < with_ones(
                dims,
                axes,
                rank,
            ).unwrap().len() && with_ones(dims, axes, rank).unwrap()[axes[j] as int] == 1,
    decreases axes.len(),
{
    if axes.len() > 0 {
        let fewer = axes.drop_last();
        let out = with_ones(dims, axes, rank).unwrap();
        lemma_with_ones_last(dims, axes, rank);
        lemma_ones_at_axes(dims, fewer, rank);
        let before = with_ones(dims, fewer, rank).unwrap();
        assert(axes[axes.len() - 1] == axes.last());
        assert forall|j: int| 0 <= j < axes.len() implies (#[trigger] axes[j]) < out.len()
            && out[axes[j] as int] == 1 by {
            if j < axes.len() - 1 {
                assert(fewer[j] == axes[j]);
                assert(axes[j] < axes[axes.len() - 1]);
                assert(before[axes[j] as int] == 1);
            }
        }
    }
}

proof fn lemma_squeeze_undoes_unsqueeze(dims: Seq<i64>, axes: Seq<i64>, rank: int)
    requires
        with_ones(dims, axes, rank) is Some,
        dims.len() + axes.len() <= u64::MAX,
        ascending(axes),
    ensures
        squeezed(with_ones(dims, axes, rank).unwrap(), Some(axes)) == dims,
    decreases axes.len(),
{
    let out = with_ones(dims, axes, rank).unwrap();
    lemma_with_ones(dims, axes, rank);
    if axes.len() == 0 {
        lemma_squeezed_tail(dims, Some(axes), 0);
        assert(dims.take(0) =~= Seq::<i64>::empty());
        assert(squeezed(dims.take(0), Some(axes)) + dims.skip(0) =~= dims);
    } else {
        let fewer = axes.drop_last();
        let at = axes.last() as int;
        lemma_with_ones_last(dims, axes, rank);
        let before = with_ones(dims, fewer, rank).unwrap();
        lemma_with_ones(dims, fewer, rank);
        lemma_squeeze_undoes_unsqueeze(dims, fewer, rank);
        assert(axes[axes.len() - 1] == axes.last());
        assert forall|i: int| at < i < out.len() implies !goes(
            Some(axes),
            i,
            #[trigger] out[i],
        ) by {
            lemma_signed_index(i);
            if axes.contains(i as i64) {
                let j = axes.index_of(i as i64);
                assert(axes[j] <= axes[axes.len() - 1]);
            }
        }
        lemma_squeezed_tail(out, Some(axes), at + 1);
        assert(out.take(at + 1).drop_last() =~= before.take(at));
        assert(out.take(at + 1).last() == 1);
        assert(goes(Some(axes), at, 1)) by {
            assert(axes[axes.len() - 1] == at as i64);
        }
        assert(squeezed(out.take(at + 1), Some(axes)) == squeezed(before.take(at), Some(axes)));
        assert forall|i: int| 0 <= i < before.take(at).len() implies goes(
            Some(axes),
            i,
            #[trigger] before.take(at)[i],
        ) == goes(Some(fewer), i, before.take(at)[i]) by {
            lemma_signed_index(i);
            if axes.contains(i as i64) {
                let j = axes.index_of(i as i64);
                assert(j < axes.len() - 1);
                assert(fewer[j] == i as i64);
            }
            if fewer.contains(i as i64) {
                let j = fewer.index_of(i as i64);
                assert(axes[j] == i as i64);
            }
        }
        lemma_squeezed_alike(before.take(at), Some(axes), Some(fewer));
        assert forall|i: int| at <= i < before.len() implies !goes(
            Some(fewer),
            i,
            #[trigger] before[i],
        ) by {
            lemma_signed_index(i);
            if fewer.contains(i as i64) {
                let j = fewer.index_of(i as i64);
                assert(axes[j] < axes[axes.len() - 1]);
            }
        }
        lemma_squeezed_tail(before, Some(fewer), at);
        assert(out.skip(at + 1) =~= before.skip(at));
    }
}

/// `Unsqueeze` at axes that ascend and lie within the dimensions that come out succeeds: each of
/// the axes is a dimension of size 1. `Squeeze` at the same axes undoes it. No list is longer than
/// a `u64` can tell.
pub proof fn law_squeeze_undoes_unsqueeze(
    unsqueezing: NodeView,
    squeezing: NodeView,
    shape: ShapeView,
    table: Map<Seq<char>, TensorView>,
    axes: Seq<i64>,
)
    requires
        unsqueezing.input.len() >= 2,
        squeezing.input.len() >= 2,
        unsqueezing.input[1] == squeezing.input[1],
        table.contains_key(squeezing.input[1]),
        table[squeezing.input[1]].int64_data == axes,
        ascending(axes),
        forall|j: int|
            0 <= j < axes.len() ==> #[trigger] axes[j] < shape.dims.len() + axes.len(),
        shape.dims.len() + axes.len() <= u64::MAX,
    ensures
        unsqueeze(unsqueezing, shape, 2, table) matches Some(Ok(out)) && {
            &&& out.len() == 1
            &&& out[0].data_type == shape.data_type
            &&& out[0].dims.len() == shape.dims.len() + axes.len()
            &&& forall|j: int| 0 <= j < axes.len() ==> out[0].dims[#[trigger] axes[j] as int] == 1
            &&& squeeze(squeezing, out[0], 2, table) == only(shape)
        },
{
    let dims = signed(shape.dims);
    let rank = (shape.dims.len() + axes.len()) as int;
    assert forall|j: int| 0 <= j < axes.len() implies 0 <= #[trigger] axes[j] <= dims.len() + j by {
        lemma_gap(axes, j, axes.len() - 1);
        assert(axes[axes.len() - 1] < shape.dims.len() + axes.len());
    }
    lemma_with_ones_succeeds(dims, axes, rank);
    lemma_with_ones(dims, axes, rank);
    lemma_ones_at_axes(dims, axes, rank);
    lemma_squeeze_undoes_unsqueeze(dims, axes, rank);
    lemma_signed_unsigned(with_ones(dims, axes, rank).unwrap());
    lemma_unsigned_signed(shape.dims);
}

/// `Conv`, `MaxPool` and `AveragePool` keep the element type, the number of dimensions and the
/// batch of their first input. The channels are those of the input for a pool, and the filters
/// for a convolution.
pub proof fn law_window_keeps_rank(
    node: NodeView,
    shapes: Seq<ShapeView>,
    pool: bool,
    outputs: nat,
    index: int,
)
    requires
        0 <= index < outputs,
    ensures
        window(node, shapes, pool, outputs) matches Some(Ok(out)) ==> {
            &&& out.len() == outputs
            &&& out[index].data_type == shapes[0].data_type
            &&& out[index].dims.len() == shapes[0].dims.len()
            &&& out[index].dims[0] == shapes[0].dims[0]
            &&& out[index].dims[1] == if pool {
                shapes[0].dims[1]
            } else {
                shapes[1].dims[0]
            }
        },
{
    if let Some(Ok(dims)) = window_dims(node, shapes, pool) {
        lemma_unsigned_signed(shapes[0].dims);
        lemma_unsigned_signed(shapes[1].dims);
        let first = signed(shapes[0].dims);
        let second = signed(shapes[1].dims);
        assert(unsigned(first)[0] == shapes[0].dims[0]);
        assert(unsigned(first)[1] == shapes[0].dims[1]);
        if !pool {
            assert(unsigned(second)[0] == shapes[1].dims[0]);
        }
        assert(dims[0] == first[0]);
        assert(dims[1] == if pool {
            first[1]
        } else {
            second[0]
        });
    }
}

/// With the padding that `SAME_UPPER` and `SAME_LOWER` ask for, a window has one place for each
/// stride that the dimension begins: the size divided by the stride, rounded up.
pub proof fn law_same_padding(size: i64, stride: i64, effective: i64)
    requires
        size >= 1,
        stride >= 1,
        effective >= 1,
        total_pad(size, stride, effective) matches Some(total) && in_i64(size + total),
    ensures
        ({
            let total = total_pad(size, stride, effective).unwrap();
            let small = (total as int / 2) as i64;
            let big = (total - total as int / 2) as i64;
            let count = quotient_rounded_up(size as int, stride as int);
            &&& places(size, small, big, effective, stride, false) == Some(count as i64)
            &&& places(size, big, small, effective, stride, false) == Some(count as i64)
            &&& (count - 1) * stride < size <= count * stride
        }),
{
    let total = total_pad(size, stride, effective).unwrap();
    let rest = residual(size, stride);
    let covered = if rest == 0 {
        stride as int
    } else {
        rest
    };
    let k = size as int / stride as int;
    let d = stride as int;
    lemma_fundamental_div_mod(size as int, d);
    lemma_mod_bound(size as int, d);
    if stride == 1 {
        assert(size as int % 1 == 0);
    }
    assert(rest == size as int % d);
    assert(magnitude(size as int) == size && magnitude(d) == d);
    let count = quotient_rounded_up(size as int, d);
    law_rounded_up_is_the_ceiling(size as int, d);
    assert(count == if rest == 0 {
        k
    } else {
        k + 1
    });
    assert(d * k - d == d * (k - 1)) by (nonlinear_arith);
    assert(size == d * (count - 1) + covered);
    let room = size + total - effective;
    let left = if effective < covered {
        covered - effective
    } else {
        0
    };
    assert(room == d * (count - 1) + left);
    assert(count >= 1) by {
        if count <= 0 {
            assert(d * (count - 1) <= -d) by (nonlinear_arith)
                requires
                    d >= 1,
                    count <= 0,
            ;
        }
    }
    assert(d * (count - 1) >= 0) by (nonlinear_arith)
        requires
            d >= 1,
            count >= 1,
    ;
    assert(room == (count - 1) * d + left) by (nonlinear_arith)
        requires
            room == d * (count - 1) + left,
    ;
    lemma_fundamental_div_mod_converse(room, d, count - 1, left);
    assert(quotient(room, d) == count - 1);
    assert(0 <= count - 1 <= room) by (nonlinear_arith)
        requires
            room == d * (count - 1) + left,
            d >= 1,
            count >= 1,
            left >= 0,
    ;
}

} // verus!
