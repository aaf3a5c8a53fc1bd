//! What `Reshape`, `Unsqueeze` and `Squeeze` give, from the lists that they are given.
use vstd::prelude::*;
use crate::arith::{
    law_product_multiplies_all, law_unsigned_product_multiplies_all, product,
};
use crate::error::{AttributeNotFoundView, ErrorView};
use crate::forward::forward;
use crate::forward::laws::names::{lemma_reshape, lemma_squeeze, lemma_unsqueeze};
use crate::forward::laws::simple::{
    kept_places, lemma_kept_places, lemma_places_below, lemma_same_places,
};
use crate::forward::laws::window::refused;
use crate::forward::reshape::{filled, first_negative, goes, squeezed, with_ones};
use crate::onnx::{NodeView, TensorView};
use crate::shape::{lemma_unsigned_signed, signed, unsigned, ShapeView};
use crate::text::decimal;

verus! {

/// Whether a node is a `Reshape` to sizes that are known.
pub open spec fn reshapes_to(
    node: NodeView,
    shapes: Seq<ShapeView>,
    table: Map<Seq<char>, TensorView>,
    wanted: Seq<i64>,
) -> bool {
    &&& node.op_type == "Reshape"@
    &&& shapes.len() == 2
    &&& node.output.len() == 1
    &&& node.input.len() >= 2
    &&& table.contains_key(node.input[1])
    &&& table[node.input[1]].int64_data == wanted
}

/// Whether no partial product of the wanted sizes, and none of the sizes that are there, leaves the
/// range of its numbers.
pub open spec fn countable(wanted: Seq<i64>, dims: Seq<u64>) -> bool {
    &&& forall|k: int|
        0 <= k <= wanted.len() ==> i64::MIN <= (#[trigger] wanted.take(k)).fold_left(
            1int,
            |before: int, value: i64| before * value,
        ) <= i64::MAX
    &&& forall|k: int|
        0 <= k <= dims.len() ==> (#[trigger] dims.take(k)).fold_left(
            1int,
            |before: int, value: u64| before * value,
        ) <= u64::MAX
}

/// `Reshape` to as many elements as there are gives the wanted sizes. A zero among them stands for
/// the size that the input has there, unless the node allows zeros.
pub proof fn law_reshape_gives_the_wanted_sizes(
    node: NodeView,
    shapes: Seq<ShapeView>,
    table: Map<Seq<char>, TensorView>,
    wanted: Seq<i64>,
)
    requires
        reshapes_to(node, shapes, table, wanted),
        countable(wanted, shapes[0].dims),
        wanted.fold_left(1int, |before: int, value: i64| before * value)
            == shapes[0].dims.fold_left(1int, |before: int, value: u64| before * value),
        forall|i: int| 0 <= i < wanted.len() ==> #[trigger] wanted[i] >= 0,
        forall|i: int|
            0 <= i < wanted.len() && #[trigger] wanted[i] == 0 && !(node.find(
                "allowzero"@,
            ) matches Some(attribute) && attribute.i == 1) ==> i < shapes[0].dims.len(),
    ensures
        forward(node, shapes, table) matches Some(Ok(out)) && {
            &&& out.len() == 1
            &&& out[0].data_type == shapes[0].data_type
            &&& out[0].dims.len() == wanted.len()
            &&& forall|i: int|
                0 <= i < wanted.len() ==> #[trigger] out[0].dims[i] == if wanted[i] == 0 && !(
                node.find("allowzero"@) matches Some(attribute) && attribute.i == 1) {
                    shapes[0].dims[i]
                } else {
                    wanted[i] as u64
                }
        },
{
    lemma_reshape();
    law_product_multiplies_all(wanted);
    law_unsigned_product_multiplies_all(shapes[0].dims);
    let count = shapes[0].element_count().unwrap();
    let total = product(wanted).unwrap();
    assert(total == count);
    assert(total == count as i64);
    lemma_no_negative(wanted);
    let allow = node.int_or("allowzero"@, 0) == 1;
    let dims = signed(shapes[0].dims);
    assert(filled(wanted, dims, allow) is Some);
    lemma_unsigned_signed(shapes[0].dims);
    let out = unsigned(filled(wanted, dims, allow).unwrap());
    assert forall|i: int| 0 <= i < wanted.len() implies #[trigger] out[i] == if wanted[i] == 0
        && !allow {
        shapes[0].dims[i]
    } else {
        wanted[i] as u64
    } by {
        if wanted[i] == 0 && !allow {
            assert(unsigned(dims)[i] == shapes[0].dims[i]);
        }
    }
}

proof fn lemma_no_negative(sizes: Seq<i64>)
    requires
        forall|i: int| 0 <= i < sizes.len() ==> #[trigger] sizes[i] >= 0,
    ensures
        first_negative(sizes) is None,
    decreases sizes.len(),
{
    if sizes.len() > 0 {
        let rest = sizes.drop_first();
        assert(sizes[0] >= 0);
        assert forall|i: int| 0 <= i < rest.len() implies #[trigger] rest[i] >= 0 by {
            assert(rest[i] == sizes[i + 1]);
        }
        lemma_no_negative(rest);
    }
}

proof fn lemma_first_negative_at(sizes: Seq<i64>, at: int)
    requires
        0 <= at < sizes.len(),
        sizes[at] < 0,
        forall|i: int| 0 <= i < at ==> #[trigger] sizes[i] >= 0,
    ensures
        first_negative(sizes) == Some(sizes[at]),
    decreases sizes.len(),
{
    if at > 0 {
        let rest = sizes.drop_first();
        assert(sizes[0] >= 0);
        assert forall|i: int| 0 <= i < at - 1 implies #[trigger] rest[i] >= 0 by {
            assert(rest[i] == sizes[i + 1]);
        }
        lemma_first_negative_at(rest, at - 1);
    }
}

/// `Reshape` is refused to another number of elements than there are.
pub proof fn law_reshape_keeps_the_count(
    node: NodeView,
    shapes: Seq<ShapeView>,
    table: Map<Seq<char>, TensorView>,
    wanted: Seq<i64>,
)
    requires
        reshapes_to(node, shapes, table, wanted),
        countable(wanted, shapes[0].dims),
        wanted.fold_left(1int, |before: int, value: i64| before * value)
            != shapes[0].dims.fold_left(
            1int,
            |before: int, value: u64| before * value,
        ) as u64 as i64,
    ensures
        forward(node, shapes, table) == refused(
            node,
            "Reshape shape tensor (element count="@ + decimal(
                wanted.fold_left(1int, |before: int, value: i64| before * value),
            ) + ") must have the same number of elements as the input tensor's rank ("@ + decimal(
                shapes[0].dims.fold_left(1int, |before: int, value: u64| before * value),
            ) + ")"@,
        ),
{
    lemma_reshape();
    law_product_multiplies_all(wanted);
    law_unsigned_product_multiplies_all(shapes[0].dims);
}

/// `Reshape` to as many elements as there are, but with sizes below zero, is refused for the first
/// of these: it is not supported where that is -1, and not valid where it is another.
pub proof fn law_reshape_takes_no_size_below_zero(
    node: NodeView,
    shapes: Seq<ShapeView>,
    table: Map<Seq<char>, TensorView>,
    wanted: Seq<i64>,
    at: int,
)
    requires
        reshapes_to(node, shapes, table, wanted),
        countable(wanted, shapes[0].dims),
        wanted.fold_left(1int, |before: int, value: i64| before * value)
            == shapes[0].dims.fold_left(1int, |before: int, value: u64| before * value),
        0 <= at < wanted.len(),
        wanted[at] < 0,
        forall|i: int| 0 <= i < at ==> #[trigger] wanted[i] >= 0,
    ensures
        wanted[at] == -1 ==> forward(node, shapes, table) == Some(
            Err::<Seq<ShapeView>, ErrorView>(
                ErrorView::Unsupported("Reshape with shape containing a -1 element"@),
            ),
        ),
        wanted[at] != -1 ==> forward(node, shapes, table) == refused(
            node,
            "Reshape shape tensor cannot contain negative values except for -1 (contains "@
                + decimal(wanted[at] as int) + ")"@,
        ),
{
    lemma_reshape();
    law_product_multiplies_all(wanted);
    law_unsigned_product_multiplies_all(shapes[0].dims);
    let count = shapes[0].element_count().unwrap();
    assert(product(wanted).unwrap() == count as i64);
    lemma_first_negative_at(wanted, at);
}

/// `Reshape`, and `Unsqueeze` and `Squeeze` with axes as an input, are not supported where the list
/// is no constant.
pub proof fn law_lists_have_to_be_constants(
    node: NodeView,
    shapes: Seq<ShapeView>,
    table: Map<Seq<char>, TensorView>,
)
    requires
        shapes.len() == 2,
        node.output.len() == 1,
        node.input.len() >= 2,
        !table.contains_key(node.input[1]),
    ensures
        node.op_type == "Reshape"@ ==> forward(node, shapes, table) == Some(
            Err::<Seq<ShapeView>, ErrorView>(
                ErrorView::Unsupported("Reshape with dynamic shape tensor"@),
            ),
        ),
        node.op_type == "Unsqueeze"@ || node.op_type == "Squeeze"@ ==> forward(
            node,
            shapes,
            table,
        ) == Some(
            Err::<Seq<ShapeView>, ErrorView>(
                ErrorView::Unsupported("Unsqueeze with dynamic axis inputs"@),
            ),
        ),
{
    lemma_reshape();
    lemma_unsqueeze();
    lemma_squeeze();
}

/// Where an axis lies among the dimensions that come out; below zero it counts from their end.
pub open spec fn place(axis: i64, rank: int) -> int {
    if axis < 0 {
        rank + axis
    } else {
        axis as int
    }
}

proof fn lemma_with_ones_folds(dims: Seq<i64>, axes: Seq<i64>, rank: int)
    requires
        forall|k: int|
            0 <= k < axes.len() ==> 0 <= place(#[trigger] axes[k], rank) <= dims.len() + k,
    ensures
        with_ones(dims, axes, rank) == Some(
            axes.fold_left_alt(
                dims,
                |before: Seq<i64>, axis: i64| before.insert(place(axis, rank), 1i64),
            ),
        ),
    decreases axes.len(),
{
    let put = |before: Seq<i64>, axis: i64| before.insert(place(axis, rank), 1i64);
    if axes.len() > 0 {
        let rest = axes.drop_first();
        let next = dims.insert(place(axes[0], rank), 1i64);
        assert forall|k: int| 0 <= k < rest.len() implies 0 <= place(#[trigger] rest[k], rank)
            <= next.len() + k by {
            assert(rest[k] == axes[k + 1]);
        }
        lemma_with_ones_folds(next, rest, rank);
        assert(axes.subrange(1, axes.len() as int) =~= rest);
        assert(put(dims, axes[0]) == next);
    }
}

proof fn lemma_unsigned_folds(dims: Seq<i64>, axes: Seq<i64>, rank: int)
    requires
        forall|k: int|
            0 <= k < axes.len() ==> 0 <= place(#[trigger] axes[k], rank) <= dims.len() + k,
    ensures
        unsigned(
            axes.fold_left_alt(
                dims,
                |before: Seq<i64>, axis: i64| before.insert(place(axis, rank), 1i64),
            ),
        ) == axes.fold_left_alt(
            unsigned(dims),
            |before: Seq<u64>, axis: i64| before.insert(place(axis, rank), 1u64),
        ),
    decreases axes.len(),
{
    if axes.len() > 0 {
        let rest = axes.drop_first();
        let next = dims.insert(place(axes[0], rank), 1i64);
        assert forall|k: int| 0 <= k < rest.len() implies 0 <= place(#[trigger] rest[k], rank)
            <= next.len() + k by {
            assert(rest[k] == axes[k + 1]);
        }
        lemma_unsigned_folds(next, rest, rank);
        assert(axes.subrange(1, axes.len() as int) =~= rest);
        assert(unsigned(next) =~= unsigned(dims).insert(place(axes[0], rank), 1u64));
    }
}

/// `Unsqueeze` puts a dimension of size 1 in at each of its axes, one after the other. The axes are
/// an attribute or, with a second input, the numbers of that constant.
pub proof fn law_unsqueeze_puts_ones_in(
    node: NodeView,
    shapes: Seq<ShapeView>,
    table: Map<Seq<char>, TensorView>,
    axes: Seq<i64>,
)
    requires
        node.op_type == "Unsqueeze"@,
        node.output.len() == 1,
        shapes.len() == 1 && (node.find("axes"@) matches Some(attribute) && attribute.ints == axes)
            || shapes.len() == 2 && node.input.len() >= 2 && table.contains_key(node.input[1])
            && table[node.input[1]].int64_data == axes,
        forall|k: int|
            0 <= k < axes.len() ==> 0 <= place(
                #[trigger] axes[k],
                (shapes[0].dims.len() + axes.len()) as int,
            ) <= shapes[0].dims.len() + k,
    ensures
        forward(node, shapes, table) matches Some(Ok(out)) && {
            let rank = (shapes[0].dims.len() + axes.len()) as int;
            &&& out.len() == 1
            &&& out[0].data_type == shapes[0].data_type
            &&& out[0].dims == axes.fold_left(
                shapes[0].dims,
                |before: Seq<u64>, axis: i64| before.insert(place(axis, rank), 1u64),
            )
        },
{
    lemma_unsqueeze();
    let rank = (shapes[0].dims.len() + axes.len()) as int;
    let dims = signed(shapes[0].dims);
    lemma_with_ones_folds(dims, axes, rank);
    lemma_unsigned_folds(dims, axes, rank);
    lemma_unsigned_signed(shapes[0].dims);
    axes.lemma_fold_left_alt(
        shapes[0].dims,
        |before: Seq<u64>, axis: i64| before.insert(place(axis, rank), 1u64),
    );
}

/// `Unsqueeze` with one input is refused without the attribute `axes`.
pub proof fn law_unsqueeze_needs_axes(
    node: NodeView,
    shapes: Seq<ShapeView>,
    table: Map<Seq<char>, TensorView>,
)
    requires
        node.op_type == "Unsqueeze"@,
        node.output.len() == 1,
        shapes.len() == 1,
        node.find("axes"@) is None,
    ensures
        forward(node, shapes, table) == Some(
            Err::<Seq<ShapeView>, ErrorView>(
                ErrorView::MissingAttribute(
                    AttributeNotFoundView { attribute: "axes"@, node_name: node.name },
                ),
            ),
        ),
{
    lemma_unsqueeze();
}

proof fn lemma_squeezed_places(dims: Seq<i64>, axes: Option<Seq<i64>>)
    ensures
        squeezed(dims, axes) == kept_places(
            dims.len(),
            |i: int| !goes(axes, i, dims[i]),
        ).map_values(|i: int| dims[i]),
    decreases dims.len(),
{
    let keeps = |i: int| !goes(axes, i, dims[i]);
    reveal(Seq::filter);
    if dims.len() == 0 {
        assert(kept_places(0, keeps) =~= Seq::<int>::empty());
        assert(squeezed(dims, axes) =~= kept_places(0, keeps).map_values(|i: int| dims[i]));
    } else {
        let fewer = dims.drop_last();
        let keeps_fewer = |i: int| !goes(axes, i, fewer[i]);
        lemma_squeezed_places(fewer, axes);
        lemma_same_places(fewer.len(), keeps_fewer, keeps);
        lemma_kept_places(dims.len(), keeps);
        lemma_places_below(fewer.len(), keeps);
        let places = kept_places(fewer.len(), keeps);
        assert(places.map_values(|i: int| fewer[i]) =~= places.map_values(|i: int| dims[i]));
        assert(squeezed(dims, axes) =~= kept_places(dims.len(), keeps).map_values(
            |i: int| dims[i],
        ));
    }
}

/// `Squeeze` leaves out the dimensions of size 1 or, with a second input, those that this constant
/// names by their places, and keeps the others in their order.
pub proof fn law_squeeze_leaves_dimensions_out(
    node: NodeView,
    shapes: Seq<ShapeView>,
    table: Map<Seq<char>, TensorView>,
)
    requires
        node.op_type == "Squeeze"@,
        node.output.len() == 1,
        shapes.len() == 1 || shapes.len() == 2 && node.input.len() >= 2 && table.contains_key(
            node.input[1],
        ),
        shapes[0].dims.len() <= i64::MAX,
    ensures
        forward(node, shapes, table) matches Some(Ok(out)) && {
            &&& out.len() == 1
            &&& out[0].data_type == shapes[0].data_type
            &&& out[0].dims == kept_places(
                shapes[0].dims.len(),
                |i: int|
                    if shapes.len() == 1 {
                        shapes[0].dims[i] != 1
                    } else {
                        !table[node.input[1]].int64_data.contains(i as i64)
                    },
            ).map_values(|i: int| shapes[0].dims[i])
        },
{
    lemma_squeeze();
    let dims = signed(shapes[0].dims);
    let rank = dims.len();
    let axes = if shapes.len() == 1 {
        None
    } else {
        Some(table[node.input[1]].int64_data)
    };
    lemma_squeezed_places(dims, axes);
    lemma_unsigned_signed(shapes[0].dims);
    let some = |i: int| !goes(axes, i, dims[i]);
    let other = |i: int|
        if shapes.len() == 1 {
            shapes[0].dims[i] != 1
        } else {
            !table[node.input[1]].int64_data.contains(i as i64)
        };
    assert forall|i: int| 0 <= i < rank implies #[trigger] some(i) == other(i) by {
        let d = shapes[0].dims[i];
        assert((d as i64 == 1) == (d == 1)) by (bit_vector);
    }
    lemma_same_places(rank, some, other);
    lemma_places_below(rank, some);
    let places = kept_places(rank, some);
    let left = unsigned(places.map_values(|i: int| dims[i]));
    let right = places.map_values(|i: int| shapes[0].dims[i]);
    assert forall|k: int| 0 <= k < places.len() implies #[trigger] left[k] == right[k] by {
        assert(unsigned(dims)[places[k]] == shapes[0].dims[places[k]]);
    }
    assert(left =~= right);
}

} // verus!
