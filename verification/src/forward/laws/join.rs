//! What `Gather` and `Concat` give, from their axis and the sizes of their inputs.
use vstd::prelude::*;
use crate::arith::{law_sum_adds_all_up, sum};
use crate::error::{AttributeNotFoundView, ErrorView};
use crate::forward::forward;
use crate::forward::join::sizes_along;
use crate::forward::laws::names::{lemma_concat, lemma_gather};
use crate::forward::laws::window::refused;
use crate::onnx::{NodeView, TensorView};
use crate::shape::{lemma_unsigned_signed, signed, unsigned, ShapeView};

verus! {

/// `Concat` along a dimension, named by its place or by its distance from the end, gives that
/// dimension the total of all inputs, and keeps every other one of the first input.
pub proof fn law_concat_adds_up_one_dimension(
    node: NodeView,
    shapes: Seq<ShapeView>,
    table: Map<Seq<char>, TensorView>,
    at: int,
    sizes: Seq<i64>,
)
    requires
        node.op_type == "Concat"@,
        node.output.len() == 1,
        shapes.len() >= 1,
        0 <= at < shapes[0].dims.len(),
        node.find("axis"@) matches Some(attribute) && (attribute.i == at || attribute.i == at
            - shapes[0].dims.len()),
        sizes.len() == shapes.len(),
        forall|i: int|
            0 <= i < shapes.len() ==> at < (#[trigger] shapes[i]).dims.len() && sizes[i]
                == shapes[i].dims[at] as i64,
        forall|k: int|
            0 <= k <= sizes.len() ==> i64::MIN <= (#[trigger] sizes.take(k)).fold_left(
                0int,
                |before: int, size: i64| before + size,
            ) <= i64::MAX,
    ensures
        forward(node, shapes, table) matches Some(Ok(out)) && {
            &&& out.len() == 1
            &&& out[0].data_type == shapes[0].data_type
            &&& out[0].dims.len() == shapes[0].dims.len()
            &&& out[0].dims[at] == sizes.fold_left(
                0int,
                |before: int, size: i64| before + size,
            ) as i64 as u64
            &&& forall|i: int|
                0 <= i < shapes[0].dims.len() && i != at ==> #[trigger] out[0].dims[i]
                    == shapes[0].dims[i]
        },
{
    lemma_concat();
    law_sum_adds_all_up(sizes);
    assert(sizes_along(shapes, at).unwrap() =~= sizes);
    let dims = signed(shapes[0].dims);
    lemma_unsigned_signed(shapes[0].dims);
    let total = sum(sizes).unwrap();
    assert(unsigned(dims.update(at, total)) =~= shapes[0].dims.update(at, total as u64));
}

/// `Concat` is refused without an axis, and along one that the first input does not have.
pub proof fn law_concat_needs_its_axis(
    node: NodeView,
    shapes: Seq<ShapeView>,
    table: Map<Seq<char>, TensorView>,
)
    requires
        node.op_type == "Concat"@,
        node.output.len() == 1,
        shapes.len() >= 1,
    ensures
        node.find("axis"@) is None ==> forward(node, shapes, table) == Some(
            Err::<Seq<ShapeView>, ErrorView>(
                ErrorView::MissingAttribute(
                    AttributeNotFoundView { attribute: "axis"@, node_name: node.name },
                ),
            ),
        ),
        (node.find("axis"@) matches Some(attribute) && (attribute.i < -(
        shapes[0].dims.len() as int) || attribute.i >= shapes[0].dims.len() && shapes[0].dims.len()
            > 0)) ==> forward(node, shapes, table) == refused(
            node,
            "axis attribute needs to be smaller than input tensor rank"@,
        ),
{
    lemma_concat();
}

/// `Gather` along a dimension, named by its place or by its distance from the end, puts the
/// dimensions of the indices in its place.
pub proof fn law_gather_puts_in_the_indices(
    node: NodeView,
    shapes: Seq<ShapeView>,
    table: Map<Seq<char>, TensorView>,
    at: int,
)
    requires
        node.op_type == "Gather"@,
        node.output.len() == 1,
        shapes.len() == 2,
        0 <= at < shapes[0].dims.len(),
        match node.find("axis"@) {
            Some(attribute) => attribute.i == at || attribute.i == at - shapes[0].dims.len(),
            None => at == 0,
        },
    ensures
        forward(node, shapes, table) matches Some(Ok(out)) && {
            let (r, q) = (shapes[0].dims.len() as int, shapes[1].dims.len() as int);
            &&& out.len() == 1
            &&& out[0].data_type == shapes[0].data_type
            &&& out[0].dims.len() == q + r - 1
            &&& forall|i: int| 0 <= i < at ==> #[trigger] out[0].dims[i] == shapes[0].dims[i]
            &&& forall|i: int| 0 <= i < q ==> #[trigger] shapes[1].dims[i] == out[0].dims[at + i]
            &&& forall|i: int|
                at < i < r ==> #[trigger] shapes[0].dims[i] == out[0].dims[i + q - 1]
        },
{
    lemma_gather();
    lemma_unsigned_signed(shapes[0].dims);
    lemma_unsigned_signed(shapes[1].dims);
    let dims = signed(shapes[0].dims);
    let inner = signed(shapes[1].dims);
    let joined = unsigned(dims.take(at) + inner + dims.skip(at + 1));
    assert forall|i: int| 0 <= i < at implies #[trigger] joined[i] == shapes[0].dims[i] by {
        assert(unsigned(dims)[i] == shapes[0].dims[i]);
    }
    assert forall|i: int| 0 <= i < inner.len() implies #[trigger] shapes[1].dims[i] == joined[at
        + i] by {
        assert(unsigned(inner)[i] == shapes[1].dims[i]);
    }
    assert forall|i: int| at < i < dims.len() implies #[trigger] shapes[0].dims[i] == joined[i
        + inner.len() - 1] by {
        assert(unsigned(dims)[i] == shapes[0].dims[i]);
    }
}

/// `Gather` is refused where the data has no dimension, and along one that it does not have.
pub proof fn law_gather_needs_its_axis(
    node: NodeView,
    shapes: Seq<ShapeView>,
    table: Map<Seq<char>, TensorView>,
)
    requires
        node.op_type == "Gather"@,
        node.output.len() == 1,
        shapes.len() == 2,
    ensures
        shapes[0].dims.len() == 0 ==> forward(node, shapes, table) == refused(
            node,
            "data tensor must have rank 1 or greater"@,
        ),
        shapes[0].dims.len() > 0 && (node.find("axis"@) matches Some(attribute) && (attribute.i < -(
        shapes[0].dims.len() as int) || attribute.i >= shapes[0].dims.len())) ==> forward(
            node,
            shapes,
            table,
        ) == refused(node, "axis must be less than data tensor rank"@),
{
    lemma_gather();
}

/// It makes no difference to `Concat` whether its axis is counted from the start or from the end.
pub proof fn law_concat_counts_from_either_end(
    node: NodeView,
    other: NodeView,
    shapes: Seq<ShapeView>,
    table: Map<Seq<char>, TensorView>,
)
    requires
        node.op_type == "Concat"@,
        other.op_type == node.op_type,
        other.name == node.name,
        other.input == node.input,
        other.output == node.output,
        shapes.len() >= 1,
        node.find("axis"@) matches Some(first) && (other.find("axis"@) matches Some(second) && 0
            <= first.i < shapes[0].dims.len() && second.i == first.i - shapes[0].dims.len()),
    ensures
        forward(node, shapes, table) == forward(other, shapes, table),
{
    lemma_concat();
}

/// It makes no difference to `Gather` whether its axis is counted from the start or from the end.
pub proof fn law_gather_counts_from_either_end(
    node: NodeView,
    other: NodeView,
    shapes: Seq<ShapeView>,
    table: Map<Seq<char>, TensorView>,
)
    requires
        node.op_type == "Gather"@,
        other.op_type == node.op_type,
        other.name == node.name,
        other.input == node.input,
        other.output == node.output,
        shapes.len() >= 1,
        node.find("axis"@) matches Some(first) && (other.find("axis"@) matches Some(second) && 0
            <= first.i < shapes[0].dims.len() && second.i == first.i - shapes[0].dims.len()),
    ensures
        forward(node, shapes, table) == forward(other, shapes, table),
{
    lemma_gather();
}

/// Nothing can be said of a `Concat` where an input does not have the dimension, or where the sizes
/// along it add up to no 64-bit number.
pub proof fn law_concat_needs_the_dimension_everywhere(
    node: NodeView,
    shapes: Seq<ShapeView>,
    table: Map<Seq<char>, TensorView>,
    at: int,
    i: int,
)
    requires
        node.op_type == "Concat"@,
        node.output.len() == 1,
        0 <= i < shapes.len(),
        0 <= at < shapes[0].dims.len(),
        node.find("axis"@) matches Some(attribute) && (attribute.i == at || attribute.i == at
            - shapes[0].dims.len()),
        at >= shapes[i].dims.len() || {
            let before = Seq::new(i as nat + 1, |j: int| shapes[j].dims[at] as i64).fold_left(
                0int,
                |before: int, size: i64| before + size,
            );
            before < i64::MIN || before > i64::MAX
        },
    ensures
        forward(node, shapes, table) is None,
{
    lemma_concat();
    let sizes = Seq::new(shapes.len(), |j: int| shapes[j].dims[at] as i64);
    law_sum_adds_all_up(sizes);
    assert(sizes.take(i + 1) =~= Seq::new(i as nat + 1, |j: int| shapes[j].dims[at] as i64));
    if sizes_along(shapes, at) is Some {
        assert(sizes_along(shapes, at).unwrap() =~= sizes);
        assert(at < shapes[i].dims.len());
    }
}

} // verus!
