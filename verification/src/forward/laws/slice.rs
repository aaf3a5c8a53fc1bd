//! What `Slice` gives, from the lists that it is given.
use vstd::prelude::*;
use crate::arith::{law_rounded_up_is_the_ceiling, quotient_rounded_up};
use crate::error::ErrorView;
use crate::forward::common::static_ints;
use crate::forward::forward;
use crate::forward::laws::names::lemma_slice;
use crate::forward::laws::window::refused;
use crate::forward::slice::{
    all_axes, axes_of, counted_axes, ends_of, ones, slice_end, slice_length, slice_start, sliced,
    starts_of, steps_of, zero_step,
};
use crate::onnx::{NodeView, TensorView};
use crate::shape::{lemma_unsigned_signed, signed, unsigned, ShapeView};
use crate::text::decimal;

verus! {

/// The larger of two numbers.
pub open spec fn larger(a: int, b: int) -> int {
    if a < b {
        b
    } else {
        a
    }
}

/// The smaller of two numbers.
pub open spec fn smaller(a: int, b: int) -> int {
    if a < b {
        a
    } else {
        b
    }
}

/// A slice that goes forwards starts and ends no later than behind the last element and no earlier
/// than at the first. One that goes backwards starts at an element, and ends at one or before the
/// first. A position below zero is counted from the end of the dimension.
pub proof fn law_slice_bounds(size: int, start: int, end: int, step: int)
    requires
        step != 0,
        if step > 0 {
            size >= 0
        } else {
            size >= 1
        },
    ensures
        step > 0 && start >= 0 ==> slice_start(size, start, step) == smaller(start, size),
        step > 0 && start < 0 ==> slice_start(size, start, step) == larger(size + start, 0),
        step > 0 && end >= 0 ==> slice_end(size, end, step) == smaller(end, size),
        step > 0 && end < 0 ==> slice_end(size, end, step) == larger(size + end, 0),
        step < 0 && start >= 0 ==> slice_start(size, start, step) == smaller(start, size - 1),
        step < 0 && start < 0 ==> slice_start(size, start, step) == larger(size + start, 0),
        step < 0 && end >= 0 ==> slice_end(size, end, step) == smaller(end, size - 1),
        step < 0 && end < 0 ==> slice_end(size, end, step) == larger(size + end, -1),
{
}

/// Whether a slice of a dimension takes the given number of elements: they lie a step apart, the
/// first at the start, the last before the end, and there is no room for one more.
pub open spec fn takes_elements(size: int, start: int, end: int, step: int, count: int) -> bool {
    let first = if start >= 0 {
        smaller(
            start,
            if step > 0 {
                size
            } else {
                size - 1
            },
        )
    } else {
        larger(size + start, 0)
    };
    let limit = if end >= 0 {
        smaller(
            end,
            if step > 0 {
                size
            } else {
                size - 1
            },
        )
    } else {
        larger(
            size + end,
            if step > 0 {
                0
            } else {
                -1
            },
        )
    };
    &&& count >= 0
    &&& step > 0 ==> {
        &&& count > 0 ==> first + (count - 1) * step < limit
        &&& first + count * step >= limit
    }
    &&& step < 0 ==> {
        &&& count > 0 ==> first + (count - 1) * step > limit
        &&& first + count * step <= limit
    }
}

/// The number of elements that a slice takes is the one that fits.
pub proof fn law_slice_takes_what_fits(size: int, start: int, end: int, step: int, count: int)
    requires
        step != 0,
        if step > 0 {
            size >= 0
        } else {
            size >= 1
        },
        takes_elements(size, start, end, step, count),
    ensures
        slice_length(size, start, end, step) == count,
{
    law_slice_bounds(size, start, end, step);
    let extent = slice_end(size, end, step) - slice_start(size, start, step);
    law_rounded_up_is_the_ceiling(extent, step);
    let q = quotient_rounded_up(extent, step);
    if step > 0 {
        if count > 0 {
            assert(q == count) by (nonlinear_arith)
                requires
                    step > 0,
                    (q - 1) * step < extent <= q * step,
                    (count - 1) * step < extent,
                    count * step >= extent,
            ;
        } else {
            assert(q <= 0) by (nonlinear_arith)
                requires
                    step > 0,
                    (q - 1) * step < extent,
                    extent <= 0,
            ;
        }
    } else {
        if count > 0 {
            assert(q == count) by (nonlinear_arith)
                requires
                    step < 0,
                    (q - 1) * step > extent >= q * step,
                    (count - 1) * step > extent,
                    count * step <= extent,
            ;
        } else {
            assert(q <= 0) by (nonlinear_arith)
                requires
                    step < 0,
                    (q - 1) * step > extent,
                    extent >= 0,
            ;
        }
    }
}

/// The lists that a slice goes by.
pub struct SliceLists {
    pub starts: Seq<i64>,
    pub ends: Seq<i64>,
    pub axes: Seq<i64>,
    pub steps: Seq<i64>,
}

/// Whether the constant that is named at a place is there and holds 64-bit integers.
pub open spec fn is_list(node: NodeView, table: Map<Seq<char>, TensorView>, i: int) -> bool {
    node.input.len() > i && table.contains_key(node.input[i]) && table[node.input[i]].data_type == 7
}

/// Whether the lists are those that a `Slice` asks for: the constants that it names. Without starts
/// each dimension starts at 1, and without ends it ends where it does. Without axes they are all
/// dimensions, and without steps there is one of 1 for each start.
pub open spec fn asks_for_slices(
    node: NodeView,
    shapes: Seq<ShapeView>,
    table: Map<Seq<char>, TensorView>,
    lists: SliceLists,
) -> bool {
    let dims = shapes[0].dims;
    let starts = table[node.input[1]].int64_data;
    let ends = table[node.input[2]].int64_data;
    &&& node.op_type == "Slice"@
    &&& node.output.len() == 1
    &&& 3 <= shapes.len() <= 5
    &&& is_list(node, table, 1)
    &&& is_list(node, table, 2)
    &&& if starts.len() > 0 {
        lists.starts == starts
    } else {
        lists.starts.len() == dims.len() && forall|i: int|
            0 <= i < dims.len() ==> #[trigger] lists.starts[i] == 1
    }
    &&& if ends.len() > 0 {
        lists.ends == ends
    } else {
        lists.ends.len() == dims.len() && forall|i: int|
            0 <= i < dims.len() ==> #[trigger] lists.ends[i] == dims[i] as i64
    }
    &&& shapes.len() > 3 ==> is_list(node, table, 3)
    &&& if shapes.len() > 3 && table[node.input[3]].int64_data.len() > 0 {
        lists.axes == table[node.input[3]].int64_data
    } else {
        lists.axes.len() == dims.len() && forall|i: int|
            0 <= i < dims.len() ==> #[trigger] lists.axes[i] == i as i64
    }
    &&& shapes.len() > 4 ==> is_list(node, table, 4)
    &&& if shapes.len() > 4 {
        lists.steps == table[node.input[4]].int64_data
    } else {
        lists.steps.len() == lists.starts.len() && forall|i: int|
            0 <= i < lists.steps.len() ==> #[trigger] lists.steps[i] == 1
    }
}

proof fn lemma_lists(
    node: NodeView,
    shapes: Seq<ShapeView>,
    table: Map<Seq<char>, TensorView>,
    lists: SliceLists,
)
    requires
        asks_for_slices(node, shapes, table, lists),
    ensures
        ({
            let dims = signed(shapes[0].dims);
            let starts = table[node.input[1]].int64_data;
            let ends = table[node.input[2]].int64_data;
            &&& static_ints(table, node.input[1]) == Ok::<Seq<i64>, ErrorView>(starts)
            &&& static_ints(table, node.input[2]) == Ok::<Seq<i64>, ErrorView>(ends)
            &&& starts_of(starts, dims) == lists.starts
            &&& ends_of(ends, dims) == lists.ends
            &&& axes_of(node, shapes.len(), dims.len(), table) == Some(
                Ok::<Seq<i64>, ErrorView>(lists.axes),
            )
            &&& steps_of(node, shapes.len(), lists.starts.len(), table) == Some(
                Ok::<Seq<i64>, ErrorView>(lists.steps),
            )
        }),
{
    let dims = signed(shapes[0].dims);
    let starts = table[node.input[1]].int64_data;
    let ends = table[node.input[2]].int64_data;
    if starts.len() == 0 {
        assert(ones(dims.len()) =~= lists.starts);
    }
    if ends.len() == 0 {
        assert(dims =~= lists.ends);
    }
    if !(shapes.len() > 3 && table[node.input[3]].int64_data.len() > 0) {
        assert(all_axes(dims.len()) =~= lists.axes);
    }
    if shapes.len() <= 4 {
        assert(ones(lists.starts.len()) =~= lists.steps);
    }
}

/// The dimension that an axis names; below zero it counts from the end.
pub open spec fn named(axis: i64, rank: int) -> int {
    if axis < 0 {
        rank + axis
    } else {
        axis as int
    }
}

/// Whether a slice can be taken along the `k`-th axis, and takes the given number of elements there.
pub open spec fn slices_axis(dims: Seq<u64>, lists: SliceLists, k: int, count: i64) -> bool {
    let at = named(lists.axes[k], dims.len() as int);
    let size = dims[at] as i64;
    &&& k < lists.starts.len()
    &&& k < lists.ends.len()
    &&& 0 <= at < dims.len()
    &&& lists.steps[k] > 0 && size >= 0 || lists.steps[k] < 0 && size >= 1
    &&& takes_elements(
        size as int,
        lists.starts[k] as int,
        lists.ends[k] as int,
        lists.steps[k] as int,
        count as int,
    )
}

proof fn lemma_sliced_counts(
    dims: Seq<u64>,
    out: Seq<i64>,
    lists: SliceLists,
    counts: Seq<i64>,
    k: int,
)
    requires
        0 <= k <= lists.axes.len(),
        out.len() == dims.len(),
        lists.steps.len() == lists.axes.len(),
        counts.len() == lists.axes.len(),
        forall|j: int|
            0 <= j < counts.len() ==> slices_axis(dims, lists, j, #[trigger] counts[j]),
    ensures
        sliced(
            out,
            signed(dims),
            counted_axes(lists.axes, dims.len()),
            lists.starts,
            lists.ends,
            lists.steps,
            k,
        ) matches Some(Ok(after)) && {
            &&& after.len() == dims.len()
            &&& forall|j: int|
                k <= j < counts.len() && (forall|l: int|
                    j < l < counts.len() ==> named(#[trigger] lists.axes[l], dims.len() as int)
                        != named(lists.axes[j], dims.len() as int)) ==> after[named(
                    lists.axes[j],
                    dims.len() as int,
                )] == #[trigger] counts[j]
            &&& forall|i: int|
                0 <= i < dims.len() && (forall|l: int|
                    k <= l < counts.len() ==> named(#[trigger] lists.axes[l], dims.len() as int)
                        != i) ==> #[trigger] after[i] == out[i]
        },
    decreases lists.axes.len() - k,
{
    let rank = dims.len() as int;
    if k < lists.axes.len() {
        let at = named(lists.axes[k], rank);
        let size = dims[at] as i64;
        assert(slices_axis(dims, lists, k, counts[k]));
        law_slice_takes_what_fits(
            size as int,
            lists.starts[k] as int,
            lists.ends[k] as int,
            lists.steps[k] as int,
            counts[k] as int,
        );
        assert(counted_axes(lists.axes, dims.len())[k] == at);
        let next = out.update(at, counts[k]);
        lemma_sliced_counts(dims, next, lists, counts, k + 1);
        let after = sliced(
            out,
            signed(dims),
            counted_axes(lists.axes, dims.len()),
            lists.starts,
            lists.ends,
            lists.steps,
            k,
        ).unwrap()->Ok_0;
        assert forall|j: int|
            k <= j < counts.len() && (forall|l: int|
                j < l < counts.len() ==> named(#[trigger] lists.axes[l], rank) != named(
                    lists.axes[j],
                    rank,
                )) implies after[named(lists.axes[j], rank)] == #[trigger] counts[j] by {
            if j == k {
                assert(after[at] == next[at]);
            }
        }
        assert forall|i: int|
            0 <= i < dims.len() && (forall|l: int|
                k <= l < counts.len() ==> named(#[trigger] lists.axes[l], rank)
                    != i) implies #[trigger] after[i] == out[i] by {
            assert(named(lists.axes[k], rank) != i);
            assert(next[i] == out[i]);
        }
    }
}

/// `Slice` gives each dimension that an axis names the number of elements that the slice takes
/// there, by the last of the axes that name it. The other dimensions stay, and so does the element
/// type.
pub proof fn law_slice_takes_along_its_axes(
    node: NodeView,
    shapes: Seq<ShapeView>,
    table: Map<Seq<char>, TensorView>,
    lists: SliceLists,
    counts: Seq<i64>,
)
    requires
        asks_for_slices(node, shapes, table, lists),
        lists.steps.len() == lists.axes.len(),
        counts.len() == lists.axes.len(),
        forall|j: int|
            0 <= j < counts.len() ==> slices_axis(
                shapes[0].dims,
                lists,
                j,
                #[trigger] counts[j],
            ),
    ensures
        forward(node, shapes, table) matches Some(Ok(out)) && {
            let rank = shapes[0].dims.len() as int;
            &&& out.len() == 1
            &&& out[0].data_type == shapes[0].data_type
            &&& out[0].dims.len() == rank
            &&& forall|j: int|
                0 <= j < counts.len() && (forall|l: int|
                    j < l < counts.len() ==> named(#[trigger] lists.axes[l], rank) != named(
                        lists.axes[j],
                        rank,
                    )) ==> out[0].dims[named(lists.axes[j], rank)] == #[trigger] counts[j] as u64
            &&& forall|i: int|
                0 <= i < rank && (forall|l: int|
                    0 <= l < counts.len() ==> named(#[trigger] lists.axes[l], rank) != i)
                    ==> #[trigger] out[0].dims[i] == shapes[0].dims[i]
        },
{
    lemma_slice();
    let rank = shapes[0].dims.len() as int;
    let dims = signed(shapes[0].dims);
    lemma_lists(node, shapes, table, lists);
    lemma_sliced_counts(shapes[0].dims, dims, lists, counts, 0);
    lemma_unsigned_signed(shapes[0].dims);
    let left = sliced(
        dims,
        dims,
        counted_axes(lists.axes, dims.len()),
        lists.starts,
        lists.ends,
        lists.steps,
        0,
    ).unwrap()->Ok_0;
    let out = unsigned(left);
    assert forall|j: int|
        0 <= j < counts.len() && (forall|l: int|
            j < l < counts.len() ==> named(#[trigger] lists.axes[l], rank) != named(
                lists.axes[j],
                rank,
            )) implies out[named(lists.axes[j], rank)] == #[trigger] counts[j] as u64 by {
        assert(slices_axis(shapes[0].dims, lists, j, counts[j]));
        assert(left[named(lists.axes[j], rank)] == counts[j]);
    }
    assert forall|i: int|
        0 <= i < rank && (forall|l: int|
            0 <= l < counts.len() ==> named(#[trigger] lists.axes[l], rank)
                != i) implies #[trigger] out[i] == shapes[0].dims[i] by {
        assert(left[i] == dims[i]);
        assert(unsigned(dims)[i] == shapes[0].dims[i]);
    }
}

/// `Slice` is refused where there is not one step for each axis, and, where the slices before it can
/// be taken, at a step of zero.
pub proof fn law_slice_needs_its_steps(
    node: NodeView,
    shapes: Seq<ShapeView>,
    table: Map<Seq<char>, TensorView>,
    lists: SliceLists,
    counts: Seq<i64>,
)
    requires
        asks_for_slices(node, shapes, table, lists),
    ensures
        lists.steps.len() != lists.axes.len() ==> forward(node, shapes, table) == refused(
            node,
            "length of axes attribute ("@ + decimal(lists.axes.len() as int)
                + ") must be equal to length of steps attribute ("@ + decimal(
                lists.steps.len() as int,
            ) + ")"@,
        ),
        lists.steps.len() == lists.axes.len() && counts.len() < lists.axes.len() && (forall|j: int|
            0 <= j < counts.len() ==> slices_axis(shapes[0].dims, lists, j, #[trigger] counts[j]))
            && ({
            let k = counts.len() as int;
            &&& lists.steps[k] == 0
            &&& k < lists.starts.len()
            &&& k < lists.ends.len()
            &&& 0 <= named(lists.axes[k], shapes[0].dims.len() as int) < shapes[0].dims.len()
        }) ==> forward(node, shapes, table) == Some(
            Err::<Seq<ShapeView>, ErrorView>(
                ErrorView::InvalidNode(""@, "step value must not be zero for slice"@),
            ),
        ),
{
    lemma_slice();
    lemma_lists(node, shapes, table, lists);
    if lists.steps.len() == lists.axes.len() && counts.len() < lists.axes.len() && (forall|j: int|
        0 <= j < counts.len() ==> slices_axis(shapes[0].dims, lists, j, #[trigger] counts[j])) {
        let k = counts.len() as int;
        if lists.steps[k] == 0 && k < lists.starts.len() && k < lists.ends.len() && 0 <= named(
            lists.axes[k],
            shapes[0].dims.len() as int,
        ) < shapes[0].dims.len() {
            lemma_zero_step(shapes[0].dims, signed(shapes[0].dims), lists, counts, 0);
        }
    }
}

proof fn lemma_zero_step(
    dims: Seq<u64>,
    out: Seq<i64>,
    lists: SliceLists,
    counts: Seq<i64>,
    k: int,
)
    requires
        0 <= k <= counts.len() < lists.axes.len(),
        out.len() == dims.len(),
        lists.steps.len() == lists.axes.len(),
        forall|j: int|
            0 <= j < counts.len() ==> slices_axis(dims, lists, j, #[trigger] counts[j]),
        lists.steps[counts.len() as int] == 0,
        counts.len() < lists.starts.len(),
        counts.len() < lists.ends.len(),
        0 <= named(lists.axes[counts.len() as int], dims.len() as int) < dims.len(),
    ensures
        sliced(
            out,
            signed(dims),
            counted_axes(lists.axes, dims.len()),
            lists.starts,
            lists.ends,
            lists.steps,
            k,
        ) == Some(Err::<Seq<i64>, ErrorView>(zero_step())),
    decreases counts.len() - k,
{
    let at = named(lists.axes[k], dims.len() as int);
    assert(counted_axes(lists.axes, dims.len())[k] == at);
    if k < counts.len() {
        assert(slices_axis(dims, lists, k, counts[k]));
        law_slice_takes_what_fits(
            dims[at] as i64 as int,
            lists.starts[k] as int,
            lists.ends[k] as int,
            lists.steps[k] as int,
            counts[k] as int,
        );
        lemma_zero_step(dims, out.update(at, counts[k]), lists, counts, k + 1);
    }
}

/// The inputs of `Slice` from the second on have to be constants of 64-bit integers; the first that
/// is not is named.
pub proof fn law_slice_needs_constants(
    node: NodeView,
    shapes: Seq<ShapeView>,
    table: Map<Seq<char>, TensorView>,
    i: int,
)
    requires
        node.op_type == "Slice"@,
        node.output.len() == 1,
        3 <= shapes.len() <= 5,
        node.input.len() == shapes.len(),
        1 <= i < shapes.len(),
        forall|j: int| 1 <= j < i ==> #[trigger] is_list(node, table, j),
    ensures
        ({
            let name = node.input[i];
            &&& !table.contains_key(name) ==> forward(node, shapes, table) == Some(
                Err::<Seq<ShapeView>, ErrorView>(
                    ErrorView::Unsupported(
                        "input "@ + name + " is dynamic (only static initializers are supported)"@,
                    ),
                ),
            )
            &&& table.contains_key(name) && table[name].data_type != 7 ==> forward(
                node,
                shapes,
                table,
            ) == Some(
                Err::<Seq<ShapeView>, ErrorView>(
                    ErrorView::Unsupported(
                        "initializer "@ + name + " has data type "@ + decimal(
                            table[name].data_type as int,
                        ) + " and not int64, which is currently not supported"@,
                    ),
                ),
            )
        }),
{
    lemma_slice();
    assert(i > 1 ==> is_list(node, table, 1));
    assert(i > 2 ==> is_list(node, table, 2));
    assert(i > 3 ==> is_list(node, table, 3));
}

} // verus!
