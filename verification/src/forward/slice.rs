//! The `Slice` operator.
use vstd::hash_map::StringHashMap;
use vstd::prelude::*;
use vstd::string::StringExecFns;
use crate::arith::{div_ceil, divides, in_i64, magnitude, quotient_rounded_up};
use crate::error::{ErrorView, ShapeInferenceError};
use crate::forward::common::{
    constants, invalid, invalid_node, one_shape, outcome, single, static_initializer_value_i64,
    static_ints, Outcome,
};
use crate::onnx::{NodeProto, NodeView, TensorProto, TensorView};
use crate::shape::{signed, Shape, ShapeView};
use crate::text::{decimal, unsigned_text};

verus! {

/// `x`, but no less than `low` and no more than `high`.
pub open spec fn clamp(x: int, low: int, high: int) -> int {
    if x < low {
        low
    } else if x > high {
        high
    } else {
        x
    }
}

/// A position counted from the end of a dimension when it is below zero.
pub open spec fn from_end(position: int, size: int) -> int {
    if position < 0 {
        position + size
    } else {
        position
    }
}

/// Where a slice of a dimension of the given size starts.
pub open spec fn slice_start(size: int, start: int, step: int) -> int {
    if step < 0 {
        clamp(from_end(start, size), 0, size - 1)
    } else {
        clamp(from_end(start, size), 0, size)
    }
}

/// Where a slice of a dimension of the given size ends: the first position that it leaves out.
pub open spec fn slice_end(size: int, end: int, step: int) -> int {
    if step < 0 {
        clamp(from_end(end, size), -1, size - 1)
    } else {
        clamp(from_end(end, size), 0, size)
    }
}

/// Whether a dimension of the given size can be sliced with the given step: backwards only from
/// an element, forwards also where there is none.
pub open spec fn sliceable(size: int, step: int) -> bool {
    if step < 0 {
        size >= 1
    } else {
        size >= 0
    }
}

/// The error about a step of zero.
pub open spec fn zero_step() -> ErrorView {
    ErrorView::InvalidNode(""@, "step value must not be zero for slice"@)
}

fn clamped(x: i64, low: i64, high: i64) -> (y: i64)
    ensures
        y == clamp(x as int, low as int, high as int),
{
    if x < low {
        low
    } else if x > high {
        high
    } else {
        x
    }
}

/// Bring the start and the end of a slice into the range of a dimension.
pub fn process_slice_inputs(
    input_rank: i64,
    start: &mut i64,
    end: &mut i64,
    step: &mut i64,
) -> (result: Result<(), ShapeInferenceError>)
    requires
        *old(step) == 0 || sliceable(input_rank as int, *old(step) as int),
    ensures
        *final(step) == *old(step),
        match result {
            Ok(_) => {
                &&& *old(step) != 0
                &&& *final(start) == slice_start(
                    input_rank as int,
                    *old(start) as int,
                    *old(step) as int,
                )
                &&& *final(end) == slice_end(
                    input_rank as int,
                    *old(end) as int,
                    *old(step) as int,
                )
            },
            Err(error) => {
                &&& *old(step) == 0
                &&& error@ == zero_step()
                &&& *final(start) == *old(start)
                &&& *final(end) == *old(end)
            },
        },
{
    if *step == 0 {
        return Err(
            ShapeInferenceError::InvalidNode(
                "".to_owned(),
                "step value must not be zero for slice".to_owned(),
            ),
        );
    }
    if *start < 0 {
        *start = *start + input_rank;
    }
    if *step < 0 {
        *start = clamped(*start, 0, input_rank - 1);
    } else {
        *start = clamped(*start, 0, input_rank);
    }
    if *end < 0 {
        *end = *end + input_rank;
    }
    if *step < 0 {
        *end = clamped(*end, -1, input_rank - 1);
    } else {
        *end = clamped(*end, 0, input_rank);
    }
    Ok(())
}

/// The number of elements that a slice of a dimension of the given size takes.
pub open spec fn slice_length(size: int, start: int, end: int, step: int) -> int {
    let count = quotient_rounded_up(
        slice_end(size, end, step) - slice_start(size, start, step),
        step,
    );
    if count < 0 {
        0
    } else {
        count
    }
}

/// The extent of a slice can be divided by its step.
pub proof fn lemma_slice_extent(size: i64, start: int, end: int, step: i64)
    requires
        step != 0,
        sliceable(size as int, step as int),
    ensures
        in_i64(
            slice_end(size as int, end, step as int) - slice_start(
                size as int,
                start,
                step as int,
            ),
        ),
        divides(
            slice_end(size as int, end, step as int) - slice_start(
                size as int,
                start,
                step as int,
            ),
            step as int,
        ),
{
    let extent = slice_end(size as int, end, step as int) - slice_start(
        size as int,
        start,
        step as int,
    );
    let n = magnitude(extent);
    let d = magnitude(step as int);
    assert(0 <= n / d <= n) by (nonlinear_arith)
        requires
            n >= 0,
            d >= 1,
    ;
}

/// The numbers from 0 up to the rank.
pub open spec fn all_axes(rank: nat) -> Seq<i64> {
    Seq::new(rank, |i: int| i as i64)
}

/// The number 1, `count` times.
pub open spec fn ones(count: nat) -> Seq<i64> {
    Seq::new(count, |i: int| 1i64)
}

/// Axes of which those below zero count from the last dimension.
pub open spec fn counted_axes(axes: Seq<i64>, rank: nat) -> Seq<int> {
    Seq::new(axes.len(), |i: int| from_end(axes[i] as int, rank as int))
}

/// The sizes that are left of `out` when, from the `k`-th on, the axes are sliced. `dims` are the
/// sizes before any slice.
pub open spec fn sliced(
    out: Seq<i64>,
    dims: Seq<i64>,
    axes: Seq<int>,
    starts: Seq<i64>,
    ends: Seq<i64>,
    steps: Seq<i64>,
    k: int,
) -> Option<Result<Seq<i64>, ErrorView>>
    decreases axes.len() - k,
{
    if k < 0 || k >= axes.len() {
        Some(Ok(out))
    } else if k >= starts.len() || k >= ends.len() || !(0 <= axes[k] < dims.len()) {
        None
    } else if steps[k] == 0 {
        Some(Err(zero_step()))
    } else {
        let size = dims[axes[k]] as int;
        if sliceable(size, steps[k] as int) {
            let length = slice_length(size, starts[k] as int, ends[k] as int, steps[k] as int);
            sliced(
                out.update(axes[k], length as i64),
                dims,
                axes,
                starts,
                ends,
                steps,
                k + 1,
            )
        } else {
            None
        }
    }
}

/// Where the slices start: as given, or at 1 in each dimension when nothing is given.
pub open spec fn starts_of(given: Seq<i64>, dims: Seq<i64>) -> Seq<i64> {
    if given.len() == 0 {
        ones(dims.len())
    } else {
        given
    }
}

/// Where the slices end: as given, or at the end of each dimension when nothing is given.
pub open spec fn ends_of(given: Seq<i64>, dims: Seq<i64>) -> Seq<i64> {
    if given.len() == 0 {
        dims
    } else {
        given
    }
}

/// The axes to slice: those that the fourth input holds, or else all.
pub open spec fn axes_of(
    node: NodeView,
    inputs: nat,
    rank: nat,
    table: Map<Seq<char>, TensorView>,
) -> Option<Result<Seq<i64>, ErrorView>> {
    if inputs <= 3 {
        Some(Ok(all_axes(rank)))
    } else if node.input.len() <= 3 {
        None
    } else {
        match static_ints(table, node.input[3]) {
            Ok(axes) => Some(
                Ok(
                    if axes.len() == 0 {
                        all_axes(rank)
                    } else {
                        axes
                    },
                ),
            ),
            Err(error) => Some(Err(error)),
        }
    }
}

/// The steps of the slices: those that the fifth input holds, or else 1 for each start.
pub open spec fn steps_of(
    node: NodeView,
    inputs: nat,
    starts: nat,
    table: Map<Seq<char>, TensorView>,
) -> Option<Result<Seq<i64>, ErrorView>> {
    if inputs <= 4 {
        Some(Ok(ones(starts)))
    } else if node.input.len() <= 4 {
        None
    } else {
        match static_ints(table, node.input[4]) {
            Ok(steps) => Some(Ok(steps)),
            Err(error) => Some(Err(error)),
        }
    }
}

/// What is said of axes and steps that differ in number.
pub open spec fn uneven_axes(axes: nat, steps: nat) -> Seq<char> {
    "length of axes attribute ("@ + decimal(axes as int)
        + ") must be equal to length of steps attribute ("@ + decimal(steps as int) + ")"@
}

/// `Slice`: along each of the axes, the number of elements from the start to the end in steps. A
/// start or an end below zero counts from the end of the axis that it belongs to.
pub open spec fn slice(
    node: NodeView,
    data: ShapeView,
    inputs: nat,
    table: Map<Seq<char>, TensorView>,
) -> Outcome {
    let dims = signed(data.dims);
    if node.input.len() < 2 {
        None
    } else {
        match static_ints(table, node.input[1]) {
            Err(error) => Some(Err(error)),
            Ok(starts) => if node.input.len() < 3 {
                None
            } else {
                match static_ints(table, node.input[2]) {
                    Err(error) => Some(Err(error)),
                    Ok(ends) => slice_along(
                        node,
                        data,
                        inputs,
                        table,
                        starts_of(starts, dims),
                        ends_of(ends, dims),
                    ),
                }
            },
        }
    }
}

/// `Slice`, from the starts and ends on.
pub open spec fn slice_along(
    node: NodeView,
    data: ShapeView,
    inputs: nat,
    table: Map<Seq<char>, TensorView>,
    starts: Seq<i64>,
    ends: Seq<i64>,
) -> Outcome {
    let dims = signed(data.dims);
    match axes_of(node, inputs, dims.len(), table) {
        None => None,
        Some(Err(error)) => Some(Err(error)),
        Some(Ok(axes)) => match steps_of(node, inputs, starts.len(), table) {
            None => None,
            Some(Err(error)) => Some(Err(error)),
            Some(Ok(steps)) => if axes.len() != steps.len() {
                Some(Err(invalid(node, uneven_axes(axes.len(), steps.len()))))
            } else {
                match sliced(
                    dims,
                    dims,
                    counted_axes(axes, dims.len()),
                    starts,
                    ends,
                    steps,
                    0,
                ) {
                    None => None,
                    Some(Err(error)) => Some(Err(error)),
                    Some(Ok(out)) => single(data.data_type, out),
                }
            },
        },
    }
}

/// The number 1, `count` times.
pub fn list_of_ones(count: usize) -> (list: Vec<i64>)
    ensures
        list@ == ones(count as nat),
{
    let mut list: Vec<i64> = Vec::new();
    let mut i: usize = 0;
    while i < count
        invariant
            i <= count,
            list@ == ones(i as nat),
        decreases count - i,
    {
        list.push(1);
        i = i + 1;
        assert(list@ =~= ones(i as nat));
    }
    list
}

/// The numbers from 0 up to the rank.
pub fn list_of_axes(rank: usize) -> (list: Vec<i64>)
    ensures
        list@ == all_axes(rank as nat),
{
    let mut list: Vec<i64> = Vec::new();
    let mut i: usize = 0;
    while i < rank
        invariant
            i <= rank,
            list@ == all_axes(i as nat),
        decreases rank - i,
    {
        list.push(
            #[verifier::truncate]
            (i as i64),
        );
        i = i + 1;
        assert(list@ =~= all_axes(i as nat));
    }
    list
}

fn slice_all(
    dims: &Vec<i64>,
    axes: &Vec<i64>,
    starts: &Vec<i64>,
    ends: &Vec<i64>,
    steps: &Vec<i64>,
) -> (result: Option<Result<Vec<i64>, ShapeInferenceError>>)
    requires
        axes@.len() == steps@.len(),
    ensures
        sliced(
            dims@,
            dims@,
            counted_axes(axes@, dims@.len()),
            starts@,
            ends@,
            steps@,
            0,
        ) == (match result {
            Some(Ok(out)) => Some(Ok::<Seq<i64>, ErrorView>(out@)),
            Some(Err(error)) => Some(Err::<Seq<i64>, ErrorView>(error@)),
            None => None,
        }),
{
    let ghost counted = counted_axes(axes@, dims@.len());
    let ghost whole = sliced(dims@, dims@, counted, starts@, ends@, steps@, 0);
    let mut out: Vec<i64> = dims.clone();
    assert(out@ =~= dims@);
    let rank: i128 = dims.len() as i128;
    let mut k: usize = 0;
    while k < axes.len()
        invariant
            k <= axes@.len(),
            axes@.len() == steps@.len(),
            rank == dims@.len(),
            rank <= usize::MAX,
            out@.len() == dims@.len(),
            counted == counted_axes(axes@, dims@.len()),
            whole == sliced(dims@, dims@, counted, starts@, ends@, steps@, 0),
            whole == sliced(out@, dims@, counted, starts@, ends@, steps@, k as int),
        decreases axes@.len() - k,
    {
        if k >= starts.len() || k >= ends.len() {
            return None;
        }
        let axis: i128 = if axes[k] < 0 {
            axes[k] as i128 + rank
        } else {
            axes[k] as i128
        };
        assert(axis == counted[k as int]);
        if axis < 0 || axis >= rank {
            return None;
        }
        let at: usize = axis as usize;
        let size: i64 = dims[at];
        let mut start: i64 = starts[k];
        let mut end: i64 = ends[k];
        let mut step: i64 = steps[k];
        if step < 0 && size < 1 || step > 0 && size < 0 {
            return None;
        }
        match process_slice_inputs(size, &mut start, &mut end, &mut step) {
            Err(error) => {
                return Some(Err(error));
            },
            Ok(_) => {},
        }
        proof {
            lemma_slice_extent(
                size,
                starts@[k as int] as int,
                ends@[k as int] as int,
                steps@[k as int],
            );
        }
        let count: i64 = div_ceil(end - start, step);
        let length: i64 = if count < 0 {
            0
        } else {
            count
        };
        out[at] = length;
        k = k + 1;
    }
    Some(Ok(out))
}

/// The rule for `Slice`.
pub fn infer_slice(
    node: &NodeProto,
    data: &Shape,
    inputs: usize,
    initializers: &StringHashMap<&TensorProto>,
) -> (result: Option<Result<Vec<Shape>, ShapeInferenceError>>)
    ensures
        outcome(result) == slice(node@, data@, inputs as nat, constants(initializers@)),
{
    let dims = data.signed_dims();
    let rank: usize = dims.len();
    if node.input.len() < 2 {
        return None;
    }
    let starts: Vec<i64> = match static_initializer_value_i64(
        initializers,
        node.input[1].as_str(),
    ) {
        Err(error) => {
            return Some(Err(error));
        },
        Ok(given) => if given.len() == 0 {
            list_of_ones(rank)
        } else {
            vstd::slice::slice_to_vec(given)
        },
    };
    if node.input.len() < 3 {
        return None;
    }
    let ends: Vec<i64> = match static_initializer_value_i64(initializers, node.input[2].as_str()) {
        Err(error) => {
            return Some(Err(error));
        },
        Ok(given) => if given.len() == 0 {
            data.signed_dims()
        } else {
            vstd::slice::slice_to_vec(given)
        },
    };
    let axes: Vec<i64> = if inputs <= 3 {
        list_of_axes(rank)
    } else if node.input.len() <= 3 {
        return None;
    } else {
        match static_initializer_value_i64(initializers, node.input[3].as_str()) {
            Err(error) => {
                return Some(Err(error));
            },
            Ok(given) => if given.len() == 0 {
                list_of_axes(rank)
            } else {
                vstd::slice::slice_to_vec(given)
            },
        }
    };
    let steps: Vec<i64> = if inputs <= 4 {
        list_of_ones(starts.len())
    } else if node.input.len() <= 4 {
        return None;
    } else {
        match static_initializer_value_i64(initializers, node.input[4].as_str()) {
            Err(error) => {
                return Some(Err(error));
            },
            Ok(given) => vstd::slice::slice_to_vec(given),
        }
    };
    if axes.len() != steps.len() {
        let why = String::from_str("length of axes attribute (").concat(
            unsigned_text(axes.len() as u64).as_str(),
        ).concat(") must be equal to length of steps attribute (").concat(
            unsigned_text(steps.len() as u64).as_str(),
        ).concat(")");
        return Some(Err(invalid_node(node, why)));
    }
    match slice_all(&dims, &axes, &starts, &ends, &steps) {
        None => None,
        Some(Err(error)) => Some(Err(error)),
        Some(Ok(out)) => one_shape(data.data_type, out.as_slice()),
    }
}

} // verus!
