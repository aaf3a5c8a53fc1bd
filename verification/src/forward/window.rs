//! Operators that move a window over their input: `Conv`, `MaxPool` and `AveragePool`.
use vstd::prelude::*;
use crate::arith::{checked_quotient, div_ceil, divides, in_i64, quotient, quotient_rounded_up};
use crate::error::{ErrorView, ShapeInferenceError};
use crate::forward::common::{invalid, invalid_node, outcome, Outcome};
use crate::forward::elementwise::{copied_shapes, copies};
use crate::forward::slice::{list_of_ones, ones};
use crate::onnx::{view_option, views, NodeProto, NodeView};
use crate::shape::{shape_of, signed, Shape, ShapeView};
use crate::text::{same_text, utf8, utf8_text};

verus! {

/// The values of a list, where each of them is there.
pub open spec fn all_of(values: Seq<Option<i64>>) -> Option<Seq<i64>> {
    if forall|i: int| 0 <= i < values.len() ==> (#[trigger] values[i]) is Some {
        Some(Seq::new(values.len(), |i: int| values[i].unwrap()))
    } else {
        None
    }
}

/// The integers that the named attribute holds, one for each of the window's dimensions, or else 1
/// for each.
pub open spec fn per_dimension(
    node: NodeView,
    name: Seq<char>,
    count: nat,
    why: Seq<char>,
) -> Result<Seq<i64>, ErrorView> {
    match node.find(name) {
        Some(attribute) => if attribute.ints.len() != count {
            Err(invalid(node, why))
        } else {
            Ok(attribute.ints)
        },
        None => Ok(ones(count)),
    }
}

/// The size of the window: the attribute `kernel_shape`, or, for a convolution, the sizes of the
/// second input from the third dimension on.
pub open spec fn kernel_shape(node: NodeView, shapes: Seq<ShapeView>, pool: bool) -> Option<
    Result<Seq<i64>, ErrorView>,
> {
    match node.find("kernel_shape"@) {
        Some(attribute) => Some(Ok(attribute.ints)),
        None => if pool {
            Some(Err(invalid(node, "node requires kernel_shape to be set"@)))
        } else if shapes[1].dims.len() < 2 {
            None
        } else {
            Some(Ok(signed(shapes[1].dims).skip(2)))
        },
    }
}

/// The extent of a window of the given size whose elements lie `dilation` apart.
pub open spec fn effective_size(size: i64, dilation: i64) -> Option<i64> {
    if in_i64(size - 1) && in_i64((size - 1) * dilation) && in_i64((size - 1) * dilation + 1) {
        Some(((size - 1) * dilation + 1) as i64)
    } else {
        None
    }
}

/// The extents of a window.
pub open spec fn effective_sizes(kernel: Seq<i64>, dilations: Seq<i64>) -> Option<Seq<i64>> {
    all_of(Seq::new(kernel.len(), |i: int| effective_size(kernel[i], dilations[i])))
}

/// What a dimension of the given size leaves over when divided into strides.
pub open spec fn residual(size: i64, stride: i64) -> int {
    if stride > 1 {
        if size < 0 {
            size as int
        } else {
            (size as int) % (stride as int)
        }
    } else {
        0
    }
}

/// The padding with which a dimension gives one window for each stride that it begins.
pub open spec fn total_pad(size: i64, stride: i64, effective: i64) -> Option<i64> {
    let rest = residual(size, stride);
    let pad = effective - (if rest == 0 {
        stride as int
    } else {
        rest
    });
    if !in_i64(pad) {
        None
    } else if pad < 0 {
        Some(0)
    } else {
        Some(pad as i64)
    }
}

/// The total paddings of all dimensions of the window.
pub open spec fn total_pads(dims: Seq<i64>, strides: Seq<i64>, effective: Seq<i64>) -> Option<
    Seq<i64>,
> {
    all_of(
        Seq::new(
            effective.len(),
            |i: int| total_pad(dims[i + 2], strides[i], effective[i]),
        ),
    )
}

/// The paddings before each dimension, followed by those after it. Of an odd total, the larger half
/// stands where the mode says.
pub open spec fn split_pads(mode: Seq<char>, totals: Seq<i64>) -> Seq<i64> {
    let n = totals.len() as int;
    Seq::new(
        2 * totals.len(),
        |i: int|
            {
                let total = totals[if i < n {
                    i
                } else {
                    i - n
                }] as int;
                let small = total / 2;
                let big = total - small;
                if mode == "SAME_UPPER"@ {
                    if i < n {
                        small as i64
                    } else {
                        big as i64
                    }
                } else if mode == "SAME_LOWER"@ {
                    if i < n {
                        big as i64
                    } else {
                        small as i64
                    }
                } else {
                    0i64
                }
            },
    )
}

/// The number 0, `count` times.
pub open spec fn zeros(count: nat) -> Seq<i64> {
    Seq::new(count, |i: int| 0i64)
}

/// How the padding is to be found where it is not given.
pub open spec fn pad_mode(node: NodeView) -> Option<Seq<char>> {
    match node.find("auto_pad"@) {
        Some(attribute) => utf8(attribute.s),
        None => Some("VALID"@),
    }
}

/// The paddings of the input: those that the attribute `pads` holds, or else those that the
/// attribute `auto_pad` asks for.
pub open spec fn paddings(
    node: NodeView,
    dims: Seq<i64>,
    strides: Seq<i64>,
    effective: Seq<i64>,
) -> Option<Result<Seq<i64>, ErrorView>> {
    match node.find("pads"@) {
        Some(attribute) => if attribute.ints.len() != 2 * effective.len() {
            Some(Err(invalid(node, "pads attribute has incorrect size"@)))
        } else {
            Some(Ok(attribute.ints))
        },
        None => match pad_mode(node) {
            None => None,
            Some(mode) => if mode == "VALID"@ {
                Some(Ok(zeros(2 * effective.len())))
            } else {
                match total_pads(dims, strides, effective) {
                    None => None,
                    Some(totals) => Some(Ok(split_pads(mode, totals))),
                }
            },
        },
    }
}

/// The number of places that a window has in a padded dimension.
pub open spec fn places(
    size: i64,
    before: i64,
    after: i64,
    effective: i64,
    stride: i64,
    ceil: bool,
) -> Option<i64> {
    let room = size + before + after - effective;
    if !in_i64(size + before) || !in_i64(size + before + after) || !in_i64(room) || !divides(
        room,
        stride as int,
    ) {
        None
    } else {
        let moves = if ceil {
            quotient_rounded_up(room, stride as int)
        } else {
            quotient(room, stride as int)
        };
        if in_i64(1 + moves) {
            Some((1 + moves) as i64)
        } else {
            None
        }
    }
}

/// The number of places in all dimensions of the window.
pub open spec fn all_places(
    dims: Seq<i64>,
    pads: Seq<i64>,
    effective: Seq<i64>,
    strides: Seq<i64>,
    ceil: bool,
) -> Option<Seq<i64>> {
    all_of(
        Seq::new(
            effective.len(),
            |i: int|
                places(
                    dims[i + 2],
                    pads[i],
                    pads[i + effective.len()],
                    effective[i],
                    strides[i],
                    ceil,
                ),
        ),
    )
}

/// The number of channels of the output: that of the input for a pool, and the number of filters
/// for a convolution.
pub open spec fn channels(node: NodeView, shapes: Seq<ShapeView>, pool: bool) -> Result<
    i64,
    ErrorView,
> {
    if pool {
        Ok(signed(shapes[0].dims)[1])
    } else if shapes[1].dims.len() < 1 {
        Err(invalid(node, "second input has incorrect rank"@))
    } else {
        Ok(signed(shapes[1].dims)[0])
    }
}

/// The sizes of the output, from the strides and the extents of the window on.
pub open spec fn moved_window(
    node: NodeView,
    shapes: Seq<ShapeView>,
    pool: bool,
    strides: Seq<i64>,
    effective: Seq<i64>,
) -> Option<Result<Seq<i64>, ErrorView>> {
    let dims = signed(shapes[0].dims);
    match paddings(node, dims, strides, effective) {
        None => None,
        Some(Err(error)) => Some(Err(error)),
        Some(Ok(pads)) => match channels(node, shapes, pool) {
            Err(error) => Some(Err(error)),
            Ok(channels) => {
                match all_places(
                    dims,
                    pads,
                    effective,
                    strides,
                    node.int_or("ceil_mode"@, 0) == 1,
                ) {
                    None => None,
                    Some(places) => Some(Ok(seq![dims[0], channels] + places)),
                }
            },
        },
    }
}

/// The sizes of the output.
pub open spec fn window_dims(node: NodeView, shapes: Seq<ShapeView>, pool: bool) -> Option<
    Result<Seq<i64>, ErrorView>,
> {
    let rank = shapes[0].dims.len();
    if rank < 2 {
        Some(Err(invalid(node, "input shape must have at least two dimensions"@)))
    } else {
        let count = (rank - 2) as nat;
        match per_dimension(
            node,
            "dilations"@,
            count,
            "attribute dilations has incorrect size"@,
        ) {
            Err(error) => Some(Err(error)),
            Ok(dilations) => match per_dimension(
                node,
                "strides"@,
                count,
                "attribute strides has incorrect size"@,
            ) {
                Err(error) => Some(Err(error)),
                Ok(strides) => match kernel_shape(node, shapes, pool) {
                    None => None,
                    Some(Err(error)) => Some(Err(error)),
                    Some(Ok(kernel)) => if kernel.len() != count {
                        Some(Err(invalid(node, "kernel shape rank must be equal to input rank"@)))
                    } else {
                        match effective_sizes(kernel, dilations) {
                            None => None,
                            Some(effective) => moved_window(
                                node,
                                shapes,
                                pool,
                                strides,
                                effective,
                            ),
                        }
                    },
                },
            },
        }
    }
}

/// `Conv`, `MaxPool`, `AveragePool`: the batch, the channels, and the places of the window. All
/// outputs have this shape.
pub open spec fn window(
    node: NodeView,
    shapes: Seq<ShapeView>,
    pool: bool,
    outputs: nat,
) -> Outcome {
    match window_dims(node, shapes, pool) {
        None => None,
        Some(Err(error)) => Some(Err(error)),
        Some(Ok(dims)) => copies(shape_of(shapes[0].data_type, dims), outputs),
    }
}

fn infer_per_dimension(node: &NodeProto, name: &str, count: usize, why: &str) -> (values: Result<
    Vec<i64>,
    ShapeInferenceError,
>)
    ensures
        per_dimension(node@, name@, count as nat, why@) == (match values {
            Ok(values) => Ok::<Seq<i64>, ErrorView>(values@),
            Err(error) => Err::<Seq<i64>, ErrorView>(error@),
        }),
{
    match node.find_attribute(name) {
        Some(attribute) => if attribute.ints.len() != count {
            Err(invalid_node(node, why.to_owned()))
        } else {
            Ok(vstd::slice::slice_to_vec(attribute.ints.as_slice()))
        },
        None => Ok(list_of_ones(count)),
    }
}

fn infer_effective_size(size: i64, dilation: i64) -> (effective: Option<i64>)
    ensures
        effective == effective_size(size, dilation),
{
    match size.checked_sub(1) {
        Some(less) => match less.checked_mul(dilation) {
            Some(extent) => extent.checked_add(1),
            None => None,
        },
        None => None,
    }
}

fn infer_effective_sizes(kernel: &Vec<i64>, dilations: &Vec<i64>) -> (sizes: Option<Vec<i64>>)
    requires
        kernel@.len() == dilations@.len(),
    ensures
        view_option(sizes) == effective_sizes(kernel@, dilations@),
{
    let ghost values = Seq::new(
        kernel@.len(),
        |i: int| effective_size(kernel@[i], dilations@[i]),
    );
    let mut sizes: Vec<i64> = Vec::new();
    let mut i: usize = 0;
    while i < kernel.len()
        invariant
            i <= kernel@.len(),
            kernel@.len() == dilations@.len(),
            values == Seq::new(
                kernel@.len(),
                |i: int| effective_size(kernel@[i], dilations@[i]),
            ),
            sizes@.len() == i,
            forall|j: int| 0 <= j < i ==> #[trigger] values[j] == Some(sizes@[j]),
        decreases kernel@.len() - i,
    {
        assert(values[i as int] == effective_size(kernel@[i as int], dilations@[i as int]));
        match infer_effective_size(kernel[i], dilations[i]) {
            Some(size) => {
                sizes.push(size);
            },
            None => {
                return None;
            },
        }
        i = i + 1;
    }
    assert(sizes@ =~= all_of(values).unwrap());
    Some(sizes)
}

fn infer_total_pad(size: i64, stride: i64, effective: i64) -> (pad: Option<i64>)
    ensures
        pad == total_pad(size, stride, effective),
{
    let rest: i64 = if stride > 1 {
        if size < 0 {
            size
        } else {
            proof {
                vstd::arithmetic::div_mod::lemma_mod_bound(size as int, stride as int);
            }
            (size as u64 % stride as u64) as i64
        }
    } else {
        0
    };
    let covered: i64 = if rest == 0 {
        stride
    } else {
        rest
    };
    match effective.checked_sub(covered) {
        Some(pad) => Some(
            if pad < 0 {
                0
            } else {
                pad
            },
        ),
        None => None,
    }
}

fn infer_total_pads(dims: &Vec<i64>, strides: &Vec<i64>, effective: &Vec<i64>) -> (totals: Option<
    Vec<i64>,
>)
    requires
        dims@.len() == effective@.len() + 2,
        strides@.len() == effective@.len(),
    ensures
        view_option(totals) == total_pads(dims@, strides@, effective@),
{
    let ghost values = Seq::new(
        effective@.len(),
        |i: int| total_pad(dims@[i + 2], strides@[i], effective@[i]),
    );
    let mut totals: Vec<i64> = Vec::new();
    let count: usize = dims.len() - 2;
    let mut i: usize = 0;
    while i < count
        invariant
            i <= count,
            count == effective@.len(),
            dims@.len() == effective@.len() + 2,
            dims@.len() <= usize::MAX,
            strides@.len() == effective@.len(),
            values == Seq::new(
                effective@.len(),
                |i: int| total_pad(dims@[i + 2], strides@[i], effective@[i]),
            ),
            totals@.len() == i,
            forall|j: int| 0 <= j < i ==> #[trigger] values[j] == Some(totals@[j]),
        decreases count - i,
    {
        assert(values[i as int] == total_pad(
            dims@[i + 2],
            strides@[i as int],
            effective@[i as int],
        ));
        match infer_total_pad(dims[i + 2], strides[i], effective[i]) {
            Some(total) => {
                totals.push(total);
            },
            None => {
                return None;
            },
        }
        i = i + 1;
    }
    assert(totals@ =~= all_of(values).unwrap());
    Some(totals)
}

fn halves(totals: &Vec<i64>, larger: bool, out: &mut Vec<i64>)
    requires
        forall|j: int| 0 <= j < totals@.len() ==> #[trigger] totals@[j] >= 0,
    ensures
        final(out)@ == old(out)@ + Seq::new(
            totals@.len(),
            |j: int|
                if larger {
                    (totals@[j] - (totals@[j] as int) / 2) as i64
                } else {
                    ((totals@[j] as int) / 2) as i64
                },
        ),
{
    let ghost before = out@;
    let ghost added = Seq::new(
        totals@.len(),
        |j: int|
            if larger {
                (totals@[j] - (totals@[j] as int) / 2) as i64
            } else {
                ((totals@[j] as int) / 2) as i64
            },
    );
    let mut i: usize = 0;
    assert(before + added.take(0) =~= before);
    while i < totals.len()
        invariant
            i <= totals@.len(),
            forall|j: int| 0 <= j < totals@.len() ==> #[trigger] totals@[j] >= 0,
            added == Seq::new(
                totals@.len(),
                |j: int|
                    if larger {
                        (totals@[j] - (totals@[j] as int) / 2) as i64
                    } else {
                        ((totals@[j] as int) / 2) as i64
                    },
            ),
            out@ == before + added.take(i as int),
        decreases totals@.len() - i,
    {
        let total: i64 = totals[i];
        let small: i64 = (total as u64 / 2) as i64;
        if larger {
            out.push(total - small);
        } else {
            out.push(small);
        }
        assert(out@ =~= before + added.take(i + 1));
        i = i + 1;
    }
    assert(added.take(i as int) =~= added);
}

fn list_of_zeros(count: usize) -> (list: Vec<i64>)
    ensures
        list@ == zeros(2 * count as nat),
{
    let mut list: Vec<i64> = Vec::new();
    let mut i: usize = 0;
    while i < count
        invariant
            i <= count,
            list@ == zeros(2 * i as nat),
        decreases count - i,
    {
        list.push(0);
        list.push(0);
        i = i + 1;
        assert(list@ =~= zeros(2 * i as nat));
    }
    list
}

fn split(mode: &str, totals: &Vec<i64>) -> (pads: Vec<i64>)
    requires
        forall|j: int| 0 <= j < totals@.len() ==> #[trigger] totals@[j] >= 0,
    ensures
        pads@ == split_pads(mode@, totals@),
{
    let mut pads: Vec<i64> = Vec::new();
    if same_text(mode, "SAME_UPPER") {
        halves(totals, false, &mut pads);
        halves(totals, true, &mut pads);
    } else if same_text(mode, "SAME_LOWER") {
        halves(totals, true, &mut pads);
        halves(totals, false, &mut pads);
    } else {
        pads = list_of_zeros(totals.len());
    }
    assert(pads@ =~= split_pads(mode@, totals@));
    pads
}

fn infer_paddings(
    node: &NodeProto,
    dims: &Vec<i64>,
    strides: &Vec<i64>,
    effective: &Vec<i64>,
) -> (pads: Option<Result<Vec<i64>, ShapeInferenceError>>)
    requires
        dims@.len() == effective@.len() + 2,
        strides@.len() == effective@.len(),
    ensures
        paddings(node@, dims@, strides@, effective@) == (match pads {
            Some(Ok(pads)) => Some(Ok::<Seq<i64>, ErrorView>(pads@)),
            Some(Err(error)) => Some(Err::<Seq<i64>, ErrorView>(error@)),
            None => None,
        }),
{
    match node.find_attribute("pads") {
        Some(attribute) => {
            if attribute.ints.len() as u128 != 2 * effective.len() as u128 {
                Some(Err(invalid_node(node, "pads attribute has incorrect size".to_owned())))
            } else {
                Some(Ok(vstd::slice::slice_to_vec(attribute.ints.as_slice())))
            }
        },
        None => {
            let mode: &str = match node.find_attribute("auto_pad") {
                Some(attribute) => match utf8_text(&attribute.s) {
                    Some(mode) => mode,
                    None => {
                        return None;
                    },
                },
                None => "VALID",
            };
            if same_text(mode, "VALID") {
                return Some(Ok(list_of_zeros(effective.len())));
            }
            match infer_total_pads(dims, strides, effective) {
                None => None,
                Some(totals) => {
                    assert forall|j: int| 0 <= j < totals@.len() implies #[trigger] totals@[j]
                        >= 0 by {
                        assert(total_pad(dims@[j + 2], strides@[j], effective@[j]) == Some(
                            totals@[j],
                        ));
                    }
                    Some(Ok(split(mode, &totals)))
                },
            }
        },
    }
}

fn infer_places(
    size: i64,
    before: i64,
    after: i64,
    effective: i64,
    stride: i64,
    ceil: bool,
) -> (count: Option<i64>)
    ensures
        count == places(size, before, after, effective, stride, ceil),
{
    let padded: i64 = match size.checked_add(before) {
        Some(padded) => match padded.checked_add(after) {
            Some(padded) => padded,
            None => {
                return None;
            },
        },
        None => {
            return None;
        },
    };
    let room: i64 = match padded.checked_sub(effective) {
        Some(room) => room,
        None => {
            return None;
        },
    };
    let moves: i64 = match checked_quotient(room, stride) {
        Some(whole) => if ceil {
            div_ceil(room, stride)
        } else {
            whole
        },
        None => {
            return None;
        },
    };
    moves.checked_add(1)
}

fn infer_all_places(
    dims: &Vec<i64>,
    pads: &Vec<i64>,
    effective: &Vec<i64>,
    strides: &Vec<i64>,
    ceil: bool,
    out: &mut Vec<i64>,
) -> (done: bool)
    requires
        dims@.len() == effective@.len() + 2,
        strides@.len() == effective@.len(),
        pads@.len() == 2 * effective@.len(),
    ensures
        match all_places(dims@, pads@, effective@, strides@, ceil) {
            Some(places) => done && final(out)@ == old(out)@ + places,
            None => !done,
        },
{
    let ghost values = Seq::new(
        effective@.len(),
        |i: int|
            places(
                dims@[i + 2],
                pads@[i],
                pads@[i + effective@.len()],
                effective@[i],
                strides@[i],
                ceil,
            ),
    );
    let ghost before = out@;
    let ghost mut found: Seq<i64> = Seq::empty();
    let count: usize = effective.len();
    let size_of_pads: usize = pads.len();
    let size_of_dims: usize = dims.len();
    let mut i: usize = 0;
    assert(before + found =~= before);
    while i < count
        invariant
            i <= count,
            count == effective@.len(),
            size_of_pads == 2 * count,
            size_of_dims == count + 2,
            dims@.len() == effective@.len() + 2,
            strides@.len() == effective@.len(),
            pads@.len() == 2 * effective@.len(),
            values == Seq::new(
                effective@.len(),
                |i: int|
                    places(
                        dims@[i + 2],
                        pads@[i],
                        pads@[i + effective@.len()],
                        effective@[i],
                        strides@[i],
                        ceil,
                    ),
            ),
            all_places(dims@, pads@, effective@, strides@, ceil) == all_of(values),
            found.len() == i,
            out@ == before + found,
            forall|j: int| 0 <= j < i ==> #[trigger] values[j] == Some(found[j]),
        decreases count - i,
    {
        assert(values[i as int] == places(
            dims@[i + 2],
            pads@[i as int],
            pads@[i + count],
            effective@[i as int],
            strides@[i as int],
            ceil,
        ));
        match infer_places(
            dims[i + 2],
            pads[i],
            pads[i + count],
            effective[i],
            strides[i],
            ceil,
        ) {
            Some(places) => {
                out.push(places);
                proof {
                    found = found.push(places);
                    assert(out@ =~= before + found);
                }
            },
            None => {
                return false;
            },
        }
        i = i + 1;
    }
    assert(found =~= all_of(values).unwrap());
    true
}

fn infer_moved_window(
    node: &NodeProto,
    shapes: &[&Shape],
    pool: bool,
    strides: &Vec<i64>,
    effective: &Vec<i64>,
) -> (result: Option<Result<Vec<i64>, ShapeInferenceError>>)
    requires
        shapes@.len() >= 1,
        !pool ==> shapes@.len() >= 2,
        shapes@[0]@.dims.len() == effective@.len() + 2,
        strides@.len() == effective@.len(),
    ensures
        moved_window(node@, views(shapes@), pool, strides@, effective@) == (match result {
            Some(Ok(out)) => Some(Ok::<Seq<i64>, ErrorView>(out@)),
            Some(Err(error)) => Some(Err::<Seq<i64>, ErrorView>(error@)),
            None => None,
        }),
{
    let dims = shapes[0].signed_dims();
    let pads: Vec<i64> = match infer_paddings(node, &dims, strides, effective) {
        None => {
            return None;
        },
        Some(Err(error)) => {
            return Some(Err(error));
        },
        Some(Ok(pads)) => pads,
    };
    let channels: i64 = if pool {
        dims[1]
    } else if shapes[1].rank() < 1 {
        return Some(Err(invalid_node(node, "second input has incorrect rank".to_owned())));
    } else {
        let filters = shapes[1].signed_dims();
        filters[0]
    };
    let mut out: Vec<i64> = Vec::new();
    out.push(dims[0]);
    out.push(channels);
    assert(out@ =~= seq![dims@[0], channels]);
    let ceil: bool = node.int_or("ceil_mode", 0) == 1;
    if infer_all_places(&dims, &pads, effective, strides, ceil, &mut out) {
        Some(Ok(out))
    } else {
        None
    }
}

fn infer_window_dims(node: &NodeProto, shapes: &[&Shape], pool: bool) -> (result: Option<
    Result<Vec<i64>, ShapeInferenceError>,
>)
    requires
        shapes@.len() >= 1,
        !pool ==> shapes@.len() >= 2,
    ensures
        window_dims(node@, views(shapes@), pool) == (match result {
            Some(Ok(out)) => Some(Ok::<Seq<i64>, ErrorView>(out@)),
            Some(Err(error)) => Some(Err::<Seq<i64>, ErrorView>(error@)),
            None => None,
        }),
{
    if shapes[0].rank() < 2 {
        return Some(
            Err(invalid_node(node, "input shape must have at least two dimensions".to_owned())),
        );
    }
    let count: usize = shapes[0].rank() - 2;
    let dilations: Vec<i64> = match infer_per_dimension(
        node,
        "dilations",
        count,
        "attribute dilations has incorrect size",
    ) {
        Ok(dilations) => dilations,
        Err(error) => {
            return Some(Err(error));
        },
    };
    let strides: Vec<i64> = match infer_per_dimension(
        node,
        "strides",
        count,
        "attribute strides has incorrect size",
    ) {
        Ok(strides) => strides,
        Err(error) => {
            return Some(Err(error));
        },
    };
    let kernel: Vec<i64> = match node.find_attribute("kernel_shape") {
        Some(attribute) => vstd::slice::slice_to_vec(attribute.ints.as_slice()),
        None => {
            if pool {
                return Some(
                    Err(invalid_node(node, "node requires kernel_shape to be set".to_owned())),
                );
            }
            if shapes[1].rank() < 2 {
                return None;
            }
            let mut filters = shapes[1].signed_dims();
            let kernel = filters.split_off(2);
            assert(kernel@ =~= signed(shapes@[1]@.dims).skip(2));
            kernel
        },
    };
    if kernel.len() != count {
        return Some(
            Err(invalid_node(node, "kernel shape rank must be equal to input rank".to_owned())),
        );
    }
    match infer_effective_sizes(&kernel, &dilations) {
        None => None,
        Some(effective) => infer_moved_window(node, shapes, pool, &strides, &effective),
    }
}

/// The rule for `Conv`, `MaxPool` and `AveragePool`.
pub fn infer_window(node: &NodeProto, shapes: &[&Shape], pool: bool, outputs: usize) -> (result:
    Option<Result<Vec<Shape>, ShapeInferenceError>>)
    requires
        shapes@.len() >= 1,
        !pool ==> shapes@.len() >= 2,
    ensures
        outcome(result) == window(node@, views(shapes@), pool, outputs as nat),
{
    match infer_window_dims(node, shapes, pool) {
        None => None,
        Some(Err(error)) => Some(Err(error)),
        Some(Ok(dims)) => {
            let shape = Shape::from(shapes[0].data_type, dims.as_slice());
            Some(Ok(copied_shapes(&shape, outputs)))
        },
    }
}

} // verus!
