//! What `Conv`, `MaxPool` and `AveragePool` give, from their attributes and the sizes of their
//! inputs.
use vstd::prelude::*;
use vstd::utf8::{decode_utf8, valid_utf8};
use crate::arith::{
    in_i64, law_quotient_leaves_a_small_rest, law_rounded_up_is_the_ceiling,
    law_which_quotients_there_are, quotient, quotient_rounded_up,
};
use crate::error::ErrorView;
use crate::forward::forward;
use crate::forward::laws::names::{lemma_averagepool, lemma_conv, lemma_maxpool};
use crate::forward::slice::ones;
use crate::forward::window::{
    all_of, all_places, channels, effective_size, effective_sizes, paddings, places, split_pads,
    total_pad, total_pads, window, window_dims, zeros,
};
use crate::onnx::{NodeView, TensorView};
use crate::shape::{lemma_unsigned_signed, shape_of, signed, unsigned, ShapeView};

verus! {

/// Whether a node is a convolution with its filters, or a pool.
pub open spec fn is_window(node: NodeView, shapes: Seq<ShapeView>) -> bool {
    ||| node.op_type == "Conv"@ && 2 <= shapes.len() <= 3 && node.output.len() == 1
    ||| (node.op_type == "MaxPool"@ || node.op_type == "AveragePool"@) && shapes.len() == 1 && 1
        <= node.output.len() <= 2
}

/// The sizes, strides and dilations of a window, one for each dimension from the third on, and the
/// paddings, one before and one after each of them.
pub struct WindowLists {
    pub kernel: Seq<i64>,
    pub strides: Seq<i64>,
    pub dilations: Seq<i64>,
    pub pads: Seq<i64>,
}

/// Whether the window's size, strides and dilations are those that the node asks for.
pub open spec fn asks_for_window(
    node: NodeView,
    shapes: Seq<ShapeView>,
    lists: WindowLists,
) -> bool {
    let count = shapes[0].dims.len() - 2;
    &&& count >= 0
    &&& lists.kernel.len() == count
    &&& lists.strides.len() == count
    &&& lists.dilations.len() == count
    &&& lists.pads.len() == 2 * count
    &&& match node.find("strides"@) {
        Some(attribute) => lists.strides == attribute.ints,
        None => forall|i: int| 0 <= i < count ==> #[trigger] lists.strides[i] == 1,
    }
    &&& match node.find("dilations"@) {
        Some(attribute) => lists.dilations == attribute.ints,
        None => forall|i: int| 0 <= i < count ==> #[trigger] lists.dilations[i] == 1,
    }
    &&& match node.find("kernel_shape"@) {
        Some(attribute) => lists.kernel == attribute.ints,
        None => node.op_type == "Conv"@ && shapes[1].dims.len() == count + 2 && forall|i: int|
            0 <= i < count ==> #[trigger] lists.kernel[i] == shapes[1].dims[i + 2] as i64,
    }
}

/// How far the window reaches along the `i`-th of its dimensions.
pub open spec fn reach(lists: WindowLists, i: int) -> int {
    (lists.kernel[i] - 1) * lists.dilations[i] + 1
}

/// Whether a window fits, with its paddings, into the range of the numbers: nothing that is
/// calculated along the `i`-th dimension leaves it.
pub open spec fn in_range(size: i64, lists: WindowLists, i: int) -> bool {
    let after = lists.pads[i + lists.kernel.len()];
    &&& in_i64(lists.kernel[i] - 1)
    &&& in_i64((lists.kernel[i] - 1) * lists.dilations[i])
    &&& in_i64(reach(lists, i))
    &&& in_i64(size + lists.pads[i])
    &&& in_i64(size + lists.pads[i] + after)
    &&& in_i64(size + lists.pads[i] + after - reach(lists, i))
}

/// Whether a window has the given number of places in a dimension: one, and one more for each
/// stride that it can move within what its reach leaves of the padded size. A part of a stride is
/// left out, or, with `up`, counts like a whole one.
pub open spec fn has_places(size: i64, lists: WindowLists, i: int, up: bool, count: i64) -> bool {
    let stride = lists.strides[i] as int;
    let length = if stride < 0 {
        -stride
    } else {
        stride
    };
    let room = size + lists.pads[i] + lists.pads[i + lists.kernel.len()] - reach(lists, i);
    let rest = room - (count - 1) * stride;
    &&& stride != 0
    &&& in_i64(count - 1)
    &&& if up {
        &&& stride > 0 ==> -stride < rest <= 0
        &&& stride < 0 ==> 0 <= rest < -stride
    } else {
        &&& room >= 0 ==> 0 <= rest < length
        &&& room < 0 ==> -length < rest <= 0
    }
}

/// Whether the paddings are those that the node gives, or else those that its way of padding asks
/// for. That is none for `VALID`, which is the default, and for what is not known. For `SAME_UPPER`
/// and `SAME_LOWER` the padding makes up for what the reach goes over the last stride that the
/// dimension begins; the smaller half of it stands before, or behind.
pub open spec fn asks_for_pads(node: NodeView, dims: Seq<u64>, lists: WindowLists) -> bool {
    let count = lists.kernel.len() as int;
    match node.find("pads"@) {
        Some(attribute) => lists.pads == attribute.ints,
        None => match node.find("auto_pad"@) {
            None => forall|i: int| 0 <= i < 2 * count ==> #[trigger] lists.pads[i] == 0,
            Some(attribute) => {
                let mode = decode_utf8(attribute.s);
                &&& valid_utf8(attribute.s)
                &&& mode == "VALID"@ ==> forall|i: int|
                    0 <= i < 2 * count ==> #[trigger] lists.pads[i] == 0
                &&& mode != "VALID"@ ==> forall|i: int|
                    0 <= i < count ==> makes_up(
                        mode,
                        dims[i + 2] as i64,
                        lists.strides[i],
                        reach(lists, i),
                        #[trigger] lists.pads[i],
                        lists.pads[i + count],
                    )
            },
        },
    }
}

/// Whether two paddings are those with which a dimension is padded in the given way.
pub open spec fn makes_up(
    mode: Seq<char>,
    size: i64,
    stride: i64,
    reach: int,
    before: i64,
    after: i64,
) -> bool {
    let last = if stride <= 1 {
        stride as int
    } else if size < 0 {
        size as int
    } else if (size as int) % (stride as int) == 0 {
        stride as int
    } else {
        (size as int) % (stride as int)
    };
    let total = before + after;
    &&& in_i64(reach - last)
    &&& if mode == "SAME_UPPER"@ || mode == "SAME_LOWER"@ {
        &&& total == if reach > last {
            reach - last
        } else {
            0
        }
        &&& mode == "SAME_UPPER"@ ==> 0 <= before <= after <= before + 1
        &&& mode == "SAME_LOWER"@ ==> 0 <= after <= before <= after + 1
    } else {
        before == 0 && after == 0
    }
}

proof fn lemma_places(size: i64, lists: WindowLists, i: int, up: bool, count: i64)
    requires
        in_range(size, lists, i),
        has_places(size, lists, i, up, count),
    ensures
        places(
            size,
            lists.pads[i],
            lists.pads[i + lists.kernel.len()],
            reach(lists, i) as i64,
            lists.strides[i],
            up,
        ) == Some(count),
{
    let stride = lists.strides[i] as int;
    let room = size + lists.pads[i] + lists.pads[i + lists.kernel.len()] - reach(lists, i);
    let moves = count - 1;
    law_quotient_leaves_a_small_rest(room, stride);
    law_rounded_up_is_the_ceiling(room, stride);
    law_which_quotients_there_are(room as i64, stride as i64);
    let q = quotient(room, stride);
    let u = quotient_rounded_up(room, stride);
    let length = if stride < 0 {
        -stride
    } else {
        stride
    };
    if up {
        assert(u == moves) by (nonlinear_arith)
            requires
                stride > 0 ==> (u - 1) * stride < room <= u * stride,
                stride < 0 ==> (u - 1) * stride > room >= u * stride,
                stride > 0 ==> -stride < room - moves * stride <= 0,
                stride < 0 ==> 0 <= room - moves * stride < -stride,
                stride != 0,
        ;
        assert(!(room == i64::MIN && stride == -1)) by {
            if room == i64::MIN && stride == -1 {
                assert(moves * stride == -moves) by (nonlinear_arith)
                    requires
                        stride == -1,
                ;
            }
        }
    } else {
        assert(q == moves) by (nonlinear_arith)
            requires
                length == (if stride < 0 {
                    -stride
                } else {
                    stride
                }),
                room >= 0 ==> 0 <= room - q * stride < length,
                room < 0 ==> -length < room - q * stride <= 0,
                room >= 0 ==> 0 <= room - moves * stride < length,
                room < 0 ==> -length < room - moves * stride <= 0,
                stride != 0,
        ;
        assert(!(room == i64::MIN && stride == -1)) by {
            if room == i64::MIN && stride == -1 {
                assert(moves * stride == -moves) by (nonlinear_arith)
                    requires
                        stride == -1,
                ;
            }
        }
    }
}

proof fn lemma_effective(lists: WindowLists)
    requires
        lists.kernel.len() == lists.dilations.len(),
        forall|i: int|
            0 <= i < lists.kernel.len() ==> in_i64(#[trigger] lists.kernel[i] - 1) && in_i64(
                (lists.kernel[i] - 1) * lists.dilations[i],
            ) && in_i64(reach(lists, i)),
    ensures
        effective_sizes(lists.kernel, lists.dilations) == Some(
            Seq::new(lists.kernel.len(), |i: int| reach(lists, i) as i64),
        ),
{
    let values = Seq::new(
        lists.kernel.len(),
        |i: int| effective_size(lists.kernel[i], lists.dilations[i]),
    );
    assert forall|i: int| 0 <= i < values.len() implies (#[trigger] values[i]) == Some(
        reach(lists, i) as i64,
    ) by {
        assert(in_i64(lists.kernel[i] - 1));
    }
    assert(all_of(values).unwrap() =~= Seq::new(
        lists.kernel.len(),
        |i: int| reach(lists, i) as i64,
    ));
}

proof fn lemma_made_up(
    mode: Seq<char>,
    size: i64,
    stride: i64,
    effective: i64,
    before: i64,
    after: i64,
)
    requires
        makes_up(mode, size, stride, effective as int, before, after),
    ensures
        total_pad(size, stride, effective) is Some,
        ({
            let total = total_pad(size, stride, effective).unwrap() as int;
            &&& total >= 0
            &&& mode == "SAME_UPPER"@ ==> before == total / 2 && after == total - total / 2
            &&& mode == "SAME_LOWER"@ ==> after == total / 2 && before == total - total / 2
            &&& mode != "SAME_UPPER"@ && mode != "SAME_LOWER"@ ==> before == 0 && after == 0
        }),
{
    assert("SAME_UPPER"@ != "SAME_LOWER"@) by {
        reveal_strlit("SAME_UPPER");
        reveal_strlit("SAME_LOWER");
        assert("SAME_UPPER"@[5] != "SAME_LOWER"@[5]);
    }
}

proof fn lemma_paddings(node: NodeView, dims: Seq<u64>, lists: WindowLists)
    requires
        dims.len() == lists.kernel.len() + 2,
        lists.strides.len() == lists.kernel.len(),
        lists.pads.len() == 2 * lists.kernel.len(),
        asks_for_pads(node, dims, lists),
        forall|i: int| 0 <= i < lists.kernel.len() ==> in_i64(#[trigger] reach(lists, i)),
    ensures
        paddings(
            node,
            signed(dims),
            lists.strides,
            Seq::new(lists.kernel.len(), |i: int| reach(lists, i) as i64),
        ) == Some(Ok::<Seq<i64>, ErrorView>(lists.pads)),
{
    let count = lists.kernel.len();
    let effective = Seq::new(count, |i: int| reach(lists, i) as i64);
    if node.find("pads"@) is None {
        let mode = match node.find("auto_pad"@) {
            Some(attribute) => decode_utf8(attribute.s),
            None => "VALID"@,
        };
        if mode == "VALID"@ {
            assert(zeros(2 * count) =~= lists.pads);
        } else {
            let values = Seq::new(
                count,
                |i: int| total_pad(signed(dims)[i + 2], lists.strides[i], effective[i]),
            );
            assert forall|i: int| 0 <= i < count implies (#[trigger] values[i]) is Some by {
                lemma_made_up(
                    mode,
                    dims[i + 2] as i64,
                    lists.strides[i],
                    effective[i],
                    lists.pads[i],
                    lists.pads[i + count],
                );
            }
            let totals = all_of(values).unwrap();
            assert(total_pads(signed(dims), lists.strides, effective) == Some(totals));
            assert forall|j: int| 0 <= j < 2 * count implies split_pads(mode, totals)[j]
                == lists.pads[j] by {
                let i = if j < count {
                    j
                } else {
                    j - count
                };
                assert(values[i] is Some);
                lemma_made_up(
                    mode,
                    dims[i + 2] as i64,
                    lists.strides[i],
                    effective[i],
                    lists.pads[i],
                    lists.pads[i + count],
                );
            }
            assert(split_pads(mode, totals) =~= lists.pads);
        }
    }
}

/// The output of a window has the batch of the input, the channels of the input for a pool and the
/// number of filters for a convolution, and along each further dimension the number of places that
/// the window has there. Every output has that shape.
pub proof fn law_window_counts_its_places(
    node: NodeView,
    shapes: Seq<ShapeView>,
    table: Map<Seq<char>, TensorView>,
    lists: WindowLists,
    sizes: Seq<i64>,
)
    requires
        is_window(node, shapes),
        asks_for_window(node, shapes, lists),
        asks_for_pads(node, shapes[0].dims, lists),
        node.op_type == "Conv"@ ==> shapes[1].dims.len() >= 1,
        sizes.len() == lists.kernel.len(),
        forall|i: int|
            0 <= i < sizes.len() ==> in_range(shapes[0].dims[i + 2] as i64, lists, i) && has_places(
                shapes[0].dims[i + 2] as i64,
                lists,
                i,
                node.find("ceil_mode"@) matches Some(attribute) && attribute.i == 1,
                #[trigger] sizes[i],
            ),
    ensures
        forward(node, shapes, table) matches Some(Ok(out)) && {
            &&& out.len() == node.output.len()
            &&& forall|j: int|
                0 <= j < out.len() ==> {
                    &&& (#[trigger] out[j]).data_type == shapes[0].data_type
                    &&& out[j].dims.len() == shapes[0].dims.len()
                    &&& out[j].dims[0] == shapes[0].dims[0]
                    &&& out[j].dims[1] == if node.op_type == "Conv"@ {
                        shapes[1].dims[0]
                    } else {
                        shapes[0].dims[1]
                    }
                    &&& forall|i: int|
                        0 <= i < sizes.len() ==> out[j].dims[i + 2] == #[trigger] sizes[i] as u64
                }
        },
{
    lemma_conv();
    lemma_maxpool();
    lemma_averagepool();
    let pool = node.op_type != "Conv"@;
    let up = node.int_or("ceil_mode"@, 0) == 1;
    let dims = signed(shapes[0].dims);
    let count = lists.kernel.len();
    assert forall|i: int| 0 <= i < count implies in_i64(#[trigger] lists.kernel[i] - 1) && in_i64(
        (lists.kernel[i] - 1) * lists.dilations[i],
    ) && in_i64(reach(lists, i)) by {
        assert(has_places(shapes[0].dims[i + 2] as i64, lists, i, up, sizes[i]));
    }
    assert forall|i: int| 0 <= i < count implies in_i64(#[trigger] reach(lists, i)) by {
        assert(in_i64(lists.kernel[i] - 1));
    }
    lemma_effective(lists);
    lemma_paddings(node, shapes[0].dims, lists);
    let effective = Seq::new(count, |i: int| reach(lists, i) as i64);
    assert(ones(count) =~= lists.strides || node.find("strides"@) is Some);
    assert(ones(count) =~= lists.dilations || node.find("dilations"@) is Some);
    if node.find("kernel_shape"@) is None {
        assert(signed(shapes[1].dims).skip(2) =~= lists.kernel);
    }
    let values = Seq::new(
        count,
        |i: int|
            places(
                dims[i + 2],
                lists.pads[i],
                lists.pads[i + effective.len()],
                effective[i],
                lists.strides[i],
                up,
            ),
    );
    assert forall|i: int| 0 <= i < count implies #[trigger] values[i] == Some(sizes[i]) by {
        lemma_places(shapes[0].dims[i + 2] as i64, lists, i, up, sizes[i]);
    }
    assert(all_of(values).unwrap() =~= sizes);
    assert(all_places(dims, lists.pads, effective, lists.strides, up) == Some(sizes));
    let channel = channels(node, shapes, pool)->Ok_0;
    assert(window_dims(node, shapes, pool) == Some(
        Ok::<Seq<i64>, ErrorView>(seq![dims[0], channel] + sizes),
    ));
    lemma_unsigned_signed(shapes[0].dims);
    assert(unsigned(dims)[0] == shapes[0].dims[0]);
    assert(unsigned(dims)[1] == shapes[0].dims[1]);
    if !pool {
        lemma_unsigned_signed(shapes[1].dims);
        assert(unsigned(signed(shapes[1].dims))[0] == shapes[1].dims[0]);
    }
    let shape = shape_of(shapes[0].data_type, seq![dims[0], channel] + sizes);
    assert(window(node, shapes, pool, node.output.len()) == Some(
        Ok::<Seq<ShapeView>, ErrorView>(Seq::new(node.output.len(), |i: int| shape)),
    ));
    assert forall|i: int| 0 <= i < sizes.len() implies shape.dims[i + 2] == #[trigger] sizes[i]
        as u64 by {
        assert((seq![dims[0], channel] + sizes)[i + 2] == sizes[i]);
    }
}

/// The outcome that a node is not valid for the given reason.
pub open spec fn refused(node: NodeView, why: Seq<char>) -> Option<
    Result<Seq<ShapeView>, ErrorView>,
> {
    Some(Err(ErrorView::InvalidNode(node.name, why)))
}

/// A window is refused where the input has fewer than two dimensions.
pub proof fn law_window_needs_two_dimensions(
    node: NodeView,
    shapes: Seq<ShapeView>,
    table: Map<Seq<char>, TensorView>,
)
    requires
        is_window(node, shapes),
        shapes[0].dims.len() < 2,
    ensures
        forward(node, shapes, table) == refused(
            node,
            "input shape must have at least two dimensions"@,
        ),
{
    lemma_conv();
    lemma_maxpool();
    lemma_averagepool();
}

/// A window is refused where it is not given one dilation and one stride for each dimension from the
/// third on.
pub proof fn law_window_needs_even_lists(
    node: NodeView,
    shapes: Seq<ShapeView>,
    table: Map<Seq<char>, TensorView>,
)
    requires
        is_window(node, shapes),
        shapes[0].dims.len() >= 2,
    ensures
        (node.find("dilations"@) matches Some(attribute) && attribute.ints.len()
            != shapes[0].dims.len() - 2) ==> forward(node, shapes, table) == refused(
            node,
            "attribute dilations has incorrect size"@,
        ),
        (node.find("dilations"@) matches Some(attribute) ==> attribute.ints.len()
            == shapes[0].dims.len() - 2) && (node.find("strides"@) matches Some(attribute)
            && attribute.ints.len() != shapes[0].dims.len() - 2) ==> forward(node, shapes, table)
            == refused(node, "attribute strides has incorrect size"@),
{
    lemma_conv();
    lemma_maxpool();
    lemma_averagepool();
}

/// With dilations and strides in order, a window is refused where a pool is not told its size, or
/// the size has another number of dimensions than the input from the third on.
pub proof fn law_window_needs_its_size(
    node: NodeView,
    shapes: Seq<ShapeView>,
    table: Map<Seq<char>, TensorView>,
)
    requires
        is_window(node, shapes),
        shapes[0].dims.len() >= 2,
        node.find("dilations"@) matches Some(attribute) ==> attribute.ints.len()
            == shapes[0].dims.len() - 2,
        node.find("strides"@) matches Some(attribute) ==> attribute.ints.len()
            == shapes[0].dims.len() - 2,
    ensures
        node.op_type != "Conv"@ && node.find("kernel_shape"@) is None ==> forward(
            node,
            shapes,
            table,
        ) == refused(node, "node requires kernel_shape to be set"@),
        (node.find("kernel_shape"@) matches Some(attribute) && attribute.ints.len()
            != shapes[0].dims.len() - 2) ==> forward(node, shapes, table) == refused(
            node,
            "kernel shape rank must be equal to input rank"@,
        ),
        node.op_type == "Conv"@ && node.find("kernel_shape"@) is None && shapes[1].dims.len() >= 2
            && shapes[1].dims.len() != shapes[0].dims.len() ==> forward(node, shapes, table)
            == refused(node, "kernel shape rank must be equal to input rank"@),
{
    lemma_conv();
    lemma_maxpool();
    lemma_averagepool();
}

/// With everything else in order, a window is refused where the paddings that are given are not two
/// for each dimension from the third on, and a convolution where its filters have no dimension.
pub proof fn law_window_needs_its_paddings(
    node: NodeView,
    shapes: Seq<ShapeView>,
    table: Map<Seq<char>, TensorView>,
    lists: WindowLists,
)
    requires
        is_window(node, shapes),
        asks_for_window(node, shapes, lists),
        forall|i: int|
            0 <= i < lists.kernel.len() ==> in_i64(#[trigger] lists.kernel[i] - 1) && in_i64(
                (lists.kernel[i] - 1) * lists.dilations[i],
            ) && in_i64(reach(lists, i)),
    ensures
        (node.find("pads"@) matches Some(attribute) && attribute.ints.len() != 2 * (
        shapes[0].dims.len() - 2)) ==> forward(node, shapes, table) == refused(
            node,
            "pads attribute has incorrect size"@,
        ),
        (node.find("pads"@) matches Some(attribute) && attribute.ints.len() == 2 * (
        shapes[0].dims.len() - 2)) && node.op_type == "Conv"@ && shapes[1].dims.len() == 0
            ==> forward(node, shapes, table) == refused(
            node,
            "second input has incorrect rank"@,
        ),
{
    lemma_conv();
    lemma_maxpool();
    lemma_averagepool();
    let count = lists.kernel.len();
    lemma_effective(lists);
    assert(ones(count) =~= lists.strides || node.find("strides"@) is Some);
    assert(ones(count) =~= lists.dilations || node.find("dilations"@) is Some);
    if node.find("kernel_shape"@) is None {
        assert(signed(shapes[1].dims).skip(2) =~= lists.kernel);
    }
}

} // verus!
