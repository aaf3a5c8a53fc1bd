//! What the operators give that look at single sizes or numbers: copies, casts, arithmetic, means,
//! and the shapes of numbers.
use vstd::prelude::*;
use crate::arith::{law_quotient_leaves_a_small_rest, law_which_quotients_there_are, quotient};
use crate::error::{AttributeNotFoundView, ErrorView};
use crate::forward::forward;
use crate::forward::laws::names::{
    lemma_add, lemma_cast, lemma_constant, lemma_div, lemma_dropout, lemma_identity, lemma_mul,
    lemma_pow, lemma_range, lemma_reducemean, lemma_relu, lemma_shape, lemma_sqrt, lemma_sub,
};
use crate::forward::laws::window::refused;
use crate::forward::reduce::reduced;
use crate::forward::slice::{all_axes, counted_axes};
use crate::onnx::{NodeView, TensorView};
use crate::shape::{
    broadcast, broadcastable, joint_rank, lemma_unsigned_signed, signed, sizes_agree, unsigned,
    ScalarType, ShapeView,
};
use crate::text::decimal;

verus! {

/// `Identity`, `Sqrt`, `Relu` and `Dropout` give each output the shape of their first input.
pub proof fn law_copies_keep_the_shape(
    node: NodeView,
    shapes: Seq<ShapeView>,
    table: Map<Seq<char>, TensorView>,
)
    requires
        (node.op_type == "Identity"@ || node.op_type == "Sqrt"@ || node.op_type == "Relu"@)
            && shapes.len() == 1 && node.output.len() == 1 || node.op_type == "Dropout"@ && 1
            <= shapes.len() <= 3 && 1 <= node.output.len() <= 2,
    ensures
        forward(node, shapes, table) matches Some(Ok(out)) && out.len() == node.output.len()
            && forall|j: int| 0 <= j < out.len() ==> #[trigger] out[j] == shapes[0],
{
    lemma_identity();
    lemma_sqrt();
    lemma_relu();
    lemma_dropout();
}

/// `Cast` keeps the sizes and gives the element type with the code 1, 2, 6 or 7 that the attribute
/// `to` holds in its low 32 bits. Any other number is refused, and so is a node without it.
pub proof fn law_cast_changes_the_type_alone(
    node: NodeView,
    shapes: Seq<ShapeView>,
    table: Map<Seq<char>, TensorView>,
)
    requires
        node.op_type == "Cast"@,
        shapes.len() == 1,
        node.output.len() == 1,
    ensures
        node.find("to"@) is None ==> forward(node, shapes, table) == Some(
            Err::<Seq<ShapeView>, ErrorView>(
                ErrorView::MissingAttribute(
                    AttributeNotFoundView { attribute: "to"@, node_name: node.name },
                ),
            ),
        ),
        node.find("to"@) matches Some(attribute) ==> {
            let result = forward(node, shapes, table);
            let with = |data_type: ScalarType|
                Some(
                    Ok::<Seq<ShapeView>, ErrorView>(
                        seq![ShapeView { dims: shapes[0].dims, data_type }],
                    ),
                );
            let code = attribute.i as i32;
            &&& code == 1 ==> result == with(ScalarType::F32)
            &&& code == 2 ==> result == with(ScalarType::U8)
            &&& code == 6 ==> result == with(ScalarType::I32)
            &&& code == 7 ==> result == with(ScalarType::I64)
            &&& code != 1 && code != 2 && code != 6 && code != 7 ==> result == refused(
                node,
                "invalid value for to attribute ("@ + decimal(attribute.i as int)
                    + ") for Cast operator"@,
            )
        },
{
    lemma_cast();
}

/// Whether a node is an arithmetic operator on two inputs.
pub open spec fn is_arithmetic(node: NodeView, shapes: Seq<ShapeView>) -> bool {
    &&& node.op_type == "Add"@ || node.op_type == "Sub"@ || node.op_type == "Mul"@ || node.op_type
        == "Div"@ || node.op_type == "Pow"@
    &&& shapes.len() == 2
    &&& node.output.len() == 1
}

/// The size at a distance from the end of a list, or 1 before its beginning.
pub open spec fn size_from_end(dims: Seq<u64>, distance: int) -> u64 {
    if distance < dims.len() {
        dims[dims.len() - 1 - distance]
    } else {
        1
    }
}

/// Arithmetic on inputs of one element type whose sizes, aligned at the end, are equal or 1 gives
/// the larger number of dimensions, and each size that is not 1.
pub proof fn law_arithmetic_broadcasts(
    node: NodeView,
    shapes: Seq<ShapeView>,
    table: Map<Seq<char>, TensorView>,
)
    requires
        is_arithmetic(node, shapes),
        shapes[0].data_type == shapes[1].data_type,
        forall|d: int| #[trigger]
            size_from_end(shapes[0].dims, d) == size_from_end(shapes[1].dims, d) || size_from_end(
                shapes[0].dims,
                d,
            ) == 1 || size_from_end(shapes[1].dims, d) == 1,
    ensures
        forward(node, shapes, table) matches Some(Ok(out)) && {
            &&& out.len() == 1
            &&& out[0].data_type == shapes[0].data_type
            &&& out[0].dims.len() >= shapes[0].dims.len()
            &&& out[0].dims.len() >= shapes[1].dims.len()
            &&& out[0].dims.len() == shapes[0].dims.len() || out[0].dims.len()
                == shapes[1].dims.len()
            &&& forall|d: int|
                0 <= d < out[0].dims.len() ==> {
                    let size = #[trigger] size_from_end(out[0].dims, d);
                    &&& size_from_end(shapes[0].dims, d) != 1 ==> size == size_from_end(
                        shapes[0].dims,
                        d,
                    )
                    &&& size_from_end(shapes[1].dims, d) != 1 ==> size == size_from_end(
                        shapes[1].dims,
                        d,
                    )
                    &&& size_from_end(shapes[0].dims, d) == 1 && size_from_end(shapes[1].dims, d)
                        == 1 ==> size == 1
                }
        },
{
    lemma_add();
    lemma_sub();
    lemma_mul();
    lemma_div();
    lemma_pow();
    let (a, b) = (shapes[0], shapes[1]);
    assert forall|d: int| 0 <= d < joint_rank(a, b) implies #[trigger] sizes_agree(
        a.from_last(d),
        b.from_last(d),
    ) by {
        assert(size_from_end(a.dims, d) == a.from_last(d));
        assert(size_from_end(b.dims, d) == b.from_last(d));
    }
    assert(broadcastable(a, b));
    let joint = broadcast(a, b).unwrap();
    assert forall|d: int| 0 <= d < joint.dims.len() implies ({
        let size = #[trigger] size_from_end(joint.dims, d);
        &&& size_from_end(a.dims, d) != 1 ==> size == size_from_end(a.dims, d)
        &&& size_from_end(b.dims, d) != 1 ==> size == size_from_end(b.dims, d)
        &&& size_from_end(a.dims, d) == 1 && size_from_end(b.dims, d) == 1 ==> size == 1
    }) by {
        assert(sizes_agree(a.from_last(d), b.from_last(d)));
        assert(size_from_end(a.dims, d) == a.from_last(d));
        assert(size_from_end(b.dims, d) == b.from_last(d));
        assert(joint_rank(a, b) - 1 - (joint_rank(a, b) - 1 - d) == d);
    }
}

/// Arithmetic is refused on inputs of different element types, and on sizes that, aligned at the
/// end, differ without one of them being 1.
pub proof fn law_arithmetic_needs_shapes_that_agree(
    node: NodeView,
    shapes: Seq<ShapeView>,
    table: Map<Seq<char>, TensorView>,
    d: int,
)
    requires
        is_arithmetic(node, shapes),
        node.input.len() >= 2,
        shapes[0].data_type != shapes[1].data_type || 0 <= d && size_from_end(shapes[0].dims, d)
            != size_from_end(shapes[1].dims, d) && size_from_end(shapes[0].dims, d) != 1
            && size_from_end(shapes[1].dims, d) != 1,
    ensures
        forward(node, shapes, table) == refused(
            node,
            "two inputs (left "@ + node.input[0] + " shape: "@ + node.input[1] + ", right "@
                + shapes[0].text() + " shape: "@ + shapes[1].text() + ") must be broadcastable"@,
        ),
{
    lemma_add();
    lemma_sub();
    lemma_mul();
    lemma_div();
    lemma_pow();
    let (a, b) = (shapes[0], shapes[1]);
    if a.data_type == b.data_type {
        assert(!sizes_agree(a.from_last(d), b.from_last(d)));
        assert(!broadcastable(a, b));
    }
}

/// `Shape` gives one dimension, whose size is the number of dimensions of the input, raised to the
/// attribute `start` and lowered to the attribute `end` where these are given.
pub proof fn law_shape_gives_the_rank(
    node: NodeView,
    shapes: Seq<ShapeView>,
    table: Map<Seq<char>, TensorView>,
    size: i64,
)
    requires
        node.op_type == "Shape"@,
        shapes.len() == 1,
        node.output.len() == 1,
        shapes[0].dims.len() <= i64::MAX,
        ({
            let rank = shapes[0].dims.len() as int;
            let start = match node.find("start"@) {
                Some(attribute) => attribute.i as int,
                None => 0,
            };
            let end = match node.find("end"@) {
                Some(attribute) => attribute.i as int,
                None => rank,
            };
            &&& start <= size <= end
            &&& start <= rank <= end ==> size == rank
            &&& rank < start ==> size == start
            &&& rank > end ==> size == end
        }),
    ensures
        forward(node, shapes, table) matches Some(Ok(out)) && out.len() == 1 && out[0].data_type
            == ScalarType::I64 && out[0].dims.len() == 1 && out[0].dims[0] == size as u64,
{
    lemma_shape();
}

/// `Range` gives one dimension, whose size is the number of whole steps from the start to the end.
/// The three are constants, each of a single 64-bit integer.
pub proof fn law_range_counts_whole_steps(
    node: NodeView,
    shapes: Seq<ShapeView>,
    table: Map<Seq<char>, TensorView>,
    start: i64,
    end: i64,
    step: i64,
    size: i64,
)
    requires
        node.op_type == "Range"@,
        shapes.len() == 3,
        node.output.len() == 1,
        node.input.len() == 3,
        forall|i: int|
            0 <= i < 3 ==> table.contains_key(#[trigger] node.input[i])
                && table[node.input[i]].data_type == 7,
        table[node.input[0]].int64_data == seq![start],
        table[node.input[1]].int64_data == seq![end],
        table[node.input[2]].int64_data == seq![step],
        step != 0,
        i64::MIN <= end - start <= i64::MAX,
        ({
            let rest = end - start - size * step;
            let length = if step < 0 {
                -step
            } else {
                step as int
            };
            &&& end >= start ==> 0 <= rest < length
            &&& end < start ==> -length < rest <= 0
        }),
    ensures
        forward(node, shapes, table) matches Some(Ok(out)) && out.len() == 1 && out[0].data_type
            == ScalarType::I64 && out[0].dims.len() == 1 && out[0].dims[0] == size as u64,
{
    lemma_range();
    assert(table.contains_key(node.input[0]));
    assert(table.contains_key(node.input[1]));
    assert(table.contains_key(node.input[2]));
    let extent = end - start;
    law_quotient_leaves_a_small_rest(extent, step as int);
    law_which_quotients_there_are(extent as i64, step);
    let q = quotient(extent, step as int);
    let n = size as int;
    let d = step as int;
    assert(q == n) by (nonlinear_arith)
        requires
            extent >= 0 ==> 0 <= extent - q * d < (if d < 0 {
                -d
            } else {
                d
            }),
            extent < 0 ==> -(if d < 0 {
                -d
            } else {
                d
            }) < extent - q * d <= 0,
            extent >= 0 ==> 0 <= extent - n * d < (if d < 0 {
                -d
            } else {
                d
            }),
            extent < 0 ==> -(if d < 0 {
                -d
            } else {
                d
            }) < extent - n * d <= 0,
            d != 0,
    ;
    assert(!(extent == i64::MIN && step == -1)) by {
        if extent == i64::MIN && step == -1 {
            assert(n * d == -n) by (nonlinear_arith)
                requires
                    d == -1,
            ;
        }
    }
    assert(seq![start][0] == start && seq![end][0] == end && seq![step][0] == step);
}

/// An input of `Range` that is no constant, no 64-bit integer or no single number is refused, the
/// first of them first.
pub proof fn law_range_needs_single_numbers(
    node: NodeView,
    shapes: Seq<ShapeView>,
    table: Map<Seq<char>, TensorView>,
    i: int,
)
    requires
        node.op_type == "Range"@,
        shapes.len() == 3,
        node.output.len() == 1,
        node.input.len() == 3,
        0 <= i < 3,
    ensures
        ({
            let result = forward(node, shapes, table);
            let name = node.input[i];
            let ready = |j: int|
                table.contains_key(node.input[j]) && table[node.input[j]].data_type == 7;
            let all_ready = ready(0) && ready(1) && ready(2);
            let single = |j: int| table[node.input[j]].int64_data.len() == 1;
            let count = decimal(table[name].int64_data.len() as int);
            &&& (forall|j: int| 0 <= j < i ==> #[trigger] ready(j)) && !table.contains_key(name)
                ==> result == Some(
                Err::<Seq<ShapeView>, ErrorView>(
                    ErrorView::Unsupported(
                        "input "@ + name + " is dynamic (only static initializers are supported)"@,
                    ),
                ),
            )
            &&& (forall|j: int| 0 <= j < i ==> #[trigger] ready(j)) && table.contains_key(name)
                && table[name].data_type != 7 ==> result == Some(
                Err::<Seq<ShapeView>, ErrorView>(
                    ErrorView::Unsupported(
                        "initializer "@ + name + " has data type "@ + decimal(
                            table[name].data_type as int,
                        ) + " and not int64, which is currently not supported"@,
                    ),
                ),
            )
            &&& all_ready && i == 0 && !single(0) ==> result == refused(
                node,
                "the "@ + "start"@ + " input needs to be a scalar, has "@ + count + " elements"@,
            )
            &&& all_ready && i == 1 && single(0) && !single(1) ==> result == refused(
                node,
                "the "@ + "end"@ + " input needs to be a scalar, has "@ + count + " elements"@,
            )
            &&& all_ready && i == 2 && single(0) && single(1) && !single(2) ==> result == refused(
                node,
                "the "@ + "step"@ + " input needs to be a scalar, has "@ + count + " elements"@,
            )
        }),
{
    lemma_range();
    let ready = |j: int| table.contains_key(node.input[j]) && table[node.input[j]].data_type == 7;
    if forall|j: int| 0 <= j < i ==> #[trigger] ready(j) {
        assert(i > 0 ==> ready(0));
        assert(i > 1 ==> ready(1));
    }
}

/// `Constant` gives the shape of its value: of the first of the attributes `value_floats`,
/// `value_ints`, `value_float`, `value_int` and `value` that is there.
pub proof fn law_constant_gives_the_shape_of_its_value(
    node: NodeView,
    shapes: Seq<ShapeView>,
    table: Map<Seq<char>, TensorView>,
)
    requires
        node.op_type == "Constant"@,
        shapes.len() == 0,
        node.output.len() == 1,
    ensures
        ({
            let result = forward(node, shapes, table);
            let list = |data_type: ScalarType, size: int|
                Some(
                    Ok::<Seq<ShapeView>, ErrorView>(
                        seq![ShapeView { dims: seq![size as i64 as u64], data_type }],
                    ),
                );
            let with = |name: Seq<char>| node.find(name) is Some;
            let lists = with("value_floats"@) || with("value_ints"@);
            let single = with("value_float"@) || with("value_int"@);
            &&& node.find("value_floats"@) matches Some(attribute) ==> result == list(
                ScalarType::F32,
                attribute.floats.len() as int,
            )
            &&& !with("value_floats"@) ==> (node.find("value_ints"@) matches Some(attribute)
                ==> result == list(ScalarType::I64, attribute.ints.len() as int))
            &&& !lists && with("value_float"@) ==> result == list(ScalarType::F32, 1)
            &&& !lists && !with("value_float"@) && with("value_int"@) ==> result == list(
                ScalarType::I64,
                1,
            )
            &&& !lists && !single && !with("value"@) ==> result == Some(
                Err::<Seq<ShapeView>, ErrorView>(ErrorView::Unsupported("Constant"@)),
            )
            &&& !lists && !single ==> (node.find("value"@) matches Some(attribute) ==> {
                let code = attribute.t.data_type;
                if code == 1 || code == 2 || code == 6 || code == 7 {
                    result matches Some(Ok(out)) && {
                        &&& out.len() == 1
                        &&& out[0].dims.len() == attribute.t.dims.len()
                        &&& forall|i: int|
                            0 <= i < attribute.t.dims.len() ==> out[0].dims[i]
                                == #[trigger] attribute.t.dims[i] as u64
                        &&& out[0].data_type == if code == 1 {
                            ScalarType::F32
                        } else if code == 2 {
                            ScalarType::U8
                        } else if code == 6 {
                            ScalarType::I32
                        } else {
                            ScalarType::I64
                        }
                    }
                } else {
                    result == refused(node, "invalid tensor data type"@)
                }
            })
        }),
{
    lemma_constant();
    let one = seq![1i64];
    assert(unsigned(one) =~= seq![1int as i64 as u64]);
    if let Some(attribute) = node.find("value_floats"@) {
        let size = attribute.floats.len() as int;
        assert(unsigned(seq![size as i64]) =~= seq![size as i64 as u64]);
    } else if let Some(attribute) = node.find("value_ints"@) {
        let size = attribute.ints.len() as int;
        assert(unsigned(seq![size as i64]) =~= seq![size as i64 as u64]);
    }
}

/// Whether the mean goes over a dimension: it is named, by its place or by its distance from the
/// end, or nothing is named and nothing stands against going over all.
pub open spec fn goes_over(node: NodeView, rank: int, axis: int) -> bool {
    match node.find("axes"@) {
        Some(attribute) => exists|j: int|
            0 <= j < attribute.ints.len() && (#[trigger] attribute.ints[j] == axis
                || attribute.ints[j] == axis - rank),
        None => match node.find("noop_with_empty_axes"@) {
            Some(attribute) => attribute.i == 0,
            None => true,
        },
    }
}

proof fn lemma_goes_over(node: NodeView, rank: nat, axis: int)
    requires
        0 <= axis < rank,
        rank <= i64::MAX,
    ensures
        ({
            let default = if node.int_or("noop_with_empty_axes"@, 0) == 0 {
                all_axes(rank)
            } else {
                Seq::empty()
            };
            counted_axes(node.ints_or("axes"@, default), rank).contains(axis) == goes_over(
                node,
                rank as int,
                axis,
            )
        }),
{
    let default = if node.int_or("noop_with_empty_axes"@, 0) == 0 {
        all_axes(rank)
    } else {
        Seq::empty()
    };
    let axes = node.ints_or("axes"@, default);
    let counted = counted_axes(axes, rank);
    if goes_over(node, rank as int, axis) {
        if let Some(attribute) = node.find("axes"@) {
            let j = choose|j: int|
                0 <= j < attribute.ints.len() && (#[trigger] attribute.ints[j] == axis
                    || attribute.ints[j] == axis - rank);
            assert(counted[j] == axis);
        } else {
            assert(counted[axis] == axis);
        }
    }
    if counted.contains(axis) {
        let j = counted.index_of(axis);
        assert(axes[j] == axis || axes[j] == axis - rank);
    }
}

/// The places in a list that a test singles out, in their order.
pub open spec fn kept_places(rank: nat, keeps: spec_fn(int) -> bool) -> Seq<int> {
    Seq::new(rank, |i: int| i).filter(keeps)
}

pub(crate) proof fn lemma_kept_places(rank: nat, keeps: spec_fn(int) -> bool)
    requires
        rank > 0,
    ensures
        kept_places(rank, keeps) == if keeps(rank - 1) {
            kept_places((rank - 1) as nat, keeps).push(rank - 1)
        } else {
            kept_places((rank - 1) as nat, keeps)
        },
{
    reveal(Seq::filter);
    let all = Seq::new(rank, |i: int| i);
    assert(all.drop_last() =~= Seq::new((rank - 1) as nat, |i: int| i));
    assert(all.last() == rank - 1);
}

proof fn lemma_reduced_places(dims: Seq<i64>, axes: Seq<int>)
    ensures
        reduced(dims, axes, false) == kept_places(
            dims.len(),
            |i: int| !axes.contains(i),
        ).map_values(|i: int| dims[i]),
    decreases dims.len(),
{
    let keeps = |i: int| !axes.contains(i);
    reveal(Seq::filter);
    if dims.len() == 0 {
        assert(kept_places(0, keeps) =~= Seq::<int>::empty());
        assert(reduced(dims, axes, false) =~= kept_places(0, keeps).map_values(|i: int| dims[i]));
    } else {
        let fewer = dims.drop_last();
        lemma_reduced_places(fewer, axes);
        lemma_kept_places(dims.len(), keeps);
        lemma_places_below(fewer.len(), keeps);
        let places = kept_places(fewer.len(), keeps);
        assert(places.map_values(|i: int| fewer[i]) =~= places.map_values(|i: int| dims[i]));
        assert(reduced(dims, axes, false) =~= kept_places(dims.len(), keeps).map_values(
            |i: int| dims[i],
        ));
    }
}

pub(crate) proof fn lemma_places_below(rank: nat, keeps: spec_fn(int) -> bool)
    ensures
        forall|k: int|
            0 <= k < kept_places(rank, keeps).len() ==> 0 <= #[trigger] kept_places(
                rank,
                keeps,
            )[k] < rank,
    decreases rank,
{
    reveal(Seq::filter);
    if rank > 0 {
        lemma_kept_places(rank, keeps);
        lemma_places_below((rank - 1) as nat, keeps);
    } else {
        assert(kept_places(0, keeps) =~= Seq::<int>::empty());
    }
}

/// `ReduceMean` that keeps its dimensions, as it does by default, gives each one that it goes over
/// the size 1, and leaves the others as they are.
pub proof fn law_reduce_mean_puts_ones(
    node: NodeView,
    shapes: Seq<ShapeView>,
    table: Map<Seq<char>, TensorView>,
)
    requires
        node.op_type == "ReduceMean"@,
        shapes.len() == 1,
        node.output.len() == 1,
        shapes[0].dims.len() <= i64::MAX,
        node.find("keepdims"@) matches Some(attribute) ==> attribute.i == 1,
    ensures
        forward(node, shapes, table) matches Some(Ok(out)) && {
            &&& out.len() == 1
            &&& out[0].data_type == shapes[0].data_type
            &&& out[0].dims.len() == shapes[0].dims.len()
            &&& forall|i: int|
                0 <= i < shapes[0].dims.len() ==> #[trigger] out[0].dims[i] == if goes_over(
                    node,
                    shapes[0].dims.len() as int,
                    i,
                ) {
                    1
                } else {
                    shapes[0].dims[i]
                }
        },
{
    lemma_reducemean();
    let dims = signed(shapes[0].dims);
    let rank = dims.len();
    let default = if node.int_or("noop_with_empty_axes"@, 0) == 0 {
        all_axes(rank)
    } else {
        Seq::empty()
    };
    let axes = counted_axes(node.ints_or("axes"@, default), rank);
    lemma_reduced_keeping(dims, axes);
    lemma_unsigned_signed(shapes[0].dims);
    let out = unsigned(reduced(dims, axes, true));
    assert forall|i: int| 0 <= i < rank implies #[trigger] out[i] == if goes_over(
        node,
        rank as int,
        i,
    ) {
        1
    } else {
        shapes[0].dims[i]
    } by {
        lemma_goes_over(node, rank, i);
        assert(unsigned(dims)[i] == shapes[0].dims[i]);
    }
}

proof fn lemma_reduced_keeping(dims: Seq<i64>, axes: Seq<int>)
    ensures
        reduced(dims, axes, true).len() == dims.len(),
        forall|i: int|
            0 <= i < dims.len() ==> #[trigger] reduced(dims, axes, true)[i] == if axes.contains(i) {
                1
            } else {
                dims[i]
            },
    decreases dims.len(),
{
    if dims.len() > 0 {
        lemma_reduced_keeping(dims.drop_last(), axes);
    }
}

/// `ReduceMean` that does not keep its dimensions leaves those that it does not go over, in their
/// order.
pub proof fn law_reduce_mean_drops(
    node: NodeView,
    shapes: Seq<ShapeView>,
    table: Map<Seq<char>, TensorView>,
)
    requires
        node.op_type == "ReduceMean"@,
        shapes.len() == 1,
        node.output.len() == 1,
        shapes[0].dims.len() <= i64::MAX,
        node.find("keepdims"@) matches Some(attribute) && attribute.i != 1,
    ensures
        forward(node, shapes, table) matches Some(Ok(out)) && out.len() == 1 && out[0].data_type
            == shapes[0].data_type && out[0].dims == kept_places(
            shapes[0].dims.len(),
            |i: int| !goes_over(node, shapes[0].dims.len() as int, i),
        ).map_values(|i: int| shapes[0].dims[i]),
{
    lemma_reducemean();
    let dims = signed(shapes[0].dims);
    let rank = dims.len();
    let default = if node.int_or("noop_with_empty_axes"@, 0) == 0 {
        all_axes(rank)
    } else {
        Seq::empty()
    };
    let axes = counted_axes(node.ints_or("axes"@, default), rank);
    lemma_reduced_places(dims, axes);
    lemma_unsigned_signed(shapes[0].dims);
    let some = |i: int| !axes.contains(i);
    let other = |i: int| !goes_over(node, rank as int, i);
    assert forall|i: int| 0 <= i < rank implies #[trigger] some(i) == other(i) by {
        lemma_goes_over(node, rank, i);
    }
    lemma_same_places(rank, some, other);
    lemma_places_below(rank, some);
    let places = kept_places(rank, some);
    let left = unsigned(places.map_values(|i: int| dims[i]));
    let right = places.map_values(|i: int| shapes[0].dims[i]);
    assert forall|k: int| 0 <= k < places.len() implies #[trigger] left[k] == right[k] by {
        assert(unsigned(dims)[places[k]] == shapes[0].dims[places[k]]);
    }
    assert(left =~= right);
}

pub(crate) proof fn lemma_same_places(
    rank: nat,
    some: spec_fn(int) -> bool,
    other: spec_fn(int) -> bool,
)
    requires
        forall|i: int| 0 <= i < rank ==> #[trigger] some(i) == other(i),
    ensures
        kept_places(rank, some) == kept_places(rank, other),
    decreases rank,
{
    reveal(Seq::filter);
    if rank > 0 {
        lemma_kept_places(rank, some);
        lemma_kept_places(rank, other);
        lemma_same_places((rank - 1) as nat, some, other);
    } else {
        assert(kept_places(0, some) =~= kept_places(0, other));
    }
}

} // verus!
