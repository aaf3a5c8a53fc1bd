//! Operators that arrange the same elements in other dimensions: `Reshape`, `Squeeze` and
//! `Unsqueeze`.
use vstd::hash_map::StringHashMap;
use vstd::prelude::*;
use vstd::string::StringExecFns;
use crate::arith::{checked_product, product};
use crate::error::{ErrorView, ShapeInferenceError};
use crate::forward::common::{
    constants, invalid, invalid_node, missing, missing_attribute, one_shape, outcome, single,
    Outcome,
};
use crate::onnx::{view_option, NodeProto, NodeView, TensorProto, TensorView};
use crate::shape::{signed, Shape, ShapeView};
use crate::text::{decimal, signed_text, unsigned_text};

verus! {

/// What is said of a shape with another number of elements than the input.
pub open spec fn uneven_elements(wanted: int, there: int) -> Seq<char> {
    "Reshape shape tensor (element count="@ + decimal(wanted)
        + ") must have the same number of elements as the input tensor's rank ("@ + decimal(there)
        + ")"@
}

/// The first of the sizes that is below zero.
pub open spec fn first_negative(sizes: Seq<i64>) -> Option<i64>
    decreases sizes.len(),
{
    if sizes.len() == 0 {
        None
    } else if sizes[0] < 0 {
        Some(sizes[0])
    } else {
        first_negative(sizes.drop_first())
    }
}

/// The wanted sizes, with the size of the same dimension of the input in place of each zero, unless
/// zeros are to be taken as they are.
pub open spec fn filled(wanted: Seq<i64>, dims: Seq<i64>, allow_zero: bool) -> Option<Seq<i64>> {
    if forall|i: int|
        0 <= i < wanted.len() && #[trigger] wanted[i] == 0 && !allow_zero ==> i < dims.len() {
        Some(
            Seq::new(
                wanted.len(),
                |i: int|
                    if wanted[i] == 0 && !allow_zero {
                        dims[i]
                    } else {
                        wanted[i]
                    },
            ),
        )
    } else {
        None
    }
}

/// `Reshape` of a shape to wanted sizes, of which the product has to be the number of elements.
pub open spec fn reshape_to(node: NodeView, shape: ShapeView, wanted: Seq<i64>) -> Outcome {
    match (product(wanted), shape.element_count()) {
        (Some(total), Some(count)) => if total != count as i64 {
            Some(Err(invalid(node, uneven_elements(total as int, count as int))))
        } else {
            match first_negative(wanted) {
                Some(size) => if size == -1 {
                    Some(
                        Err(
                            ErrorView::Unsupported("Reshape with shape containing a -1 element"@),
                        ),
                    )
                } else {
                    Some(
                        Err(
                            invalid(
                                node,
                                "Reshape shape tensor cannot contain negative values except for -1 (contains "@
                                    + decimal(size as int) + ")"@,
                            ),
                        ),
                    )
                },
                None => match filled(
                    wanted,
                    signed(shape.dims),
                    node.int_or("allowzero"@, 0) == 1,
                ) {
                    Some(dims) => single(shape.data_type, dims),
                    None => None,
                },
            }
        },
        _ => None,
    }
}

/// `Reshape`: to the sizes that the second input, a constant, holds.
pub open spec fn reshape(
    node: NodeView,
    shape: ShapeView,
    table: Map<Seq<char>, TensorView>,
) -> Outcome {
    if node.input.len() < 2 {
        None
    } else if table.contains_key(node.input[1]) {
        reshape_to(node, shape, table[node.input[1]].int64_data)
    } else {
        Some(Err(ErrorView::Unsupported("Reshape with dynamic shape tensor"@)))
    }
}

fn find_negative(sizes: &[i64]) -> (found: Option<i64>)
    ensures
        found == first_negative(sizes@),
{
    let mut i: usize = 0;
    assert(sizes@.skip(0) =~= sizes@);
    while i < sizes.len()
        invariant
            i <= sizes@.len(),
            first_negative(sizes@) == first_negative(sizes@.skip(i as int)),
        decreases sizes@.len() - i,
    {
        if sizes[i] < 0 {
            return Some(sizes[i]);
        }
        assert(sizes@.skip(i as int).drop_first() =~= sizes@.skip(i + 1));
        i = i + 1;
    }
    None
}

fn fill(wanted: &[i64], dims: &Vec<i64>, allow_zero: bool) -> (result: Option<Vec<i64>>)
    ensures
        view_option(result) == filled(wanted@, dims@, allow_zero),
{
    let mut out: Vec<i64> = Vec::new();
    let mut i: usize = 0;
    while i < wanted.len()
        invariant
            i <= wanted@.len(),
            out@.len() == i,
            forall|j: int|
                0 <= j < i && #[trigger] wanted@[j] == 0 && !allow_zero ==> j < dims@.len(),
            forall|j: int|
                0 <= j < i ==> #[trigger] out@[j] == (if wanted@[j] == 0 && !allow_zero {
                    dims@[j]
                } else {
                    wanted@[j]
                }),
        decreases wanted@.len() - i,
    {
        if wanted[i] == 0 && !allow_zero {
            if i >= dims.len() {
                assert(wanted@[i as int] == 0);
                return None;
            }
            out.push(dims[i]);
        } else {
            out.push(wanted[i]);
        }
        i = i + 1;
    }
    assert(out@ =~= filled(wanted@, dims@, allow_zero).unwrap());
    Some(out)
}

/// The rule for `Reshape`.
pub fn infer_reshape(
    node: &NodeProto,
    shape: &Shape,
    initializers: &StringHashMap<&TensorProto>,
) -> (result: Option<Result<Vec<Shape>, ShapeInferenceError>>)
    ensures
        outcome(result) == reshape(node@, shape@, constants(initializers@)),
{
    if node.input.len() < 2 {
        return None;
    }
    let wanted: &[i64] = match initializers.get(node.input[1].as_str()) {
        Some(tensor) => tensor.int64_data.as_slice(),
        None => {
            return Some(
                Err(
                    ShapeInferenceError::Unsupported(
                        "Reshape with dynamic shape tensor".to_owned(),
                    ),
                ),
            );
        },
    };
    let total: i64 = match checked_product(wanted) {
        Some(total) => total,
        None => {
            return None;
        },
    };
    let count: u64 = match shape.element_count() {
        Some(count) => count,
        None => {
            return None;
        },
    };
    if total != (
    #[verifier::truncate]
    (count as i64)) {
        let why = String::from_str("Reshape shape tensor (element count=").concat(
            signed_text(total).as_str(),
        ).concat(") must have the same number of elements as the input tensor's rank (").concat(
            unsigned_text(count).as_str(),
        ).concat(")");
        return Some(Err(invalid_node(node, why)));
    }
    let allow_zero: bool = node.int_or("allowzero", 0) == 1;
    match find_negative(wanted) {
        Some(size) => {
            if size == -1 {
                Some(
                    Err(
                        ShapeInferenceError::Unsupported(
                            "Reshape with shape containing a -1 element".to_owned(),
                        ),
                    ),
                )
            } else {
                let why = String::from_str(
                    "Reshape shape tensor cannot contain negative values except for -1 (contains ",
                ).concat(signed_text(size).as_str()).concat(")");
                Some(Err(invalid_node(node, why)))
            }
        },
        None => {
            let dims = shape.signed_dims();
            match fill(wanted, &dims, allow_zero) {
                Some(out) => one_shape(shape.data_type, out.as_slice()),
                None => None,
            }
        },
    }
}

/// The sizes with a dimension of size 1 put in at each of the axes in turn. An axis below zero
/// counts from the end of the final dimensions, `rank` in number.
pub open spec fn with_ones(dims: Seq<i64>, axes: Seq<i64>, rank: int) -> Option<Seq<i64>>
    decreases axes.len(),
{
    if axes.len() == 0 {
        Some(dims)
    } else {
        let at = if axes[0] < 0 {
            rank + axes[0]
        } else {
            axes[0] as int
        };
        if 0 <= at <= dims.len() {
            with_ones(dims.insert(at, 1), axes.drop_first(), rank)
        } else {
            None
        }
    }
}

/// The axes of a node that takes them as an attribute or, with two inputs, as a constant.
pub open spec fn unsqueeze_axes(
    node: NodeView,
    inputs: nat,
    table: Map<Seq<char>, TensorView>,
) -> Option<Result<Seq<i64>, ErrorView>> {
    if inputs == 2 {
        if node.input.len() < 2 {
            None
        } else if table.contains_key(node.input[1]) {
            Some(Ok(table[node.input[1]].int64_data))
        } else {
            Some(Err(ErrorView::Unsupported("Unsqueeze with dynamic axis inputs"@)))
        }
    } else {
        match node.find("axes"@) {
            Some(attribute) => Some(Ok(attribute.ints)),
            None => Some(Err(missing(node, "axes"@))),
        }
    }
}

/// `Unsqueeze`: a dimension of size 1 is put in at each of the axes.
pub open spec fn unsqueeze(
    node: NodeView,
    shape: ShapeView,
    inputs: nat,
    table: Map<Seq<char>, TensorView>,
) -> Outcome {
    match unsqueeze_axes(node, inputs, table) {
        None => None,
        Some(Err(error)) => Some(Err(error)),
        Some(Ok(axes)) => {
            match with_ones(signed(shape.dims), axes, (shape.dims.len() + axes.len()) as int) {
                Some(dims) => single(shape.data_type, dims),
                None => None,
            }
        },
    }
}

fn put_in_ones(dims: &Vec<i64>, axes: &Vec<i64>) -> (result: Option<Vec<i64>>)
    ensures
        view_option(result) == with_ones(dims@, axes@, (dims@.len() + axes@.len()) as int),
{
    let rank: i128 = dims.len() as i128 + axes.len() as i128;
    let mut out: Vec<i64> = dims.clone();
    assert(out@ =~= dims@);
    let mut i: usize = 0;
    assert(axes@.skip(0) =~= axes@);
    while i < axes.len()
        invariant
            i <= axes@.len(),
            0 <= rank <= 2 * usize::MAX,
            with_ones(dims@, axes@, (dims@.len() + axes@.len()) as int) == with_ones(
                out@,
                axes@.skip(i as int),
                rank as int,
            ),
        decreases axes@.len() - i,
    {
        assert(axes@.skip(i as int).drop_first() =~= axes@.skip(i + 1));
        let at: i128 = if axes[i] < 0 {
            rank + axes[i] as i128
        } else {
            axes[i] as i128
        };
        if at < 0 || at > out.len() as i128 {
            return None;
        }
        out.insert(at as usize, 1);
        i = i + 1;
    }
    Some(out)
}

/// The rule for `Unsqueeze`.
pub fn infer_unsqueeze(
    node: &NodeProto,
    shape: &Shape,
    inputs: usize,
    initializers: &StringHashMap<&TensorProto>,
) -> (result: Option<Result<Vec<Shape>, ShapeInferenceError>>)
    ensures
        outcome(result) == unsqueeze(node@, shape@, inputs as nat, constants(initializers@)),
{
    let axes: Vec<i64> = if inputs == 2 {
        if node.input.len() < 2 {
            return None;
        }
        match initializers.get(node.input[1].as_str()) {
            Some(tensor) => vstd::slice::slice_to_vec(tensor.int64_data.as_slice()),
            None => {
                return Some(
                    Err(
                        ShapeInferenceError::Unsupported(
                            "Unsqueeze with dynamic axis inputs".to_owned(),
                        ),
                    ),
                );
            },
        }
    } else {
        match node.find_attribute("axes") {
            Some(attribute) => vstd::slice::slice_to_vec(attribute.ints.as_slice()),
            None => {
                return Some(Err(missing_attribute(node, "axes")));
            },
        }
    };
    match put_in_ones(&shape.signed_dims(), &axes) {
        Some(dims) => one_shape(shape.data_type, dims.as_slice()),
        None => None,
    }
}

/// Whether the dimension with the given index and size goes: it is one of the axes, or, without
/// axes, its size is 1.
pub open spec fn goes(axes: Option<Seq<i64>>, index: int, size: i64) -> bool {
    match axes {
        Some(axes) => axes.contains(index as i64),
        None => size == 1,
    }
}

/// The sizes of the dimensions that stay.
pub open spec fn squeezed(dims: Seq<i64>, axes: Option<Seq<i64>>) -> Seq<i64>
    decreases dims.len(),
{
    if dims.len() == 0 {
        Seq::empty()
    } else {
        let before = squeezed(dims.drop_last(), axes);
        if goes(axes, dims.len() - 1, dims.last()) {
            before
        } else {
            before.push(dims.last())
        }
    }
}

/// `Squeeze`: without the dimensions that the second input, a constant, names, or, without a
/// second input, those of size 1.
pub open spec fn squeeze(
    node: NodeView,
    shape: ShapeView,
    inputs: nat,
    table: Map<Seq<char>, TensorView>,
) -> Outcome {
    if inputs == 2 {
        if node.input.len() < 2 {
            None
        } else if table.contains_key(node.input[1]) {
            let axes = table[node.input[1]].int64_data;
            single(shape.data_type, squeezed(signed(shape.dims), Some(axes)))
        } else {
            Some(Err(ErrorView::Unsupported("Unsqueeze with dynamic axis inputs"@)))
        }
    } else {
        single(shape.data_type, squeezed(signed(shape.dims), None))
    }
}

fn holds(list: &Vec<i64>, value: i64) -> (found: bool)
    ensures
        found == list@.contains(value),
{
    let mut i: usize = 0;
    while i < list.len()
        invariant
            i <= list@.len(),
            forall|j: int| 0 <= j < i ==> list@[j] != value,
        decreases list@.len() - i,
    {
        if list[i] == value {
            return true;
        }
        i = i + 1;
    }
    false
}

fn squeeze_dims(dims: &Vec<i64>, axes: Option<&Vec<i64>>) -> (out: Vec<i64>)
    ensures
        out@ == squeezed(dims@, view_option(axes)),
{
    let mut out: Vec<i64> = Vec::new();
    let mut i: usize = 0;
    while i < dims.len()
        invariant
            i <= dims@.len(),
            out@ == squeezed(dims@.take(i as int), view_option(axes)),
        decreases dims@.len() - i,
    {
        proof {
            let next = dims@.take(i + 1);
            assert(next.drop_last() =~= dims@.take(i as int));
            assert(next.last() == dims@[i as int]);
        }
        let gone: bool = match axes {
            Some(axes) => holds(
                axes,
                #[verifier::truncate]
                (i as i64),
            ),
            None => dims[i] == 1,
        };
        if !gone {
            out.push(dims[i]);
        }
        i = i + 1;
    }
    assert(dims@.take(i as int) =~= dims@);
    out
}

/// The rule for `Squeeze`.
pub fn infer_squeeze(
    node: &NodeProto,
    shape: &Shape,
    inputs: usize,
    initializers: &StringHashMap<&TensorProto>,
) -> (result: Option<Result<Vec<Shape>, ShapeInferenceError>>)
    ensures
        outcome(result) == squeeze(node@, shape@, inputs as nat, constants(initializers@)),
{
    let dims = shape.signed_dims();
    if inputs == 2 {
        if node.input.len() < 2 {
            return None;
        }
        match initializers.get(node.input[1].as_str()) {
            Some(tensor) => {
                let out = squeeze_dims(&dims, Some(&tensor.int64_data));
                one_shape(shape.data_type, out.as_slice())
            },
            None => Some(
                Err(
                    ShapeInferenceError::Unsupported(
                        "Unsqueeze with dynamic axis inputs".to_owned(),
                    ),
                ),
            ),
        }
    } else {
        let out = squeeze_dims(&dims, None);
        one_shape(shape.data_type, out.as_slice())
    }
}

} // verus!
