//! Operators whose output is made of numbers: `Shape`, `Range` and `Constant`.
use vstd::hash_map::StringHashMap;
use vstd::prelude::*;
use vstd::string::StringExecFns;
use crate::arith::{checked_quotient, divides, in_i64, quotient};
use crate::error::{ErrorView, ShapeInferenceError};
use crate::forward::common::{
    constants, invalid, invalid_node, one_shape, outcome, single, static_initializer_value_i64,
    static_ints, Outcome,
};
use crate::forward::slice::clamp;
use crate::onnx::{NodeProto, NodeView, TensorProto, TensorView};
use crate::shape::{scalar_type, ScalarType, Shape, ShapeView};
use crate::text::{decimal, unsigned_text};

verus! {

fn one_size(data_type: ScalarType, size: i64) -> (result: Option<
    Result<Vec<Shape>, ShapeInferenceError>,
>)
    ensures
        outcome(result) == single(data_type, seq![size]),
{
    let dims: [i64; 1] = [size];
    assert(dims@ =~= seq![size]);
    one_shape(data_type, &dims)
}

/// `Shape`: one dimension, whose size is the rank of the input, but no less than the attribute
/// `start` and no more than the attribute `end`.
pub open spec fn shape_op(node: NodeView, shape: ShapeView) -> Outcome {
    let rank = shape.dims.len() as int;
    let start = node.int_or("start"@, 0) as int;
    let end = match node.find("end"@) {
        Some(attribute) => attribute.i as int,
        None => rank,
    };
    if start > end {
        None
    } else {
        single(ScalarType::I64, seq![clamp(rank, start, end) as i64])
    }
}

/// The rule for `Shape`.
pub fn infer_shape(node: &NodeProto, shape: &Shape) -> (result: Option<
    Result<Vec<Shape>, ShapeInferenceError>,
>)
    ensures
        outcome(result) == shape_op(node@, shape@),
{
    let rank: i128 = shape.rank() as i128;
    let start: i128 = node.int_or("start", 0) as i128;
    let end: i128 = match node.find_attribute("end") {
        Some(attribute) => attribute.i as i128,
        None => rank,
    };
    if start > end {
        return None;
    }
    let size: i128 = if rank < start {
        start
    } else if rank > end {
        end
    } else {
        rank
    };
    one_size(
        ScalarType::I64,
        #[verifier::truncate]
        (size as i64),
    )
}

/// What is said of a bound of a range that is not a single number.
pub open spec fn not_scalar(which: Seq<char>, count: nat) -> Seq<char> {
    "the "@ + which + " input needs to be a scalar, has "@ + decimal(count as int) + " elements"@
}

/// `Range`, from its bounds: the number of whole steps from the start to the end.
pub open spec fn range_of(
    node: NodeView,
    start: Seq<i64>,
    end: Seq<i64>,
    step: Seq<i64>,
) -> Outcome {
    if start.len() != 1 {
        Some(Err(invalid(node, not_scalar("start"@, start.len()))))
    } else if end.len() != 1 {
        Some(Err(invalid(node, not_scalar("end"@, end.len()))))
    } else if step.len() != 1 {
        Some(Err(invalid(node, not_scalar("step"@, step.len()))))
    } else if !in_i64(end[0] - start[0]) || !divides(end[0] - start[0], step[0] as int) {
        None
    } else {
        single(ScalarType::I64, seq![quotient(end[0] - start[0], step[0] as int) as i64])
    }
}

/// `Range`: its inputs are constants, each a single 64-bit integer.
pub open spec fn range(node: NodeView, table: Map<Seq<char>, TensorView>) -> Outcome {
    if node.input.len() < 1 {
        None
    } else {
        match static_ints(table, node.input[0]) {
            Err(error) => Some(Err(error)),
            Ok(start) => if node.input.len() < 2 {
                None
            } else {
                match static_ints(table, node.input[1]) {
                    Err(error) => Some(Err(error)),
                    Ok(end) => if node.input.len() < 3 {
                        None
                    } else {
                        match static_ints(table, node.input[2]) {
                            Err(error) => Some(Err(error)),
                            Ok(step) => range_of(node, start, end, step),
                        }
                    },
                }
            },
        }
    }
}

fn scalar_needed(node: &NodeProto, which: &str, count: usize) -> (error: ShapeInferenceError)
    ensures
        error@ == invalid(node@, not_scalar(which@, count as nat)),
{
    let why = String::from_str("the ").concat(which).concat(
        " input needs to be a scalar, has ",
    ).concat(unsigned_text(count as u64).as_str()).concat(" elements");
    invalid_node(node, why)
}

/// The rule for `Range`.
pub fn infer_range(node: &NodeProto, initializers: &StringHashMap<&TensorProto>) -> (result: Option<
    Result<Vec<Shape>, ShapeInferenceError>,
>)
    ensures
        outcome(result) == range(node@, constants(initializers@)),
{
    if node.input.len() < 1 {
        return None;
    }
    let start: &[i64] = match static_initializer_value_i64(initializers, node.input[0].as_str()) {
        Ok(start) => start,
        Err(error) => {
            return Some(Err(error));
        },
    };
    if node.input.len() < 2 {
        return None;
    }
    let end: &[i64] = match static_initializer_value_i64(initializers, node.input[1].as_str()) {
        Ok(end) => end,
        Err(error) => {
            return Some(Err(error));
        },
    };
    if node.input.len() < 3 {
        return None;
    }
    let step: &[i64] = match static_initializer_value_i64(initializers, node.input[2].as_str()) {
        Ok(step) => step,
        Err(error) => {
            return Some(Err(error));
        },
    };
    if start.len() != 1 {
        return Some(Err(scalar_needed(node, "start", start.len())));
    }
    if end.len() != 1 {
        return Some(Err(scalar_needed(node, "end", end.len())));
    }
    if step.len() != 1 {
        return Some(Err(scalar_needed(node, "step", step.len())));
    }
    match end[0].checked_sub(start[0]) {
        Some(extent) => match checked_quotient(extent, step[0]) {
            Some(count) => one_size(ScalarType::I64, count),
            None => None,
        },
        None => None,
    }
}

/// `Constant`: the shape of the value that one of the attributes holds.
pub open spec fn constant(node: NodeView) -> Outcome {
    if node.find("value_floats"@) is Some {
        single(
            ScalarType::F32,
            seq![node.find("value_floats"@).unwrap().floats.len() as i64],
        )
    } else if node.find("value_ints"@) is Some {
        single(ScalarType::I64, seq![node.find("value_ints"@).unwrap().ints.len() as i64])
    } else if node.find("value_float"@) is Some {
        single(ScalarType::F32, seq![1i64])
    } else if node.find("value_int"@) is Some {
        single(ScalarType::I64, seq![1i64])
    } else if node.find("value"@) is Some {
        let tensor = node.find("value"@).unwrap().t;
        match scalar_type(tensor.data_type) {
            Ok(data_type) => single(data_type, tensor.dims),
            Err(_) => Some(Err(invalid(node, "invalid tensor data type"@))),
        }
    } else {
        Some(Err(ErrorView::Unsupported("Constant"@)))
    }
}

/// The rule for `Constant`.
pub fn infer_constant(node: &NodeProto) -> (result: Option<
    Result<Vec<Shape>, ShapeInferenceError>,
>)
    ensures
        outcome(result) == constant(node@),
{
    if let Some(attribute) = node.find_attribute("value_floats") {
        one_size(
            ScalarType::F32,
            #[verifier::truncate]
            (attribute.floats.len() as i64),
        )
    } else if let Some(attribute) = node.find_attribute("value_ints") {
        one_size(
            ScalarType::I64,
            #[verifier::truncate]
            (attribute.ints.len() as i64),
        )
    } else if node.has_attribute("value_float") {
        one_size(ScalarType::F32, 1)
    } else if node.has_attribute("value_int") {
        one_size(ScalarType::I64, 1)
    } else if let Some(attribute) = node.find_attribute("value") {
        match ScalarType::from_i32(attribute.t.data_type) {
            Ok(data_type) => one_shape(data_type, attribute.t.dims.as_slice()),
            Err(_) => Some(Err(invalid_node(node, "invalid tensor data type".to_owned()))),
        }
    } else {
        Some(Err(ShapeInferenceError::Unsupported("Constant".to_owned())))
    }
}

} // verus!
