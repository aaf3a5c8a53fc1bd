//! Operators whose output has the shape of an input, or that to which its inputs are broadcast.
use vstd::prelude::*;
use vstd::string::StringExecFns;
use crate::error::ShapeInferenceError;
use crate::forward::common::{
    invalid, invalid_node, missing, missing_attribute, outcome, Outcome,
};
use crate::onnx::{views, NodeProto, NodeView};
use crate::shape::{broadcast, scalar_type, ScalarType, Shape, ShapeView};
use crate::text::{decimal, signed_text};

verus! {

/// `Identity`, `Sqrt`, `Relu`, `Dropout`: every output has the shape of the first input.
pub open spec fn copies(shape: ShapeView, count: nat) -> Outcome {
    Some(Ok(Seq::new(count, |i: int| shape)))
}

/// The given number of copies of a shape.
pub fn copied_shapes(shape: &Shape, count: usize) -> (shapes: Vec<Shape>)
    ensures
        views(shapes@) == Seq::new(count as nat, |i: int| shape@),
{
    let mut shapes: Vec<Shape> = Vec::new();
    let mut i: usize = 0;
    while i < count
        invariant
            i <= count,
            shapes@.len() == i,
            forall|j: int| 0 <= j < i ==> (#[trigger] shapes@[j])@ == shape@,
        decreases count - i,
    {
        shapes.push(shape.clone());
        i = i + 1;
    }
    assert(views(shapes@) =~= Seq::new(count as nat, |i: int| shape@));
    shapes
}

/// `Cast`: the sizes stay, the element type is the one that the attribute `to` names.
pub open spec fn cast(node: NodeView, shape: ShapeView) -> Outcome {
    match node.find("to"@) {
        None => Some(Err(missing(node, "to"@))),
        Some(attribute) => match scalar_type(attribute.i as i32) {
            Ok(data_type) => Some(Ok(seq![ShapeView { dims: shape.dims, data_type }])),
            Err(_) => Some(
                Err(
                    invalid(
                        node,
                        "invalid value for to attribute ("@ + decimal(attribute.i as int)
                            + ") for Cast operator"@,
                    ),
                ),
            ),
        },
    }
}

/// The rule for `Cast`.
pub fn infer_cast(node: &NodeProto, shape: &Shape) -> (result: Option<
    Result<Vec<Shape>, ShapeInferenceError>,
>)
    ensures
        outcome(result) == cast(node@, shape@),
{
    match node.find_attribute("to") {
        None => Some(Err(missing_attribute(node, "to"))),
        Some(attribute) => {
            let to: i32 =
                #[verifier::truncate]
                (attribute.i as i32);
            match ScalarType::from_i32(to) {
                Ok(data_type) => {
                    let mut shapes: Vec<Shape> = Vec::new();
                    shapes.push(Shape { dims: shape.clone().dims, data_type });
                    assert(views(shapes@) =~= seq![ShapeView { dims: shape@.dims, data_type }]);
                    Some(Ok(shapes))
                },
                Err(_) => {
                    let why = String::from_str("invalid value for to attribute (").concat(
                        signed_text(attribute.i).as_str(),
                    ).concat(") for Cast operator");
                    Some(Err(invalid_node(node, why)))
                },
            }
        },
    }
}

/// What is said of two shapes that cannot be broadcast to one.
pub open spec fn not_broadcastable(node: NodeView, left: ShapeView, right: ShapeView) -> Seq<char> {
    "two inputs (left "@ + node.input[0] + " shape: "@ + node.input[1] + ", right "@ + left.text()
        + " shape: "@ + right.text() + ") must be broadcastable"@
}

/// `Add`, `Sub`, `Mul`, `Div`, `Pow`: the shape to which the two inputs can be broadcast.
pub open spec fn arithmetic(node: NodeView, left: ShapeView, right: ShapeView) -> Outcome {
    match broadcast(left, right) {
        Some(shape) => Some(Ok(seq![shape])),
        None => if node.input.len() < 2 {
            None
        } else {
            Some(Err(invalid(node, not_broadcastable(node, left, right))))
        },
    }
}

/// The rule for `Add`, `Sub`, `Mul`, `Div` and `Pow`.
pub fn infer_arithmetic(node: &NodeProto, left: &Shape, right: &Shape) -> (result: Option<
    Result<Vec<Shape>, ShapeInferenceError>,
>)
    ensures
        outcome(result) == arithmetic(node@, left@, right@),
{
    match left.broadcast(right) {
        Some(shape) => {
            let mut shapes: Vec<Shape> = Vec::new();
            let ghost joint = shape@;
            shapes.push(shape);
            assert(views(shapes@) =~= seq![joint]);
            Some(Ok(shapes))
        },
        None => {
            if node.input.len() < 2 {
                return None;
            }
            let why = String::from_str("two inputs (left ").concat(node.input[0].as_str()).concat(
                " shape: ",
            ).concat(node.input[1].as_str()).concat(", right ").concat(
                left.text().as_str(),
            ).concat(" shape: ").concat(right.text().as_str()).concat(
                ") must be broadcastable",
            );
            Some(Err(invalid_node(node, why)))
        },
    }
}

} // verus!
