//! What the rules for the single operators share.
use vstd::hash_map::StringHashMap;
use vstd::prelude::*;
use vstd::string::StringExecFns;
use crate::error::{AttributeNotFoundError, AttributeNotFoundView, ErrorView, ShapeInferenceError};
use crate::onnx::{views, NodeProto, NodeView, TensorProto, TensorView};
use crate::shape::{shape_of, ScalarType, Shape, ShapeView};
use crate::text::{decimal, signed_text};

verus! {

/// What a rule says of a node: the shapes of its outputs, or an error. `None` stands for a node of
/// which nothing can be said, because it refers to an input, a dimension or a list element that is
/// not there, or because a number in the calculation is no `i64`.
pub type Outcome = Option<Result<Seq<ShapeView>, ErrorView>>;

/// The view of what a rule returns.
pub open spec fn outcome(result: Option<Result<Vec<Shape>, ShapeInferenceError>>) -> Outcome {
    match result {
        Some(Ok(shapes)) => Some(Ok(views(shapes@))),
        Some(Err(error)) => Some(Err(error@)),
        None => None,
    }
}

/// The view of a table of constants.
pub open spec fn constants(table: Map<Seq<char>, &TensorProto>) -> Map<Seq<char>, TensorView> {
    table.map_values(|tensor: &TensorProto| tensor@)
}

/// The outcome with a single shape.
pub open spec fn single(data_type: ScalarType, dims: Seq<i64>) -> Outcome {
    Some(Ok(seq![shape_of(data_type, dims)]))
}

/// The error about a node that is not valid, for the given reason.
pub open spec fn invalid(node: NodeView, why: Seq<char>) -> ErrorView {
    ErrorView::InvalidNode(node.name, why)
}

/// The error about an attribute that the node lacks.
pub open spec fn missing(node: NodeView, attribute: Seq<char>) -> ErrorView {
    ErrorView::MissingAttribute(AttributeNotFoundView { attribute, node_name: node.name })
}

/// A single shape.
pub fn one_shape(data_type: ScalarType, dims: &[i64]) -> (result: Option<
    Result<Vec<Shape>, ShapeInferenceError>,
>)
    ensures
        outcome(result) == single(data_type, dims@),
{
    let mut shapes: Vec<Shape> = Vec::new();
    shapes.push(Shape::from(data_type, dims));
    assert(views(shapes@) =~= seq![shape_of(data_type, dims@)]);
    Some(Ok(shapes))
}

/// An error about the node.
pub fn invalid_node(node: &NodeProto, why: String) -> (error: ShapeInferenceError)
    ensures
        error@ == invalid(node@, why@),
{
    ShapeInferenceError::InvalidNode(node.name.clone(), why)
}

/// The error about an attribute that the node lacks.
pub fn missing_attribute(node: &NodeProto, attribute: &str) -> (error: ShapeInferenceError)
    ensures
        error@ == missing(node@, attribute@),
{
    ShapeInferenceError::MissingAttribute(
        AttributeNotFoundError { attribute: attribute.to_owned(), node_name: node.name.clone() },
    )
}

/// The elements of the named constant, which has to hold 64-bit integers.
pub open spec fn static_ints(table: Map<Seq<char>, TensorView>, name: Seq<char>) -> Result<
    Seq<i64>,
    ErrorView,
> {
    if table.contains_key(name) {
        let tensor = table[name];
        if tensor.data_type != ScalarType::I64.code() {
            Err(
                ErrorView::Unsupported(
                    "initializer "@ + name + " has data type "@ + decimal(tensor.data_type as int)
                        + " and not int64, which is currently not supported"@,
                ),
            )
        } else {
            Ok(tensor.int64_data)
        }
    } else {
        Err(
            ErrorView::Unsupported(
                "input "@ + name + " is dynamic (only static initializers are supported)"@,
            ),
        )
    }
}

/// Retrieve the elements of the constant with the given name, as 64-bit integers.
pub fn static_initializer_value_i64<'a>(
    initializers: &StringHashMap<&'a TensorProto>,
    name: &str,
) -> (values: Result<&'a [i64], ShapeInferenceError>)
    ensures
        match values {
            Ok(values) => static_ints(constants(initializers@), name@) == Ok::<Seq<i64>, ErrorView>(
                values@,
            ),
            Err(error) => static_ints(constants(initializers@), name@) == Err::<
                Seq<i64>,
                ErrorView,
            >(error@),
        },
{
    match initializers.get(name) {
        Some(tensor) => {
            let tensor: &'a TensorProto = *tensor;
            if tensor.data_type != ScalarType::I64.to_datatype() {
                let why = String::from_str("initializer ").concat(name).concat(
                    " has data type ",
                ).concat(signed_text(tensor.data_type as i64).as_str()).concat(
                    " and not int64, which is currently not supported",
                );
                Err(ShapeInferenceError::Unsupported(why))
            } else {
                Ok(tensor.int64_data.as_slice())
            }
        },
        None => {
            let why = String::from_str("input ").concat(name).concat(
                " is dynamic (only static initializers are supported)",
            );
            Err(ShapeInferenceError::Unsupported(why))
        },
    }
}

/// What a rule returns shows each of the shapes, or the error.
pub proof fn law_outcome_shows_all(shapes: Vec<Shape>, error: ShapeInferenceError)
    ensures
        outcome(Some(Ok(shapes))) matches Some(Ok(out)) && out.len() == shapes@.len() && forall|
            i: int,
        |
            0 <= i < shapes@.len() ==> out[i] == (#[trigger] shapes@[i])@,
        outcome(Some(Err(error))) == Some(Err::<Seq<ShapeView>, ErrorView>(error@)),
        outcome(None) is None,
{
}

/// A table of constants shows each of them under its name.
pub proof fn law_constants_show_all(table: Map<Seq<char>, &TensorProto>, name: Seq<char>)
    ensures
        constants(table).contains_key(name) == table.contains_key(name),
        table.contains_key(name) ==> constants(table)[name] == table[name]@,
{
}

} // verus!
