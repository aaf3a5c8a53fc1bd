//! The shapes of a node's outputs, from the shapes of its inputs.
use vstd::hash_map::StringHashMap;
use vstd::prelude::*;
use vstd::string::StringExecFns;
use crate::error::{ErrorView, ShapeInferenceError};
use crate::onnx::{views, NodeProto, NodeView, TensorProto, TensorView};
use crate::shape::{Shape, ShapeView};
use crate::text::{decimal, same_text, unsigned_text};
use common::{constants, invalid, invalid_node, outcome, Outcome};
use elementwise::{
    arithmetic, cast, copied_shapes, copies, infer_arithmetic, infer_cast,
};
use extent::{constant, infer_constant, infer_range, infer_shape, range, shape_op};
use join::{concatenate, gather, infer_concat, infer_gather};
use reduce::{infer_reduce_mean, reduce_mean};
use reshape::{
    infer_reshape, infer_squeeze, infer_unsqueeze, reshape, squeeze, unsqueeze,
};
use slice::{infer_slice, slice};
use window::{infer_window, window};

pub mod common;
pub mod elementwise;
pub mod extent;
pub mod join;
pub mod laws;
pub mod reduce;
pub mod reshape;
pub mod slice;
pub mod window;

verus! {

/// The operators that shape inference tells apart.
#[derive(Clone, Copy, Debug, PartialEq, Eq, Structural)]
pub enum Operator {
    /// `Identity`, `Sqrt`, `Relu`.
    Unary,
    /// `Add`, `Sub`, `Mul`, `Div`, `Pow`.
    Arithmetic,
    Cast,
    Concat,
    Constant,
    Conv,
    Dropout,
    Gather,
    /// `MaxPool`, `AveragePool`.
    Pool,
    Range,
    ReduceMean,
    Reshape,
    Shape,
    Slice,
    Squeeze,
    Unsqueeze,
    /// Any other.
    Unknown,
}

/// The operator of the given name.
pub open spec fn operator(name: Seq<char>) -> Operator {
    if name == "Identity"@ || name == "Sqrt"@ || name == "Relu"@ {
        Operator::Unary
    } else if name == "Sub"@ || name == "Pow"@ || name == "Add"@ || name == "Div"@ || name
        == "Mul"@ {
        Operator::Arithmetic
    } else if name == "Cast"@ {
        Operator::Cast
    } else if name == "Concat"@ {
        Operator::Concat
    } else if name == "Constant"@ {
        Operator::Constant
    } else if name == "Conv"@ {
        Operator::Conv
    } else if name == "Dropout"@ {
        Operator::Dropout
    } else if name == "Gather"@ {
        Operator::Gather
    } else if name == "MaxPool"@ || name == "AveragePool"@ {
        Operator::Pool
    } else if name == "Range"@ {
        Operator::Range
    } else if name == "ReduceMean"@ {
        Operator::ReduceMean
    } else if name == "Reshape"@ {
        Operator::Reshape
    } else if name == "Shape"@ {
        Operator::Shape
    } else if name == "Slice"@ {
        Operator::Slice
    } else if name == "Squeeze"@ {
        Operator::Squeeze
    } else if name == "Unsqueeze"@ {
        Operator::Unsqueeze
    } else {
        Operator::Unknown
    }
}

impl Operator {
    /// The operator of the given name.
    pub fn named(name: &str) -> (found: Operator)
        ensures
            found == operator(name@),
    {
        if same_text(name, "Identity") || same_text(name, "Sqrt") || same_text(name, "Relu") {
            Operator::Unary
        } else if same_text(name, "Sub") || same_text(name, "Pow") || same_text(name, "Add")
            || same_text(name, "Div") || same_text(name, "Mul") {
            Operator::Arithmetic
        } else if same_text(name, "Cast") {
            Operator::Cast
        } else if same_text(name, "Concat") {
            Operator::Concat
        } else if same_text(name, "Constant") {
            Operator::Constant
        } else if same_text(name, "Conv") {
            Operator::Conv
        } else if same_text(name, "Dropout") {
            Operator::Dropout
        } else if same_text(name, "Gather") {
            Operator::Gather
        } else if same_text(name, "MaxPool") || same_text(name, "AveragePool") {
            Operator::Pool
        } else if same_text(name, "Range") {
            Operator::Range
        } else if same_text(name, "ReduceMean") {
            Operator::ReduceMean
        } else if same_text(name, "Reshape") {
            Operator::Reshape
        } else if same_text(name, "Shape") {
            Operator::Shape
        } else if same_text(name, "Slice") {
            Operator::Slice
        } else if same_text(name, "Squeeze") {
            Operator::Squeeze
        } else if same_text(name, "Unsqueeze") {
            Operator::Unsqueeze
        } else {
            Operator::Unknown
        }
    }

    /// Whether the operator takes the given number of inputs and gives the given number of outputs.
    pub open spec fn takes(self, inputs: nat, outputs: nat) -> bool {
        match self {
            Operator::Unary | Operator::Cast | Operator::Shape | Operator::ReduceMean => inputs == 1
                && outputs == 1,
            Operator::Arithmetic | Operator::Gather | Operator::Reshape => inputs == 2 && outputs
                == 1,
            Operator::Concat => inputs >= 1 && outputs == 1,
            Operator::Constant => inputs == 0 && outputs == 1,
            Operator::Conv => 2 <= inputs <= 3 && outputs == 1,
            Operator::Dropout => 1 <= inputs <= 3 && 1 <= outputs <= 2,
            Operator::Pool => inputs == 1 && 1 <= outputs <= 2,
            Operator::Range => inputs == 3 && outputs == 1,
            Operator::Slice => 3 <= inputs <= 5 && outputs == 1,
            Operator::Squeeze | Operator::Unsqueeze => 1 <= inputs <= 2 && outputs == 1,
            Operator::Unknown => false,
        }
    }

    fn accepts(&self, inputs: usize, outputs: usize) -> (accepts: bool)
        ensures
            accepts == self.takes(inputs as nat, outputs as nat),
    {
        match self {
            Operator::Unary | Operator::Cast | Operator::Shape | Operator::ReduceMean => inputs == 1
                && outputs == 1,
            Operator::Arithmetic | Operator::Gather | Operator::Reshape => inputs == 2 && outputs
                == 1,
            Operator::Concat => inputs >= 1 && outputs == 1,
            Operator::Constant => inputs == 0 && outputs == 1,
            Operator::Conv => 2 <= inputs && inputs <= 3 && outputs == 1,
            Operator::Dropout => 1 <= inputs && inputs <= 3 && 1 <= outputs && outputs <= 2,
            Operator::Pool => inputs == 1 && 1 <= outputs && outputs <= 2,
            Operator::Range => inputs == 3 && outputs == 1,
            Operator::Slice => 3 <= inputs && inputs <= 5 && outputs == 1,
            Operator::Squeeze | Operator::Unsqueeze => 1 <= inputs && inputs <= 2 && outputs == 1,
            Operator::Unknown => false,
        }
    }
}

/// What is said of a node whose operator does not take its inputs or give its outputs.
pub open spec fn wrong_counts(inputs: nat, outputs: nat) -> Seq<char> {
    "invalid number of inputs ("@ + decimal(inputs as int) + ") or outputs ("@ + decimal(
        outputs as int,
    ) + ")"@
}

/// The shapes of the outputs of a node whose inputs have the given shapes. `table` holds the
/// constants of the graph, by name.
pub open spec fn forward(
    node: NodeView,
    shapes: Seq<ShapeView>,
    table: Map<Seq<char>, TensorView>,
) -> Outcome {
    let op = operator(node.op_type);
    let inputs = shapes.len();
    let outputs = node.output.len();
    if op.takes(inputs, outputs) {
        match op {
            Operator::Unary | Operator::Dropout => copies(shapes[0], outputs),
            Operator::Arithmetic => arithmetic(node, shapes[0], shapes[1]),
            Operator::Cast => cast(node, shapes[0]),
            Operator::Concat => concatenate(node, shapes),
            Operator::Constant => constant(node),
            Operator::Conv => window(node, shapes, false, outputs),
            Operator::Gather => gather(node, shapes[0], shapes[1]),
            Operator::Pool => window(node, shapes, true, outputs),
            Operator::Range => range(node, table),
            Operator::ReduceMean => reduce_mean(node, shapes[0]),
            Operator::Reshape => reshape(node, shapes[0], table),
            Operator::Shape => shape_op(node, shapes[0]),
            Operator::Slice => slice(node, shapes[0], inputs, table),
            Operator::Squeeze => squeeze(node, shapes[0], inputs, table),
            Operator::Unsqueeze => unsqueeze(node, shapes[0], inputs, table),
            Operator::Unknown => None,
        }
    } else if op == Operator::Unknown || op == Operator::Dropout {
        Some(Err(ErrorView::Unsupported(node.op_type)))
    } else {
        Some(Err(invalid(node, wrong_counts(node.input.len(), outputs))))
    }
}

/// The shapes of the outputs of a node whose inputs have the given shapes; `None` where nothing can
/// be said of it.
pub fn checked_infer_forward(
    node: &NodeProto,
    input_shapes: &[&Shape],
    initializers: &StringHashMap<&TensorProto>,
) -> (result: Option<Result<Vec<Shape>, ShapeInferenceError>>)
    ensures
        outcome(result) == forward(node@, views(input_shapes@), constants(initializers@)),
{
    let op = Operator::named(node.op_type.as_str());
    let inputs: usize = input_shapes.len();
    let outputs: usize = node.output.len();
    if !op.accepts(inputs, outputs) {
        if op == Operator::Unknown || op == Operator::Dropout {
            return Some(Err(ShapeInferenceError::Unsupported(node.op_type.clone())));
        }
        let why = String::from_str("invalid number of inputs (").concat(
            unsigned_text(node.input.len() as u64).as_str(),
        ).concat(") or outputs (").concat(unsigned_text(outputs as u64).as_str()).concat(")");
        return Some(Err(invalid_node(node, why)));
    }
    match op {
        Operator::Unary | Operator::Dropout => Some(Ok(copied_shapes(input_shapes[0], outputs))),
        Operator::Arithmetic => infer_arithmetic(node, input_shapes[0], input_shapes[1]),
        Operator::Cast => infer_cast(node, input_shapes[0]),
        Operator::Concat => infer_concat(node, input_shapes),
        Operator::Constant => infer_constant(node),
        Operator::Conv => infer_window(node, input_shapes, false, outputs),
        Operator::Gather => infer_gather(node, input_shapes[0], input_shapes[1]),
        Operator::Pool => infer_window(node, input_shapes, true, outputs),
        Operator::Range => infer_range(node, initializers),
        Operator::ReduceMean => infer_reduce_mean(node, input_shapes[0]),
        Operator::Reshape => infer_reshape(node, input_shapes[0], initializers),
        Operator::Shape => infer_shape(node, input_shapes[0]),
        Operator::Slice => infer_slice(node, input_shapes[0], inputs, initializers),
        Operator::Squeeze => infer_squeeze(node, input_shapes[0], inputs, initializers),
        Operator::Unsqueeze => infer_unsqueeze(node, input_shapes[0], inputs, initializers),
        Operator::Unknown => None,
    }
}

/// The shapes of the outputs of a node whose inputs have the given shapes.
pub fn infer_forward(
    node: &NodeProto,
    input_shapes: &[&Shape],
    initializers: &StringHashMap<&TensorProto>,
) -> (result: Result<Vec<Shape>, ShapeInferenceError>)
    requires
        forward(node@, views(input_shapes@), constants(initializers@)) is Some,
    ensures
        outcome(Some(result)) == forward(node@, views(input_shapes@), constants(initializers@)),
{
    checked_infer_forward(node, input_shapes, initializers).unwrap()
}

/// Inference that succeeds gives a shape to each output of the node, and no more.
pub proof fn law_each_output_gets_a_shape(
    node: NodeView,
    shapes: Seq<ShapeView>,
    table: Map<Seq<char>, TensorView>,
)
    ensures
        forward(node, shapes, table) matches Some(Ok(out)) ==> out.len() == node.output.len(),
{
}

/// Constants that come in under new names do not change what was inferred without them.
pub proof fn law_more_constants_change_nothing(
    node: NodeView,
    shapes: Seq<ShapeView>,
    few: Map<Seq<char>, TensorView>,
    many: Map<Seq<char>, TensorView>,
)
    requires
        forall|name: Seq<char>| #[trigger]
            few.contains_key(name) ==> many.contains_key(name) && many[name] == few[name],
        forward(node, shapes, few) matches Some(Ok(_)),
    ensures
        forward(node, shapes, many) == forward(node, shapes, few),
{
}

} // verus!
