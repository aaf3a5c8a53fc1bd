//! The operators by their names.
use vstd::prelude::*;
use crate::error::ErrorView;
use crate::forward::{forward, operator, Operator};
use crate::onnx::{NodeView, TensorView};
use crate::shape::ShapeView;
use crate::text::{decimal, outline};

verus! {

/// Each name has its own outline, by which it differs from the others.
proof fn lemma_outlines()
    ensures
        outline("Identity"@) == (8nat, 'I', 'd', 't'),
        outline("Sqrt"@) == (4nat, 'S', 'q', 'r'),
        outline("Relu"@) == (4nat, 'R', 'e', 'l'),
        outline("Sub"@) == (3nat, 'S', 'u', 'u'),
        outline("Pow"@) == (3nat, 'P', 'o', 'o'),
        outline("Add"@) == (3nat, 'A', 'd', 'd'),
        outline("Div"@) == (3nat, 'D', 'i', 'i'),
        outline("Mul"@) == (3nat, 'M', 'u', 'u'),
        outline("Cast"@) == (4nat, 'C', 'a', 's'),
        outline("Concat"@) == (6nat, 'C', 'o', 'a'),
        outline("Constant"@) == (8nat, 'C', 'o', 'n'),
        outline("Conv"@) == (4nat, 'C', 'o', 'n'),
        outline("Dropout"@) == (7nat, 'D', 'r', 'u'),
        outline("Gather"@) == (6nat, 'G', 'a', 'e'),
        outline("MaxPool"@) == (7nat, 'M', 'a', 'o'),
        outline("AveragePool"@) == (11nat, 'A', 'v', 'o'),
        outline("Range"@) == (5nat, 'R', 'a', 'g'),
        outline("ReduceMean"@) == (10nat, 'R', 'e', 'a'),
        outline("Reshape"@) == (7nat, 'R', 'e', 'p'),
        outline("Shape"@) == (5nat, 'S', 'h', 'p'),
        outline("Slice"@) == (5nat, 'S', 'l', 'c'),
        outline("Squeeze"@) == (7nat, 'S', 'q', 'z'),
        outline("Unsqueeze"@) == (9nat, 'U', 'n', 'z'),
{
    assert(outline("Identity"@) == (8nat, 'I', 'd', 't')) by {
        reveal_strlit("Identity");
    }
    assert(outline("Sqrt"@) == (4nat, 'S', 'q', 'r')) by {
        reveal_strlit("Sqrt");
    }
    assert(outline("Relu"@) == (4nat, 'R', 'e', 'l')) by {
        reveal_strlit("Relu");
    }
    assert(outline("Sub"@) == (3nat, 'S', 'u', 'u')) by {
        reveal_strlit("Sub");
    }
    assert(outline("Pow"@) == (3nat, 'P', 'o', 'o')) by {
        reveal_strlit("Pow");
    }
    assert(outline("Add"@) == (3nat, 'A', 'd', 'd')) by {
        reveal_strlit("Add");
    }
    assert(outline("Div"@) == (3nat, 'D', 'i', 'i')) by {
        reveal_strlit("Div");
    }
    assert(outline("Mul"@) == (3nat, 'M', 'u', 'u')) by {
        reveal_strlit("Mul");
    }
    assert(outline("Cast"@) == (4nat, 'C', 'a', 's')) by {
        reveal_strlit("Cast");
    }
    assert(outline("Concat"@) == (6nat, 'C', 'o', 'a')) by {
        reveal_strlit("Concat");
    }
    assert(outline("Constant"@) == (8nat, 'C', 'o', 'n')) by {
        reveal_strlit("Constant");
    }
    assert(outline("Conv"@) == (4nat, 'C', 'o', 'n')) by {
        reveal_strlit("Conv");
    }
    assert(outline("Dropout"@) == (7nat, 'D', 'r', 'u')) by {
        reveal_strlit("Dropout");
    }
    assert(outline("Gather"@) == (6nat, 'G', 'a', 'e')) by {
        reveal_strlit("Gather");
    }
    assert(outline("MaxPool"@) == (7nat, 'M', 'a', 'o')) by {
        reveal_strlit("MaxPool");
    }
    assert(outline("AveragePool"@) == (11nat, 'A', 'v', 'o')) by {
        reveal_strlit("AveragePool");
    }
    assert(outline("Range"@) == (5nat, 'R', 'a', 'g')) by {
        reveal_strlit("Range");
    }
    assert(outline("ReduceMean"@) == (10nat, 'R', 'e', 'a')) by {
        reveal_strlit("ReduceMean");
    }
    assert(outline("Reshape"@) == (7nat, 'R', 'e', 'p')) by {
        reveal_strlit("Reshape");
    }
    assert(outline("Shape"@) == (5nat, 'S', 'h', 'p')) by {
        reveal_strlit("Shape");
    }
    assert(outline("Slice"@) == (5nat, 'S', 'l', 'c')) by {
        reveal_strlit("Slice");
    }
    assert(outline("Squeeze"@) == (7nat, 'S', 'q', 'z')) by {
        reveal_strlit("Squeeze");
    }
    assert(outline("Unsqueeze"@) == (9nat, 'U', 'n', 'z')) by {
        reveal_strlit("Unsqueeze");
    }
}

pub(crate) proof fn lemma_identity()
    ensures
        operator("Identity"@) == Operator::Unary,
{
}

pub(crate) proof fn lemma_sqrt()
    ensures
        operator("Sqrt"@) == Operator::Unary,
{
}

pub(crate) proof fn lemma_relu()
    ensures
        operator("Relu"@) == Operator::Unary,
{
}

pub(crate) proof fn lemma_sub()
    ensures
        operator("Sub"@) == Operator::Arithmetic,
{
    lemma_outlines();
}

pub(crate) proof fn lemma_pow()
    ensures
        operator("Pow"@) == Operator::Arithmetic,
{
    lemma_outlines();
}

pub(crate) proof fn lemma_add()
    ensures
        operator("Add"@) == Operator::Arithmetic,
{
    lemma_outlines();
}

pub(crate) proof fn lemma_div()
    ensures
        operator("Div"@) == Operator::Arithmetic,
{
    lemma_outlines();
}

pub(crate) proof fn lemma_mul()
    ensures
        operator("Mul"@) == Operator::Arithmetic,
{
    lemma_outlines();
}

pub(crate) proof fn lemma_cast()
    ensures
        operator("Cast"@) == Operator::Cast,
{
    lemma_outlines();
}

pub(crate) proof fn lemma_concat()
    ensures
        operator("Concat"@) == Operator::Concat,
{
    lemma_outlines();
}

pub(crate) proof fn lemma_constant()
    ensures
        operator("Constant"@) == Operator::Constant,
{
    lemma_outlines();
}

pub(crate) proof fn lemma_conv()
    ensures
        operator("Conv"@) == Operator::Conv,
{
    lemma_outlines();
}

pub(crate) proof fn lemma_dropout()
    ensures
        operator("Dropout"@) == Operator::Dropout,
{
    lemma_outlines();
}

pub(crate) proof fn lemma_gather()
    ensures
        operator("Gather"@) == Operator::Gather,
{
    lemma_outlines();
}

pub(crate) proof fn lemma_maxpool()
    ensures
        operator("MaxPool"@) == Operator::Pool,
{
    lemma_outlines();
}

pub(crate) proof fn lemma_averagepool()
    ensures
        operator("AveragePool"@) == Operator::Pool,
{
    lemma_outlines();
}

pub(crate) proof fn lemma_range()
    ensures
        operator("Range"@) == Operator::Range,
{
    lemma_outlines();
}

pub(crate) proof fn lemma_reducemean()
    ensures
        operator("ReduceMean"@) == Operator::ReduceMean,
{
    lemma_outlines();
}

pub(crate) proof fn lemma_reshape()
    ensures
        operator("Reshape"@) == Operator::Reshape,
{
    lemma_outlines();
}

pub(crate) proof fn lemma_shape()
    ensures
        operator("Shape"@) == Operator::Shape,
{
    lemma_outlines();
}

pub(crate) proof fn lemma_slice()
    ensures
        operator("Slice"@) == Operator::Slice,
{
    lemma_outlines();
}

pub(crate) proof fn lemma_squeeze()
    ensures
        operator("Squeeze"@) == Operator::Squeeze,
{
    lemma_outlines();
}

pub(crate) proof fn lemma_unsqueeze()
    ensures
        operator("Unsqueeze"@) == Operator::Unsqueeze,
{
    lemma_outlines();
}

/// An operator of any other name is not supported, and is said so by its name.
pub proof fn law_other_operators_are_not_supported(
    node: NodeView,
    shapes: Seq<ShapeView>,
    table: Map<Seq<char>, TensorView>,
)
    requires
        node.op_type != "Identity"@,
        node.op_type != "Sqrt"@,
        node.op_type != "Relu"@,
        node.op_type != "Sub"@,
        node.op_type != "Pow"@,
        node.op_type != "Add"@,
        node.op_type != "Div"@,
        node.op_type != "Mul"@,
        node.op_type != "Cast"@,
        node.op_type != "Concat"@,
        node.op_type != "Constant"@,
        node.op_type != "Conv"@,
        node.op_type != "Dropout"@,
        node.op_type != "Gather"@,
        node.op_type != "MaxPool"@,
        node.op_type != "AveragePool"@,
        node.op_type != "Range"@,
        node.op_type != "ReduceMean"@,
        node.op_type != "Reshape"@,
        node.op_type != "Shape"@,
        node.op_type != "Slice"@,
        node.op_type != "Squeeze"@,
        node.op_type != "Unsqueeze"@,
    ensures
        forward(node, shapes, table) == Some(
            Err::<Seq<ShapeView>, ErrorView>(ErrorView::Unsupported(node.op_type)),
        ),
{
}

/// A node with another number of inputs or outputs than its operator takes is not valid.
pub proof fn law_numbers_of_inputs_and_outputs_are_checked(
    node: NodeView,
    shapes: Seq<ShapeView>,
    table: Map<Seq<char>, TensorView>,
)
    requires
        node.op_type == "Identity"@ || node.op_type == "Sqrt"@ || node.op_type == "Relu"@ ||
            node.op_type == "Cast"@ || node.op_type == "Shape"@ || node.op_type == "ReduceMean"@
            || node.op_type == "Sub"@ || node.op_type == "Pow"@ || node.op_type == "Add"@ ||
            node.op_type == "Div"@ || node.op_type == "Mul"@ || node.op_type == "Gather"@ ||
            node.op_type == "Reshape"@ || node.op_type == "Concat"@ || node.op_type ==
            "Constant"@ || node.op_type == "Conv"@ || node.op_type == "MaxPool"@ || node.op_type
            == "AveragePool"@ || node.op_type == "Range"@ || node.op_type == "Slice"@ ||
            node.op_type == "Squeeze"@ || node.op_type == "Unsqueeze"@,
        (node.op_type == "Identity"@ || node.op_type == "Sqrt"@ || node.op_type == "Relu"@ ||
            node.op_type == "Cast"@ || node.op_type == "Shape"@ || node.op_type == "ReduceMean"@)
            ==> !(shapes.len() == 1 && node.output.len() == 1),
        (node.op_type == "Sub"@ || node.op_type == "Pow"@ || node.op_type == "Add"@ ||
            node.op_type == "Div"@ || node.op_type == "Mul"@ || node.op_type == "Gather"@ ||
            node.op_type == "Reshape"@) ==> !(shapes.len() == 2 && node.output.len() == 1),
        node.op_type == "Concat"@ ==> !(shapes.len() >= 1 && node.output.len() == 1),
        node.op_type == "Constant"@ ==> !(shapes.len() == 0 && node.output.len() == 1),
        node.op_type == "Conv"@ ==> !(2 <= shapes.len() <= 3 && node.output.len() == 1),
        (node.op_type == "MaxPool"@ || node.op_type == "AveragePool"@) ==> !(
            shapes.len() == 1 && 1 <= node.output.len() <= 2),
        node.op_type == "Range"@ ==> !(shapes.len() == 3 && node.output.len() == 1),
        node.op_type == "Slice"@ ==> !(3 <= shapes.len() <= 5 && node.output.len() == 1),
        (node.op_type == "Squeeze"@ || node.op_type == "Unsqueeze"@) ==> !(
            1 <= shapes.len() <= 2 && node.output.len() == 1),
    ensures
        forward(node, shapes, table) == Some(
            Err::<Seq<ShapeView>, ErrorView>(
                ErrorView::InvalidNode(
                    node.name,
                    "invalid number of inputs ("@ + decimal(node.input.len() as int)
                        + ") or outputs ("@ + decimal(node.output.len() as int) + ")"@,
                ),
            ),
        ),
{
    lemma_identity();
    lemma_sqrt();
    lemma_relu();
    lemma_cast();
    lemma_shape();
    lemma_reducemean();
    lemma_sub();
    lemma_pow();
    lemma_add();
    lemma_div();
    lemma_mul();
    lemma_gather();
    lemma_reshape();
    lemma_concat();
    lemma_constant();
    lemma_conv();
    lemma_maxpool();
    lemma_averagepool();
    lemma_range();
    lemma_slice();
    lemma_squeeze();
    lemma_unsqueeze();
}

/// A `Dropout` with another number of inputs or outputs than it takes is not supported.
pub proof fn law_numbers_of_a_dropout_are_checked(
    node: NodeView,
    shapes: Seq<ShapeView>,
    table: Map<Seq<char>, TensorView>,
)
    requires
        node.op_type == "Dropout"@,
        !(1 <= shapes.len() <= 3 && 1 <= node.output.len() <= 2),
    ensures
        forward(node, shapes, table) == Some(
            Err::<Seq<ShapeView>, ErrorView>(ErrorView::Unsupported("Dropout"@)),
        ),
{
    lemma_dropout();
}

} // verus!
