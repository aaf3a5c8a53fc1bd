//! The operators that have a shader, by their names.
use vstd::prelude::*;
use crate::compiler::{function_name, operator_symbol};
use crate::text::outline;

verus! {

/// Each name has its own outline, by which it differs from the others.
proof fn lemma_outlines()
    ensures
        outline("Abs"@) == (3nat, 'A', 'b', 'b'),
        outline("Conv"@) == (4nat, 'C', 'o', 'n'),
        outline("Gemm"@) == (4nat, 'G', 'e', 'm'),
        outline("MatMul"@) == (6nat, 'M', 'a', 'u'),
        outline("Transpose"@) == (9nat, 'T', 'r', 's'),
        outline("Acos"@) == (4nat, 'A', 'c', 'o'),
        outline("Asin"@) == (4nat, 'A', 's', 'i'),
        outline("Atan"@) == (4nat, 'A', 't', 'a'),
        outline("Ceil"@) == (4nat, 'C', 'e', 'i'),
        outline("Cos"@) == (3nat, 'C', 'o', 'o'),
        outline("Cosh"@) == (4nat, 'C', 'o', 's'),
        outline("Exp"@) == (3nat, 'E', 'x', 'x'),
        outline("Floor"@) == (5nat, 'F', 'l', 'o'),
        outline("Log"@) == (3nat, 'L', 'o', 'o'),
        outline("Round"@) == (5nat, 'R', 'o', 'n'),
        outline("Sign"@) == (4nat, 'S', 'i', 'g'),
        outline("Sin"@) == (3nat, 'S', 'i', 'i'),
        outline("Sinh"@) == (4nat, 'S', 'i', 'n'),
        outline("Sqrt"@) == (4nat, 'S', 'q', 'r'),
        outline("Tan"@) == (3nat, 'T', 'a', 'a'),
        outline("Tanh"@) == (4nat, 'T', 'a', 'n'),
        outline("Add"@) == (3nat, 'A', 'd', 'd'),
        outline("And"@) == (3nat, 'A', 'n', 'n'),
        outline("Div"@) == (3nat, 'D', 'i', 'i'),
        outline("Equal"@) == (5nat, 'E', 'q', 'a'),
        outline("Greater"@) == (7nat, 'G', 'r', 'e'),
        outline("GreaterOrEqual"@) == (14nat, 'G', 'r', 'a'),
        outline("Less"@) == (4nat, 'L', 'e', 's'),
        outline("LessOrEqual"@) == (11nat, 'L', 'e', 'a'),
        outline("Mod"@) == (3nat, 'M', 'o', 'o'),
        outline("Mul"@) == (3nat, 'M', 'u', 'u'),
        outline("Or"@) == (2nat, 'O', 'r', 'O'),
        outline("Sub"@) == (3nat, 'S', 'u', 'u'),
        outline("Celu"@) == (4nat, 'C', 'e', 'l'),
        outline("Elu"@) == (3nat, 'E', 'l', 'l'),
        outline("Relu"@) == (4nat, 'R', 'e', 'l'),
        outline("Sigmoid"@) == (7nat, 'S', 'i', 'i'),
        outline("Softsign"@) == (8nat, 'S', 'o', 'g'),
        outline("Softplus"@) == (8nat, 'S', 'o', 'u'),
{
    assert(outline("Abs"@) == (3nat, 'A', 'b', 'b')) by {
        reveal_strlit("Abs");
    }
    assert(outline("Conv"@) == (4nat, 'C', 'o', 'n')) by {
        reveal_strlit("Conv");
    }
    assert(outline("Gemm"@) == (4nat, 'G', 'e', 'm')) by {
        reveal_strlit("Gemm");
    }
    assert(outline("MatMul"@) == (6nat, 'M', 'a', 'u')) by {
        reveal_strlit("MatMul");
    }
    assert(outline("Transpose"@) == (9nat, 'T', 'r', 's')) by {
        reveal_strlit("Transpose");
    }
    assert(outline("Acos"@) == (4nat, 'A', 'c', 'o')) by {
        reveal_strlit("Acos");
    }
    assert(outline("Asin"@) == (4nat, 'A', 's', 'i')) by {
        reveal_strlit("Asin");
    }
    assert(outline("Atan"@) == (4nat, 'A', 't', 'a')) by {
        reveal_strlit("Atan");
    }
    assert(outline("Ceil"@) == (4nat, 'C', 'e', 'i')) by {
        reveal_strlit("Ceil");
    }
    assert(outline("Cos"@) == (3nat, 'C', 'o', 'o')) by {
        reveal_strlit("Cos");
    }
    assert(outline("Cosh"@) == (4nat, 'C', 'o', 's')) by {
        reveal_strlit("Cosh");
    }
    assert(outline("Exp"@) == (3nat, 'E', 'x', 'x')) by {
        reveal_strlit("Exp");
    }
    assert(outline("Floor"@) == (5nat, 'F', 'l', 'o')) by {
        reveal_strlit("Floor");
    }
    assert(outline("Log"@) == (3nat, 'L', 'o', 'o')) by {
        reveal_strlit("Log");
    }
    assert(outline("Round"@) == (5nat, 'R', 'o', 'n')) by {
        reveal_strlit("Round");
    }
    assert(outline("Sign"@) == (4nat, 'S', 'i', 'g')) by {
        reveal_strlit("Sign");
    }
    assert(outline("Sin"@) == (3nat, 'S', 'i', 'i')) by {
        reveal_strlit("Sin");
    }
    assert(outline("Sinh"@) == (4nat, 'S', 'i', 'n')) by {
        reveal_strlit("Sinh");
    }
    assert(outline("Sqrt"@) == (4nat, 'S', 'q', 'r')) by {
        reveal_strlit("Sqrt");
    }
    assert(outline("Tan"@) == (3nat, 'T', 'a', 'a')) by {
        reveal_strlit("Tan");
    }
    assert(outline("Tanh"@) == (4nat, 'T', 'a', 'n')) by {
        reveal_strlit("Tanh");
    }
    assert(outline("Add"@) == (3nat, 'A', 'd', 'd')) by {
        reveal_strlit("Add");
    }
    assert(outline("And"@) == (3nat, 'A', 'n', 'n')) by {
        reveal_strlit("And");
    }
    assert(outline("Div"@) == (3nat, 'D', 'i', 'i')) by {
        reveal_strlit("Div");
    }
    assert(outline("Equal"@) == (5nat, 'E', 'q', 'a')) by {
        reveal_strlit("Equal");
    }
    assert(outline("Greater"@) == (7nat, 'G', 'r', 'e')) by {
        reveal_strlit("Greater");
    }
    assert(outline("GreaterOrEqual"@) == (14nat, 'G', 'r', 'a')) by {
        reveal_strlit("GreaterOrEqual");
    }
    assert(outline("Less"@) == (4nat, 'L', 'e', 's')) by {
        reveal_strlit("Less");
    }
    assert(outline("LessOrEqual"@) == (11nat, 'L', 'e', 'a')) by {
        reveal_strlit("LessOrEqual");
    }
    assert(outline("Mod"@) == (3nat, 'M', 'o', 'o')) by {
        reveal_strlit("Mod");
    }
    assert(outline("Mul"@) == (3nat, 'M', 'u', 'u')) by {
        reveal_strlit("Mul");
    }
    assert(outline("Or"@) == (2nat, 'O', 'r', 'O')) by {
        reveal_strlit("Or");
    }
    assert(outline("Sub"@) == (3nat, 'S', 'u', 'u')) by {
        reveal_strlit("Sub");
    }
    assert(outline("Celu"@) == (4nat, 'C', 'e', 'l')) by {
        reveal_strlit("Celu");
    }
    assert(outline("Elu"@) == (3nat, 'E', 'l', 'l')) by {
        reveal_strlit("Elu");
    }
    assert(outline("Relu"@) == (4nat, 'R', 'e', 'l')) by {
        reveal_strlit("Relu");
    }
    assert(outline("Sigmoid"@) == (7nat, 'S', 'i', 'i')) by {
        reveal_strlit("Sigmoid");
    }
    assert(outline("Softsign"@) == (8nat, 'S', 'o', 'g')) by {
        reveal_strlit("Softsign");
    }
    assert(outline("Softplus"@) == (8nat, 'S', 'o', 'u')) by {
        reveal_strlit("Softplus");
    }
}

pub(crate) proof fn lemma_abs()
    ensures
        function_name("Abs"@) == Some("abs"@),
        "Abs"@ != "Conv"@,
        "Abs"@ != "Gemm"@,
        "Abs"@ != "MatMul"@,
        "Abs"@ != "Transpose"@,
{
    lemma_outlines();
}

pub(crate) proof fn lemma_acos()
    ensures
        function_name("Acos"@) == Some("acos"@),
        "Acos"@ != "Conv"@,
        "Acos"@ != "Gemm"@,
        "Acos"@ != "MatMul"@,
        "Acos"@ != "Transpose"@,
{
    lemma_outlines();
}

pub(crate) proof fn lemma_asin()
    ensures
        function_name("Asin"@) == Some("asin"@),
        "Asin"@ != "Conv"@,
        "Asin"@ != "Gemm"@,
        "Asin"@ != "MatMul"@,
        "Asin"@ != "Transpose"@,
{
    lemma_outlines();
}

pub(crate) proof fn lemma_atan()
    ensures
        function_name("Atan"@) == Some("atan"@),
        "Atan"@ != "Conv"@,
        "Atan"@ != "Gemm"@,
        "Atan"@ != "MatMul"@,
        "Atan"@ != "Transpose"@,
{
    lemma_outlines();
}

pub(crate) proof fn lemma_ceil()
    ensures
        function_name("Ceil"@) == Some("ceil"@),
        "Ceil"@ != "Conv"@,
        "Ceil"@ != "Gemm"@,
        "Ceil"@ != "MatMul"@,
        "Ceil"@ != "Transpose"@,
{
    lemma_outlines();
}

pub(crate) proof fn lemma_cos()
    ensures
        function_name("Cos"@) == Some("cos"@),
        "Cos"@ != "Conv"@,
        "Cos"@ != "Gemm"@,
        "Cos"@ != "MatMul"@,
        "Cos"@ != "Transpose"@,
{
    lemma_outlines();
}

pub(crate) proof fn lemma_cosh()
    ensures
        function_name("Cosh"@) == Some("cosh"@),
        "Cosh"@ != "Conv"@,
        "Cosh"@ != "Gemm"@,
        "Cosh"@ != "MatMul"@,
        "Cosh"@ != "Transpose"@,
{
    lemma_outlines();
}

pub(crate) proof fn lemma_exp()
    ensures
        function_name("Exp"@) == Some("exp"@),
        "Exp"@ != "Conv"@,
        "Exp"@ != "Gemm"@,
        "Exp"@ != "MatMul"@,
        "Exp"@ != "Transpose"@,
{
    lemma_outlines();
}

pub(crate) proof fn lemma_floor()
    ensures
        function_name("Floor"@) == Some("floor"@),
        "Floor"@ != "Conv"@,
        "Floor"@ != "Gemm"@,
        "Floor"@ != "MatMul"@,
        "Floor"@ != "Transpose"@,
{
    lemma_outlines();
}

pub(crate) proof fn lemma_log()
    ensures
        function_name("Log"@) == Some("log"@),
        "Log"@ != "Conv"@,
        "Log"@ != "Gemm"@,
        "Log"@ != "MatMul"@,
        "Log"@ != "Transpose"@,
{
    lemma_outlines();
}

pub(crate) proof fn lemma_round()
    ensures
        function_name("Round"@) == Some("round"@),
        "Round"@ != "Conv"@,
        "Round"@ != "Gemm"@,
        "Round"@ != "MatMul"@,
        "Round"@ != "Transpose"@,
{
    lemma_outlines();
}

pub(crate) proof fn lemma_sign()
    ensures
        function_name("Sign"@) == Some("sign"@),
        "Sign"@ != "Conv"@,
        "Sign"@ != "Gemm"@,
        "Sign"@ != "MatMul"@,
        "Sign"@ != "Transpose"@,
{
    lemma_outlines();
}

pub(crate) proof fn lemma_sin()
    ensures
        function_name("Sin"@) == Some("sin"@),
        "Sin"@ != "Conv"@,
        "Sin"@ != "Gemm"@,
        "Sin"@ != "MatMul"@,
        "Sin"@ != "Transpose"@,
{
    lemma_outlines();
}

pub(crate) proof fn lemma_sinh()
    ensures
        function_name("Sinh"@) == Some("sinh"@),
        "Sinh"@ != "Conv"@,
        "Sinh"@ != "Gemm"@,
        "Sinh"@ != "MatMul"@,
        "Sinh"@ != "Transpose"@,
{
    lemma_outlines();
}

pub(crate) proof fn lemma_sqrt()
    ensures
        function_name("Sqrt"@) == Some("sqrt"@),
        "Sqrt"@ != "Conv"@,
        "Sqrt"@ != "Gemm"@,
        "Sqrt"@ != "MatMul"@,
        "Sqrt"@ != "Transpose"@,
{
    lemma_outlines();
}

pub(crate) proof fn lemma_tan()
    ensures
        function_name("Tan"@) == Some("tan"@),
        "Tan"@ != "Conv"@,
        "Tan"@ != "Gemm"@,
        "Tan"@ != "MatMul"@,
        "Tan"@ != "Transpose"@,
{
    lemma_outlines();
}

pub(crate) proof fn lemma_tanh()
    ensures
        function_name("Tanh"@) == Some("tanh"@),
        "Tanh"@ != "Conv"@,
        "Tanh"@ != "Gemm"@,
        "Tanh"@ != "MatMul"@,
        "Tanh"@ != "Transpose"@,
{
    lemma_outlines();
}

pub(crate) proof fn lemma_add()
    ensures
        function_name("Add"@) is None,
        operator_symbol("Add"@) == Some("+"@),
        "Add"@ != "Conv"@,
        "Add"@ != "Gemm"@,
        "Add"@ != "MatMul"@,
        "Add"@ != "Transpose"@,
{
    lemma_outlines();
}

pub(crate) proof fn lemma_and()
    ensures
        function_name("And"@) is None,
        operator_symbol("And"@) == Some("&"@),
        "And"@ != "Conv"@,
        "And"@ != "Gemm"@,
        "And"@ != "MatMul"@,
        "And"@ != "Transpose"@,
{
    lemma_outlines();
}

pub(crate) proof fn lemma_div()
    ensures
        function_name("Div"@) is None,
        operator_symbol("Div"@) == Some("/"@),
        "Div"@ != "Conv"@,
        "Div"@ != "Gemm"@,
        "Div"@ != "MatMul"@,
        "Div"@ != "Transpose"@,
{
    lemma_outlines();
}

pub(crate) proof fn lemma_equal()
    ensures
        function_name("Equal"@) is None,
        operator_symbol("Equal"@) == Some("=="@),
        "Equal"@ != "Conv"@,
        "Equal"@ != "Gemm"@,
        "Equal"@ != "MatMul"@,
        "Equal"@ != "Transpose"@,
{
    lemma_outlines();
}

pub(crate) proof fn lemma_greater()
    ensures
        function_name("Greater"@) is None,
        operator_symbol("Greater"@) == Some(">"@),
        "Greater"@ != "Conv"@,
        "Greater"@ != "Gemm"@,
        "Greater"@ != "MatMul"@,
        "Greater"@ != "Transpose"@,
{
    lemma_outlines();
}

pub(crate) proof fn lemma_greaterorequal()
    ensures
        function_name("GreaterOrEqual"@) is None,
        operator_symbol("GreaterOrEqual"@) == Some(">="@),
        "GreaterOrEqual"@ != "Conv"@,
        "GreaterOrEqual"@ != "Gemm"@,
        "GreaterOrEqual"@ != "MatMul"@,
        "GreaterOrEqual"@ != "Transpose"@,
{
    lemma_outlines();
}

pub(crate) proof fn lemma_less()
    ensures
        function_name("Less"@) is None,
        operator_symbol("Less"@) == Some("<"@),
        "Less"@ != "Conv"@,
        "Less"@ != "Gemm"@,
        "Less"@ != "MatMul"@,
        "Less"@ != "Transpose"@,
{
    lemma_outlines();
}

pub(crate) proof fn lemma_lessorequal()
    ensures
        function_name("LessOrEqual"@) is None,
        operator_symbol("LessOrEqual"@) == Some("<="@),
        "LessOrEqual"@ != "Conv"@,
        "LessOrEqual"@ != "Gemm"@,
        "LessOrEqual"@ != "MatMul"@,
        "LessOrEqual"@ != "Transpose"@,
{
    lemma_outlines();
}

pub(crate) proof fn lemma_mod()
    ensures
        function_name("Mod"@) is None,
        operator_symbol("Mod"@) == Some("%"@),
        "Mod"@ != "Conv"@,
        "Mod"@ != "Gemm"@,
        "Mod"@ != "MatMul"@,
        "Mod"@ != "Transpose"@,
{
    lemma_outlines();
}

pub(crate) proof fn lemma_mul()
    ensures
        function_name("Mul"@) is None,
        operator_symbol("Mul"@) == Some("*"@),
        "Mul"@ != "Conv"@,
        "Mul"@ != "Gemm"@,
        "Mul"@ != "MatMul"@,
        "Mul"@ != "Transpose"@,
{
    lemma_outlines();
}

pub(crate) proof fn lemma_or()
    ensures
        function_name("Or"@) is None,
        operator_symbol("Or"@) == Some("|"@),
        "Or"@ != "Conv"@,
        "Or"@ != "Gemm"@,
        "Or"@ != "MatMul"@,
        "Or"@ != "Transpose"@,
{
    lemma_outlines();
}

pub(crate) proof fn lemma_sub()
    ensures
        function_name("Sub"@) is None,
        operator_symbol("Sub"@) == Some("-"@),
        "Sub"@ != "Conv"@,
        "Sub"@ != "Gemm"@,
        "Sub"@ != "MatMul"@,
        "Sub"@ != "Transpose"@,
{
    lemma_outlines();
}

pub(crate) proof fn lemma_celu()
    ensures
        function_name("Celu"@) is None,
        operator_symbol("Celu"@) is None,
        "Celu"@ != "Conv"@,
        "Celu"@ != "Gemm"@,
        "Celu"@ != "MatMul"@,
        "Celu"@ != "Transpose"@,
{
    lemma_outlines();
}

pub(crate) proof fn lemma_elu()
    ensures
        function_name("Elu"@) is None,
        operator_symbol("Elu"@) is None,
        "Elu"@ != "Conv"@,
        "Elu"@ != "Gemm"@,
        "Elu"@ != "MatMul"@,
        "Elu"@ != "Transpose"@,
        "Elu"@ != "Celu"@,
{
    lemma_outlines();
}

pub(crate) proof fn lemma_relu()
    ensures
        function_name("Relu"@) is None,
        operator_symbol("Relu"@) is None,
        "Relu"@ != "Conv"@,
        "Relu"@ != "Gemm"@,
        "Relu"@ != "MatMul"@,
        "Relu"@ != "Transpose"@,
        "Relu"@ != "Celu"@,
        "Relu"@ != "Elu"@,
{
    lemma_outlines();
}

pub(crate) proof fn lemma_sigmoid()
    ensures
        function_name("Sigmoid"@) is None,
        operator_symbol("Sigmoid"@) is None,
        "Sigmoid"@ != "Conv"@,
        "Sigmoid"@ != "Gemm"@,
        "Sigmoid"@ != "MatMul"@,
        "Sigmoid"@ != "Transpose"@,
        "Sigmoid"@ != "Celu"@,
        "Sigmoid"@ != "Elu"@,
        "Sigmoid"@ != "Relu"@,
{
    lemma_outlines();
}

pub(crate) proof fn lemma_softsign()
    ensures
        function_name("Softsign"@) is None,
        operator_symbol("Softsign"@) is None,
        "Softsign"@ != "Conv"@,
        "Softsign"@ != "Gemm"@,
        "Softsign"@ != "MatMul"@,
        "Softsign"@ != "Transpose"@,
        "Softsign"@ != "Celu"@,
        "Softsign"@ != "Elu"@,
        "Softsign"@ != "Relu"@,
        "Softsign"@ != "Sigmoid"@,
{
    lemma_outlines();
}

pub(crate) proof fn lemma_softplus()
    ensures
        function_name("Softplus"@) is None,
        operator_symbol("Softplus"@) is None,
        "Softplus"@ != "Conv"@,
        "Softplus"@ != "Gemm"@,
        "Softplus"@ != "MatMul"@,
        "Softplus"@ != "Transpose"@,
        "Softplus"@ != "Celu"@,
        "Softplus"@ != "Elu"@,
        "Softplus"@ != "Relu"@,
        "Softplus"@ != "Sigmoid"@,
        "Softplus"@ != "Softsign"@,
{
    lemma_outlines();
}

pub(crate) proof fn lemma_gemm()
    ensures
        "Gemm"@ != "Conv"@,
{
    lemma_outlines();
}

pub(crate) proof fn lemma_matmul()
    ensures
        "MatMul"@ != "Conv"@,
        "MatMul"@ != "Gemm"@,
{
    lemma_outlines();
}

pub(crate) proof fn lemma_transpose()
    ensures
        "Transpose"@ != "Conv"@,
        "Transpose"@ != "Gemm"@,
        "Transpose"@ != "MatMul"@,
{
    lemma_outlines();
}

} // verus!
