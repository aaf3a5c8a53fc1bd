//! The shaders of the operators, and their numbers of threads.
use vstd::prelude::*;
use vstd::utf8::{decode_utf8, valid_utf8};
use crate::arith::{in_i64, law_product_multiplies_all, magnitude, quotient};
use crate::compiler::names::{
    lemma_abs, lemma_acos, lemma_add, lemma_and, lemma_asin, lemma_atan, lemma_ceil, lemma_celu,
    lemma_cos, lemma_cosh, lemma_div, lemma_elu, lemma_equal, lemma_exp, lemma_floor,
    lemma_gemm, lemma_greater, lemma_greaterorequal, lemma_less, lemma_lessorequal, lemma_log,
    lemma_matmul, lemma_mod, lemma_mul, lemma_or, lemma_relu, lemma_round, lemma_sigmoid,
    lemma_sign, lemma_sin, lemma_sinh, lemma_softplus, lemma_softsign, lemma_sqrt, lemma_sub,
    lemma_tan, lemma_tanh, lemma_transpose,
};
use crate::compiler::shader::ConvolutionView;
use crate::compiler::{convolution_of, formatted};
use crate::onnx::NodeView;
use crate::text::decimal;

verus! {

/// The number of elements of a value with the given sizes.
pub open spec fn elements(dims: Seq<i64>) -> int {
    dims.fold_left(1int, |before: int, size: i64| before * size)
}

/// Whether a node has an input and an output of known sizes, and no partial product of the sizes of
/// its first input leaves the range of 64 bits.
pub open spec fn known(node: NodeView, dims: Map<Seq<char>, Seq<i64>>) -> bool {
    &&& node.input.len() > 0
    &&& node.output.len() > 0
    &&& dims.contains_key(node.input[0])
    &&& dims.contains_key(node.output[0])
    &&& forall|k: int|
        0 <= k <= dims[node.input[0]].len() ==> i64::MIN <= elements(
            #[trigger] dims[node.input[0]].take(k),
        ) <= i64::MAX
}

/// A fourth of a number, without what is left over.
pub open spec fn fourth(n: int) -> int {
    if n >= 0 {
        n / 4
    } else {
        -(-n / 4)
    }
}

proof fn lemma_fourth(n: int)
    ensures
        quotient(n, 4) == fourth(n),
{
    assert(magnitude(4) == 4);
}

/// A unary function is called on each element, under its name in lower case. There is a thread for
/// each element.
pub proof fn law_functions_are_called(
    node: NodeView,
    dims: Map<Seq<char>, Seq<i64>>,
    name: Seq<char>,
)
    requires
        known(node, dims),
        node.op_type == "Abs"@ && name == "abs"@
            || node.op_type == "Acos"@ && name == "acos"@
            || node.op_type == "Asin"@ && name == "asin"@
            || node.op_type == "Atan"@ && name == "atan"@
            || node.op_type == "Ceil"@ && name == "ceil"@
            || node.op_type == "Cos"@ && name == "cos"@
            || node.op_type == "Cosh"@ && name == "cosh"@
            || node.op_type == "Exp"@ && name == "exp"@
            || node.op_type == "Floor"@ && name == "floor"@
            || node.op_type == "Log"@ && name == "log"@
            || node.op_type == "Round"@ && name == "round"@
            || node.op_type == "Sign"@ && name == "sign"@
            || node.op_type == "Sin"@ && name == "sin"@
            || node.op_type == "Sinh"@ && name == "sinh"@
            || node.op_type == "Sqrt"@ && name == "sqrt"@
            || node.op_type == "Tan"@ && name == "tan"@
            || node.op_type == "Tanh"@ && name == "tanh"@,
    ensures
        formatted(node, dims) == Some(
            (
                "let gidx = global_id.x;"@ + node.output[0] + ".data[gidx] = "@ + name + "("@
                    + node.input[0] + ".data[gidx]);"@,
                elements(dims[node.input[0]]) % 0x1_0000_0000,
            ),
        ),
{
    lemma_abs();
    lemma_acos();
    lemma_asin();
    lemma_atan();
    lemma_ceil();
    lemma_cos();
    lemma_cosh();
    lemma_exp();
    lemma_floor();
    lemma_log();
    lemma_round();
    lemma_sign();
    lemma_sin();
    lemma_sinh();
    lemma_sqrt();
    lemma_tan();
    lemma_tanh();
    law_product_multiplies_all(dims[node.input[0]]);
}

/// A binary operator is written between each two elements, as its symbol. There is a thread for each
/// element of the first input.
pub proof fn law_operators_are_written_between(
    node: NodeView,
    dims: Map<Seq<char>, Seq<i64>>,
    symbol: Seq<char>,
)
    requires
        known(node, dims),
        node.input.len() > 1,
        node.op_type == "Add"@ && symbol == "+"@
            || node.op_type == "And"@ && symbol == "&"@
            || node.op_type == "Div"@ && symbol == "/"@
            || node.op_type == "Equal"@ && symbol == "=="@
            || node.op_type == "Greater"@ && symbol == ">"@
            || node.op_type == "GreaterOrEqual"@ && symbol == ">="@
            || node.op_type == "Less"@ && symbol == "<"@
            || node.op_type == "LessOrEqual"@ && symbol == "<="@
            || node.op_type == "Mod"@ && symbol == "%"@
            || node.op_type == "Mul"@ && symbol == "*"@
            || node.op_type == "Or"@ && symbol == "|"@
            || node.op_type == "Sub"@ && symbol == "-"@,
    ensures
        formatted(node, dims) == Some(
            (
                "let gidx = global_id.x;"@ + node.output[0] + ".data[gidx] = "@ + node.input[0]
                    + ".data[gidx] "@ + symbol + " "@ + node.input[1] + ".data[gidx];"@,
                elements(dims[node.input[0]]) % 0x1_0000_0000,
            ),
        ),
{
    lemma_add();
    lemma_and();
    lemma_div();
    lemma_equal();
    lemma_greater();
    lemma_greaterorequal();
    lemma_less();
    lemma_lessorequal();
    lemma_mod();
    lemma_mul();
    lemma_or();
    lemma_sub();
    law_product_multiplies_all(dims[node.input[0]]);
}

/// `Relu`: the larger of each element and zero, with a thread for each.
pub proof fn law_relu_shader(node: NodeView, dims: Map<Seq<char>, Seq<i64>>)
    requires
        known(node, dims),
        node.op_type == "Relu"@,
    ensures
        ({
            let (input, output) = (node.input[0], node.output[0]);
            formatted(node, dims) == Some(
                (
                    "let gidx = global_id.x;"@
                        + output
                        + ".data[gidx] = max("@
                        + input
                        + ".data[gidx], vec4<f32>(0.0, 0.0, 0.0, 0.0));"@,
                    elements(dims[input]) % 0x1_0000_0000,
                ),
            )
        }),
{
    lemma_relu();
    law_product_multiplies_all(dims[node.input[0]]);
}

/// `Sigmoid`: the logistic function of each element, with a thread for each.
pub proof fn law_sigmoid_shader(node: NodeView, dims: Map<Seq<char>, Seq<i64>>)
    requires
        known(node, dims),
        node.op_type == "Sigmoid"@,
    ensures
        ({
            let (input, output) = (node.input[0], node.output[0]);
            formatted(node, dims) == Some(
                (
                    "let gidx = global_id.x;"@
                        + output
                        + ".data[gidx] = vec4<f32>(1.0, 1.0, 1.0, 1.0) / (vec4<f32>(1.0, 1.0, 1.0, 1.0) + exp(-"@
                        + input
                        + ".data[gidx]));"@,
                    elements(dims[input]) % 0x1_0000_0000,
                ),
            )
        }),
{
    lemma_sigmoid();
    law_product_multiplies_all(dims[node.input[0]]);
}

/// `Softsign`: each element over one more than its size, with a thread for each.
pub proof fn law_softsign_shader(node: NodeView, dims: Map<Seq<char>, Seq<i64>>)
    requires
        known(node, dims),
        node.op_type == "Softsign"@,
    ensures
        ({
            let (input, output) = (node.input[0], node.output[0]);
            formatted(node, dims) == Some(
                (
                    "let gidx = global_id.x;"@
                        + output
                        + ".data[gidx] = "@
                        + input
                        + ".data[gidx] / (vec4<f32>(1.0, 1.0, 1.0, 1.0) + abs("@
                        + input
                        + ".data[gidx]));"@,
                    elements(dims[input]) % 0x1_0000_0000,
                ),
            )
        }),
{
    lemma_softsign();
    law_product_multiplies_all(dims[node.input[0]]);
}

/// `Softplus`: the logarithm of one more than the exponential of each element, with a thread for each.
pub proof fn law_softplus_shader(node: NodeView, dims: Map<Seq<char>, Seq<i64>>)
    requires
        known(node, dims),
        node.op_type == "Softplus"@,
    ensures
        ({
            let (input, output) = (node.input[0], node.output[0]);
            formatted(node, dims) == Some(
                (
                    "let gidx = global_id.x;"@
                        + output
                        + ".data[gidx] = log(vec4<f32>(1.0, 1.0, 1.0, 1.0) + exp("@
                        + input
                        + ".data[gidx]));"@,
                    elements(dims[input]) % 0x1_0000_0000,
                ),
            )
        }),
{
    lemma_softplus();
    law_product_multiplies_all(dims[node.input[0]]);
}

/// `Celu`: the continuously differentiable exponential linear unit of each element, with a thread for each. It goes by the attribute `alpha`, or 1
/// without it.
pub proof fn law_celu_shader(
    node: NodeView,
    dims: Map<Seq<char>, Seq<i64>>,
    alpha: Seq<char>,
)
    requires
        known(node, dims),
        node.op_type == "Celu"@,
        match node.find("alpha"@) {
            Some(attribute) => attribute.f.text == alpha,
            None => alpha == "1"@,
        },
    ensures
        ({
            let (input, output) = (node.input[0], node.output[0]);
            formatted(node, dims) == Some(
                (
                    "let gidx = global_id.x;"@
                        + output
                        + ".data[gidx] = max(vec4<f32>(0.0, 0.0, 0.0, 0.0), "@
                        + input
                        + ".data[gidx]) + min(\n                        vec4<f32>(0.0, 0.0, 0.0, 0.0), \n"@
                        + "                        "@
                        + alpha
                        + " * (exp("@
                        + input
                        + ".data[gidx] / "@
                        + alpha
                        + " ) - vec4<f32>(1.0, 1.0, 1.0, 1.0) ));"@,
                    elements(dims[input]) % 0x1_0000_0000,
                ),
            )
        }),
{
    lemma_celu();
    law_product_multiplies_all(dims[node.input[0]]);
}

/// `Elu`: the exponential linear unit of each element, with a thread for each. It goes by the attribute `alpha`, or 1
/// without it.
pub proof fn law_elu_shader(
    node: NodeView,
    dims: Map<Seq<char>, Seq<i64>>,
    alpha: Seq<char>,
)
    requires
        known(node, dims),
        node.op_type == "Elu"@,
        match node.find("alpha"@) {
            Some(attribute) => attribute.f.text == alpha,
            None => alpha == "1"@,
        },
    ensures
        ({
            let (input, output) = (node.input[0], node.output[0]);
            formatted(node, dims) == Some(
                (
                    "let gidx = global_id.x;\n        let tmp_vec = vec4<f32>(0.0, 0.0, 0.0, 0.0);\n"@
                        + "        let input_vec = "@
                        + input
                        + ".data[gidx]; \n"@
                        + "        for(var index_vec: u32 = 0u; index_vec < 4u; index_vec = index_vec + 1u) {\n"@
                        + "            if (input_vec[index_vec] < 0.0) {\n\t            tmp_vec[index_vec] = "@
                        + alpha
                        + " * (exp(input_vec[index_vec]) - 1.0);\n            } else {  \n"@
                        + "\t            tmp_vec[index_vec] = input_vec[index_vec];\n            }\n\t    }\n"@
                        + "        "@
                        + output
                        + ".data[gidx] = tmp_vec;\n                    "@,
                    elements(dims[input]) % 0x1_0000_0000,
                ),
            )
        }),
{
    lemma_elu();
    law_product_multiplies_all(dims[node.input[0]]);
}

/// `MatMul` and `Gemm`: the product of two matrices, with a thread for every four rows of the left
/// and four columns of the right one.
pub proof fn law_matrix_product_shader(
    node: NodeView,
    dims: Map<Seq<char>, Seq<i64>>,
    rows: i64,
    left_size: i64,
    right_size: i64,
)
    requires
        known(node, dims),
        node.op_type == "MatMul"@ || node.op_type == "Gemm"@,
        node.input.len() > 1,
        dims.contains_key(node.input[1]),
        dims[node.input[0]].len() >= 2,
        dims[node.input[1]].len() >= 2,
        rows == dims[node.input[0]][0],
        left_size == dims[node.input[0]][1],
        right_size == dims[node.input[1]][1],
        i64::MIN <= fourth(rows as int) * right_size <= i64::MAX,
    ensures
        ({
            let (left, right, output) = (node.input[0], node.input[1], node.output[0]);
            let left_columns = decimal(left_size as int);
            let right_columns = decimal(right_size as int);
            let left_columns_div_4 = decimal(fourth(left_size as int));
            let right_columns_div_4 = decimal(fourth(right_size as int));
            formatted(node, dims) == Some(
                (
                    "\n    let y = global_id.x % "@
                        + right_columns_div_4
                        + "u;\n    let x = global_id.x / "@
                        + right_columns_div_4
                        + "u;\n    let index = x * "@
                        + right_columns
                        + "u + y;\n\n"@
                        + "    var tmpsum = mat4x4<f32>(vec4<f32>(0.0, 0.0, 0.0, 0.0), vec4<f32>(0.0, 0.0, 0.0, 0.0), vec4<f32>(0.0, 0.0, 0.0, 0.0), vec4<f32>(0.0, 0.0, 0.0, 0.0));\n"@
                        + "    var product = mat4x4<f32>(vec4<f32>(0.0, 0.0, 0.0, 0.0), vec4<f32>(0.0, 0.0, 0.0, 0.0), vec4<f32>(0.0, 0.0, 0.0, 0.0), vec4<f32>(0.0, 0.0, 0.0, 0.0));\n"@
                        + "\n    for(var k: u32 = 0u; k < "@
                        + left_columns_div_4
                        + "u; k = k + 1u) {\n        let index_left = x * "@
                        + left_columns
                        + "u + k; \n        let index_right = k * "@
                        + left_columns
                        + "u + y; \n\n        let mat_left = mat4x4<f32>(\n                              "@
                        + left
                        + ".data[index_left], \n                              "@
                        + left
                        + ".data[index_left + "@
                        + left_columns_div_4
                        + "u],\n                              "@
                        + left
                        + ".data[index_left + 2u * "@
                        + left_columns_div_4
                        + "u],\n                              "@
                        + left
                        + ".data[index_left + 3u * "@
                        + left_columns_div_4
                        + "u],\n                          );\n          \n"@
                        + "        let mat_right = mat4x4<f32>(\n                              "@
                        + right
                        + ".data[index_right], \n                              "@
                        + right
                        + ".data[index_right + "@
                        + right_columns_div_4
                        + "u],\n                              "@
                        + right
                        + ".data[index_right + 2u * "@
                        + right_columns_div_4
                        + "u],\n                              "@
                        + right
                        + ".data[index_right + 3u * "@
                        + right_columns_div_4
                        + "u],\n                          );\n\t\n        product = mat_right * mat_left;\n"@
                        + "\t\n"@
                        + "        for(var index_mat: u32 = 0u; index_mat < 4u; index_mat = index_mat + 1u) {\n"@
                        + "\t        tmpsum[index_mat] = tmpsum[index_mat] + product[index_mat];\n\t    }\n"@
                        + "    }\n\n    "@
                        + output
                        + ".data[index] = tmpsum[0];\n    "@
                        + output
                        + ".data[index + "@
                        + right_columns_div_4
                        + "u] = tmpsum[1];\n    "@
                        + output
                        + ".data[index + 2u * "@
                        + right_columns_div_4
                        + "u] = tmpsum[2];\n    "@
                        + output
                        + ".data[index + 3u * "@
                        + right_columns_div_4
                        + "u] = tmpsum[3];\n      \n            "@,
                    fourth(fourth(rows as int) * right_size) % 0x1_0000_0000,
                ),
            )
        }),
{
    lemma_matmul();
    lemma_gemm();
    lemma_fourth(left_size as int);
    lemma_fourth(right_size as int);
    lemma_fourth(rows as int);
    lemma_fourth(fourth(rows as int) * right_size);
    law_product_multiplies_all(dims[node.input[0]]);
}

/// `Transpose`: the transpose of a matrix, with a thread for every four elements of a row of four
/// rows. The attribute `perm` has to be there.
pub proof fn law_transpose_shader(node: NodeView, dims: Map<Seq<char>, Seq<i64>>, sizes: Seq<i64>)
    requires
        known(node, dims),
        node.op_type == "Transpose"@,
        sizes == dims[node.input[0]],
        sizes.len() >= 2,
        node.find("perm"@) is Some,
    ensures
        ({
            let (input, output) = (node.input[0], node.output[0]);
            let len_0 = decimal(sizes[0] as int);
            let len_0_div_4 = decimal(fourth(sizes[0] as int));
            let len_1 = decimal(fourth(sizes[1] as int));
            let len_1_x_4 = decimal(4 * fourth(sizes[1] as int));
            formatted(node, dims) == Some(
                (
                    "\n\n                let y = global_id.x % "@
                        + len_1
                        + "u;\n                let x = global_id.x / "@
                        + len_1
                        + "u;\n                let index = x * "@
                        + len_1_x_4
                        + "u + y; \n                \n                let tmpMat_"@
                        + input
                        + " = transpose(mat4x4<f32>("@
                        + input
                        + ".data[index], \n                                    "@
                        + input
                        + ".data[index + "@
                        + len_1
                        + "u],\n                                    "@
                        + input
                        + ".data[index + 2u * "@
                        + len_1
                        + "u],\n                                    "@
                        + input
                        + ".data[index + 3u * "@
                        + len_1
                        + "u],\n                                ));\n\n                let index = y * "@
                        + len_0
                        + "u + x;\n\n                "@
                        + output
                        + ".data[index] = tmpMat_"@
                        + input
                        + "[0u];\n                "@
                        + output
                        + ".data[index + "@
                        + len_0_div_4
                        + "u] = tmpMat_"@
                        + input
                        + "[1u];\n                "@
                        + output
                        + ".data[index + 2u * "@
                        + len_0_div_4
                        + "u] = tmpMat_"@
                        + input
                        + "[2u];\n                "@
                        + output
                        + ".data[index + 3u * "@
                        + len_0_div_4
                        + "u] = tmpMat_"@
                        + input
                        + "[3u];\n                "@,
                    fourth(elements(sizes)) % 0x1_0000_0000,
                ),
            )
        }),
{
    lemma_transpose();
    lemma_fourth(sizes[0] as int);
    lemma_fourth(sizes[1] as int);
    lemma_fourth(elements(sizes));
    law_product_multiplies_all(sizes);
}

/// Whether the lists are those that a convolution is written from.
pub open spec fn asks_for_convolution(
    node: NodeView,
    dims: Map<Seq<char>, Seq<i64>>,
    lists: ConvolutionView,
) -> bool {
    &&& lists.dims == dims[node.input[0]]
    &&& node.find("kernel_shape"@) matches Some(attribute) && lists.kernel == attribute.ints
    &&& match node.find("strides"@) {
        Some(attribute) => lists.strides == attribute.ints,
        None => lists.strides == seq![1i64, 1i64],
    }
    &&& match node.find("dilations"@) {
        Some(attribute) => lists.dilations == attribute.ints,
        None => lists.dilations == seq![1i64, 1i64],
    }
    &&& match node.find("pads"@) {
        Some(attribute) => lists.pads == attribute.ints,
        None => lists.pads == seq![0i64, 0i64, 0i64, 0i64],
    }
    &&& lists.dims.len() == 4
    &&& lists.kernel.len() >= 2
    &&& lists.strides.len() >= 2
    &&& lists.dilations.len() >= 2
    &&& lists.pads.len() >= 2
    &&& in_i64(lists.dims[1] * lists.dims[2])
    &&& in_i64(lists.dims[1] * lists.dims[2] * lists.dims[3])
    &&& in_i64(lists.dims[2] * lists.dims[3])
    &&& in_i64(lists.kernel[0] * lists.kernel[1])
    &&& node.find("auto_pad"@) matches Some(attribute) ==> valid_utf8(attribute.s) && (decode_utf8(
        attribute.s,
    ) == "NOTSET"@ || decode_utf8(attribute.s) == "SAME_UPPER"@ || decode_utf8(attribute.s)
        == "SAME_LOWER"@)
}

/// `Conv`: a convolution over the last two of four dimensions, with a thread for every four elements
/// of one output.
pub proof fn law_conv_shader(
    node: NodeView,
    dims: Map<Seq<char>, Seq<i64>>,
    lists: ConvolutionView,
    out: Seq<i64>,
)
    requires
        known(node, dims),
        node.op_type == "Conv"@,
        node.input.len() > 1,
        asks_for_convolution(node, dims, lists),
        out == dims[node.output[0]],
        out.len() >= 4,
        in_i64(out[1] * out[2]),
        in_i64(out[1] * out[2] * out[3]),
    ensures
        ({
            let (input, weight, output) = (node.input[0], node.input[1], node.output[0]);
            let volume = decimal(lists.dims[1] * lists.dims[2] * lists.dims[3]);
            let area = decimal(lists.dims[2] * lists.dims[3]);
            let height = decimal(lists.dims[2] as int);
            let width = decimal(lists.dims[3] as int);
            let pad_0 = decimal(lists.pads[0] as int);
            let pad_1 = decimal(lists.pads[1] as int);
            let kernel_shape_0 = decimal(lists.kernel[0] as int);
            let kernel_shape_1 = decimal(lists.kernel[1] as int);
            let kernel_len = decimal(lists.kernel[0] * lists.kernel[1]);
            let stride_0 = decimal(lists.strides[0] as int);
            let stride_1 = decimal(lists.strides[1] as int);
            let dilation_0 = decimal(lists.dilations[0] as int);
            let dilation_1 = decimal(lists.dilations[1] as int);
            formatted(node, dims) == Some(
                (
                    "\n\t            let m = global_id.x / "@
                        + volume
                        + ";\n                let index = global_id.x % "@
                        + volume
                        + ";\n                let c = index / "@
                        + area
                        + ";\n                let rest = rest % "@
                        + area
                        + ";\n                let y = rest / "@
                        + width
                        + ";\n                let x = rest % "@
                        + width
                        + ";\n\n                let mut output_vec = vec4<f32>(0.0, 0.0, 0.0, 0.0);\n"@
                        + "                \n                y = y - "@
                        + pad_0
                        + "u;\n                x = x - "@
                        + pad_1
                        + "u;\n                index = index - "@
                        + pad_0
                        + "u * "@
                        + width
                        + "u - "@
                        + pad_1
                        + "u;\n\n                let mut tmp_result = 0.0;\n                \n"@
                        + "                for(var i: u32 = 0u; i < "@
                        + kernel_shape_0
                        + "u; i = i + "@
                        + stride_0
                        + "u) {\n                    for(var j: u32 = 0u; j < "@
                        + kernel_shape_1
                        + "u; j = j + "@
                        + stride_1
                        + "u) {\n\n                        let index = (index + i * "@
                        + dilation_0
                        + "u * "@
                        + width
                        + "u + j * "@
                        + dilation_1
                        + "u);\n                        \n                        if ((index_h < "@
                        + height
                        + "u) && (index_w < "@
                        + width
                        + "u) && (y >= 0) && (x >= 0)) {\n"@
                        + "                            let index_div_4 = index / 4u;\n"@
                        + "                            let index_rest_4 = index % 4u;\n\n"@
                        + "                            output_vec[i] = output_vec[i] + "@
                        + input
                        + ".data[index_div_4][index_rest_4] * "@
                        + weight
                        + ".data[m * "@
                        + kernel_len
                        + " + i * "@
                        + kernel_shape_1
                        + "u + j];\n                        }\n                    }\n                }\n\n"@
                        + "                "@
                        + output
                        + ".data[global_id.x] = output_vec[0];\n                "@,
                    fourth(out[1] * out[2] * out[3]) % 0x1_0000_0000,
                ),
            )
        }),
{
    lemma_fourth(out[1] * out[2] * out[3]);
    law_product_multiplies_all(dims[node.input[0]]);
    assert(convolution_of(node, lists.dims, lists.kernel) =~= lists);
}

/// No other operator has a shader.
pub proof fn law_other_operators_have_no_shader(node: NodeView, dims: Map<Seq<char>, Seq<i64>>)
    requires
        node.op_type != "Abs"@,
        node.op_type != "Acos"@,
        node.op_type != "Asin"@,
        node.op_type != "Atan"@,
        node.op_type != "Ceil"@,
        node.op_type != "Cos"@,
        node.op_type != "Cosh"@,
        node.op_type != "Exp"@,
        node.op_type != "Floor"@,
        node.op_type != "Log"@,
        node.op_type != "Round"@,
        node.op_type != "Sign"@,
        node.op_type != "Sin"@,
        node.op_type != "Sinh"@,
        node.op_type != "Sqrt"@,
        node.op_type != "Tan"@,
        node.op_type != "Tanh"@,
        node.op_type != "Add"@,
        node.op_type != "And"@,
        node.op_type != "Div"@,
        node.op_type != "Equal"@,
        node.op_type != "Greater"@,
        node.op_type != "GreaterOrEqual"@,
        node.op_type != "Less"@,
        node.op_type != "LessOrEqual"@,
        node.op_type != "Mod"@,
        node.op_type != "Mul"@,
        node.op_type != "Or"@,
        node.op_type != "Sub"@,
        node.op_type != "Celu"@,
        node.op_type != "Elu"@,
        node.op_type != "Relu"@,
        node.op_type != "Sigmoid"@,
        node.op_type != "Softsign"@,
        node.op_type != "Softplus"@,
        node.op_type != "Conv"@,
        node.op_type != "Gemm"@,
        node.op_type != "MatMul"@,
        node.op_type != "Transpose"@,
    ensures
        formatted(node, dims) is None,
{
}

/// A node has a shader only where the sizes of its first input and its first output are known, and
/// no partial product of the former leaves the range of 64 bits.
pub proof fn law_no_shader_without_sizes(node: NodeView, dims: Map<Seq<char>, Seq<i64>>)
    ensures
        formatted(node, dims) is Some ==> known(node, dims),
{
    if node.input.len() > 0 && dims.contains_key(node.input[0]) {
        law_product_multiplies_all(dims[node.input[0]]);
    }
}

/// A shader that goes over its first input element by element has a thread for each of them: the
/// product of all sizes, of which the lower 32 bits count.
pub proof fn law_a_thread_for_each_element(node: NodeView, dims: Map<Seq<char>, Seq<i64>>)
    requires
        node.op_type != "Conv"@,
        node.op_type != "Gemm"@,
        node.op_type != "MatMul"@,
        node.op_type != "Transpose"@,
        formatted(node, dims) is Some,
    ensures
        node.input.len() > 0,
        dims.contains_key(node.input[0]),
        formatted(node, dims).unwrap().1 == dims[node.input[0]].fold_left(
            1int,
            |before: int, size: i64| before * size,
        ) % 0x1_0000_0000,
{
    law_no_shader_without_sizes(node, dims);
    law_product_multiplies_all(dims[node.input[0]]);
}

} // verus!
