//! The texts of the shaders.
//!
//! Each shader is written as one text. Names of values go in as they are, and numbers in decimal.
use vstd::prelude::*;
use vstd::string::StringExecFns;
use crate::arith::{checked_quotient, in_i64, magnitude, quotient};
use crate::text::{decimal, signed_text};

verus! {

/// What a convolution is written from: the dimensions of its input, and its attributes.
pub struct Convolution {
    pub dims: Vec<i64>,
    pub kernel: Vec<i64>,
    pub strides: Vec<i64>,
    pub dilations: Vec<i64>,
    pub pads: Vec<i64>,
}

/// The view of a [`Convolution`].
#[verifier::ext_equal]
pub struct ConvolutionView {
    pub dims: Seq<i64>,
    pub kernel: Seq<i64>,
    pub strides: Seq<i64>,
    pub dilations: Seq<i64>,
    pub pads: Seq<i64>,
}

impl View for Convolution {
    type V = ConvolutionView;

    open spec fn view(&self) -> ConvolutionView {
        ConvolutionView {
            dims: self.dims@,
            kernel: self.kernel@,
            strides: self.strides@,
            dilations: self.dilations@,
            pads: self.pads@,
        }
    }
}

impl ConvolutionView {
    /// Whether the input has four dimensions, each list says something of both spatial axes, and
    /// the products that the shader needs are in range.
    pub open spec fn writable(self) -> bool {
        &&& self.dims.len() == 4
        &&& self.kernel.len() >= 2
        &&& self.strides.len() >= 2
        &&& self.dilations.len() >= 2
        &&& self.pads.len() >= 2
        &&& in_i64(self.dims[1] * self.dims[2])
        &&& in_i64(self.dims[1] * self.dims[2] * self.dims[3])
        &&& in_i64(self.dims[2] * self.dims[3])
        &&& in_i64(self.kernel[0] * self.kernel[1])
    }
}

/// A fourth of `n`, rounded towards zero.
pub(crate) fn quarter(n: i64) -> (q: i64)
    ensures
        q == quotient(n as int, 4),
        in_i64(q * 4),
{
    proof {
        assert(magnitude(4) == 4);
        assert(magnitude(n as int) / 4 * 4 <= magnitude(n as int));
    }
    match checked_quotient(n, 4) {
        Some(q) => q,
        None => 0,
    }
}

/// `output = name(input)`, element by element.
pub open spec fn call_text(name: Seq<char>, input: Seq<char>, output: Seq<char>) -> Seq<char> {
    "let gidx = global_id.x;"@
        + output
        + ".data[gidx] = "@
        + name
        + "("@
        + input
        + ".data[gidx]);"@
}

pub(crate) fn write_call(name: &str, input: &str, output: &str) -> (text: String)
    ensures
        text@ == call_text(name@, input@, output@),
{
    String::from_str("let gidx = global_id.x;")
        .concat(output)
        .concat(".data[gidx] = ")
        .concat(name)
        .concat("(")
        .concat(input)
        .concat(".data[gidx]);")
}

/// `output = left symbol right`, element by element.
pub open spec fn infix_text(
    symbol: Seq<char>,
    left: Seq<char>,
    right: Seq<char>,
    output: Seq<char>,
) -> Seq<char> {
    "let gidx = global_id.x;"@
        + output
        + ".data[gidx] = "@
        + left
        + ".data[gidx] "@
        + symbol
        + " "@
        + right
        + ".data[gidx];"@
}

pub(crate) fn write_infix(symbol: &str, left: &str, right: &str, output: &str) -> (text: String)
    ensures
        text@ == infix_text(symbol@, left@, right@, output@),
{
    String::from_str("let gidx = global_id.x;")
        .concat(output)
        .concat(".data[gidx] = ")
        .concat(left)
        .concat(".data[gidx] ")
        .concat(symbol)
        .concat(" ")
        .concat(right)
        .concat(".data[gidx];")
}

/// The larger of an element and zero.
pub open spec fn relu_text(input: Seq<char>, output: Seq<char>) -> Seq<char> {
    "let gidx = global_id.x;"@
        + output
        + ".data[gidx] = max("@
        + input
        + ".data[gidx], vec4<f32>(0.0, 0.0, 0.0, 0.0));"@
}

pub(crate) fn write_relu(input: &str, output: &str) -> (text: String)
    ensures
        text@ == relu_text(input@, output@),
{
    String::from_str("let gidx = global_id.x;")
        .concat(output)
        .concat(".data[gidx] = max(")
        .concat(input)
        .concat(".data[gidx], vec4<f32>(0.0, 0.0, 0.0, 0.0));")
}

/// The logistic function of an element.
pub open spec fn sigmoid_text(input: Seq<char>, output: Seq<char>) -> Seq<char> {
    "let gidx = global_id.x;"@
        + output
        + ".data[gidx] = vec4<f32>(1.0, 1.0, 1.0, 1.0) / (vec4<f32>(1.0, 1.0, 1.0, 1.0) + exp(-"@
        + input
        + ".data[gidx]));"@
}

pub(crate) fn write_sigmoid(input: &str, output: &str) -> (text: String)
    ensures
        text@ == sigmoid_text(input@, output@),
{
    String::from_str("let gidx = global_id.x;")
        .concat(output)
        .concat(".data[gidx] = vec4<f32>(1.0, 1.0, 1.0, 1.0) / (vec4<f32>(1.0, 1.0, 1.0, 1.0) + exp(-")
        .concat(input)
        .concat(".data[gidx]));")
}

/// An element over one more than its size.
pub open spec fn softsign_text(input: Seq<char>, output: Seq<char>) -> Seq<char> {
    "let gidx = global_id.x;"@
        + output
        + ".data[gidx] = "@
        + input
        + ".data[gidx] / (vec4<f32>(1.0, 1.0, 1.0, 1.0) + abs("@
        + input
        + ".data[gidx]));"@
}

pub(crate) fn write_softsign(input: &str, output: &str) -> (text: String)
    ensures
        text@ == softsign_text(input@, output@),
{
    String::from_str("let gidx = global_id.x;")
        .concat(output)
        .concat(".data[gidx] = ")
        .concat(input)
        .concat(".data[gidx] / (vec4<f32>(1.0, 1.0, 1.0, 1.0) + abs(")
        .concat(input)
        .concat(".data[gidx]));")
}

/// The logarithm of one more than the exponential of an element.
pub open spec fn softplus_text(input: Seq<char>, output: Seq<char>) -> Seq<char> {
    "let gidx = global_id.x;"@
        + output
        + ".data[gidx] = log(vec4<f32>(1.0, 1.0, 1.0, 1.0) + exp("@
        + input
        + ".data[gidx]));"@
}

pub(crate) fn write_softplus(input: &str, output: &str) -> (text: String)
    ensures
        text@ == softplus_text(input@, output@),
{
    String::from_str("let gidx = global_id.x;")
        .concat(output)
        .concat(".data[gidx] = log(vec4<f32>(1.0, 1.0, 1.0, 1.0) + exp(")
        .concat(input)
        .concat(".data[gidx]));")
}

/// The continuously differentiable exponential linear unit.
pub open spec fn celu_text(input: Seq<char>, alpha: Seq<char>, output: Seq<char>) -> Seq<char> {
    "let gidx = global_id.x;"@
        + output
        + ".data[gidx] = max(vec4<f32>(0.0, 0.0, 0.0, 0.0), "@
        + input
        + ".data[gidx]) + min(\n                        vec4<f32>(0.0, 0.0, 0.0, 0.0), \n"@
        + "                        "@
        + alpha
        + " * (exp("@
        + input
        + ".data[gidx] / "@
        + alpha
        + " ) - vec4<f32>(1.0, 1.0, 1.0, 1.0) ));"@
}

pub(crate) fn write_celu(input: &str, alpha: &str, output: &str) -> (text: String)
    ensures
        text@ == celu_text(input@, alpha@, output@),
{
    String::from_str("let gidx = global_id.x;")
        .concat(output)
        .concat(".data[gidx] = max(vec4<f32>(0.0, 0.0, 0.0, 0.0), ")
        .concat(input)
        .concat(".data[gidx]) + min(\n                        vec4<f32>(0.0, 0.0, 0.0, 0.0), \n")
        .concat("                        ")
        .concat(alpha)
        .concat(" * (exp(")
        .concat(input)
        .concat(".data[gidx] / ")
        .concat(alpha)
        .concat(" ) - vec4<f32>(1.0, 1.0, 1.0, 1.0) ));")
}

/// The exponential linear unit.
pub open spec fn elu_text(input: Seq<char>, alpha: Seq<char>, output: Seq<char>) -> Seq<char> {
    "let gidx = global_id.x;\n        let tmp_vec = vec4<f32>(0.0, 0.0, 0.0, 0.0);\n"@
        + "        let input_vec = "@
        + input
        + ".data[gidx]; \n"@
        + "        for(var index_vec: u32 = 0u; index_vec < 4u; index_vec = index_vec + 1u) {\n"@
        + "            if (input_vec[index_vec] < 0.0) {\n\t            tmp_vec[index_vec] = "@
        + alpha
        + " * (exp(input_vec[index_vec]) - 1.0);\n            } else {  \n"@
        + "\t            tmp_vec[index_vec] = input_vec[index_vec];\n            }\n\t    }\n"@
        + "        "@
        + output
        + ".data[gidx] = tmp_vec;\n                    "@
}

pub(crate) fn write_elu(input: &str, alpha: &str, output: &str) -> (text: String)
    ensures
        text@ == elu_text(input@, alpha@, output@),
{
    String::from_str("let gidx = global_id.x;\n        let tmp_vec = vec4<f32>(0.0, 0.0, 0.0, 0.0);\n")
        .concat("        let input_vec = ")
        .concat(input)
        .concat(".data[gidx]; \n")
        .concat("        for(var index_vec: u32 = 0u; index_vec < 4u; index_vec = index_vec + 1u) {\n")
        .concat("            if (input_vec[index_vec] < 0.0) {\n\t            tmp_vec[index_vec] = ")
        .concat(alpha)
        .concat(" * (exp(input_vec[index_vec]) - 1.0);\n            } else {  \n")
        .concat("\t            tmp_vec[index_vec] = input_vec[index_vec];\n            }\n\t    }\n")
        .concat("        ")
        .concat(output)
        .concat(".data[gidx] = tmp_vec;\n                    ")
}

/// A convolution over two spatial axes.
pub open spec fn conv_text(
    input: Seq<char>,
    weight: Seq<char>,
    output: Seq<char>,
    window: ConvolutionView,
) -> Seq<char> {
    let volume = decimal(window.dims[1] * window.dims[2] * window.dims[3]);
    let area = decimal(window.dims[2] * window.dims[3]);
    let height = decimal(window.dims[2] as int);
    let width = decimal(window.dims[3] as int);
    let pad_0 = decimal(window.pads[0] as int);
    let pad_1 = decimal(window.pads[1] as int);
    let kernel_shape_0 = decimal(window.kernel[0] as int);
    let kernel_shape_1 = decimal(window.kernel[1] as int);
    let kernel_len = decimal(window.kernel[0] * window.kernel[1]);
    let stride_0 = decimal(window.strides[0] as int);
    let stride_1 = decimal(window.strides[1] as int);
    let dilation_0 = decimal(window.dilations[0] as int);
    let dilation_1 = decimal(window.dilations[1] as int);
    "\n\t            let m = global_id.x / "@
        + volume
        + ";\n                let index = global_id.x % "@
        + volume
        + ";\n                let c = index / "@
        + area
        + ";\n                let rest = rest % "@
        + area
        + ";\n                let y = rest / "@
        + width
        + ";\n                let x = rest % "@
        + width
        + ";\n\n                let mut output_vec = vec4<f32>(0.0, 0.0, 0.0, 0.0);\n"@
        + "                \n                y = y - "@
        + pad_0
        + "u;\n                x = x - "@
        + pad_1
        + "u;\n                index = index - "@
        + pad_0
        + "u * "@
        + width
        + "u - "@
        + pad_1
        + "u;\n\n                let mut tmp_result = 0.0;\n                \n"@
        + "                for(var i: u32 = 0u; i < "@
        + kernel_shape_0
        + "u; i = i + "@
        + stride_0
        + "u) {\n                    for(var j: u32 = 0u; j < "@
        + kernel_shape_1
        + "u; j = j + "@
        + stride_1
        + "u) {\n\n                        let index = (index + i * "@
        + dilation_0
        + "u * "@
        + width
        + "u + j * "@
        + dilation_1
        + "u);\n                        \n                        if ((index_h < "@
        + height
        + "u) && (index_w < "@
        + width
        + "u) && (y >= 0) && (x >= 0)) {\n"@
        + "                            let index_div_4 = index / 4u;\n"@
        + "                            let index_rest_4 = index % 4u;\n\n"@
        + "                            output_vec[i] = output_vec[i] + "@
        + input
        + ".data[index_div_4][index_rest_4] * "@
        + weight
        + ".data[m * "@
        + kernel_len
        + " + i * "@
        + kernel_shape_1
        + "u + j];\n                        }\n                    }\n                }\n\n"@
        + "                "@
        + output
        + ".data[global_id.x] = output_vec[0];\n                "@
}

pub(crate) fn write_conv(
    input: &str,
    weight: &str,
    output: &str,
    window: &Convolution,
) -> (text: String)
    requires
        window@.writable(),
    ensures
        text@ == conv_text(input@, weight@, output@, window@),
{
    let volume = signed_text(window.dims[1] * window.dims[2] * window.dims[3]);
    let area = signed_text(window.dims[2] * window.dims[3]);
    let height = signed_text(window.dims[2]);
    let width = signed_text(window.dims[3]);
    let pad_0 = signed_text(window.pads[0]);
    let pad_1 = signed_text(window.pads[1]);
    let kernel_shape_0 = signed_text(window.kernel[0]);
    let kernel_shape_1 = signed_text(window.kernel[1]);
    let kernel_len = signed_text(window.kernel[0] * window.kernel[1]);
    let stride_0 = signed_text(window.strides[0]);
    let stride_1 = signed_text(window.strides[1]);
    let dilation_0 = signed_text(window.dilations[0]);
    let dilation_1 = signed_text(window.dilations[1]);
    String::from_str("\n\t            let m = global_id.x / ")
        .concat(volume.as_str())
        .concat(";\n                let index = global_id.x % ")
        .concat(volume.as_str())
        .concat(";\n                let c = index / ")
        .concat(area.as_str())
        .concat(";\n                let rest = rest % ")
        .concat(area.as_str())
        .concat(";\n                let y = rest / ")
        .concat(width.as_str())
        .concat(";\n                let x = rest % ")
        .concat(width.as_str())
        .concat(";\n\n                let mut output_vec = vec4<f32>(0.0, 0.0, 0.0, 0.0);\n")
        .concat("                \n                y = y - ")
        .concat(pad_0.as_str())
        .concat("u;\n                x = x - ")
        .concat(pad_1.as_str())
        .concat("u;\n                index = index - ")
        .concat(pad_0.as_str())
        .concat("u * ")
        .concat(width.as_str())
        .concat("u - ")
        .concat(pad_1.as_str())
        .concat("u;\n\n                let mut tmp_result = 0.0;\n                \n")
        .concat("                for(var i: u32 = 0u; i < ")
        .concat(kernel_shape_0.as_str())
        .concat("u; i = i + ")
        .concat(stride_0.as_str())
        .concat("u) {\n                    for(var j: u32 = 0u; j < ")
        .concat(kernel_shape_1.as_str())
        .concat("u; j = j + ")
        .concat(stride_1.as_str())
        .concat("u) {\n\n                        let index = (index + i * ")
        .concat(dilation_0.as_str())
        .concat("u * ")
        .concat(width.as_str())
        .concat("u + j * ")
        .concat(dilation_1.as_str())
        .concat("u);\n                        \n                        if ((index_h < ")
        .concat(height.as_str())
        .concat("u) && (index_w < ")
        .concat(width.as_str())
        .concat("u) && (y >= 0) && (x >= 0)) {\n")
        .concat("                            let index_div_4 = index / 4u;\n")
        .concat("                            let index_rest_4 = index % 4u;\n\n")
        .concat("                            output_vec[i] = output_vec[i] + ")
        .concat(input)
        .concat(".data[index_div_4][index_rest_4] * ")
        .concat(weight)
        .concat(".data[m * ")
        .concat(kernel_len.as_str())
        .concat(" + i * ")
        .concat(kernel_shape_1.as_str())
        .concat("u + j];\n                        }\n                    }\n                }\n\n")
        .concat("                ")
        .concat(output)
        .concat(".data[global_id.x] = output_vec[0];\n                ")
}

/// A product of matrices, four rows and four columns at a time.
pub open spec fn matmul_text(
    left: Seq<char>,
    right: Seq<char>,
    output: Seq<char>,
    left_columns: int,
    right_columns: int,
) -> Seq<char> {
    let left_columns_div_4 = decimal(quotient(left_columns, 4));
    let right_columns_div_4 = decimal(quotient(right_columns, 4));
    let left_columns = decimal(left_columns);
    let right_columns = decimal(right_columns);
    "\n    let y = global_id.x % "@
        + right_columns_div_4
        + "u;\n    let x = global_id.x / "@
        + right_columns_div_4
        + "u;\n    let index = x * "@
        + right_columns
        + "u + y;\n\n"@
        + "    var tmpsum = mat4x4<f32>(vec4<f32>(0.0, 0.0, 0.0, 0.0), vec4<f32>(0.0, 0.0, 0.0, 0.0), vec4<f32>(0.0, 0.0, 0.0, 0.0), vec4<f32>(0.0, 0.0, 0.0, 0.0));\n"@
        + "    var product = mat4x4<f32>(vec4<f32>(0.0, 0.0, 0.0, 0.0), vec4<f32>(0.0, 0.0, 0.0, 0.0), vec4<f32>(0.0, 0.0, 0.0, 0.0), vec4<f32>(0.0, 0.0, 0.0, 0.0));\n"@
        + "\n    for(var k: u32 = 0u; k < "@
        + left_columns_div_4
        + "u; k = k + 1u) {\n        let index_left = x * "@
        + left_columns
        + "u + k; \n        let index_right = k * "@
        + left_columns
        + "u + y; \n\n        let mat_left = mat4x4<f32>(\n                              "@
        + left
        + ".data[index_left], \n                              "@
        + left
        + ".data[index_left + "@
        + left_columns_div_4
        + "u],\n                              "@
        + left
        + ".data[index_left + 2u * "@
        + left_columns_div_4
        + "u],\n                              "@
        + left
        + ".data[index_left + 3u * "@
        + left_columns_div_4
        + "u],\n                          );\n          \n"@
        + "        let mat_right = mat4x4<f32>(\n                              "@
        + right
        + ".data[index_right], \n                              "@
        + right
        + ".data[index_right + "@
        + right_columns_div_4
        + "u],\n                              "@
        + right
        + ".data[index_right + 2u * "@
        + right_columns_div_4
        + "u],\n                              "@
        + right
        + ".data[index_right + 3u * "@
        + right_columns_div_4
        + "u],\n                          );\n\t\n        product = mat_right * mat_left;\n"@
        + "\t\n"@
        + "        for(var index_mat: u32 = 0u; index_mat < 4u; index_mat = index_mat + 1u) {\n"@
        + "\t        tmpsum[index_mat] = tmpsum[index_mat] + product[index_mat];\n\t    }\n"@
        + "    }\n\n    "@
        + output
        + ".data[index] = tmpsum[0];\n    "@
        + output
        + ".data[index + "@
        + right_columns_div_4
        + "u] = tmpsum[1];\n    "@
        + output
        + ".data[index + 2u * "@
        + right_columns_div_4
        + "u] = tmpsum[2];\n    "@
        + output
        + ".data[index + 3u * "@
        + right_columns_div_4
        + "u] = tmpsum[3];\n      \n            "@
}

pub(crate) fn write_matmul(
    left: &str,
    right: &str,
    output: &str,
    left_columns: i64,
    right_columns: i64,
) -> (text: String)
    ensures
        text@ == matmul_text(left@, right@, output@, left_columns as int, right_columns as int),
{
    let left_columns_div_4 = signed_text(quarter(left_columns));
    let right_columns_div_4 = signed_text(quarter(right_columns));
    let left_columns = signed_text(left_columns);
    let right_columns = signed_text(right_columns);
    String::from_str("\n    let y = global_id.x % ")
        .concat(right_columns_div_4.as_str())
        .concat("u;\n    let x = global_id.x / ")
        .concat(right_columns_div_4.as_str())
        .concat("u;\n    let index = x * ")
        .concat(right_columns.as_str())
        .concat("u + y;\n\n")
        .concat("    var tmpsum = mat4x4<f32>(vec4<f32>(0.0, 0.0, 0.0, 0.0), vec4<f32>(0.0, 0.0, 0.0, 0.0), vec4<f32>(0.0, 0.0, 0.0, 0.0), vec4<f32>(0.0, 0.0, 0.0, 0.0));\n")
        .concat("    var product = mat4x4<f32>(vec4<f32>(0.0, 0.0, 0.0, 0.0), vec4<f32>(0.0, 0.0, 0.0, 0.0), vec4<f32>(0.0, 0.0, 0.0, 0.0), vec4<f32>(0.0, 0.0, 0.0, 0.0));\n")
        .concat("\n    for(var k: u32 = 0u; k < ")
        .concat(left_columns_div_4.as_str())
        .concat("u; k = k + 1u) {\n        let index_left = x * ")
        .concat(left_columns.as_str())
        .concat("u + k; \n        let index_right = k * ")
        .concat(left_columns.as_str())
        .concat("u + y; \n\n        let mat_left = mat4x4<f32>(\n                              ")
        .concat(left)
        .concat(".data[index_left], \n                              ")
        .concat(left)
        .concat(".data[index_left + ")
        .concat(left_columns_div_4.as_str())
        .concat("u],\n                              ")
        .concat(left)
        .concat(".data[index_left + 2u * ")
        .concat(left_columns_div_4.as_str())
        .concat("u],\n                              ")
        .concat(left)
        .concat(".data[index_left + 3u * ")
        .concat(left_columns_div_4.as_str())
        .concat("u],\n                          );\n          \n")
        .concat("        let mat_right = mat4x4<f32>(\n                              ")
        .concat(right)
        .concat(".data[index_right], \n                              ")
        .concat(right)
        .concat(".data[index_right + ")
        .concat(right_columns_div_4.as_str())
        .concat("u],\n                              ")
        .concat(right)
        .concat(".data[index_right + 2u * ")
        .concat(right_columns_div_4.as_str())
        .concat("u],\n                              ")
        .concat(right)
        .concat(".data[index_right + 3u * ")
        .concat(right_columns_div_4.as_str())
        .concat("u],\n                          );\n\t\n        product = mat_right * mat_left;\n")
        .concat("\t\n")
        .concat("        for(var index_mat: u32 = 0u; index_mat < 4u; index_mat = index_mat + 1u) {\n")
        .concat("\t        tmpsum[index_mat] = tmpsum[index_mat] + product[index_mat];\n\t    }\n")
        .concat("    }\n\n    ")
        .concat(output)
        .concat(".data[index] = tmpsum[0];\n    ")
        .concat(output)
        .concat(".data[index + ")
        .concat(right_columns_div_4.as_str())
        .concat("u] = tmpsum[1];\n    ")
        .concat(output)
        .concat(".data[index + 2u * ")
        .concat(right_columns_div_4.as_str())
        .concat("u] = tmpsum[2];\n    ")
        .concat(output)
        .concat(".data[index + 3u * ")
        .concat(right_columns_div_4.as_str())
        .concat("u] = tmpsum[3];\n      \n            ")
}

/// The transpose of a matrix, four rows and four columns at a time.
pub open spec fn transpose_text(
    input: Seq<char>,
    output: Seq<char>,
    len_0: int,
    len_1: int,
) -> Seq<char> {
    let len_0_div_4 = decimal(quotient(len_0, 4));
    let len_1_x_4 = decimal(len_1 * 4);
    let len_0 = decimal(len_0);
    let len_1 = decimal(len_1);
    "\n\n                let y = global_id.x % "@
        + len_1
        + "u;\n                let x = global_id.x / "@
        + len_1
        + "u;\n                let index = x * "@
        + len_1_x_4
        + "u + y; \n                \n                let tmpMat_"@
        + input
        + " = transpose(mat4x4<f32>("@
        + input
        + ".data[index], \n                                    "@
        + input
        + ".data[index + "@
        + len_1
        + "u],\n                                    "@
        + input
        + ".data[index + 2u * "@
        + len_1
        + "u],\n                                    "@
        + input
        + ".data[index + 3u * "@
        + len_1
        + "u],\n                                ));\n\n                let index = y * "@
        + len_0
        + "u + x;\n\n                "@
        + output
        + ".data[index] = tmpMat_"@
        + input
        + "[0u];\n                "@
        + output
        + ".data[index + "@
        + len_0_div_4
        + "u] = tmpMat_"@
        + input
        + "[1u];\n                "@
        + output
        + ".data[index + 2u * "@
        + len_0_div_4
        + "u] = tmpMat_"@
        + input
        + "[2u];\n                "@
        + output
        + ".data[index + 3u * "@
        + len_0_div_4
        + "u] = tmpMat_"@
        + input
        + "[3u];\n                "@
}

pub(crate) fn write_transpose(input: &str, output: &str, len_0: i64, len_1: i64) -> (text: String)
    requires
        in_i64(len_1 * 4),
    ensures
        text@ == transpose_text(input@, output@, len_0 as int, len_1 as int),
{
    let len_0_div_4 = signed_text(quarter(len_0));
    let len_1_x_4 = signed_text(len_1 * 4);
    let len_0 = signed_text(len_0);
    let len_1 = signed_text(len_1);
    String::from_str("\n\n                let y = global_id.x % ")
        .concat(len_1.as_str())
        .concat("u;\n                let x = global_id.x / ")
        .concat(len_1.as_str())
        .concat("u;\n                let index = x * ")
        .concat(len_1_x_4.as_str())
        .concat("u + y; \n                \n                let tmpMat_")
        .concat(input)
        .concat(" = transpose(mat4x4<f32>(")
        .concat(input)
        .concat(".data[index], \n                                    ")
        .concat(input)
        .concat(".data[index + ")
        .concat(len_1.as_str())
        .concat("u],\n                                    ")
        .concat(input)
        .concat(".data[index + 2u * ")
        .concat(len_1.as_str())
        .concat("u],\n                                    ")
        .concat(input)
        .concat(".data[index + 3u * ")
        .concat(len_1.as_str())
        .concat("u],\n                                ));\n\n                let index = y * ")
        .concat(len_0.as_str())
        .concat("u + x;\n\n                ")
        .concat(output)
        .concat(".data[index] = tmpMat_")
        .concat(input)
        .concat("[0u];\n                ")
        .concat(output)
        .concat(".data[index + ")
        .concat(len_0_div_4.as_str())
        .concat("u] = tmpMat_")
        .concat(input)
        .concat("[1u];\n                ")
        .concat(output)
        .concat(".data[index + 2u * ")
        .concat(len_0_div_4.as_str())
        .concat("u] = tmpMat_")
        .concat(input)
        .concat("[2u];\n                ")
        .concat(output)
        .concat(".data[index + 3u * ")
        .concat(len_0_div_4.as_str())
        .concat("u] = tmpMat_")
        .concat(input)
        .concat("[3u];\n                ")
}

} // verus!
