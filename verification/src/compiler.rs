//! Shader generation for the nodes of a graph.
pub mod laws;
mod names;
pub mod shader;

use vstd::hash_map::StringHashMap;
use vstd::prelude::*;
use crate::arith::{checked_product, in_i64, product, quotient};
use crate::compiler::laws::law_a_thread_for_each_element;
use crate::onnx::{views, NodeProto, NodeView};
use crate::text::{same_text, utf8, utf8_text};
use self::shader::{
    call_text, celu_text, conv_text, elu_text, infix_text, matmul_text, quarter, relu_text,
    sigmoid_text, softplus_text, softsign_text, transpose_text, write_call, write_celu, write_conv,
    write_elu, write_infix, write_matmul, write_relu, write_sigmoid, write_softplus,
    write_softsign, write_transpose, Convolution, ConvolutionView,
};

verus! {

/// What is known of a value when the shaders are written.
#[derive(Debug, PartialEq, Eq)]
pub struct InnerInfo {
    pub dims: Vec<i64>,
}

impl View for InnerInfo {
    type V = Seq<i64>;

    open spec fn view(&self) -> Seq<i64> {
        self.dims@
    }
}

/// The dimensions of the values, by name.
pub open spec fn known_dims(infos: Map<Seq<char>, InnerInfo>) -> Map<Seq<char>, Seq<i64>> {
    infos.map_values(|info: InnerInfo| info@)
}

/// The dimensions of the value that is named at a position.
pub open spec fn dims_at(
    names: Seq<Seq<char>>,
    position: int,
    dims: Map<Seq<char>, Seq<i64>>,
) -> Option<Seq<i64>> {
    if position < names.len() && dims.contains_key(names[position]) {
        Some(dims[names[position]])
    } else {
        None
    }
}

/// A number of threads: the low 32 bits of the count.
pub open spec fn threads(count: int) -> int {
    count % 0x1_0000_0000
}

/// The function of the shading language by which a unary operator is computed.
pub open spec fn function_name(op_type: Seq<char>) -> Option<Seq<char>> {
    if op_type == "Abs"@ {
        Some("abs"@)
    } else if op_type == "Acos"@ {
        Some("acos"@)
    } else if op_type == "Asin"@ {
        Some("asin"@)
    } else if op_type == "Atan"@ {
        Some("atan"@)
    } else if op_type == "Ceil"@ {
        Some("ceil"@)
    } else if op_type == "Cos"@ {
        Some("cos"@)
    } else if op_type == "Cosh"@ {
        Some("cosh"@)
    } else if op_type == "Exp"@ {
        Some("exp"@)
    } else if op_type == "Floor"@ {
        Some("floor"@)
    } else if op_type == "Log"@ {
        Some("log"@)
    } else if op_type == "Round"@ {
        Some("round"@)
    } else if op_type == "Sign"@ {
        Some("sign"@)
    } else if op_type == "Sin"@ {
        Some("sin"@)
    } else if op_type == "Sinh"@ {
        Some("sinh"@)
    } else if op_type == "Sqrt"@ {
        Some("sqrt"@)
    } else if op_type == "Tan"@ {
        Some("tan"@)
    } else if op_type == "Tanh"@ {
        Some("tanh"@)
    } else {
        None
    }
}

fn find_function_name(op_type: &str) -> (name: Option<&'static str>)
    ensures
        match name {
            Some(name) => function_name(op_type@) == Some(name@),
            None => function_name(op_type@) is None,
        },
{
    if same_text(op_type, "Abs") {
        Some("abs")
    } else if same_text(op_type, "Acos") {
        Some("acos")
    } else if same_text(op_type, "Asin") {
        Some("asin")
    } else if same_text(op_type, "Atan") {
        Some("atan")
    } else if same_text(op_type, "Ceil") {
        Some("ceil")
    } else if same_text(op_type, "Cos") {
        Some("cos")
    } else if same_text(op_type, "Cosh") {
        Some("cosh")
    } else if same_text(op_type, "Exp") {
        Some("exp")
    } else if same_text(op_type, "Floor") {
        Some("floor")
    } else if same_text(op_type, "Log") {
        Some("log")
    } else if same_text(op_type, "Round") {
        Some("round")
    } else if same_text(op_type, "Sign") {
        Some("sign")
    } else if same_text(op_type, "Sin") {
        Some("sin")
    } else if same_text(op_type, "Sinh") {
        Some("sinh")
    } else if same_text(op_type, "Sqrt") {
        Some("sqrt")
    } else if same_text(op_type, "Tan") {
        Some("tan")
    } else if same_text(op_type, "Tanh") {
        Some("tanh")
    } else {
        None
    }
}

/// The symbol of the shading language by which a binary operator is computed.
pub open spec fn operator_symbol(op_type: Seq<char>) -> Option<Seq<char>> {
    if op_type == "Add"@ {
        Some("+"@)
    } else if op_type == "And"@ {
        Some("&"@)
    } else if op_type == "Div"@ {
        Some("/"@)
    } else if op_type == "Equal"@ {
        Some("=="@)
    } else if op_type == "Greater"@ {
        Some(">"@)
    } else if op_type == "GreaterOrEqual"@ {
        Some(">="@)
    } else if op_type == "Less"@ {
        Some("<"@)
    } else if op_type == "LessOrEqual"@ {
        Some("<="@)
    } else if op_type == "Mod"@ {
        Some("%"@)
    } else if op_type == "Mul"@ {
        Some("*"@)
    } else if op_type == "Or"@ {
        Some("|"@)
    } else if op_type == "Sub"@ {
        Some("-"@)
    } else {
        None
    }
}

fn find_operator_symbol(op_type: &str) -> (symbol: Option<&'static str>)
    ensures
        match symbol {
            Some(symbol) => operator_symbol(op_type@) == Some(symbol@),
            None => operator_symbol(op_type@) is None,
        },
{
    if same_text(op_type, "Add") {
        Some("+")
    } else if same_text(op_type, "And") {
        Some("&")
    } else if same_text(op_type, "Div") {
        Some("/")
    } else if same_text(op_type, "Equal") {
        Some("==")
    } else if same_text(op_type, "Greater") {
        Some(">")
    } else if same_text(op_type, "GreaterOrEqual") {
        Some(">=")
    } else if same_text(op_type, "Less") {
        Some("<")
    } else if same_text(op_type, "LessOrEqual") {
        Some("<=")
    } else if same_text(op_type, "Mod") {
        Some("%")
    } else if same_text(op_type, "Mul") {
        Some("*")
    } else if same_text(op_type, "Or") {
        Some("|")
    } else if same_text(op_type, "Sub") {
        Some("-")
    } else {
        None
    }
}

/// How the attribute `alpha` is written; without one, it is 1.
pub open spec fn alpha(node: NodeView) -> Seq<char> {
    match node.find("alpha"@) {
        Some(attribute) => attribute.f.text,
        None => "1"@,
    }
}

/// The shader of an activation function.
pub open spec fn activation(node: NodeView) -> Option<Seq<char>> {
    let input = node.input[0];
    let output = node.output[0];
    if node.op_type == "Celu"@ {
        Some(celu_text(input, alpha(node), output))
    } else if node.op_type == "Elu"@ {
        Some(elu_text(input, alpha(node), output))
    } else if node.op_type == "Relu"@ {
        Some(relu_text(input, output))
    } else if node.op_type == "Sigmoid"@ {
        Some(sigmoid_text(input, output))
    } else if node.op_type == "Softsign"@ {
        Some(softsign_text(input, output))
    } else if node.op_type == "Softplus"@ {
        Some(softplus_text(input, output))
    } else {
        None
    }
}

fn write_activation(node: &NodeProto) -> (text: Option<String>)
    requires
        node@.input.len() > 0,
        node@.output.len() > 0,
    ensures
        match text {
            Some(text) => activation(node@) == Some(text@),
            None => activation(node@) is None,
        },
{
    let op_type = node.op_type.as_str();
    let input = node.input[0].as_str();
    let output = node.output[0].as_str();
    let alpha: &str = match node.find_attribute("alpha") {
        Some(attribute) => attribute.f.text.as_str(),
        None => "1",
    };
    if same_text(op_type, "Celu") {
        Some(write_celu(input, alpha, output))
    } else if same_text(op_type, "Elu") {
        Some(write_elu(input, alpha, output))
    } else if same_text(op_type, "Relu") {
        Some(write_relu(input, output))
    } else if same_text(op_type, "Sigmoid") {
        Some(write_sigmoid(input, output))
    } else if same_text(op_type, "Softsign") {
        Some(write_softsign(input, output))
    } else if same_text(op_type, "Softplus") {
        Some(write_softplus(input, output))
    } else {
        None
    }
}

/// The shader of an operator that works element by element. A binary operator needs a second
/// input.
pub open spec fn pointwise(node: NodeView) -> Option<Seq<char>> {
    match function_name(node.op_type) {
        Some(name) => Some(call_text(name, node.input[0], node.output[0])),
        None => match operator_symbol(node.op_type) {
            Some(symbol) => if node.input.len() > 1 {
                Some(infix_text(symbol, node.input[0], node.input[1], node.output[0]))
            } else {
                None
            },
            None => activation(node),
        },
    }
}

fn write_pointwise(node: &NodeProto) -> (text: Option<String>)
    requires
        node@.input.len() > 0,
        node@.output.len() > 0,
    ensures
        match text {
            Some(text) => pointwise(node@) == Some(text@),
            None => pointwise(node@) is None,
        },
{
    let op_type = node.op_type.as_str();
    let output = node.output[0].as_str();
    if let Some(name) = find_function_name(op_type) {
        return Some(write_call(name, node.input[0].as_str(), output));
    }
    if let Some(symbol) = find_operator_symbol(op_type) {
        if node.input.len() < 2 {
            return None;
        }
        return Some(write_infix(symbol, node.input[0].as_str(), node.input[1].as_str(), output));
    }
    write_activation(node)
}

/// Whether a way of padding is one that a convolution may ask for.
pub open spec fn known_padding(node: NodeView) -> bool {
    match node.find("auto_pad"@) {
        Some(attribute) => match utf8(attribute.s) {
            Some(mode) => mode == "NOTSET"@ || mode == "SAME_UPPER"@ || mode == "SAME_LOWER"@,
            None => false,
        },
        None => true,
    }
}

fn has_known_padding(node: &NodeProto) -> (known: bool)
    ensures
        known == known_padding(node@),
{
    match node.find_attribute("auto_pad") {
        Some(attribute) => match utf8_text(&attribute.s) {
            Some(mode) => same_text(mode, "NOTSET") || same_text(mode, "SAME_UPPER")
                || same_text(mode, "SAME_LOWER"),
            None => false,
        },
        None => true,
    }
}

/// What a convolution is written from. Where an attribute is absent, windows move by one and
/// touch, and nothing is padded.
pub open spec fn convolution_of(
    node: NodeView,
    dims: Seq<i64>,
    kernel: Seq<i64>,
) -> ConvolutionView {
    ConvolutionView {
        dims,
        kernel,
        strides: node.ints_or("strides"@, seq![1i64, 1i64]),
        dilations: node.ints_or("dilations"@, seq![1i64, 1i64]),
        pads: node.ints_or("pads"@, seq![0i64, 0i64, 0i64, 0i64]),
    }
}

/// The product of three factors, where it and that of the first two are in range.
pub open spec fn volume(a: int, b: int, c: int) -> Option<int> {
    if in_i64(a * b) && in_i64(a * b * c) {
        Some(a * b * c)
    } else {
        None
    }
}

/// The shader of a convolution over the last two of four axes.
pub open spec fn convolution(node: NodeView, dims: Seq<i64>, output_dims: Seq<i64>) -> Option<
    (Seq<char>, int),
> {
    match node.find("kernel_shape"@) {
        None => None,
        Some(kernel_shape) => {
            let window = convolution_of(node, dims, kernel_shape.ints);
            if !known_padding(node) || node.input.len() < 2 || !window.writable()
                || output_dims.len() < 4 {
                None
            } else {
                match volume(
                    output_dims[1] as int,
                    output_dims[2] as int,
                    output_dims[3] as int,
                ) {
                    None => None,
                    Some(size) => Some(
                        (
                            conv_text(node.input[0], node.input[1], node.output[0], window),
                            threads(quotient(size, 4)),
                        ),
                    ),
                }
            }
        },
    }
}

fn checked_volume(a: i64, b: i64, c: i64) -> (size: Option<i64>)
    ensures
        match size {
            Some(size) => volume(a as int, b as int, c as int) == Some(size as int),
            None => volume(a as int, b as int, c as int) is None,
        },
{
    match a.checked_mul(b) {
        Some(area) => area.checked_mul(c),
        None => None,
    }
}

/// The low 32 bits of a count.
fn thread_count(count: i64) -> (low: u32)
    ensures
        low == threads(count as int),
{
    let wide: u64 =
        #[verifier::truncate]
        (count as u64);
    proof {
        assert(count >= 0 ==> count as u64 == count) by (bit_vector);
        assert(count < 0 ==> count as u64 == count + 0x1_0000_0000_0000_0000) by (bit_vector);
        assert(wide % 0x1_0000_0000 == threads(count as int)) by {
            if count < 0 {
                vstd::arithmetic::div_mod::lemma_mod_multiples_vanish(
                    0x1_0000_0000,
                    count as int,
                    0x1_0000_0000,
                );
            }
        }
    }
    (wide % 0x1_0000_0000) as u32
}

fn checked_window(window: &Convolution) -> (writable: bool)
    ensures
        writable == window@.writable(),
{
    if window.dims.len() != 4 || window.kernel.len() < 2 || window.strides.len() < 2
        || window.dilations.len() < 2 || window.pads.len() < 2 {
        return false;
    }
    checked_volume(window.dims[1], window.dims[2], window.dims[3]).is_some()
        && window.dims[2].checked_mul(window.dims[3]).is_some()
        && window.kernel[0].checked_mul(window.kernel[1]).is_some()
}

fn write_convolution(node: &NodeProto, dims: &Vec<i64>, output_dims: &Vec<i64>) -> (written:
    Option<(String, u32)>)
    requires
        node@.input.len() > 0,
        node@.output.len() > 0,
    ensures
        match written {
            Some((text, count)) => convolution(node@, dims@, output_dims@) == Some(
                (text@, count as int),
            ),
            None => convolution(node@, dims@, output_dims@) is None,
        },
{
    let kernel: Vec<i64> = match node.find_attribute("kernel_shape") {
        Some(attribute) => attribute.ints.clone(),
        None => {
            return None;
        },
    };
    let window = Convolution {
        dims: dims.clone(),
        kernel,
        strides: node.ints_or("strides", vec![1i64, 1i64]),
        dilations: node.ints_or("dilations", vec![1i64, 1i64]),
        pads: node.ints_or("pads", vec![0i64, 0i64, 0i64, 0i64]),
    };
    assert(window@ =~= convolution_of(
        node@,
        dims@,
        node@.find("kernel_shape"@).unwrap().ints,
    ));
    if !has_known_padding(node) || node.input.len() < 2 || !checked_window(&window)
        || output_dims.len() < 4 {
        return None;
    }
    match checked_volume(output_dims[1], output_dims[2], output_dims[3]) {
        None => None,
        Some(size) => Some(
            (
                write_conv(
                    node.input[0].as_str(),
                    node.input[1].as_str(),
                    node.output[0].as_str(),
                    &window,
                ),
                thread_count(quarter(size)),
            ),
        ),
    }
}

/// The shader of a matrix product. One thread computes four rows and four columns.
pub open spec fn matrix_product(node: NodeView, dims: Map<Seq<char>, Seq<i64>>) -> Option<
    (Seq<char>, int),
> {
    match (dims_at(node.input, 0, dims), dims_at(node.input, 1, dims)) {
        (Some(left), Some(right)) => if left.len() < 2 || right.len() < 2 || !in_i64(
            quotient(left[0] as int, 4) * right[1],
        ) {
            None
        } else {
            Some(
                (
                    matmul_text(
                        node.input[0],
                        node.input[1],
                        node.output[0],
                        left[1] as int,
                        right[1] as int,
                    ),
                    threads(quotient(quotient(left[0] as int, 4) * right[1], 4)),
                ),
            )
        },
        _ => None,
    }
}

/// The dimensions of the value that is named at a position.
fn find_dims<'a>(
    names: &Vec<String>,
    position: usize,
    infos: &'a StringHashMap<InnerInfo>,
) -> (found: Option<&'a Vec<i64>>)
    ensures
        match found {
            Some(dims) => dims_at(views(names@), position as int, known_dims(infos@)) == Some(
                dims@,
            ),
            None => dims_at(views(names@), position as int, known_dims(infos@)) is None,
        },
{
    if position >= names.len() {
        return None;
    }
    match infos.get(names[position].as_str()) {
        Some(info) => Some(&info.dims),
        None => None,
    }
}

fn write_matrix_product(node: &NodeProto, infos: &StringHashMap<InnerInfo>) -> (written: Option<
    (String, u32),
>)
    requires
        node@.input.len() > 0,
        node@.output.len() > 0,
    ensures
        match written {
            Some((text, count)) => matrix_product(node@, known_dims(infos@)) == Some(
                (text@, count as int),
            ),
            None => matrix_product(node@, known_dims(infos@)) is None,
        },
{
    match (find_dims(&node.input, 0, infos), find_dims(&node.input, 1, infos)) {
        (Some(left), Some(right)) => {
            if left.len() < 2 || right.len() < 2 {
                return None;
            }
            match quarter(left[0]).checked_mul(right[1]) {
                None => None,
                Some(cells) => Some(
                    (
                        write_matmul(
                            node.input[0].as_str(),
                            node.input[1].as_str(),
                            node.output[0].as_str(),
                            left[1],
                            right[1],
                        ),
                        thread_count(quarter(cells)),
                    ),
                ),
            }
        },
        _ => None,
    }
}

/// The shader of a transposition. The attribute `perm` has to be there, whatever it holds.
pub open spec fn transposition(node: NodeView, dims: Seq<i64>, length: int) -> Option<
    (Seq<char>, int),
> {
    if dims.len() < 2 || node.find("perm"@) is None {
        None
    } else {
        Some(
            (
                transpose_text(
                    node.input[0],
                    node.output[0],
                    dims[0] as int,
                    quotient(dims[1] as int, 4),
                ),
                threads(quotient(length, 4)),
            ),
        )
    }
}

fn write_transposition(node: &NodeProto, dims: &Vec<i64>, length: i64) -> (written: Option<
    (String, u32),
>)
    requires
        node@.input.len() > 0,
        node@.output.len() > 0,
    ensures
        match written {
            Some((text, count)) => transposition(node@, dims@, length as int) == Some(
                (text@, count as int),
            ),
            None => transposition(node@, dims@, length as int) is None,
        },
{
    if dims.len() < 2 || !node.has_attribute("perm") {
        return None;
    }
    Some(
        (
            write_transpose(
                node.input[0].as_str(),
                node.output[0].as_str(),
                dims[0],
                quarter(dims[1]),
            ),
            thread_count(quarter(length)),
        ),
    )
}

/// The shader of a node and its number of threads. `None` where there is none: the operator is
/// not supported, or what it needs to know is not known or out of range.
pub open spec fn formatted(node: NodeView, dims: Map<Seq<char>, Seq<i64>>) -> Option<
    (Seq<char>, int),
> {
    match (dims_at(node.input, 0, dims), dims_at(node.output, 0, dims)) {
        (Some(input_dims), Some(output_dims)) => match product(input_dims) {
            None => None,
            Some(length) => if node.op_type == "Conv"@ {
                convolution(node, input_dims, output_dims)
            } else if node.op_type == "Gemm"@ || node.op_type == "MatMul"@ {
                matrix_product(node, dims)
            } else if node.op_type == "Transpose"@ {
                transposition(node, input_dims, length as int)
            } else {
                match pointwise(node) {
                    Some(text) => Some((text, threads(length as int))),
                    None => None,
                }
            },
        },
        _ => None,
    }
}

fn write_node(node: &NodeProto, infos: &StringHashMap<InnerInfo>) -> (written: Option<
    (String, u32),
>)
    ensures
        match written {
            Some((text, count)) => formatted(node@, known_dims(infos@)) == Some(
                (text@, count as int),
            ),
            None => formatted(node@, known_dims(infos@)) is None,
        },
{
    let op_type = node.op_type.as_str();
    match (find_dims(&node.input, 0, infos), find_dims(&node.output, 0, infos)) {
        (Some(input_dims), Some(output_dims)) => match checked_product(input_dims.as_slice()) {
            None => None,
            Some(length) => {
                if same_text(op_type, "Conv") {
                    write_convolution(node, input_dims, output_dims)
                } else if same_text(op_type, "Gemm") || same_text(op_type, "MatMul") {
                    write_matrix_product(node, infos)
                } else if same_text(op_type, "Transpose") {
                    write_transposition(node, input_dims, length)
                } else {
                    match write_pointwise(node) {
                        Some(text) => Some((text, thread_count(length))),
                        None => None,
                    }
                }
            },
        },
        _ => None,
    }
}

/// The shader of a node, and the numbers of threads along the three axes; nothing where the node
/// has no shader.
pub fn checked_format_node(node: &NodeProto, inner_infos: &StringHashMap<InnerInfo>) -> (shader:
    Option<(String, u32, u32, u32)>)
    ensures
        match shader {
            Some((text, x, y, z)) => formatted(node@, known_dims(inner_infos@)) == Some(
                (text@, x as int),
            ) && y == 1 && z == 1,
            None => formatted(node@, known_dims(inner_infos@)) is None,
        },
        (shader is Some && node@.op_type != "Conv"@ && node@.op_type != "Gemm"@ && node@.op_type
            != "MatMul"@ && node@.op_type != "Transpose"@) ==> {
            &&& node.input@.len() > 0
            &&& inner_infos@.contains_key(node.input@[0]@)
            &&& shader.unwrap().1 == inner_infos@[node.input@[0]@].dims@.fold_left(
                1int,
                |before: int, size: i64| before * size,
            ) % 0x1_0000_0000
        },
{
    proof {
        let dims = known_dims(inner_infos@);
        if node@.op_type != "Conv"@ && node@.op_type != "Gemm"@ && node@.op_type != "MatMul"@
            && node@.op_type != "Transpose"@ && formatted(node@, dims) is Some {
            law_a_thread_for_each_element(node@, dims);
        }
    }
    match write_node(node, inner_infos) {
        Some((text, x)) => Some((text, x, 1, 1)),
        None => None,
    }
}

/// The shader of a node, and the numbers of threads along the three axes.
pub fn format_node(node: &NodeProto, inner_infos: &StringHashMap<InnerInfo>) -> (shader: (
    String,
    u32,
    u32,
    u32,
))
    requires
        formatted(node@, known_dims(inner_infos@)) is Some,
    ensures
        formatted(node@, known_dims(inner_infos@)) == Some((shader.0@, shader.1 as int)),
        shader.2 == 1,
        shader.3 == 1,
        (node@.op_type != "Conv"@ && node@.op_type != "Gemm"@ && node@.op_type
            != "MatMul"@ && node@.op_type != "Transpose"@) ==> {
            &&& node.input@.len() > 0
            &&& inner_infos@.contains_key(node.input@[0]@)
            &&& shader.1 == inner_infos@[node.input@[0]@].dims@.fold_left(
                1int,
                |before: int, size: i64| before * size,
            ) % 0x1_0000_0000
        },
{
    checked_format_node(node, inner_infos).unwrap()
}

/// `Gemm` has the shader of `MatMul`: its attributes play no part.
pub proof fn law_gemm_is_matmul(node: NodeView, dims: Map<Seq<char>, Seq<i64>>)
    ensures
        formatted(NodeView { op_type: "Gemm"@, ..node }, dims) == formatted(
            NodeView { op_type: "MatMul"@, ..node },
            dims,
        ),
        formatted(NodeView { op_type: "Gemm"@, ..node }, dims) == formatted(
            NodeView { op_type: "Gemm"@, attribute: Seq::empty(), ..node },
            dims,
        ),
{
    reveal_strlit("Conv");
    reveal_strlit("Gemm");
    reveal_strlit("MatMul");
    assert("Gemm"@[0] != "Conv"@[0]);
    assert("MatMul"@[0] != "Conv"@[0]);
}

/// A transposition does not ask what the attribute `perm` holds.
pub proof fn law_transposition_ignores_the_order(
    node: NodeView,
    other: NodeView,
    dims: Seq<i64>,
    length: int,
)
    requires
        node.input == other.input,
        node.output == other.output,
        node.find("perm"@) is Some,
        other.find("perm"@) is Some,
    ensures
        transposition(node, dims, length) == transposition(other, dims, length),
{
}

/// A table of sizes shows each of them under its name.
pub proof fn law_known_dims_show_all(infos: Map<Seq<char>, InnerInfo>, name: Seq<char>)
    ensures
        known_dims(infos).contains_key(name) == infos.contains_key(name),
        infos.contains_key(name) ==> known_dims(infos)[name] == infos[name].dims@,
{
}

} // verus!
