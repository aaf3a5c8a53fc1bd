use wonnx_graph::compiler::{checked_format_node, format_node, InnerInfo};
use wonnx_graph::onnx::{AttributeProto, Float, NodeProto};
use wonnx_graph::StringHashMap;

fn node(op_type: &str, input: &[&str], output: &[&str]) -> NodeProto {
    NodeProto {
        name: "n".to_string(),
        op_type: op_type.to_string(),
        input: input.iter().map(|x| x.to_string()).collect(),
        output: output.iter().map(|x| x.to_string()).collect(),
        attribute: vec![],
    }
}

fn integers(name: &str, ints: &[i64]) -> AttributeProto {
    let mut attribute = AttributeProto::new(name.to_string());
    attribute.ints = ints.to_vec();
    attribute
}

fn bytes(name: &str, s: &[u8]) -> AttributeProto {
    let mut attribute = AttributeProto::new(name.to_string());
    attribute.s = s.to_vec();
    attribute
}

fn number(name: &str, text: &str, value: f32) -> AttributeProto {
    let mut attribute = AttributeProto::new(name.to_string());
    attribute.f = Float { bits: value.to_bits(), text: text.to_string() };
    attribute
}

fn infos(dims: &[(&str, &[i64])]) -> StringHashMap<InnerInfo> {
    let mut infos = StringHashMap::new();
    for (name, dims) in dims {
        infos.insert(name.to_string(), InnerInfo { dims: dims.to_vec() });
    }
    infos
}

fn format(node: &NodeProto, dims: &[(&str, &[i64])]) -> Option<(String, u32, u32, u32)> {
    checked_format_node(node, &infos(dims))
}

#[test]
fn unary_functions_are_called_by_their_lower_case_names() {
    let names = [
        ("Abs", "abs"),
        ("Acos", "acos"),
        ("Asin", "asin"),
        ("Atan", "atan"),
        ("Ceil", "ceil"),
        ("Cos", "cos"),
        ("Cosh", "cosh"),
        ("Exp", "exp"),
        ("Floor", "floor"),
        ("Log", "log"),
        ("Round", "round"),
        ("Sign", "sign"),
        ("Sin", "sin"),
        ("Sinh", "sinh"),
        ("Sqrt", "sqrt"),
        ("Tan", "tan"),
        ("Tanh", "tanh"),
    ];
    for (op_type, name) in names {
        let node = node(op_type, &["x"], &["y"]);
        let text = format!("let gidx = global_id.x;y.data[gidx] = {name}(x.data[gidx]);");
        assert_eq!(format(&node, &[("x", &[2, 3]), ("y", &[2, 3])]), Some((text, 6, 1, 1)));
    }
}

#[test]
fn binary_operators_are_written_between_their_inputs() {
    let symbols = [
        ("Add", "+"),
        ("And", "&"),
        ("Div", "/"),
        ("Equal", "=="),
        ("Greater", ">"),
        ("GreaterOrEqual", ">="),
        ("Less", "<"),
        ("LessOrEqual", "<="),
        ("Mod", "%"),
        ("Mul", "*"),
        ("Or", "|"),
        ("Sub", "-"),
    ];
    for (op_type, symbol) in symbols {
        let node = node(op_type, &["a", "b"], &["c"]);
        let text = format!(
            "let gidx = global_id.x;c.data[gidx] = a.data[gidx] {symbol} b.data[gidx];"
        );
        assert_eq!(format(&node, &[("a", &[4, 5]), ("c", &[4, 5])]), Some((text, 20, 1, 1)));
    }
}

#[test]
fn binary_operators_need_a_second_input() {
    let node = node("Add", &["a"], &["c"]);
    assert_eq!(format(&node, &[("a", &[4]), ("c", &[4])]), None);
}

#[test]
fn relu_is_written_element_by_element() {
    let node = node("Relu", &["in0"], &["out0"]);
    let text = [
        "let gidx = global_id.x;out0.data[gidx] = max(in0.data[gidx], vec4<f32>(0.0, 0.0, 0.0, 0.0));",
    ]
    .concat();
    assert_eq!(format(&node, &[("in0", &[1, 8]), ("out0", &[1, 8])]), Some((text, 8, 1, 1)));
}

#[test]
fn sigmoid_is_written_element_by_element() {
    let node = node("Sigmoid", &["in0"], &["out0"]);
    let text = [
        "let gidx = global_id.x;out0.data[gidx] = vec4<f32>(1.0, 1.0, 1.0, 1.0) / (vec4<f32>(1.0, 1.0, 1.0, 1.0) + exp(-in0.data[gidx]));",
    ]
    .concat();
    assert_eq!(format(&node, &[("in0", &[1, 8]), ("out0", &[1, 8])]), Some((text, 8, 1, 1)));
}

#[test]
fn softsign_is_written_element_by_element() {
    let node = node("Softsign", &["in0"], &["out0"]);
    let text = [
        "let gidx = global_id.x;out0.data[gidx] = in0.data[gidx] / (vec4<f32>(1.0, 1.0, 1.0, 1.0) + abs(in0.data[gidx]));",
    ]
    .concat();
    assert_eq!(format(&node, &[("in0", &[1, 8]), ("out0", &[1, 8])]), Some((text, 8, 1, 1)));
}

#[test]
fn softplus_is_written_element_by_element() {
    let node = node("Softplus", &["in0"], &["out0"]);
    let text = [
        "let gidx = global_id.x;out0.data[gidx] = log(vec4<f32>(1.0, 1.0, 1.0, 1.0) + exp(in0.data[gidx]));",
    ]
    .concat();
    assert_eq!(format(&node, &[("in0", &[1, 8]), ("out0", &[1, 8])]), Some((text, 8, 1, 1)));
}

#[test]
fn celu_writes_its_alpha() {
    let mut node = node("Celu", &["in0"], &["out0"]);
    node.attribute.push(number("alpha", "0.5", 0.5f32));
    let text = [
        "let gidx = global_id.x;out0.data[gidx] = max(vec4<f32>(0.0, 0.0, 0.0, 0.0), in0.data[gidx]) + min(\n",
        "                        vec4<f32>(0.0, 0.0, 0.0, 0.0), \n",
        "                        0.5 * (exp(in0.data[gidx] / 0.5 ) - vec4<f32>(1.0, 1.0, 1.0, 1.0) ));",
    ]
    .concat();
    assert_eq!(format(&node, &[("in0", &[3]), ("out0", &[3])]), Some((text, 3, 1, 1)));
}

#[test]
fn elu_writes_one_without_alpha() {
    let node = node("Elu", &["in0"], &["out0"]);
    let text = [
        "let gidx = global_id.x;\n",
        "        let tmp_vec = vec4<f32>(0.0, 0.0, 0.0, 0.0);\n",
        "        let input_vec = in0.data[gidx]; \n",
        "        for(var index_vec: u32 = 0u; index_vec < 4u; index_vec = index_vec + 1u) {\n",
        "            if (input_vec[index_vec] < 0.0) {\n",
        "\t            tmp_vec[index_vec] = 1 * (exp(input_vec[index_vec]) - 1.0);\n",
        "            } else {  \n",
        "\t            tmp_vec[index_vec] = input_vec[index_vec];\n",
        "            }\n",
        "\t    }\n",
        "        out0.data[gidx] = tmp_vec;\n",
        "                    ",
    ]
    .concat();
    assert_eq!(format(&node, &[("in0", &[3]), ("out0", &[3])]), Some((text, 3, 1, 1)));
}

#[test]
fn conv_writes_its_attributes() {
    let mut node = node("Conv", &["x", "w"], &["y"]);
    node.attribute.push(integers("kernel_shape", &[3, 5]));
    node.attribute.push(integers("strides", &[2, 4]));
    node.attribute.push(integers("dilations", &[6, 7]));
    node.attribute.push(integers("pads", &[8, 9, 10, 11]));
    node.attribute.push(bytes("auto_pad", b"SAME_UPPER"));
    let text = [
        "\n",
        "\t            let m = global_id.x / 1680;\n",
        "                let index = global_id.x % 1680;\n",
        "                let c = index / 840;\n",
        "                let rest = rest % 840;\n",
        "                let y = rest / 30;\n",
        "                let x = rest % 30;\n",
        "\n",
        "                let mut output_vec = vec4<f32>(0.0, 0.0, 0.0, 0.0);\n",
        "                \n",
        "                y = y - 8u;\n",
        "                x = x - 9u;\n",
        "                index = index - 8u * 30u - 9u;\n",
        "\n",
        "                let mut tmp_result = 0.0;\n",
        "                \n",
        "                for(var i: u32 = 0u; i < 3u; i = i + 2u) {\n",
        "                    for(var j: u32 = 0u; j < 5u; j = j + 4u) {\n",
        "\n",
        "                        let index = (index + i * 6u * 30u + j * 7u);\n",
        "                        \n",
        "                        if ((index_h < 28u) && (index_w < 30u) && (y >= 0) && (x >= 0)) {\n",
        "                            let index_div_4 = index / 4u;\n",
        "                            let index_rest_4 = index % 4u;\n",
        "\n",
        "                            output_vec[i] = output_vec[i] + x.data[index_div_4][index_rest_4] * w.data[m * 15 + i * 5u + j];\n",
        "                        }\n",
        "                    }\n",
        "                }\n",
        "\n",
        "                y.data[global_id.x] = output_vec[0];\n",
        "                ",
    ]
    .concat();
    let infos: [(&str, &[i64]); 2] = [("x", &[1, 2, 28, 30]), ("y", &[1, 8, 13, 6])];
    assert_eq!(format(&node, &infos), Some((text, 156, 1, 1)));
}

#[test]
fn conv_has_defaults() {
    let mut node = node("Conv", &["x", "w"], &["y"]);
    node.attribute.push(integers("kernel_shape", &[3, 3]));
    let text = [
        "\n",
        "\t            let m = global_id.x / 48;\n",
        "                let index = global_id.x % 48;\n",
        "                let c = index / 16;\n",
        "                let rest = rest % 16;\n",
        "                let y = rest / 4;\n",
        "                let x = rest % 4;\n",
        "\n",
        "                let mut output_vec = vec4<f32>(0.0, 0.0, 0.0, 0.0);\n",
        "                \n",
        "                y = y - 0u;\n",
        "                x = x - 0u;\n",
        "                index = index - 0u * 4u - 0u;\n",
        "\n",
        "                let mut tmp_result = 0.0;\n",
        "                \n",
        "                for(var i: u32 = 0u; i < 3u; i = i + 1u) {\n",
        "                    for(var j: u32 = 0u; j < 3u; j = j + 1u) {\n",
        "\n",
        "                        let index = (index + i * 1u * 4u + j * 1u);\n",
        "                        \n",
        "                        if ((index_h < 4u) && (index_w < 4u) && (y >= 0) && (x >= 0)) {\n",
        "                            let index_div_4 = index / 4u;\n",
        "                            let index_rest_4 = index % 4u;\n",
        "\n",
        "                            output_vec[i] = output_vec[i] + x.data[index_div_4][index_rest_4] * w.data[m * 9 + i * 3u + j];\n",
        "                        }\n",
        "                    }\n",
        "                }\n",
        "\n",
        "                y.data[global_id.x] = output_vec[0];\n",
        "                ",
    ]
    .concat();
    let infos: [(&str, &[i64]); 2] = [("x", &[1, 3, 4, 4]), ("y", &[1, 2, 2, 2])];
    assert_eq!(format(&node, &infos), Some((text, 2, 1, 1)));
}

#[test]
fn matmul_takes_four_rows_and_columns_at_a_time() {
    let node = node("MatMul", &["a", "b"], &["c"]);
    let text = [
        "\n",
        "    let y = global_id.x % 3u;\n",
        "    let x = global_id.x / 3u;\n",
        "    let index = x * 12u + y;\n",
        "\n",
        "    var tmpsum = mat4x4<f32>(vec4<f32>(0.0, 0.0, 0.0, 0.0), vec4<f32>(0.0, 0.0, 0.0, 0.0), vec4<f32>(0.0, 0.0, 0.0, 0.0), vec4<f32>(0.0, 0.0, 0.0, 0.0));\n",
        "    var product = mat4x4<f32>(vec4<f32>(0.0, 0.0, 0.0, 0.0), vec4<f32>(0.0, 0.0, 0.0, 0.0), vec4<f32>(0.0, 0.0, 0.0, 0.0), vec4<f32>(0.0, 0.0, 0.0, 0.0));\n",
        "\n",
        "    for(var k: u32 = 0u; k < 2u; k = k + 1u) {\n",
        "        let index_left = x * 8u + k; \n",
        "        let index_right = k * 8u + y; \n",
        "\n",
        "        let mat_left = mat4x4<f32>(\n",
        "                              a.data[index_left], \n",
        "                              a.data[index_left + 2u],\n",
        "                              a.data[index_left + 2u * 2u],\n",
        "                              a.data[index_left + 3u * 2u],\n",
        "                          );\n",
        "          \n",
        "        let mat_right = mat4x4<f32>(\n",
        "                              b.data[index_right], \n",
        "                              b.data[index_right + 3u],\n",
        "                              b.data[index_right + 2u * 3u],\n",
        "                              b.data[index_right + 3u * 3u],\n",
        "                          );\n",
        "\t\n",
        "        product = mat_right * mat_left;\n",
        "\t\n",
        "        for(var index_mat: u32 = 0u; index_mat < 4u; index_mat = index_mat + 1u) {\n",
        "\t        tmpsum[index_mat] = tmpsum[index_mat] + product[index_mat];\n",
        "\t    }\n",
        "    }\n",
        "\n",
        "    c.data[index] = tmpsum[0];\n",
        "    c.data[index + 3u] = tmpsum[1];\n",
        "    c.data[index + 2u * 3u] = tmpsum[2];\n",
        "    c.data[index + 3u * 3u] = tmpsum[3];\n",
        "      \n",
        "            ",
    ]
    .concat();
    let infos: [(&str, &[i64]); 3] = [("a", &[16, 8]), ("b", &[8, 12]), ("c", &[16, 12])];
    assert_eq!(format(&node, &infos), Some((text, 12, 1, 1)));
}

#[test]
fn transpose_takes_four_rows_and_columns_at_a_time() {
    let mut node = node("Transpose", &["x"], &["y"]);
    let infos: [(&str, &[i64]); 2] = [("x", &[8, 14]), ("y", &[14, 8])];
    assert_eq!(format(&node, &infos), None);
    node.attribute.push(integers("perm", &[1, 0]));
    let text = [
        "\n",
        "\n",
        "                let y = global_id.x % 3u;\n",
        "                let x = global_id.x / 3u;\n",
        "                let index = x * 12u + y; \n",
        "                \n",
        "                let tmpMat_x = transpose(mat4x4<f32>(x.data[index], \n",
        "                                    x.data[index + 3u],\n",
        "                                    x.data[index + 2u * 3u],\n",
        "                                    x.data[index + 3u * 3u],\n",
        "                                ));\n",
        "\n",
        "                let index = y * 8u + x;\n",
        "\n",
        "                y.data[index] = tmpMat_x[0u];\n",
        "                y.data[index + 2u] = tmpMat_x[1u];\n",
        "                y.data[index + 2u * 2u] = tmpMat_x[2u];\n",
        "                y.data[index + 3u * 2u] = tmpMat_x[3u];\n",
        "                ",
    ]
    .concat();
    assert_eq!(format(&node, &infos), Some((text, 28, 1, 1)));
}

#[test]
fn format_node_gives_what_the_checked_function_gives() {
    let node = node("Tanh", &["x"], &["y"]);
    let infos = infos(&[("x", &[5]), ("y", &[5])]);
    let shader = format_node(&node, &infos);
    assert_eq!(shader.0, "let gidx = global_id.x;y.data[gidx] = tanh(x.data[gidx]);");
    assert_eq!((shader.1, shader.2, shader.3), (5, 1, 1));
    assert_eq!(checked_format_node(&node, &infos), Some(shader));
}

#[test]
fn gemm_is_written_like_matmul() {
    let infos: [(&str, &[i64]); 3] = [("a", &[7, 9]), ("b", &[9, 6]), ("c", &[7, 6])];
    let mut gemm = node("Gemm", &["a", "b"], &["c"]);
    gemm.attribute.push(number("alpha", "2", 2.0f32));
    gemm.attribute.push(number("beta", "3", 3.0f32));
    let matmul = node("MatMul", &["a", "b"], &["c"]);
    assert_eq!(format(&gemm, &infos), format(&matmul, &infos));
    assert_eq!(format(&gemm, &infos).map(|shader| shader.1), Some(1));
}

#[test]
fn transpose_does_not_read_its_order() {
    let infos: [(&str, &[i64]); 2] = [("x", &[8, 8]), ("y", &[8, 8])];
    let mut one = node("Transpose", &["x"], &["y"]);
    one.attribute.push(integers("perm", &[1, 0]));
    let mut other = node("Transpose", &["x"], &["y"]);
    other.attribute.push(integers("perm", &[0, 1]));
    assert!(format(&one, &infos).is_some());
    assert_eq!(format(&one, &infos), format(&other, &infos));
}

#[test]
fn unsupported_operators_have_no_shader() {
    for op_type in ["Sum", "Softmax", "relu", ""] {
        let node = node(op_type, &["x"], &["y"]);
        assert_eq!(format(&node, &[("x", &[2]), ("y", &[2])]), None);
    }
}

#[test]
fn unknown_values_have_no_shader() {
    let relu = node("Relu", &["x"], &["y"]);
    assert_eq!(format(&relu, &[("x", &[2])]), None);
    assert_eq!(format(&relu, &[("y", &[2])]), None);
    assert_eq!(format(&node("Relu", &[], &["y"]), &[("y", &[2])]), None);
    assert_eq!(format(&node("Relu", &["x"], &[]), &[("x", &[2])]), None);
}

#[test]
fn conv_needs_its_kernel_and_a_known_padding() {
    let infos: [(&str, &[i64]); 2] = [("x", &[1, 3, 4, 4]), ("y", &[1, 2, 2, 2])];
    let mut conv = node("Conv", &["x", "w"], &["y"]);
    assert_eq!(format(&conv, &infos), None);
    conv.attribute.push(integers("kernel_shape", &[3, 3]));
    assert!(format(&conv, &infos).is_some());
    conv.attribute.push(bytes("auto_pad", b"VALID"));
    assert_eq!(format(&conv, &infos), None);
    conv.attribute[1] = bytes("auto_pad", &[0xff, 0xfe]);
    assert_eq!(format(&conv, &infos), None);
    conv.attribute[1] = bytes("auto_pad", b"SAME_LOWER");
    assert!(format(&conv, &infos).is_some());
    conv.attribute[1] = bytes("auto_pad", b"NOTSET");
    assert!(format(&conv, &infos).is_some());
    assert_eq!(format(&conv, &[("x", &[3, 4, 4]), ("y", &[1, 2, 2, 2])]), None);
}

#[test]
fn thread_counts_keep_their_low_bits() {
    let relu = node("Relu", &["x"], &["y"]);
    let count = |dims: &[i64]| format(&relu, &[("x", dims), ("y", &[1])]).map(|shader| shader.1);
    assert_eq!(count(&[]), Some(1));
    assert_eq!(count(&[0, 7]), Some(0));
    assert_eq!(count(&[0x1_0000_0000]), Some(0));
    assert_eq!(count(&[0x1_0000_0000, 3]), Some(0));
    assert_eq!(count(&[0x1_0000_0005]), Some(5));
    assert_eq!(count(&[-1]), Some(u32::MAX));
    assert_eq!(count(&[i64::MIN]), Some(0));
    assert_eq!(count(&[i64::MAX, 2]), None);
}

#[test]
fn numbers_below_zero_are_divided_towards_zero() {
    let infos: [(&str, &[i64]); 3] = [("a", &[-7, 2]), ("b", &[2, 9]), ("c", &[1, 1])];
    let matmul = node("MatMul", &["a", "b"], &["c"]);
    assert_eq!(format(&matmul, &infos).map(|shader| shader.1), Some((-2i64) as u32));
}
