use wonnx_graph::constants::{
    byte_order_of, checked_fix_raw_tensor, fix_raw_tensor, ByteOrder,
};
use wonnx_graph::dynamic::{apply_dynamic_dimensions, apply_dynamic_dimensions_value};
use wonnx_graph::error::ShapeInferenceError;
use wonnx_graph::onnx::{
    AttributeProto, Dimension, DimensionValue, GraphProto, NodeProto, TensorProto,
    TensorShapeProto, TensorTypeProto, TypeProto, TypeValue, ValueInfoProto,
};
use wonnx_graph::shape::{DataTypeError, ScalarType, Shape};
use wonnx_graph::shape_inference::{dimensions_infos, ShapeInference};
use wonnx_graph::StringHashMap;

fn node(op_type: &str, input: &[&str], output: &[&str]) -> NodeProto {
    NodeProto {
        name: format!("{op_type} node"),
        op_type: op_type.to_string(),
        input: input.iter().map(|x| x.to_string()).collect(),
        output: output.iter().map(|x| x.to_string()).collect(),
        attribute: vec![],
    }
}

fn integers(name: &str, ints: &[i64]) -> AttributeProto {
    let mut attribute = AttributeProto::new(name.to_string());
    attribute.ints = ints.to_vec();
    attribute
}

fn f32s(dims: &[i64]) -> Shape {
    Shape::from(ScalarType::F32, dims)
}

fn value(name: &str, dims: &[i64]) -> ValueInfoProto {
    ValueInfoProto::with_shape(name.to_string(), &f32s(dims))
}

fn tensor(name: &str, data_type: ScalarType, dims: &[i64]) -> TensorProto {
    let mut tensor = TensorProto::new();
    tensor.name = name.to_string();
    tensor.data_type = data_type.to_datatype();
    tensor.dims = dims.to_vec();
    tensor
}

fn list(name: &str, int64_data: &[i64]) -> TensorProto {
    let mut tensor = tensor(name, ScalarType::I64, &[int64_data.len() as i64]);
    tensor.int64_data = int64_data.to_vec();
    tensor
}

fn graph(
    node: Vec<NodeProto>,
    initializer: Vec<TensorProto>,
    input: Vec<ValueInfoProto>,
    output: Vec<ValueInfoProto>,
) -> GraphProto {
    GraphProto { node, initializer, input, output, value_info: vec![] }
}

fn shape_of(graph: &GraphProto, name: &str) -> Option<Shape> {
    dimensions_infos(graph).unwrap().get(name).cloned()
}

fn relu() -> GraphProto {
    graph(
        vec![node("Relu", &["x"], &["y"])],
        vec![],
        vec![value("x", &[1, 2, 2])],
        vec![ValueInfoProto { name: "y".to_string(), field_type: None }],
    )
}

fn digits() -> GraphProto {
    let mut conv = node("Conv", &["image", "filters"], &["conv"]);
    conv.attribute.push(integers("kernel_shape", &[5, 5]));
    conv.attribute.push(integers("strides", &[1, 1]));
    conv.attribute.push(integers("dilations", &[1, 1]));
    let mut auto_pad = AttributeProto::new("auto_pad".to_string());
    auto_pad.s = b"SAME_UPPER".to_vec();
    conv.attribute.push(auto_pad);
    let mut pool = node("MaxPool", &["relu"], &["pool"]);
    pool.attribute.push(integers("kernel_shape", &[2, 2]));
    pool.attribute.push(integers("strides", &[2, 2]));
    graph(
        vec![
            conv,
            node("Add", &["conv", "bias"], &["sum"]),
            node("Relu", &["sum"], &["relu"]),
            pool,
            node("Reshape", &["pool", "flat"], &["row"]),
            node("Unsqueeze", &["row", "first"], &["rows"]),
            node("Squeeze", &["rows", "first"], &["digits"]),
        ],
        vec![
            tensor("filters", ScalarType::F32, &[8, 1, 5, 5]),
            tensor("bias", ScalarType::F32, &[8, 1, 1]),
            list("flat", &[1, 1568]),
            list("first", &[0]),
        ],
        vec![value("image", &[1, 1, 28, 28])],
        vec![value("digits", &[1, 1568])],
    )
}

#[test]
fn relu_has_the_shape_of_its_input() {
    let mut graph = relu();
    assert_eq!(graph.infer_shapes(), Ok(()));
    assert_eq!(graph.value_info, vec![value("y", &[1, 2, 2])]);
    assert_eq!(shape_of(&graph, "y"), Some(f32s(&[1, 2, 2])));
}

#[test]
fn shapes_follow_one_another() {
    let mut graph = digits();
    assert_eq!(graph.checked_infer_shapes(), Some(Ok(())));
    assert_eq!(
        graph.value_info,
        vec![
            value("conv", &[1, 8, 28, 28]),
            value("sum", &[1, 8, 28, 28]),
            value("relu", &[1, 8, 28, 28]),
            value("pool", &[1, 8, 14, 14]),
            value("row", &[1, 1568]),
            value("rows", &[1, 1, 1568]),
        ]
    );
    let expected = digits();
    assert_eq!(graph.node, expected.node);
    assert_eq!(graph.initializer, expected.initializer);
    assert_eq!(graph.input, expected.input);
    assert_eq!(graph.output, expected.output);
}

#[test]
fn inferring_twice_is_inferring_once() {
    let mut once = digits();
    assert_eq!(once.infer_shapes(), Ok(()));
    let mut twice = digits();
    assert_eq!(twice.infer_shapes(), Ok(()));
    assert_eq!(twice.infer_shapes(), Ok(()));
    assert_eq!(once, twice);
}

#[test]
fn stripped_shapes_come_back() {
    for graph in [relu(), digits()] {
        let mut graph = graph;
        graph.infer_shapes().unwrap();
        let names = [
            "x", "y", "image", "filters", "bias", "flat", "first", "conv", "sum", "relu", "pool",
            "row", "rows", "digits",
        ];
        let infos = dimensions_infos(&graph).unwrap();
        graph.value_info.clear();
        graph.infer_shapes().unwrap();
        let new_infos = dimensions_infos(&graph).unwrap();
        for name in names {
            assert_eq!(infos.get(name), new_infos.get(name));
        }
        assert_eq!(infos.len(), new_infos.len());
    }
}

#[test]
fn recorded_shapes_are_kept() {
    let mut graph = digits();
    graph.value_info.push(value("relu", &[3, 4, 10, 11]));
    assert_eq!(graph.node.remove(4).op_type, "Reshape");
    graph.node.truncate(4);
    assert_eq!(graph.infer_shapes(), Ok(()));
    assert_eq!(
        graph.value_info,
        vec![
            value("relu", &[3, 4, 10, 11]),
            value("conv", &[1, 8, 28, 28]),
            value("sum", &[1, 8, 28, 28]),
            value("pool", &[3, 4, 5, 5]),
        ]
    );
}

#[test]
fn missing_inputs_are_named() {
    let mut graph = digits();
    graph.initializer.remove(1);
    assert_eq!(
        graph.infer_shapes(),
        Err(ShapeInferenceError::MissingInputShape("bias".to_string()))
    );
    assert_eq!(graph.value_info, vec![value("conv", &[1, 8, 28, 28])]);
}

#[test]
fn undefined_nodes_leave_the_graph() {
    let mut graph = digits();
    graph.node[3].attribute[1] = integers("strides", &[0, 1]);
    assert_eq!(graph.checked_infer_shapes(), None);
    let mut expected = digits();
    expected.node[3].attribute[1] = integers("strides", &[0, 1]);
    assert_eq!(graph, expected);
}

#[test]
fn several_shapes_go_by_rank() {
    let mut graph = relu();
    graph.output[0] = value("y", &[1]);
    graph.value_info.push(value("y", &[2]));
    graph.value_info.push(value("y", &[3]));
    assert_eq!(shape_of(&graph, "y"), Some(f32s(&[3])));
    graph.initializer.push(tensor("y", ScalarType::I32, &[4]));
    assert_eq!(shape_of(&graph, "y"), Some(Shape::from(ScalarType::I32, &[4])));
    graph.initializer[0].data_type = 0;
    assert_eq!(shape_of(&graph, "y"), Some(f32s(&[3])));
    graph.value_info.clear();
    assert_eq!(shape_of(&graph, "y"), Some(f32s(&[1])));
    assert_eq!(shape_of(&graph, "z"), None);
}

#[test]
fn raw_bytes_become_numbers() {
    let floats = [1.5f32, -2.0];
    let mut a = tensor("a", ScalarType::F32, &[2]);
    a.raw_data = Some(floats.iter().flat_map(|x| x.to_ne_bytes()).collect());
    assert_eq!(fix_raw_tensor(&mut a), Ok(()));
    assert_eq!(a.float_data, vec![1.5f32.to_bits(), (-2.0f32).to_bits()]);
    assert_eq!(a.raw_data, None);

    let mut b = tensor("b", ScalarType::I64, &[3]);
    let longs = [1i64, -2, 0x0102_0304_0506_0708];
    b.raw_data = Some(longs.iter().flat_map(|x| x.to_ne_bytes()).collect());
    assert_eq!(fix_raw_tensor(&mut b), Ok(()));
    assert_eq!(b.int64_data, longs.to_vec());

    let mut c = tensor("c", ScalarType::I32, &[2]);
    let shorts = [-5i32, 0x0102_0304];
    c.raw_data = Some(shorts.iter().flat_map(|x| x.to_ne_bytes()).collect());
    assert_eq!(fix_raw_tensor(&mut c), Ok(()));
    assert_eq!(c.int32_data, shorts.to_vec());

    let mut d = tensor("d", ScalarType::U8, &[2]);
    d.raw_data = Some(vec![7, 8]);
    assert_eq!(fix_raw_tensor(&mut d), Ok(()));
    assert_eq!(d.raw_data, Some(vec![7, 8]));
}

#[test]
fn bytes_are_read_in_either_order() {
    let mut raw = tensor("a", ScalarType::I64, &[1]);
    raw.raw_data = Some(vec![1, 2, 3, 4, 5, 6, 7, 0x88]);
    let mut little = raw.clone();
    assert_eq!(checked_fix_raw_tensor(&mut little, ByteOrder::Little), Some(Ok(())));
    assert_eq!(little.int64_data, vec![i64::from_le_bytes([1, 2, 3, 4, 5, 6, 7, 0x88])]);
    let mut big = raw.clone();
    assert_eq!(checked_fix_raw_tensor(&mut big, ByteOrder::Big), Some(Ok(())));
    assert_eq!(big.int64_data, vec![i64::from_be_bytes([1, 2, 3, 4, 5, 6, 7, 0x88])]);
    raw.data_type = ScalarType::I32.to_datatype();
    let mut big = raw.clone();
    assert_eq!(checked_fix_raw_tensor(&mut big, ByteOrder::Big), Some(Ok(())));
    assert_eq!(big.int32_data, vec![0x0102_0304, 0x0506_0788]);
    raw.data_type = ScalarType::F32.to_datatype();
    let mut little = raw.clone();
    assert_eq!(checked_fix_raw_tensor(&mut little, ByteOrder::Little), Some(Ok(())));
    assert_eq!(little.float_data, vec![0x0403_0201, 0x8807_0605]);
}

#[test]
fn byte_orders_are_told_by_a_number() {
    assert_eq!(byte_order_of(u16::from_le_bytes([1, 0])), ByteOrder::Little);
    assert_eq!(byte_order_of(u16::from_be_bytes([1, 0])), ByteOrder::Big);
}

#[test]
fn fixing_twice_is_fixing_once() {
    let mut once = tensor("a", ScalarType::I32, &[1]);
    once.raw_data = Some(vec![1, 0, 0, 0]);
    assert_eq!(checked_fix_raw_tensor(&mut once, ByteOrder::Little), Some(Ok(())));
    let mut twice = once.clone();
    assert_eq!(checked_fix_raw_tensor(&mut twice, ByteOrder::Little), Some(Ok(())));
    assert_eq!(once, twice);
}

#[test]
fn broken_bytes_are_refused() {
    let mut part = tensor("a", ScalarType::I64, &[1]);
    part.raw_data = Some(vec![1, 2, 3]);
    let before = part.clone();
    assert_eq!(checked_fix_raw_tensor(&mut part, ByteOrder::Little), None);
    assert_eq!(part, before);
    let mut double = tensor("a", ScalarType::F32, &[1]);
    double.data_type = 11;
    double.raw_data = Some(vec![0; 8]);
    assert_eq!(
        fix_raw_tensor(&mut double),
        Err(ShapeInferenceError::UnsupportedDataType(DataTypeError::NotSupported(11)))
    );
    assert_eq!(double.raw_data, None);
}

fn constant(output: &str, attribute: AttributeProto) -> NodeProto {
    let mut node = node("Constant", &[], &[output]);
    node.attribute.push(attribute);
    node
}

fn five_constants() -> GraphProto {
    let mut floats = AttributeProto::new("value_floats".to_string());
    floats.floats = vec![1.0f32.to_bits(), 2.0f32.to_bits()];
    let mut int = AttributeProto::new("value_int".to_string());
    int.i = -3;
    let mut float = AttributeProto::new("value_float".to_string());
    float.f.bits = 0.25f32.to_bits();
    let mut whole = AttributeProto::new("value".to_string());
    whole.t = tensor("inner", ScalarType::I64, &[1, 2]);
    whole.t.raw_data = Some([9i64, -9].iter().flat_map(|x| x.to_ne_bytes()).collect());
    graph(
        vec![
            constant("a", floats),
            node("Relu", &["a"], &["b"]),
            constant("c", integers("value_ints", &[4, 5, 6])),
            constant("d", int),
            node("Identity", &["c"], &["e"]),
            constant("f", float),
            constant("g", whole),
        ],
        vec![list("first", &[1])],
        vec![],
        vec![],
    )
}

#[test]
fn constants_become_initializers() {
    let mut graph = five_constants();
    assert!(graph.has_whole_constants());
    assert_eq!(graph.replace_constant_ops_with_initializers(), Ok(()));
    let ops: Vec<&str> = graph.node.iter().map(|node| node.op_type.as_str()).collect();
    assert_eq!(ops, vec!["Relu", "Identity"]);
    let mut g = tensor("g", ScalarType::I64, &[1, 2]);
    g.int64_data = vec![9, -9];
    let mut f = tensor("f", ScalarType::F32, &[1]);
    f.float_data = vec![0.25f32.to_bits()];
    let mut a = tensor("a", ScalarType::F32, &[2]);
    a.float_data = vec![1.0f32.to_bits(), 2.0f32.to_bits()];
    assert_eq!(
        graph.initializer,
        vec![list("first", &[1]), g, f, list("d", &[-3]), list("c", &[4, 5, 6]), a]
    );
}

#[test]
fn replacing_twice_is_replacing_once() {
    let mut once = five_constants();
    assert_eq!(once.replace_constant_ops_with_initializers(), Ok(()));
    let mut twice = five_constants();
    assert_eq!(twice.replace_constant_ops_with_initializers(), Ok(()));
    assert_eq!(twice.replace_constant_ops_with_initializers(), Ok(()));
    assert_eq!(once, twice);
}

#[test]
fn constants_keep_their_shapes_when_replaced() {
    let mut nodes = five_constants();
    assert_eq!(nodes.infer_shapes(), Ok(()));
    let mut initializers = five_constants();
    assert_eq!(initializers.replace_constants(ByteOrder::Little), Ok(()));
    assert_eq!(initializers.infer_shapes(), Ok(()));
    for name in ["a", "b", "c", "d", "e", "f", "g"] {
        assert!(shape_of(&nodes, name).is_some());
        assert_eq!(shape_of(&nodes, name), shape_of(&initializers, name));
    }
}

#[test]
fn broken_constants_are_refused() {
    let mut two_outputs = five_constants();
    two_outputs.node[2].output.push("x".to_string());
    assert_eq!(
        two_outputs.replace_constant_ops_with_initializers(),
        Err(ShapeInferenceError::InvalidNode(
            "Constant node".to_string(),
            "Constant op must have one output, has 2".to_string()
        ))
    );
    assert_eq!(two_outputs.node.len(), 4);
    assert_eq!(two_outputs.initializer.len(), 4);

    let mut no_value = five_constants();
    no_value.node[6].attribute[0].name = "value_string".to_string();
    assert_eq!(
        no_value.replace_constant_ops_with_initializers(),
        Err(ShapeInferenceError::Unsupported(
            "Constant node with data types other than float, int".to_string()
        ))
    );

    let mut other_type = five_constants();
    other_type.node[6].attribute[0].t.data_type = 16;
    assert_eq!(
        other_type.replace_constant_ops_with_initializers(),
        Err(ShapeInferenceError::UnsupportedDataType(DataTypeError::NotSupported(16)))
    );

    let mut torn = five_constants();
    torn.node[6].attribute[0].t.raw_data = Some(vec![1, 2, 3]);
    assert!(!torn.has_whole_constants());
}

fn open_value(name: &str, dims: &[&str]) -> ValueInfoProto {
    let dim = dims
        .iter()
        .map(|dim| Dimension {
            value: match dim.parse::<i64>() {
                Ok(size) => Some(DimensionValue::Value(size)),
                Err(_) => Some(DimensionValue::Param(dim.to_string())),
            },
        })
        .collect();
    let tensor = TensorTypeProto { elem_type: 1, shape: Some(TensorShapeProto { dim }) };
    ValueInfoProto {
        name: name.to_string(),
        field_type: Some(TypeProto { value: Some(TypeValue::Tensor(tensor)) }),
    }
}

fn sizes(given: &[(&str, i64)]) -> StringHashMap<i64> {
    let mut sizes = StringHashMap::new();
    for (param, size) in given {
        sizes.insert(param.to_string(), *size);
    }
    sizes
}

fn open_graph() -> GraphProto {
    GraphProto {
        node: vec![node("Relu", &["x"], &["y"])],
        initializer: vec![list("first", &[1])],
        input: vec![open_value("x", &["batch", "3", "length"])],
        output: vec![open_value("y", &["batch", "3", "width"])],
        value_info: vec![open_value("z", &["length"])],
    }
}

#[test]
fn given_parameters_become_sizes() {
    let mut graph = open_graph();
    let said = apply_dynamic_dimensions(&mut graph, &sizes(&[("batch", 2), ("length", -7)]));
    assert_eq!(
        said,
        vec![
            "Setting dimension param 0 (length) to value -7 for z",
            "Setting dimension param 0 (batch) to value 2 for x",
            "Setting dimension param 2 (length) to value -7 for x",
            "Setting dimension param 0 (batch) to value 2 for y",
        ]
    );
    let expected = GraphProto {
        input: vec![open_value("x", &["2", "3", "-7"])],
        output: vec![open_value("y", &["2", "3", "width"])],
        value_info: vec![open_value("z", &["-7"])],
        ..open_graph()
    };
    assert_eq!(graph, expected);
    assert_eq!(shape_of(&graph, "x"), Some(f32s(&[2, 3, -7])));
    assert_eq!(shape_of(&graph, "y"), None);
    // A second time there is nothing left to say.
    let said = apply_dynamic_dimensions(&mut graph, &sizes(&[("batch", 2), ("length", -7)]));
    assert_eq!(said, Vec::<String>::new());
    assert_eq!(graph, expected);
}

#[test]
fn all_sizes_make_a_shape() {
    let mut graph = open_graph();
    assert_eq!(
        graph.infer_shapes(),
        Err(ShapeInferenceError::MissingInputShape("x".to_string()))
    );
    apply_dynamic_dimensions(&mut graph, &sizes(&[("batch", 2), ("length", 5)]));
    assert_eq!(graph.infer_shapes(), Ok(()));
    assert_eq!(graph.value_info[1], value("y", &[2, 3, 5]));
}

#[test]
fn dimensions_without_a_parameter_stay() {
    let mut info = open_value("x", &["3", "n"]);
    let mut said = vec![];
    apply_dynamic_dimensions_value(&mut info, &sizes(&[("", 7)]), &mut said);
    assert_eq!(info, open_value("x", &["3", "n"]));
    assert_eq!(said, Vec::<String>::new());
    let mut nameless = open_value("x", &[""]);
    apply_dynamic_dimensions_value(&mut nameless, &sizes(&[("", 7)]), &mut said);
    assert_eq!(nameless, open_value("x", &["7"]));
    assert_eq!(said, vec!["Setting dimension param 0 () to value 7 for x"]);
}

#[test]
fn values_without_a_type_get_an_empty_one() {
    let mut info = ValueInfoProto { name: "x".to_string(), field_type: None };
    let mut said = vec![];
    apply_dynamic_dimensions_value(&mut info, &sizes(&[("n", 9)]), &mut said);
    assert_eq!(info.field_type, Some(TypeProto { value: None }));
    assert_eq!(info.get_shape(), None);
    assert_eq!(said, Vec::<String>::new());
}
