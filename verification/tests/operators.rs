use wonnx_graph::arith::div_ceil;
use wonnx_graph::error::ShapeInferenceError;
use wonnx_graph::forward::slice::process_slice_inputs;
use wonnx_graph::forward::{checked_infer_forward, infer_forward};
use wonnx_graph::onnx::{AttributeProto, NodeProto, TensorProto};
use wonnx_graph::shape::{ScalarType, Shape};
use wonnx_graph::StringHashMap;

fn node(op_type: &str, inputs: usize, outputs: usize) -> NodeProto {
    NodeProto {
        name: "n".to_string(),
        op_type: op_type.to_string(),
        input: (0..inputs).map(|i| format!("in{i}")).collect(),
        output: (0..outputs).map(|i| format!("out{i}")).collect(),
        attribute: vec![],
    }
}

fn integer(name: &str, i: i64) -> AttributeProto {
    let mut attribute = AttributeProto::new(name.to_string());
    attribute.i = i;
    attribute
}

fn integers(name: &str, ints: &[i64]) -> AttributeProto {
    let mut attribute = AttributeProto::new(name.to_string());
    attribute.ints = ints.to_vec();
    attribute
}

fn bytes(name: &str, s: &[u8]) -> AttributeProto {
    let mut attribute = AttributeProto::new(name.to_string());
    attribute.s = s.to_vec();
    attribute
}

fn f32s(dims: &[i64]) -> Shape {
    Shape::from(ScalarType::F32, dims)
}

fn constant(name: &str, int64_data: &[i64]) -> TensorProto {
    let mut tensor = TensorProto::new();
    tensor.name = name.to_string();
    tensor.data_type = ScalarType::I64.to_datatype();
    tensor.dims = vec![int64_data.len() as i64];
    tensor.int64_data = int64_data.to_vec();
    tensor
}

fn run(
    node: &NodeProto,
    shapes: &[Shape],
    tensors: &[TensorProto],
) -> Option<Result<Vec<Shape>, ShapeInferenceError>> {
    let mut table: StringHashMap<&TensorProto> = StringHashMap::new();
    for tensor in tensors {
        table.insert(tensor.name.clone(), tensor);
    }
    let shapes: Vec<&Shape> = shapes.iter().collect();
    checked_infer_forward(node, &shapes, &table)
}

fn ok(shapes: &[Shape]) -> Option<Result<Vec<Shape>, ShapeInferenceError>> {
    Some(Ok(shapes.to_vec()))
}

fn invalid(why: &str) -> Option<Result<Vec<Shape>, ShapeInferenceError>> {
    Some(Err(ShapeInferenceError::InvalidNode("n".to_string(), why.to_string())))
}

fn unsupported(what: &str) -> Option<Result<Vec<Shape>, ShapeInferenceError>> {
    Some(Err(ShapeInferenceError::Unsupported(what.to_string())))
}

#[test]
fn division_rounds_up_where_there_is_a_rest() {
    assert_eq!(div_ceil(7, 2), 4);
    assert_eq!(div_ceil(6, 2), 3);
    assert_eq!(div_ceil(0, 5), 0);
    assert_eq!(div_ceil(-7, -2), 4);
    assert_eq!(div_ceil(-6, 2), -3);
    assert_eq!(div_ceil(-1, 2), 0);
    assert_eq!(div_ceil(1, -2), 0);
    assert_eq!(div_ceil(-3, 2), -1);
    assert_eq!(div_ceil(3, -2), -1);
    assert_eq!(div_ceil(i64::MAX, 1), i64::MAX);
    assert_eq!(div_ceil(i64::MIN, 1), i64::MIN);
    assert_eq!(div_ceil(i64::MAX, 2), 1 << 62);
}

#[test]
fn unary_operators_keep_the_shape() {
    for op_type in ["Identity", "Sqrt", "Relu"] {
        assert_eq!(run(&node(op_type, 1, 1), &[f32s(&[2, 3])], &[]), ok(&[f32s(&[2, 3])]));
    }
}

#[test]
fn infer_forward_gives_what_the_checked_function_gives() {
    let table: StringHashMap<&TensorProto> = StringHashMap::new();
    let shape = f32s(&[2, 3]);
    assert_eq!(infer_forward(&node("Relu", 1, 1), &[&shape], &table), Ok(vec![f32s(&[2, 3])]));
}

#[test]
fn dropout_gives_each_output_the_first_shape() {
    let shapes = [f32s(&[2, 3]), f32s(&[]), f32s(&[1])];
    assert_eq!(run(&node("Dropout", 3, 2), &shapes, &[]), ok(&[f32s(&[2, 3]), f32s(&[2, 3])]));
    assert_eq!(run(&node("Dropout", 1, 1), &shapes[..1], &[]), ok(&[f32s(&[2, 3])]));
    assert_eq!(run(&node("Dropout", 1, 3), &shapes[..1], &[]), unsupported("Dropout"));
}

#[test]
fn numbers_of_inputs_and_outputs_are_checked() {
    assert_eq!(
        run(&node("Relu", 2, 1), &[f32s(&[1]), f32s(&[1])], &[]),
        invalid("invalid number of inputs (2) or outputs (1)")
    );
    assert_eq!(
        run(&node("Conv", 1, 1), &[f32s(&[1])], &[]),
        invalid("invalid number of inputs (1) or outputs (1)")
    );
    assert_eq!(
        run(&node("Concat", 0, 1), &[], &[]),
        invalid("invalid number of inputs (0) or outputs (1)")
    );
    assert_eq!(run(&node("Softmax", 1, 1), &[f32s(&[1])], &[]), unsupported("Softmax"));
}

#[test]
fn cast_changes_the_element_type() {
    let mut cast = node("Cast", 1, 1);
    assert_eq!(
        run(&cast, &[f32s(&[2])], &[]).unwrap().unwrap_err().text(),
        "attribute to of node n required for shape inference is missing"
    );
    cast.attribute.push(integer("to", 7));
    assert_eq!(run(&cast, &[f32s(&[2])], &[]), ok(&[Shape::from(ScalarType::I64, &[2])]));
    cast.attribute[0].i = 1;
    assert_eq!(run(&cast, &[f32s(&[2])], &[]), ok(&[f32s(&[2])]));
    cast.attribute[0].i = 9;
    assert_eq!(
        run(&cast, &[f32s(&[2])], &[]),
        invalid("invalid value for to attribute (9) for Cast operator")
    );
    cast.attribute[0].i = 0x1_0000_0007;
    assert_eq!(run(&cast, &[f32s(&[2])], &[]), ok(&[Shape::from(ScalarType::I64, &[2])]));
}

#[test]
fn arithmetic_broadcasts() {
    for op_type in ["Sub", "Pow", "Add", "Div", "Mul"] {
        let node = node(op_type, 2, 1);
        assert_eq!(
            run(&node, &[f32s(&[8, 1, 6, 1]), f32s(&[7, 1, 5])], &[]),
            ok(&[f32s(&[8, 7, 6, 5])])
        );
    }
    assert_eq!(
        run(&node("Add", 2, 1), &[f32s(&[2, 3]), f32s(&[4])], &[]),
        invalid(
            "two inputs (left in0 shape: in1, right 2x3:f32 shape: 4:f32) must be broadcastable"
        )
    );
}

#[test]
fn gather_puts_the_indices_in_place_of_an_axis() {
    let mut gather = node("Gather", 2, 1);
    let shapes = [f32s(&[5, 6, 7]), Shape::from(ScalarType::I64, &[2, 3])];
    assert_eq!(run(&gather, &shapes, &[]), ok(&[f32s(&[2, 3, 6, 7])]));
    gather.attribute.push(integer("axis", 1));
    assert_eq!(run(&gather, &shapes, &[]), ok(&[f32s(&[5, 2, 3, 7])]));
    gather.attribute[0].i = -1;
    assert_eq!(run(&gather, &shapes, &[]), ok(&[f32s(&[5, 6, 2, 3])]));
    gather.attribute[0].i = 3;
    assert_eq!(run(&gather, &shapes, &[]), invalid("axis must be less than data tensor rank"));
    gather.attribute[0].i = -4;
    assert_eq!(run(&gather, &shapes, &[]), invalid("axis must be less than data tensor rank"));
    assert_eq!(
        run(&gather, &[f32s(&[]), f32s(&[1])], &[]),
        invalid("data tensor must have rank 1 or greater")
    );
    gather.attribute[0].i = 0;
    assert_eq!(run(&gather, &[f32s(&[5]), f32s(&[])], &[]), ok(&[f32s(&[])]));
}

#[test]
fn shape_gives_the_rank() {
    let mut shape = node("Shape", 1, 1);
    let i64s = |n: i64| ok(&[Shape::from(ScalarType::I64, &[n])]);
    assert_eq!(run(&shape, &[f32s(&[5, 6, 7])], &[]), i64s(3));
    shape.attribute.push(integer("end", 2));
    assert_eq!(run(&shape, &[f32s(&[5, 6, 7])], &[]), i64s(2));
    shape.attribute.push(integer("start", 1));
    assert_eq!(run(&shape, &[f32s(&[])], &[]), i64s(1));
    shape.attribute[1].i = 3;
    assert_eq!(run(&shape, &[f32s(&[5])], &[]), None);
}

#[test]
fn slice_inputs_are_brought_into_range() {
    let process = |size: i64, start: i64, end: i64, step: i64| {
        let (mut start, mut end, mut step) = (start, end, step);
        process_slice_inputs(size, &mut start, &mut end, &mut step).map(|_| (start, end, step))
    };
    assert_eq!(process(10, 2, 5, 1), Ok((2, 5, 1)));
    assert_eq!(process(10, -3, -1, 1), Ok((7, 9, 1)));
    assert_eq!(process(10, -30, 30, 2), Ok((0, 10, 2)));
    assert_eq!(process(10, 30, -30, -2), Ok((9, -1, -2)));
    assert_eq!(process(0, 5, 5, 1), Ok((0, 0, 1)));
    assert_eq!(
        process(10, 2, 5, 0),
        Err(ShapeInferenceError::InvalidNode(
            "".to_string(),
            "step value must not be zero for slice".to_string()
        ))
    );
    // Brought into range once, they stay.
    for (start, end) in [(2, 5), (-3, -1), (-30, 30), (12, -12)] {
        let (start, end, step) = process(10, start, end, 3).unwrap();
        assert!((0..=10).contains(&start) && (0..=10).contains(&end));
        assert_eq!(process(10, start, end, step), Ok((start, end, step)));
    }
}

#[test]
fn slice_counts_the_steps() {
    let data = f32s(&[20, 10, 5]);
    let unknown = f32s(&[1]);
    let shapes = [data.clone(), unknown.clone(), unknown.clone(), unknown.clone(), unknown];
    let run_slice = |lists: &[&[i64]]| {
        let tensors: Vec<TensorProto> = lists
            .iter()
            .enumerate()
            .map(|(i, list)| constant(&format!("in{}", i + 1), list))
            .collect();
        run(&node("Slice", lists.len() + 1, 1), &shapes[..lists.len() + 1], &tensors)
    };
    assert_eq!(run_slice(&[&[0, 0, 3], &[20, 10, 4]]), ok(&[f32s(&[20, 10, 1])]));
    assert_eq!(run_slice(&[&[0, 0], &[3, 10], &[0, 1], &[1, 1]]), ok(&[f32s(&[3, 10, 5])]));
    assert_eq!(run_slice(&[&[1], &[1000], &[1], &[3]]), ok(&[f32s(&[20, 3, 5])]));
    assert_eq!(run_slice(&[&[1], &[1000], &[-2], &[3]]), ok(&[f32s(&[20, 3, 5])]));
    assert_eq!(
        run_slice(&[&[20, 10, 4], &[0, 0, 1], &[0, 1, 2], &[-1, -3, -2]]),
        ok(&[f32s(&[19, 3, 2])])
    );
    assert_eq!(run_slice(&[&[5], &[2], &[0], &[1]]), ok(&[f32s(&[0, 10, 5])]));
    // Nothing given: from 1 on, to the end.
    assert_eq!(run_slice(&[&[], &[], &[], &[1, 1, 1]]), ok(&[f32s(&[19, 9, 4])]));
    // Steps are 1 for each start when they are left out.
    assert_eq!(run_slice(&[&[0], &[1], &[0]]), ok(&[f32s(&[1, 10, 5])]));
    assert_eq!(
        run_slice(&[&[0], &[1], &[0, 1]]),
        invalid(
            "length of axes attribute (2) must be equal to length of steps attribute (1)"
        )
    );
    assert_eq!(
        run_slice(&[&[0, 0], &[1, 1], &[0], &[1, 1, 1]]),
        invalid(
            "length of axes attribute (1) must be equal to length of steps attribute (3)"
        )
    );
    // An empty slice, also where the step is longer than the way back.
    assert_eq!(run_slice(&[&[2], &[0], &[0], &[3]]), ok(&[f32s(&[0, 10, 5])]));
    assert_eq!(
        run_slice(&[&[0], &[1], &[0], &[0]]),
        Some(Err(ShapeInferenceError::InvalidNode(
            "".to_string(),
            "step value must not be zero for slice".to_string()
        )))
    );
    assert_eq!(run_slice(&[&[0], &[1], &[3], &[1]]), None);
}

#[test]
fn slice_counts_positions_below_zero_from_the_end_of_their_axis() {
    let run_slice = |dims: &[i64], lists: &[&[i64]]| {
        let mut shapes = vec![f32s(dims)];
        let mut tensors = vec![];
        for (i, list) in lists.iter().enumerate() {
            shapes.push(Shape::from(ScalarType::I64, &[list.len() as i64]));
            tensors.push(constant(&format!("in{}", i + 1), list));
        }
        run(&node("Slice", lists.len() + 1, 1), &shapes, &tensors)
    };
    assert_eq!(run_slice(&[10, 3], &[&[-2], &[3], &[1]]), ok(&[f32s(&[10, 2])]));
    assert_eq!(run_slice(&[10, 3], &[&[-2], &[3], &[1], &[1]]), ok(&[f32s(&[10, 2])]));
    assert_eq!(run_slice(&[10, 3], &[&[0], &[-1], &[-1]]), ok(&[f32s(&[10, 2])]));
    assert_eq!(run_slice(&[10], &[&[-12], &[10]]), ok(&[f32s(&[10])]));
    assert_eq!(run_slice(&[10], &[&[-1], &[-11], &[0], &[-1]]), ok(&[f32s(&[10])]));
    assert_eq!(run_slice(&[10], &[&[-3], &[-1], &[0], &[1]]), ok(&[f32s(&[2])]));
    assert_eq!(
        run_slice(&[10, 3], &[&[i64::MIN], &[i64::MAX], &[1], &[2]]),
        ok(&[f32s(&[10, 2])])
    );
}

#[test]
fn ceil_mode_rounds_up_below_zero() {
    let mut pool = node("MaxPool", 1, 1);
    pool.attribute.push(integers("kernel_shape", &[5]));
    pool.attribute.push(integers("strides", &[2]));
    pool.attribute.push(integer("ceil_mode", 1));
    assert_eq!(run(&pool, &[f32s(&[1, 1, 2])], &[]), ok(&[f32s(&[1, 1, 0])]));
    assert_eq!(run(&pool, &[f32s(&[1, 1, 4])], &[]), ok(&[f32s(&[1, 1, 1])]));
    assert_eq!(run(&pool, &[f32s(&[1, 1, 6])], &[]), ok(&[f32s(&[1, 1, 2])]));
}

#[test]
fn slice_takes_all_or_nothing_more() {
    let shapes = [f32s(&[6]), f32s(&[1]), f32s(&[1]), f32s(&[1]), f32s(&[1])];
    for start in -8i64..=8 {
        for end in -8i64..=8 {
            for step in [-3i64, -1, 1, 2] {
                let tensors = [
                    constant("in1", &[start]),
                    constant("in2", &[end]),
                    constant("in3", &[0]),
                    constant("in4", &[step]),
                ];
                let out = run(&node("Slice", 5, 1), &shapes, &tensors).unwrap().unwrap();
                assert_eq!(out[0].rank(), 1);
                assert!(out[0].dim(0) <= 6);
            }
        }
    }
}

#[test]
fn slice_needs_constants() {
    let shapes = [f32s(&[6]), f32s(&[1]), f32s(&[1])];
    let slice = node("Slice", 3, 1);
    assert_eq!(
        run(&slice, &shapes, &[]),
        unsupported("input in1 is dynamic (only static initializers are supported)")
    );
    let mut starts = constant("in1", &[0]);
    starts.data_type = 6;
    assert_eq!(
        run(&slice, &shapes, &[starts]),
        unsupported(
            "initializer in1 has data type 6 and not int64, which is currently not supported"
        )
    );
}

#[test]
fn reduce_mean_drops_or_keeps_axes() {
    let mut mean = node("ReduceMean", 1, 1);
    let shapes = [f32s(&[2, 3, 4])];
    assert_eq!(run(&mean, &shapes, &[]), ok(&[f32s(&[1, 1, 1])]));
    mean.attribute.push(integers("axes", &[-1, 0]));
    assert_eq!(run(&mean, &shapes, &[]), ok(&[f32s(&[1, 3, 1])]));
    mean.attribute.push(integer("keepdims", 0));
    assert_eq!(run(&mean, &shapes, &[]), ok(&[f32s(&[3])]));
    mean.attribute[0] = integer("noop_with_empty_axes", 1);
    assert_eq!(run(&mean, &shapes, &[]), ok(&[f32s(&[2, 3, 4])]));
}

#[test]
fn pools_move_their_window() {
    for op_type in ["MaxPool", "AveragePool"] {
        let mut pool = node(op_type, 1, 2);
        let shapes = [f32s(&[1, 8, 28, 29])];
        assert_eq!(run(&pool, &shapes, &[]), invalid("node requires kernel_shape to be set"));
        pool.attribute.push(integers("kernel_shape", &[3, 2]));
        let out = f32s(&[1, 8, 26, 28]);
        assert_eq!(run(&pool, &shapes, &[]), ok(&[out.clone(), out]));
        pool.attribute.push(integers("strides", &[2, 2]));
        let out = f32s(&[1, 8, 13, 14]);
        assert_eq!(run(&pool, &shapes, &[]), ok(&[out.clone(), out]));
        pool.attribute.push(integer("ceil_mode", 1));
        let out = f32s(&[1, 8, 14, 15]);
        assert_eq!(run(&pool, &shapes, &[]), ok(&[out.clone(), out]));
        pool.attribute.push(integers("dilations", &[2, 1]));
        let out = f32s(&[1, 8, 13, 15]);
        assert_eq!(run(&pool, &shapes, &[]), ok(&[out.clone(), out]));
        pool.attribute.push(integers("pads", &[1, 0, 1, 1]));
        let out = f32s(&[1, 8, 14, 15]);
        assert_eq!(run(&pool, &shapes, &[]), ok(&[out.clone(), out]));
    }
}

#[test]
fn conv_takes_its_kernel_from_the_filters() {
    let shapes = [f32s(&[1, 3, 28, 28]), f32s(&[8, 3, 5, 5])];
    let mut conv = node("Conv", 2, 1);
    assert_eq!(run(&conv, &shapes, &[]), ok(&[f32s(&[1, 8, 24, 24])]));
    conv.attribute.push(bytes("auto_pad", b"SAME_UPPER"));
    assert_eq!(run(&conv, &shapes, &[]), ok(&[f32s(&[1, 8, 28, 28])]));
    conv.attribute[0] = bytes("auto_pad", b"VALID");
    assert_eq!(run(&conv, &shapes, &[]), ok(&[f32s(&[1, 8, 24, 24])]));
    conv.attribute[0] = bytes("auto_pad", b"NOTSET");
    assert_eq!(run(&conv, &shapes, &[]), ok(&[f32s(&[1, 8, 24, 24])]));
    conv.attribute[0] = bytes("auto_pad", &[0xc0]);
    assert_eq!(run(&conv, &shapes, &[]), None);
    let conv = node("Conv", 3, 1);
    let shapes = [f32s(&[1, 3, 28, 28]), f32s(&[8, 3, 5, 5]), f32s(&[8])];
    assert_eq!(run(&conv, &shapes, &[]), ok(&[f32s(&[1, 8, 24, 24])]));
}

#[test]
fn same_padding_gives_one_place_for_each_stride() {
    for mode in ["SAME_UPPER", "SAME_LOWER"] {
        for size in 1i64..=12 {
            for stride in 1i64..=5 {
                for kernel in 1i64..=4 {
                    let mut pool = node("MaxPool", 1, 1);
                    pool.attribute.push(integers("kernel_shape", &[kernel]));
                    pool.attribute.push(integers("strides", &[stride]));
                    pool.attribute.push(bytes("auto_pad", mode.as_bytes()));
                    assert_eq!(
                        run(&pool, &[f32s(&[1, 2, size])], &[]),
                        ok(&[f32s(&[1, 2, (size + stride - 1) / stride])])
                    );
                }
            }
        }
    }
}

#[test]
fn windows_are_checked() {
    let shapes = [f32s(&[1, 8, 28, 28])];
    let refused = |attributes: Vec<AttributeProto>| {
        let mut pool = node("MaxPool", 1, 1);
        pool.attribute = attributes;
        run(&pool, &shapes, &[])
    };
    let kernel = || integers("kernel_shape", &[3, 3]);
    assert_eq!(
        refused(vec![kernel(), integers("dilations", &[1])]),
        invalid("attribute dilations has incorrect size")
    );
    assert_eq!(
        refused(vec![kernel(), integers("strides", &[1, 1, 1])]),
        invalid("attribute strides has incorrect size")
    );
    assert_eq!(
        refused(vec![integers("kernel_shape", &[3])]),
        invalid("kernel shape rank must be equal to input rank")
    );
    assert_eq!(
        refused(vec![kernel(), integers("pads", &[0, 0])]),
        invalid("pads attribute has incorrect size")
    );
    assert_eq!(refused(vec![kernel(), integers("strides", &[0, 1])]), None);
    assert_eq!(
        run(&node("MaxPool", 1, 1), &[f32s(&[4])], &[]),
        invalid("input shape must have at least two dimensions")
    );
    let mut conv = node("Conv", 2, 1);
    conv.attribute.push(kernel());
    assert_eq!(
        run(&conv, &[f32s(&[1, 8, 28, 28]), f32s(&[])], &[]),
        invalid("second input has incorrect rank")
    );
}

#[test]
fn constants_have_the_shape_of_their_value() {
    let shape = |data_type: ScalarType, dims: &[i64]| ok(&[Shape::from(data_type, dims)]);
    let mut constant = node("Constant", 0, 1);
    assert_eq!(run(&constant, &[], &[]), unsupported("Constant"));
    let mut value = AttributeProto::new("value".to_string());
    value.t.data_type = 6;
    value.t.dims = vec![2, 2];
    constant.attribute.push(value);
    assert_eq!(run(&constant, &[], &[]), shape(ScalarType::I32, &[2, 2]));
    constant.attribute[0].t.data_type = 10;
    assert_eq!(run(&constant, &[], &[]), invalid("invalid tensor data type"));
    constant.attribute.push(integer("value_int", 4));
    assert_eq!(run(&constant, &[], &[]), shape(ScalarType::I64, &[1]));
    constant.attribute.push(AttributeProto::new("value_float".to_string()));
    assert_eq!(run(&constant, &[], &[]), shape(ScalarType::F32, &[1]));
    constant.attribute.push(integers("value_ints", &[4, 5, 6]));
    assert_eq!(run(&constant, &[], &[]), shape(ScalarType::I64, &[3]));
    let mut floats = AttributeProto::new("value_floats".to_string());
    floats.floats = vec![1.0f32.to_bits(), 2.0f32.to_bits()];
    constant.attribute.push(floats);
    assert_eq!(run(&constant, &[], &[]), shape(ScalarType::F32, &[2]));
}

#[test]
fn reshape_keeps_the_elements() {
    let shapes = [f32s(&[2, 3, 4]), Shape::from(ScalarType::I64, &[2])];
    let to = |wanted: &[i64]| run(&node("Reshape", 2, 1), &shapes, &[constant("in1", wanted)]);
    assert_eq!(to(&[4, 6]), ok(&[f32s(&[4, 6])]));
    assert_eq!(f32s(&[4, 6]).element_count(), shapes[0].element_count());
    assert_eq!(to(&[24]), ok(&[f32s(&[24])]));
    assert_eq!(
        to(&[5, 5]),
        invalid(
            "Reshape shape tensor (element count=25) must have the same number of elements as the input tensor's rank (24)"
        )
    );
    assert_eq!(
        to(&[4, -1]),
        invalid(
            "Reshape shape tensor (element count=-4) must have the same number of elements as the input tensor's rank (24)"
        )
    );
    assert_eq!(to(&[-4, -1, 6]), invalid(
        "Reshape shape tensor cannot contain negative values except for -1 (contains -4)"
    ));
    assert_eq!(to(&[-1, -4, 6]), unsupported("Reshape with shape containing a -1 element"));
    assert_eq!(to(&[i64::MAX, 2]), None);
    assert_eq!(
        run(&node("Reshape", 2, 1), &shapes, &[]),
        unsupported("Reshape with dynamic shape tensor")
    );
}

#[test]
fn reshape_takes_sizes_of_the_input_for_zeros() {
    let shapes = [f32s(&[0, 3]), Shape::from(ScalarType::I64, &[2])];
    let mut reshape = node("Reshape", 2, 1);
    let wanted = [constant("in1", &[7, 0])];
    assert_eq!(run(&reshape, &shapes, &wanted), ok(&[f32s(&[7, 3])]));
    reshape.attribute.push(integer("allowzero", 1));
    assert_eq!(run(&reshape, &shapes, &wanted), ok(&[f32s(&[7, 0])]));
    reshape.attribute[0].i = 0;
    assert_eq!(run(&reshape, &shapes, &[constant("in1", &[7, 5, 0])]), None);
}

#[test]
fn concat_adds_up_one_axis() {
    let shapes = [f32s(&[2, 3]), f32s(&[4, 3]), f32s(&[5, 3])];
    let mut concat = node("Concat", 3, 1);
    assert_eq!(
        run(&concat, &shapes, &[]).unwrap().unwrap_err().text(),
        "attribute axis of node n required for shape inference is missing"
    );
    concat.attribute.push(integer("axis", 0));
    assert_eq!(run(&concat, &shapes, &[]), ok(&[f32s(&[11, 3])]));
    concat.attribute[0].i = -2;
    assert_eq!(run(&concat, &shapes, &[]), ok(&[f32s(&[11, 3])]));
    concat.attribute[0].i = 1;
    assert_eq!(run(&concat, &shapes, &[]), ok(&[f32s(&[2, 9])]));
    assert_eq!(run(&concat, &shapes[..1], &[]), ok(&[f32s(&[2, 3])]));
    for axis in [2, -3] {
        concat.attribute[0].i = axis;
        assert_eq!(
            run(&concat, &shapes, &[]),
            invalid("axis attribute needs to be smaller than input tensor rank")
        );
    }
    concat.attribute[0].i = 1;
    assert_eq!(run(&concat, &[f32s(&[2, 3]), f32s(&[2])], &[]), None);
    assert_eq!(run(&concat, &[f32s(&[])], &[]), None);
}

#[test]
fn unsqueeze_puts_in_ones() {
    let shapes = [f32s(&[3, 4]), f32s(&[1])];
    let at = |axes: &[i64]| run(&node("Unsqueeze", 2, 1), &shapes, &[constant("in1", axes)]);
    assert_eq!(at(&[0]), ok(&[f32s(&[1, 3, 4])]));
    assert_eq!(at(&[0, 3]), ok(&[f32s(&[1, 3, 4, 1])]));
    assert_eq!(at(&[-1]), ok(&[f32s(&[3, 4, 1])]));
    assert_eq!(at(&[4]), None);
    let mut old = node("Unsqueeze", 1, 1);
    assert_eq!(
        run(&old, &shapes[..1], &[]).unwrap().unwrap_err().text(),
        "attribute axes of node n required for shape inference is missing"
    );
    old.attribute.push(integers("axes", &[1]));
    assert_eq!(run(&old, &shapes[..1], &[]), ok(&[f32s(&[3, 1, 4])]));
    assert_eq!(
        run(&node("Unsqueeze", 2, 1), &shapes, &[]),
        unsupported("Unsqueeze with dynamic axis inputs")
    );
}

#[test]
fn squeeze_undoes_unsqueeze() {
    let axes = [constant("in1", &[0, 2, 4])];
    let shape = f32s(&[3, 4]);
    let unsqueezed = run(&node("Unsqueeze", 2, 1), &[shape.clone(), f32s(&[3])], &axes);
    let unsqueezed = unsqueezed.unwrap().unwrap().remove(0);
    assert_eq!(unsqueezed, f32s(&[1, 3, 1, 4, 1]));
    assert_eq!(unsqueezed.element_count(), shape.element_count());
    assert_eq!(run(&node("Squeeze", 2, 1), &[unsqueezed, f32s(&[3])], &axes), ok(&[shape]));
}

#[test]
fn squeeze_drops_axes() {
    let shapes = [f32s(&[1, 3, 1, 2]), f32s(&[1])];
    assert_eq!(run(&node("Squeeze", 1, 1), &shapes[..1], &[]), ok(&[f32s(&[3, 2])]));
    let without = |axes: &[i64]| run(&node("Squeeze", 2, 1), &shapes, &[constant("in1", axes)]);
    assert_eq!(without(&[2]), ok(&[f32s(&[1, 3, 2])]));
    assert_eq!(without(&[1]), ok(&[f32s(&[1, 1, 2])]));
    assert_eq!(without(&[-1]), ok(&[f32s(&[1, 3, 1, 2])]));
    assert_eq!(
        run(&node("Squeeze", 2, 1), &shapes, &[]),
        unsupported("Unsqueeze with dynamic axis inputs")
    );
}

#[test]
fn range_counts_whole_steps() {
    let shapes = [f32s(&[]), f32s(&[]), f32s(&[])];
    let range = |start: &[i64], end: &[i64], step: &[i64]| {
        let tensors = [constant("in0", start), constant("in1", end), constant("in2", step)];
        run(&node("Range", 3, 1), &shapes, &tensors)
    };
    assert_eq!(range(&[0], &[10], &[2]), ok(&[Shape::from(ScalarType::I64, &[5])]));
    assert_eq!(range(&[0], &[11], &[2]), ok(&[Shape::from(ScalarType::I64, &[5])]));
    assert_eq!(range(&[10], &[4], &[-3]), ok(&[Shape::from(ScalarType::I64, &[2])]));
    assert_eq!(
        range(&[1, 2], &[3], &[1]),
        invalid("the start input needs to be a scalar, has 2 elements")
    );
    assert_eq!(
        range(&[1], &[], &[1]),
        invalid("the end input needs to be a scalar, has 0 elements")
    );
    assert_eq!(
        range(&[1], &[3], &[1, 1, 1]),
        invalid("the step input needs to be a scalar, has 3 elements")
    );
    assert_eq!(range(&[1], &[3], &[0]), None);
    assert_eq!(range(&[i64::MIN], &[1], &[1]), None);
    assert_eq!(
        run(&node("Range", 3, 1), &shapes, &[]),
        unsupported("input in0 is dynamic (only static initializers are supported)")
    );
}
