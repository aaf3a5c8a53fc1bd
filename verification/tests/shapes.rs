use wonnx_graph::error::{AttributeNotFoundError, ShapeInferenceError};
use wonnx_graph::onnx::{
    Dimension, DimensionValue, TensorShapeProto, TensorTypeProto, TypeProto, TypeValue,
    ValueInfoProto,
};
use wonnx_graph::shape::{DataTypeError, ScalarType, Shape};

fn f32s(dims: &[i64]) -> Shape {
    Shape::from(ScalarType::F32, dims)
}

#[test]
fn codes_stand_for_types() {
    for data_type in [ScalarType::F32, ScalarType::I64, ScalarType::I32, ScalarType::U8] {
        assert_eq!(ScalarType::from_i32(data_type.to_datatype()), Ok(data_type));
    }
    assert_eq!(ScalarType::from_i32(1), Ok(ScalarType::F32));
    assert_eq!(ScalarType::from_i32(2), Ok(ScalarType::U8));
    assert_eq!(ScalarType::from_i32(6), Ok(ScalarType::I32));
    assert_eq!(ScalarType::from_i32(7), Ok(ScalarType::I64));
    assert_eq!(ScalarType::from_i32(11), Err(DataTypeError::NotSupported(11)));
    assert_eq!(ScalarType::from_i32(-1), Err(DataTypeError::NotRecognized(-1)));
    assert_eq!(ScalarType::from_i32(17), Err(DataTypeError::NotRecognized(17)));
}

#[test]
fn shapes_are_written_with_their_sizes_and_type() {
    assert_eq!(f32s(&[2, 30, 4]).text(), "2x30x4:f32");
    assert_eq!(Shape::from(ScalarType::I64, &[7]).text(), "7:i64");
    assert_eq!(Shape::from(ScalarType::U8, &[]).text(), ":u8");
}

#[test]
fn elements_are_counted() {
    assert_eq!(f32s(&[2, 3, 4]).element_count(), Some(24));
    assert_eq!(f32s(&[]).element_count(), Some(1));
    assert_eq!(f32s(&[5, 0]).element_count(), Some(0));
    assert_eq!(f32s(&[i64::MAX, 3]).element_count(), None);
}

#[test]
fn broadcasting_aligns_the_last_dimensions() {
    let a = f32s(&[8, 1, 6, 1]);
    let b = f32s(&[7, 1, 5]);
    let joint = f32s(&[8, 7, 6, 5]);
    assert_eq!(a.broadcast(&b), Some(joint.clone()));
    assert_eq!(b.broadcast(&a), Some(joint.clone()));
    assert_eq!(a.broadcast(&joint), Some(joint.clone()));
    assert_eq!(b.broadcast(&joint), Some(joint));
    assert_eq!(a.broadcast(&a), Some(a.clone()));
    assert_eq!(a.broadcast(&f32s(&[])), Some(a.clone()));
    assert_eq!(a.broadcast(&f32s(&[1, 1])), Some(a));
    assert_eq!(f32s(&[2]).broadcast(&f32s(&[3])), None);
    assert_eq!(f32s(&[2, 1]).broadcast(&f32s(&[8, 4, 3])), None);
    assert_eq!(f32s(&[2]).broadcast(&Shape::from(ScalarType::I64, &[2])), None);
    assert_eq!(f32s(&[0]).broadcast(&f32s(&[1])), Some(f32s(&[0])));
}

#[test]
fn recorded_shapes_are_read_back() {
    for shape in [f32s(&[1, 2, 3]), f32s(&[]), Shape::from(ScalarType::I32, &[0, -1])] {
        let info = ValueInfoProto::with_shape("x".to_string(), &shape);
        assert_eq!(info.name, "x");
        assert_eq!(info.get_shape(), Some(shape));
    }
}

#[test]
fn only_full_shapes_are_read() {
    let tensor = |elem_type: i32, shape: Option<Vec<Option<DimensionValue>>>| ValueInfoProto {
        name: "x".to_string(),
        field_type: Some(TypeProto {
            value: Some(TypeValue::Tensor(TensorTypeProto {
                elem_type,
                shape: shape.map(|dims| TensorShapeProto {
                    dim: dims.into_iter().map(|value| Dimension { value }).collect(),
                }),
            })),
        }),
    };
    let size = |n: i64| Some(DimensionValue::Value(n));
    assert_eq!(tensor(1, Some(vec![size(2), size(3)])).get_shape(), Some(f32s(&[2, 3])));
    assert_eq!(tensor(1, Some(vec![])).get_shape(), Some(f32s(&[])));
    assert_eq!(tensor(1, None).get_shape(), None);
    assert_eq!(tensor(0, Some(vec![size(2)])).get_shape(), None);
    assert_eq!(tensor(1, Some(vec![size(2), None])).get_shape(), None);
    let param = Some(DimensionValue::Param("N".to_string()));
    assert_eq!(tensor(1, Some(vec![param, size(2)])).get_shape(), None);
    let bare = ValueInfoProto { name: "x".to_string(), field_type: None };
    assert_eq!(bare.get_shape(), None);
    let other = ValueInfoProto {
        name: "x".to_string(),
        field_type: Some(TypeProto { value: Some(TypeValue::Other) }),
    };
    assert_eq!(other.get_shape(), None);
}

#[test]
fn errors_say_what_is_wrong() {
    let text = |error: ShapeInferenceError| error.text();
    assert_eq!(
        text(ShapeInferenceError::MissingInputShape("x".to_string())),
        "missing shape for input x"
    );
    assert_eq!(
        text(ShapeInferenceError::IncompleteInputShape("x".to_string())),
        "incomplete or missing shape for input x - be sure to specify all dynamic dimension parameters"
    );
    assert_eq!(text(ShapeInferenceError::Unsupported("Foo".to_string())), "unsupported: Foo");
    assert_eq!(
        text(ShapeInferenceError::InvalidNode("n".to_string(), "too small".to_string())),
        "node n is invalid: too small"
    );
    assert_eq!(
        text(ShapeInferenceError::MissingAttribute(AttributeNotFoundError {
            attribute: "axis".to_string(),
            node_name: "n".to_string(),
        })),
        "attribute axis of node n required for shape inference is missing"
    );
    assert_eq!(
        text(ShapeInferenceError::UnsupportedDataType(DataTypeError::NotSupported(9))),
        "unsupported data type encountered: data type 9 is not supported"
    );
    assert_eq!(
        text(ShapeInferenceError::UnsupportedDataType(DataTypeError::NotRecognized(-9))),
        "unsupported data type encountered: data type -9 is not recognized"
    );
}
