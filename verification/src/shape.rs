//! Element types and shapes of tensors.
use vstd::prelude::*;
use vstd::string::StringExecFns;
use crate::arith::{
    checked_unsigned_product, law_unsigned_product_multiplies_all, unsigned_product,
};
use crate::onnx::{
    view_option, Dimension, DimensionValue, DimensionValueView, TensorShapeProto, TensorTypeProto,
    TensorTypeView, TypeProto, TypeValue, TypeValueView, TypeView, ValueInfoProto, ValueInfoView,
};
use crate::text::{decimal, unsigned_text};

verus! {

/// The element types that are supported.
#[derive(Clone, Copy, Debug, PartialEq, Eq, Structural)]
pub enum ScalarType {
    F32,
    I64,
    I32,
    U8,
}

/// Why a data type code stands for no [`ScalarType`].
#[derive(Clone, Copy, Debug, PartialEq, Eq, Structural)]
pub enum DataTypeError {
    /// The code is one of ONNX, for a type that is not supported.
    NotSupported(i32),
    /// The code is none of ONNX.
    NotRecognized(i32),
}

/// The largest data type code of ONNX.
pub const LAST_DATA_TYPE: i32 = 16;

/// The scalar type with the given data type code.
pub open spec fn scalar_type(code: i32) -> Result<ScalarType, DataTypeError> {
    if code == 1 {
        Ok(ScalarType::F32)
    } else if code == 2 {
        Ok(ScalarType::U8)
    } else if code == 6 {
        Ok(ScalarType::I32)
    } else if code == 7 {
        Ok(ScalarType::I64)
    } else if 0 <= code <= LAST_DATA_TYPE {
        Err(DataTypeError::NotSupported(code))
    } else {
        Err(DataTypeError::NotRecognized(code))
    }
}

impl ScalarType {
    /// The data type code of this type.
    pub open spec fn code(self) -> i32 {
        match self {
            ScalarType::F32 => 1,
            ScalarType::U8 => 2,
            ScalarType::I32 => 6,
            ScalarType::I64 => 7,
        }
    }

    /// The name by which a shape's description calls this type.
    pub open spec fn name(self) -> Seq<char> {
        match self {
            ScalarType::F32 => "f32"@,
            ScalarType::I64 => "i64"@,
            ScalarType::I32 => "i32"@,
            ScalarType::U8 => "u8"@,
        }
    }

    /// The scalar type with the given data type code.
    pub fn from_i32(code: i32) -> (scalar: Result<ScalarType, DataTypeError>)
        ensures
            scalar == scalar_type(code),
    {
        if code == 1 {
            Ok(ScalarType::F32)
        } else if code == 2 {
            Ok(ScalarType::U8)
        } else if code == 6 {
            Ok(ScalarType::I32)
        } else if code == 7 {
            Ok(ScalarType::I64)
        } else if 0 <= code && code <= LAST_DATA_TYPE {
            Err(DataTypeError::NotSupported(code))
        } else {
            Err(DataTypeError::NotRecognized(code))
        }
    }

    /// The data type code of this type.
    pub fn to_datatype(&self) -> (code: i32)
        ensures
            code == self.code(),
    {
        match self {
            ScalarType::F32 => 1,
            ScalarType::U8 => 2,
            ScalarType::I32 => 6,
            ScalarType::I64 => 7,
        }
    }

    /// The name by which a shape's description calls this type.
    pub fn label(&self) -> (name: &'static str)
        ensures
            name@ == self.name(),
    {
        match self {
            ScalarType::F32 => "f32",
            ScalarType::I64 => "i64",
            ScalarType::I32 => "i32",
            ScalarType::U8 => "u8",
        }
    }
}

/// The element type of a tensor, and its size along each dimension.
#[derive(Debug, PartialEq, Eq)]
pub struct Shape {
    pub dims: Vec<u64>,
    pub data_type: ScalarType,
}

/// The view of a [`Shape`].
#[verifier::ext_equal]
pub struct ShapeView {
    pub dims: Seq<u64>,
    pub data_type: ScalarType,
}

impl View for Shape {
    type V = ShapeView;

    open spec fn view(&self) -> ShapeView {
        ShapeView { dims: self.dims@, data_type: self.data_type }
    }
}

/// Sizes taken as signed numbers.
pub open spec fn signed(dims: Seq<u64>) -> Seq<i64> {
    Seq::new(dims.len(), |i: int| dims[i] as i64)
}

/// Signed numbers taken as sizes.
pub open spec fn unsigned(dims: Seq<i64>) -> Seq<u64> {
    Seq::new(dims.len(), |i: int| dims[i] as u64)
}

/// The shape with the given element type and sizes.
pub open spec fn shape_of(data_type: ScalarType, dims: Seq<i64>) -> ShapeView {
    ShapeView { dims: unsigned(dims), data_type }
}

/// Taking sizes as signed numbers and back changes nothing.
pub proof fn lemma_unsigned_signed(dims: Seq<u64>)
    ensures
        unsigned(signed(dims)) == dims,
{
    assert forall|i: int| 0 <= i < dims.len() implies unsigned(signed(dims))[i] == dims[i] by {
        let d = dims[i];
        assert((d as i64) as u64 == d) by (bit_vector);
    }
    assert(unsigned(signed(dims)) =~= dims);
}

/// Taking signed numbers as sizes and back changes nothing.
pub proof fn lemma_signed_unsigned(dims: Seq<i64>)
    ensures
        signed(unsigned(dims)) == dims,
{
    assert forall|i: int| 0 <= i < dims.len() implies signed(unsigned(dims))[i] == dims[i] by {
        let d = dims[i];
        assert((d as u64) as i64 == d) by (bit_vector);
    }
    assert(signed(unsigned(dims)) =~= dims);
}

/// The sizes in decimal, one after the other with an `x` between them.
pub open spec fn dims_text(dims: Seq<u64>) -> Seq<char>
    decreases dims.len(),
{
    if dims.len() == 0 {
        Seq::empty()
    } else if dims.len() == 1 {
        decimal(dims[0] as int)
    } else {
        dims_text(dims.drop_last()) + "x"@ + decimal(dims.last() as int)
    }
}

impl ShapeView {
    /// The sizes and the element type, as an error message writes them.
    pub open spec fn text(self) -> Seq<char> {
        dims_text(self.dims) + ":"@ + self.data_type.name()
    }

    /// The size at the given distance from the last dimension; 1 beyond the first.
    pub open spec fn from_last(self, distance: int) -> u64 {
        if 0 <= distance < self.dims.len() {
            self.dims[self.dims.len() - 1 - distance]
        } else {
            1
        }
    }

    /// The number of elements, where it and every partial product are a `u64`.
    pub open spec fn element_count(self) -> Option<u64> {
        unsigned_product(self.dims)
    }
}

/// Whether two sizes can stand for one: they are equal, or one of them is 1.
pub open spec fn sizes_agree(a: u64, b: u64) -> bool {
    a == b || a == 1 || b == 1
}

/// The size for which two sizes that agree stand.
pub open spec fn joint_size(a: u64, b: u64) -> u64 {
    if a == 1 {
        b
    } else {
        a
    }
}

/// The larger of two ranks.
pub open spec fn joint_rank(a: ShapeView, b: ShapeView) -> nat {
    if a.dims.len() < b.dims.len() {
        b.dims.len()
    } else {
        a.dims.len()
    }
}

/// Whether two shapes can be broadcast to one: they have the same element type, and their sizes
/// agree when aligned at the last dimension.
pub open spec fn broadcastable(a: ShapeView, b: ShapeView) -> bool {
    &&& a.data_type == b.data_type
    &&& forall|d: int|
        0 <= d < joint_rank(a, b) ==> #[trigger] sizes_agree(a.from_last(d), b.from_last(d))
}

/// The shape to which two shapes can be broadcast, if there is one.
pub open spec fn broadcast(a: ShapeView, b: ShapeView) -> Option<ShapeView> {
    if broadcastable(a, b) {
        let rank = joint_rank(a, b);
        Some(
            ShapeView {
                dims: Seq::new(
                    rank,
                    |i: int| joint_size(a.from_last(rank - 1 - i), b.from_last(rank - 1 - i)),
                ),
                data_type: a.data_type,
            },
        )
    } else {
        None
    }
}

impl Shape {
    /// The shape with the given element type and sizes.
    pub fn from(data_type: ScalarType, dims: &[i64]) -> (shape: Shape)
        ensures
            shape@ == shape_of(data_type, dims@),
    {
        let mut sizes: Vec<u64> = Vec::new();
        let mut i: usize = 0;
        while i < dims.len()
            invariant
                i <= dims@.len(),
                sizes@ == unsigned(dims@).take(i as int),
            decreases dims@.len() - i,
        {
            sizes.push(
                #[verifier::truncate]
                (dims[i] as u64),
            );
            i = i + 1;
            assert(sizes@ =~= unsigned(dims@).take(i as int));
        }
        assert(sizes@ =~= unsigned(dims@));
        Shape { dims: sizes, data_type }
    }

    /// The number of dimensions.
    pub fn rank(&self) -> (rank: usize)
        ensures
            rank == self@.dims.len(),
    {
        self.dims.len()
    }

    /// The size along the given dimension.
    pub fn dim(&self, i: usize) -> (size: u64)
        requires
            i < self@.dims.len(),
        ensures
            size == self@.dims[i as int],
    {
        self.dims[i]
    }

    /// The sizes, as signed numbers.
    pub fn signed_dims(&self) -> (dims: Vec<i64>)
        ensures
            dims@ == signed(self@.dims),
    {
        let mut dims: Vec<i64> = Vec::new();
        let mut i: usize = 0;
        while i < self.dims.len()
            invariant
                i <= self.dims@.len(),
                dims@ == signed(self.dims@).take(i as int),
            decreases self.dims@.len() - i,
        {
            dims.push(
                #[verifier::truncate]
                (self.dims[i] as i64),
            );
            i = i + 1;
            assert(dims@ =~= signed(self.dims@).take(i as int));
        }
        assert(dims@ =~= signed(self.dims@));
        dims
    }

    /// The number of elements; nothing where a partial product is no `u64`.
    pub fn element_count(&self) -> (count: Option<u64>)
        ensures
            count == self@.element_count(),
    {
        checked_unsigned_product(self.dims.as_slice())
    }

    /// The sizes and the element type, as an error message writes them.
    pub fn text(&self) -> (text: String)
        ensures
            text@ == self@.text(),
    {
        let mut text = String::new();
        let mut i: usize = 0;
        while i < self.dims.len()
            invariant
                i <= self.dims@.len(),
                text@ == dims_text(self.dims@.take(i as int)),
            decreases self.dims@.len() - i,
        {
            let size = unsigned_text(self.dims[i]);
            proof {
                let next = self.dims@.take(i + 1);
                assert(next.drop_last() =~= self.dims@.take(i as int));
                assert(next.last() == self.dims@[i as int]);
            }
            if i == 0 {
                text = size;
            } else {
                text.append("x");
                text.append(size.as_str());
            }
            i = i + 1;
        }
        assert(self.dims@.take(i as int) =~= self.dims@);
        text.append(":");
        text.append(self.data_type.label());
        text
    }

    fn from_last(&self, distance: usize) -> (size: u64)
        ensures
            size == self@.from_last(distance as int),
    {
        if distance < self.dims.len() {
            self.dims[self.dims.len() - 1 - distance]
        } else {
            1
        }
    }

    /// The shape to which this shape and another can be broadcast, if there is one.
    pub fn broadcast(&self, other: &Shape) -> (joint: Option<Shape>)
        ensures
            view_option(joint) == broadcast(self@, other@),
    {
        if self.data_type != other.data_type {
            return None;
        }
        let rank: usize = if self.dims.len() < other.dims.len() {
            other.dims.len()
        } else {
            self.dims.len()
        };
        let mut dims: Vec<u64> = Vec::new();
        let mut i: usize = 0;
        while i < rank
            invariant
                i <= rank,
                rank == joint_rank(self@, other@),
                dims@.len() == i,
                forall|j: int|
                    0 <= j < i ==> #[trigger] sizes_agree(
                        self@.from_last(rank - 1 - j),
                        other@.from_last(rank - 1 - j),
                    ),
                forall|j: int|
                    0 <= j < i ==> #[trigger] dims@[j] == joint_size(
                        self@.from_last(rank - 1 - j),
                        other@.from_last(rank - 1 - j),
                    ),
            decreases rank - i,
        {
            let a: u64 = self.from_last(rank - 1 - i);
            let b: u64 = other.from_last(rank - 1 - i);
            if a != b && a != 1 && b != 1 {
                assert(!sizes_agree(self@.from_last(rank - 1 - i), other@.from_last(rank - 1 - i)));
                return None;
            }
            dims.push(
                if a == 1 {
                    b
                } else {
                    a
                },
            );
            i = i + 1;
        }
        assert forall|d: int| 0 <= d < joint_rank(self@, other@) implies #[trigger] sizes_agree(
            self@.from_last(d),
            other@.from_last(d),
        ) by {
            let j = rank - 1 - d;
            assert(sizes_agree(self@.from_last(rank - 1 - j), other@.from_last(rank - 1 - j)));
        }
        let joint = Shape { dims, data_type: self.data_type };
        assert(joint@ =~= broadcast(self@, other@).unwrap());
        Some(joint)
    }
}

impl Clone for Shape {
    fn clone(&self) -> (copy: Shape)
        ensures
            copy@ == self@,
    {
        let dims = self.dims.clone();
        assert(dims@ =~= self.dims@);
        Shape { dims, data_type: self.data_type }
    }
}

/// The sizes of dimensions all of which have one.
pub open spec fn known_sizes(dims: Seq<Option<DimensionValueView>>) -> Option<Seq<i64>> {
    if forall|i: int| 0 <= i < dims.len() ==> #[trigger] dims[i] matches Some(
        DimensionValueView::Value(_),
    ) {
        Some(Seq::new(dims.len(), |i: int| dims[i].unwrap()->Value_0))
    } else {
        None
    }
}

impl ValueInfoView {
    /// The shape of the value, where it is fully known: the value is a tensor of a supported
    /// element type, and each of its dimensions has a size.
    pub open spec fn shape(self) -> Option<ShapeView> {
        match self.field_type {
            Some(TypeView { value: Some(TypeValueView::Tensor(tensor)) }) => match (
                scalar_type(tensor.elem_type),
                tensor.shape,
            ) {
                (Ok(data_type), Some(dims)) => match known_sizes(dims) {
                    Some(sizes) => Some(shape_of(data_type, sizes)),
                    None => None,
                },
                _ => None,
            },
            _ => None,
        }
    }
}

impl TensorShapeProto {
    /// The sizes of the dimensions, where all of them have one.
    fn sizes(&self) -> (sizes: Option<Vec<i64>>)
        ensures
            view_option(sizes) == known_sizes(self@),
    {
        let mut sizes: Vec<i64> = Vec::new();
        let mut i: usize = 0;
        while i < self.dim.len()
            invariant
                i <= self.dim@.len(),
                sizes@.len() == i,
                forall|j: int|
                    0 <= j < i ==> #[trigger] self@[j] == Some(
                        DimensionValueView::Value(sizes@[j]),
                    ),
            decreases self.dim@.len() - i,
        {
            assert(self@[i as int] == self.dim@[i as int]@);
            match &self.dim[i].value {
                Some(DimensionValue::Value(size)) => {
                    sizes.push(*size);
                },
                _ => {
                    return None;
                },
            }
            i = i + 1;
        }
        assert(sizes@ =~= known_sizes(self@).unwrap());
        Some(sizes)
    }
}

impl ValueInfoProto {
    /// The shape of the value, where it is fully known.
    pub fn get_shape(&self) -> (shape: Option<Shape>)
        ensures
            view_option(shape) == self@.shape(),
    {
        match &self.field_type {
            Some(TypeProto { value: Some(TypeValue::Tensor(tensor)) }) => {
                match ScalarType::from_i32(tensor.elem_type) {
                    Ok(data_type) => match &tensor.shape {
                        Some(dims) => match dims.sizes() {
                            Some(sizes) => Some(Shape::from(data_type, sizes.as_slice())),
                            None => None,
                        },
                        None => None,
                    },
                    Err(_) => None,
                }
            },
            _ => None,
        }
    }
}

/// A value with the given name and shape.
pub open spec fn value_with_shape(name: Seq<char>, shape: ShapeView) -> ValueInfoView {
    ValueInfoView {
        name,
        field_type: Some(
            TypeView {
                value: Some(
                    TypeValueView::Tensor(
                        TensorTypeView {
                            elem_type: shape.data_type.code(),
                            shape: Some(
                                Seq::new(
                                    shape.dims.len(),
                                    |i: int|
                                        Some(DimensionValueView::Value(signed(shape.dims)[i])),
                                ),
                            ),
                        },
                    ),
                ),
            },
        ),
    }
}

impl ValueInfoProto {
    /// A value with the given name and shape.
    pub fn with_shape(name: String, shape: &Shape) -> (info: ValueInfoProto)
        ensures
            info@ == value_with_shape(name@, shape@),
    {
        let sizes = shape.signed_dims();
        let mut dim: Vec<Dimension> = Vec::new();
        let mut i: usize = 0;
        while i < sizes.len()
            invariant
                i <= sizes@.len(),
                dim@.len() == i,
                forall|j: int|
                    0 <= j < i ==> (#[trigger] dim@[j])@ == Some(
                        DimensionValueView::Value(sizes@[j]),
                    ),
            decreases sizes@.len() - i,
        {
            dim.push(Dimension { value: Some(DimensionValue::Value(sizes[i])) });
            i = i + 1;
        }
        let ghost expected = value_with_shape(name@, shape@);
        let elem_type: i32 = shape.data_type.to_datatype();
        let shape_proto = TensorShapeProto { dim };
        assert(shape_proto@ =~= Seq::new(
            shape@.dims.len(),
            |i: int| Some(DimensionValueView::Value(signed(shape@.dims)[i])),
        ));
        let tensor = TensorTypeProto { elem_type, shape: Some(shape_proto) };
        ValueInfoProto {
            name,
            field_type: Some(TypeProto { value: Some(TypeValue::Tensor(tensor)) }),
        }
    }
}

/// A recorded shape is read back unchanged.
pub proof fn law_recorded_shape_is_read_back(name: Seq<char>, shape: ShapeView)
    ensures
        value_with_shape(name, shape).shape() == Some(shape),
{
    let dims = Seq::new(
        shape.dims.len(),
        |i: int| Some(DimensionValueView::Value(signed(shape.dims)[i])),
    );
    assert(known_sizes(dims).unwrap() =~= signed(shape.dims));
    lemma_unsigned_signed(shape.dims);
}

/// The code of a scalar type stands for that type, and no other code does.
pub proof fn law_codes_and_types_correspond(data_type: ScalarType, code: i32)
    ensures
        scalar_type(data_type.code()) == Ok::<ScalarType, DataTypeError>(data_type),
        scalar_type(code) == Ok::<ScalarType, DataTypeError>(data_type) ==> code
            == data_type.code(),
{
}

/// Broadcasting does not ask for the order of the two shapes.
pub proof fn law_broadcast_is_symmetric(a: ShapeView, b: ShapeView)
    ensures
        broadcast(a, b) == broadcast(b, a),
{
    assert(joint_rank(a, b) == joint_rank(b, a));
    let rank = joint_rank(a, b);
    assert forall|x: ShapeView, y: ShapeView| #[trigger]
        broadcastable(x, y) implies broadcastable(y, x) by {
        assert forall|d: int| 0 <= d < joint_rank(y, x) implies #[trigger] sizes_agree(
            y.from_last(d),
            x.from_last(d),
        ) by {
            assert(sizes_agree(x.from_last(d), y.from_last(d)));
        }
    }
    if broadcastable(a, b) {
        assert(broadcastable(b, a));
        let left = broadcast(a, b).unwrap();
        let right = broadcast(b, a).unwrap();
        assert forall|i: int| 0 <= i < rank implies left.dims[i] == right.dims[i] by {
            let d = rank - 1 - i;
            assert(sizes_agree(a.from_last(d), b.from_last(d)));
        }
        assert(left =~= right);
    } else if broadcastable(b, a) {
        assert(broadcastable(a, b));
    }
}

/// A shape is broadcast with itself to itself.
pub proof fn law_broadcast_with_itself(a: ShapeView)
    ensures
        broadcast(a, a) == Some(a),
{
    assert(broadcastable(a, a));
    assert(broadcast(a, a).unwrap() =~= a);
}

/// A single element is broadcast to any shape of its element type.
pub proof fn law_broadcast_of_a_single_element(a: ShapeView, one: ShapeView)
    requires
        one.data_type == a.data_type,
        one.dims.len() <= a.dims.len(),
        forall|i: int| 0 <= i < one.dims.len() ==> #[trigger] one.dims[i] == 1,
    ensures
        broadcast(a, one) == Some(a),
{
    assert(broadcastable(a, one));
    assert(broadcast(a, one).unwrap() =~= a);
}

/// Both shapes can be broadcast further to the shape to which they are broadcast, and then it
/// stays.
pub proof fn law_broadcast_takes_in_both(a: ShapeView, b: ShapeView)
    requires
        broadcast(a, b) is Some,
    ensures
        broadcast(a, broadcast(a, b).unwrap()) == broadcast(a, b),
        broadcast(b, broadcast(a, b).unwrap()) == broadcast(a, b),
        broadcast(a, b).unwrap().dims.len() == joint_rank(a, b),
{
    let joint = broadcast(a, b).unwrap();
    let rank = joint_rank(a, b);
    assert forall|d: int| 0 <= d < rank implies joint.from_last(d) == joint_size(
        a.from_last(d),
        b.from_last(d),
    ) by {
        assert(rank - 1 - (rank - 1 - d) == d);
    }
    assert forall|d: int| 0 <= d < rank implies #[trigger] sizes_agree(
        a.from_last(d),
        joint.from_last(d),
    ) by {
        assert(sizes_agree(a.from_last(d), b.from_last(d)));
    }
    assert forall|d: int| 0 <= d < rank implies #[trigger] sizes_agree(
        b.from_last(d),
        joint.from_last(d),
    ) by {
        assert(sizes_agree(a.from_last(d), b.from_last(d)));
    }
    assert(broadcastable(a, joint));
    assert(broadcastable(b, joint));
    assert forall|i: int| 0 <= i < rank implies broadcast(a, joint).unwrap().dims[i]
        == joint.dims[i] && broadcast(b, joint).unwrap().dims[i] == joint.dims[i] by {
        let d = rank - 1 - i;
        assert(sizes_agree(a.from_last(d), b.from_last(d)));
        assert(joint.from_last(d) == joint_size(a.from_last(d), b.from_last(d)));
        assert(joint.from_last(d) == joint.dims[i]);
    }
    assert(broadcast(a, joint).unwrap() =~= joint);
    assert(broadcast(b, joint).unwrap() =~= joint);
}

/// The view of a shape shows its sizes and its element type.
pub proof fn law_shape_view(shape: Shape)
    ensures
        shape@.dims == shape.dims@,
        shape@.data_type == shape.data_type,
{
}

/// A shape is made of the given sizes, one by one, and the given element type.
pub proof fn law_shape_is_made_of_sizes(data_type: ScalarType, dims: Seq<i64>)
    ensures
        shape_of(data_type, dims).data_type == data_type,
        shape_of(data_type, dims).dims.len() == dims.len(),
        forall|i: int|
            0 <= i < dims.len() ==> shape_of(data_type, dims).dims[i] == #[trigger] dims[i] as u64,
{
}

/// The sizes of a shape are taken as signed numbers one by one.
pub proof fn law_sizes_are_taken_one_by_one(dims: Seq<u64>)
    ensures
        signed(dims).len() == dims.len(),
        forall|i: int| 0 <= i < dims.len() ==> signed(dims)[i] == #[trigger] dims[i] as i64,
{
}

/// The element types go by the codes 1, 2, 6 and 7. The other codes up to 16 are not supported, and
/// what lies beyond is no code.
pub proof fn law_codes_of_types(code: i32)
    ensures
        ScalarType::F32.code() == 1,
        ScalarType::U8.code() == 2,
        ScalarType::I32.code() == 6,
        ScalarType::I64.code() == 7,
        code == 1 ==> scalar_type(code) == Ok::<ScalarType, DataTypeError>(ScalarType::F32),
        code == 2 ==> scalar_type(code) == Ok::<ScalarType, DataTypeError>(ScalarType::U8),
        code == 6 ==> scalar_type(code) == Ok::<ScalarType, DataTypeError>(ScalarType::I32),
        code == 7 ==> scalar_type(code) == Ok::<ScalarType, DataTypeError>(ScalarType::I64),
        0 <= code <= 16 && code != 1 && code != 2 && code != 6 && code != 7 ==> scalar_type(code)
            == Err::<ScalarType, DataTypeError>(DataTypeError::NotSupported(code)),
        code < 0 || code > 16 ==> scalar_type(code) == Err::<ScalarType, DataTypeError>(
            DataTypeError::NotRecognized(code),
        ),
{
}

/// A shape has as many elements as multiplying its sizes gives, where no partial product leaves the
/// range of 64 bits.
pub proof fn law_elements_are_counted(shape: ShapeView)
    ensures
        shape.element_count() matches Some(count) ==> count == shape.dims.fold_left(
            1int,
            |before: int, size: u64| before * size,
        ),
        shape.element_count() is Some <==> forall|k: int|
            0 <= k <= shape.dims.len() ==> (#[trigger] shape.dims.take(k)).fold_left(
                1int,
                |before: int, size: u64| before * size,
            ) <= u64::MAX,
{
    law_unsigned_product_multiplies_all(shape.dims);
}

/// The text of a shape is its sizes, with an `x` between each two, a colon, and the element type.
pub proof fn law_shape_text(shape: ShapeView)
    ensures
        ({
            let name = match shape.data_type {
                ScalarType::F32 => "f32"@,
                ScalarType::I64 => "i64"@,
                ScalarType::I32 => "i32"@,
                ScalarType::U8 => "u8"@,
            };
            let sizes = if shape.dims.len() == 0 {
                Seq::<char>::empty()
            } else {
                shape.dims.drop_first().fold_left(
                    decimal(shape.dims[0] as int),
                    |before: Seq<char>, size: u64| before + "x"@ + decimal(size as int),
                )
            };
            shape.text() == sizes + ":"@ + name
        }),
{
    if shape.dims.len() > 0 {
        lemma_dims_text(shape.dims);
    }
}

proof fn lemma_dims_text(dims: Seq<u64>)
    requires
        dims.len() > 0,
    ensures
        dims_text(dims) == dims.drop_first().fold_left(
            decimal(dims[0] as int),
            |before: Seq<char>, size: u64| before + "x"@ + decimal(size as int),
        ),
    decreases dims.len(),
{
    reveal(Seq::fold_left);
    let rest = dims.drop_first();
    if dims.len() > 1 {
        lemma_dims_text(dims.drop_last());
        assert(dims.drop_last().drop_first() =~= rest.drop_last());
        assert(rest.last() == dims.last());
    }
}

/// A value has a shape where it is a tensor with an element type of code 1, 2, 6 or 7 and a size for
/// each dimension. The shape has these sizes and that element type.
pub proof fn law_full_shapes_are_read(
    value: ValueInfoView,
    tensor: TensorTypeView,
    dims: Seq<Option<DimensionValueView>>,
    sizes: Seq<i64>,
)
    requires
        value.field_type == Some(TypeView { value: Some(TypeValueView::Tensor(tensor)) }),
        tensor.shape == Some(dims),
        tensor.elem_type == 1 || tensor.elem_type == 2 || tensor.elem_type == 6 || tensor.elem_type
            == 7,
        sizes.len() == dims.len(),
        forall|i: int|
            0 <= i < dims.len() ==> #[trigger] dims[i] == Some(DimensionValueView::Value(sizes[i])),
    ensures
        value.shape() matches Some(shape) && {
            &&& shape.dims.len() == sizes.len()
            &&& forall|i: int|
                0 <= i < sizes.len() ==> shape.dims[i] == #[trigger] sizes[i] as u64
            &&& shape.data_type == if tensor.elem_type == 1 {
                ScalarType::F32
            } else if tensor.elem_type == 2 {
                ScalarType::U8
            } else if tensor.elem_type == 6 {
                ScalarType::I32
            } else {
                ScalarType::I64
            }
        },
{
    assert(known_sizes(dims).unwrap() =~= sizes);
}

/// A value has no shape where it is no tensor, where its element type is not supported, where it has
/// no dimensions set, or where one of them has no size.
pub proof fn law_other_shapes_are_not_read(value: ValueInfoView)
    requires
        match value.field_type {
            Some(TypeView { value: Some(TypeValueView::Tensor(tensor)) }) => {
                ||| tensor.elem_type != 1 && tensor.elem_type != 2 && tensor.elem_type != 6
                    && tensor.elem_type != 7
                ||| tensor.shape is None
                ||| exists|i: int|
                    0 <= i < tensor.shape.unwrap().len() && !(#[trigger] tensor.shape.unwrap()[i]
                        matches Some(DimensionValueView::Value(_)))
            },
            _ => true,
        },
    ensures
        value.shape() is None,
{
}

/// A recorded value has the name and the shape that it is recorded with.
pub proof fn law_recorded_value(name: Seq<char>, shape: ShapeView)
    ensures
        value_with_shape(name, shape).name == name,
        value_with_shape(name, shape).shape() == Some(shape),
        value_with_shape(name, shape).field_type matches Some(
            TypeView { value: Some(TypeValueView::Tensor(tensor)) },
        ) && {
            &&& tensor.elem_type == match shape.data_type {
                ScalarType::F32 => 1i32,
                ScalarType::U8 => 2i32,
                ScalarType::I32 => 6i32,
                ScalarType::I64 => 7i32,
            }
            &&& tensor.shape matches Some(dims) && dims.len() == shape.dims.len() && forall|i: int|
                0 <= i < dims.len() ==> #[trigger] dims[i] == Some(
                    DimensionValueView::Value(shape.dims[i] as i64),
                )
        },
{
    law_recorded_shape_is_read_back(name, shape);
}

} // verus!
