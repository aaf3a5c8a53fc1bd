//! The parts of an ONNX graph that shape inference and shader generation read and write.
//!
//! Each message type has a view: the same value, made of sequences. Floating point values are
//! carried by their IEEE 754 bits.
use vstd::prelude::*;
use crate::text::same_text;

verus! {

/// The views of the elements of `items`.
pub open spec fn views<T: View>(items: Seq<T>) -> Seq<T::V> {
    Seq::new(items.len(), |i: int| items[i]@)
}

/// The view of an optional value.
pub open spec fn view_option<T: View>(value: Option<T>) -> Option<T::V> {
    match value {
        Some(value) => Some(value@),
        None => None,
    }
}

/// A single precision number: its bits, and the decimal text by which a shader writes it.
#[derive(Debug, PartialEq, Eq)]
pub struct Float {
    pub bits: u32,
    pub text: String,
}

/// The view of a [`Float`].
#[verifier::ext_equal]
pub struct FloatView {
    pub bits: u32,
    pub text: Seq<char>,
}

impl View for Float {
    type V = FloatView;

    open spec fn view(&self) -> FloatView {
        FloatView { bits: self.bits, text: self.text@ }
    }
}

/// A constant tensor. Of the data fields the one that belongs to the data type is filled, or else
/// `raw_data` holds the elements as bytes.
#[derive(Debug, PartialEq, Eq)]
pub struct TensorProto {
    pub name: String,
    pub data_type: i32,
    pub dims: Vec<i64>,
    pub float_data: Vec<u32>,
    pub int32_data: Vec<i32>,
    pub int64_data: Vec<i64>,
    pub raw_data: Option<Vec<u8>>,
}

/// The view of a [`TensorProto`].
#[verifier::ext_equal]
pub struct TensorView {
    pub name: Seq<char>,
    pub data_type: i32,
    pub dims: Seq<i64>,
    pub float_data: Seq<u32>,
    pub int32_data: Seq<i32>,
    pub int64_data: Seq<i64>,
    pub raw_data: Option<Seq<u8>>,
}

impl View for TensorProto {
    type V = TensorView;

    open spec fn view(&self) -> TensorView {
        TensorView {
            name: self.name@,
            data_type: self.data_type,
            dims: self.dims@,
            float_data: self.float_data@,
            int32_data: self.int32_data@,
            int64_data: self.int64_data@,
            raw_data: view_option(self.raw_data),
        }
    }
}

/// The tensor of which nothing is set.
pub open spec fn empty_tensor() -> TensorView {
    TensorView {
        name: Seq::empty(),
        data_type: 0,
        dims: Seq::empty(),
        float_data: Seq::empty(),
        int32_data: Seq::empty(),
        int64_data: Seq::empty(),
        raw_data: None,
    }
}

impl TensorProto {
    /// A tensor of which nothing is set.
    pub fn new() -> (tensor: TensorProto)
        ensures
            tensor@ == empty_tensor(),
    {
        TensorProto {
            name: String::new(),
            data_type: 0,
            dims: Vec::new(),
            float_data: Vec::new(),
            int32_data: Vec::new(),
            int64_data: Vec::new(),
            raw_data: None,
        }
    }
}

impl Clone for TensorProto {
    fn clone(&self) -> (copy: TensorProto)
        ensures
            copy@ == self@,
    {
        let raw_data: Option<Vec<u8>> = match &self.raw_data {
            Some(raw) => Some(raw.clone()),
            None => None,
        };
        let copy = TensorProto {
            name: self.name.clone(),
            data_type: self.data_type,
            dims: self.dims.clone(),
            float_data: self.float_data.clone(),
            int32_data: self.int32_data.clone(),
            int64_data: self.int64_data.clone(),
            raw_data,
        };
        assert(copy.dims@ =~= self.dims@);
        assert(copy.float_data@ =~= self.float_data@);
        assert(copy.int32_data@ =~= self.int32_data@);
        assert(copy.int64_data@ =~= self.int64_data@);
        assert(copy.raw_data is Some ==> copy.raw_data.unwrap()@ =~= self.raw_data.unwrap()@);
        copy
    }
}

/// A named attribute of a node. The field that its type calls for is filled; the others keep
/// their defaults.
#[derive(Debug, PartialEq, Eq)]
pub struct AttributeProto {
    pub name: String,
    pub f: Float,
    pub i: i64,
    pub s: Vec<u8>,
    pub t: TensorProto,
    pub floats: Vec<u32>,
    pub ints: Vec<i64>,
}

/// The view of an [`AttributeProto`].
#[verifier::ext_equal]
pub struct AttributeView {
    pub name: Seq<char>,
    pub f: FloatView,
    pub i: i64,
    pub s: Seq<u8>,
    pub t: TensorView,
    pub floats: Seq<u32>,
    pub ints: Seq<i64>,
}

impl View for AttributeProto {
    type V = AttributeView;

    open spec fn view(&self) -> AttributeView {
        AttributeView {
            name: self.name@,
            f: self.f@,
            i: self.i,
            s: self.s@,
            t: self.t@,
            floats: self.floats@,
            ints: self.ints@,
        }
    }
}

impl AttributeProto {
    /// An attribute of which only the name is set. The number zero is written `0`.
    pub fn new(name: String) -> (attribute: AttributeProto)
        ensures
            attribute@ == (AttributeView {
                name: name@,
                f: FloatView { bits: 0, text: "0"@ },
                i: 0,
                s: Seq::empty(),
                t: empty_tensor(),
                floats: Seq::empty(),
                ints: Seq::empty(),
            }),
    {
        AttributeProto {
            name,
            f: Float { bits: 0, text: "0".to_owned() },
            i: 0,
            s: Vec::new(),
            t: TensorProto::new(),
            floats: Vec::new(),
            ints: Vec::new(),
        }
    }
}

/// A node: an operator applied to named values.
#[derive(Debug, PartialEq, Eq)]
pub struct NodeProto {
    pub name: String,
    pub op_type: String,
    pub input: Vec<String>,
    pub output: Vec<String>,
    pub attribute: Vec<AttributeProto>,
}

/// The view of a [`NodeProto`].
#[verifier::ext_equal]
pub struct NodeView {
    pub name: Seq<char>,
    pub op_type: Seq<char>,
    pub input: Seq<Seq<char>>,
    pub output: Seq<Seq<char>>,
    pub attribute: Seq<AttributeView>,
}

impl View for NodeProto {
    type V = NodeView;

    open spec fn view(&self) -> NodeView {
        NodeView {
            name: self.name@,
            op_type: self.op_type@,
            input: views(self.input@),
            output: views(self.output@),
            attribute: views(self.attribute@),
        }
    }
}

/// The first of `attributes` with the given name.
pub open spec fn first_named(attributes: Seq<AttributeView>, name: Seq<char>) -> Option<
    AttributeView,
>
    decreases attributes.len(),
{
    if attributes.len() == 0 {
        None
    } else if attributes[0].name == name {
        Some(attributes[0])
    } else {
        first_named(attributes.drop_first(), name)
    }
}

impl NodeView {
    /// The attribute with the given name; of several, the first.
    pub open spec fn find(self, name: Seq<char>) -> Option<AttributeView> {
        first_named(self.attribute, name)
    }

    /// The integer that the named attribute holds, or else the default.
    pub open spec fn int_or(self, name: Seq<char>, default: i64) -> i64 {
        match self.find(name) {
            Some(attribute) => attribute.i,
            None => default,
        }
    }

    /// The integers that the named attribute holds, or else the default.
    pub open spec fn ints_or(self, name: Seq<char>, default: Seq<i64>) -> Seq<i64> {
        match self.find(name) {
            Some(attribute) => attribute.ints,
            None => default,
        }
    }
}

impl NodeProto {
    /// The attribute with the given name; of several, the first.
    pub fn find_attribute(&self, name: &str) -> (found: Option<&AttributeProto>)
        ensures
            match found {
                Some(attribute) => self@.find(name@) == Some(attribute@),
                None => self@.find(name@) is None,
            },
    {
        let mut i: usize = 0;
        let ghost all = views(self.attribute@);
        assert(all.skip(0) =~= all);
        while i < self.attribute.len()
            invariant
                i <= self.attribute@.len(),
                all == views(self.attribute@),
                first_named(all, name@) == first_named(all.skip(i as int), name@),
            decreases self.attribute@.len() - i,
        {
            assert(all.skip(i as int)[0] == self.attribute@[i as int]@);
            if same_text(self.attribute[i].name.as_str(), name) {
                return Some(&self.attribute[i]);
            }
            assert(all.skip(i as int).drop_first() =~= all.skip(i + 1));
            i = i + 1;
        }
        None
    }

    /// Whether the node has an attribute with the given name.
    pub fn has_attribute(&self, name: &str) -> (has: bool)
        ensures
            has == (self@.find(name@) is Some),
    {
        match self.find_attribute(name) {
            Some(_) => true,
            None => false,
        }
    }

    /// The integer that the named attribute holds, or else the default.
    pub fn int_or(&self, name: &str, default: i64) -> (value: i64)
        ensures
            value == self@.int_or(name@, default),
    {
        match self.find_attribute(name) {
            Some(attribute) => attribute.i,
            None => default,
        }
    }

    /// The integers that the named attribute holds, or else the default.
    pub fn ints_or(&self, name: &str, default: Vec<i64>) -> (values: Vec<i64>)
        ensures
            values@ == self@.ints_or(name@, default@),
    {
        match self.find_attribute(name) {
            Some(attribute) => {
                let values = attribute.ints.clone();
                assert(values@ =~= attribute.ints@);
                values
            },
            None => default,
        }
    }
}

/// What is said of one dimension: its size, or the name of a parameter that stands for it.
#[derive(Debug, PartialEq, Eq)]
pub enum DimensionValue {
    Value(i64),
    Param(String),
}

/// The view of a [`DimensionValue`].
pub enum DimensionValueView {
    Value(i64),
    Param(Seq<char>),
}

impl View for DimensionValue {
    type V = DimensionValueView;

    open spec fn view(&self) -> DimensionValueView {
        match self {
            DimensionValue::Value(size) => DimensionValueView::Value(*size),
            DimensionValue::Param(name) => DimensionValueView::Param(name@),
        }
    }
}

/// One dimension of a tensor type.
#[derive(Debug, PartialEq, Eq)]
pub struct Dimension {
    pub value: Option<DimensionValue>,
}

impl View for Dimension {
    type V = Option<DimensionValueView>;

    open spec fn view(&self) -> Option<DimensionValueView> {
        view_option(self.value)
    }
}

/// The dimensions of a tensor type.
#[derive(Debug, PartialEq, Eq)]
pub struct TensorShapeProto {
    pub dim: Vec<Dimension>,
}

impl View for TensorShapeProto {
    type V = Seq<Option<DimensionValueView>>;

    open spec fn view(&self) -> Seq<Option<DimensionValueView>> {
        views(self.dim@)
    }
}

/// The type of a tensor: the code of its elements' type, and its shape where that is known.
#[derive(Debug, PartialEq, Eq)]
pub struct TensorTypeProto {
    pub elem_type: i32,
    pub shape: Option<TensorShapeProto>,
}

/// The view of a [`TensorTypeProto`].
#[verifier::ext_equal]
pub struct TensorTypeView {
    pub elem_type: i32,
    pub shape: Option<Seq<Option<DimensionValueView>>>,
}

impl View for TensorTypeProto {
    type V = TensorTypeView;

    open spec fn view(&self) -> TensorTypeView {
        TensorTypeView { elem_type: self.elem_type, shape: view_option(self.shape) }
    }
}

/// What a value can be: a tensor, or a sequence, a map or the like.
#[derive(Debug, PartialEq, Eq)]
pub enum TypeValue {
    Tensor(TensorTypeProto),
    Other,
}

/// The view of a [`TypeValue`].
#[verifier::ext_equal]
pub enum TypeValueView {
    Tensor(TensorTypeView),
    Other,
}

impl View for TypeValue {
    type V = TypeValueView;

    open spec fn view(&self) -> TypeValueView {
        match self {
            TypeValue::Tensor(tensor) => TypeValueView::Tensor(tensor@),
            TypeValue::Other => TypeValueView::Other,
        }
    }
}

/// The type of a value.
#[derive(Debug, PartialEq, Eq)]
pub struct TypeProto {
    pub value: Option<TypeValue>,
}

/// The view of a [`TypeProto`].
#[verifier::ext_equal]
pub struct TypeView {
    pub value: Option<TypeValueView>,
}

impl View for TypeProto {
    type V = TypeView;

    open spec fn view(&self) -> TypeView {
        TypeView { value: view_option(self.value) }
    }
}

/// A named value and its type.
#[derive(Debug, PartialEq, Eq)]
pub struct ValueInfoProto {
    pub name: String,
    pub field_type: Option<TypeProto>,
}

/// The view of a [`ValueInfoProto`].
#[verifier::ext_equal]
pub struct ValueInfoView {
    pub name: Seq<char>,
    pub field_type: Option<TypeView>,
}

impl View for ValueInfoProto {
    type V = ValueInfoView;

    open spec fn view(&self) -> ValueInfoView {
        ValueInfoView { name: self.name@, field_type: view_option(self.field_type) }
    }
}

/// A graph: its nodes in execution order, its constants, and what is known of its values.
#[derive(Debug, PartialEq, Eq)]
pub struct GraphProto {
    pub node: Vec<NodeProto>,
    pub initializer: Vec<TensorProto>,
    pub input: Vec<ValueInfoProto>,
    pub output: Vec<ValueInfoProto>,
    pub value_info: Vec<ValueInfoProto>,
}

/// The view of a [`GraphProto`].
#[verifier::ext_equal]
pub struct GraphView {
    pub node: Seq<NodeView>,
    pub initializer: Seq<TensorView>,
    pub input: Seq<ValueInfoView>,
    pub output: Seq<ValueInfoView>,
    pub value_info: Seq<ValueInfoView>,
}

impl View for GraphProto {
    type V = GraphView;

    open spec fn view(&self) -> GraphView {
        GraphView {
            node: views(self.node@),
            initializer: views(self.initializer@),
            input: views(self.input@),
            output: views(self.output@),
            value_info: views(self.value_info@),
        }
    }
}

/// An attribute is found where no earlier one has its name.
pub proof fn law_the_first_attribute_is_found(node: NodeView, index: int)
    requires
        0 <= index < node.attribute.len(),
        forall|j: int|
            0 <= j < index ==> (#[trigger] node.attribute[j]).name != node.attribute[index].name,
    ensures
        node.find(node.attribute[index].name) == Some(node.attribute[index]),
{
    lemma_first_named(node.attribute, index);
}

proof fn lemma_first_named(attributes: Seq<AttributeView>, index: int)
    requires
        0 <= index < attributes.len(),
        forall|j: int|
            0 <= j < index ==> (#[trigger] attributes[j]).name != attributes[index].name,
    ensures
        first_named(attributes, attributes[index].name) == Some(attributes[index]),
    decreases attributes.len(),
{
    if index > 0 {
        let rest = attributes.drop_first();
        assert(attributes[0].name != attributes[index].name);
        assert forall|j: int| 0 <= j < index - 1 implies (#[trigger] rest[j]).name != rest[index
            - 1].name by {
            assert(rest[j] == attributes[j + 1]);
        }
        lemma_first_named(rest, index - 1);
    }
}

/// No attribute is found under a name that none has.
pub proof fn law_no_other_attribute_is_found(node: NodeView, name: Seq<char>)
    requires
        forall|j: int| 0 <= j < node.attribute.len() ==> (#[trigger] node.attribute[j]).name != name,
    ensures
        node.find(name) is None,
{
    lemma_none_named(node.attribute, name);
}

proof fn lemma_none_named(attributes: Seq<AttributeView>, name: Seq<char>)
    requires
        forall|j: int| 0 <= j < attributes.len() ==> (#[trigger] attributes[j]).name != name,
    ensures
        first_named(attributes, name) is None,
    decreases attributes.len(),
{
    if attributes.len() > 0 {
        let rest = attributes.drop_first();
        assert(attributes[0].name != name);
        assert forall|j: int| 0 <= j < rest.len() implies (#[trigger] rest[j]).name != name by {
            assert(rest[j] == attributes[j + 1]);
        }
        lemma_none_named(rest, name);
    }
}

/// An attribute that is there gives its own numbers, whatever the default; otherwise the default is
/// given.
pub proof fn law_defaults_stand_in(node: NodeView, name: Seq<char>, one: i64, more: Seq<i64>)
    ensures
        node.find(name) matches Some(attribute) ==> node.int_or(name, one) == attribute.i
            && node.ints_or(name, more) == attribute.ints,
        node.find(name) is None ==> node.int_or(name, one) == one && node.ints_or(name, more)
            == more,
{
}

/// The views of a list are those of its elements, in their order.
pub proof fn law_views_show_each_element<T: View>(items: Seq<T>)
    ensures
        views(items).len() == items.len(),
        forall|i: int| 0 <= i < items.len() ==> views(items)[i] == (#[trigger] items[i])@,
{
}

/// The view of a tensor shows each of its fields.
pub proof fn law_tensor_view(tensor: TensorProto)
    ensures
        tensor@.name == tensor.name@,
        tensor@.data_type == tensor.data_type,
        tensor@.dims == tensor.dims@,
        tensor@.float_data == tensor.float_data@,
        tensor@.int32_data == tensor.int32_data@,
        tensor@.int64_data == tensor.int64_data@,
        match tensor.raw_data {
            Some(raw) => tensor@.raw_data == Some(raw@),
            None => tensor@.raw_data is None,
        },
{
}

/// The view of an attribute shows each of its fields.
pub proof fn law_attribute_view(attribute: AttributeProto)
    ensures
        attribute@.name == attribute.name@,
        attribute@.f.bits == attribute.f.bits,
        attribute@.f.text == attribute.f.text@,
        attribute@.i == attribute.i,
        attribute@.s == attribute.s@,
        attribute@.t == attribute.t@,
        attribute@.floats == attribute.floats@,
        attribute@.ints == attribute.ints@,
{
}

/// The view of a node shows each of its fields.
pub proof fn law_node_view(node: NodeProto)
    ensures
        node@.name == node.name@,
        node@.op_type == node.op_type@,
        node@.input.len() == node.input@.len(),
        forall|i: int| 0 <= i < node.input@.len() ==> node@.input[i] == (#[trigger] node.input@[i])@,
        node@.output.len() == node.output@.len(),
        forall|i: int|
            0 <= i < node.output@.len() ==> node@.output[i] == (#[trigger] node.output@[i])@,
        node@.attribute.len() == node.attribute@.len(),
        forall|i: int|
            0 <= i < node.attribute@.len() ==> node@.attribute[i]
                == (#[trigger] node.attribute@[i])@,
{
}

/// The view of a value shows its name, and its type as far as it is set.
pub proof fn law_value_view(value: ValueInfoProto)
    ensures
        value@.name == value.name@,
        match value.field_type {
            None => value@.field_type is None,
            Some(TypeProto { value: None }) => value@.field_type == Some(TypeView { value: None }),
            Some(TypeProto { value: Some(TypeValue::Other) }) => value@.field_type == Some(
                TypeView { value: Some(TypeValueView::Other) },
            ),
            Some(TypeProto { value: Some(TypeValue::Tensor(tensor)) }) => value@.field_type matches
                Some(TypeView { value: Some(TypeValueView::Tensor(view)) }) && {
                &&& view.elem_type == tensor.elem_type
                &&& match tensor.shape {
                    None => view.shape is None,
                    Some(shape) => view.shape matches Some(dims) && {
                        &&& dims.len() == shape.dim@.len()
                        &&& forall|i: int|
                            0 <= i < dims.len() ==> match (#[trigger] shape.dim@[i]).value {
                                None => dims[i] is None,
                                Some(DimensionValue::Value(size)) => dims[i] == Some(
                                    DimensionValueView::Value(size),
                                ),
                                Some(DimensionValue::Param(param)) => dims[i] == Some(
                                    DimensionValueView::Param(param@),
                                ),
                            }
                    },
                }
            },
        },
{
}

/// The view of a graph shows each of its lists.
pub proof fn law_graph_view(graph: GraphProto)
    ensures
        graph@.node.len() == graph.node@.len(),
        forall|i: int| 0 <= i < graph.node@.len() ==> graph@.node[i] == (#[trigger] graph.node@[i])@,
        graph@.initializer.len() == graph.initializer@.len(),
        forall|i: int|
            0 <= i < graph.initializer@.len() ==> graph@.initializer[i]
                == (#[trigger] graph.initializer@[i])@,
        graph@.input.len() == graph.input@.len(),
        forall|i: int|
            0 <= i < graph.input@.len() ==> graph@.input[i] == (#[trigger] graph.input@[i])@,
        graph@.output.len() == graph.output@.len(),
        forall|i: int|
            0 <= i < graph.output@.len() ==> graph@.output[i] == (#[trigger] graph.output@[i])@,
        graph@.value_info.len() == graph.value_info@.len(),
        forall|i: int|
            0 <= i < graph.value_info@.len() ==> graph@.value_info[i]
                == (#[trigger] graph.value_info@[i])@,
{
}

} // verus!
