//! Constants: the data of tensors that hold it as bytes, and the tensors that `Constant` nodes
//! hold.
pub mod laws;
pub mod meaning;

use vstd::prelude::*;
use vstd::string::StringExecFns;
use crate::error::{ErrorView, ShapeInferenceError};
use crate::forward::common::{invalid, invalid_node};
use crate::onnx::{
    empty_tensor, GraphProto, GraphView, NodeProto, NodeView, TensorProto, TensorView,
};
use crate::shape::{scalar_type, ScalarType};
use crate::text::{decimal, same_text, unsigned_text};

verus! {

/// The order in which a machine keeps the bytes of a number.
#[derive(Clone, Copy, Debug, PartialEq, Eq, Structural)]
pub enum ByteOrder {
    /// The least significant byte comes first.
    Little,
    /// The most significant byte comes first.
    Big,
}

/// The number of four bytes, of which the first is the least significant.
pub open spec fn little_u32(bytes: Seq<u8>) -> int {
    bytes[0] + 0x100 * bytes[1] + 0x1_0000 * bytes[2] + 0x100_0000 * bytes[3]
}

/// The number of eight bytes, of which the first is the least significant.
pub open spec fn little_u64(bytes: Seq<u8>) -> int {
    little_u32(bytes.take(4)) + 0x1_0000_0000 * little_u32(bytes.skip(4))
}

/// Bytes in the given order, with the least significant first.
pub open spec fn least_first(bytes: Seq<u8>, order: ByteOrder) -> Seq<u8> {
    match order {
        ByteOrder::Little => bytes,
        ByteOrder::Big => bytes.reverse(),
    }
}

/// The numbers that bytes hold, four to each.
pub open spec fn words(bytes: Seq<u8>, order: ByteOrder) -> Seq<u32> {
    Seq::new(
        bytes.len() / 4,
        |i: int| little_u32(least_first(bytes.subrange(4 * i, 4 * i + 4), order)) as u32,
    )
}

/// The numbers that bytes hold, eight to each.
pub open spec fn double_words(bytes: Seq<u8>, order: ByteOrder) -> Seq<u64> {
    Seq::new(
        bytes.len() / 8,
        |i: int| little_u64(least_first(bytes.subrange(8 * i, 8 * i + 8), order)) as u64,
    )
}

/// The tensor with its bytes moved to the field that belongs to its data type, and whether that
/// could be done. `None` where the bytes are no whole number of elements.
pub open spec fn fixed(tensor: TensorView, order: ByteOrder) -> Option<
    (TensorView, Result<(), ErrorView>),
> {
    match tensor.raw_data {
        None => Some((tensor, Ok(()))),
        Some(raw) => match scalar_type(tensor.data_type) {
            Err(error) => Some(
                (
                    TensorView { raw_data: None, ..tensor },
                    Err(ErrorView::UnsupportedDataType(error)),
                ),
            ),
            Ok(ScalarType::F32) => if raw.len() % 4 != 0 {
                None
            } else {
                Some(
                    (
                        TensorView { raw_data: None, float_data: words(raw, order), ..tensor },
                        Ok(()),
                    ),
                )
            },
            Ok(ScalarType::I32) => if raw.len() % 4 != 0 {
                None
            } else {
                Some(
                    (
                        TensorView {
                            raw_data: None,
                            int32_data: Seq::new(
                                raw.len() / 4,
                                |i: int| words(raw, order)[i] as i32,
                            ),
                            ..tensor
                        },
                        Ok(()),
                    ),
                )
            },
            Ok(ScalarType::I64) => if raw.len() % 8 != 0 {
                None
            } else {
                Some(
                    (
                        TensorView {
                            raw_data: None,
                            int64_data: Seq::new(
                                raw.len() / 8,
                                |i: int| double_words(raw, order)[i] as i64,
                            ),
                            ..tensor
                        },
                        Ok(()),
                    ),
                )
            },
            Ok(ScalarType::U8) => Some((tensor, Ok(()))),
        },
    }
}

/// The view of a result without a value.
pub open spec fn unit(result: Result<(), ShapeInferenceError>) -> Result<(), ErrorView> {
    match result {
        Ok(_) => Ok(()),
        Err(error) => Err(error@),
    }
}

/// `bytemuck::cast_slice`, from bytes to groups of `N` of them, followed by a copy: the groups are
/// the bytes in their order, `N` by `N`. As a group is aligned like a byte, the cast fails only
/// where the last group would not be full.
#[verifier::external_body]
fn byte_groups<const N: usize>(bytes: &[u8]) -> (groups: Vec<[u8; N]>)
    requires
        N > 0,
        bytes@.len() % (N as nat) == 0,
    ensures
        groups@.len() == bytes@.len() / (N as nat),
        forall|i: int|
            0 <= i < groups@.len() ==> (#[trigger] groups@[i])@ == bytes@.subrange(
                N * i,
                N * i + N,
            ),
{
    bytemuck::cast_slice::<u8, [u8; N]>(bytes).to_vec()
}

/// `u16::from_ne_bytes`: the number that two bytes are on this machine, whose byte order is one of
/// the two.
#[verifier::external_body]
fn native_u16(bytes: [u8; 2]) -> (number: u16)
    ensures
        number == two_bytes(bytes@, ByteOrder::Little) || number == two_bytes(
            bytes@,
            ByteOrder::Big,
        ),
{
    u16::from_ne_bytes(bytes)
}

/// The byte order of this machine. Which one it is hangs on the machine alone.
pub(crate) fn native_byte_order() -> ByteOrder {
    byte_order_of(native_u16([1, 0]))
}

/// The number of two bytes in the given order.
pub open spec fn two_bytes(bytes: Seq<u8>, order: ByteOrder) -> int {
    match order {
        ByteOrder::Little => bytes[0] + 256 * bytes[1],
        ByteOrder::Big => 256 * bytes[0] + bytes[1],
    }
}

/// The byte order of a machine to which the bytes 1 and 0 are the given number.
pub fn byte_order_of(number: u16) -> (order: ByteOrder)
    ensures
        order == (if number == 1 {
            ByteOrder::Little
        } else {
            ByteOrder::Big
        }),
        number == 1 || number == 256 ==> number == two_bytes(seq![1u8, 0u8], order),
{
    if number == 1 {
        ByteOrder::Little
    } else {
        ByteOrder::Big
    }
}

fn number_of_four(a: u8, b: u8, c: u8, d: u8) -> (number: u32)
    ensures
        number == a + 0x100 * b + 0x1_0000 * c + 0x100_0000 * d,
{
    a as u32 + 0x100 * (b as u32) + 0x1_0000 * (c as u32) + 0x100_0000 * (d as u32)
}

fn read_words(bytes: &[u8], order: ByteOrder) -> (numbers: Vec<u32>)
    requires
        bytes@.len() % 4 == 0,
    ensures
        numbers@ == words(bytes@, order),
{
    let groups = byte_groups::<4>(bytes);
    let mut numbers: Vec<u32> = Vec::new();
    let mut i: usize = 0;
    while i < groups.len()
        invariant
            i <= groups@.len(),
            groups@.len() == bytes@.len() / 4,
            forall|i: int|
                0 <= i < groups@.len() ==> (#[trigger] groups@[i])@ == bytes@.subrange(
                    4 * i,
                    4 * i + 4,
                ),
            numbers@ == words(bytes@, order).take(i as int),
        decreases groups@.len() - i,
    {
        let g: [u8; 4] = groups[i];
        let number: u32 = match order {
            ByteOrder::Little => number_of_four(g[0], g[1], g[2], g[3]),
            ByteOrder::Big => number_of_four(g[3], g[2], g[1], g[0]),
        };
        numbers.push(number);
        assert(numbers@ =~= words(bytes@, order).take(i + 1));
        i = i + 1;
    }
    assert(numbers@ =~= words(bytes@, order));
    numbers
}

fn read_double_words(bytes: &[u8], order: ByteOrder) -> (numbers: Vec<u64>)
    requires
        bytes@.len() % 8 == 0,
    ensures
        numbers@ == double_words(bytes@, order),
{
    let groups = byte_groups::<8>(bytes);
    let mut numbers: Vec<u64> = Vec::new();
    let mut i: usize = 0;
    while i < groups.len()
        invariant
            i <= groups@.len(),
            groups@.len() == bytes@.len() / 8,
            forall|i: int|
                0 <= i < groups@.len() ==> (#[trigger] groups@[i])@ == bytes@.subrange(
                    8 * i,
                    8 * i + 8,
                ),
            numbers@ == double_words(bytes@, order).take(i as int),
        decreases groups@.len() - i,
    {
        let g: [u8; 8] = groups[i];
        let (low, high): (u32, u32) = match order {
            ByteOrder::Little => (
                number_of_four(g[0], g[1], g[2], g[3]),
                number_of_four(g[4], g[5], g[6], g[7]),
            ),
            ByteOrder::Big => (
                number_of_four(g[7], g[6], g[5], g[4]),
                number_of_four(g[3], g[2], g[1], g[0]),
            ),
        };
        numbers.push(low as u64 + 0x1_0000_0000 * (high as u64));
        assert(numbers@ =~= double_words(bytes@, order).take(i + 1));
        i = i + 1;
    }
    assert(numbers@ =~= double_words(bytes@, order));
    numbers
}

fn read_i32s(bytes: &[u8], order: ByteOrder) -> (numbers: Vec<i32>)
    requires
        bytes@.len() % 4 == 0,
    ensures
        numbers@ == Seq::new(bytes@.len() / 4, |i: int| words(bytes@, order)[i] as i32),
{
    let unsigned = read_words(bytes, order);
    let ghost all = Seq::new(bytes@.len() / 4, |i: int| words(bytes@, order)[i] as i32);
    let mut numbers: Vec<i32> = Vec::new();
    let mut i: usize = 0;
    while i < unsigned.len()
        invariant
            i <= unsigned@.len(),
            unsigned@ == words(bytes@, order),
            all == Seq::new(bytes@.len() / 4, |i: int| words(bytes@, order)[i] as i32),
            numbers@ == all.take(i as int),
        decreases unsigned@.len() - i,
    {
        numbers.push(
            #[verifier::truncate]
            (unsigned[i] as i32),
        );
        assert(numbers@ =~= all.take(i + 1));
        i = i + 1;
    }
    assert(numbers@ =~= all);
    numbers
}

fn read_i64s(bytes: &[u8], order: ByteOrder) -> (numbers: Vec<i64>)
    requires
        bytes@.len() % 8 == 0,
    ensures
        numbers@ == Seq::new(bytes@.len() / 8, |i: int| double_words(bytes@, order)[i] as i64),
{
    let unsigned = read_double_words(bytes, order);
    let ghost all = Seq::new(bytes@.len() / 8, |i: int| double_words(bytes@, order)[i] as i64);
    let mut numbers: Vec<i64> = Vec::new();
    let mut i: usize = 0;
    while i < unsigned.len()
        invariant
            i <= unsigned@.len(),
            unsigned@ == double_words(bytes@, order),
            all == Seq::new(bytes@.len() / 8, |i: int| double_words(bytes@, order)[i] as i64),
            numbers@ == all.take(i as int),
        decreases unsigned@.len() - i,
    {
        numbers.push(
            #[verifier::truncate]
            (unsigned[i] as i64),
        );
        assert(numbers@ =~= all.take(i + 1));
        i = i + 1;
    }
    assert(numbers@ =~= all);
    numbers
}

/// Move the bytes of a tensor, in the given order, to the field that belongs to its data type.
/// Nothing comes back where they are no whole number of elements, and the tensor stays.
pub fn checked_fix_raw_tensor(tensor: &mut TensorProto, order: ByteOrder) -> (result: Option<
    Result<(), ShapeInferenceError>,
>)
    ensures
        match result {
            Some(result) => fixed(old(tensor)@, order) == Some((final(tensor)@, unit(result))),
            None => fixed(old(tensor)@, order) is None && final(tensor)@ == old(tensor)@,
        },
{
    let raw: Vec<u8> = match &tensor.raw_data {
        Some(raw) => vstd::slice::slice_to_vec(raw.as_slice()),
        None => {
            return Some(Ok(()));
        },
    };
    match ScalarType::from_i32(tensor.data_type) {
        Err(error) => {
            tensor.raw_data = None;
            Some(Err(ShapeInferenceError::UnsupportedDataType(error)))
        },
        Ok(ScalarType::F32) => {
            if raw.len() % 4 != 0 {
                return None;
            }
            tensor.raw_data = None;
            tensor.float_data = read_words(raw.as_slice(), order);
            Some(Ok(()))
        },
        Ok(ScalarType::I32) => {
            if raw.len() % 4 != 0 {
                return None;
            }
            tensor.raw_data = None;
            tensor.int32_data = read_i32s(raw.as_slice(), order);
            Some(Ok(()))
        },
        Ok(ScalarType::I64) => {
            if raw.len() % 8 != 0 {
                return None;
            }
            tensor.raw_data = None;
            tensor.int64_data = read_i64s(raw.as_slice(), order);
            Some(Ok(()))
        },
        Ok(ScalarType::U8) => Some(Ok(())),
    }
}

/// Some tensors only have the raw data field filled. This function moves that data to the field
/// that belongs to the data type, in the byte order of this machine.
pub fn fix_raw_tensor(tensor: &mut TensorProto) -> (result: Result<(), ShapeInferenceError>)
    requires
        fixed(old(tensor)@, ByteOrder::Little) is Some,
    ensures
        exists|order: ByteOrder| #[trigger]
            fixed(old(tensor)@, order) == Some((final(tensor)@, unit(result))),
{
    let order = native_byte_order();
    checked_fix_raw_tensor(tensor, order).unwrap()
}

/// What is said of a `Constant` node with another number of outputs than one.
pub open spec fn not_one_output(count: nat) -> Seq<char> {
    "Constant op must have one output, has "@ + decimal(count as int)
}

/// The value that a `Constant` node holds in one of its attributes.
pub open spec fn constant_value(node: NodeView, order: ByteOrder) -> Option<
    Result<TensorView, ErrorView>,
> {
    if node.find("value_floats"@) is Some {
        let values = node.find("value_floats"@).unwrap().floats;
        Some(
            Ok(
                TensorView {
                    data_type: ScalarType::F32.code(),
                    dims: seq![values.len() as i64],
                    float_data: values,
                    ..empty_tensor()
                },
            ),
        )
    } else if node.find("value_ints"@) is Some {
        let values = node.find("value_ints"@).unwrap().ints;
        Some(
            Ok(
                TensorView {
                    data_type: ScalarType::I64.code(),
                    dims: seq![values.len() as i64],
                    int64_data: values,
                    ..empty_tensor()
                },
            ),
        )
    } else if node.find("value_int"@) is Some {
        Some(
            Ok(
                TensorView {
                    data_type: ScalarType::I64.code(),
                    dims: seq![1i64],
                    int64_data: seq![node.find("value_int"@).unwrap().i],
                    ..empty_tensor()
                },
            ),
        )
    } else if node.find("value_float"@) is Some {
        Some(
            Ok(
                TensorView {
                    data_type: ScalarType::F32.code(),
                    dims: seq![1i64],
                    float_data: seq![node.find("value_float"@).unwrap().f.bits],
                    ..empty_tensor()
                },
            ),
        )
    } else if node.find("value"@) is Some {
        match fixed(node.find("value"@).unwrap().t, order) {
            Some((tensor, Ok(_))) => Some(Ok(tensor)),
            Some((_, Err(error))) => Some(Err(error)),
            None => None,
        }
    } else {
        Some(
            Err(
                ErrorView::Unsupported("Constant node with data types other than float, int"@),
            ),
        )
    }
}

/// The initializer that stands for a `Constant` node: its value, under the name of its output.
pub open spec fn constant_initializer(node: NodeView, order: ByteOrder) -> Option<
    Result<TensorView, ErrorView>,
> {
    if node.output.len() != 1 {
        Some(Err(invalid(node, not_one_output(node.output.len()))))
    } else {
        match constant_value(node, order) {
            Some(Ok(tensor)) => Some(Ok(TensorView { name: node.output[0], ..tensor })),
            Some(Err(error)) => Some(Err(error)),
            None => None,
        }
    }
}

/// Whether a node is a `Constant`.
pub open spec fn is_constant(node: NodeView) -> bool {
    node.op_type == "Constant"@
}

/// The graph after the `Constant` nodes among the first `count` nodes, from the last of them
/// backwards, have given way to initializers, and whether all of them could.
pub open spec fn replaced(graph: GraphView, count: int, order: ByteOrder) -> Option<
    (GraphView, Result<(), ErrorView>),
>
    decreases count,
{
    if count <= 0 {
        Some((graph, Ok(())))
    } else if !is_constant(graph.node[count - 1]) {
        replaced(graph, count - 1, order)
    } else {
        match constant_initializer(graph.node[count - 1], order) {
            None => None,
            Some(Err(error)) => Some((graph, Err(error))),
            Some(Ok(tensor)) => replaced(
                GraphView {
                    node: graph.node.remove(count - 1),
                    initializer: graph.initializer.push(tensor),
                    ..graph
                },
                count - 1,
                order,
            ),
        }
    }
}

/// The graph after its `Constant` nodes have given way to initializers.
pub open spec fn constants_replaced(graph: GraphView, order: ByteOrder) -> Option<
    (GraphView, Result<(), ErrorView>),
> {
    replaced(graph, graph.node.len() as int, order)
}

/// Whether a value can be had does not hang on the byte order.
proof fn lemma_value_in_any_order(node: NodeView, a: ByteOrder, b: ByteOrder)
    ensures
        constant_initializer(node, a) is Some == constant_initializer(node, b) is Some,
        constant_initializer(node, a) is Some ==> (constant_initializer(node, a).unwrap() is Ok)
            == (constant_initializer(node, b).unwrap() is Ok),
{
}

/// Whether the `Constant` nodes can be replaced hangs neither on the byte order nor on the
/// initializers that are there.
pub proof fn lemma_replaced_in_any_order(
    g: GraphView,
    h: GraphView,
    count: int,
    a: ByteOrder,
    b: ByteOrder,
)
    requires
        g.node == h.node,
        count <= g.node.len(),
    ensures
        replaced(g, count, a) is Some == replaced(h, count, b) is Some,
    decreases count,
{
    if count > 0 {
        let node = g.node[count - 1];
        if !is_constant(node) {
            lemma_replaced_in_any_order(g, h, count - 1, a, b);
        } else {
            lemma_value_in_any_order(node, a, b);
            match (constant_initializer(node, a), constant_initializer(node, b)) {
                (Some(Ok(s)), Some(Ok(t))) => {
                    let rest = g.node.remove(count - 1);
                    lemma_replaced_in_any_order(
                        GraphView { node: rest, initializer: g.initializer.push(s), ..g },
                        GraphView { node: rest, initializer: h.initializer.push(t), ..h },
                        count - 1,
                        a,
                        b,
                    );
                },
                _ => {},
            }
        }
    }
}

fn build_constant_value(node: &NodeProto, order: ByteOrder) -> (result: Option<
    Result<TensorProto, ShapeInferenceError>,
>)
    ensures
        constant_value(node@, order) == (match result {
            Some(Ok(tensor)) => Some(Ok::<TensorView, ErrorView>(tensor@)),
            Some(Err(error)) => Some(Err::<TensorView, ErrorView>(error@)),
            None => None,
        }),
{
    let mut tensor = TensorProto::new();
    if let Some(attribute) = node.find_attribute("value_floats") {
        let count: i64 =
            #[verifier::truncate]
            (attribute.floats.len() as i64);
        tensor.data_type = ScalarType::F32.to_datatype();
        tensor.dims.push(count);
        tensor.float_data = vstd::slice::slice_to_vec(attribute.floats.as_slice());
        assert(tensor.dims@ =~= seq![count]);
        Some(Ok(tensor))
    } else if let Some(attribute) = node.find_attribute("value_ints") {
        let count: i64 =
            #[verifier::truncate]
            (attribute.ints.len() as i64);
        tensor.data_type = ScalarType::I64.to_datatype();
        tensor.dims.push(count);
        tensor.int64_data = vstd::slice::slice_to_vec(attribute.ints.as_slice());
        assert(tensor.dims@ =~= seq![count]);
        Some(Ok(tensor))
    } else if let Some(attribute) = node.find_attribute("value_int") {
        tensor.int64_data.push(attribute.i);
        tensor.data_type = ScalarType::I64.to_datatype();
        tensor.dims.push(1);
        assert(tensor.dims@ =~= seq![1i64]);
        assert(tensor.int64_data@ =~= seq![attribute.i]);
        Some(Ok(tensor))
    } else if let Some(attribute) = node.find_attribute("value_float") {
        tensor.float_data.push(attribute.f.bits);
        tensor.data_type = ScalarType::F32.to_datatype();
        tensor.dims.push(1);
        assert(tensor.dims@ =~= seq![1i64]);
        assert(tensor.float_data@ =~= seq![attribute.f.bits]);
        Some(Ok(tensor))
    } else if let Some(attribute) = node.find_attribute("value") {
        tensor = attribute.t.clone();
        match checked_fix_raw_tensor(&mut tensor, order) {
            Some(Ok(_)) => Some(Ok(tensor)),
            Some(Err(error)) => Some(Err(error)),
            None => None,
        }
    } else {
        Some(
            Err(
                ShapeInferenceError::Unsupported(
                    "Constant node with data types other than float, int".to_owned(),
                ),
            ),
        )
    }
}

fn build_constant_initializer(node: &NodeProto, order: ByteOrder) -> (result: Option<
    Result<TensorProto, ShapeInferenceError>,
>)
    ensures
        constant_initializer(node@, order) == (match result {
            Some(Ok(tensor)) => Some(Ok::<TensorView, ErrorView>(tensor@)),
            Some(Err(error)) => Some(Err::<TensorView, ErrorView>(error@)),
            None => None,
        }),
{
    if node.output.len() != 1 {
        let why = String::from_str("Constant op must have one output, has ").concat(
            unsigned_text(node.output.len() as u64).as_str(),
        );
        return Some(Err(invalid_node(node, why)));
    }
    match build_constant_value(node, order) {
        Some(Ok(mut tensor)) => {
            tensor.name = node.output[0].clone();
            Some(Ok(tensor))
        },
        Some(Err(error)) => Some(Err(error)),
        None => None,
    }
}

impl GraphProto {
    /// Whether every `Constant` node whose turn comes holds a whole number of elements, so that
    /// the `Constant` nodes can be replaced.
    pub fn has_whole_constants(&self) -> (whole: bool)
        ensures
            whole == (constants_replaced(self@, ByteOrder::Little) is Some),
    {
        let ghost mut rest = self@;
        let mut i: usize = self.node.len();
        while i > 0
            invariant
                i <= self.node@.len(),
                i <= rest.node.len(),
                forall|j: int| 0 <= j < i ==> #[trigger] rest.node[j] == self.node@[j]@,
                constants_replaced(self@, ByteOrder::Little) == replaced(
                    rest,
                    i as int,
                    ByteOrder::Little,
                ),
            decreases i,
        {
            assert(rest.node[i - 1] == self.node@[i - 1]@);
            if same_text(self.node[i - 1].op_type.as_str(), "Constant") {
                match build_constant_initializer(&self.node[i - 1], ByteOrder::Little) {
                    Some(Ok(tensor)) => {
                        proof {
                            rest = GraphView {
                                node: rest.node.remove(i - 1),
                                initializer: rest.initializer.push(tensor@),
                                ..rest
                            };
                        }
                    },
                    Some(Err(_)) => {
                        return true;
                    },
                    None => {
                        return false;
                    },
                }
            }
            i = i - 1;
        }
        true
    }

    /// Replace the `Constant` nodes by initializers, whose bytes are in the given order.
    pub fn replace_constants(&mut self, order: ByteOrder) -> (result: Result<
        (),
        ShapeInferenceError,
    >)
        requires
            constants_replaced(old(self)@, order) is Some,
        ensures
            constants_replaced(old(self)@, order) == Some((final(self)@, unit(result))),
    {
        let ghost whole = constants_replaced(self@, order);
        let mut i: usize = self.node.len();
        while i > 0
            invariant
                i <= self.node@.len(),
                whole is Some,
                whole == replaced(self@, i as int, order),
                whole == constants_replaced(old(self)@, order),
            decreases i,
        {
            let ghost before = self@;
            assert(before.node[i - 1] == self.node@[i - 1]@);
            if same_text(self.node[i - 1].op_type.as_str(), "Constant") {
                match build_constant_initializer(&self.node[i - 1], order).unwrap() {
                    Ok(tensor) => {
                        let ghost value = tensor@;
                        self.initializer.push(tensor);
                        let _ = self.node.remove(i - 1);
                        proof {
                            assert(self@.node =~= before.node.remove(i - 1));
                            assert(self@.initializer =~= before.initializer.push(value));
                        }
                    },
                    Err(error) => {
                        return Err(error);
                    },
                }
            }
            i = i - 1;
        }
        Ok(())
    }
}

} // verus!
