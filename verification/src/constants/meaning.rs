//! What raw tensors and `Constant` nodes hold, number by number.
use vstd::prelude::*;
use crate::constants::{
    constant_initializer, constants_replaced, double_words, fixed, is_constant, least_first,
    little_u32, little_u64, replaced, words, ByteOrder,
};
use crate::error::ErrorView;
use crate::onnx::{GraphView, NodeView, TensorView};
use crate::shape::DataTypeError;
use crate::text::decimal;

verus! {

/// The number that `count` bytes from a place on spell: the first of them is the least significant
/// in the one byte order, and the last in the other.
pub open spec fn spelled(bytes: Seq<u8>, from: int, count: int, order: ByteOrder) -> int
    decreases count,
{
    if count <= 0 {
        0
    } else {
        match order {
            ByteOrder::Little => bytes[from] + 256 * spelled(bytes, from + 1, count - 1, order),
            ByteOrder::Big => bytes[from + count - 1] + 256 * spelled(
                bytes,
                from,
                count - 1,
                order,
            ),
        }
    }
}

proof fn lemma_four_spelled(bytes: Seq<u8>, from: int, order: ByteOrder)
    requires
        0 <= from,
        from + 4 <= bytes.len(),
    ensures
        spelled(bytes, from, 4, order) == little_u32(
            least_first(bytes.subrange(from, from + 4), order),
        ),
        0 <= spelled(bytes, from, 4, order) < 0x1_0000_0000,
{
    reveal_with_fuel(spelled, 5);
    let group = bytes.subrange(from, from + 4);
    let first = least_first(group, order);
    match order {
        ByteOrder::Little => {
            assert(first[0] == bytes[from] && first[1] == bytes[from + 1] && first[2] == bytes[from
                + 2] && first[3] == bytes[from + 3]);
        },
        ByteOrder::Big => {
            assert(first[0] == bytes[from + 3] && first[1] == bytes[from + 2] && first[2]
                == bytes[from + 1] && first[3] == bytes[from]);
        },
    }
}

proof fn lemma_eight_spelled(bytes: Seq<u8>, from: int, order: ByteOrder)
    requires
        0 <= from,
        from + 8 <= bytes.len(),
    ensures
        spelled(bytes, from, 8, order) == little_u64(
            least_first(bytes.subrange(from, from + 8), order),
        ),
        0 <= spelled(bytes, from, 8, order) < 0x1_0000_0000_0000_0000,
{
    let group = bytes.subrange(from, from + 8);
    let first = least_first(group, order);
    lemma_four_spelled(bytes, from, order);
    lemma_four_spelled(bytes, from + 4, order);
    match order {
        ByteOrder::Little => {
            assert(first.take(4) =~= bytes.subrange(from, from + 4));
            assert(first.skip(4) =~= bytes.subrange(from + 4, from + 8));
            assert(spelled(bytes, from, 8, order) == spelled(bytes, from, 4, order) + 0x1_0000_0000
                * spelled(bytes, from + 4, 4, order)) by {
                reveal_with_fuel(spelled, 5);
                assert(spelled(bytes, from, 8, order) == bytes[from] + 256 * spelled(
                    bytes,
                    from + 1,
                    7,
                    order,
                ));
            }
        },
        ByteOrder::Big => {
            assert(first.take(4) =~= bytes.subrange(from + 4, from + 8).reverse());
            assert(first.skip(4) =~= bytes.subrange(from, from + 4).reverse());
            assert(spelled(bytes, from, 8, order) == spelled(bytes, from + 4, 4, order)
                + 0x1_0000_0000 * spelled(bytes, from, 4, order)) by {
                reveal_with_fuel(spelled, 5);
                assert(spelled(bytes, from, 8, order) == bytes[from + 7] + 256 * spelled(
                    bytes,
                    from,
                    7,
                    order,
                ));
            }
        },
    }
}

/// Whether a signed number has the bits of the one that is not: it is that number, or, where that
/// is too large, less by two to the number of bits.
pub open spec fn same_bits(signed: int, unsigned: int, above: int) -> bool {
    signed == if 2 * unsigned < above {
        unsigned
    } else {
        unsigned - above
    }
}

/// The bytes of a tensor of numbers with a fraction become these numbers, four bytes to each, and
/// the bytes go. Nothing else changes.
pub proof fn law_raw_floats_are_read(tensor: TensorView, raw: Seq<u8>, order: ByteOrder)
    requires
        tensor.raw_data == Some(raw),
        tensor.data_type == 1,
        raw.len() % 4 == 0,
    ensures
        fixed(tensor, order) matches Some((out, Ok(_))) && {
            &&& out == (TensorView { raw_data: None, float_data: out.float_data, ..tensor })
            &&& 4 * out.float_data.len() == raw.len()
            &&& forall|i: int|
                0 <= i < out.float_data.len() ==> #[trigger] out.float_data[i] == spelled(
                    raw,
                    4 * i,
                    4,
                    order,
                )
        },
{
    assert forall|i: int| 0 <= i < raw.len() / 4 implies #[trigger] words(raw, order)[i] == spelled(
        raw,
        4 * i,
        4,
        order,
    ) by {
        lemma_four_spelled(raw, 4 * i, order);
    }
}

/// The bytes of a tensor of 32-bit integers become these, four bytes to each, and the bytes go.
/// Nothing else changes.
pub proof fn law_raw_short_integers_are_read(tensor: TensorView, raw: Seq<u8>, order: ByteOrder)
    requires
        tensor.raw_data == Some(raw),
        tensor.data_type == 6,
        raw.len() % 4 == 0,
    ensures
        fixed(tensor, order) matches Some((out, Ok(_))) && {
            &&& out == (TensorView { raw_data: None, int32_data: out.int32_data, ..tensor })
            &&& 4 * out.int32_data.len() == raw.len()
            &&& forall|i: int|
                0 <= i < out.int32_data.len() ==> same_bits(
                    #[trigger] out.int32_data[i] as int,
                    spelled(raw, 4 * i, 4, order),
                    0x1_0000_0000,
                )
        },
{
    let out = fixed(tensor, order).unwrap().0;
    assert forall|i: int| 0 <= i < out.int32_data.len() implies same_bits(
        #[trigger] out.int32_data[i] as int,
        spelled(raw, 4 * i, 4, order),
        0x1_0000_0000,
    ) by {
        lemma_four_spelled(raw, 4 * i, order);
        let word = words(raw, order)[i];
        assert(out.int32_data[i] == word as i32);
        assert(word < 0x8000_0000 ==> word as i32 == word) by (bit_vector);
        assert(word >= 0x8000_0000 ==> word as i32 == word - 0x1_0000_0000) by (bit_vector);
    }
}

/// The bytes of a tensor of 64-bit integers become these, eight bytes to each, and the bytes go.
/// Nothing else changes.
pub proof fn law_raw_long_integers_are_read(tensor: TensorView, raw: Seq<u8>, order: ByteOrder)
    requires
        tensor.raw_data == Some(raw),
        tensor.data_type == 7,
        raw.len() % 8 == 0,
    ensures
        fixed(tensor, order) matches Some((out, Ok(_))) && {
            &&& out == (TensorView { raw_data: None, int64_data: out.int64_data, ..tensor })
            &&& 8 * out.int64_data.len() == raw.len()
            &&& forall|i: int|
                0 <= i < out.int64_data.len() ==> same_bits(
                    #[trigger] out.int64_data[i] as int,
                    spelled(raw, 8 * i, 8, order),
                    0x1_0000_0000_0000_0000,
                )
        },
{
    let out = fixed(tensor, order).unwrap().0;
    assert forall|i: int| 0 <= i < out.int64_data.len() implies same_bits(
        #[trigger] out.int64_data[i] as int,
        spelled(raw, 8 * i, 8, order),
        0x1_0000_0000_0000_0000,
    ) by {
        lemma_eight_spelled(raw, 8 * i, order);
        let word = double_words(raw, order)[i];
        assert(out.int64_data[i] == word as i64);
        assert(word < 0x8000_0000_0000_0000 ==> word as i64 == word) by (bit_vector);
        assert(word >= 0x8000_0000_0000_0000 ==> word as i64 == word - 0x1_0000_0000_0000_0000)
            by (bit_vector);
    }
}

/// A tensor of bytes, and one that has its data in place, stay as they are. One of another data type
/// is refused and loses its bytes. Nothing can be said where the bytes are no whole number of
/// elements.
pub proof fn law_other_raw_tensors(tensor: TensorView, order: ByteOrder)
    ensures
        tensor.raw_data is None || tensor.data_type == 2 ==> fixed(tensor, order) == Some(
            (tensor, Ok::<(), ErrorView>(())),
        ),
        tensor.raw_data is Some && tensor.data_type != 1 && tensor.data_type != 2
            && tensor.data_type != 6 && tensor.data_type != 7 ==> (fixed(tensor, order) matches Some(
            (after, Err(error)),
        ) && after == (TensorView { raw_data: None, ..tensor })
            && error == ErrorView::UnsupportedDataType(
            if 0 <= tensor.data_type <= 16 {
                DataTypeError::NotSupported(tensor.data_type)
            } else {
                DataTypeError::NotRecognized(tensor.data_type)
            },
        )),
        tensor.raw_data matches Some(raw) ==> {
            &&& (tensor.data_type == 1 || tensor.data_type == 6) && raw.len() % 4 != 0 ==> fixed(
                tensor,
                order,
            ) is None
            &&& tensor.data_type == 7 && raw.len() % 8 != 0 ==> fixed(tensor, order) is None
        },
{
}

/// A `Constant` node is replaced by an initializer with the name of its output. It holds the list or
/// the number that the first of the attributes `value_floats`, `value_ints`, `value_int` and
/// `value_float` holds, under the data type that goes with it.
pub proof fn law_constant_numbers_are_kept(node: NodeView, order: ByteOrder, tensor: TensorView)
    requires
        node.output.len() == 1,
        constant_initializer(node, order) == Some(Ok::<TensorView, ErrorView>(tensor)),
    ensures
        tensor.name == node.output[0],
        ({
            let plain = tensor.raw_data is None && tensor.int32_data.len() == 0;
            let with = |name: Seq<char>| node.find(name) is Some;
            &&& node.find("value_floats"@) matches Some(attribute) ==> {
                &&& plain && tensor.data_type == 1 && tensor.int64_data.len() == 0
                &&& tensor.dims == seq![attribute.floats.len() as i64]
                &&& tensor.float_data == attribute.floats
            }
            &&& !with("value_floats"@) ==> (node.find("value_ints"@) matches Some(attribute) ==> {
                &&& plain && tensor.data_type == 7 && tensor.float_data.len() == 0
                &&& tensor.dims == seq![attribute.ints.len() as i64]
                &&& tensor.int64_data == attribute.ints
            })
            &&& !with("value_floats"@) && !with("value_ints"@) ==> (node.find(
                "value_int"@,
            ) matches Some(attribute) ==> {
                &&& plain && tensor.data_type == 7 && tensor.float_data.len() == 0
                &&& tensor.dims == seq![1i64]
                &&& tensor.int64_data == seq![attribute.i]
            })
            &&& !with("value_floats"@) && !with("value_ints"@) && !with("value_int"@) ==> (
            node.find("value_float"@) matches Some(attribute) ==> {
                &&& plain && tensor.data_type == 1 && tensor.int64_data.len() == 0
                &&& tensor.dims == seq![1i64]
                &&& tensor.float_data == seq![attribute.f.bits]
            })
        }),
{
}

/// Whether a `Constant` node holds its value as a tensor.
pub open spec fn holds_tensor(node: NodeView, value: TensorView) -> bool {
    &&& node.find("value_floats"@) is None
    &&& node.find("value_ints"@) is None
    &&& node.find("value_int"@) is None
    &&& node.find("value_float"@) is None
    &&& node.find("value"@) matches Some(attribute) && attribute.t == value
}

/// A `Constant` node that holds a tensor is replaced by that tensor, under the name of its output.
/// Where the tensor holds its numbers as bytes, they are read first.
pub proof fn law_constant_tensor_is_kept(
    node: NodeView,
    order: ByteOrder,
    value: TensorView,
    tensor: TensorView,
)
    requires
        node.output.len() == 1,
        holds_tensor(node, value),
        constant_initializer(node, order) == Some(Ok::<TensorView, ErrorView>(tensor)),
    ensures
        tensor.name == node.output[0],
        tensor.dims == value.dims,
        tensor.data_type == value.data_type,
        value.raw_data is None || value.data_type == 2 ==> tensor == (TensorView {
            name: node.output[0],
            ..value
        }),
        value.raw_data matches Some(raw) ==> {
            &&& value.data_type == 1 ==> {
                &&& tensor.raw_data is None
                &&& tensor.int32_data == value.int32_data && tensor.int64_data == value.int64_data
                &&& 4 * tensor.float_data.len() == raw.len()
                &&& forall|i: int|
                    0 <= i < tensor.float_data.len() ==> #[trigger] tensor.float_data[i] == spelled(
                        raw,
                        4 * i,
                        4,
                        order,
                    )
            }
            &&& value.data_type == 6 ==> {
                &&& tensor.raw_data is None
                &&& tensor.float_data == value.float_data && tensor.int64_data == value.int64_data
                &&& 4 * tensor.int32_data.len() == raw.len()
                &&& forall|i: int|
                    0 <= i < tensor.int32_data.len() ==> same_bits(
                        #[trigger] tensor.int32_data[i] as int,
                        spelled(raw, 4 * i, 4, order),
                        0x1_0000_0000,
                    )
            }
            &&& value.data_type == 7 ==> {
                &&& tensor.raw_data is None
                &&& tensor.float_data == value.float_data && tensor.int32_data == value.int32_data
                &&& 8 * tensor.int64_data.len() == raw.len()
                &&& forall|i: int|
                    0 <= i < tensor.int64_data.len() ==> same_bits(
                        #[trigger] tensor.int64_data[i] as int,
                        spelled(raw, 8 * i, 8, order),
                        0x1_0000_0000_0000_0000,
                    )
            }
        },
{
    law_other_raw_tensors(value, order);
    if let Some(raw) = value.raw_data {
        if value.data_type == 1 {
            law_raw_floats_are_read(value, raw, order);
        } else if value.data_type == 6 {
            law_raw_short_integers_are_read(value, raw, order);
        } else if value.data_type == 7 {
            law_raw_long_integers_are_read(value, raw, order);
        }
    }
}

/// A `Constant` node has an initializer, or is refused for its outputs, for having no value that is
/// supported, or for the data type of its bytes. Only bytes that are no whole number of elements
/// leave it undefined.
pub proof fn law_which_constants_are_refused(node: NodeView, order: ByteOrder)
    ensures
        node.output.len() != 1 ==> constant_initializer(node, order) == Some(
            Err::<TensorView, ErrorView>(
                ErrorView::InvalidNode(
                    node.name,
                    "Constant op must have one output, has "@ + decimal(node.output.len() as int),
                ),
            ),
        ),
        node.output.len() == 1 ==> {
            let result = constant_initializer(node, order);
            let numbers = node.find("value_floats"@) is Some || node.find("value_ints"@) is Some
                || node.find("value_int"@) is Some || node.find("value_float"@) is Some;
            &&& numbers ==> (result matches Some(Ok(_)))
            &&& !numbers && node.find("value"@) is None ==> result == Some(
                Err::<TensorView, ErrorView>(
                    ErrorView::Unsupported("Constant node with data types other than float, int"@),
                ),
            )
            &&& !numbers ==> (node.find("value"@) matches Some(attribute) ==> {
                let code = attribute.t.data_type;
                match attribute.t.raw_data {
                    None => result matches Some(Ok(_)),
                    Some(raw) => {
                        &&& (code == 1 || code == 6) && raw.len() % 4 == 0 || code == 7 && raw.len()
                            % 8 == 0 || code == 2 ==> (result matches Some(Ok(_)))
                        &&& (code == 1 || code == 6) && raw.len() % 4 != 0 || code == 7 && raw.len()
                            % 8 != 0 ==> result is None
                        &&& code != 1 && code != 2 && code != 6 && code != 7 ==> result == Some(
                            Err::<TensorView, ErrorView>(
                                ErrorView::UnsupportedDataType(
                                    if 0 <= code <= 16 {
                                        DataTypeError::NotSupported(code)
                                    } else {
                                        DataTypeError::NotRecognized(code)
                                    },
                                ),
                            ),
                        )
                    },
                }
            })
        },
{
}

/// The nodes that are a `Constant`.
pub open spec fn constants_among(nodes: Seq<NodeView>) -> Seq<NodeView> {
    nodes.filter(|node: NodeView| node.op_type == "Constant"@)
}

/// The nodes that are no `Constant`.
pub open spec fn no_constants_among(nodes: Seq<NodeView>) -> Seq<NodeView> {
    nodes.filter(|node: NodeView| node.op_type != "Constant"@)
}

proof fn lemma_filter_first(nodes: Seq<NodeView>, pred: spec_fn(NodeView) -> bool)
    requires
        nodes.len() > 0,
    ensures
        pred(nodes[0]) ==> nodes.filter(pred) == seq![nodes[0]] + nodes.drop_first().filter(pred),
        !pred(nodes[0]) ==> nodes.filter(pred) == nodes.drop_first().filter(pred),
{
    let first = seq![nodes[0]];
    Seq::filter_distributes_over_add(first, nodes.drop_first(), pred);
    assert(first + nodes.drop_first() =~= nodes);
    reveal(Seq::filter);
    assert(first.drop_last() =~= Seq::<NodeView>::empty());
    assert(Seq::<NodeView>::empty().filter(pred) =~= Seq::<NodeView>::empty());
    if pred(nodes[0]) {
        assert(first.filter(pred) =~= first);
    } else {
        assert(first.filter(pred) =~= Seq::<NodeView>::empty());
        assert(Seq::<NodeView>::empty() + nodes.drop_first().filter(pred)
            =~= nodes.drop_first().filter(pred));
    }
}

/// Whether the nodes from an index on could be replaced: what is left of them are those that are no
/// `Constant`, and each `Constant` has its initializer, the last of them first.
pub open spec fn replaced_from(
    before: GraphView,
    after: GraphView,
    index: int,
    order: ByteOrder,
) -> bool {
    let old = before.initializer.len() as int;
    let tail = before.node.skip(index);
    &&& after.node == before.node.take(index) + no_constants_among(tail)
    &&& after.initializer.len() == old + constants_among(tail).len()
    &&& after.initializer.take(old) == before.initializer
    &&& after.input == before.input
    &&& after.output == before.output
    &&& after.value_info == before.value_info
    &&& forall|i: int|
        index <= i < before.node.len() && (#[trigger] before.node[i]).op_type == "Constant"@ ==> {
            let place = old + constants_among(before.node.skip(i + 1)).len();
            &&& old <= place < after.initializer.len()
            &&& constant_initializer(before.node[i], order) == Some(
                Ok::<TensorView, ErrorView>(after.initializer[place]),
            )
        }
}

proof fn lemma_replaced_step(before: GraphView, here: GraphView, index: int, order: ByteOrder)
    requires
        0 < index <= before.node.len(),
        replaced_from(before, here, index, order),
    ensures
        here.node[index - 1] == before.node[index - 1],
        before.node[index - 1].op_type != "Constant"@ ==> replaced_from(
            before,
            here,
            index - 1,
            order,
        ),
        before.node[index - 1].op_type == "Constant"@ ==> (constant_initializer(
            before.node[index - 1],
            order,
        ) matches Some(Ok(tensor)) ==> replaced_from(
            before,
            (GraphView {
                node: here.node.remove(index - 1),
                initializer: here.initializer.push(tensor),
                ..here
            }),
            index - 1,
            order,
        )),
{
    let node = before.node[index - 1];
    let old = before.initializer.len() as int;
    let tail = before.node.skip(index);
    let longer = before.node.skip(index - 1);
    assert(longer[0] == node);
    assert(longer.drop_first() =~= tail);
    lemma_filter_first(longer, |node: NodeView| node.op_type == "Constant"@);
    lemma_filter_first(longer, |node: NodeView| node.op_type != "Constant"@);
    assert(before.node.take(index) =~= before.node.take(index - 1).push(node));
    if node.op_type != "Constant"@ {
        assert(here.node =~= before.node.take(index - 1) + no_constants_among(longer));
    } else if let Some(Ok(tensor)) = constant_initializer(node, order) {
        let next = GraphView {
            node: here.node.remove(index - 1),
            initializer: here.initializer.push(tensor),
            ..here
        };
        assert(next.node =~= before.node.take(index - 1) + no_constants_among(longer));
        assert(next.initializer.take(old) =~= here.initializer.take(old));
        assert forall|i: int|
            index - 1 <= i < before.node.len() && (#[trigger] before.node[i]).op_type
                == "Constant"@ implies ({
            let place = old + constants_among(before.node.skip(i + 1)).len();
            &&& old <= place < next.initializer.len()
            &&& constant_initializer(before.node[i], order) == Some(
                Ok::<TensorView, ErrorView>(next.initializer[place]),
            )
        }) by {
            if i > index - 1 {
                let place = old + constants_among(before.node.skip(i + 1)).len();
                assert(here.initializer[place] == next.initializer[place]);
            }
        }
    }
}

proof fn lemma_replaced_whole(
    before: GraphView,
    here: GraphView,
    index: int,
    order: ByteOrder,
    stop: int,
)
    requires
        0 <= stop <= index <= before.node.len(),
        replaced_from(before, here, index, order),
        forall|i: int|
            stop <= i < index && (#[trigger] before.node[i]).op_type == "Constant"@
                ==> constant_initializer(before.node[i], order) matches Some(Ok(_)),
    ensures
        exists|there: GraphView| #[trigger]
            replaced_from(before, there, stop, order) && replaced(here, index, order) == replaced(
                there,
                stop,
                order,
            ),
    decreases index,
{
    if index > stop {
        lemma_replaced_step(before, here, index, order);
        let node = before.node[index - 1];
        if node.op_type != "Constant"@ {
            lemma_replaced_whole(before, here, index - 1, order, stop);
        } else {
            let tensor = constant_initializer(node, order).unwrap()->Ok_0;
            let next = GraphView {
                node: here.node.remove(index - 1),
                initializer: here.initializer.push(tensor),
                ..here
            };
            lemma_replaced_whole(before, next, index - 1, order, stop);
        }
    } else {
        assert(replaced_from(before, here, stop, order));
    }
}

proof fn lemma_nothing_replaced_yet(graph: GraphView, order: ByteOrder)
    ensures
        replaced_from(graph, graph, graph.node.len() as int, order),
{
    reveal(Seq::filter);
    let all = graph.node.len() as int;
    let tail = graph.node.skip(all);
    assert(tail =~= Seq::<NodeView>::empty());
    assert(no_constants_among(tail) =~= Seq::<NodeView>::empty());
    assert(constants_among(tail) =~= Seq::<NodeView>::empty());
    assert(graph.node.take(all) + no_constants_among(tail) =~= graph.node);
    assert(graph.initializer.take(graph.initializer.len() as int) =~= graph.initializer);
}

/// Where every `Constant` node has an initializer, the replacement succeeds: the other nodes are
/// left, in their order, the old initializers stay, and behind them stands the initializer of each
/// `Constant` node, that of the last one first. Nothing else changes.
pub proof fn law_all_constants_are_replaced(graph: GraphView, order: ByteOrder)
    requires
        forall|i: int|
            0 <= i < graph.node.len() && (#[trigger] graph.node[i]).op_type == "Constant"@
                ==> constant_initializer(graph.node[i], order) matches Some(Ok(_)),
    ensures
        constants_replaced(graph, order) matches Some((after, Ok(_))) && replaced_from(
            graph,
            after,
            0,
            order,
        ) && after.node == no_constants_among(graph.node),
{
    let all = graph.node.len() as int;
    lemma_nothing_replaced_yet(graph, order);
    lemma_replaced_whole(graph, graph, all, order, 0);
    let there = choose|there: GraphView| #[trigger]
        replaced_from(graph, there, 0, order) && replaced(graph, all, order) == replaced(
            there,
            0,
            order,
        );
    assert(graph.node.skip(0) =~= graph.node);
    assert(there.node =~= no_constants_among(graph.node));
}

/// Where a `Constant` node is refused and every later one has an initializer, the replacement is
/// refused with its error, and only the later ones are replaced.
pub proof fn law_replacement_stops_at_an_error(graph: GraphView, order: ByteOrder, index: int)
    requires
        0 <= index < graph.node.len(),
        graph.node[index].op_type == "Constant"@,
        constant_initializer(graph.node[index], order) matches Some(Err(_)),
        forall|i: int|
            index < i < graph.node.len() && (#[trigger] graph.node[i]).op_type == "Constant"@
                ==> constant_initializer(graph.node[i], order) matches Some(Ok(_)),
    ensures
        constants_replaced(graph, order) matches Some((after, Err(error))) && replaced_from(
            graph,
            after,
            index + 1,
            order,
        ) && constant_initializer(graph.node[index], order) == Some(
            Err::<TensorView, ErrorView>(error),
        ),
{
    let all = graph.node.len() as int;
    lemma_nothing_replaced_yet(graph, order);
    lemma_replaced_whole(graph, graph, all, order, index + 1);
    let there = choose|there: GraphView| #[trigger]
        replaced_from(graph, there, index + 1, order) && replaced(graph, all, order) == replaced(
            there,
            index + 1,
            order,
        );
    lemma_replaced_step(graph, there, index + 1, order);
    assert(is_constant(there.node[index]));
}

} // verus!
