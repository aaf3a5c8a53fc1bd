//! What holds of raw tensors and of the replacement of `Constant` nodes.
use vstd::prelude::*;
use crate::constants::{
    constant_initializer, constants_replaced, double_words, fixed, is_constant, least_first,
    little_u32, little_u64, replaced, words, ByteOrder,
};
use crate::error::ErrorView;
use crate::forward::common::single;
use crate::forward::extent::constant;
use crate::onnx::{GraphView, NodeView, TensorView};
use crate::shape::{scalar_type, ScalarType};

verus! {

/// Moving the bytes of a tensor a second time changes nothing.
pub proof fn law_fixing_twice_is_fixing_once(tensor: TensorView, order: ByteOrder)
    requires
        fixed(tensor, order) matches Some((_, Ok(_))),
    ensures
        fixed(fixed(tensor, order).unwrap().0, order) == Some(
            (fixed(tensor, order).unwrap().0, Ok::<(), ErrorView>(())),
        ),
{
}

/// A tensor without bytes stays as it is.
pub proof fn law_filled_tensor_stays(tensor: TensorView, order: ByteOrder)
    requires
        tensor.raw_data is None,
    ensures
        fixed(tensor, order) == Some((tensor, Ok::<(), ErrorView>(()))),
{
}

proof fn lemma_four_bytes(a: Seq<u8>, b: Seq<u8>)
    requires
        a.len() == 4,
        b.len() == 4,
        little_u32(a) == little_u32(b),
    ensures
        a == b,
{
    assert(a =~= b);
}

proof fn lemma_four_bytes_bound(a: Seq<u8>)
    requires
        a.len() == 4,
    ensures
        0 <= little_u32(a) < 0x1_0000_0000,
{
}

proof fn lemma_halves(low_a: int, high_a: int, low_b: int, high_b: int)
    requires
        0 <= low_a < 0x1_0000_0000,
        0 <= low_b < 0x1_0000_0000,
        low_a + 0x1_0000_0000 * high_a == low_b + 0x1_0000_0000 * high_b,
    ensures
        low_a == low_b,
        high_a == high_b,
{
}

proof fn lemma_eight_bytes(a: Seq<u8>, b: Seq<u8>)
    requires
        a.len() == 8,
        b.len() == 8,
        little_u64(a) == little_u64(b),
    ensures
        a == b,
{
    lemma_four_bytes_bound(a.take(4));
    lemma_four_bytes_bound(b.take(4));
    lemma_halves(
        little_u32(a.take(4)),
        little_u32(a.skip(4)),
        little_u32(b.take(4)),
        little_u32(b.skip(4)),
    );
    lemma_four_bytes(a.take(4), b.take(4));
    lemma_four_bytes(a.skip(4), b.skip(4));
    assert(a =~= a.take(4) + a.skip(4));
    assert(b =~= b.take(4) + b.skip(4));
}

proof fn lemma_same_order(a: Seq<u8>, b: Seq<u8>, order: ByteOrder)
    requires
        least_first(a, order) == least_first(b, order),
    ensures
        a == b,
{
    if order == ByteOrder::Big {
        assert(a.reverse().reverse() =~= a);
        assert(b.reverse().reverse() =~= b);
    }
}

/// Bytes are known from the numbers that they hold, four to each.
proof fn lemma_words_tell_bytes(a: Seq<u8>, b: Seq<u8>, order: ByteOrder)
    requires
        a.len() % 4 == 0,
        b.len() % 4 == 0,
        words(a, order) == words(b, order),
    ensures
        a == b,
{
    assert(words(a, order).len() == a.len() / 4 && words(b, order).len() == b.len() / 4);
    assert(a.len() == b.len());
    assert forall|j: int| 0 <= j < a.len() implies a[j] == b[j] by {
        let i = j / 4;
        let (x, y) = (a.subrange(4 * i, 4 * i + 4), b.subrange(4 * i, 4 * i + 4));
        assert(0 <= i < words(a, order).len());
        assert(words(a, order)[i] == little_u32(least_first(x, order)) as u32);
        assert(words(b, order)[i] == little_u32(least_first(y, order)) as u32);
        assert(0 <= little_u32(least_first(x, order)) < 0x1_0000_0000);
        assert(0 <= little_u32(least_first(y, order)) < 0x1_0000_0000);
        lemma_four_bytes(least_first(x, order), least_first(y, order));
        lemma_same_order(x, y, order);
        assert(a[j] == x[j - 4 * i]);
        assert(b[j] == y[j - 4 * i]);
    }
    assert(a =~= b);
}

/// Bytes are known from the numbers that they hold, eight to each.
proof fn lemma_double_words_tell_bytes(a: Seq<u8>, b: Seq<u8>, order: ByteOrder)
    requires
        a.len() % 8 == 0,
        b.len() % 8 == 0,
        double_words(a, order) == double_words(b, order),
    ensures
        a == b,
{
    assert(double_words(a, order).len() == a.len() / 8);
    assert(double_words(b, order).len() == b.len() / 8);
    assert(a.len() == b.len());
    assert forall|j: int| 0 <= j < a.len() implies a[j] == b[j] by {
        let i = j / 8;
        let (x, y) = (a.subrange(8 * i, 8 * i + 8), b.subrange(8 * i, 8 * i + 8));
        assert(0 <= i < double_words(a, order).len());
        assert(double_words(a, order)[i] == little_u64(least_first(x, order)) as u64);
        assert(double_words(b, order)[i] == little_u64(least_first(y, order)) as u64);
        assert(0 <= little_u64(least_first(x, order)) < 0x1_0000_0000_0000_0000);
        assert(0 <= little_u64(least_first(y, order)) < 0x1_0000_0000_0000_0000);
        lemma_eight_bytes(least_first(x, order), least_first(y, order));
        lemma_same_order(x, y, order);
        assert(a[j] == x[j - 8 * i]);
        assert(b[j] == y[j - 8 * i]);
    }
    assert(a =~= b);
}

/// No byte is lost: tensors of one data type that come out equal held the same bytes.
pub proof fn law_no_byte_is_lost(a: TensorView, b: TensorView, order: ByteOrder)
    requires
        a.raw_data is Some,
        b.raw_data is Some,
        fixed(a, order) == fixed(b, order),
        fixed(a, order) matches Some((_, Ok(_))),
    ensures
        a.raw_data == b.raw_data,
{
    let x = a.raw_data.unwrap();
    let y = b.raw_data.unwrap();
    let out = fixed(a, order).unwrap().0;
    assert(fixed(b, order).unwrap().0 == out);
    assert(a.data_type == out.data_type && b.data_type == out.data_type);
    match scalar_type(a.data_type) {
        Ok(ScalarType::F32) => {
            lemma_words_tell_bytes(x, y, order);
        },
        Ok(ScalarType::I32) => {
            assert(out.int32_data.len() == x.len() / 4);
            assert(out.int32_data.len() == y.len() / 4);
            assert forall|i: int| 0 <= i < x.len() / 4 implies words(x, order)[i] == words(
                y,
                order,
            )[i] by {
                let (m, n) = (words(x, order)[i], words(y, order)[i]);
                assert(out.int32_data[i] == m as i32);
                assert(out.int32_data[i] == n as i32);
                assert(m as i32 == n as i32 ==> m == n) by (bit_vector);
            }
            assert(words(x, order) =~= words(y, order));
            lemma_words_tell_bytes(x, y, order);
        },
        Ok(ScalarType::I64) => {
            assert(out.int64_data.len() == x.len() / 8);
            assert(out.int64_data.len() == y.len() / 8);
            assert forall|i: int| 0 <= i < x.len() / 8 implies double_words(x, order)[i]
                == double_words(y, order)[i] by {
                let (m, n) = (double_words(x, order)[i], double_words(y, order)[i]);
                assert(out.int64_data[i] == m as i64);
                assert(out.int64_data[i] == n as i64);
                assert(m as i64 == n as i64 ==> m == n) by (bit_vector);
            }
            assert(double_words(x, order) =~= double_words(y, order));
            lemma_double_words_tell_bytes(x, y, order);
        },
        _ => {},
    }
}

/// The nodes that are no `Constant`.
pub open spec fn others(nodes: Seq<NodeView>) -> Seq<NodeView> {
    nodes.filter(|node: NodeView| !is_constant(node))
}

proof fn lemma_replaced(graph: GraphView, count: int, order: ByteOrder)
    requires
        0 <= count <= graph.node.len(),
        replaced(graph, count, order) is Some,
    ensures
        ({
            let (after, result) = replaced(graph, count, order).unwrap();
            &&& after.input == graph.input
            &&& after.output == graph.output
            &&& after.value_info == graph.value_info
            &&& graph.initializer.is_prefix_of(after.initializer)
            &&& after.initializer.len() + after.node.len() == graph.initializer.len()
                + graph.node.len()
            &&& result is Ok ==> after.node == others(graph.node.take(count)) + graph.node.skip(
                count,
            )
            &&& result is Ok ==> forall|i: int|
                0 <= i < count && is_constant(#[trigger] graph.node[i]) ==> {
                    &&& constant_initializer(graph.node[i], order) matches Some(Ok(tensor))
                    &&& after.initializer.contains(tensor)
                }
        }),
    decreases count,
{
    reveal(Seq::filter);
    if count == 0 {
        assert(others(graph.node.take(0)) + graph.node.skip(0) =~= graph.node);
        assert(graph.initializer.is_prefix_of(graph.initializer));
    } else {
        let node = graph.node[count - 1];
        let first = graph.node.take(count);
        assert(first.drop_last() =~= graph.node.take(count - 1));
        assert(first.last() == node);
        if !is_constant(node) {
            lemma_replaced(graph, count - 1, order);
            assert(others(graph.node.take(count - 1)) + graph.node.skip(count - 1) =~= others(
                first,
            ) + graph.node.skip(count));
        } else if let Some(Ok(tensor)) = constant_initializer(node, order) {
            let next = GraphView {
                node: graph.node.remove(count - 1),
                initializer: graph.initializer.push(tensor),
                ..graph
            };
            lemma_replaced(next, count - 1, order);
            let (after, result) = replaced(next, count - 1, order).unwrap();
            assert(next.node.take(count - 1) =~= graph.node.take(count - 1));
            assert(next.node.skip(count - 1) =~= graph.node.skip(count));
            assert(after.initializer[graph.initializer.len() as int] == tensor) by {
                assert(next.initializer[graph.initializer.len() as int] == tensor);
            }
            assert(graph.initializer =~= after.initializer.subrange(
                0,
                graph.initializer.len() as int,
            )) by {
                assert(next.initializer =~= after.initializer.subrange(
                    0,
                    next.initializer.len() as int,
                ));
                assert(forall|i: int|
                    0 <= i < graph.initializer.len() ==> graph.initializer[i]
                        == #[trigger] next.initializer[i]);
            }
            if result is Ok {
                assert forall|i: int| 0 <= i < count && is_constant(#[trigger] graph.node[i])
                    implies ({
                    &&& constant_initializer(graph.node[i], order) matches Some(Ok(tensor))
                    &&& after.initializer.contains(tensor)
                }) by {
                    if i < count - 1 {
                        assert(next.node[i] == graph.node[i]);
                    }
                }
            }
        } else {
            assert(graph.initializer.is_prefix_of(graph.initializer));
        }
    }
}

/// Where the replacement succeeds, the nodes that are left are those that are no `Constant`, in
/// their order.
pub proof fn law_only_constants_go(graph: GraphView, order: ByteOrder)
    requires
        constants_replaced(graph, order) matches Some((_, Ok(_))),
    ensures
        constants_replaced(graph, order).unwrap().0.node == others(graph.node),
{
    lemma_replaced(graph, graph.node.len() as int, order);
    assert(graph.node.take(graph.node.len() as int) =~= graph.node);
    assert(others(graph.node) + graph.node.skip(graph.node.len() as int) =~= others(graph.node));
}

/// The initializers that were there stay, in their order, before the new ones, of which there is
/// one for each node that went. The values of the graph stay as they are.
pub proof fn law_constants_become_initializers(graph: GraphView, order: ByteOrder)
    requires
        constants_replaced(graph, order) is Some,
    ensures
        ({
            let after = constants_replaced(graph, order).unwrap().0;
            &&& after.input == graph.input
            &&& after.output == graph.output
            &&& after.value_info == graph.value_info
            &&& graph.initializer.is_prefix_of(after.initializer)
            &&& after.initializer.len() - graph.initializer.len() == graph.node.len()
                - after.node.len()
        }),
{
    lemma_replaced(graph, graph.node.len() as int, order);
}

/// Where the replacement succeeds, the value of each `Constant` node is an initializer afterwards,
/// under the name of the node's output.
pub proof fn law_each_constant_is_there(graph: GraphView, order: ByteOrder, index: int)
    requires
        constants_replaced(graph, order) matches Some((_, Ok(_))),
        0 <= index < graph.node.len(),
        is_constant(graph.node[index]),
    ensures
        constant_initializer(graph.node[index], order) matches Some(Ok(tensor)) && tensor.name
            == graph.node[index].output[0] && constants_replaced(
            graph,
            order,
        ).unwrap().0.initializer.contains(tensor),
{
    lemma_replaced(graph, graph.node.len() as int, order);
}

proof fn lemma_nothing_to_replace(graph: GraphView, count: int, order: ByteOrder)
    requires
        0 <= count <= graph.node.len(),
        forall|i: int| 0 <= i < count ==> !is_constant(#[trigger] graph.node[i]),
    ensures
        replaced(graph, count, order) == Some((graph, Ok::<(), ErrorView>(()))),
    decreases count,
{
    if count > 0 {
        assert(!is_constant(graph.node[count - 1]));
        lemma_nothing_to_replace(graph, count - 1, order);
    }
}

/// Where the replacement succeeds, no `Constant` node is left, and replacing once more changes
/// nothing.
pub proof fn law_replacing_twice_is_replacing_once(graph: GraphView, order: ByteOrder)
    requires
        constants_replaced(graph, order) matches Some((_, Ok(_))),
    ensures
        ({
            let after = constants_replaced(graph, order).unwrap().0;
            &&& forall|i: int| 0 <= i < after.node.len() ==> !is_constant(#[trigger] after.node[i])
            &&& constants_replaced(after, order) == Some((after, Ok::<(), ErrorView>(())))
        }),
{
    let after = constants_replaced(graph, order).unwrap().0;
    law_only_constants_go(graph, order);
    graph.node.lemma_filter_len(|node: NodeView| !is_constant(node));
    assert forall|i: int| 0 <= i < after.node.len() implies !is_constant(
        #[trigger] after.node[i],
    ) by {
        graph.node.lemma_filter_pred(|node: NodeView| !is_constant(node), i);
    }
    lemma_nothing_to_replace(after, after.node.len() as int, order);
}

/// The shape of a `Constant` node's output is that of the initializer that stands for the node.
/// A node that holds both a single integer and a single number with a fraction is the exception:
/// the initializer holds the integer, and the output's shape has the other element type.
pub proof fn law_constant_has_its_initializers_shape(node: NodeView, order: ByteOrder)
    requires
        constant_initializer(node, order) matches Some(Ok(_)),
        node.find("value_floats"@) is None && node.find("value_ints"@) is None ==> node.find(
            "value_int"@,
        ) is None || node.find("value_float"@) is None,
    ensures
        ({
            let tensor = constant_initializer(node, order).unwrap()->Ok_0;
            match scalar_type(tensor.data_type) {
                Ok(data_type) => constant(node) == single(data_type, tensor.dims),
                Err(_) => constant(node) matches Some(Err(_)),
            }
        }),
{
}

} // verus!
