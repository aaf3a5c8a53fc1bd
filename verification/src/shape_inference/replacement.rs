//! The replacement of `Constant` nodes does not change what is inferred.
use vstd::prelude::*;
use crate::constants::laws::{
    law_constant_has_its_initializers_shape, law_constants_become_initializers,
    law_only_constants_go, others,
};
use crate::constants::{
    constant_initializer, constants_replaced, is_constant, replaced, ByteOrder,
};
use crate::error::ErrorView;
use crate::forward::extent::constant;
use crate::forward::{forward, law_more_constants_change_nothing, operator, Operator};
use crate::onnx::{GraphView, NodeView, TensorView};
use crate::shape::{scalar_type, shape_of, ShapeView};
use crate::shape_inference::laws::{gives, law_found_shapes_are_told, names_tensor, shadowed};
use crate::shape_inference::{
    constant_table, first_unknown, infer_node, infer_nodes, inferred, initial, known_shapes,
    lemma_all_known, recorded, shapes_of, with_tensors, with_values, Progress,
};

verus! {

/// The initializer that stands for a `Constant` node.
spec fn tensor_of(node: NodeView, order: ByteOrder) -> TensorView {
    constant_initializer(node, order).unwrap()->Ok_0
}

/// The initializers that stand for the `Constant` nodes among the first `count` nodes, from the
/// last of them backwards.
spec fn constant_tensors(nodes: Seq<NodeView>, count: int, order: ByteOrder) -> Seq<TensorView>
    decreases count,
{
    if count <= 0 {
        Seq::empty()
    } else if !is_constant(nodes[count - 1]) {
        constant_tensors(nodes, count - 1, order)
    } else {
        seq![tensor_of(nodes[count - 1], order)] + constant_tensors(nodes, count - 1, order)
    }
}

proof fn lemma_constant_tensors_alike(
    some: Seq<NodeView>,
    other: Seq<NodeView>,
    count: int,
    order: ByteOrder,
)
    requires
        0 <= count <= some.len(),
        count <= other.len(),
        forall|i: int| 0 <= i < count ==> #[trigger] some[i] == other[i],
    ensures
        constant_tensors(some, count, order) == constant_tensors(other, count, order),
    decreases count,
{
    if count > 0 {
        assert(some[count - 1] == other[count - 1]);
        lemma_constant_tensors_alike(some, other, count - 1, order);
    }
}

proof fn lemma_replaced_initializers(graph: GraphView, count: int, order: ByteOrder)
    requires
        0 <= count <= graph.node.len(),
        replaced(graph, count, order) matches Some((_, Ok(_))),
    ensures
        replaced(graph, count, order).unwrap().0.initializer == graph.initializer
            + constant_tensors(graph.node, count, order),
        forall|i: int|
            0 <= i < count && is_constant(#[trigger] graph.node[i]) ==> constant_initializer(
                graph.node[i],
                order,
            ) matches Some(Ok(_)),
    decreases count,
{
    if count == 0 {
        assert(graph.initializer + Seq::<TensorView>::empty() =~= graph.initializer);
    } else if !is_constant(graph.node[count - 1]) {
        lemma_replaced_initializers(graph, count - 1, order);
    } else {
        let tensor = tensor_of(graph.node[count - 1], order);
        let next = GraphView {
            node: graph.node.remove(count - 1),
            initializer: graph.initializer.push(tensor),
            ..graph
        };
        lemma_replaced_initializers(next, count - 1, order);
        lemma_constant_tensors_alike(next.node, graph.node, count - 1, order);
        assert(graph.initializer.push(tensor) + constant_tensors(graph.node, count - 1, order)
            =~= graph.initializer + constant_tensors(graph.node, count, order));
        assert forall|i: int| 0 <= i < count && is_constant(#[trigger] graph.node[i]) implies
            constant_initializer(graph.node[i], order) matches Some(Ok(_)) by {
            if i < count - 1 {
                assert(next.node[i] == graph.node[i]);
            }
        }
    }
}

/// Each of the initializers stands for a `Constant` node.
proof fn lemma_tensor_has_node(nodes: Seq<NodeView>, count: int, order: ByteOrder, k: int) -> (i:
    int)
    requires
        0 <= count <= nodes.len(),
        0 <= k < constant_tensors(nodes, count, order).len(),
    ensures
        0 <= i < count,
        is_constant(nodes[i]),
        tensor_of(nodes[i], order) == constant_tensors(nodes, count, order)[k],
    decreases count,
{
    if !is_constant(nodes[count - 1]) {
        lemma_tensor_has_node(nodes, count - 1, order, k)
    } else if k == 0 {
        count - 1
    } else {
        lemma_tensor_has_node(nodes, count - 1, order, k - 1)
    }
}

/// Each `Constant` node has an initializer that stands for it.
proof fn lemma_node_has_tensor(nodes: Seq<NodeView>, count: int, order: ByteOrder, i: int)
    requires
        0 <= i < count <= nodes.len(),
        is_constant(nodes[i]),
    ensures
        constant_tensors(nodes, count, order).contains(tensor_of(nodes[i], order)),
    decreases count,
{
    let tensors = constant_tensors(nodes, count, order);
    let tensor = tensor_of(nodes[i], order);
    if i == count - 1 {
        assert(tensors[0] == tensor);
    } else {
        lemma_node_has_tensor(nodes, count - 1, order, i);
        let fewer = constant_tensors(nodes, count - 1, order);
        let k = fewer.index_of(tensor);
        if is_constant(nodes[count - 1]) {
            assert(tensors[k + 1] == tensor);
        }
    }
}

proof fn lemma_tensors_joined(
    known: Map<Seq<char>, ShapeView>,
    some: Seq<TensorView>,
    more: Seq<TensorView>,
)
    ensures
        with_tensors(known, some + more) == with_tensors(known, some).union_prefer_right(
            with_tensors(Map::empty(), more),
        ),
    decreases more.len(),
{
    if more.len() == 0 {
        assert(some + more =~= some);
        assert(with_tensors(known, some).union_prefer_right(Map::empty()) =~= with_tensors(
            known,
            some,
        ));
    } else {
        lemma_tensors_joined(known, some, more.drop_last());
        assert((some + more).drop_last() =~= some + more.drop_last());
        assert((some + more).last() == more.last());
        assert(with_tensors(known, some + more) =~= with_tensors(known, some).union_prefer_right(
            with_tensors(Map::empty(), more),
        ));
    }
}

proof fn lemma_table_joined(some: Seq<TensorView>, more: Seq<TensorView>)
    ensures
        constant_table(some + more) == constant_table(some).union_prefer_right(
            constant_table(more),
        ),
    decreases more.len(),
{
    if more.len() == 0 {
        assert(some + more =~= some);
        assert(constant_table(some).union_prefer_right(Map::empty()) =~= constant_table(some));
    } else {
        lemma_table_joined(some, more.drop_last());
        assert((some + more).drop_last() =~= some + more.drop_last());
        assert((some + more).last() == more.last());
        assert(constant_table(some + more) =~= constant_table(some).union_prefer_right(
            constant_table(more),
        ));
    }
}

proof fn lemma_table_names(tensors: Seq<TensorView>, name: Seq<char>)
    ensures
        constant_table(tensors).contains_key(name) ==> names_tensor(tensors, name),
    decreases tensors.len(),
{
    if tensors.len() > 0 {
        let rest = tensors.drop_last();
        lemma_table_names(rest, name);
        if names_tensor(rest, name) {
            let i = choose|i: int| 0 <= i < rest.len() && (#[trigger] rest[i]).name == name;
            assert(tensors[i].name == name);
        }
        if tensors.last().name == name {
            assert(tensors[tensors.len() - 1].name == name);
        }
    }
}

proof fn lemma_tensors_names(tensors: Seq<TensorView>, name: Seq<char>)
    ensures
        with_tensors(Map::empty(), tensors).contains_key(name) ==> names_tensor(tensors, name),
    decreases tensors.len(),
{
    if tensors.len() > 0 {
        let rest = tensors.drop_last();
        lemma_tensors_names(rest, name);
        if names_tensor(rest, name) {
            let i = choose|i: int| 0 <= i < rest.len() && (#[trigger] rest[i]).name == name;
            assert(tensors[i].name == name);
        }
        if tensors.last().name == name {
            assert(tensors[tensors.len() - 1].name == name);
        }
    }
}

/// A tensor of a supported data type whose name no other has tells its shape.
proof fn lemma_only_tensor(tensors: Seq<TensorView>, tensor: TensorView)
    requires
        tensors.contains(tensor),
        forall|k: int|
            0 <= k < tensors.len() && (#[trigger] tensors[k]).name == tensor.name ==> tensors[k]
                == tensor,
        scalar_type(tensor.data_type) is Ok,
    ensures
        with_tensors(Map::empty(), tensors).contains_key(tensor.name),
        with_tensors(Map::empty(), tensors)[tensor.name] == shape_of(
            scalar_type(tensor.data_type)->Ok_0,
            tensor.dims,
        ),
    decreases tensors.len(),
{
    let rest = tensors.drop_last();
    let last = tensors.last();
    assert(tensors[tensors.len() - 1] == last);
    if last.name != tensor.name {
        let k = tensors.index_of(tensor);
        assert(rest[k] == tensor);
        assert forall|j: int|
            0 <= j < rest.len() && (#[trigger] rest[j]).name == tensor.name implies rest[j]
            == tensor by {
            assert(tensors[j] == rest[j]);
        }
        lemma_only_tensor(rest, tensor);
    }
}

/// Whether the values of `Constant` nodes go by names of their own: none is told in another way, no
/// other node gives it, and it is clear of what element type it is.
pub open spec fn apart(graph: GraphView) -> bool {
    forall|i: int|
        0 <= i < graph.node.len() && is_constant(#[trigger] graph.node[i]) ==> {
            let node = graph.node[i];
            &&& !known_shapes(graph).contains_key(node.output[0])
            &&& forall|j: int| j != i ==> !(#[trigger] gives(graph.node, j, node.output[0]))
            &&& node.find("value_floats"@) is None && node.find("value_ints"@) is None
                ==> node.find("value_int"@) is None || node.find("value_float"@) is None
        }
}

/// What is known in the course of inference on a graph and on the one without `Constant` nodes:
/// the same, but that the latter knows all constants from the start.
spec fn abreast(
    graph: GraphView,
    told: Map<Seq<char>, ShapeView>,
    index: int,
    with: Progress,
    without: Progress,
) -> bool {
    &&& without.shapes == with.shapes.union_prefer_right(told)
    &&& forall|name: Seq<char>| #[trigger]
        with.shapes.contains_key(name) && told.contains_key(name) ==> with.shapes[name]
            == told[name]
    &&& forall|i: int|
        0 <= i < index && is_constant(#[trigger] graph.node[i]) ==> with.shapes.contains_key(
            graph.node[i].output[0],
        )
    &&& forall|i: int|
        index <= i < graph.node.len() && is_constant(#[trigger] graph.node[i])
            ==> !with.shapes.contains_key(graph.node[i].output[0])
}

/// Whether a table tells the shapes of exactly the values of the `Constant` nodes, as their rule
/// gives them.
spec fn tells_constants(graph: GraphView, told: Map<Seq<char>, ShapeView>) -> bool {
    &&& forall|name: Seq<char>| #[trigger]
        told.contains_key(name) ==> exists|i: int|
            0 <= i < graph.node.len() && is_constant(#[trigger] graph.node[i])
                && graph.node[i].output[0] == name
    &&& forall|i: int|
        0 <= i < graph.node.len() && is_constant(#[trigger] graph.node[i])
            && (constant(graph.node[i]) matches Some(Ok(_))) ==> {
            &&& told.contains_key(graph.node[i].output[0])
            &&& constant(graph.node[i]) == Some(
                Ok::<Seq<ShapeView>, ErrorView>(seq![told[graph.node[i].output[0]]]),
            )
        }
}

proof fn lemma_recorded_abreast(
    told: Map<Seq<char>, ShapeView>,
    with: Progress,
    without: Progress,
    names: Seq<Seq<char>>,
    shapes: Seq<ShapeView>,
)
    requires
        without.shapes == with.shapes.union_prefer_right(told),
        forall|j: int| 0 <= j < names.len() ==> !told.contains_key(#[trigger] names[j]),
    ensures
        recorded(without, names, shapes).shapes == recorded(
            with,
            names,
            shapes,
        ).shapes.union_prefer_right(told),
        forall|name: Seq<char>| #[trigger]
            recorded(with, names, shapes).shapes.contains_key(name) ==> names.contains(name)
                || with.shapes.contains_key(name),
        forall|name: Seq<char>| #[trigger]
            with.shapes.contains_key(name) ==> recorded(with, names, shapes).shapes.contains_key(
                name,
            ),
        forall|name: Seq<char>|
            !names.contains(name) ==> #[trigger] recorded(with, names, shapes).shapes[name]
                == with.shapes[name],
    decreases names.len(),
{
    if names.len() > 0 {
        let rest = names.drop_last();
        let name = names.last();
        assert forall|j: int| 0 <= j < rest.len() implies !told.contains_key(
            #[trigger] rest[j],
        ) by {
            assert(names[j] == rest[j]);
        }
        lemma_recorded_abreast(told, with, without, rest, shapes);
        assert(names[names.len() - 1] == name);
        let before = recorded(with, rest, shapes);
        let shape = shapes[names.len() - 1];
        assert(before.shapes.union_prefer_right(told).insert(name, shape) =~= before.shapes.insert(
            name,
            shape,
        ).union_prefer_right(told));
        assert forall|other: Seq<char>| rest.contains(other) implies names.contains(other) by {
            let j = rest.index_of(other);
            assert(names[j] == other);
        }
    }
}

proof fn lemma_others(nodes: Seq<NodeView>)
    requires
        nodes.len() > 0,
    ensures
        is_constant(nodes[0]) ==> others(nodes) == others(nodes.drop_first()),
        !is_constant(nodes[0]) ==> others(nodes) == seq![nodes[0]] + others(nodes.drop_first()),
{
    let pred = |node: NodeView| !is_constant(node);
    let first = seq![nodes[0]];
    Seq::filter_distributes_over_add(first, nodes.drop_first(), pred);
    assert(first + nodes.drop_first() =~= nodes);
    reveal(Seq::filter);
    assert(first.drop_last() =~= Seq::<NodeView>::empty());
    assert(Seq::<NodeView>::empty().filter(pred) =~= Seq::<NodeView>::empty());
    if is_constant(nodes[0]) {
        assert(first.filter(pred) =~= Seq::<NodeView>::empty());
        assert(Seq::<NodeView>::empty() + others(nodes.drop_first()) =~= others(
            nodes.drop_first(),
        ));
    } else {
        assert(first.filter(pred) =~= first);
    }
}

proof fn lemma_abreast(
    graph: GraphView,
    told: Map<Seq<char>, ShapeView>,
    few: Map<Seq<char>, TensorView>,
    many: Map<Seq<char>, TensorView>,
    index: int,
    with: Progress,
    without: Progress,
)
    requires
        apart(graph),
        tells_constants(graph, told),
        forall|name: Seq<char>| #[trigger]
            few.contains_key(name) ==> many.contains_key(name) && many[name] == few[name],
        0 <= index <= graph.node.len(),
        abreast(graph, told, index, with, without),
        infer_nodes(with, graph.node.skip(index), few) matches Some((_, Ok(_))),
        forall|i: int|
            0 <= i < graph.node.len() && is_constant(#[trigger] graph.node[i])
                ==> graph.node[i].output.len() == 1,
    ensures
        infer_nodes(without, others(graph.node.skip(index)), many) matches Some((after, Ok(_)))
            && after.shapes == infer_nodes(
            with,
            graph.node.skip(index),
            few,
        ).unwrap().0.shapes,
    decreases graph.node.len() - index,
{
    let nodes = graph.node.skip(index);
    reveal(Seq::filter);
    if index == graph.node.len() {
        assert(nodes.len() == 0);
        assert(others(nodes).len() == 0);
        assert forall|name: Seq<char>| #[trigger] told.contains_key(
            name,
        ) implies with.shapes.contains_key(name) by {
            let i = choose|i: int|
                0 <= i < graph.node.len() && is_constant(#[trigger] graph.node[i])
                    && graph.node[i].output[0] == name;
            assert(with.shapes.contains_key(graph.node[i].output[0]));
        }
        assert(without.shapes =~= with.shapes);
    } else {
        let node = graph.node[index];
        assert(nodes[0] == node);
        assert(nodes.drop_first() =~= graph.node.skip(index + 1));
        lemma_others(nodes);
        lemma_all_known(with.shapes, node.output);
        lemma_all_known(without.shapes, node.output);
        if is_constant(node) {
            lemma_constant_step(graph, told, few, index, with, without);
            let next = infer_node(with, node, few).unwrap()->Ok_0;
            lemma_abreast(graph, told, few, many, index + 1, next, without);
        } else {
            lemma_other_step(graph, told, few, many, index, with, without);
            let next = infer_node(with, node, few).unwrap()->Ok_0;
            let next_without = infer_node(without, node, many).unwrap()->Ok_0;
            lemma_abreast(graph, told, few, many, index + 1, next, next_without);
            let rest = others(nodes.drop_first());
            assert(others(nodes)[0] == node);
            assert(others(nodes).drop_first() =~= rest);
        }
    }
}

/// A `Constant` node makes its value known to the one inference; the other knows it already.
proof fn lemma_constant_step(
    graph: GraphView,
    told: Map<Seq<char>, ShapeView>,
    few: Map<Seq<char>, TensorView>,
    index: int,
    with: Progress,
    without: Progress,
)
    requires
        apart(graph),
        tells_constants(graph, told),
        0 <= index < graph.node.len(),
        is_constant(graph.node[index]),
        graph.node[index].output.len() == 1,
        abreast(graph, told, index, with, without),
        infer_node(with, graph.node[index], few) matches Some(Ok(_)),
    ensures
        abreast(
            graph,
            told,
            index + 1,
            infer_node(with, graph.node[index], few).unwrap()->Ok_0,
            without,
        ),
{
    let node = graph.node[index];
    let name = node.output[0];
    lemma_all_known(with.shapes, node.output);
    assert(!with.shapes.contains_key(name));
    assert(operator(node.op_type) == Operator::Constant) by {
        lemma_constant_operator();
    }
    let shapes = shapes_of(with.shapes, node.input);
    assert(forward(node, shapes, few) matches Some(Ok(_)));
    assert(forward(node, shapes, few) == constant(node));
    let shape = told[name];
    let next = recorded(with, node.output, seq![shape]);
    assert(node.output.drop_last() =~= Seq::<Seq<char>>::empty());
    assert(recorded(with, node.output.drop_last(), seq![shape]) == with);
    assert(infer_node(with, node, few) == Some(Ok::<Progress, ErrorView>(next)));
    assert(next.shapes == with.shapes.insert(name, shape));
    assert(next.shapes.union_prefer_right(told) =~= with.shapes.union_prefer_right(told));
    assert forall|i: int|
        index + 1 <= i < graph.node.len() && is_constant(
            #[trigger] graph.node[i],
        ) implies !next.shapes.contains_key(graph.node[i].output[0]) by {
        assert(!gives(graph.node, index, graph.node[i].output[0]));
        assert(node.output.contains(name));
    }
}

proof fn lemma_constant_operator()
    ensures
        operator("Constant"@) == Operator::Constant,
{
    reveal_strlit("Constant");
    reveal_strlit("Identity");
    reveal_strlit("Sqrt");
    reveal_strlit("Relu");
    reveal_strlit("Sub");
    reveal_strlit("Pow");
    reveal_strlit("Add");
    reveal_strlit("Div");
    reveal_strlit("Mul");
    reveal_strlit("Cast");
    reveal_strlit("Concat");
    assert("Constant"@.len() == 8);
    assert("Constant"@[0] != "Identity"@[0]);
}

/// A node that is no `Constant` goes the same way in both inferences.
proof fn lemma_other_step(
    graph: GraphView,
    told: Map<Seq<char>, ShapeView>,
    few: Map<Seq<char>, TensorView>,
    many: Map<Seq<char>, TensorView>,
    index: int,
    with: Progress,
    without: Progress,
)
    requires
        apart(graph),
        tells_constants(graph, told),
        forall|name: Seq<char>| #[trigger]
            few.contains_key(name) ==> many.contains_key(name) && many[name] == few[name],
        0 <= index < graph.node.len(),
        !is_constant(graph.node[index]),
        abreast(graph, told, index, with, without),
        infer_node(with, graph.node[index], few) matches Some(Ok(_)),
    ensures
        infer_node(without, graph.node[index], many) matches Some(Ok(next)) && abreast(
            graph,
            told,
            index + 1,
            infer_node(with, graph.node[index], few).unwrap()->Ok_0,
            next,
        ),
{
    let node = graph.node[index];
    assert forall|j: int| 0 <= j < node.output.len() implies !told.contains_key(
        #[trigger] node.output[j],
    ) by {
        if told.contains_key(node.output[j]) {
            let i = choose|i: int|
                0 <= i < graph.node.len() && is_constant(#[trigger] graph.node[i])
                    && graph.node[i].output[0] == node.output[j];
            assert(gives(graph.node, index, node.output[j]));
        }
    }
    lemma_all_known(with.shapes, node.output);
    lemma_all_known(without.shapes, node.output);
    assert forall|j: int| 0 <= j < node.output.len() implies without.shapes.contains_key(
        #[trigger] node.output[j],
    ) == with.shapes.contains_key(node.output[j]) by {
        assert(!told.contains_key(node.output[j]));
    }
    assert forall|i: int| 0 <= i < graph.node.len() && is_constant(#[trigger] graph.node[i]) implies
        !node.output.contains(graph.node[i].output[0]) by {
        assert(!gives(graph.node, index, graph.node[i].output[0]));
    }
    if first_unknown(with.shapes, node.output) is Some {
        lemma_all_known(with.shapes, node.input);
        lemma_all_known(without.shapes, node.input);
        assert forall|j: int| 0 <= j < node.input.len() implies without.shapes.contains_key(
            #[trigger] node.input[j],
        ) && without.shapes[node.input[j]] == with.shapes[node.input[j]] by {
            assert(with.shapes.contains_key(node.input[j]));
        }
        let shapes = shapes_of(with.shapes, node.input);
        assert(shapes_of(without.shapes, node.input) =~= shapes);
        law_more_constants_change_nothing(node, shapes, few, many);
        let found = forward(node, shapes, few).unwrap()->Ok_0;
        lemma_recorded_abreast(told, with, without, node.output, found);
        let next = recorded(with, node.output, found);
        assert forall|name: Seq<char>| #[trigger]
            next.shapes.contains_key(name) && told.contains_key(name) implies next.shapes[name]
            == told[name] by {
            if node.output.contains(name) {
                let j = node.output.index_of(name);
                assert(!told.contains_key(node.output[j]));
            }
        }
    }
}

/// A new initializer is named like the output of a `Constant` node, and like no old one.
proof fn lemma_new_name(graph: GraphView, order: ByteOrder, name: Seq<char>) -> (i: int)
    requires
        !shadowed(graph),
        constants_replaced(graph, order) matches Some((_, Ok(_))),
        names_tensor(constant_tensors(graph.node, graph.node.len() as int, order), name),
    ensures
        0 <= i < graph.node.len(),
        is_constant(graph.node[i]),
        graph.node[i].output[0] == name,
        !names_tensor(graph.initializer, name),
{
    let count = graph.node.len() as int;
    let tensors = constant_tensors(graph.node, count, order);
    lemma_replaced_initializers(graph, count, order);
    let k = choose|k: int| 0 <= k < tensors.len() && (#[trigger] tensors[k]).name == name;
    let i = lemma_tensor_has_node(graph.node, count, order, k);
    assert(is_constant(graph.node[i]));
    assert(graph.node[i].output[0] == name);
    assert(gives(graph.node, i, name));
    i
}

/// No node that is left gives a value that is named like an initializer.
proof fn lemma_still_not_shadowed(graph: GraphView, order: ByteOrder)
    requires
        apart(graph),
        !shadowed(graph),
        constants_replaced(graph, order) matches Some((_, Ok(_))),
    ensures
        !shadowed(constants_replaced(graph, order).unwrap().0),
{
    let count = graph.node.len() as int;
    let tensors = constant_tensors(graph.node, count, order);
    let bare = constants_replaced(graph, order).unwrap().0;
    let pred = |node: NodeView| !is_constant(node);
    lemma_replaced_initializers(graph, count, order);
    law_only_constants_go(graph, order);
    if shadowed(bare) {
        let (i, name) = choose|i: int, name: Seq<char>| #[trigger]
            gives(bare.node, i, name) && names_tensor(bare.initializer, name);
        let node = bare.node[i];
        graph.node.lemma_filter_pred(pred, i);
        assert(graph.node.filter(pred)[i] == node);
        graph.node.lemma_filter_contains_rev(pred, node);
        let k = graph.node.index_of(node);
        assert(gives(graph.node, k, name));
        let j = choose|j: int|
            0 <= j < bare.initializer.len() && (#[trigger] bare.initializer[j]).name == name;
        if j < graph.initializer.len() {
            assert(graph.initializer[j].name == name);
        } else {
            assert(tensors[j - graph.initializer.len()].name == name);
            let c = lemma_new_name(graph, order, name);
            assert(is_constant(graph.node[c]));
            assert(!gives(graph.node, k, graph.node[c].output[0]));
        }
    }
}

proof fn lemma_tells_constants(graph: GraphView, order: ByteOrder)
    requires
        apart(graph),
        !shadowed(graph),
        constants_replaced(graph, order) matches Some((_, Ok(_))),
    ensures
        tells_constants(
            graph,
            with_tensors(
                Map::empty(),
                constant_tensors(graph.node, graph.node.len() as int, order),
            ),
        ),
{
    let count = graph.node.len() as int;
    let tensors = constant_tensors(graph.node, count, order);
    let told = with_tensors(Map::empty(), tensors);
    lemma_replaced_initializers(graph, count, order);
    assert forall|name: Seq<char>| #[trigger] told.contains_key(name) implies exists|i: int|
        0 <= i < graph.node.len() && is_constant(#[trigger] graph.node[i])
            && graph.node[i].output[0] == name by {
        lemma_tensors_names(tensors, name);
        let i = lemma_new_name(graph, order, name);
        assert(is_constant(graph.node[i]));
    }
    assert forall|i: int|
        0 <= i < graph.node.len() && is_constant(#[trigger] graph.node[i]) && (constant(
            graph.node[i],
        ) matches Some(Ok(_))) implies told.contains_key(graph.node[i].output[0]) && constant(
        graph.node[i],
    ) == Some(
        Ok::<Seq<ShapeView>, ErrorView>(seq![told[graph.node[i].output[0]]]),
    ) by {
        let node = graph.node[i];
        let tensor = tensor_of(node, order);
        law_constant_has_its_initializers_shape(node, order);
        lemma_node_has_tensor(graph.node, count, order, i);
        assert forall|k: int|
            0 <= k < tensors.len() && (#[trigger] tensors[k]).name == tensor.name implies tensors[k]
            == tensor by {
            let j = lemma_tensor_has_node(graph.node, count, order, k);
            if j != i {
                assert(is_constant(graph.node[j]));
                assert(!gives(graph.node, j, node.output[0]));
                assert(graph.node[j].output[0] == tensors[k].name);
                assert(gives(graph.node, j, graph.node[j].output[0]));
            }
        }
        lemma_only_tensor(tensors, tensor);
    }
}

/// Replacing the `Constant` nodes by initializers does not change what is inferred: where
/// inference succeeds on a graph, it succeeds on the graph without `Constant` nodes, and the same
/// shapes are known afterwards. The values of the `Constant` nodes have to go by names of their
/// own, and no node may give a value that is named like an initializer.
pub proof fn law_replacing_constants_keeps_shapes(graph: GraphView, order: ByteOrder)
    requires
        apart(graph),
        !shadowed(graph),
        inferred(graph) matches Some((_, Ok(_))),
        constants_replaced(graph, order) matches Some((_, Ok(_))),
    ensures
        inferred(constants_replaced(graph, order).unwrap().0) matches Some((after, Ok(_)))
            && known_shapes(after) == known_shapes(inferred(graph).unwrap().0),
{
    let bare = constants_replaced(graph, order).unwrap().0;
    let count = graph.node.len() as int;
    let tensors = constant_tensors(graph.node, count, order);
    let told = with_tensors(Map::empty(), tensors);
    let few = constant_table(graph.initializer);
    let many = constant_table(bare.initializer);
    lemma_replaced_initializers(graph, count, order);
    law_only_constants_go(graph, order);
    law_constants_become_initializers(graph, order);
    lemma_still_not_shadowed(graph, order);
    lemma_tells_constants(graph, order);
    lemma_table_joined(graph.initializer, tensors);
    assert forall|name: Seq<char>| #[trigger] few.contains_key(name) implies many.contains_key(
        name,
    ) && many[name] == few[name] by {
        lemma_table_names(graph.initializer, name);
        lemma_table_names(tensors, name);
        if names_tensor(tensors, name) {
            lemma_new_name(graph, order, name);
        }
    }
    let values = with_values(
        with_values(with_values(Map::empty(), graph.input), graph.output),
        graph.value_info,
    );
    lemma_tensors_joined(values, graph.initializer, tensors);
    assert(known_shapes(bare) == known_shapes(graph).union_prefer_right(told));
    assert(abreast(graph, told, 0, initial(graph), initial(bare))) by {
        assert forall|name: Seq<char>| #[trigger]
            known_shapes(graph).contains_key(name) && told.contains_key(name) implies known_shapes(
            graph,
        )[name] == told[name] by {
            let i = choose|i: int|
                0 <= i < graph.node.len() && is_constant(#[trigger] graph.node[i])
                    && graph.node[i].output[0] == name;
            assert(!known_shapes(graph).contains_key(graph.node[i].output[0]));
        }
    }
    assert(graph.node.skip(0) =~= graph.node);
    lemma_abreast(graph, told, few, many, 0, initial(graph), initial(bare));
    law_found_shapes_are_told(graph);
    law_found_shapes_are_told(bare);
}

} // verus!
