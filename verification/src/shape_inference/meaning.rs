//! What inference does with a graph, said of its lists and its nodes.
use vstd::prelude::*;
use crate::error::ErrorView;
use crate::forward::{forward, law_each_output_gets_a_shape};
use crate::onnx::{GraphView, NodeView, TensorView, ValueInfoView};
use crate::shape::{scalar_type, shape_of, value_with_shape, ScalarType, Shape, ShapeView};
use crate::shape_inference::laws::{gives, law_found_shapes_are_told, recording, shadowed};
use crate::shape_inference::{
    constant_table, first_unknown, infer_node, infer_nodes, inferred, initial, known_shapes,
    lemma_all_known, recorded, shape_table, shapes_of, with_tensors, with_values, Progress,
};

verus! {

/// A table of shapes shows each of them under its name.
pub proof fn law_shape_table_shows_all(table: Map<Seq<char>, Shape>, name: Seq<char>)
    ensures
        shape_table(table).contains_key(name) == table.contains_key(name),
        table.contains_key(name) ==> shape_table(table)[name] == table[name]@,
{
}

/// Whether the value with the given index is the last that has this name and a shape.
pub open spec fn last_value(values: Seq<ValueInfoView>, name: Seq<char>, i: int) -> bool {
    &&& 0 <= i < values.len()
    &&& values[i].name == name
    &&& values[i].shape() is Some
    &&& forall|j: int|
        i < j < values.len() ==> (#[trigger] values[j]).name != name || values[j].shape() is None
}

/// Whether no value has this name and a shape.
pub open spec fn no_value(values: Seq<ValueInfoView>, name: Seq<char>) -> bool {
    forall|j: int|
        0 <= j < values.len() ==> (#[trigger] values[j]).name != name || values[j].shape() is None
}

/// Whether the code is one of an element type.
pub open spec fn is_code(code: i32) -> bool {
    code == 1 || code == 2 || code == 6 || code == 7
}

/// Whether no tensor has this name and an element type.
pub open spec fn no_tensor(tensors: Seq<TensorView>, name: Seq<char>) -> bool {
    forall|j: int|
        0 <= j < tensors.len() ==> (#[trigger] tensors[j]).name != name || !is_code(
            tensors[j].data_type,
        )
}

proof fn lemma_last_value(
    known: Map<Seq<char>, ShapeView>,
    values: Seq<ValueInfoView>,
    name: Seq<char>,
    i: int,
)
    ensures
        last_value(values, name, i) ==> with_values(known, values).contains_key(name)
            && with_values(known, values)[name] == values[i].shape().unwrap(),
        no_value(values, name) ==> with_values(known, values).contains_key(name)
            == known.contains_key(name) && with_values(known, values)[name] == known[name],
    decreases values.len(),
{
    if values.len() > 0 {
        let rest = values.drop_last();
        lemma_last_value(known, rest, name, i);
        assert(values[values.len() - 1] == values.last());
        assert(forall|j: int| 0 <= j < rest.len() ==> #[trigger] rest[j] == values[j]);
        if no_value(values, name) {
            assert forall|j: int| 0 <= j < rest.len() implies (#[trigger] rest[j]).name != name
                || rest[j].shape() is None by {
                assert(values[j].name != name || values[j].shape() is None);
            }
        }
        if last_value(values, name, i) && i < rest.len() {
            assert forall|j: int| i < j < rest.len() implies (#[trigger] rest[j]).name != name
                || rest[j].shape() is None by {
                assert(values[j].name != name || values[j].shape() is None);
            }
        }
    }
}

proof fn lemma_last_tensor(
    known: Map<Seq<char>, ShapeView>,
    tensors: Seq<TensorView>,
    name: Seq<char>,
    i: int,
)
    ensures
        0 <= i < tensors.len() && tensors[i].name == name && is_code(tensors[i].data_type) && (
        forall|j: int|
            i < j < tensors.len() ==> (#[trigger] tensors[j]).name != name || !is_code(
                tensors[j].data_type,
            )) ==> with_tensors(known, tensors).contains_key(name) && with_tensors(
            known,
            tensors,
        )[name] == shape_of(scalar_type(tensors[i].data_type)->Ok_0, tensors[i].dims),
        no_tensor(tensors, name) ==> with_tensors(known, tensors).contains_key(name)
            == known.contains_key(name) && with_tensors(known, tensors)[name] == known[name],
    decreases tensors.len(),
{
    if tensors.len() > 0 {
        let rest = tensors.drop_last();
        lemma_last_tensor(known, rest, name, i);
        assert(tensors[tensors.len() - 1] == tensors.last());
        assert(forall|j: int| 0 <= j < rest.len() ==> #[trigger] rest[j] == tensors[j]);
        if no_tensor(tensors, name) {
            assert forall|j: int| 0 <= j < rest.len() implies (#[trigger] rest[j]).name != name
                || !is_code(rest[j].data_type) by {
                assert(tensors[j].name != name || !is_code(tensors[j].data_type));
            }
        }
        if 0 <= i && forall|j: int|
            i < j < tensors.len() ==> (#[trigger] tensors[j]).name != name || !is_code(
                tensors[j].data_type,
            ) {
            assert forall|j: int| i < j < rest.len() implies (#[trigger] rest[j]).name != name
                || !is_code(rest[j].data_type) by {
                assert(tensors[j].name != name || !is_code(tensors[j].data_type));
            }
        }
    }
}

/// An initializer with an element type tells its shape, whatever else the graph says of its name.
/// Of several with one name the last counts.
pub proof fn law_initializers_come_first(graph: GraphView, name: Seq<char>, i: int)
    requires
        0 <= i < graph.initializer.len(),
        graph.initializer[i].name == name,
        is_code(graph.initializer[i].data_type),
        forall|j: int|
            i < j < graph.initializer.len() ==> (#[trigger] graph.initializer[j]).name != name
                || !is_code(graph.initializer[j].data_type),
    ensures
        ({
            let tensor = graph.initializer[i];
            let shape = known_shapes(graph)[name];
            &&& known_shapes(graph).contains_key(name)
            &&& shape.data_type == if tensor.data_type == 1 {
                ScalarType::F32
            } else if tensor.data_type == 2 {
                ScalarType::U8
            } else if tensor.data_type == 6 {
                ScalarType::I32
            } else {
                ScalarType::I64
            }
            &&& shape.dims.len() == tensor.dims.len()
            &&& forall|k: int|
                0 <= k < tensor.dims.len() ==> shape.dims[k] == #[trigger] tensor.dims[k] as u64
        }),
{
    let values = with_values(
        with_values(with_values(Map::empty(), graph.input), graph.output),
        graph.value_info,
    );
    lemma_last_tensor(values, graph.initializer, name, i);
}

/// Without such an initializer a recorded value tells its shape, the last of those with that name.
pub proof fn law_recorded_values_come_second(graph: GraphView, name: Seq<char>, i: int)
    requires
        no_tensor(graph.initializer, name),
        last_value(graph.value_info, name, i),
    ensures
        known_shapes(graph).contains_key(name),
        Some(known_shapes(graph)[name]) == graph.value_info[i].shape(),
{
    let second = with_values(with_values(Map::empty(), graph.input), graph.output);
    lemma_last_value(second, graph.value_info, name, i);
    lemma_last_tensor(with_values(second, graph.value_info), graph.initializer, name, 0);
}

/// Without these an output tells its shape, the last of those with that name.
pub proof fn law_outputs_come_third(graph: GraphView, name: Seq<char>, i: int)
    requires
        no_tensor(graph.initializer, name),
        no_value(graph.value_info, name),
        last_value(graph.output, name, i),
    ensures
        known_shapes(graph).contains_key(name),
        Some(known_shapes(graph)[name]) == graph.output[i].shape(),
{
    let first = with_values(Map::empty(), graph.input);
    let second = with_values(first, graph.output);
    lemma_last_value(first, graph.output, name, i);
    lemma_last_value(second, graph.value_info, name, 0);
    lemma_last_tensor(with_values(second, graph.value_info), graph.initializer, name, 0);
}

/// Without these an input tells its shape, the last of those with that name.
pub proof fn law_inputs_come_last(graph: GraphView, name: Seq<char>, i: int)
    requires
        no_tensor(graph.initializer, name),
        no_value(graph.value_info, name),
        no_value(graph.output, name),
        last_value(graph.input, name, i),
    ensures
        known_shapes(graph).contains_key(name),
        Some(known_shapes(graph)[name]) == graph.input[i].shape(),
{
    let first = with_values(Map::empty(), graph.input);
    let second = with_values(first, graph.output);
    lemma_last_value(Map::empty(), graph.input, name, i);
    lemma_last_value(first, graph.output, name, 0);
    lemma_last_value(second, graph.value_info, name, 0);
    lemma_last_tensor(with_values(second, graph.value_info), graph.initializer, name, 0);
}

/// Where no list of the graph tells a shape under the name, none is known.
pub proof fn law_nothing_else_is_known(graph: GraphView, name: Seq<char>)
    requires
        no_tensor(graph.initializer, name),
        no_value(graph.value_info, name),
        no_value(graph.output, name),
        no_value(graph.input, name),
    ensures
        !known_shapes(graph).contains_key(name),
{
    let first = with_values(Map::empty(), graph.input);
    let second = with_values(first, graph.output);
    lemma_last_value(Map::empty(), graph.input, name, 0);
    lemma_last_value(first, graph.output, name, 0);
    lemma_last_value(second, graph.value_info, name, 0);
    lemma_last_tensor(with_values(second, graph.value_info), graph.initializer, name, 0);
}

/// The constant of a name is the last tensor with that name, of whatever element type.
pub proof fn law_last_constant_counts(tensors: Seq<TensorView>, name: Seq<char>, i: int)
    ensures
        0 <= i < tensors.len() && tensors[i].name == name && (forall|j: int|
            i < j < tensors.len() ==> (#[trigger] tensors[j]).name != name) ==> constant_table(
            tensors,
        ).contains_key(name) && constant_table(tensors)[name] == tensors[i],
        constant_table(tensors).contains_key(name) <==> exists|j: int|
            0 <= j < tensors.len() && (#[trigger] tensors[j]).name == name,
    decreases tensors.len(),
{
    if tensors.len() > 0 {
        let rest = tensors.drop_last();
        law_last_constant_counts(rest, name, i);
        assert(tensors[tensors.len() - 1] == tensors.last());
        assert(forall|j: int| 0 <= j < rest.len() ==> #[trigger] rest[j] == tensors[j]);
        if tensors.last().name != name {
            assert((exists|j: int| 0 <= j < rest.len() && (#[trigger] rest[j]).name == name) <==> (
            exists|j: int| 0 <= j < tensors.len() && (#[trigger] tensors[j]).name == name)) by {
                if exists|j: int| 0 <= j < rest.len() && (#[trigger] rest[j]).name == name {
                    let j = choose|j: int| 0 <= j < rest.len() && (#[trigger] rest[j]).name == name;
                    assert(tensors[j].name == name);
                }
                if exists|j: int| 0 <= j < tensors.len() && (#[trigger] tensors[j]).name == name {
                    let j = choose|j: int|
                        0 <= j < tensors.len() && (#[trigger] tensors[j]).name == name;
                    assert(rest[j].name == name);
                }
            }
        }
    }
}

/// The graph with other nodes.
pub open spec fn having(graph: GraphView, node: Seq<NodeView>) -> GraphView {
    GraphView { node, ..graph }
}

/// Without nodes there is nothing to infer, and the graph stays as it is.
pub proof fn law_no_node_changes_nothing(graph: GraphView)
    requires
        graph.node.len() == 0,
    ensures
        inferred(graph) == Some((graph, Ok::<(), ErrorView>(()))),
{
}

proof fn lemma_one_more(
    progress: Progress,
    nodes: Seq<NodeView>,
    node: NodeView,
    table: Map<Seq<char>, TensorView>,
)
    ensures
        infer_nodes(progress, nodes.push(node), table) == match infer_nodes(progress, nodes, table) {
            Some((next, Ok(_))) => match infer_node(next, node, table) {
                None => None,
                Some(Err(error)) => Some((next, Err::<(), ErrorView>(error))),
                Some(Ok(after)) => Some((after, Ok::<(), ErrorView>(()))),
            },
            other => other,
        },
    decreases nodes.len(),
{
    let longer = nodes.push(node);
    if nodes.len() == 0 {
        assert(longer.drop_first() =~= Seq::<NodeView>::empty());
        if let Some(Ok(after)) = infer_node(progress, node, table) {
            assert(infer_nodes(after, longer.drop_first(), table) == Some(
                (after, Ok::<(), ErrorView>(())),
            ));
        }
    } else {
        assert(longer.drop_first() =~= nodes.drop_first().push(node));
        assert(longer[0] == nodes[0]);
        if let Some(Ok(next)) = infer_node(progress, nodes[0], table) {
            lemma_one_more(next, nodes.drop_first(), node, table);
        }
    }
}

proof fn lemma_recorded_values(
    progress: Progress,
    names: Seq<Seq<char>>,
    shapes: Seq<ShapeView>,
)
    ensures
        recorded(progress, names, shapes).value_info == progress.value_info + Seq::new(
            names.len(),
            |j: int| value_with_shape(names[j], shapes[j]),
        ),
    decreases names.len(),
{
    let all = Seq::new(names.len(), |j: int| value_with_shape(names[j], shapes[j]));
    if names.len() > 0 {
        let rest = names.drop_last();
        lemma_recorded_values(progress, rest, shapes);
        assert(all.drop_last() =~= Seq::new(
            rest.len(),
            |j: int| value_with_shape(rest[j], shapes[j]),
        ));
        assert(progress.value_info + all =~= (progress.value_info + all.drop_last()).push(
            all.last(),
        ));
    } else {
        assert(progress.value_info + all =~= progress.value_info);
    }
}

proof fn lemma_first_unknown(known: Map<Seq<char>, ShapeView>, names: Seq<Seq<char>>, k: int)
    requires
        0 <= k < names.len(),
        !known.contains_key(names[k]),
        forall|j: int| 0 <= j < k ==> known.contains_key(#[trigger] names[j]),
    ensures
        first_unknown(known, names) == Some(names[k]),
    decreases k,
{
    if k > 0 {
        assert(known.contains_key(names[0]));
        let rest = names.drop_first();
        assert forall|j: int| 0 <= j < k - 1 implies known.contains_key(#[trigger] rest[j]) by {
            assert(rest[j] == names[j + 1]);
        }
        lemma_first_unknown(known, rest, k - 1);
    }
}

/// How far inference comes with the given nodes: what it then knows is what the graph then tells.
proof fn lemma_step(graph: GraphView, nodes: Seq<NodeView>, node: NodeView, before: GraphView)
    requires
        inferred(having(graph, nodes)) == Some((before, Ok::<(), ErrorView>(()))),
        !shadowed(having(graph, nodes)),
    ensures
        ({
            let table = constant_table(graph.initializer);
            let here = Progress {
                shapes: known_shapes(before),
                value_info: before.value_info,
            };
            inferred(having(graph, nodes.push(node))) == match infer_node(here, node, table) {
                None => None,
                Some(Err(error)) => Some(
                    (having(before, nodes.push(node)), Err::<(), ErrorView>(error)),
                ),
                Some(Ok(after)) => Some(
                    (
                        having(recording(before, after.value_info), nodes.push(node)),
                        Ok::<(), ErrorView>(()),
                    ),
                ),
            }
        }),
{
    let with = having(graph, nodes);
    let table = constant_table(graph.initializer);
    law_found_shapes_are_told(with);
    lemma_one_more(initial(with), nodes, node, table);
    assert(initial(having(graph, nodes.push(node))) == initial(with));
}

/// A node of which all outputs are known changes nothing, whatever its operator and its inputs.
pub proof fn law_known_node_is_passed_over(
    graph: GraphView,
    nodes: Seq<NodeView>,
    node: NodeView,
    before: GraphView,
)
    requires
        inferred(having(graph, nodes)) == Some((before, Ok::<(), ErrorView>(()))),
        !shadowed(having(graph, nodes)),
        forall|j: int|
            0 <= j < node.output.len() ==> known_shapes(before).contains_key(
                #[trigger] node.output[j],
            ),
    ensures
        inferred(having(graph, nodes.push(node))) == Some(
            (having(before, nodes.push(node)), Ok::<(), ErrorView>(())),
        ),
{
    lemma_step(graph, nodes, node, before);
    lemma_all_known(known_shapes(before), node.output);
}

/// A node with an unknown output needs the shapes of all its inputs. The first that is not known is
/// named in the error, and what was recorded before stays.
pub proof fn law_first_unknown_input_is_named(
    graph: GraphView,
    nodes: Seq<NodeView>,
    node: NodeView,
    before: GraphView,
    out: int,
    k: int,
)
    requires
        inferred(having(graph, nodes)) == Some((before, Ok::<(), ErrorView>(()))),
        !shadowed(having(graph, nodes)),
        0 <= out < node.output.len(),
        !known_shapes(before).contains_key(node.output[out]),
        0 <= k < node.input.len(),
        !known_shapes(before).contains_key(node.input[k]),
        forall|j: int|
            0 <= j < k ==> known_shapes(before).contains_key(#[trigger] node.input[j]),
    ensures
        inferred(having(graph, nodes.push(node))) == Some(
            (
                having(before, nodes.push(node)),
                Err::<(), ErrorView>(ErrorView::MissingInputShape(node.input[k])),
            ),
        ),
{
    lemma_step(graph, nodes, node, before);
    lemma_all_known(known_shapes(before), node.output);
    lemma_first_unknown(known_shapes(before), node.input, k);
}

/// A node with an unknown output gets, for each of its outputs and in their order, the shape that
/// its rule gives for the known shapes of its inputs; an error of the rule comes back.
pub proof fn law_outputs_follow_from_inputs(
    graph: GraphView,
    nodes: Seq<NodeView>,
    node: NodeView,
    before: GraphView,
    inputs: Seq<ShapeView>,
    out: int,
)
    requires
        inferred(having(graph, nodes)) == Some((before, Ok::<(), ErrorView>(()))),
        !shadowed(having(graph, nodes)),
        0 <= out < node.output.len(),
        !known_shapes(before).contains_key(node.output[out]),
        inputs.len() == node.input.len(),
        forall|j: int|
            0 <= j < node.input.len() ==> known_shapes(before).contains_key(
                #[trigger] node.input[j],
            ) && known_shapes(before)[node.input[j]] == inputs[j],
    ensures
        match forward(node, inputs, constant_table(graph.initializer)) {
            None => inferred(having(graph, nodes.push(node))) is None,
            Some(Err(error)) => inferred(having(graph, nodes.push(node))) == Some(
                (having(before, nodes.push(node)), Err::<(), ErrorView>(error)),
            ),
            Some(Ok(shapes)) => {
                &&& shapes.len() == node.output.len()
                &&& (inferred(having(graph, nodes.push(node))) matches Some((after, Ok(_))) && {
                    &&& after.node == nodes.push(node)
                    &&& after.input == graph.input
                    &&& after.output == graph.output
                    &&& after.initializer == graph.initializer
                    &&& after.value_info.len() == before.value_info.len() + shapes.len()
                    &&& forall|j: int|
                        0 <= j < before.value_info.len() ==> #[trigger] after.value_info[j]
                            == before.value_info[j]
                    &&& forall|j: int|
                        0 <= j < shapes.len() ==> after.value_info[before.value_info.len() + j]
                            == value_with_shape(node.output[j], #[trigger] shapes[j])
                })
            },
        },
{
    let table = constant_table(graph.initializer);
    lemma_step(graph, nodes, node, before);
    lemma_all_known(known_shapes(before), node.output);
    lemma_all_known(known_shapes(before), node.input);
    assert(shapes_of(known_shapes(before), node.input) =~= inputs);
    if let Some(Ok(shapes)) = forward(node, inputs, table) {
        law_each_output_gets_a_shape(node, inputs, table);
        lemma_recorded_values(
            Progress { shapes: known_shapes(before), value_info: before.value_info },
            node.output,
            shapes,
        );
    }
}

/// After an error no further node is looked at.
pub proof fn law_inference_stops_at_an_error(
    graph: GraphView,
    nodes: Seq<NodeView>,
    node: NodeView,
)
    ensures
        match inferred(having(graph, nodes)) {
            None => inferred(having(graph, nodes.push(node))) is None,
            Some((before, Err(error))) => inferred(having(graph, nodes.push(node))) == Some(
                (having(before, nodes.push(node)), Err::<(), ErrorView>(error)),
            ),
            Some((_, Ok(_))) => true,
        },
{
    let with = having(graph, nodes);
    lemma_one_more(initial(with), nodes, node, constant_table(graph.initializer));
    assert(initial(having(graph, nodes.push(node))) == initial(with));
}

} // verus!
