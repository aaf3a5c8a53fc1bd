//! What holds of inference over whole graphs.
use vstd::prelude::*;
use crate::error::ErrorView;
use crate::forward::forward;
use crate::onnx::{GraphView, NodeView, TensorView, ValueInfoView};
use crate::shape::{
    law_recorded_shape_is_read_back, scalar_type, shape_of, value_with_shape, ShapeView,
};
use crate::shape_inference::{
    constant_table, first_unknown, infer_node, infer_nodes, inferred, initial, known_shapes,
    lemma_all_known, recorded, shapes_of, with_tensors, with_values, Progress,
};

verus! {

/// The graph with other recorded values.
pub open spec fn recording(graph: GraphView, value_info: Seq<ValueInfoView>) -> GraphView {
    GraphView { value_info, ..graph }
}

/// Whether a tensor has the given name.
pub open spec fn names_tensor(tensors: Seq<TensorView>, name: Seq<char>) -> bool {
    exists|i: int| 0 <= i < tensors.len() && (#[trigger] tensors[i]).name == name
}

/// Whether the node with the given index names the value as an output.
pub open spec fn gives(nodes: Seq<NodeView>, index: int, name: Seq<char>) -> bool {
    0 <= index < nodes.len() && nodes[index].output.contains(name)
}

/// Whether a node of the graph has an output that is named like one of its initializers.
pub open spec fn shadowed(graph: GraphView) -> bool {
    exists|i: int, name: Seq<char>| #[trigger]
        gives(graph.node, i, name) && names_tensor(graph.initializer, name)
}

proof fn lemma_tensors_after_insert(
    known: Map<Seq<char>, ShapeView>,
    tensors: Seq<TensorView>,
    name: Seq<char>,
    shape: ShapeView,
)
    ensures
        with_tensors(known.insert(name, shape), tensors).dom() == with_tensors(
            known,
            tensors,
        ).dom().insert(name),
        !names_tensor(tensors, name) ==> with_tensors(known.insert(name, shape), tensors)
            == with_tensors(known, tensors).insert(name, shape),
    decreases tensors.len(),
{
    if tensors.len() > 0 {
        let rest = tensors.drop_last();
        let last = tensors.last();
        lemma_tensors_after_insert(known, rest, name, shape);
        if !names_tensor(tensors, name) {
            assert(tensors[tensors.len() - 1].name == last.name);
            assert(!names_tensor(rest, name)) by {
                if names_tensor(rest, name) {
                    let i = choose|i: int|
                        0 <= i < rest.len() && (#[trigger] rest[i]).name == name;
                    assert(tensors[i].name == name);
                }
            }
        }
        let with = with_tensors(known.insert(name, shape), rest);
        let without = with_tensors(known, rest);
        if let Ok(data_type) = scalar_type(last.data_type) {
            let of_last = shape_of(data_type, last.dims);
            assert(with.insert(last.name, of_last).dom() =~= without.insert(
                last.name,
                of_last,
            ).dom().insert(name));
            if !names_tensor(tensors, name) {
                assert(without.insert(name, shape).insert(last.name, of_last) =~= without.insert(
                    last.name,
                    of_last,
                ).insert(name, shape));
            }
        }
    }
}

/// Recording a shape makes it known, unless an initializer has the same name.
proof fn lemma_record_one(
    graph: GraphView,
    value_info: Seq<ValueInfoView>,
    name: Seq<char>,
    shape: ShapeView,
)
    ensures
        known_shapes(recording(graph, value_info.push(value_with_shape(name, shape)))).dom()
            == known_shapes(recording(graph, value_info)).dom().insert(name),
        !names_tensor(graph.initializer, name) ==> known_shapes(
            recording(graph, value_info.push(value_with_shape(name, shape))),
        ) == known_shapes(recording(graph, value_info)).insert(name, shape),
{
    let before = with_values(with_values(Map::empty(), graph.input), graph.output);
    let longer = value_info.push(value_with_shape(name, shape));
    assert(longer.drop_last() =~= value_info);
    law_recorded_shape_is_read_back(name, shape);
    assert(with_values(before, longer) == with_values(before, value_info).insert(name, shape));
    lemma_tensors_after_insert(
        with_values(before, value_info),
        graph.initializer,
        name,
        shape,
    );
}

/// Whether what is known goes by the same names as what the graph tells.
spec fn in_step(graph: GraphView, progress: Progress) -> bool {
    progress.shapes.dom() == known_shapes(recording(graph, progress.value_info)).dom()
}

/// Whether what is known is what the graph tells.
spec fn in_tune(graph: GraphView, progress: Progress) -> bool {
    progress.shapes == known_shapes(recording(graph, progress.value_info))
}

proof fn lemma_recorded(
    graph: GraphView,
    progress: Progress,
    names: Seq<Seq<char>>,
    shapes: Seq<ShapeView>,
)
    requires
        in_step(graph, progress),
    ensures
        in_step(graph, recorded(progress, names, shapes)),
        progress.value_info.is_prefix_of(recorded(progress, names, shapes).value_info),
        progress.shapes.dom().subset_of(recorded(progress, names, shapes).shapes.dom()),
        forall|i: int|
            0 <= i < names.len() ==> recorded(progress, names, shapes).shapes.contains_key(
                #[trigger] names[i],
            ),
        forall|name: Seq<char>|
            !names.contains(name) && #[trigger] progress.shapes.contains_key(name)
                ==> recorded(progress, names, shapes).shapes[name] == progress.shapes[name],
        in_tune(graph, progress) && (forall|i: int|
            0 <= i < names.len() ==> !names_tensor(graph.initializer, #[trigger] names[i]))
            ==> in_tune(graph, recorded(progress, names, shapes)),
    decreases names.len(),
{
    if names.len() > 0 {
        let rest = names.drop_last();
        let name = names.last();
        let shape = shapes[names.len() - 1];
        lemma_recorded(graph, progress, rest, shapes);
        let before = recorded(progress, rest, shapes);
        let after = recorded(progress, names, shapes);
        lemma_record_one(graph, before.value_info, name, shape);
        assert(after.shapes.dom() =~= before.shapes.dom().insert(name));
        assert forall|i: int| 0 <= i < names.len() implies after.shapes.contains_key(
            #[trigger] names[i],
        ) by {
            if i < names.len() - 1 {
                assert(rest[i] == names[i]);
            }
        }
        assert forall|other: Seq<char>|
            !names.contains(other) && #[trigger] progress.shapes.contains_key(
                other,
            ) implies after.shapes[other] == progress.shapes[other] by {
            assert(names[names.len() - 1] == name);
            assert(!rest.contains(other)) by {
                if rest.contains(other) {
                    let i = rest.index_of(other);
                    assert(names[i] == other);
                }
            }
        }
        if in_tune(graph, progress) && (forall|i: int|
            0 <= i < names.len() ==> !names_tensor(graph.initializer, #[trigger] names[i])) {
            assert forall|i: int| 0 <= i < rest.len() implies !names_tensor(
                graph.initializer,
                #[trigger] rest[i],
            ) by {
                assert(names[i] == rest[i]);
            }
            assert(names[names.len() - 1] == name);
        }
    }
}

/// Whether none of the nodes has an output that is named like an initializer.
spec fn clear_of(graph: GraphView, nodes: Seq<NodeView>) -> bool {
    forall|i: int, name: Seq<char>| #[trigger]
        gives(nodes, i, name) ==> !names_tensor(graph.initializer, name)
}

proof fn lemma_inferred_nodes(
    graph: GraphView,
    progress: Progress,
    nodes: Seq<NodeView>,
    table: Map<Seq<char>, TensorView>,
)
    requires
        in_step(graph, progress),
        infer_nodes(progress, nodes, table) is Some,
    ensures
        ({
            let (after, result) = infer_nodes(progress, nodes, table).unwrap();
            &&& in_step(graph, after)
            &&& progress.value_info.is_prefix_of(after.value_info)
            &&& progress.shapes.dom().subset_of(after.shapes.dom())
            &&& result is Ok ==> forall|i: int|
                0 <= i < nodes.len() ==> first_unknown(
                    after.shapes,
                    (#[trigger] nodes[i]).output,
                ) is None
            &&& forall|name: Seq<char>|
                progress.shapes.contains_key(name) && (forall|i: int|
                    !(#[trigger] gives(nodes, i, name))) ==> #[trigger] after.shapes[name]
                    == progress.shapes[name]
            &&& in_tune(graph, progress) && clear_of(graph, nodes) ==> in_tune(graph, after)
        }),
    decreases nodes.len(),
{
    if nodes.len() > 0 {
        let node = nodes[0];
        let rest = nodes.drop_first();
        assert(progress.value_info.is_prefix_of(progress.value_info));
        if let Some(Ok(next)) = infer_node(progress, node, table) {
            let shapes = match forward(node, shapes_of(progress.shapes, node.input), table) {
                Some(Ok(shapes)) => shapes,
                _ => Seq::empty(),
            };
            lemma_recorded(graph, progress, node.output, shapes);
            lemma_all_known(next.shapes, node.output);
            lemma_all_known(progress.shapes, node.output);
            assert(clear_of(graph, nodes) ==> forall|i: int|
                0 <= i < node.output.len() ==> !names_tensor(
                    graph.initializer,
                    #[trigger] node.output[i],
                )) by {
                if clear_of(graph, nodes) {
                    assert forall|i: int| 0 <= i < node.output.len() implies !names_tensor(
                        graph.initializer,
                        #[trigger] node.output[i],
                    ) by {
                        assert(gives(nodes, 0, node.output[i]));
                    }
                }
            }
            assert(in_step(graph, next));
            lemma_inferred_nodes(graph, next, rest, table);
            let (after, result) = infer_nodes(next, rest, table).unwrap();
            assert(progress.value_info.is_prefix_of(after.value_info)) by {
                assert(forall|i: int|
                    0 <= i < progress.value_info.len() ==> #[trigger] progress.value_info[i]
                        == next.value_info[i]);
                assert(forall|i: int|
                    0 <= i < next.value_info.len() ==> #[trigger] next.value_info[i]
                        == after.value_info[i]);
                assert(progress.value_info =~= after.value_info.subrange(
                    0,
                    progress.value_info.len() as int,
                ));
            }
            if result is Ok {
                assert forall|i: int| 0 <= i < nodes.len() implies first_unknown(
                    after.shapes,
                    (#[trigger] nodes[i]).output,
                ) is None by {
                    if i == 0 {
                        lemma_all_known(after.shapes, node.output);
                    } else {
                        assert(rest[i - 1] == nodes[i]);
                    }
                }
            }
            assert forall|name: Seq<char>|
                progress.shapes.contains_key(name) && (forall|i: int|
                    !(#[trigger] gives(nodes, i, name))) implies #[trigger] after.shapes[name]
                == progress.shapes[name] by {
                assert(!gives(nodes, 0, name));
                assert forall|i: int| !(#[trigger] gives(rest, i, name)) by {
                    if gives(rest, i, name) {
                        assert(gives(nodes, i + 1, name));
                    }
                }
                assert(next.shapes[name] == progress.shapes[name]);
            }
            if clear_of(graph, nodes) {
                assert forall|i: int, name: Seq<char>| #[trigger]
                    gives(rest, i, name) implies !names_tensor(graph.initializer, name) by {
                    assert(gives(nodes, i + 1, name));
                }
            }
        }
    }
}

proof fn lemma_inferred(graph: GraphView)
    requires
        inferred(graph) is Some,
    ensures
        in_step(graph, initial(graph)),
        in_tune(graph, initial(graph)),
{
    assert(recording(graph, graph.value_info) == graph);
}

/// Inference adds to the recorded values and changes nothing else: those that were there stay, in
/// their order, before the new ones.
pub proof fn law_only_values_are_added(graph: GraphView)
    requires
        inferred(graph) is Some,
    ensures
        ({
            let after = inferred(graph).unwrap().0;
            &&& after.node == graph.node
            &&& after.initializer == graph.initializer
            &&& after.input == graph.input
            &&& after.output == graph.output
            &&& graph.value_info.is_prefix_of(after.value_info)
        }),
{
    lemma_inferred(graph);
    lemma_inferred_nodes(
        graph,
        initial(graph),
        graph.node,
        constant_table(graph.initializer),
    );
}

/// Where inference succeeds, the shape of every output of every node is known afterwards.
pub proof fn law_all_outputs_are_known(graph: GraphView, index: int, name: Seq<char>)
    requires
        inferred(graph) matches Some((_, Ok(_))),
        gives(graph.node, index, name),
    ensures
        known_shapes(inferred(graph).unwrap().0).contains_key(name),
{
    lemma_inferred(graph);
    lemma_inferred_nodes(
        graph,
        initial(graph),
        graph.node,
        constant_table(graph.initializer),
    );
    let after = infer_nodes(
        initial(graph),
        graph.node,
        constant_table(graph.initializer),
    ).unwrap().0;
    let node = graph.node[index];
    lemma_all_known(after.shapes, node.output);
    let i = node.output.index_of(name);
    assert(after.shapes.contains_key(node.output[i]));
    assert(inferred(graph).unwrap().0 == recording(graph, after.value_info));
}

/// What was known before is known afterwards.
pub proof fn law_what_is_known_stays_known(graph: GraphView, name: Seq<char>)
    requires
        inferred(graph) is Some,
        known_shapes(graph).contains_key(name),
    ensures
        known_shapes(inferred(graph).unwrap().0).contains_key(name),
{
    lemma_inferred(graph);
    lemma_inferred_nodes(
        graph,
        initial(graph),
        graph.node,
        constant_table(graph.initializer),
    );
    let after = infer_nodes(
        initial(graph),
        graph.node,
        constant_table(graph.initializer),
    ).unwrap().0;
    assert(inferred(graph).unwrap().0 == recording(graph, after.value_info));
    assert(after.shapes.dom().contains(name));
}

/// What the graph tells afterwards is exactly what inference found, provided that no node has an
/// output that is named like an initializer.
pub proof fn law_found_shapes_are_told(graph: GraphView)
    requires
        inferred(graph) is Some,
        !shadowed(graph),
    ensures
        known_shapes(inferred(graph).unwrap().0) == infer_nodes(
            initial(graph),
            graph.node,
            constant_table(graph.initializer),
        ).unwrap().0.shapes,
{
    lemma_inferred(graph);
    lemma_inferred_nodes(
        graph,
        initial(graph),
        graph.node,
        constant_table(graph.initializer),
    );
    let after = infer_nodes(
        initial(graph),
        graph.node,
        constant_table(graph.initializer),
    ).unwrap().0;
    assert(inferred(graph).unwrap().0 == recording(graph, after.value_info));
}

/// A shape that is known beforehand, of a value that no node gives, stays as it is.
pub proof fn law_other_shapes_stay(graph: GraphView, name: Seq<char>)
    requires
        inferred(graph) is Some,
        !shadowed(graph),
        known_shapes(graph).contains_key(name),
        forall|i: int| !(#[trigger] gives(graph.node, i, name)),
    ensures
        known_shapes(inferred(graph).unwrap().0)[name] == known_shapes(graph)[name],
{
    law_found_shapes_are_told(graph);
    lemma_inferred(graph);
    lemma_inferred_nodes(
        graph,
        initial(graph),
        graph.node,
        constant_table(graph.initializer),
    );
}

proof fn lemma_nothing_to_infer(
    progress: Progress,
    nodes: Seq<NodeView>,
    table: Map<Seq<char>, TensorView>,
)
    requires
        forall|i: int|
            0 <= i < nodes.len() ==> first_unknown(
                progress.shapes,
                (#[trigger] nodes[i]).output,
            ) is None,
    ensures
        infer_nodes(progress, nodes, table) == Some((progress, Ok::<(), ErrorView>(()))),
    decreases nodes.len(),
{
    if nodes.len() > 0 {
        let rest = nodes.drop_first();
        assert(first_unknown(progress.shapes, nodes[0].output) is None);
        assert forall|i: int| 0 <= i < rest.len() implies first_unknown(
            progress.shapes,
            (#[trigger] rest[i]).output,
        ) is None by {
            assert(nodes[i + 1] == rest[i]);
        }
        lemma_nothing_to_infer(progress, rest, table);
    }
}

/// A graph of which the shapes of all outputs are known stays as it is.
pub proof fn law_known_graph_stays(graph: GraphView)
    requires
        forall|i: int, name: Seq<char>| #[trigger]
            gives(graph.node, i, name) ==> known_shapes(graph).contains_key(name),
    ensures
        inferred(graph) == Some((graph, Ok::<(), ErrorView>(()))),
{
    assert forall|i: int| 0 <= i < graph.node.len() implies first_unknown(
        initial(graph).shapes,
        (#[trigger] graph.node[i]).output,
    ) is None by {
        let output = graph.node[i].output;
        lemma_all_known(known_shapes(graph), output);
        assert forall|j: int| 0 <= j < output.len() implies known_shapes(graph).contains_key(
            #[trigger] output[j],
        ) by {
            assert(gives(graph.node, i, output[j]));
        }
    }
    lemma_nothing_to_infer(initial(graph), graph.node, constant_table(graph.initializer));
}

/// Where inference succeeds, inferring once more changes nothing.
pub proof fn law_inferring_twice_is_inferring_once(graph: GraphView)
    requires
        inferred(graph) matches Some((_, Ok(_))),
    ensures
        inferred(inferred(graph).unwrap().0) == Some(
            (inferred(graph).unwrap().0, Ok::<(), ErrorView>(())),
        ),
{
    let after = inferred(graph).unwrap().0;
    assert forall|i: int, name: Seq<char>| #[trigger]
        gives(after.node, i, name) implies known_shapes(after).contains_key(name) by {
        law_all_outputs_are_known(graph, i, name);
    }
    law_known_graph_stays(after);
}

/// Whether everything that the first table tells, the second tells too.
pub open spec fn within(
    few: Map<Seq<char>, ShapeView>,
    many: Map<Seq<char>, ShapeView>,
) -> bool {
    forall|name: Seq<char>| #[trigger]
        few.contains_key(name) ==> many.contains_key(name) && many[name] == few[name]
}

/// The graph without its recorded shapes.
pub open spec fn stripped(graph: GraphView) -> GraphView {
    recording(graph, Seq::empty())
}

/// Whether a value can be told before the node with the given index is looked at: without any
/// recorded shape, or because an earlier node gives it.
pub open spec fn told_before(graph: GraphView, index: int, name: Seq<char>) -> bool {
    known_shapes(stripped(graph)).contains_key(name) || exists|j: int|
        j < index && #[trigger] gives(graph.node, j, name)
}

/// Whether the outputs of the node have shapes without any being recorded.
pub open spec fn told_anyway(graph: GraphView, index: int) -> bool {
    first_unknown(known_shapes(stripped(graph)), graph.node[index].output) is None
}

/// Whether the recorded shapes of the node's outputs are the ones that its rule gives for the
/// recorded shapes of its inputs.
pub open spec fn well_recorded(graph: GraphView, index: int) -> bool {
    let node = graph.node[index];
    let known = known_shapes(graph);
    &&& forall|j: int|
        0 <= j < node.input.len() ==> told_before(graph, index, #[trigger] node.input[j])
    &&& forall|j: int| 0 <= j < node.output.len() ==> known.contains_key(#[trigger] node.output[j])
    &&& forward(node, shapes_of(known, node.input), constant_table(graph.initializer)) == Some(
        Ok::<Seq<ShapeView>, ErrorView>(shapes_of(known, node.output)),
    )
}

/// Whether a graph records what inference finds: its nodes stand in an order in which each finds
/// its inputs, the shapes of their outputs follow their rules, and only shapes of their outputs
/// are recorded.
pub open spec fn faithful(graph: GraphView) -> bool {
    let known = known_shapes(graph);
    &&& within(known_shapes(stripped(graph)), known)
    &&& forall|i: int|
        0 <= i < graph.node.len() ==> #[trigger] told_anyway(graph, i) || well_recorded(graph, i)
    &&& forall|name: Seq<char>| #[trigger]
        known.contains_key(name) ==> told_before(graph, graph.node.len() as int, name)
}

/// Recording a shape changes what is known under its name only, and there only to that shape.
proof fn lemma_record_within(
    graph: GraphView,
    value_info: Seq<ValueInfoView>,
    name: Seq<char>,
    shape: ShapeView,
    known: Map<Seq<char>, ShapeView>,
)
    requires
        within(known_shapes(recording(graph, value_info)), known),
        known.contains_key(name),
        known[name] == shape,
    ensures
        within(
            known_shapes(recording(graph, value_info.push(value_with_shape(name, shape)))),
            known,
        ),
{
    let before = with_values(with_values(Map::empty(), graph.input), graph.output);
    let longer = value_info.push(value_with_shape(name, shape));
    assert(longer.drop_last() =~= value_info);
    law_recorded_shape_is_read_back(name, shape);
    lemma_tensors_within(
        with_values(before, value_info),
        graph.initializer,
        name,
        shape,
    );
}

proof fn lemma_tensors_within(
    known: Map<Seq<char>, ShapeView>,
    tensors: Seq<TensorView>,
    name: Seq<char>,
    shape: ShapeView,
)
    ensures
        forall|other: Seq<char>| #[trigger]
            with_tensors(known.insert(name, shape), tensors).contains_key(other) ==> {
                ||| other == name && with_tensors(known.insert(name, shape), tensors)[other]
                    == shape
                ||| with_tensors(known, tensors).contains_key(other) && with_tensors(
                    known.insert(name, shape),
                    tensors,
                )[other] == with_tensors(known, tensors)[other]
            },
    decreases tensors.len(),
{
    if tensors.len() > 0 {
        lemma_tensors_within(known, tensors.drop_last(), name, shape);
    }
}

proof fn lemma_recorded_within(
    graph: GraphView,
    progress: Progress,
    names: Seq<Seq<char>>,
    shapes: Seq<ShapeView>,
    known: Map<Seq<char>, ShapeView>,
)
    requires
        within(progress.shapes, known),
        within(known_shapes(recording(graph, progress.value_info)), known),
        shapes.len() >= names.len(),
        forall|i: int|
            0 <= i < names.len() ==> known.contains_key(#[trigger] names[i]) && shapes[i]
                == known[names[i]],
    ensures
        within(recorded(progress, names, shapes).shapes, known),
        within(
            known_shapes(recording(graph, recorded(progress, names, shapes).value_info)),
            known,
        ),
    decreases names.len(),
{
    if names.len() > 0 {
        let rest = names.drop_last();
        assert forall|i: int| 0 <= i < rest.len() implies known.contains_key(#[trigger] rest[i])
            && shapes[i] == known[rest[i]] by {
            assert(rest[i] == names[i]);
        }
        lemma_recorded_within(graph, progress, rest, shapes, known);
        let before = recorded(progress, rest, shapes);
        assert(names[names.len() - 1] == names.last());
        lemma_record_within(
            graph,
            before.value_info,
            names.last(),
            shapes[names.len() - 1],
            known,
        );
    }
}

/// Whether every value that can be told before the node with the given index is known.
spec fn reached(graph: GraphView, index: int, shapes: Map<Seq<char>, ShapeView>) -> bool {
    forall|name: Seq<char>| #[trigger]
        told_before(graph, index, name) ==> shapes.contains_key(name)
}

proof fn lemma_faithful_nodes(graph: GraphView, progress: Progress, index: int)
    requires
        faithful(graph),
        0 <= index <= graph.node.len(),
        in_step(stripped(graph), progress),
        within(progress.shapes, known_shapes(graph)),
        within(
            known_shapes(recording(stripped(graph), progress.value_info)),
            known_shapes(graph),
        ),
        reached(graph, index, progress.shapes),
    ensures
        ({
            let nodes = graph.node.skip(index);
            let table = constant_table(graph.initializer);
            &&& infer_nodes(progress, nodes, table) matches Some((after, Ok(_)))
            &&& known_shapes(recording(stripped(graph), after.value_info)) == known_shapes(graph)
        }),
    decreases graph.node.len() - index,
{
    let bare = stripped(graph);
    let known = known_shapes(graph);
    let table = constant_table(graph.initializer);
    let nodes = graph.node.skip(index);
    if index == graph.node.len() {
        assert(nodes.len() == 0);
        let told = known_shapes(recording(bare, progress.value_info));
        assert forall|name: Seq<char>| #[trigger]
            told.contains_key(name) == known.contains_key(name) by {
            if known.contains_key(name) {
                assert(told_before(graph, index, name));
                assert(progress.shapes.dom().contains(name));
            }
        }
        assert(told =~= known);
    } else {
        let node = nodes[0];
        assert(node == graph.node[index]);
        assert(nodes.drop_first() =~= graph.node.skip(index + 1));
        lemma_all_known(progress.shapes, node.output);
        lemma_all_known(known_shapes(bare), node.output);
        assert(told_anyway(graph, index) || well_recorded(graph, index));
        if first_unknown(progress.shapes, node.output) is None {
            assert forall|name: Seq<char>| #[trigger] told_before(
                graph,
                index + 1,
                name,
            ) implies progress.shapes.contains_key(name) by {
                lemma_told_next(graph, index, name);
            }
            lemma_faithful_nodes(graph, progress, index + 1);
        } else {
            assert(!told_anyway(graph, index)) by {
                if told_anyway(graph, index) {
                    assert forall|j: int| 0 <= j < node.output.len() implies
                        progress.shapes.contains_key(#[trigger] node.output[j]) by {
                        assert(told_before(graph, index, node.output[j]));
                    }
                }
            }
            assert forall|j: int| 0 <= j < node.input.len() implies progress.shapes.contains_key(
                #[trigger] node.input[j],
            ) by {
                assert(told_before(graph, index, node.input[j]));
            }
            lemma_all_known(progress.shapes, node.input);
            assert(shapes_of(progress.shapes, node.input) =~= shapes_of(known, node.input));
            let shapes = shapes_of(known, node.output);
            let next = recorded(progress, node.output, shapes);
            assert(infer_node(progress, node, table) == Some(Ok::<Progress, ErrorView>(next)));
            lemma_recorded(bare, progress, node.output, shapes);
            lemma_recorded_within(bare, progress, node.output, shapes, known);
            assert forall|name: Seq<char>| #[trigger] told_before(
                graph,
                index + 1,
                name,
            ) implies next.shapes.contains_key(name) by {
                lemma_told_next(graph, index, name);
                if told_before(graph, index, name) {
                    assert(progress.shapes.dom().contains(name));
                } else {
                    let j = node.output.index_of(name);
                    assert(next.shapes.contains_key(node.output[j]));
                }
            }
            lemma_faithful_nodes(graph, next, index + 1);
        }
    }
}

/// What can be told one node later could be told before, or that node gives it.
proof fn lemma_told_next(graph: GraphView, index: int, name: Seq<char>)
    requires
        0 <= index < graph.node.len(),
        told_before(graph, index + 1, name),
    ensures
        told_before(graph, index, name) || graph.node[index].output.contains(name),
{
    if !known_shapes(stripped(graph)).contains_key(name) {
        let j = choose|j: int| j < index + 1 && #[trigger] gives(graph.node, j, name);
        assert(gives(graph.node, j, name));
    }
}

/// Where a graph records what inference finds, its recorded shapes can be taken away and inferred
/// again: inference succeeds, and exactly the same shapes are known as before.
pub proof fn law_stripped_shapes_come_back(graph: GraphView)
    requires
        faithful(graph),
    ensures
        inferred(stripped(graph)) matches Some((after, Ok(_))) && known_shapes(after)
            == known_shapes(graph),
{
    let bare = stripped(graph);
    let first = initial(bare);
    assert(recording(bare, first.value_info) == bare);
    assert forall|name: Seq<char>| #[trigger] told_before(
        graph,
        0,
        name,
    ) implies first.shapes.contains_key(name) by {
    }
    lemma_faithful_nodes(graph, first, 0);
    assert(graph.node.skip(0) =~= graph.node);
}

/// Where inference succeeds on a graph that records no shapes, the shapes that it records can be
/// taken away and inferred again: the same graph comes back.
pub proof fn law_inferred_shapes_come_back(graph: GraphView)
    requires
        inferred(graph) matches Some((_, Ok(_))),
        graph.value_info.len() == 0,
    ensures
        inferred(stripped(inferred(graph).unwrap().0)) == inferred(graph),
{
    assert(stripped(inferred(graph).unwrap().0) =~= graph);
}

/// Whether one of the values has the given name and a fully known shape.
pub open spec fn tells(values: Seq<ValueInfoView>, name: Seq<char>) -> bool {
    exists|i: int|
        0 <= i < values.len() && (#[trigger] values[i]).name == name && values[i].shape() is Some
}

/// Whether one of the tensors has the given name and a supported data type.
pub open spec fn holds(tensors: Seq<TensorView>, name: Seq<char>) -> bool {
    exists|i: int|
        0 <= i < tensors.len() && (#[trigger] tensors[i]).name == name && scalar_type(
            tensors[i].data_type,
        ) is Ok
}

proof fn lemma_told_by_values(
    known: Map<Seq<char>, ShapeView>,
    values: Seq<ValueInfoView>,
    name: Seq<char>,
)
    ensures
        with_values(known, values).contains_key(name) <==> known.contains_key(name) || tells(
            values,
            name,
        ),
    decreases values.len(),
{
    if values.len() > 0 {
        let rest = values.drop_last();
        lemma_told_by_values(known, rest, name);
        assert(values[values.len() - 1] == values.last());
        if tells(rest, name) {
            let i = choose|i: int|
                0 <= i < rest.len() && (#[trigger] rest[i]).name == name && rest[i].shape() is Some;
            assert(values[i] == rest[i]);
        }
        if tells(values, name) && !(values.last().name == name && values.last().shape() is Some) {
            let i = choose|i: int|
                0 <= i < values.len() && (#[trigger] values[i]).name == name
                    && values[i].shape() is Some;
            assert(rest[i] == values[i]);
        }
    }
}

proof fn lemma_told_by_tensors(
    known: Map<Seq<char>, ShapeView>,
    tensors: Seq<TensorView>,
    name: Seq<char>,
)
    ensures
        with_tensors(known, tensors).contains_key(name) <==> known.contains_key(name) || holds(
            tensors,
            name,
        ),
    decreases tensors.len(),
{
    if tensors.len() > 0 {
        let rest = tensors.drop_last();
        lemma_told_by_tensors(known, rest, name);
        assert(tensors[tensors.len() - 1] == tensors.last());
        if holds(rest, name) {
            let i = choose|i: int|
                0 <= i < rest.len() && (#[trigger] rest[i]).name == name && scalar_type(
                    rest[i].data_type,
                ) is Ok;
            assert(tensors[i] == rest[i]);
        }
        if holds(tensors, name) && !(tensors.last().name == name && scalar_type(
            tensors.last().data_type,
        ) is Ok) {
            let i = choose|i: int|
                0 <= i < tensors.len() && (#[trigger] tensors[i]).name == name && scalar_type(
                    tensors[i].data_type,
                ) is Ok;
            assert(rest[i] == tensors[i]);
        }
    }
}

/// The shapes that a graph tells are those of exactly the values that are fully known, and of the
/// initializers of supported data types.
pub proof fn law_fully_known_shapes_are_told(graph: GraphView, name: Seq<char>)
    ensures
        known_shapes(graph).contains_key(name) <==> tells(graph.input, name) || tells(
            graph.output,
            name,
        ) || tells(graph.value_info, name) || holds(graph.initializer, name),
{
    let first = with_values(Map::empty(), graph.input);
    let second = with_values(first, graph.output);
    let third = with_values(second, graph.value_info);
    lemma_told_by_values(Map::empty(), graph.input, name);
    lemma_told_by_values(first, graph.output, name);
    lemma_told_by_values(second, graph.value_info, name);
    lemma_told_by_tensors(third, graph.initializer, name);
}

} // verus!
