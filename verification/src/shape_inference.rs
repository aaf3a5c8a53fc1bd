//! Shape inference over a whole graph.
pub mod laws;
pub mod meaning;
pub mod replacement;

use vstd::hash_map::StringHashMap;
use vstd::prelude::*;
use crate::constants::{
    constants_replaced, lemma_replaced_in_any_order, native_byte_order, unit, ByteOrder,
};
use crate::error::{ErrorView, ShapeInferenceError};
use crate::forward::common::constants;
use crate::forward::{checked_infer_forward, forward, law_each_output_gets_a_shape};
use crate::onnx::{
    views, GraphProto, GraphView, NodeProto, NodeView, TensorProto, TensorView, ValueInfoProto,
    ValueInfoView,
};
use crate::shape::{
    scalar_type, shape_of, value_with_shape, DataTypeError, ScalarType, Shape, ShapeView,
};

verus! {

/// The view of a table of shapes.
pub open spec fn shape_table(table: Map<Seq<char>, Shape>) -> Map<Seq<char>, ShapeView> {
    table.map_values(|shape: Shape| shape@)
}

/// A table of shapes, with those of the values added, where they are fully known.
pub open spec fn with_values(
    known: Map<Seq<char>, ShapeView>,
    values: Seq<ValueInfoView>,
) -> Map<Seq<char>, ShapeView>
    decreases values.len(),
{
    if values.len() == 0 {
        known
    } else {
        let before = with_values(known, values.drop_last());
        match values.last().shape() {
            Some(shape) => before.insert(values.last().name, shape),
            None => before,
        }
    }
}

/// A table of shapes, with those of the tensors added, where their data types are supported.
pub open spec fn with_tensors(
    known: Map<Seq<char>, ShapeView>,
    tensors: Seq<TensorView>,
) -> Map<Seq<char>, ShapeView>
    decreases tensors.len(),
{
    if tensors.len() == 0 {
        known
    } else {
        let before = with_tensors(known, tensors.drop_last());
        match scalar_type(tensors.last().data_type) {
            Ok(data_type) => before.insert(
                tensors.last().name,
                shape_of(data_type, tensors.last().dims),
            ),
            Err(_) => before,
        }
    }
}

/// The shapes that a graph tells, by name. Where it tells several under one name, an initializer
/// goes before an intermediate value, that before an output, and that before an input; of several
/// of one kind the last counts.
pub open spec fn known_shapes(graph: GraphView) -> Map<Seq<char>, ShapeView> {
    with_tensors(
        with_values(
            with_values(with_values(Map::empty(), graph.input), graph.output),
            graph.value_info,
        ),
        graph.initializer,
    )
}

/// The constants of a graph, by name; of several with one name, the last.
pub open spec fn constant_table(tensors: Seq<TensorView>) -> Map<Seq<char>, TensorView>
    decreases tensors.len(),
{
    if tensors.len() == 0 {
        Map::empty()
    } else {
        constant_table(tensors.drop_last()).insert(tensors.last().name, tensors.last())
    }
}

/// How far inference has come: the shapes that are known, and the values that are recorded.
#[verifier::ext_equal]
pub struct Progress {
    pub shapes: Map<Seq<char>, ShapeView>,
    pub value_info: Seq<ValueInfoView>,
}

/// The shapes of the named values are known and recorded, one by one.
pub open spec fn recorded(
    progress: Progress,
    names: Seq<Seq<char>>,
    shapes: Seq<ShapeView>,
) -> Progress
    decreases names.len(),
{
    if names.len() == 0 {
        progress
    } else {
        let before = recorded(progress, names.drop_last(), shapes);
        let name = names.last();
        let shape = shapes[names.len() - 1];
        Progress {
            shapes: before.shapes.insert(name, shape),
            value_info: before.value_info.push(value_with_shape(name, shape)),
        }
    }
}

/// The first of the names under which no shape is known.
pub open spec fn first_unknown(
    known: Map<Seq<char>, ShapeView>,
    names: Seq<Seq<char>>,
) -> Option<Seq<char>>
    decreases names.len(),
{
    if names.len() == 0 {
        None
    } else if !known.contains_key(names[0]) {
        Some(names[0])
    } else {
        first_unknown(known, names.drop_first())
    }
}

/// The shapes that are known under the names.
pub open spec fn shapes_of(
    known: Map<Seq<char>, ShapeView>,
    names: Seq<Seq<char>>,
) -> Seq<ShapeView> {
    Seq::new(names.len(), |i: int| known[names[i]])
}

/// Inference for one node. Where the shapes of all its outputs are known, nothing changes; else
/// they follow from the shapes of its inputs, all of which have to be known.
pub open spec fn infer_node(
    progress: Progress,
    node: NodeView,
    table: Map<Seq<char>, TensorView>,
) -> Option<Result<Progress, ErrorView>> {
    if first_unknown(progress.shapes, node.output) is None {
        Some(Ok(progress))
    } else {
        match first_unknown(progress.shapes, node.input) {
            Some(name) => Some(Err(ErrorView::MissingInputShape(name))),
            None => match forward(node, shapes_of(progress.shapes, node.input), table) {
                None => None,
                Some(Err(error)) => Some(Err(error)),
                Some(Ok(shapes)) => Some(Ok(recorded(progress, node.output, shapes))),
            },
        }
    }
}

/// Inference for the nodes in their order, up to the first error.
pub open spec fn infer_nodes(
    progress: Progress,
    nodes: Seq<NodeView>,
    table: Map<Seq<char>, TensorView>,
) -> Option<(Progress, Result<(), ErrorView>)>
    decreases nodes.len(),
{
    if nodes.len() == 0 {
        Some((progress, Ok(())))
    } else {
        match infer_node(progress, nodes[0], table) {
            None => None,
            Some(Err(error)) => Some((progress, Err(error))),
            Some(Ok(next)) => infer_nodes(next, nodes.drop_first(), table),
        }
    }
}

/// What is known before the first node.
pub open spec fn initial(graph: GraphView) -> Progress {
    Progress { shapes: known_shapes(graph), value_info: graph.value_info }
}

/// The graph after inference: what was inferred is recorded among its values. `None` where nothing
/// can be said of a node.
pub open spec fn inferred(graph: GraphView) -> Option<(GraphView, Result<(), ErrorView>)> {
    match infer_nodes(initial(graph), graph.node, constant_table(graph.initializer)) {
        Some((progress, result)) => Some(
            (GraphView { value_info: progress.value_info, ..graph }, result),
        ),
        None => None,
    }
}

proof fn lemma_insert_shape(table: Map<Seq<char>, Shape>, name: Seq<char>, shape: Shape)
    ensures
        shape_table(table.insert(name, shape)) == shape_table(table).insert(name, shape@),
{
    assert(shape_table(table.insert(name, shape)) =~= shape_table(table).insert(name, shape@));
}

fn add_values(table: &mut StringHashMap<Shape>, values: &Vec<ValueInfoProto>)
    ensures
        shape_table(final(table)@) == with_values(shape_table(old(table)@), views(values@)),
{
    let ghost given = shape_table(table@);
    let ghost all = views(values@);
    let mut i: usize = 0;
    while i < values.len()
        invariant
            i <= values@.len(),
            all == views(values@),
            shape_table(table@) == with_values(given, all.take(i as int)),
        decreases values@.len() - i,
    {
        proof {
            let next = all.take(i + 1);
            assert(next.drop_last() =~= all.take(i as int));
            assert(next.last() == values@[i as int]@);
        }
        if let Some(shape) = values[i].get_shape() {
            proof {
                lemma_insert_shape(table@, values@[i as int].name@, shape);
            }
            table.insert(values[i].name.clone(), shape);
        }
        i = i + 1;
    }
    assert(all.take(i as int) =~= all);
}

fn add_tensors(table: &mut StringHashMap<Shape>, tensors: &Vec<TensorProto>)
    ensures
        shape_table(final(table)@) == with_tensors(shape_table(old(table)@), views(tensors@)),
{
    let ghost given = shape_table(table@);
    let ghost all = views(tensors@);
    let mut i: usize = 0;
    while i < tensors.len()
        invariant
            i <= tensors@.len(),
            all == views(tensors@),
            shape_table(table@) == with_tensors(given, all.take(i as int)),
        decreases tensors@.len() - i,
    {
        proof {
            let next = all.take(i + 1);
            assert(next.drop_last() =~= all.take(i as int));
            assert(next.last() == tensors@[i as int]@);
        }
        if let Ok(data_type) = ScalarType::from_i32(tensors[i].data_type) {
            let shape = Shape::from(data_type, tensors[i].dims.as_slice());
            proof {
                lemma_insert_shape(table@, tensors@[i as int].name@, shape);
            }
            table.insert(tensors[i].name.clone(), shape);
        }
        i = i + 1;
    }
    assert(all.take(i as int) =~= all);
}

/// Retrieve all fully known value shapes from a graph.
pub fn dimensions_infos(graph_proto: &GraphProto) -> (infos: Result<
    StringHashMap<Shape>,
    DataTypeError,
>)
    ensures
        infos matches Ok(infos) && shape_table(infos@) == known_shapes(graph_proto@),
{
    let mut shapes_info: StringHashMap<Shape> = StringHashMap::new();
    assert(shape_table(shapes_info@) =~= Map::empty());
    add_values(&mut shapes_info, &graph_proto.input);
    add_values(&mut shapes_info, &graph_proto.output);
    add_values(&mut shapes_info, &graph_proto.value_info);
    add_tensors(&mut shapes_info, &graph_proto.initializer);
    Ok(shapes_info)
}

fn index_constants<'a>(tensors: &'a Vec<TensorProto>) -> (table: StringHashMap<&'a TensorProto>)
    ensures
        constants(table@) == constant_table(views(tensors@)),
{
    let mut table: StringHashMap<&'a TensorProto> = StringHashMap::new();
    let ghost all = views(tensors@);
    let mut i: usize = 0;
    assert(constants(table@) =~= Map::empty());
    while i < tensors.len()
        invariant
            i <= tensors@.len(),
            all == views(tensors@),
            constants(table@) == constant_table(all.take(i as int)),
        decreases tensors@.len() - i,
    {
        let ghost before = table@;
        table.insert(tensors[i].name.clone(), &tensors[i]);
        proof {
            let next = all.take(i + 1);
            assert(next.drop_last() =~= all.take(i as int));
            assert(next.last() == tensors@[i as int]@);
            assert(constants(table@) =~= constants(before).insert(
                tensors@[i as int].name@,
                tensors@[i as int]@,
            ));
        }
        i = i + 1;
    }
    assert(all.take(i as int) =~= all);
    table
}

fn find_unknown(table: &StringHashMap<Shape>, names: &Vec<String>) -> (found: Option<String>)
    ensures
        match found {
            Some(name) => first_unknown(shape_table(table@), views(names@)) == Some(name@),
            None => first_unknown(shape_table(table@), views(names@)) is None,
        },
{
    let ghost all = views(names@);
    let mut i: usize = 0;
    assert(all.skip(0) =~= all);
    while i < names.len()
        invariant
            i <= names@.len(),
            all == views(names@),
            first_unknown(shape_table(table@), all) == first_unknown(
                shape_table(table@),
                all.skip(i as int),
            ),
        decreases names@.len() - i,
    {
        assert(all.skip(i as int)[0] == names@[i as int]@);
        if !table.contains_key(names[i].as_str()) {
            return Some(names[i].clone());
        }
        assert(all.skip(i as int).drop_first() =~= all.skip(i + 1));
        i = i + 1;
    }
    None
}

/// Where no name is unknown, each is known.
pub proof fn lemma_all_known(known: Map<Seq<char>, ShapeView>, names: Seq<Seq<char>>)
    ensures
        first_unknown(known, names) is None <==> forall|i: int|
            0 <= i < names.len() ==> known.contains_key(#[trigger] names[i]),
    decreases names.len(),
{
    if names.len() > 0 {
        let rest = names.drop_first();
        lemma_all_known(known, rest);
        if known.contains_key(names[0]) {
            if first_unknown(known, names) is None {
                assert forall|i: int| 0 <= i < names.len() implies known.contains_key(
                    #[trigger] names[i],
                ) by {
                    if i > 0 {
                        assert(rest[i - 1] == names[i]);
                    }
                }
            } else {
                let j = choose|j: int|
                    0 <= j < rest.len() && !known.contains_key(#[trigger] rest[j]);
                assert(names[j + 1] == rest[j]);
            }
        }
    }
}

fn collect_shapes<'a>(table: &'a StringHashMap<Shape>, names: &Vec<String>) -> (shapes: Vec<
    &'a Shape,
>)
    requires
        first_unknown(shape_table(table@), views(names@)) is None,
    ensures
        views(shapes@) == shapes_of(shape_table(table@), views(names@)),
{
    let ghost known = shape_table(table@);
    proof {
        lemma_all_known(known, views(names@));
    }
    let mut shapes: Vec<&'a Shape> = Vec::new();
    let mut i: usize = 0;
    while i < names.len()
        invariant
            i <= names@.len(),
            known == shape_table(table@),
            forall|i: int|
                0 <= i < names@.len() ==> known.contains_key(#[trigger] views(names@)[i]),
            shapes@.len() == i,
            forall|j: int| 0 <= j < i ==> (#[trigger] shapes@[j])@ == known[views(names@)[j]],
        decreases names@.len() - i,
    {
        assert(known.contains_key(views(names@)[i as int]));
        shapes.push(table.get(names[i].as_str()).unwrap());
        i = i + 1;
    }
    assert(views(shapes@) =~= shapes_of(known, views(names@)));
    shapes
}

fn record(
    table: &mut StringHashMap<Shape>,
    value_info: &mut Vec<ValueInfoProto>,
    names: &Vec<String>,
    shapes: &Vec<Shape>,
)
    requires
        names@.len() == shapes@.len(),
    ensures
        (Progress { shapes: shape_table(final(table)@), value_info: views(final(value_info)@) })
            == recorded(
            Progress { shapes: shape_table(old(table)@), value_info: views(old(value_info)@) },
            views(names@),
            views(shapes@),
        ),
        final(value_info)@.len() >= old(value_info)@.len(),
        final(value_info)@.take(old(value_info)@.len() as int) == old(value_info)@,
{
    let ghost given = Progress { shapes: shape_table(table@), value_info: views(value_info@) };
    let ghost first = value_info@;
    let ghost all = views(names@);
    let mut i: usize = 0;
    assert(value_info@.take(first.len() as int) =~= first);
    while i < names.len()
        invariant
            i <= names@.len(),
            all == views(names@),
            names@.len() == shapes@.len(),
            (Progress { shapes: shape_table(table@), value_info: views(value_info@) }) == recorded(
                given,
                all.take(i as int),
                views(shapes@),
            ),
            value_info@.len() >= first.len(),
            value_info@.take(first.len() as int) == first,
        decreases names@.len() - i,
    {
        let ghost before = value_info@;
        proof {
            let next = all.take(i + 1);
            assert(next.drop_last() =~= all.take(i as int));
            assert(next.last() == names@[i as int]@);
            assert(views(shapes@)[i as int] == shapes@[i as int]@);
        }
        let copy = shapes[i].clone();
        proof {
            lemma_insert_shape(table@, names@[i as int]@, copy);
        }
        table.insert(names[i].clone(), copy);
        let info = ValueInfoProto::with_shape(names[i].clone(), &shapes[i]);
        let ghost info_view = info@;
        value_info.push(info);
        proof {
            assert(views(value_info@) =~= views(before).push(info_view));
            assert(value_info@.take(first.len() as int) =~= before.take(first.len() as int));
        }
        i = i + 1;
    }
    assert(all.take(i as int) =~= all);
}

fn infer_one(
    node: &NodeProto,
    table: &mut StringHashMap<Shape>,
    value_info: &mut Vec<ValueInfoProto>,
    initializers: &StringHashMap<&TensorProto>,
) -> (result: Option<Result<(), ShapeInferenceError>>)
    ensures
        final(value_info)@.len() >= old(value_info)@.len(),
        final(value_info)@.take(old(value_info)@.len() as int) == old(value_info)@,
        infer_node(
            Progress { shapes: shape_table(old(table)@), value_info: views(old(value_info)@) },
            node@,
            constants(initializers@),
        ) == (match result {
            Some(Ok(_)) => Some(
                Ok::<Progress, ErrorView>(
                    Progress {
                        shapes: shape_table(final(table)@),
                        value_info: views(final(value_info)@),
                    },
                ),
            ),
            Some(Err(error)) => Some(Err::<Progress, ErrorView>(error@)),
            None => None,
        }),
        !(result matches Some(Ok(_))) ==> final(value_info)@ == old(value_info)@,
{
    assert(value_info@.take(value_info@.len() as int) =~= value_info@);
    if find_unknown(table, &node.output).is_none() {
        return Some(Ok(()));
    }
    if let Some(name) = find_unknown(table, &node.input) {
        return Some(Err(ShapeInferenceError::MissingInputShape(name)));
    }
    let input_shapes = collect_shapes(table, &node.input);
    match checked_infer_forward(node, input_shapes.as_slice(), initializers) {
        None => None,
        Some(Err(error)) => Some(Err(error)),
        Some(Ok(shapes)) => {
            proof {
                law_each_output_gets_a_shape(
                    node@,
                    views(input_shapes@),
                    constants(initializers@),
                );
            }
            record(table, value_info, &node.output, &shapes);
            Some(Ok(()))
        },
    }
}

impl GraphProto {
    /// Infer the shapes of the values that the nodes compute, and record them. Nothing comes back
    /// where nothing can be said of a node; the graph then stays as it is.
    pub fn checked_infer_shapes(&mut self) -> (result: Option<Result<(), ShapeInferenceError>>)
        ensures
            match result {
                Some(result) => inferred(old(self)@) == Some((final(self)@, unit(result))),
                None => inferred(old(self)@) is None && final(self)@ == old(self)@,
            },
    {
        let mut shapes: StringHashMap<Shape> = match dimensions_infos(self) {
            Ok(shapes) => shapes,
            Err(error) => {
                return Some(Err(ShapeInferenceError::UnsupportedDataType(error)));
            },
        };
        let initializers = index_constants(&self.initializer);
        let ghost table = constants(initializers@);
        let ghost nodes = views(self.node@);
        let ghost first = self.value_info@;
        let ghost whole = infer_nodes(initial(self@), nodes, table);
        let recorded_before: usize = self.value_info.len();
        let mut i: usize = 0;
        assert(nodes.skip(0) =~= nodes);
        assert(first.take(recorded_before as int) =~= first);
        while i < self.node.len()
            invariant
                i <= self.node@.len(),
                nodes == views(self.node@),
                table == constants(initializers@),
                first == old(self).value_info@,
                self.node == old(self).node,
                self.initializer == old(self).initializer,
                self.input == old(self).input,
                self.output == old(self).output,
                recorded_before == first.len(),
                self.value_info@.len() >= recorded_before,
                self.value_info@.take(recorded_before as int) == first,
                whole == infer_nodes(
                    initial(old(self)@),
                    old(self)@.node,
                    constant_table(old(self)@.initializer),
                ),
                whole == infer_nodes(
                    Progress { shapes: shape_table(shapes@), value_info: views(self.value_info@) },
                    nodes.skip(i as int),
                    table,
                ),
            decreases self.node@.len() - i,
        {
            let ghost before = self.value_info@;
            assert(nodes.skip(i as int)[0] == self.node@[i as int]@);
            assert(nodes.skip(i as int).drop_first() =~= nodes.skip(i + 1));
            match infer_one(
                &self.node[i],
                &mut shapes,
                &mut self.value_info,
                &initializers,
            ) {
                Some(Ok(_)) => {
                    assert(self.value_info@.take(recorded_before as int) =~= before.take(
                        recorded_before as int,
                    ));
                },
                Some(Err(error)) => {
                    return Some(Err(error));
                },
                None => {
                    self.value_info.truncate(recorded_before);
                    return None;
                },
            }
            i = i + 1;
        }
        assert(nodes.skip(i as int).len() == 0);
        Some(Ok(()))
    }
}

/// What shape inference does with a graph.
pub trait ShapeInference: View + Sized {
    /// The graph after inference, and whether it succeeded.
    spec fn shapes_inferred(graph: Self::V) -> Option<(Self::V, Result<(), ErrorView>)>;

    /// The graph after its `Constant` nodes have given way to initializers, and whether they could.
    spec fn constant_ops_replaced(graph: Self::V, order: ByteOrder) -> Option<
        (Self::V, Result<(), ErrorView>),
    >;

    /// Infer the shapes of the values that the nodes compute, and record them.
    fn infer_shapes(&mut self) -> (result: Result<(), ShapeInferenceError>)
        requires
            Self::shapes_inferred(old(self)@) is Some,
        ensures
            Self::shapes_inferred(old(self)@) == Some((final(self)@, unit(result))),
    ;

    /// Replace the `Constant` nodes by initializers, whose bytes are in the order of this machine.
    fn replace_constant_ops_with_initializers(&mut self) -> (result: Result<
        (),
        ShapeInferenceError,
    >)
        requires
            Self::constant_ops_replaced(old(self)@, ByteOrder::Little) is Some,
        ensures
            exists|order: ByteOrder| #[trigger]
                Self::constant_ops_replaced(old(self)@, order) == Some(
                    (final(self)@, unit(result)),
                ),
    ;
}

impl ShapeInference for GraphProto {
    open spec fn shapes_inferred(graph: GraphView) -> Option<(GraphView, Result<(), ErrorView>)> {
        inferred(graph)
    }

    open spec fn constant_ops_replaced(graph: GraphView, order: ByteOrder) -> Option<
        (GraphView, Result<(), ErrorView>),
    > {
        constants_replaced(graph, order)
    }

    fn infer_shapes(&mut self) -> (result: Result<(), ShapeInferenceError>) {
        self.checked_infer_shapes().unwrap()
    }

    fn replace_constant_ops_with_initializers(&mut self) -> (result: Result<
        (),
        ShapeInferenceError,
    >) {
        let order = native_byte_order();
        proof {
            lemma_replaced_in_any_order(
                self@,
                self@,
                self@.node.len() as int,
                ByteOrder::Little,
                order,
            );
        }
        let result = self.replace_constants(order);
        assert(Self::constant_ops_replaced(old(self)@, order) == Some((self@, unit(result))));
        result
    }
}

} // verus!
