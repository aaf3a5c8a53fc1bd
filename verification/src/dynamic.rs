//! Values for the dimensions that a graph leaves open.
use vstd::hash_map::StringHashMap;
use vstd::prelude::*;
use vstd::string::StringExecFns;
use crate::onnx::{
    views, Dimension, DimensionValue, DimensionValueView, GraphProto, GraphView, TensorShapeProto,
    TensorTypeView, TypeProto, TypeValue, TypeValueView, TypeView, ValueInfoProto, ValueInfoView,
};
use crate::shape::scalar_type;
use crate::text::{decimal, signed_text, unsigned_text};

verus! {

/// The parameter that stands for a dimension and of which the size is given.
pub open spec fn given_param(dim: Option<DimensionValueView>, sizes: Map<Seq<char>, i64>) -> Option<
    Seq<char>,
> {
    match dim {
        Some(DimensionValueView::Param(param)) => if sizes.contains_key(param) {
            Some(param)
        } else {
            None
        },
        _ => None,
    }
}

/// A dimension, with the size of its parameter where one is given.
pub open spec fn with_size(dim: Option<DimensionValueView>, sizes: Map<Seq<char>, i64>) -> Option<
    DimensionValueView,
> {
    match given_param(dim, sizes) {
        Some(param) => Some(DimensionValueView::Value(sizes[param])),
        None => dim,
    }
}

/// Dimensions, with the sizes of their parameters where they are given.
pub open spec fn with_sizes(
    dims: Seq<Option<DimensionValueView>>,
    sizes: Map<Seq<char>, i64>,
) -> Seq<Option<DimensionValueView>> {
    Seq::new(dims.len(), |i: int| with_size(dims[i], sizes))
}

/// What is said of a parameter that gives way to a size.
pub open spec fn notice(
    index: int,
    param: Seq<char>,
    size: i64,
    name: Seq<char>,
) -> Seq<char> {
    "Setting dimension param "@ + decimal(index) + " ("@ + param + ") to value "@ + decimal(
        size as int,
    ) + " for "@ + name
}

/// What is said of the parameters of a value, in the order of its dimensions.
pub open spec fn dim_notices(
    dims: Seq<Option<DimensionValueView>>,
    sizes: Map<Seq<char>, i64>,
    name: Seq<char>,
) -> Seq<Seq<char>>
    decreases dims.len(),
{
    if dims.len() == 0 {
        Seq::empty()
    } else {
        let before = dim_notices(dims.drop_last(), sizes, name);
        match given_param(dims.last(), sizes) {
            Some(param) => before.push(notice(dims.len() - 1, param, sizes[param], name)),
            None => before,
        }
    }
}

/// The dimensions of a value that is a tensor; none where its shape is not known.
pub open spec fn dims_of(value: ValueInfoView) -> Seq<Option<DimensionValueView>> {
    match value.field_type {
        Some(TypeView { value: Some(TypeValueView::Tensor(tensor)) }) => match tensor.shape {
            Some(dims) => dims,
            None => Seq::empty(),
        },
        _ => Seq::empty(),
    }
}

/// A value, with the sizes of its parameters where they are given. Its type is set afterwards, and,
/// where it is a tensor, its shape.
pub open spec fn value_with_sizes(
    value: ValueInfoView,
    sizes: Map<Seq<char>, i64>,
) -> ValueInfoView {
    ValueInfoView {
        name: value.name,
        field_type: match value.field_type {
            Some(TypeView { value: Some(TypeValueView::Tensor(tensor)) }) => Some(
                TypeView {
                    value: Some(
                        TypeValueView::Tensor(
                            TensorTypeView {
                                elem_type: tensor.elem_type,
                                shape: Some(with_sizes(dims_of(value), sizes)),
                            },
                        ),
                    ),
                },
            ),
            Some(other) => Some(other),
            None => Some(TypeView { value: None }),
        },
    }
}

/// Values, with the sizes of their parameters where they are given.
pub open spec fn values_with_sizes(
    values: Seq<ValueInfoView>,
    sizes: Map<Seq<char>, i64>,
) -> Seq<ValueInfoView> {
    Seq::new(values.len(), |i: int| value_with_sizes(values[i], sizes))
}

/// What is said of the parameters of values, one value after the other.
pub open spec fn notices(values: Seq<ValueInfoView>, sizes: Map<Seq<char>, i64>) -> Seq<Seq<char>>
    decreases values.len(),
{
    if values.len() == 0 {
        Seq::empty()
    } else {
        notices(values.drop_last(), sizes) + dim_notices(
            dims_of(values.last()),
            sizes,
            values.last().name,
        )
    }
}

/// A graph, with the sizes of its parameters where they are given.
pub open spec fn graph_with_sizes(graph: GraphView, sizes: Map<Seq<char>, i64>) -> GraphView {
    GraphView {
        node: graph.node,
        initializer: graph.initializer,
        input: values_with_sizes(graph.input, sizes),
        output: values_with_sizes(graph.output, sizes),
        value_info: values_with_sizes(graph.value_info, sizes),
    }
}

fn apply_to_dims(
    dims: &mut Vec<Dimension>,
    sizes: &StringHashMap<i64>,
    name: &String,
    said: &mut Vec<String>,
)
    ensures
        views(final(dims)@) == with_sizes(views(old(dims)@), sizes@),
        views(final(said)@) == views(old(said)@) + dim_notices(
            views(old(dims)@),
            sizes@,
            name@,
        ),
{
    let ghost given = views(dims@);
    let ghost before = views(said@);
    let mut i: usize = 0;
    assert(before + dim_notices(given.take(0), sizes@, name@) =~= before);
    while i < dims.len()
        invariant
            i <= dims@.len(),
            dims@.len() == given.len(),
            forall|j: int| 0 <= j < i ==> (#[trigger] dims@[j])@ == with_size(given[j], sizes@),
            forall|j: int| i <= j < dims@.len() ==> (#[trigger] dims@[j])@ == given[j],
            views(said@) == before + dim_notices(given.take(i as int), sizes@, name@),
        decreases dims@.len() - i,
    {
        proof {
            let next = given.take(i + 1);
            assert(next.drop_last() =~= given.take(i as int));
            assert(next.last() == given[i as int]);
        }
        assert(dims@[i as int]@ == given[i as int]);
        let mut replaced: Option<i64> = None;
        if let Some(DimensionValue::Param(param)) = &dims[i].value {
            if let Some(size) = sizes.get(param.as_str()) {
                let text = String::from_str("Setting dimension param ").concat(
                    unsigned_text(i as u64).as_str(),
                ).concat(" (").concat(param.as_str()).concat(") to value ").concat(
                    signed_text(*size).as_str(),
                ).concat(" for ").concat(name.as_str());
                let ghost earlier = said@;
                said.push(text);
                replaced = Some(*size);
                proof {
                    assert(views(said@) =~= views(earlier).push(text@));
                    assert(views(said@) =~= before + dim_notices(given.take(i + 1), sizes@, name@));
                }
            }
        }
        if let Some(size) = replaced {
            dims[i] = Dimension { value: Some(DimensionValue::Value(size)) };
        }
        i = i + 1;
    }
    assert(given.take(i as int) =~= given);
    assert(views(dims@) =~= with_sizes(given, sizes@));
}

/// Replaces dimension parameters with the given sizes.
pub fn apply_dynamic_dimensions_value(
    value_info: &mut ValueInfoProto,
    dynamic_dims: &StringHashMap<i64>,
    said: &mut Vec<String>,
)
    ensures
        final(value_info)@ == value_with_sizes(old(value_info)@, dynamic_dims@),
        views(final(said)@) == views(old(said)@) + dim_notices(
            dims_of(old(value_info)@),
            dynamic_dims@,
            old(value_info)@.name,
        ),
{
    let name = value_info.name.clone();
    if value_info.field_type.is_none() {
        value_info.field_type = Some(TypeProto { value: None });
    }
    if let Some(field_type) = &mut value_info.field_type {
        if let Some(TypeValue::Tensor(tensor)) = &mut field_type.value {
            if tensor.shape.is_none() {
                tensor.shape = Some(TensorShapeProto { dim: Vec::new() });
            }
            if let Some(shape) = &mut tensor.shape {
                apply_to_dims(&mut shape.dim, dynamic_dims, &name, said);
            }
        }
    }
}

fn apply_to_values(
    values: &mut Vec<ValueInfoProto>,
    sizes: &StringHashMap<i64>,
    said: &mut Vec<String>,
)
    ensures
        views(final(values)@) == values_with_sizes(views(old(values)@), sizes@),
        views(final(said)@) == views(old(said)@) + notices(views(old(values)@), sizes@),
{
    let ghost given = views(values@);
    let ghost before = views(said@);
    let mut i: usize = 0;
    assert(before + notices(given.take(0), sizes@) =~= before);
    while i < values.len()
        invariant
            i <= values@.len(),
            values@.len() == given.len(),
            forall|j: int|
                0 <= j < i ==> (#[trigger] values@[j])@ == value_with_sizes(given[j], sizes@),
            forall|j: int| i <= j < values@.len() ==> (#[trigger] values@[j])@ == given[j],
            views(said@) == before + notices(given.take(i as int), sizes@),
        decreases values@.len() - i,
    {
        proof {
            let next = given.take(i + 1);
            assert(next.drop_last() =~= given.take(i as int));
            assert(next.last() == given[i as int]);
        }
        apply_dynamic_dimensions_value(&mut values[i], sizes, said);
        assert(views(said@) =~= before + notices(given.take(i + 1), sizes@));
        i = i + 1;
    }
    assert(given.take(i as int) =~= given);
    assert(views(values@) =~= values_with_sizes(given, sizes@));
}

/// Replaces the dimension parameters of the graph's values with the given sizes. What comes back
/// says, one line for each, which parameters gave way.
pub fn apply_dynamic_dimensions(graph: &mut GraphProto, dynamic_dims: &StringHashMap<i64>) -> (said:
    Vec<String>)
    ensures
        final(graph)@ == graph_with_sizes(old(graph)@, dynamic_dims@),
        views(said@) == notices(old(graph)@.value_info, dynamic_dims@) + notices(
            old(graph)@.input,
            dynamic_dims@,
        ) + notices(old(graph)@.output, dynamic_dims@),
{
    let mut said: Vec<String> = Vec::new();
    assert(views(said@) =~= Seq::empty());
    apply_to_values(&mut graph.value_info, dynamic_dims, &mut said);
    apply_to_values(&mut graph.input, dynamic_dims, &mut said);
    apply_to_values(&mut graph.output, dynamic_dims, &mut said);
    assert(views(said@) =~= notices(old(graph)@.value_info, dynamic_dims@) + notices(
        old(graph)@.input,
        dynamic_dims@,
    ) + notices(old(graph)@.output, dynamic_dims@));
    said
}

/// Whether a parameter stands for a dimension of one of the values.
pub open spec fn left_open(values: Seq<ValueInfoView>, param: Seq<char>) -> bool {
    exists|i: int, j: int|
        #![trigger dims_of(values[i])[j]]
        0 <= i < values.len() && 0 <= j < dims_of(values[i]).len() && dims_of(values[i])[j] == Some(
            DimensionValueView::Param(param),
        )
}

/// Afterwards no parameter of which the size is given stands for a dimension.
pub proof fn law_given_parameters_go(
    graph: GraphView,
    sizes: Map<Seq<char>, i64>,
    param: Seq<char>,
)
    requires
        sizes.contains_key(param),
    ensures
        !left_open(graph_with_sizes(graph, sizes).input, param),
        !left_open(graph_with_sizes(graph, sizes).output, param),
        !left_open(graph_with_sizes(graph, sizes).value_info, param),
{
    lemma_given_parameters_go(graph.input, sizes, param);
    lemma_given_parameters_go(graph.output, sizes, param);
    lemma_given_parameters_go(graph.value_info, sizes, param);
}

proof fn lemma_given_parameters_go(
    values: Seq<ValueInfoView>,
    sizes: Map<Seq<char>, i64>,
    param: Seq<char>,
)
    requires
        sizes.contains_key(param),
    ensures
        !left_open(values_with_sizes(values, sizes), param),
{
    let after = values_with_sizes(values, sizes);
    assert forall|i: int, j: int|
        #![trigger dims_of(after[i])[j]]
        0 <= i < after.len() && 0 <= j < dims_of(after[i]).len() implies dims_of(after[i])[j]
        != Some(DimensionValueView::Param(param)) by {
        assert(dims_of(after[i]) == with_sizes(dims_of(values[i]), sizes));
    }
}

/// A dimension with a size keeps it, and one with a parameter of which no size is given keeps its
/// parameter.
pub proof fn law_other_dimensions_stay(
    dim: Option<DimensionValueView>,
    sizes: Map<Seq<char>, i64>,
)
    requires
        dim matches Some(DimensionValueView::Param(param)) ==> !sizes.contains_key(param),
    ensures
        with_size(dim, sizes) == dim,
{
}

/// Giving the same sizes a second time changes nothing.
pub proof fn law_applying_twice_is_applying_once(graph: GraphView, sizes: Map<Seq<char>, i64>)
    ensures
        graph_with_sizes(graph_with_sizes(graph, sizes), sizes) == graph_with_sizes(graph, sizes),
{
    lemma_applying_twice(graph.input, sizes);
    lemma_applying_twice(graph.output, sizes);
    lemma_applying_twice(graph.value_info, sizes);
}

proof fn lemma_applying_twice(values: Seq<ValueInfoView>, sizes: Map<Seq<char>, i64>)
    ensures
        values_with_sizes(values_with_sizes(values, sizes), sizes) == values_with_sizes(
            values,
            sizes,
        ),
{
    let once = values_with_sizes(values, sizes);
    assert forall|i: int| 0 <= i < values.len() implies value_with_sizes(
        #[trigger] once[i],
        sizes,
    ) == once[i] by {
        assert(with_sizes(with_sizes(dims_of(values[i]), sizes), sizes) =~= with_sizes(
            dims_of(values[i]),
            sizes,
        ));
    }
    assert(values_with_sizes(once, sizes) =~= once);
}

/// Where every parameter of a tensor's dimensions is given a size, its shape is fully known
/// afterwards.
pub proof fn law_all_sizes_make_a_shape(
    value: ValueInfoView,
    sizes: Map<Seq<char>, i64>,
    tensor: TensorTypeView,
)
    requires
        value.field_type == Some(TypeView { value: Some(TypeValueView::Tensor(tensor)) }),
        scalar_type(tensor.elem_type) is Ok,
        forall|j: int| 0 <= j < dims_of(value).len() ==> #[trigger] dims_of(value)[j] is Some,
        forall|param: Seq<char>| #[trigger]
            left_open(seq![value], param) ==> sizes.contains_key(param),
    ensures
        value_with_sizes(value, sizes).shape() is Some,
        value_with_sizes(value, sizes).shape().unwrap().dims.len() == dims_of(value).len(),
{
    let dims = dims_of(value);
    let after = with_sizes(dims, sizes);
    assert forall|j: int| 0 <= j < after.len() implies #[trigger] after[j] matches Some(
        DimensionValueView::Value(_),
    ) by {
        assert(dims[j] is Some);
        if let Some(DimensionValueView::Param(param)) = dims[j] {
            assert(seq![value][0] == value);
            assert(dims_of(seq![value][0])[j] == dims[j]);
            assert(left_open(seq![value], param));
        }
    }
}

/// A value keeps its name and its element type. Of its dimensions, those with a parameter of which
/// the size is given get it, and the others stay. A value without a type gets an empty one, and a
/// tensor without dimensions gets none.
pub proof fn law_sizes_go_to_their_parameters(value: ValueInfoView, sizes: Map<Seq<char>, i64>)
    ensures
        ({
            let after = value_with_sizes(value, sizes);
            &&& after.name == value.name
            &&& match value.field_type {
                None => after.field_type == Some(TypeView { value: None }),
                Some(TypeView { value: Some(TypeValueView::Tensor(tensor)) }) => after.field_type
                    matches Some(TypeView { value: Some(TypeValueView::Tensor(other)) }) && {
                    &&& other.elem_type == tensor.elem_type
                    &&& other.shape matches Some(dims) && match tensor.shape {
                        None => dims.len() == 0,
                        Some(given) => {
                            &&& dims.len() == given.len()
                            &&& forall|i: int|
                                0 <= i < given.len() ==> match #[trigger] given[i] {
                                    Some(DimensionValueView::Param(param)) => dims[i] == (
                                    if sizes.contains_key(param) {
                                        Some(DimensionValueView::Value(sizes[param]))
                                    } else {
                                        given[i]
                                    }),
                                    _ => dims[i] == given[i],
                                }
                        },
                    }
                },
                Some(other) => after.field_type == Some(other),
            }
        }),
{
}

/// Nodes and initializers stay as they are, and each value of the graph is treated by itself.
pub proof fn law_each_value_by_itself(graph: GraphView, sizes: Map<Seq<char>, i64>, i: int)
    ensures
        ({
            let after = graph_with_sizes(graph, sizes);
            &&& after.node == graph.node
            &&& after.initializer == graph.initializer
            &&& after.input.len() == graph.input.len()
            &&& after.output.len() == graph.output.len()
            &&& after.value_info.len() == graph.value_info.len()
            &&& 0 <= i < graph.input.len() ==> after.input[i] == value_with_sizes(
                graph.input[i],
                sizes,
            )
            &&& 0 <= i < graph.output.len() ==> after.output[i] == value_with_sizes(
                graph.output[i],
                sizes,
            )
            &&& 0 <= i < graph.value_info.len() ==> after.value_info[i] == value_with_sizes(
                graph.value_info[i],
                sizes,
            )
        }),
{
}

/// What is said of one dimension where a size goes to its parameter.
pub open spec fn line(
    dims: Seq<Option<DimensionValueView>>,
    sizes: Map<Seq<char>, i64>,
    name: Seq<char>,
    i: int,
) -> Seq<char> {
    let param = dims[i].unwrap()->Param_0;
    "Setting dimension param "@ + decimal(i) + " ("@ + param + ") to value "@ + decimal(
        sizes[param] as int,
    ) + " for "@ + name
}

/// There is a line for each dimension with a parameter of which the size is given, in their order,
/// and no other.
pub proof fn law_each_size_is_announced(
    dims: Seq<Option<DimensionValueView>>,
    sizes: Map<Seq<char>, i64>,
    name: Seq<char>,
)
    ensures
        dim_notices(dims, sizes, name) == Seq::new(dims.len(), |i: int| i).filter(
            |i: int|
                dims[i] matches Some(DimensionValueView::Param(param)) && sizes.contains_key(param),
        ).map_values(|i: int| line(dims, sizes, name, i)),
    decreases dims.len(),
{
    let goes = |i: int|
        dims[i] matches Some(DimensionValueView::Param(param)) && sizes.contains_key(param);
    let all = Seq::new(dims.len(), |i: int| i);
    reveal(Seq::filter);
    if dims.len() == 0 {
        assert(dim_notices(dims, sizes, name) =~= all.filter(goes).map_values(
            |i: int| line(dims, sizes, name, i),
        ));
    } else {
        let fewer = dims.drop_last();
        let goes_fewer = |i: int|
            fewer[i] matches Some(DimensionValueView::Param(param)) && sizes.contains_key(param);
        law_each_size_is_announced(fewer, sizes, name);
        let first = Seq::new(fewer.len(), |i: int| i);
        assert(all.drop_last() =~= first);
        lemma_same_filter(fewer, dims, sizes, fewer.len());
        assert(first.filter(goes) == first.filter(goes_fewer));
        let places = first.filter(goes);
        assert forall|k: int| 0 <= k < places.len() implies 0 <= #[trigger] places[k]
            < fewer.len() by {
            first.lemma_filter_contains_rev(goes, places[k]);
        }
        assert(places.map_values(|i: int| line(fewer, sizes, name, i)) =~= places.map_values(
            |i: int| line(dims, sizes, name, i),
        ));
        assert(dims[dims.len() - 1] == dims.last());
        assert(dim_notices(dims, sizes, name) =~= all.filter(goes).map_values(
            |i: int| line(dims, sizes, name, i),
        ));
    }
}

proof fn lemma_same_filter(
    fewer: Seq<Option<DimensionValueView>>,
    dims: Seq<Option<DimensionValueView>>,
    sizes: Map<Seq<char>, i64>,
    count: nat,
)
    requires
        count <= fewer.len() <= dims.len(),
        forall|i: int| 0 <= i < fewer.len() ==> #[trigger] fewer[i] == dims[i],
    ensures
        Seq::new(count, |i: int| i).filter(
            |i: int|
                dims[i] matches Some(DimensionValueView::Param(param)) && sizes.contains_key(param),
        ) == Seq::new(count, |i: int| i).filter(
            |i: int|
                fewer[i] matches Some(DimensionValueView::Param(param)) && sizes.contains_key(param),
        ),
    decreases count,
{
    reveal(Seq::filter);
    let all = Seq::new(count, |i: int| i);
    if count > 0 {
        lemma_same_filter(fewer, dims, sizes, (count - 1) as nat);
        assert(all.drop_last() =~= Seq::new((count - 1) as nat, |i: int| i));
        assert(fewer[count - 1] == dims[count - 1]);
    }
}

/// What is said of several values is what is said of each, one after the other.
pub proof fn law_values_are_announced_in_turn(
    values: Seq<ValueInfoView>,
    value: ValueInfoView,
    sizes: Map<Seq<char>, i64>,
)
    ensures
        notices(Seq::empty(), sizes).len() == 0,
        notices(values.push(value), sizes) == notices(values, sizes) + dim_notices(
            dims_of(value),
            sizes,
            value.name,
        ),
        match value.field_type {
            Some(TypeView { value: Some(TypeValueView::Tensor(tensor)) }) => match tensor.shape {
                Some(dims) => dims_of(value) == dims,
                None => dims_of(value).len() == 0,
            },
            _ => dims_of(value).len() == 0,
        },
{
    assert(values.push(value).drop_last() =~= values);
}

} // verus!
