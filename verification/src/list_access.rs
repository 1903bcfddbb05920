use crate::custom_cycles::{
    dependency_graph, graph_edge, graph_well_formed, has_cycle, is_cycle, is_walk,
};
use crate::custom_value::{
    CustomConstructorModel, CustomFieldModel, CustomFieldValueType, CustomFields, CustomModel,
    constructor_fields, constructors_dependencies, field_value, fields_dependencies,
    value_dependencies, values_dependencies,
};
use crate::identifiers::{declared_access_field, declared_access_field_name};
use crate::list_model::lemma_static_values_model;
use crate::list_model::{StaticValue, StaticValueType, static_value_model, static_values_model};
use vstd::prelude::*;
use vstd::set_lib::{lemma_int_range, lemma_len_subset, set_int_range};

verus! {

/// The values of `fields`, in declaration order.
pub open spec fn fields_values(fields: Seq<CustomFieldModel>) -> Seq<StaticValue> {
    fields.map_values(|field: CustomFieldModel| field_value(field))
}

/// The field values of all `constructors`, constructor after constructor.
pub open spec fn constructors_values(constructors: Seq<CustomConstructorModel>) -> Seq<StaticValue>
    decreases constructors.len(),
{
    if constructors.len() == 0 {
        Seq::empty()
    } else {
        constructors_values(constructors.drop_last()) + fields_values(
            constructor_fields(constructors.last()),
        )
    }
}

/// The external and declared values that a list item reaches, in the order
/// a depth-first walk meets them: through tuples, results and options, and
/// through the fields of the custom declarations it names, entering at most
/// `depth` declarations along any branch.
pub open spec fn value_leaves(value: StaticValue, customs: Seq<CustomModel>, depth: nat) -> Seq<
    StaticValue,
>
    decreases depth, value,
{
    match value {
        StaticValue::External { .. } => seq![value],
        StaticValue::Declared(_) => seq![value],
        StaticValue::Scalar(_) => Seq::empty(),
        StaticValue::Tuple(elements) => values_leaves(elements, customs, depth),
        StaticValue::Result(success, failure) => value_leaves(*success, customs, depth)
            + value_leaves(*failure, customs, depth),
        StaticValue::Option(inner) => value_leaves(*inner, customs, depth),
        StaticValue::Custom(index) => if depth == 0 || index >= customs.len() {
            Seq::empty()
        } else {
            values_leaves(
                constructors_values(customs[index as int].constructors@),
                customs,
                (depth - 1) as nat,
            )
        },
    }
}

/// The leaves of `values`, one value after the other.
pub open spec fn values_leaves(values: Seq<StaticValue>, customs: Seq<CustomModel>, depth: nat) -> Seq<
    StaticValue,
>
    decreases depth, values,
{
    if values.len() == 0 {
        Seq::empty()
    } else {
        values_leaves(values.drop_last(), customs, depth) + value_leaves(
            values.last(),
            customs,
            depth,
        )
    }
}

proof fn lemma_values_leaves_append(
    first: Seq<StaticValue>,
    second: Seq<StaticValue>,
    customs: Seq<CustomModel>,
    depth: nat,
)
    ensures
        values_leaves(first + second, customs, depth) == values_leaves(first, customs, depth)
            + values_leaves(second, customs, depth),
    decreases second.len(),
{
    if second.len() == 0 {
        assert(first + second =~= first);
        assert(values_leaves(second, customs, depth) =~= Seq::<StaticValue>::empty());
    } else {
        lemma_values_leaves_append(first, second.drop_last(), customs, depth);
        assert((first + second).drop_last() =~= first + second.drop_last());
        assert((first + second).last() == second.last());
    }
}

proof fn lemma_values_leaves_push(
    values: Seq<StaticValue>,
    value: StaticValue,
    customs: Seq<CustomModel>,
    depth: nat,
)
    ensures
        values_leaves(values.push(value), customs, depth) == values_leaves(values, customs, depth)
            + value_leaves(value, customs, depth),
{
    assert(values.push(value).drop_last() =~= values);
}

proof fn lemma_constructors_values_take(constructors: Seq<CustomConstructorModel>, n: int)
    requires
        0 <= n < constructors.len(),
    ensures
        constructors_values(constructors.take(n + 1)) == constructors_values(constructors.take(n))
            + fields_values(constructor_fields(constructors[n])),
{
    assert(constructors.take(n + 1).drop_last() =~= constructors.take(n));
}

proof fn lemma_fields_values_take(fields: Seq<CustomFieldModel>, n: int)
    requires
        0 <= n < fields.len(),
    ensures
        fields_values(fields.take(n + 1)) == fields_values(fields.take(n)).push(
            field_value(fields[n]),
        ),
{
    assert(fields_values(fields.take(n + 1)) =~= fields_values(fields.take(n)).push(
        field_value(fields[n]),
    ));
}

/// Appends to `leaves` the leaves of `value`, entering at most `depth`
/// custom declarations along any branch.
fn collect_leaves(
    value: &StaticValueType,
    customs: &[CustomModel],
    depth: usize,
    leaves: &mut Vec<StaticValueType>,
)
    ensures
        static_values_model(final(leaves)@) == static_values_model(old(leaves)@) + value_leaves(
            value@,
            customs@,
            depth as nat,
        ),
    decreases depth, value,
{
    let ghost start = static_values_model(leaves@);
    match value {
        StaticValueType::External { .. } | StaticValueType::Declared { .. } => {
            let ghost before = leaves@;
            leaves.push(value.duplicate());
            assert(leaves@.drop_last() =~= before);
            assert(static_values_model(leaves@) =~= start + seq![value@]);
        },
        StaticValueType::Scalar(_) => {
            assert(static_values_model(leaves@) =~= start + Seq::<StaticValue>::empty());
        },
        StaticValueType::Tuple(elements) => {
            let mut i: usize = 0;
            while i < elements.len()
                invariant
                    i <= elements.len(),
                    *value == StaticValueType::Tuple(*elements),
                    static_values_model(leaves@) == start + values_leaves(
                        static_values_model(elements@.take(i as int)),
                        customs@,
                        depth as nat,
                    ),
                decreases elements.len() - i,
            {
                proof {
                    vstd::std_specs::vec::axiom_vec_index_decreases(*elements, i as int);
                    assert(decreases_to!(*value => (*value)->Tuple_0));
                    assert(elements@.take(i + 1).drop_last() =~= elements@.take(i as int));
                    lemma_values_leaves_push(
                        static_values_model(elements@.take(i as int)),
                        static_value_model(elements@[i as int]),
                        customs@,
                        depth as nat,
                    );
                }
                collect_leaves(&elements[i], customs, depth, leaves);
                i = i + 1;
            }
            assert(elements@.take(elements.len() as int) =~= elements@);
        },
        StaticValueType::Result { success, failure } => {
            collect_leaves(success, customs, depth, leaves);
            collect_leaves(failure, customs, depth, leaves);
        },
        StaticValueType::Option { value: inner } => {
            collect_leaves(inner, customs, depth, leaves);
        },
        StaticValueType::Custom { index } => {
            if depth > 0 && *index < customs.len() {
                let constructors = &customs[*index].constructors;
                let ghost next = (depth - 1) as nat;
                let mut i: usize = 0;
                assert(constructors_values(constructors@.take(0)) =~= Seq::<StaticValue>::empty());
                while i < constructors.len()
                    invariant
                        i <= constructors.len(),
                        depth > 0,
                        next == depth - 1,
                        static_values_model(leaves@) == start + values_leaves(
                            constructors_values(constructors@.take(i as int)),
                            customs@,
                            next,
                        ),
                    decreases constructors.len() - i,
                {
                    let ghost done = constructors_values(constructors@.take(i as int));
                    let ghost middle = static_values_model(leaves@);
                    let fields: Option<&Vec<CustomFieldModel>> = match &constructors[i].fields {
                        CustomFields::Unit => None,
                        CustomFields::Unnamed(fields) => Some(fields),
                        CustomFields::Named(fields) => Some(fields),
                    };
                    let ghost current = constructor_fields(constructors@[i as int]);
                    match fields {
                        Some(fields) => {
                            assert(fields@ == current);
                            let mut j: usize = 0;
                            assert(fields_values(fields@.take(0)) =~= Seq::<StaticValue>::empty());
                            while j < fields.len()
                                invariant
                                    j <= fields.len(),
                                    depth > 0,
                                    next == depth - 1,
                                    static_values_model(leaves@) == middle + values_leaves(
                                        fields_values(fields@.take(j as int)),
                                        customs@,
                                        next,
                                    ),
                                decreases fields.len() - j,
                            {
                                proof {
                                    lemma_fields_values_take(fields@, j as int);
                                    lemma_values_leaves_push(
                                        fields_values(fields@.take(j as int)),
                                        field_value(fields@[j as int]),
                                        customs@,
                                        next,
                                    );
                                }
                                match &fields[j].value {
                                    CustomFieldValueType::Value(field) => {
                                        collect_leaves(field, customs, depth - 1, leaves);
                                    },
                                    CustomFieldValueType::List(list) => {
                                        collect_leaves(&list.collection.value, customs, depth - 1, leaves);
                                    },
                                }
                                j = j + 1;
                            }
                            assert(fields@.take(fields.len() as int) =~= fields@);
                        },
                        None => {
                            assert(current =~= Seq::<CustomFieldModel>::empty());
                            assert(fields_values(current) =~= Seq::<StaticValue>::empty());
                            assert(values_leaves(fields_values(current), customs@, next) =~= Seq::<
                                StaticValue,
                            >::empty());
                        },
                    }
                    proof {
                        lemma_constructors_values_take(constructors@, i as int);
                        lemma_values_leaves_append(done, fields_values(current), customs@, next);
                    }
                    i = i + 1;
                }
                assert(constructors@.take(constructors.len() as int) =~= constructors@);
            } else {
                assert(static_values_model(leaves@) =~= start + Seq::<StaticValue>::empty());
            }
        },
    }
}

/// The walk through `value` and the declarations it names comes to an end:
/// every declaration named exists and no declaration reaches itself. A module
/// rejects its custom declarations otherwise before it generates any decoder.
pub open spec fn walk_ends(value: StaticValue, customs: Seq<CustomModel>) -> bool {
    &&& graph_well_formed(dependency_graph(customs))
    &&& !has_cycle(dependency_graph(customs))
    &&& forall|k: int|
        0 <= k < value_dependencies(value).len() ==> #[trigger] value_dependencies(value)[k]
            < customs.len()
}

/// A store field through which a generated list decoder reads an external
/// value: the payload type, its schema, and the store field holding it.
pub struct ListExternalAccess {
    pub payload: String,
    pub schema: String,
    pub field: String,
}

/// A field through which a generated list decoder reads a declared type.
pub struct ListDeclaredAccess {
    pub type_: String,
    pub field: String,
}

pub open spec fn external_access_models(accesses: Seq<ListExternalAccess>) -> Seq<
    (Seq<char>, Seq<char>, Seq<char>),
> {
    accesses.map_values(|access: ListExternalAccess| (access.payload@, access.schema@, access.field@))
}

pub open spec fn declared_access_models(accesses: Seq<ListDeclaredAccess>) -> Seq<
    (Seq<char>, Seq<char>),
> {
    accesses.map_values(|access: ListDeclaredAccess| (access.type_@, access.field@))
}

/// The external accesses of `leaves`: one per schema, in the order of the
/// schema's first occurrence, with that occurrence's payload and store field.
pub open spec fn external_accesses(leaves: Seq<StaticValue>) -> Seq<(Seq<char>, Seq<char>, Seq<char>)>
    decreases leaves.len(),
{
    if leaves.len() == 0 {
        Seq::empty()
    } else {
        let before = external_accesses(leaves.drop_last());
        match leaves.last() {
            StaticValue::External { payload, schema, store_field } => if access_schemas(before).contains(schema) {
                before
            } else {
                before.push((payload, schema, store_field))
            },
            _ => before,
        }
    }
}

/// The declared accesses of `leaves`: one per access field, in the order of
/// the field's first occurrence.
pub open spec fn declared_accesses(leaves: Seq<StaticValue>) -> Seq<(Seq<char>, Seq<char>)>
    decreases leaves.len(),
{
    if leaves.len() == 0 {
        Seq::empty()
    } else {
        let before = declared_accesses(leaves.drop_last());
        match leaves.last() {
            StaticValue::Declared(type_) => {
                let field = declared_access_field_name(type_);
                if access_fields(before).contains(field) {
                    before
                } else {
                    before.push((type_, field))
                }
            },
            _ => before,
        }
    }
}

fn has_schema(accesses: &Vec<ListExternalAccess>, schema: &String) -> (found: bool)
    ensures
        found == access_schemas(external_access_models(accesses@)).contains(schema@),
{
    let ghost schemas = access_schemas(external_access_models(accesses@));
    let mut i: usize = 0;
    while i < accesses.len()
        invariant
            i <= accesses@.len(),
            schemas == access_schemas(external_access_models(accesses@)),
            forall|j: int| 0 <= j < i ==> accesses@[j].schema@ != schema@,
        decreases accesses.len() - i,
    {
        if accesses[i].schema == *schema {
            assert(schemas[i as int] == schema@);
            return true;
        }
        i = i + 1;
    }
    proof {
        if schemas.contains(schema@) {
            let j = choose|j: int| 0 <= j < schemas.len() && schemas[j] == schema@;
            assert(accesses@[j].schema@ == schema@);
        }
    }
    false
}

fn has_field(accesses: &Vec<ListDeclaredAccess>, field: &String) -> (found: bool)
    ensures
        found == access_fields(declared_access_models(accesses@)).contains(field@),
{
    let ghost fields = access_fields(declared_access_models(accesses@));
    let mut i: usize = 0;
    while i < accesses.len()
        invariant
            i <= accesses@.len(),
            fields == access_fields(declared_access_models(accesses@)),
            forall|j: int| 0 <= j < i ==> accesses@[j].field@ != field@,
        decreases accesses.len() - i,
    {
        if accesses[i].field == *field {
            assert(fields[i as int] == field@);
            return true;
        }
        i = i + 1;
    }
    proof {
        if fields.contains(field@) {
            let j = choose|j: int| 0 <= j < fields.len() && fields[j] == field@;
            assert(accesses@[j].field@ == field@);
        }
    }
    false
}

/// The leaves of `value`, entering as many declarations as `customs` holds.
fn all_leaves(value: &StaticValueType, customs: &[CustomModel]) -> (leaves: Vec<StaticValueType>)
    ensures
        static_values_model(leaves@) == value_leaves(value@, customs@, customs@.len()),
{
    let mut leaves: Vec<StaticValueType> = Vec::new();
    assert(static_values_model(leaves@) =~= Seq::<StaticValue>::empty());
    collect_leaves(value, customs, customs.len(), &mut leaves);
    assert(Seq::<StaticValue>::empty() + value_leaves(value@, customs@, customs@.len()) =~= value_leaves(
        value@,
        customs@,
        customs@.len(),
    ));
    leaves
}

/// The store fields that a list decoder for `value` reads external values
/// through: one per schema, in the order a depth-first walk through `value`
/// and the custom declarations it names first meets the schema.
pub fn list_external_accesses(value: &StaticValueType, customs: &[CustomModel]) -> (accesses: Vec<
    ListExternalAccess,
>)
    requires
        walk_ends(value@, customs@),
    ensures
        external_access_models(accesses@) == external_accesses(
            value_leaves(value@, customs@, customs@.len()),
        ),
{
    let leaves = all_leaves(value, customs);
    let ghost all = static_values_model(leaves@);
    proof {
        lemma_static_values_model(leaves@);
    }
    let mut accesses: Vec<ListExternalAccess> = Vec::new();
    let mut i: usize = 0;
    assert(external_access_models(accesses@) =~= external_accesses(all.take(0)));
    while i < leaves.len()
        invariant
            i <= leaves@.len(),
            all == static_values_model(leaves@),
            all.len() == leaves@.len(),
            forall|j: int| 0 <= j < leaves@.len() ==> #[trigger] all[j] == static_value_model(leaves@[j]),
            external_access_models(accesses@) == external_accesses(all.take(i as int)),
        decreases leaves.len() - i,
    {
        proof {
            assert(all.take(i + 1).drop_last() =~= all.take(i as int));
            assert(all.take(i + 1).last() == all[i as int]);
        }
        match &leaves[i] {
            StaticValueType::External { payload, schema, store_field } => {
                if !has_schema(&accesses, schema) {
                    let ghost before = accesses@;
                    accesses.push(
                        ListExternalAccess {
                            payload: payload.clone(),
                            schema: schema.clone(),
                            field: store_field.clone(),
                        },
                    );
                    assert(external_access_models(accesses@) =~= external_access_models(before).push(
                        (payload@, schema@, store_field@),
                    ));
                }
            },
            _ => {},
        }
        i = i + 1;
    }
    assert(all.take(leaves@.len() as int) =~= all);
    accesses
}

/// The fields that a list decoder for `value` reads declared types through:
/// one per access field, in the order a depth-first walk through `value` and
/// the custom declarations it names first meets the field.
pub fn list_declared_accesses(value: &StaticValueType, customs: &[CustomModel]) -> (accesses: Vec<
    ListDeclaredAccess,
>)
    requires
        walk_ends(value@, customs@),
    ensures
        declared_access_models(accesses@) == declared_accesses(
            value_leaves(value@, customs@, customs@.len()),
        ),
{
    let leaves = all_leaves(value, customs);
    let ghost all = static_values_model(leaves@);
    proof {
        lemma_static_values_model(leaves@);
    }
    let mut accesses: Vec<ListDeclaredAccess> = Vec::new();
    let mut i: usize = 0;
    assert(declared_access_models(accesses@) =~= declared_accesses(all.take(0)));
    while i < leaves.len()
        invariant
            i <= leaves@.len(),
            all == static_values_model(leaves@),
            all.len() == leaves@.len(),
            forall|j: int| 0 <= j < leaves@.len() ==> #[trigger] all[j] == static_value_model(leaves@[j]),
            declared_access_models(accesses@) == declared_accesses(all.take(i as int)),
        decreases leaves.len() - i,
    {
        proof {
            assert(all.take(i + 1).drop_last() =~= all.take(i as int));
            assert(all.take(i + 1).last() == all[i as int]);
        }
        match &leaves[i] {
            StaticValueType::Declared { type_ } => {
                let field = declared_access_field(type_.as_str());
                if !has_field(&accesses, &field) {
                    let ghost before = accesses@;
                    accesses.push(ListDeclaredAccess { type_: type_.clone(), field });
                    assert(declared_access_models(accesses@) =~= declared_access_models(before).push(
                        (type_@, declared_access_field_name(type_@)),
                    ));
                }
            },
            _ => {},
        }
        i = i + 1;
    }
    assert(all.take(leaves@.len() as int) =~= all);
    accesses
}

proof fn lemma_values_dependencies_append(first: Seq<StaticValue>, second: Seq<StaticValue>)
    ensures
        values_dependencies(first + second) == values_dependencies(first) + values_dependencies(
            second,
        ),
    decreases second.len(),
{
    if second.len() == 0 {
        assert(first + second =~= first);
        assert(values_dependencies(first) + values_dependencies(second) =~= values_dependencies(
            first,
        ));
    } else {
        lemma_values_dependencies_append(first, second.drop_last());
        assert((first + second).drop_last() =~= first + second.drop_last());
        assert((first + second).last() == second.last());
    }
}

proof fn lemma_fields_values_dependencies(fields: Seq<CustomFieldModel>)
    ensures
        values_dependencies(fields_values(fields)) == fields_dependencies(fields),
    decreases fields.len(),
{
    if fields.len() > 0 {
        lemma_fields_values_dependencies(fields.drop_last());
        assert(fields_values(fields).drop_last() =~= fields_values(fields.drop_last()));
    }
}

/// The custom declarations that the field values of `constructors` name are
/// the dependencies of those constructors.
proof fn lemma_constructors_values_dependencies(constructors: Seq<CustomConstructorModel>)
    ensures
        values_dependencies(constructors_values(constructors)) == constructors_dependencies(
            constructors,
        ),
    decreases constructors.len(),
{
    if constructors.len() > 0 {
        lemma_constructors_values_dependencies(constructors.drop_last());
        lemma_fields_values_dependencies(constructor_fields(constructors.last()));
        lemma_values_dependencies_append(
            constructors_values(constructors.drop_last()),
            fields_values(constructor_fields(constructors.last())),
        );
    }
}

/// A walk through a graph without cycles never meets a declaration twice.
proof fn lemma_acyclic_walk_distinct(graph: Seq<Seq<nat>>, walk: Seq<nat>)
    requires
        is_walk(graph, walk),
        !has_cycle(graph),
    ensures
        walk.no_duplicates(),
{
    assert forall|a: int, b: int|
        0 <= a < walk.len() && 0 <= b < walk.len() && a != b implies walk[a] != walk[b] by {
        if walk[a] == walk[b] {
            let low = if a < b { a } else { b };
            let high = if a < b { b } else { a };
            let cycle = walk.subrange(low, high + 1);
            assert forall|j: int| #![trigger cycle[j]] 0 <= j < cycle.len() - 1 implies graph_edge(
                graph,
                cycle[j],
                cycle[j + 1],
            ) by {
                assert(walk[low + j] == cycle[j]);
                assert(walk[low + j + 1] == cycle[j + 1]);
            }
            assert(is_cycle(graph, cycle));
        }
    }
}

/// Distinct declarations of a graph are at most as many as the graph has.
proof fn lemma_distinct_walk_length(walk: Seq<nat>, size: nat)
    requires
        walk.no_duplicates(),
        forall|j: int| 0 <= j < walk.len() ==> #[trigger] walk[j] < size,
    ensures
        walk.len() <= size,
{
    let positions = walk.map_values(|index: nat| index as int);
    assert forall|a: int, b: int|
        0 <= a < positions.len() && 0 <= b < positions.len() && a != b implies positions[a]
        != positions[b] by {
        assert(walk[a] != walk[b]);
    }
    positions.unique_seq_to_set();
    lemma_int_range(0, size as int);
    assert forall|x: int| positions.to_set().contains(x) implies set_int_range(0, size as int).contains(
        x,
    ) by {
        let j = choose|j: int| 0 <= j < positions.len() && positions[j] == x;
        assert(walk[j] < size);
    }
    lemma_len_subset(positions.to_set(), set_int_range(0, size as int));
}

proof fn lemma_walk_push(graph: Seq<Seq<nat>>, walk: Seq<nat>, index: nat)
    requires
        is_walk(graph, walk),
        walk.len() > 0 ==> graph_edge(graph, walk.last(), index),
    ensures
        is_walk(graph, walk.push(index)),
{
    let next = walk.push(index);
    assert forall|j: int| #![trigger next[j]] 0 <= j < next.len() - 1 implies graph_edge(
        graph,
        next[j],
        next[j + 1],
    ) by {
        if j < walk.len() - 1 {
            assert(walk[j] == next[j]);
            assert(walk[j + 1] == next[j + 1]);
        }
    }
}

/// Every declaration that `dependencies` names exists and, once the walk
/// `path` has entered a declaration, follows from the last one entered.
spec fn reaches_only(dependencies: Seq<nat>, graph: Seq<Seq<nat>>, path: Seq<nat>) -> bool {
    forall|k: int|
        0 <= k < dependencies.len() ==> #[trigger] dependencies[k] < graph.len() && (path.len() > 0
            ==> graph_edge(graph, path.last(), dependencies[k]))
}

/// The declarations entered so far form a walk through a well-formed graph
/// without cycles.
spec fn walk_state(graph: Seq<Seq<nat>>, path: Seq<nat>) -> bool {
    &&& graph_well_formed(graph)
    &&& !has_cycle(graph)
    &&& is_walk(graph, path)
    &&& forall|j: int| 0 <= j < path.len() ==> #[trigger] path[j] < graph.len()
    &&& path.len() <= graph.len()
}

proof fn lemma_reaches_only_split(
    first: Seq<nat>,
    second: Seq<nat>,
    graph: Seq<Seq<nat>>,
    path: Seq<nat>,
)
    requires
        reaches_only(first + second, graph, path),
    ensures
        reaches_only(first, graph, path),
        reaches_only(second, graph, path),
{
    assert forall|k: int| 0 <= k < first.len() implies #[trigger] first[k] < graph.len() && (path.len()
        > 0 ==> graph_edge(graph, path.last(), first[k])) by {
        assert((first + second)[k] == first[k]);
    }
    assert forall|k: int| 0 <= k < second.len() implies #[trigger] second[k] < graph.len() && (
    path.len() > 0 ==> graph_edge(graph, path.last(), second[k])) by {
        assert((first + second)[first.len() + k] == second[k]);
    }
}

/// Once the declarations entered so far form a walk, an allowance that covers
/// the declarations not yet entered gives the same leaves as any larger one.
proof fn lemma_value_leaves_stable(
    value: StaticValue,
    customs: Seq<CustomModel>,
    path: Seq<nat>,
    first: nat,
    second: nat,
)
    requires
        walk_state(dependency_graph(customs), path),
        reaches_only(value_dependencies(value), dependency_graph(customs), path),
        first + path.len() >= customs.len(),
        second + path.len() >= customs.len(),
    ensures
        value_leaves(value, customs, first) == value_leaves(value, customs, second),
    decreases customs.len() - path.len(), value,
{
    let graph = dependency_graph(customs);
    match value {
        StaticValue::Tuple(elements) => {
            lemma_values_leaves_stable(elements, customs, path, first, second);
        },
        StaticValue::Result(success, failure) => {
            lemma_reaches_only_split(
                value_dependencies(*success),
                value_dependencies(*failure),
                graph,
                path,
            );
            lemma_value_leaves_stable(*success, customs, path, first, second);
            lemma_value_leaves_stable(*failure, customs, path, first, second);
        },
        StaticValue::Option(inner) => {
            lemma_value_leaves_stable(*inner, customs, path, first, second);
        },
        StaticValue::Custom(index) => {
            assert(value_dependencies(value)[0] == index);
            let next = path.push(index);
            lemma_walk_push(graph, path, index);
            lemma_acyclic_walk_distinct(graph, next);
            assert forall|j: int| 0 <= j < next.len() implies #[trigger] next[j] < graph.len() by {
                if j < path.len() {
                    assert(next[j] == path[j]);
                }
            }
            lemma_distinct_walk_length(next, graph.len());
            let constructors = customs[index as int].constructors@;
            lemma_constructors_values_dependencies(constructors);
            let dependencies = values_dependencies(constructors_values(constructors));
            assert(dependencies == graph[index as int]);
            assert forall|k: int| 0 <= k < dependencies.len() implies #[trigger] dependencies[k]
                < graph.len() && (next.len() > 0 ==> graph_edge(
                graph,
                next.last(),
                dependencies[k],
            )) by {
                assert(graph[index as int][k] == dependencies[k]);
            }
            lemma_values_leaves_stable(
                constructors_values(constructors),
                customs,
                next,
                (first - 1) as nat,
                (second - 1) as nat,
            );
        },
        _ => {},
    }
}

proof fn lemma_values_leaves_stable(
    values: Seq<StaticValue>,
    customs: Seq<CustomModel>,
    path: Seq<nat>,
    first: nat,
    second: nat,
)
    requires
        walk_state(dependency_graph(customs), path),
        reaches_only(values_dependencies(values), dependency_graph(customs), path),
        first + path.len() >= customs.len(),
        second + path.len() >= customs.len(),
    ensures
        values_leaves(values, customs, first) == values_leaves(values, customs, second),
    decreases customs.len() - path.len(), values,
{
    if values.len() > 0 {
        lemma_reaches_only_split(
            values_dependencies(values.drop_last()),
            value_dependencies(values.last()),
            dependency_graph(customs),
            path,
        );
        lemma_values_leaves_stable(values.drop_last(), customs, path, first, second);
        lemma_value_leaves_stable(values.last(), customs, path, first, second);
    }
}

/// Where every walk through the declarations ends, entering as many
/// declarations as the module holds already reaches every leaf: a larger
/// allowance gives the same leaves.
pub proof fn law_walk_reaches_every_leaf(value: StaticValue, customs: Seq<CustomModel>, depth: nat)
    requires
        walk_ends(value, customs),
        depth >= customs.len(),
    ensures
        value_leaves(value, customs, depth) == value_leaves(value, customs, customs.len()),
{
    let graph = dependency_graph(customs);
    let path = Seq::<nat>::empty();
    assert(walk_state(graph, path));
    lemma_value_leaves_stable(value, customs, path, depth, customs.len());
}

/// The schemas of external accesses, in order.
pub open spec fn access_schemas(accesses: Seq<(Seq<char>, Seq<char>, Seq<char>)>) -> Seq<Seq<char>> {
    accesses.map_values(|access: (Seq<char>, Seq<char>, Seq<char>)| access.1)
}

/// The fields of declared accesses, in order.
pub open spec fn access_fields(accesses: Seq<(Seq<char>, Seq<char>)>) -> Seq<Seq<char>> {
    accesses.map_values(|access: (Seq<char>, Seq<char>)| access.1)
}

/// A list decoder reads each external schema through exactly one store field:
/// no schema has two accesses, and every schema among the leaves has one.
pub proof fn law_external_accesses_one_per_schema(leaves: Seq<StaticValue>)
    ensures
        access_schemas(external_accesses(leaves)).no_duplicates(),
        forall|i: int|
            0 <= i < leaves.len() && (#[trigger] leaves[i] is External) ==> access_schemas(
                external_accesses(leaves),
            ).contains(leaves[i]->schema),
    decreases leaves.len(),
{
    if leaves.len() > 0 {
        let rest = leaves.drop_last();
        law_external_accesses_one_per_schema(rest);
        let before = access_schemas(external_accesses(rest));
        let after = access_schemas(external_accesses(leaves));
        if let StaticValue::External { payload, schema, store_field } = leaves.last() {
            if !before.contains(schema) {
                assert(after =~= before.push(schema));
            }
        }
        assert forall|j: int| 0 <= j < before.len() implies after.contains(#[trigger] before[j]) by {
            assert(after[j] == before[j]);
        }
        assert forall|i: int|
            0 <= i < leaves.len() && (#[trigger] leaves[i] is External) implies after.contains(
            leaves[i]->schema,
        ) by {
            if i < rest.len() {
                assert(rest[i] == leaves[i]);
                let j = choose|j: int| 0 <= j < before.len() && before[j] == leaves[i]->schema;
                assert(after.contains(before[j]));
            } else if !before.contains(leaves[i]->schema) {
                assert(after[before.len() as int] == leaves[i]->schema);
            } else {
                let j = choose|j: int| 0 <= j < before.len() && before[j] == leaves[i]->schema;
                assert(after.contains(before[j]));
            }
        }
    }
}

/// A list decoder reads each declared type through exactly one access field:
/// no field has two accesses, and every declared leaf's field has one.
pub proof fn law_declared_accesses_one_per_field(leaves: Seq<StaticValue>)
    ensures
        access_fields(declared_accesses(leaves)).no_duplicates(),
        forall|i: int|
            0 <= i < leaves.len() && (#[trigger] leaves[i] is Declared) ==> access_fields(
                declared_accesses(leaves),
            ).contains(declared_access_field_name(leaves[i]->Declared_0)),
    decreases leaves.len(),
{
    if leaves.len() > 0 {
        let rest = leaves.drop_last();
        law_declared_accesses_one_per_field(rest);
        let before = access_fields(declared_accesses(rest));
        let after = access_fields(declared_accesses(leaves));
        if let StaticValue::Declared(type_) = leaves.last() {
            if !before.contains(declared_access_field_name(type_)) {
                assert(after =~= before.push(declared_access_field_name(type_)));
            }
        }
        assert forall|j: int| 0 <= j < before.len() implies after.contains(#[trigger] before[j]) by {
            assert(after[j] == before[j]);
        }
        assert forall|i: int|
            0 <= i < leaves.len() && (#[trigger] leaves[i] is Declared) implies after.contains(
            declared_access_field_name(leaves[i]->Declared_0),
        ) by {
            let field = declared_access_field_name(leaves[i]->Declared_0);
            if i < rest.len() {
                assert(rest[i] == leaves[i]);
                let j = choose|j: int| 0 <= j < before.len() && before[j] == field;
                assert(after.contains(before[j]));
            } else if !before.contains(field) {
                assert(after[before.len() as int] == field);
            } else {
                let j = choose|j: int| 0 <= j < before.len() && before[j] == field;
                assert(after.contains(before[j]));
            }
        }
    }
}

} // verus!
