use crate::list_model::{
    CollectionType, ListDecoderModel, StaticValue, StaticValueType, register_list_decoder,
    registration, registry_well_formed, law_registration_keeps_registry_well_formed,
    law_registration_returns_the_decoder_of_the_key, static_value_model, static_values_model,
    value_key, registry_model, registered_all, lemma_registration_model,
};
use vstd::prelude::*;

verus! {

/// A List field: its collection and the decoder registered for its items.
pub struct ListType {
    pub collection: CollectionType,
    pub decoder: String,
}

/// The classified value of one custom constructor field.
pub enum CustomFieldValueType {
    Value(Box<StaticValueType>),
    List(Box<ListType>),
}

pub struct CustomFieldModel {
    pub ident: Option<String>,
    pub definition: String,
    pub value: CustomFieldValueType,
}

pub enum CustomFields {
    Unit,
    Unnamed(Vec<CustomFieldModel>),
    Named(Vec<CustomFieldModel>),
}

pub struct CustomConstructorModel {
    pub ident: String,
    pub definition: String,
    pub marker: String,
    pub fields: CustomFields,
}

/// A `#[geam::custom]` enum as the module classified it. The visibility is
/// held as its token text.
pub struct CustomModel {
    pub ident: String,
    pub input: Option<String>,
    pub visibility: String,
    pub schema: String,
    pub decoder: String,
    pub constructors: Vec<CustomConstructorModel>,
}

/// The custom declarations that a value refers to, in field order.
pub open spec fn value_dependencies(value: StaticValue) -> Seq<nat>
    decreases value,
{
    match value {
        StaticValue::Custom(index) => seq![index],
        StaticValue::Tuple(elements) => values_dependencies(elements),
        StaticValue::Result(success, failure) => value_dependencies(*success) + value_dependencies(
            *failure,
        ),
        StaticValue::Option(value) => value_dependencies(*value),
        _ => Seq::empty(),
    }
}

pub open spec fn values_dependencies(values: Seq<StaticValue>) -> Seq<nat>
    decreases values,
{
    if values.len() == 0 {
        Seq::empty()
    } else {
        values_dependencies(values.drop_last()) + value_dependencies(values.last())
    }
}

pub open spec fn field_value(field: CustomFieldModel) -> StaticValue {
    match field.value {
        CustomFieldValueType::Value(value) => static_value_model(*value),
        CustomFieldValueType::List(list) => static_value_model(list.collection.value),
    }
}

pub open spec fn fields_dependencies(fields: Seq<CustomFieldModel>) -> Seq<nat>
    decreases fields.len(),
{
    if fields.len() == 0 {
        Seq::empty()
    } else {
        fields_dependencies(fields.drop_last()) + value_dependencies(field_value(fields.last()))
    }
}

pub open spec fn constructor_fields(constructor: CustomConstructorModel) -> Seq<CustomFieldModel> {
    match constructor.fields {
        CustomFields::Unit => Seq::empty(),
        CustomFields::Unnamed(fields) => fields@,
        CustomFields::Named(fields) => fields@,
    }
}

pub open spec fn constructors_dependencies(constructors: Seq<CustomConstructorModel>) -> Seq<nat>
    decreases constructors.len(),
{
    if constructors.len() == 0 {
        Seq::empty()
    } else {
        constructors_dependencies(constructors.drop_last()) + fields_dependencies(
            constructor_fields(constructors.last()),
        )
    }
}

/// The custom declarations that `custom`'s constructor fields refer to, in
/// declaration order, with repetitions.
pub open spec fn dependencies_of(custom: CustomModel) -> Seq<nat> {
    constructors_dependencies(custom.constructors@)
}

pub open spec fn as_nats(indices: Seq<usize>) -> Seq<nat> {
    indices.map_values(|index: usize| index as nat)
}

proof fn lemma_as_nats_push(indices: Seq<usize>, index: usize)
    ensures
        as_nats(indices.push(index)) == as_nats(indices).push(index as nat),
{
    assert(as_nats(indices.push(index)) =~= as_nats(indices).push(index as nat));
}

fn collect(value: &StaticValueType, output: &mut Vec<usize>)
    ensures
        as_nats(final(output)@) == as_nats(old(output)@) + value_dependencies(value@),
    decreases value,
{
    match value {
        StaticValueType::Custom { index } => {
            let ghost before = output@;
            output.push(*index);
            proof {
                lemma_as_nats_push(before, *index);
            }
        },
        StaticValueType::Tuple(elements) => {
            let ghost start = as_nats(output@);
            let mut i: usize = 0;
            while i < elements.len()
                invariant
                    i <= elements.len(),
                    *value == StaticValueType::Tuple(*elements),
                    as_nats(output@) == start + values_dependencies(
                        static_values_model(elements@.take(i as int)),
                    ),
                decreases elements.len() - i,
            {
                proof {
                    vstd::std_specs::vec::axiom_vec_index_decreases(*elements, i as int);
                    assert(decreases_to!(*value => (*value)->Tuple_0));
                    assert(elements@.take(i + 1).drop_last() =~= elements@.take(i as int));
                    let after = static_values_model(elements@.take(i + 1));
                    assert(after.drop_last() =~= static_values_model(elements@.take(i as int)));
                }
                collect(&elements[i], output);
                proof {
                    assert(values_dependencies(static_values_model(elements@.take(i + 1)))
                        == values_dependencies(static_values_model(elements@.take(i as int)))
                        + value_dependencies(static_value_model(elements@[i as int])));
                }
                i = i + 1;
            }
            assert(elements@.take(elements.len() as int) =~= elements@);
        },
        StaticValueType::Result { success, failure } => {
            collect(success, output);
            collect(failure, output);
            assert(value_dependencies(value@) == value_dependencies(success@)
                + value_dependencies(failure@));
        },
        StaticValueType::Option { value: inner } => {
            collect(inner, output);
        },
        _ => {
            assert(value_dependencies(value@) =~= Seq::<nat>::empty());
        },
    }
}


fn collect_fields(fields: &Vec<CustomFieldModel>, output: &mut Vec<usize>)
    ensures
        as_nats(final(output)@) == as_nats(old(output)@) + fields_dependencies(fields@),
{
    let ghost start = as_nats(output@);
    let mut i: usize = 0;
    while i < fields.len()
        invariant
            i <= fields.len(),
            as_nats(output@) == start + fields_dependencies(fields@.take(i as int)),
        decreases fields.len() - i,
    {
        proof {
            assert(fields@.take(i + 1).drop_last() =~= fields@.take(i as int));
        }
        match &fields[i].value {
            CustomFieldValueType::Value(value) => collect(value, output),
            CustomFieldValueType::List(list) => collect(&list.collection.value, output),
        }
        i = i + 1;
    }
    assert(fields@.take(fields.len() as int) =~= fields@);
}

/// The custom declarations that `custom`'s fields refer to, in declaration
/// order.
pub fn custom_dependencies(custom: &CustomModel) -> (dependencies: Vec<usize>)
    ensures
        as_nats(dependencies@) == dependencies_of(*custom),
{
    let mut output: Vec<usize> = Vec::new();
    assert(as_nats(output@) =~= Seq::<nat>::empty());
    let constructors = &custom.constructors;
    let mut i: usize = 0;
    while i < constructors.len()
        invariant
            i <= constructors.len(),
            as_nats(output@) == constructors_dependencies(constructors@.take(i as int)),
        decreases constructors.len() - i,
    {
        proof {
            assert(constructors@.take(i + 1).drop_last() =~= constructors@.take(i as int));
        }
        match &constructors[i].fields {
            CustomFields::Unit => {
                assert(fields_dependencies(constructor_fields(constructors@[i as int])) =~= Seq::<
                    nat,
                >::empty());
            },
            CustomFields::Unnamed(fields) => collect_fields(fields, &mut output),
            CustomFields::Named(fields) => collect_fields(fields, &mut output),
        }
        i = i + 1;
    }
    assert(constructors@.take(constructors.len() as int) =~= constructors@);
    output
}


/// Which declarations have a generated input type, in order.
pub open spec fn has_inputs(customs: Seq<CustomModel>) -> Seq<bool> {
    customs.map_values(|custom: CustomModel| custom.input is Some)
}

/// The item shapes whose decoders the generated input types need: the
/// `i`-th declaration's shape for each `i` that has one, in order.
pub open spec fn input_decoder_values(has_input: Seq<bool>) -> Seq<StaticValue>
    decreases has_input.len(),
{
    if has_input.len() == 0 {
        Seq::empty()
    } else {
        let earlier = input_decoder_values(has_input.drop_last());
        if has_input.last() {
            earlier.push(StaticValue::Custom((has_input.len() - 1) as nat))
        } else {
            earlier
        }
    }
}

/// Registers a list decoder for every custom declaration that has a generated
/// input type, and returns each declaration's decoder.
pub fn register_custom_list_decoders(customs: &[CustomModel], decoders: &mut Vec<ListDecoderModel>) -> (registered:
    Vec<Option<String>>)
    requires
        registry_well_formed(old(decoders)@),
    ensures
        registry_well_formed(final(decoders)@),
        registry_model(final(decoders)@) == registered_all(
            registry_model(old(decoders)@),
            input_decoder_values(has_inputs(customs@)),
        ),
        final(decoders)@.len() >= old(decoders)@.len(),
        final(decoders)@.subrange(0, old(decoders)@.len() as int) == old(decoders)@,
        registered@.len() == customs@.len(),
        forall|i: int|
            0 <= i < customs@.len() ==> match #[trigger] registered@[i] {
                None => customs@[i].input is None,
                Some(ident) => customs@[i].input is Some && exists|j: int|
                    0 <= j < final(decoders)@.len() && final(decoders)@[j].key@ == value_key(
                        StaticValue::Custom(i as nat),
                    ) && final(decoders)@[j].ident@ == ident@,
            },
{
    let mut registered: Vec<Option<String>> = Vec::new();
    let ghost start = decoders@;
    let mut index: usize = 0;
    while index < customs.len()
        invariant
            index <= customs@.len(),
            registered@.len() == index,
            registry_well_formed(decoders@),
            start == old(decoders)@,
            decoders@.len() >= start.len(),
            decoders@.subrange(0, start.len() as int) == start,
            registry_model(decoders@) == registered_all(
                registry_model(start),
                input_decoder_values(has_inputs(customs@).take(index as int)),
            ),
            forall|i: int|
                0 <= i < index ==> match #[trigger] registered@[i] {
                    None => customs@[i].input is None,
                    Some(ident) => customs@[i].input is Some && exists|j: int|
                        0 <= j < decoders@.len() && decoders@[j].key@ == value_key(
                            StaticValue::Custom(i as nat),
                        ) && decoders@[j].ident@ == ident@,
                },
        decreases customs.len() - index,
    {
        proof {
            let flags = has_inputs(customs@);
            assert(flags.take(index + 1).drop_last() =~= flags.take(index as int));
            assert(flags.take(index + 1).last() == (customs@[index as int].input is Some));
        }
        let ghost earlier_values = input_decoder_values(has_inputs(customs@).take(index as int));
        let decoder = match &customs[index].input {
            Some(input) => {
                let list = CollectionType {
                    source: input.clone(),
                    item: input.clone(),
                    value: StaticValueType::Custom { index },
                };
                let ghost before = decoders@;
                let ident = register_list_decoder(&list, decoders);
                proof {
                    lemma_registration_model(before, list.value@, decoders@, ident@);
                    assert(earlier_values.push(list.value@).drop_last() =~= earlier_values);
                    law_registration_keeps_registry_well_formed(before, list.value@, decoders@, ident@);
                    law_registration_returns_the_decoder_of_the_key(
                        before,
                        list.value@,
                        decoders@,
                        ident@,
                    );
                    assert(decoders@.subrange(0, before.len() as int) == before);
                    assert(decoders@.subrange(0, start.len() as int) =~= start) by {
                        assert forall|j: int| 0 <= j < start.len() implies decoders@[j] == start[j] by {
                            assert(decoders@.subrange(0, before.len() as int)[j] == decoders@[j]);
                            assert(before.subrange(0, start.len() as int)[j] == before[j]);
                        }
                    }
                    assert forall|i: int| 0 <= i < index implies match #[trigger] registered@[i] {
                        None => customs@[i].input is None,
                        Some(ident) => customs@[i].input is Some && exists|j: int|
                            0 <= j < decoders@.len() && decoders@[j].key@ == value_key(
                                StaticValue::Custom(i as nat),
                            ) && decoders@[j].ident@ == ident@,
                    } by {
                        if let Some(found) = registered@[i] {
                            let j = choose|j: int|
                                0 <= j < before.len() && before[j].key@ == value_key(
                                    StaticValue::Custom(i as nat),
                                ) && before[j].ident@ == found@;
                            assert(decoders@.subrange(0, before.len() as int)[j] == decoders@[j]);
                        }
                    }
                }
                Some(ident)
            },
            None => None,
        };
        registered.push(decoder);
        index = index + 1;
    }
    assert(has_inputs(customs@).take(customs@.len() as int) =~= has_inputs(customs@));
    registered
}

} // verus!
