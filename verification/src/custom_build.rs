use crate::custom_classify::{
    TypeFacts, classified_value, classify_custom_value, lemma_classified_value_names,
    lemma_names_below_append, names_below,
};
use crate::custom_headers::{CustomHeader, HeaderKey, header_keys};
use crate::custom_value::{
    CustomConstructorModel, CustomFieldModel, CustomFieldValueType, CustomFields, CustomModel,
    ListType, constructor_fields, constructors_dependencies, dependencies_of, field_value,
    fields_dependencies, value_dependencies,
};
use crate::declarations::option_text;
use crate::identifiers::{constructor_names, field_definition};
use crate::names::{lemma_decimal_between, lemma_decimal_injective};
use crate::text::decimal;
use crate::diagnostic::{Diagnostic, diagnostic};
use crate::list_model::{
    CollectionType, ListDecoderModel, StaticValue, law_registration_keeps_registry_well_formed,
    law_registration_returns_the_decoder_of_the_key, register_list_decoder, registration,
    registry_well_formed, static_value_model, value_key, registry_model, registered_all,
    lemma_registration_model, lemma_registered_all_append, lemma_registered_all_single,
};
use vstd::prelude::*;

verus! {

/// The class of a custom constructor field: a value, or a `Vec` of items
/// with its source and item types as token text.
pub enum ClassifiedField {
    Value(StaticValue),
    List { source: Seq<char>, item: Seq<char>, value: StaticValue },
}

/// The class of a field type, or the message that rejects it: a `Vec` of
/// owned, non-collection items becomes a List field, a `List` is rejected,
/// and any other type is classified as a value.
pub open spec fn classified_field(facts: TypeFacts, headers: Seq<HeaderKey>) -> Result<
    ClassifiedField,
    Seq<char>,
> {
    match facts.vec_item {
        Err(message) => Err(message@),
        Ok(Some(item)) => if item.is_reference {
            Err("custom List item outputs must be owned values"@)
        } else if item.is_list || item.is_vec {
            Err("nested List values are not supported in custom declarations"@)
        } else {
            match classified_value(*item, headers) {
                Err(message) => Err(message),
                Ok(value) => Ok(
                    ClassifiedField::List { source: facts.text@, item: item.text@, value },
                ),
            }
        },
        Ok(None) => if facts.is_list {
            Err("custom output List fields use Vec<T>; generated input values use geam::List<T>"@)
        } else {
            match classified_value(facts, headers) {
                Err(message) => Err(message),
                Ok(value) => Ok(ClassifiedField::Value(value)),
            }
        },
    }
}

/// `decoders` holds a decoder for `value`'s key under the name `ident`.
pub open spec fn decoder_of(decoders: Seq<ListDecoderModel>, value: StaticValue, ident: Seq<char>) -> bool {
    exists|j: int|
        0 <= j < decoders.len() && #[trigger] decoders[j].key@ == value_key(value) && decoders[j].ident@
            == ident
}

/// A field value holds its class; a List field's decoder is the one that
/// `decoders` holds for its item shape.
pub open spec fn value_matches(
    value: CustomFieldValueType,
    class: ClassifiedField,
    decoders: Seq<ListDecoderModel>,
) -> bool {
    match class {
        ClassifiedField::Value(expected) => value matches CustomFieldValueType::Value(found)
            && static_value_model(*found) == expected,
        ClassifiedField::List { source, item, value: expected } => value matches CustomFieldValueType::List(
            list,
        ) && list.collection.source@ == source && list.collection.item@ == item
            && list.collection.value@ == expected && decoder_of(decoders, expected, list.decoder@),
    }
}

/// A registry that only grew keeps every decoder it held.
pub proof fn lemma_decoder_of_kept(
    before: Seq<ListDecoderModel>,
    after: Seq<ListDecoderModel>,
    value: StaticValue,
    ident: Seq<char>,
)
    requires
        decoder_of(before, value, ident),
        before.len() <= after.len(),
        after.subrange(0, before.len() as int) == before,
    ensures
        decoder_of(after, value, ident),
{
    let j = choose|j: int|
        0 <= j < before.len() && #[trigger] before[j].key@ == value_key(value) && before[j].ident@
            == ident;
    assert(after.subrange(0, before.len() as int)[j] == after[j]);
}

/// Classifies the type of a custom constructor field, registering the list
/// decoder of a `Vec` field's item shape.
pub fn classify_custom_output_value(
    facts: &TypeFacts,
    headers: &[CustomHeader],
    list_decoders: &mut Vec<ListDecoderModel>,
) -> (result: Result<CustomFieldValueType, Diagnostic>)
    ensures
        ({
            let before = old(list_decoders)@;
            let after = final(list_decoders)@;
            match classified_field(*facts, header_keys(headers@)) {
                Err(message) => result matches Err(error) && error.message@ == message && after
                    == before,
                Ok(ClassifiedField::Value(value)) => result matches Ok(
                    CustomFieldValueType::Value(found),
                ) && static_value_model(*found) == value && after == before,
                Ok(ClassifiedField::List { source, item, value }) => result matches Ok(
                    CustomFieldValueType::List(list),
                ) && list.collection.source@ == source && list.collection.item@ == item
                    && list.collection.value@ == value && registration(
                    before,
                    value,
                    after,
                    list.decoder@,
                ),
            }
        }),
{
    match &facts.vec_item {
        Err(message) => Err(Diagnostic { message: message.clone() }),
        Ok(Some(item)) => {
            if item.is_reference {
                return Err(diagnostic("custom List item outputs must be owned values"));
            }
            if item.is_list || item.is_vec {
                return Err(diagnostic("nested List values are not supported in custom declarations"));
            }
            let value = match classify_custom_value(item, headers) {
                Ok(value) => value,
                Err(error) => {
                    return Err(error);
                },
            };
            let collection = CollectionType {
                source: facts.text.clone(),
                item: item.text.clone(),
                value,
            };
            let decoder = register_list_decoder(&collection, list_decoders);
            Ok(CustomFieldValueType::List(Box::new(ListType { collection, decoder })))
        },
        Ok(None) => {
            if facts.is_list {
                return Err(
                    diagnostic(
                        "custom output List fields use Vec<T>; generated input values use geam::List<T>",
                    ),
                );
            }
            match classify_custom_value(facts, headers) {
                Ok(value) => Ok(CustomFieldValueType::Value(Box::new(value))),
                Err(error) => Err(error),
            }
        },
    }
}

/// A field of a named constructor: its name and type.
pub struct NamedFieldFacts {
    pub ident: String,
    pub type_: TypeFacts,
}

/// The fields of a constructor as written: none, unnamed or named.
pub enum FieldsFacts {
    Unit,
    Unnamed(Vec<TypeFacts>),
    Named(Vec<NamedFieldFacts>),
}

/// A constructor of a custom enum: its name and fields.
pub struct VariantFacts {
    pub ident: String,
    pub fields: FieldsFacts,
}

/// The field types of a constructor, in order.
pub open spec fn field_types(fields: FieldsFacts) -> Seq<TypeFacts> {
    match fields {
        FieldsFacts::Unit => Seq::empty(),
        FieldsFacts::Unnamed(types) => types@,
        FieldsFacts::Named(named) => named@.map_values(|field: NamedFieldFacts| field.type_),
    }
}

/// The name of field `index` of a constructor, if its fields are named.
pub open spec fn field_ident_at(fields: FieldsFacts, index: int) -> Option<Seq<char>> {
    match fields {
        FieldsFacts::Named(named) => Some(named@[index].ident@),
        _ => None,
    }
}

/// The classes of `types` in order, or the first rejection.
pub open spec fn classified_fields(types: Seq<TypeFacts>, headers: Seq<HeaderKey>) -> Result<
    Seq<ClassifiedField>,
    Seq<char>,
>
    decreases types.len(),
{
    if types.len() == 0 {
        Ok(Seq::empty())
    } else {
        match classified_fields(types.drop_last(), headers) {
            Err(message) => Err(message),
            Ok(earlier) => match classified_field(types.last(), headers) {
                Err(message) => Err(message),
                Ok(last) => Ok(earlier.push(last)),
            },
        }
    }
}

/// The field classes of each constructor in order, or the first rejection.
pub open spec fn classified_variants(variants: Seq<VariantFacts>, headers: Seq<HeaderKey>) -> Result<
    Seq<Seq<ClassifiedField>>,
    Seq<char>,
>
    decreases variants.len(),
{
    if variants.len() == 0 {
        Ok(Seq::empty())
    } else {
        match classified_variants(variants.drop_last(), headers) {
            Err(message) => Err(message),
            Ok(earlier) => match classified_fields(field_types(variants.last().fields), headers) {
                Err(message) => Err(message),
                Ok(last) => Ok(earlier.push(last)),
            },
        }
    }
}

/// The item shapes whose list decoders a field type registers: the item
/// shape of a `Vec` field, none for a value or a rejected type.
pub open spec fn field_items(facts: TypeFacts, headers: Seq<HeaderKey>) -> Seq<StaticValue> {
    match classified_field(facts, headers) {
        Ok(ClassifiedField::List { value, .. }) => seq![value],
        _ => Seq::empty(),
    }
}

/// The item shapes registered while classifying `types` in order, up to and
/// including the first rejected type.
pub open spec fn fields_items(types: Seq<TypeFacts>, headers: Seq<HeaderKey>) -> Seq<StaticValue>
    decreases types.len(),
{
    if types.len() == 0 {
        Seq::empty()
    } else {
        let earlier = fields_items(types.drop_last(), headers);
        match classified_fields(types.drop_last(), headers) {
            Err(_) => earlier,
            Ok(_) => earlier + field_items(types.last(), headers),
        }
    }
}

/// The item shapes registered while classifying the constructors of
/// `variants` in order, up to and including the first rejection.
pub open spec fn variants_items(variants: Seq<VariantFacts>, headers: Seq<HeaderKey>) -> Seq<StaticValue>
    decreases variants.len(),
{
    if variants.len() == 0 {
        Seq::empty()
    } else {
        let earlier = variants_items(variants.drop_last(), headers);
        match classified_variants(variants.drop_last(), headers) {
            Err(_) => earlier,
            Ok(_) => earlier + fields_items(field_types(variants.last().fields), headers),
        }
    }
}

proof fn lemma_fields_items_stay(types: Seq<TypeFacts>, count: int, headers: Seq<HeaderKey>)
    requires
        0 <= count <= types.len(),
        classified_fields(types.take(count), headers) is Err,
    ensures
        fields_items(types, headers) == fields_items(types.take(count), headers),
    decreases types.len(),
{
    if count < types.len() {
        assert(types.drop_last().take(count) =~= types.take(count));
        lemma_fields_items_stay(types.drop_last(), count, headers);
        lemma_fields_rejection_stays(types.drop_last(), count, headers);
    } else {
        assert(types.take(count) =~= types);
    }
}

proof fn lemma_variants_items_stay(variants: Seq<VariantFacts>, count: int, headers: Seq<HeaderKey>)
    requires
        0 <= count <= variants.len(),
        classified_variants(variants.take(count), headers) is Err,
    ensures
        variants_items(variants, headers) == variants_items(variants.take(count), headers),
    decreases variants.len(),
{
    if count < variants.len() {
        assert(variants.drop_last().take(count) =~= variants.take(count));
        lemma_variants_items_stay(variants.drop_last(), count, headers);
        lemma_variants_rejection_stays(variants.drop_last(), count, headers);
    } else {
        assert(variants.take(count) =~= variants);
    }
}

pub open spec fn constructor_marker_name(custom: nat, constructor: nat) -> Seq<char> {
    "__GeamCustom"@ + decimal(custom) + "Constructor"@ + decimal(constructor)
}

pub open spec fn constructor_definition_name(custom: nat, constructor: nat) -> Seq<char> {
    constructor_marker_name(custom, constructor) + "Definition"@
}

pub open spec fn field_definition_name(custom: nat, constructor: nat, field: nat) -> Seq<char> {
    constructor_marker_name(custom, constructor) + "Field"@ + decimal(field)
}

proof fn lemma_marker_names(custom: nat, constructor: nat, other_custom: nat, other_constructor: nat)
    requires
        constructor_marker_name(custom, constructor) == constructor_marker_name(
            other_custom,
            other_constructor,
        ),
    ensures
        custom == other_custom,
        constructor == other_constructor,
{
    reveal_strlit("Constructor");
    let prefix = "__GeamCustom"@;
    let rest = "Constructor"@ + decimal(constructor);
    let other_rest = "Constructor"@ + decimal(other_constructor);
    assert(constructor_marker_name(custom, constructor) =~= prefix + decimal(custom) + rest);
    assert(constructor_marker_name(other_custom, other_constructor) =~= prefix + decimal(other_custom)
        + other_rest);
    lemma_decimal_between(prefix, custom, rest, other_custom, other_rest);
    assert(rest.subrange(11, rest.len() as int) =~= decimal(constructor));
    assert(other_rest.subrange(11, other_rest.len() as int) =~= decimal(other_constructor));
    lemma_decimal_injective(constructor, other_constructor);
}

/// The names generated for constructors and fields tell their positions
/// apart: equal constructor markers, equal constructor definitions or equal
/// field definitions belong to the same position.
#[verifier::spinoff_prover]
pub proof fn law_definition_names_are_distinct(
    custom: nat,
    constructor: nat,
    field: nat,
    other_custom: nat,
    other_constructor: nat,
    other_field: nat,
)
    ensures
        constructor_marker_name(custom, constructor) == constructor_marker_name(
            other_custom,
            other_constructor,
        ) ==> custom == other_custom && constructor == other_constructor,
        constructor_definition_name(custom, constructor) == constructor_definition_name(
            other_custom,
            other_constructor,
        ) ==> custom == other_custom && constructor == other_constructor,
        field_definition_name(custom, constructor, field) == field_definition_name(
            other_custom,
            other_constructor,
            other_field,
        ) ==> custom == other_custom && constructor == other_constructor && field == other_field,
{
    reveal_strlit("Constructor");
    reveal_strlit("Definition");
    reveal_strlit("Field");
    let marker = constructor_marker_name(custom, constructor);
    let other_marker = constructor_marker_name(other_custom, other_constructor);
    if marker == other_marker {
        lemma_marker_names(custom, constructor, other_custom, other_constructor);
    }
    let definition = constructor_definition_name(custom, constructor);
    let other_definition = constructor_definition_name(other_custom, other_constructor);
    if definition == other_definition {
        assert(definition.subrange(0, marker.len() as int) =~= marker);
        assert(other_definition.subrange(0, other_marker.len() as int) =~= other_marker);
        lemma_marker_names(custom, constructor, other_custom, other_constructor);
    }
    let name = field_definition_name(custom, constructor, field);
    let other_name = field_definition_name(other_custom, other_constructor, other_field);
    if name == other_name {
        let prefix = "__GeamCustom"@;
        let tail = "Field"@ + decimal(field);
        let other_tail = "Field"@ + decimal(other_field);
        let rest = "Constructor"@ + decimal(constructor) + tail;
        let other_rest = "Constructor"@ + decimal(other_constructor) + other_tail;
        assert(name =~= prefix + decimal(custom) + rest);
        assert(other_name =~= prefix + decimal(other_custom) + other_rest);
        lemma_decimal_between(prefix, custom, rest, other_custom, other_rest);
        lemma_decimal_between("Constructor"@, constructor, tail, other_constructor, other_tail);
        assert(tail.subrange(5, tail.len() as int) =~= decimal(field));
        assert(other_tail.subrange(5, other_tail.len() as int) =~= decimal(other_field));
        lemma_decimal_injective(field, other_field);
    }
}

/// A built field: its name, its generated definition name and its class.
pub open spec fn field_built(
    field: CustomFieldModel,
    ident: Option<Seq<char>>,
    definition: Seq<char>,
    class: ClassifiedField,
    decoders: Seq<ListDecoderModel>,
) -> bool {
    &&& option_text(field.ident) == ident
    &&& field.definition@ == definition
    &&& value_matches(field.value, class, decoders)
}

pub open spec fn fields_kind_matches(built: CustomFields, facts: FieldsFacts) -> bool {
    match facts {
        FieldsFacts::Unit => built is Unit,
        FieldsFacts::Unnamed(_) => built is Unnamed,
        FieldsFacts::Named(_) => built is Named,
    }
}

/// A built constructor of declaration `custom` at position `index`.
pub open spec fn constructor_built(
    constructor: CustomConstructorModel,
    custom: nat,
    index: nat,
    variant: VariantFacts,
    classes: Seq<ClassifiedField>,
    decoders: Seq<ListDecoderModel>,
) -> bool {
    &&& constructor.ident@ == variant.ident@
    &&& constructor.definition@ == constructor_definition_name(custom, index)
    &&& constructor.marker@ == constructor_marker_name(custom, index)
    &&& fields_kind_matches(constructor.fields, variant.fields)
    &&& constructor_fields(constructor).len() == classes.len()
    &&& forall|f: int|
        0 <= f < classes.len() ==> field_built(
            #[trigger] constructor_fields(constructor)[f],
            field_ident_at(variant.fields, f),
            field_definition_name(custom, index, f as nat),
            classes[f],
            decoders,
        )
}

/// The names of a custom declaration: its own, its generated input type's,
/// its visibility, and its generated schema and decoder.
pub struct HeaderNames {
    pub ident: Seq<char>,
    pub input: Option<Seq<char>>,
    pub visibility: Seq<char>,
    pub schema: Seq<char>,
    pub decoder: Seq<char>,
}

pub open spec fn header_names(header: CustomHeader) -> HeaderNames {
    HeaderNames {
        ident: header.ident@,
        input: option_text(header.input),
        visibility: header.visibility@,
        schema: header.schema@,
        decoder: header.decoder@,
    }
}

/// A built custom declaration: the header's names and one built constructor
/// per constructor of the enum.
pub open spec fn model_built(
    model: CustomModel,
    custom: nat,
    header: HeaderNames,
    variants: Seq<VariantFacts>,
    classes: Seq<Seq<ClassifiedField>>,
    decoders: Seq<ListDecoderModel>,
) -> bool {
    &&& model.ident@ == header.ident
    &&& option_text(model.input) == header.input
    &&& model.visibility@ == header.visibility
    &&& model.schema@ == header.schema
    &&& model.decoder@ == header.decoder
    &&& model.constructors@.len() == variants.len()
    &&& classes.len() == variants.len()
    &&& forall|k: int|
        0 <= k < variants.len() ==> constructor_built(
            #[trigger] model.constructors@[k],
            custom,
            k as nat,
            variants[k],
            classes[k],
            decoders,
        )
}

/// `after` holds every decoder of `before` at the same position.
pub open spec fn grows(before: Seq<ListDecoderModel>, after: Seq<ListDecoderModel>) -> bool {
    &&& before.len() <= after.len()
    &&& after.subrange(0, before.len() as int) == before
}

pub proof fn lemma_grows_transitive(
    first: Seq<ListDecoderModel>,
    second: Seq<ListDecoderModel>,
    third: Seq<ListDecoderModel>,
)
    requires
        grows(first, second),
        grows(second, third),
    ensures
        grows(first, third),
{
    assert(third.subrange(0, first.len() as int) =~= first) by {
        assert forall|j: int| 0 <= j < first.len() implies third[j] == first[j] by {
            assert(third.subrange(0, second.len() as int)[j] == third[j]);
            assert(second.subrange(0, first.len() as int)[j] == second[j]);
        }
    }
}

proof fn lemma_registration_grows(
    before: Seq<ListDecoderModel>,
    value: StaticValue,
    after: Seq<ListDecoderModel>,
    ident: Seq<char>,
)
    requires
        registration(before, value, after, ident),
    ensures
        grows(before, after),
{
    if after == before {
        assert(after.subrange(0, before.len() as int) =~= before);
    } else {
        assert(after.subrange(0, before.len() as int) =~= after.drop_last());
    }
}

proof fn lemma_value_matches_kept(
    value: CustomFieldValueType,
    class: ClassifiedField,
    before: Seq<ListDecoderModel>,
    after: Seq<ListDecoderModel>,
)
    requires
        value_matches(value, class, before),
        grows(before, after),
    ensures
        value_matches(value, class, after),
{
    if let ClassifiedField::List { source, item, value: expected } = class {
        if let CustomFieldValueType::List(list) = value {
            lemma_decoder_of_kept(before, after, expected, list.decoder@);
        }
    }
}

pub proof fn lemma_constructor_built_kept(
    constructor: CustomConstructorModel,
    custom: nat,
    index: nat,
    variant: VariantFacts,
    classes: Seq<ClassifiedField>,
    before: Seq<ListDecoderModel>,
    after: Seq<ListDecoderModel>,
)
    requires
        constructor_built(constructor, custom, index, variant, classes, before),
        grows(before, after),
    ensures
        constructor_built(constructor, custom, index, variant, classes, after),
{
    assert forall|f: int| 0 <= f < classes.len() implies field_built(
        #[trigger] constructor_fields(constructor)[f],
        field_ident_at(variant.fields, f),
        field_definition_name(custom, index, f as nat),
        classes[f],
        after,
    ) by {
        lemma_value_matches_kept(constructor_fields(constructor)[f].value, classes[f], before, after);
    }
}

proof fn lemma_classified_lengths(
    types: Seq<TypeFacts>,
    variants: Seq<VariantFacts>,
    headers: Seq<HeaderKey>,
)
    ensures
        classified_fields(types, headers) matches Ok(classes) ==> classes.len() == types.len(),
        classified_variants(variants, headers) matches Ok(classes) ==> classes.len()
            == variants.len(),
    decreases types.len() + variants.len(),
{
    if types.len() > 0 {
        lemma_classified_lengths(types.drop_last(), variants, headers);
    }
    if variants.len() > 0 {
        lemma_classified_lengths(types, variants.drop_last(), headers);
    }
}

proof fn lemma_fields_rejection_stays(types: Seq<TypeFacts>, count: int, headers: Seq<HeaderKey>)
    requires
        0 <= count <= types.len(),
        classified_fields(types.take(count), headers) is Err,
    ensures
        classified_fields(types, headers) == classified_fields(types.take(count), headers),
    decreases types.len(),
{
    if count < types.len() {
        assert(types.drop_last().take(count) =~= types.take(count));
        lemma_fields_rejection_stays(types.drop_last(), count, headers);
    } else {
        assert(types.take(count) =~= types);
    }
}

proof fn lemma_variants_rejection_stays(
    variants: Seq<VariantFacts>,
    count: int,
    headers: Seq<HeaderKey>,
)
    requires
        0 <= count <= variants.len(),
        classified_variants(variants.take(count), headers) is Err,
    ensures
        classified_variants(variants, headers) == classified_variants(variants.take(count), headers),
    decreases variants.len(),
{
    if count < variants.len() {
        assert(variants.drop_last().take(count) =~= variants.take(count));
        lemma_variants_rejection_stays(variants.drop_last(), count, headers);
    } else {
        assert(variants.take(count) =~= variants);
    }
}

/// Builds field `field` of constructor `constructor` of declaration `custom`:
/// its name, its generated definition name and its classified value.
pub fn build_custom_field(
    custom: usize,
    constructor: usize,
    field: usize,
    ident: Option<String>,
    facts: &TypeFacts,
    headers: &[CustomHeader],
    list_decoders: &mut Vec<ListDecoderModel>,
) -> (result: Result<CustomFieldModel, Diagnostic>)
    requires
        registry_well_formed(old(list_decoders)@),
    ensures
        registry_well_formed(final(list_decoders)@),
        grows(old(list_decoders)@, final(list_decoders)@),
        registry_model(final(list_decoders)@) == registered_all(
            registry_model(old(list_decoders)@),
            field_items(*facts, header_keys(headers@)),
        ),
        match classified_field(*facts, header_keys(headers@)) {
            Err(message) => result matches Err(error) && error.message@ == message,
            Ok(class) => result matches Ok(built) && field_built(
                built,
                option_text(ident),
                field_definition_name(custom as nat, constructor as nat, field as nat),
                class,
                final(list_decoders)@,
            ),
        },
{
    let ghost before = list_decoders@;
    let classified = classify_custom_output_value(facts, headers, list_decoders);
    proof {
        lemma_registered_all_single(registry_model(before), StaticValue::Tuple(Seq::empty()));
        if classified is Ok && classified->Ok_0 is List {
            let list = classified->Ok_0->List_0;
            law_registration_keeps_registry_well_formed(before, list.collection.value@, list_decoders@, list.decoder@);
            law_registration_returns_the_decoder_of_the_key(before, list.collection.value@, list_decoders@, list.decoder@);
            lemma_registration_grows(before, list.collection.value@, list_decoders@, list.decoder@);
            lemma_registration_model(before, list.collection.value@, list_decoders@, list.decoder@);
            lemma_registered_all_single(registry_model(before), list.collection.value@);
            assert(field_items(*facts, header_keys(headers@)) == seq![list.collection.value@]);
        } else {
            assert(field_items(*facts, header_keys(headers@)) =~= Seq::<StaticValue>::empty());
            assert(list_decoders@ == before);
            assert(list_decoders@.subrange(0, before.len() as int) =~= before);
        }
        assert(registry_model(list_decoders@) == registered_all(
            registry_model(before),
            field_items(*facts, header_keys(headers@)),
        ));
    }
    match classified {
        Err(error) => Err(error),
        Ok(value) => Ok(
            CustomFieldModel {
                ident,
                definition: field_definition(custom, constructor, field),
                value,
            },
        ),
    }
}

/// The fields of a built constructor, in order.
pub open spec fn fields_of(fields: CustomFields) -> Seq<CustomFieldModel> {
    match fields {
        CustomFields::Unit => Seq::empty(),
        CustomFields::Unnamed(fields) => fields@,
        CustomFields::Named(fields) => fields@,
    }
}

/// Built fields: one per written field, each with its name, definition name
/// and class.
pub open spec fn fields_built(
    built: Seq<CustomFieldModel>,
    custom: nat,
    constructor: nat,
    fields: FieldsFacts,
    classes: Seq<ClassifiedField>,
    decoders: Seq<ListDecoderModel>,
) -> bool {
    &&& built.len() == classes.len()
    &&& forall|f: int|
        0 <= f < classes.len() ==> field_built(
            #[trigger] built[f],
            field_ident_at(fields, f),
            field_definition_name(custom, constructor, f as nat),
            classes[f],
            decoders,
        )
}

proof fn lemma_fields_built_kept(
    built: Seq<CustomFieldModel>,
    custom: nat,
    constructor: nat,
    fields: FieldsFacts,
    classes: Seq<ClassifiedField>,
    before: Seq<ListDecoderModel>,
    after: Seq<ListDecoderModel>,
)
    requires
        fields_built(built, custom, constructor, fields, classes, before),
        grows(before, after),
    ensures
        fields_built(built, custom, constructor, fields, classes, after),
{
    assert forall|f: int| 0 <= f < classes.len() implies field_built(
        #[trigger] built[f],
        field_ident_at(fields, f),
        field_definition_name(custom, constructor, f as nat),
        classes[f],
        after,
    ) by {
        lemma_value_matches_kept(built[f].value, classes[f], before, after);
    }
}

/// Builds the fields of constructor `constructor` of declaration `custom`.
fn build_custom_fields(
    custom: usize,
    constructor: usize,
    fields: &FieldsFacts,
    headers: &[CustomHeader],
    list_decoders: &mut Vec<ListDecoderModel>,
) -> (result: Result<CustomFields, Diagnostic>)
    requires
        registry_well_formed(old(list_decoders)@),
    ensures
        registry_well_formed(final(list_decoders)@),
        grows(old(list_decoders)@, final(list_decoders)@),
        registry_model(final(list_decoders)@) == registered_all(
            registry_model(old(list_decoders)@),
            fields_items(field_types(*fields), header_keys(headers@)),
        ),
        match classified_fields(field_types(*fields), header_keys(headers@)) {
            Err(message) => result matches Err(error) && error.message@ == message,
            Ok(classes) => result matches Ok(built) && fields_kind_matches(built, *fields)
                && fields_built(
                fields_of(built),
                custom as nat,
                constructor as nat,
                *fields,
                classes,
                final(list_decoders)@,
            ),
        },
{
    let ghost start = list_decoders@;
    let ghost types = field_types(*fields);
    let mut built: Vec<CustomFieldModel> = Vec::new();
    let count = match fields {
        FieldsFacts::Unit => 0,
        FieldsFacts::Unnamed(types) => types.len(),
        FieldsFacts::Named(named) => named.len(),
    };
    assert(list_decoders@.subrange(0, start.len() as int) =~= start);
    assert(types.take(0) =~= Seq::<TypeFacts>::empty());
    let mut f: usize = 0;
    while f < count
        invariant
            count == types.len(),
            types == field_types(*fields),
            f <= count,
            registry_well_formed(list_decoders@),
            grows(start, list_decoders@),
            start == old(list_decoders)@,
            registry_model(list_decoders@) == registered_all(
                registry_model(start),
                fields_items(types.take(f as int), header_keys(headers@)),
            ),
            classified_fields(types.take(f as int), header_keys(headers@)) matches Ok(classes) && fields_built(
                built@,
                custom as nat,
                constructor as nat,
                *fields,
                classes,
                list_decoders@,
            ),
        decreases count - f,
    {
        proof {
            assert(types.take(f + 1).drop_last() =~= types.take(f as int));
            assert(types.take(f + 1).last() == types[f as int]);
        }
        let ghost classes = classified_fields(types.take(f as int), header_keys(headers@))->Ok_0;
        let ghost before = list_decoders@;
        let field = match fields {
            FieldsFacts::Unit => Err(Diagnostic { message: String::new() }),
            FieldsFacts::Unnamed(unnamed) => build_custom_field(
                custom,
                constructor,
                f,
                None,
                &unnamed[f],
                headers,
                list_decoders,
            ),
            FieldsFacts::Named(named) => build_custom_field(
                custom,
                constructor,
                f,
                Some(named[f].ident.clone()),
                &named[f].type_,
                headers,
                list_decoders,
            ),
        };
        proof {
            let hk = header_keys(headers@);
            let earlier_items = fields_items(types.take(f as int), hk);
            assert(fields_items(types.take(f + 1), hk) == earlier_items + field_items(types[f as int], hk));
            assert(registry_model(list_decoders@) == registered_all(registry_model(before), field_items(types[f as int], hk))) by {
                match *fields {
                    FieldsFacts::Unit => {},
                    FieldsFacts::Unnamed(unnamed) => {},
                    FieldsFacts::Named(named) => {
                        assert(types[f as int] == named@[f as int].type_);
                    },
                }
            }
            lemma_registered_all_append(registry_model(start), earlier_items, field_items(types[f as int], hk));
            let name = field_definition_name(custom as nat, constructor as nat, f as nat);
            assert(match classified_field(types[f as int], header_keys(headers@)) {
                Err(message) => field matches Err(error) && error.message@ == message,
                Ok(class) => field matches Ok(built) && field_built(
                    built,
                    field_ident_at(*fields, f as int),
                    name,
                    class,
                    list_decoders@,
                ),
            }) by {
                match *fields {
                    FieldsFacts::Unit => {},
                    FieldsFacts::Unnamed(unnamed) => {},
                    FieldsFacts::Named(named) => {
                        assert(types[f as int] == named@[f as int].type_);
                    },
                }
            }
        }
        match field {
            Err(error) => {
                proof {
                    lemma_fields_rejection_stays(types, f + 1, header_keys(headers@));
                    lemma_fields_items_stay(types, f + 1, header_keys(headers@));
                    lemma_grows_transitive(start, before, list_decoders@);
                }
                return Err(error);
            },
            Ok(field) => {
                proof {
                    lemma_fields_built_kept(
                        built@,
                        custom as nat,
                        constructor as nat,
                        *fields,
                        classes,
                        before,
                        list_decoders@,
                    );
                    lemma_grows_transitive(start, before, list_decoders@);
                }
                let ghost earlier = built@;
                let ghost added = field;
                built.push(field);
                proof {
                    lemma_classified_lengths(types.take(f as int), Seq::empty(), header_keys(headers@));
                    let class = classified_field(types[f as int], header_keys(headers@))->Ok_0;
                    assert(classified_field(types[f as int], header_keys(headers@)) is Ok);
                    assert(field_built(
                        added,
                        field_ident_at(*fields, f as int),
                        field_definition_name(custom as nat, constructor as nat, f as nat),
                        class,
                        list_decoders@,
                    ));
                    assert(classified_fields(types.take(f + 1), header_keys(headers@)) == Ok::<
                        Seq<ClassifiedField>,
                        Seq<char>,
                    >(classes.push(class)));
                    let next = classes.push(class);
                    assert forall|g: int| 0 <= g < next.len() implies field_built(
                        #[trigger] built@[g],
                        field_ident_at(*fields, g),
                        field_definition_name(custom as nat, constructor as nat, g as nat),
                        next[g],
                        list_decoders@,
                    ) by {
                        if g < earlier.len() {
                            assert(built@[g] == earlier[g]);
                            assert(next[g] == classes[g]);

                        } else {
                            assert(built@[g] == added);
                        }
                    }
                }
            },
        }
        f = f + 1;
    }
    assert(types.take(count as int) =~= types);
    match fields {
        FieldsFacts::Unit => Ok(CustomFields::Unit),
        FieldsFacts::Unnamed(_) => Ok(CustomFields::Unnamed(built)),
        FieldsFacts::Named(_) => Ok(CustomFields::Named(built)),
    }
}

/// Builds the model of custom declaration `custom_index` from its header and
/// constructors: each constructor gets its generated marker and definition
/// names, and each field its definition name and classified value, in
/// declaration order.
pub fn build_custom_model(
    custom_index: usize,
    header: &CustomHeader,
    variants: &Vec<VariantFacts>,
    headers: &[CustomHeader],
    list_decoders: &mut Vec<ListDecoderModel>,
) -> (result: Result<CustomModel, Diagnostic>)
    requires
        registry_well_formed(old(list_decoders)@),
    ensures
        registry_well_formed(final(list_decoders)@),
        grows(old(list_decoders)@, final(list_decoders)@),
        registry_model(final(list_decoders)@) == registered_all(
            registry_model(old(list_decoders)@),
            variants_items(variants@, header_keys(headers@)),
        ),
        match classified_variants(variants@, header_keys(headers@)) {
            Err(message) => result matches Err(error) && error.message@ == message,
            Ok(classes) => result matches Ok(model) && model_built(
                model,
                custom_index as nat,
                header_names(*header),
                variants@,
                classes,
                final(list_decoders)@,
            ),
        },
{
    let ghost start = list_decoders@;
    let mut constructors: Vec<CustomConstructorModel> = Vec::new();
    assert(list_decoders@.subrange(0, start.len() as int) =~= start);
    assert(variants@.take(0) =~= Seq::<VariantFacts>::empty());
    let mut k: usize = 0;
    while k < variants.len()
        invariant
            k <= variants@.len(),
            registry_well_formed(list_decoders@),
            grows(start, list_decoders@),
            start == old(list_decoders)@,
            registry_model(list_decoders@) == registered_all(
                registry_model(start),
                variants_items(variants@.take(k as int), header_keys(headers@)),
            ),
            classified_variants(variants@.take(k as int), header_keys(headers@)) matches Ok(classes)
                && constructors@.len() == k && forall|j: int|
                0 <= j < k ==> constructor_built(
                    #[trigger] constructors@[j],
                    custom_index as nat,
                    j as nat,
                    variants@[j],
                    classes[j],
                    list_decoders@,
                ),
        decreases variants.len() - k,
    {
        proof {
            assert(variants@.take(k + 1).drop_last() =~= variants@.take(k as int));
            assert(variants@.take(k + 1).last() == variants@[k as int]);
        }
        let ghost classes = classified_variants(variants@.take(k as int), header_keys(headers@))->Ok_0;
        let ghost before = list_decoders@;
        let variant = &variants[k];
        let built_fields = build_custom_fields(custom_index, k, &variant.fields, headers, list_decoders);
        proof {
            let hk = header_keys(headers@);
            let earlier_items = variants_items(variants@.take(k as int), hk);
            let added = fields_items(field_types(variants@[k as int].fields), hk);
            assert(variants_items(variants@.take(k + 1), hk) == earlier_items + added);
            lemma_registered_all_append(registry_model(start), earlier_items, added);
        }
        let fields = match built_fields {
            Ok(fields) => fields,
            Err(error) => {
                proof {
                    lemma_variants_rejection_stays(variants@, k + 1, header_keys(headers@));
                    lemma_variants_items_stay(variants@, k + 1, header_keys(headers@));
                    lemma_grows_transitive(start, before, list_decoders@);
                }
                return Err(error);
            },
        };
        let (marker, definition) = constructor_names(custom_index, k);
        let ghost earlier = constructors@;
        constructors.push(
            CustomConstructorModel { ident: variant.ident.clone(), definition, marker, fields },
        );
        proof {
            lemma_grows_transitive(start, before, list_decoders@);
            lemma_classified_lengths(Seq::empty(), variants@.take(k as int), header_keys(headers@));
            let class = classified_fields(field_types(variants@[k as int].fields), header_keys(headers@))->Ok_0;
            let next = classes.push(class);
            assert(classified_variants(variants@.take(k + 1), header_keys(headers@)) == Ok::<
                Seq<Seq<ClassifiedField>>,
                Seq<char>,
            >(next));
            assert forall|j: int| 0 <= j < k + 1 implies constructor_built(
                #[trigger] constructors@[j],
                custom_index as nat,
                j as nat,
                variants@[j],
                next[j],
                list_decoders@,
            ) by {
                if j < k {
                    assert(constructors@[j] == earlier[j]);
                    lemma_constructor_built_kept(
                        earlier[j],
                        custom_index as nat,
                        j as nat,
                        variants@[j],
                        classes[j],
                        before,
                        list_decoders@,
                    );
                    assert(next[j] == classes[j]);
                } else {
                    assert(next[j] == class);
                }
            }
        }
        k = k + 1;
    }
    assert(variants@.take(variants.len() as int) =~= variants@);
    proof {
        lemma_classified_lengths(Seq::empty(), variants@, header_keys(headers@));
    }
    let input = match &header.input {
        Some(input) => Some(input.clone()),
        None => None,
    };
    Ok(
        CustomModel {
            ident: header.ident.clone(),
            input,
            visibility: header.visibility.clone(),
            schema: header.schema.clone(),
            decoder: header.decoder.clone(),
            constructors,
        },
    )
}

/// The value shape of a field class.
pub open spec fn class_value(class: ClassifiedField) -> StaticValue {
    match class {
        ClassifiedField::Value(value) => value,
        ClassifiedField::List { value, .. } => value,
    }
}

/// The declarations that the fields of one constructor name, in order.
pub open spec fn class_dependencies(classes: Seq<ClassifiedField>) -> Seq<nat>
    decreases classes.len(),
{
    if classes.len() == 0 {
        Seq::empty()
    } else {
        class_dependencies(classes.drop_last()) + value_dependencies(class_value(classes.last()))
    }
}

/// The declarations that the constructors of one declaration name, in order.
pub open spec fn constructor_class_dependencies(classes: Seq<Seq<ClassifiedField>>) -> Seq<nat>
    decreases classes.len(),
{
    if classes.len() == 0 {
        Seq::empty()
    } else {
        constructor_class_dependencies(classes.drop_last()) + class_dependencies(classes.last())
    }
}

pub proof fn lemma_classified_names(
    types: Seq<TypeFacts>,
    variants: Seq<VariantFacts>,
    headers: Seq<HeaderKey>,
)
    ensures
        classified_fields(types, headers) matches Ok(classes) ==> names_below(
            class_dependencies(classes),
            headers.len(),
        ),
        classified_variants(variants, headers) matches Ok(classes) ==> names_below(
            constructor_class_dependencies(classes),
            headers.len(),
        ),
    decreases variants.len(), types.len(),
{
    if types.len() > 0 {
        lemma_classified_names(types.drop_last(), variants, headers);
        let last = types.last();
        if classified_fields(types, headers) is Ok {
            let earlier = classified_fields(types.drop_last(), headers)->Ok_0;
            let class = classified_field(last, headers)->Ok_0;
            match last.vec_item {
                Ok(Some(item)) => lemma_classified_value_names(*item, headers),
                _ => lemma_classified_value_names(last, headers),
            }
            assert(earlier.push(class).drop_last() =~= earlier);
            lemma_names_below_append(
                class_dependencies(earlier),
                value_dependencies(class_value(class)),
                headers.len(),
            );
        }
    }
    if variants.len() > 0 {
        lemma_classified_names(types, variants.drop_last(), headers);
        let last = field_types(variants.last().fields);
        lemma_classified_names(last, Seq::empty(), headers);
        if classified_variants(variants, headers) is Ok {
            let earlier = classified_variants(variants.drop_last(), headers)->Ok_0;
            let class = classified_fields(last, headers)->Ok_0;
            assert(earlier.push(class).drop_last() =~= earlier);
            lemma_names_below_append(
                constructor_class_dependencies(earlier),
                class_dependencies(class),
                headers.len(),
            );
        }
    }
}

proof fn lemma_fields_dependencies_match(fields: Seq<CustomFieldModel>, classes: Seq<ClassifiedField>)
    requires
        fields.len() == classes.len(),
        forall|f: int| 0 <= f < fields.len() ==> field_value(#[trigger] fields[f]) == class_value(classes[f]),
    ensures
        fields_dependencies(fields) == class_dependencies(classes),
    decreases fields.len(),
{
    if fields.len() > 0 {
        lemma_fields_dependencies_match(fields.drop_last(), classes.drop_last());
        assert(field_value(fields[fields.len() - 1]) == class_value(classes[classes.len() - 1]));
    }
}

proof fn lemma_constructors_dependencies_match(
    constructors: Seq<CustomConstructorModel>,
    classes: Seq<Seq<ClassifiedField>>,
)
    requires
        constructors.len() == classes.len(),
        forall|k: int|
            0 <= k < constructors.len() ==> fields_dependencies(constructor_fields(#[trigger] constructors[k]))
                == class_dependencies(classes[k]),
    ensures
        constructors_dependencies(constructors) == constructor_class_dependencies(classes),
    decreases constructors.len(),
{
    if constructors.len() > 0 {
        lemma_constructors_dependencies_match(constructors.drop_last(), classes.drop_last());
        assert(fields_dependencies(constructor_fields(constructors[constructors.len() - 1]))
            == class_dependencies(classes[classes.len() - 1]));
    }
}

/// The declarations a built model depends on are those its classes name.
pub proof fn lemma_model_dependencies(
    model: CustomModel,
    custom: nat,
    header: HeaderNames,
    variants: Seq<VariantFacts>,
    classes: Seq<Seq<ClassifiedField>>,
    decoders: Seq<ListDecoderModel>,
)
    requires
        model_built(model, custom, header, variants, classes, decoders),
    ensures
        dependencies_of(model) == constructor_class_dependencies(classes),
{
    let constructors = model.constructors@;
    assert forall|k: int| 0 <= k < constructors.len() implies fields_dependencies(
        constructor_fields(#[trigger] constructors[k]),
    ) == class_dependencies(classes[k]) by {
        let fields = constructor_fields(constructors[k]);
        assert(constructor_built(constructors[k], custom, k as nat, variants[k], classes[k], decoders));
        assert forall|f: int| 0 <= f < fields.len() implies field_value(#[trigger] fields[f])
            == class_value(classes[k][f]) by {
            assert(field_built(
                fields[f],
                field_ident_at(variants[k].fields, f),
                field_definition_name(custom, k as nat, f as nat),
                classes[k][f],
                decoders,
            ));
        }
        lemma_fields_dependencies_match(fields, classes[k]);
    }
    lemma_constructors_dependencies_match(constructors, classes);
}

} // verus!
