use crate::text::{decimal, push_decimal};
use vstd::prelude::*;

verus! {

/// A value shape that a provider List may hold, as the module classified it.
/// The Rust types of scalar and declared values are held as their token text,
/// the way `quote!(#type_).to_string()` renders them (`crate :: Tag`).
pub enum StaticValueType {
    Scalar(String),
    Declared { type_: String },
    External { payload: String, schema: String, store_field: String },
    Custom { index: usize },
    Tuple(Vec<StaticValueType>),
    Result { success: Box<StaticValueType>, failure: Box<StaticValueType> },
    Option { value: Box<StaticValueType> },
}

/// The mathematical model of a [`StaticValueType`].
pub enum StaticValue {
    Scalar(Seq<char>),
    Declared(Seq<char>),
    External { payload: Seq<char>, schema: Seq<char>, store_field: Seq<char> },
    Custom(nat),
    Tuple(Seq<StaticValue>),
    Result(Box<StaticValue>, Box<StaticValue>),
    Option(Box<StaticValue>),
}

pub open spec fn static_value_model(value: StaticValueType) -> StaticValue
    decreases value,
{
    match value {
        StaticValueType::Scalar(type_) => StaticValue::Scalar(type_@),
        StaticValueType::Declared { type_ } => StaticValue::Declared(type_@),
        StaticValueType::External { payload, schema, store_field } => StaticValue::External {
            payload: payload@,
            schema: schema@,
            store_field: store_field@,
        },
        StaticValueType::Custom { index } => StaticValue::Custom(index as nat),
        StaticValueType::Tuple(elements) => StaticValue::Tuple(static_values_model(elements@)),
        StaticValueType::Result { success, failure } => StaticValue::Result(
            Box::new(static_value_model(*success)),
            Box::new(static_value_model(*failure)),
        ),
        StaticValueType::Option { value } => StaticValue::Option(
            Box::new(static_value_model(*value)),
        ),
    }
}

pub open spec fn static_values_model(values: Seq<StaticValueType>) -> Seq<StaticValue>
    decreases values,
{
    if values.len() == 0 {
        Seq::empty()
    } else {
        static_values_model(values.drop_last()).push(static_value_model(values.last()))
    }
}

impl View for StaticValueType {
    type V = StaticValue;

    open spec fn view(&self) -> StaticValue {
        static_value_model(*self)
    }
}

/// The key that identifies one list item shape: two shapes share a decoder
/// exactly when their keys are equal.
pub open spec fn value_key(value: StaticValue) -> Seq<char>
    decreases value,
{
    match value {
        StaticValue::Scalar(type_) => "scalar:"@ + type_,
        StaticValue::Declared(type_) => "declared:"@ + type_,
        StaticValue::External { schema, .. } => "external:"@ + schema,
        StaticValue::Custom(index) => "custom:"@ + decimal(index),
        StaticValue::Tuple(elements) => "tuple:("@ + joined_keys(elements) + ")"@,
        StaticValue::Result(success, failure) => "result:<"@ + value_key(*success) + ","@
            + value_key(*failure) + ">"@,
        StaticValue::Option(value) => "option:<"@ + value_key(*value) + ">"@,
    }
}

/// The keys of `values`, separated by commas.
pub open spec fn joined_keys(values: Seq<StaticValue>) -> Seq<char>
    decreases values,
{
    if values.len() == 0 {
        Seq::empty()
    } else if values.len() == 1 {
        value_key(values[0])
    } else {
        joined_keys(values.drop_last()) + ","@ + value_key(values.last())
    }
}


/// The model of a sequence has one entry per value, each the value's model.
pub proof fn lemma_static_values_model(values: Seq<StaticValueType>)
    ensures
        static_values_model(values).len() == values.len(),
        forall|i: int|
            0 <= i < values.len() ==> #[trigger] static_values_model(values)[i]
                == static_value_model(values[i]),
    decreases values.len(),
{
    if values.len() > 0 {
        lemma_static_values_model(values.drop_last());
    }
}

proof fn lemma_static_values_model_take(values: Seq<StaticValueType>, n: int)
    requires
        0 <= n < values.len(),
    ensures
        static_values_model(values.take(n + 1)) == static_values_model(values.take(n)).push(
            static_value_model(values[n]),
        ),
{
    assert(values.take(n + 1).drop_last() =~= values.take(n));
}

/// Renders the key of a list item shape.
pub fn static_value_key(type_: &StaticValueType) -> (key: String)
    ensures
        key@ == value_key(type_@),
    decreases type_,
{
    let mut key = String::new();
    match type_ {
        StaticValueType::Scalar(rust) => {
            key.append("scalar:");
            key.append(rust.as_str());
        },
        StaticValueType::Declared { type_: rust } => {
            key.append("declared:");
            key.append(rust.as_str());
        },
        StaticValueType::External { schema, .. } => {
            key.append("external:");
            key.append(schema.as_str());
        },
        StaticValueType::Custom { index } => {
            key.append("custom:");
            push_decimal(&mut key, *index);
        },
        StaticValueType::Tuple(elements) => {
            key.append("tuple:(");
            let ghost start = key@;
            let mut i: usize = 0;
            while i < elements.len()
                invariant
                    i <= elements.len(),
                    *type_ == StaticValueType::Tuple(*elements),
                    key@ == start + joined_keys(static_values_model(elements@.take(i as int))),
                decreases elements.len() - i,
            {
                proof {
                    lemma_static_values_model_take(elements@, i as int);
                    lemma_static_values_model(elements@.take(i as int));
                }
                let ghost before = static_values_model(elements@.take(i as int));
                let ghost after = static_values_model(elements@.take(i + 1));
                if i > 0 {
                    key.append(",");
                }
                proof {
                    vstd::std_specs::vec::axiom_vec_index_decreases(*elements, i as int);
                    assert(decreases_to!(*type_ => (*type_)->Tuple_0));
                    assert(decreases_to!(*type_ => elements[i as int]));
                }
                let element = static_value_key(&elements[i]);
                key.append(element.as_str());
                proof {
                    assert(after.drop_last() =~= before);
                    assert(after.last() == static_value_model(elements@[i as int]));
                    if i == 0 {
                        assert(after.len() == 1);
                        assert(after[0] == after.last());
                    }
                }
                i = i + 1;
            }
            assert(elements@.take(elements.len() as int) =~= elements@);
            key.append(")");
        },
        StaticValueType::Result { success, failure } => {
            key.append("result:<");
            let success = static_value_key(success);
            key.append(success.as_str());
            key.append(",");
            let failure = static_value_key(failure);
            key.append(failure.as_str());
            key.append(">");
        },
        StaticValueType::Option { value } => {
            key.append("option:<");
            let value = static_value_key(value);
            key.append(value.as_str());
            key.append(">");
        },
    }
    key
}


impl StaticValueType {
    /// A copy of this shape with the same model.
    pub fn duplicate(&self) -> (copy: StaticValueType)
        ensures
            copy@ == self@,
        decreases self,
    {
        match self {
            StaticValueType::Scalar(rust) => StaticValueType::Scalar(rust.clone()),
            StaticValueType::Declared { type_ } => StaticValueType::Declared {
                type_: type_.clone(),
            },
            StaticValueType::External { payload, schema, store_field } => StaticValueType::External {
                payload: payload.clone(),
                schema: schema.clone(),
                store_field: store_field.clone(),
            },
            StaticValueType::Custom { index } => StaticValueType::Custom { index: *index },
            StaticValueType::Tuple(elements) => {
                let mut copies: Vec<StaticValueType> = Vec::new();
                let mut i: usize = 0;
                while i < elements.len()
                    invariant
                        i <= elements.len(),
                        *self == StaticValueType::Tuple(*elements),
                        static_values_model(copies@) == static_values_model(
                            elements@.take(i as int),
                        ),
                    decreases elements.len() - i,
                {
                    proof {
                        vstd::std_specs::vec::axiom_vec_index_decreases(*elements, i as int);
                        assert(decreases_to!(*self => (*self)->Tuple_0));
                        lemma_static_values_model_take(elements@, i as int);
                    }
                    let copy = elements[i].duplicate();
                    let ghost before = copies@;
                    copies.push(copy);
                    proof {
                        assert(copies@.drop_last() =~= before);
                    }
                    i = i + 1;
                }
                assert(elements@.take(elements.len() as int) =~= elements@);
                StaticValueType::Tuple(copies)
            },
            StaticValueType::Result { success, failure } => StaticValueType::Result {
                success: Box::new(success.duplicate()),
                failure: Box::new(failure.duplicate()),
            },
            StaticValueType::Option { value } => StaticValueType::Option {
                value: Box::new(value.duplicate()),
            },
        }
    }
}

/// A List type as the module declared it: its source and item types as token
/// text, and the classified item shape.
pub struct CollectionType {
    pub source: String,
    pub item: String,
    pub value: StaticValueType,
}

/// One generated list decoder: its identifier, the item shape it decodes and
/// the shape's key.
pub struct ListDecoderModel {
    pub ident: String,
    pub value: StaticValueType,
    pub key: String,
}

/// The identifier of the `index`-th generated list decoder.
pub open spec fn list_decoder_ident(index: nat) -> Seq<char> {
    "__GeamListDecoder"@ + decimal(index)
}

/// The position of the first decoder registered under `key`, or -1.
pub open spec fn first_decoder_with_key(decoders: Seq<ListDecoderModel>, key: Seq<char>) -> int
    decreases decoders.len(),
{
    if decoders.len() == 0 {
        -1
    } else {
        let earlier = first_decoder_with_key(decoders.drop_last(), key);
        if earlier >= 0 {
            earlier
        } else if decoders.last().key@ == key {
            decoders.len() - 1
        } else {
            -1
        }
    }
}

pub proof fn lemma_first_decoder_with_key(decoders: Seq<ListDecoderModel>, key: Seq<char>)
    ensures
        -1 <= first_decoder_with_key(decoders, key) < decoders.len(),
        first_decoder_with_key(decoders, key) >= 0 ==> {
            &&& decoders[first_decoder_with_key(decoders, key)].key@ == key
            &&& forall|j: int|
                0 <= j < first_decoder_with_key(decoders, key) ==> #[trigger] decoders[j].key@
                    != key
        },
        first_decoder_with_key(decoders, key) < 0 ==> forall|j: int|
            0 <= j < decoders.len() ==> #[trigger] decoders[j].key@ != key,
    decreases decoders.len(),
{
    if decoders.len() > 0 {
        let earlier = decoders.drop_last();
        let last = decoders.len() - 1;
        lemma_first_decoder_with_key(earlier, key);
        assert forall|j: int| 0 <= j < earlier.len() implies #[trigger] earlier[j] == decoders[j] by {}
        assert(decoders.last() == decoders[last]);
        let e = first_decoder_with_key(earlier, key);
        if e >= 0 {
            assert(earlier[e] == decoders[e]);
            assert forall|j: int| 0 <= j < e implies #[trigger] decoders[j].key@ != key by {
                assert(earlier[j] == decoders[j]);
            }
        } else {
            assert forall|j: int| 0 <= j < last implies #[trigger] decoders[j].key@ != key by {
                assert(earlier[j] == decoders[j]);
            }
        }
    }
}

/// What registering `value` does to a decoder registry: an existing decoder
/// with the same key is reused, otherwise one named after its position is
/// appended.
pub open spec fn registration(
    before: Seq<ListDecoderModel>,
    value: StaticValue,
    after: Seq<ListDecoderModel>,
    ident: Seq<char>,
) -> bool {
    let key = value_key(value);
    let found = first_decoder_with_key(before, key);
    if found >= 0 {
        &&& after == before
        &&& ident == before[found].ident@
    } else {
        &&& after.len() == before.len() + 1
        &&& after.drop_last() == before
        &&& after.last().ident@ == list_decoder_ident(before.len())
        &&& after.last().value@ == value
        &&& after.last().key@ == key
        &&& ident == list_decoder_ident(before.len())
    }
}

/// A registry in which every decoder is named after its position, carries
/// the key of its own shape, and no two decoders share a key.
pub open spec fn registry_well_formed(decoders: Seq<ListDecoderModel>) -> bool {
    &&& forall|i: int|
        0 <= i < decoders.len() ==> #[trigger] decoders[i].ident@ == list_decoder_ident(i as nat)
    &&& forall|i: int|
        0 <= i < decoders.len() ==> #[trigger] decoders[i].key@ == value_key(decoders[i].value@)
    &&& forall|i: int, j: int|
        0 <= i < j < decoders.len() ==> #[trigger] decoders[i].key@ != #[trigger] decoders[j].key@
}

/// A registry as a sequence of entries: each decoder's name, key and item
/// shape.
pub open spec fn registry_model(decoders: Seq<ListDecoderModel>) -> Seq<(Seq<char>, Seq<char>, StaticValue)> {
    decoders.map_values(|decoder: ListDecoderModel| (decoder.ident@, decoder.key@, decoder.value@))
}

/// Whether some entry of `entries` carries `key`.
pub open spec fn holds_key(entries: Seq<(Seq<char>, Seq<char>, StaticValue)>, key: Seq<char>) -> bool {
    exists|j: int| 0 <= j < entries.len() && #[trigger] entries[j].1 == key
}

/// The entries after registering `value`: unchanged when its key is held,
/// else extended by a decoder named after its position.
pub open spec fn registered(
    entries: Seq<(Seq<char>, Seq<char>, StaticValue)>,
    value: StaticValue,
) -> Seq<(Seq<char>, Seq<char>, StaticValue)> {
    if holds_key(entries, value_key(value)) {
        entries
    } else {
        entries.push((list_decoder_ident(entries.len()), value_key(value), value))
    }
}

/// The entries after registering each of `values` in order.
pub open spec fn registered_all(
    entries: Seq<(Seq<char>, Seq<char>, StaticValue)>,
    values: Seq<StaticValue>,
) -> Seq<(Seq<char>, Seq<char>, StaticValue)>
    decreases values.len(),
{
    if values.len() == 0 {
        entries
    } else {
        registered(registered_all(entries, values.drop_last()), values.last())
    }
}

/// One registration, seen on the entries of the registry.
pub proof fn lemma_registration_model(
    before: Seq<ListDecoderModel>,
    value: StaticValue,
    after: Seq<ListDecoderModel>,
    ident: Seq<char>,
)
    requires
        registration(before, value, after, ident),
    ensures
        registry_model(after) == registered(registry_model(before), value),
{
    let key = value_key(value);
    lemma_first_decoder_with_key(before, key);
    let found = first_decoder_with_key(before, key);
    let entries = registry_model(before);
    if found >= 0 {
        assert(entries[found].1 == key);
    } else {
        if holds_key(entries, key) {
            let j = choose|j: int| 0 <= j < entries.len() && #[trigger] entries[j].1 == key;
            assert(before[j].key@ == key);
        }
        assert(registry_model(after) =~= entries.push((list_decoder_ident(entries.len()), key, value))) by {
            assert forall|j: int| 0 <= j < before.len() implies after[j] == before[j] by {
                assert(after.drop_last()[j] == after[j]);
            }
        }
    }
}

pub proof fn lemma_registered_all_single(
    entries: Seq<(Seq<char>, Seq<char>, StaticValue)>,
    value: StaticValue,
)
    ensures
        registered_all(entries, Seq::empty()) == entries,
        registered_all(entries, seq![value]) == registered(entries, value),
{
    assert(seq![value].drop_last() =~= Seq::<StaticValue>::empty());
    assert(registered_all(entries, Seq::<StaticValue>::empty()) == entries);
}

/// No two entries carry the same key.
pub open spec fn keys_distinct(entries: Seq<(Seq<char>, Seq<char>, StaticValue)>) -> bool {
    forall|i: int, j: int| 0 <= i < j < entries.len() ==> #[trigger] entries[i].1 != #[trigger] entries[j].1
}

/// Registering item shapes in turn leaves one decoder per distinct shape:
/// keys stay distinct, every registered shape's key is held, earlier entries
/// stay in place, and every new entry belongs to one of the shapes.
pub proof fn law_one_decoder_per_item_shape(
    entries: Seq<(Seq<char>, Seq<char>, StaticValue)>,
    values: Seq<StaticValue>,
)
    requires
        keys_distinct(entries),
    ensures
        keys_distinct(registered_all(entries, values)),
        forall|k: int| 0 <= k < values.len() ==> holds_key(registered_all(entries, values), value_key(#[trigger] values[k])),
        registered_all(entries, values).len() >= entries.len(),
        registered_all(entries, values).subrange(0, entries.len() as int) == entries,
        forall|j: int|
            entries.len() <= j < registered_all(entries, values).len() ==> values.contains(
                #[trigger] registered_all(entries, values)[j].2,
            ),
    decreases values.len(),
{
    if values.len() > 0 {
        let earlier = values.drop_last();
        law_one_decoder_per_item_shape(entries, earlier);
        let before = registered_all(entries, earlier);
        let after = registered_all(entries, values);
        let value = values.last();
        if !holds_key(before, value_key(value)) {
            assert(after == before.push((list_decoder_ident(before.len()), value_key(value), value)));
            assert forall|i: int, j: int| 0 <= i < j < after.len() implies #[trigger] after[i].1 != #[trigger] after[j].1 by {
                if j == before.len() {
                    assert(after[i] == before[i]);
                } else {
                    assert(after[i] == before[i] && after[j] == before[j]);
                }
            }
            assert(after.subrange(0, entries.len() as int) =~= before.subrange(0, entries.len() as int));
            assert(after[before.len() as int].1 == value_key(value));
        }
        assert forall|k: int| 0 <= k < values.len() implies holds_key(after, value_key(#[trigger] values[k])) by {
            if k < earlier.len() {
                assert(values[k] == earlier[k]);
                let j = choose|j: int| 0 <= j < before.len() && #[trigger] before[j].1 == value_key(earlier[k]);
                assert(after[j] == before[j]);
            } else if holds_key(before, value_key(value)) {
                assert(values[k] == value);
            } else {
                assert(after[before.len() as int].1 == value_key(values[k]));
            }
        }
        assert forall|j: int| entries.len() <= j < after.len() implies values.contains(#[trigger] after[j].2) by {
            if j < before.len() {
                assert(after[j] == before[j]);
                let k = choose|k: int| 0 <= k < earlier.len() && earlier[k] == before[j].2;
                assert(values[k] == earlier[k]);
            } else {
                assert(values[values.len() - 1] == value);
            }
        }
    } else {
        assert(entries.subrange(0, entries.len() as int) =~= entries);
    }
}

/// Registering two runs of values in turn registers their concatenation.
pub proof fn lemma_registered_all_append(
    entries: Seq<(Seq<char>, Seq<char>, StaticValue)>,
    first: Seq<StaticValue>,
    second: Seq<StaticValue>,
)
    ensures
        registered_all(entries, first + second) == registered_all(registered_all(entries, first), second),
    decreases second.len(),
{
    if second.len() == 0 {
        assert(first + second =~= first);
    } else {
        assert((first + second).drop_last() =~= first + second.drop_last());
        assert((first + second).last() == second.last());
        lemma_registered_all_append(entries, first, second.drop_last());
    }
}

/// Returns the decoder of `list`'s item shape, registering a new decoder only
/// when no decoder with the same key exists yet.
pub fn register_list_decoder(list: &CollectionType, decoders: &mut Vec<ListDecoderModel>) -> (ident:
    String)
    ensures
        registration(old(decoders)@, list.value@, final(decoders)@, ident@),
{
    let key = static_value_key(&list.value);
    proof {
        lemma_first_decoder_with_key(decoders@, key@);
    }
    let mut i: usize = 0;
    while i < decoders.len()
        invariant
            i <= decoders.len(),
            forall|j: int| 0 <= j < i ==> #[trigger] decoders@[j].key@ != key@,
            key@ == value_key(list.value@),
            decoders@ == old(decoders)@,
        decreases decoders.len() - i,
    {
        if decoders[i].key == key {
            proof {
                lemma_first_decoder_with_key(decoders@, key@);
                let found = first_decoder_with_key(decoders@, key@);
                assert(decoders@[i as int].key@ == key@);
                assert(found >= 0);
                if found < i {
                    assert(decoders@[found].key@ != key@);
                }
                if found > i {
                    assert(decoders@[i as int].key@ != key@);
                }
            }
            return decoders[i].ident.clone();
        }
        i = i + 1;
    }
    let index = decoders.len();
    let mut ident = String::new();
    ident.append("__GeamListDecoder");
    push_decimal(&mut ident, index);
    let ghost before = decoders@;
    decoders.push(ListDecoderModel { ident: ident.clone(), value: list.value.duplicate(), key });
    assert(decoders@.drop_last() =~= before);
    ident
}


/// Registration keeps a well-formed registry well-formed: positional names,
/// keys that match their shapes, and no key registered twice.
pub proof fn law_registration_keeps_registry_well_formed(
    before: Seq<ListDecoderModel>,
    value: StaticValue,
    after: Seq<ListDecoderModel>,
    ident: Seq<char>,
)
    requires
        registry_well_formed(before),
        registration(before, value, after, ident),
    ensures
        registry_well_formed(after),
{
    lemma_first_decoder_with_key(before, value_key(value));
    if first_decoder_with_key(before, value_key(value)) < 0 {
        assert forall|i: int| 0 <= i < before.len() implies #[trigger] after[i] == before[i] by {
            assert(after.drop_last()[i] == after[i]);
        }
        assert forall|i: int, j: int| 0 <= i < j < after.len() implies #[trigger] after[i].key@
            != #[trigger] after[j].key@ by {
            if j == after.len() - 1 {
                assert(after[i] == before[i]);
            } else {
                assert(after[i] == before[i]);
                assert(after[j] == before[j]);
            }
        }
    }
}

/// After registration, the returned decoder is the registry's decoder for the
/// value's key.
pub proof fn law_registration_returns_the_decoder_of_the_key(
    before: Seq<ListDecoderModel>,
    value: StaticValue,
    after: Seq<ListDecoderModel>,
    ident: Seq<char>,
)
    requires
        registration(before, value, after, ident),
    ensures
        exists|i: int|
            0 <= i < after.len() && #[trigger] after[i].key@ == value_key(value) && after[i].ident@
                == ident,
{
    lemma_first_decoder_with_key(before, value_key(value));
    let found = first_decoder_with_key(before, value_key(value));
    if found >= 0 {
        assert(after[found].key@ == value_key(value));
    } else {
        assert(after[after.len() - 1].key@ == value_key(value));
    }
}

/// Registering two shapes with the same key one after the other registers one
/// decoder and hands out its identifier both times.
pub proof fn law_registration_deduplicates_equal_keys(
    first: Seq<ListDecoderModel>,
    value: StaticValue,
    second: Seq<ListDecoderModel>,
    ident: Seq<char>,
    same: StaticValue,
    third: Seq<ListDecoderModel>,
    again: Seq<char>,
)
    requires
        registration(first, value, second, ident),
        value_key(same) == value_key(value),
        registration(second, same, third, again),
    ensures
        third == second,
        again == ident,
{
    let key = value_key(value);
    lemma_first_decoder_with_key(first, key);
    lemma_first_decoder_with_key(second, key);
    let found = first_decoder_with_key(first, key);
    let found_again = first_decoder_with_key(second, key);
    if found >= 0 {
        assert(second == first);
    } else {
        let last = second.len() - 1;
        assert(second[last].key@ == key);
        assert forall|j: int| 0 <= j < last implies #[trigger] second[j].key@ != key by {
            assert(second.drop_last()[j] == second[j]);
        }
        assert(found_again == last);
    }
}

} // verus!
