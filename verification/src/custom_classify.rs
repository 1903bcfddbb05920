use crate::custom_headers::{CustomHeader, HeaderKey, header_keys};
use crate::diagnostic::{Diagnostic, diagnostic};
use crate::custom_value::{CustomModel, value_dependencies, values_dependencies};
use crate::declarations::option_text;
use crate::list_model::{StaticValue, StaticValueType, static_values_model};
use vstd::prelude::*;

verus! {

/// The external declaration that a type names: its payload type, schema and
/// store field.
pub struct ExternalNames {
    pub payload: String,
    pub schema: String,
    pub store_field: String,
}

/// What the module's type helpers report of a `Result` or `Option` wrapper.
pub enum WrapperFacts {
    Result { success: Box<TypeFacts>, failure: Box<TypeFacts> },
    Option { value: Box<TypeFacts> },
    Other,
}

/// A field type of a custom declaration, as far as its classification reads
/// it: its token text; whether it is a reference, a `List` or a `Vec`; the item
/// of a `Vec` (or the message that rejects its form); its `Result` or
/// `Option` wrapper (or the message that rejects it); the external
/// declaration it names; the identifier it consists of, if it is a plain
/// one-segment path; the elements of a non-empty tuple; and whether it is a
/// qualified path.
pub struct TypeFacts {
    pub text: String,
    pub is_reference: bool,
    pub is_list: bool,
    pub is_vec: bool,
    pub vec_item: Result<Option<Box<TypeFacts>>, String>,
    pub wrapper: Result<WrapperFacts, String>,
    pub external: Option<ExternalNames>,
    pub path_ident: Option<String>,
    pub elements: Vec<TypeFacts>,
    pub qualified: bool,
}

/// The first custom declaration named `ident`, from position `from` on.
pub open spec fn output_header(headers: Seq<HeaderKey>, ident: Seq<char>, from: int) -> Option<nat>
    decreases headers.len() - from,
{
    if from < 0 || from >= headers.len() {
        None
    } else if headers[from].0 == ident {
        Some(from as nat)
    } else {
        output_header(headers, ident, from + 1)
    }
}

/// The first custom declaration whose generated input type is `ident`, from
/// position `from` on.
pub open spec fn input_header(headers: Seq<HeaderKey>, ident: Seq<char>, from: int) -> Option<nat>
    decreases headers.len() - from,
{
    if from < 0 || from >= headers.len() {
        None
    } else if headers[from].1 == Some(ident) {
        Some(from as nat)
    } else {
        input_header(headers, ident, from + 1)
    }
}

/// The message that rejects a custom input type stored in an output.
pub open spec fn stored_input_message(header: HeaderKey) -> Seq<char> {
    "custom input `"@ + match header.1 {
        Some(input) => input,
        None => Seq::empty(),
    } + "` cannot be stored in an output; use `"@ + header.0 + "`"@
}

/// The value shape of a custom field type, or the message that rejects it.
pub open spec fn classified_value(facts: TypeFacts, headers: Seq<HeaderKey>) -> Result<
    StaticValue,
    Seq<char>,
>
    decreases facts,
{
    if facts.is_reference {
        Err("custom output fields must be owned values"@)
    } else if facts.is_list || facts.is_vec {
        Err("List values are not supported inside custom tuple fields"@)
    } else {
        match facts.wrapper {
            Err(message) => Err(message@),
            Ok(WrapperFacts::Result { success, failure }) => match classified_value(*success, headers) {
                Err(message) => Err(message),
                Ok(success) => match classified_value(*failure, headers) {
                    Err(message) => Err(message),
                    Ok(failure) => Ok(StaticValue::Result(Box::new(success), Box::new(failure))),
                },
            },
            Ok(WrapperFacts::Option { value }) => match classified_value(*value, headers) {
                Err(message) => Err(message),
                Ok(value) => Ok(StaticValue::Option(Box::new(value))),
            },
            Ok(WrapperFacts::Other) => match facts.external {
                Some(external) => Ok(
                    StaticValue::External {
                        payload: external.payload@,
                        schema: external.schema@,
                        store_field: external.store_field@,
                    },
                ),
                None => {
                    let output = match facts.path_ident {
                        Some(ident) => output_header(headers, ident@, 0),
                        None => None,
                    };
                    let input = match facts.path_ident {
                        Some(ident) => input_header(headers, ident@, 0),
                        None => None,
                    };
                    if output is Some {
                        Ok(StaticValue::Custom(output->0))
                    } else if input is Some {
                        Err(stored_input_message(headers[input->0 as int]))
                    } else if facts.elements@.len() > 0 {
                        match classified_values(facts.elements@, headers) {
                            Err(message) => Err(message),
                            Ok(elements) => Ok(StaticValue::Tuple(elements)),
                        }
                    } else if facts.qualified {
                        Ok(StaticValue::Declared(facts.text@))
                    } else {
                        Ok(StaticValue::Scalar(facts.text@))
                    }
                },
            },
        }
    }
}

/// The value shapes of `elements` in order, or the first rejection.
pub open spec fn classified_values(elements: Seq<TypeFacts>, headers: Seq<HeaderKey>) -> Result<
    Seq<StaticValue>,
    Seq<char>,
>
    decreases elements,
{
    if elements.len() == 0 {
        Ok(Seq::empty())
    } else {
        match classified_values(elements.drop_last(), headers) {
            Err(message) => Err(message),
            Ok(earlier) => match classified_value(elements.last(), headers) {
                Err(message) => Err(message),
                Ok(last) => Ok(earlier.push(last)),
            },
        }
    }
}

proof fn lemma_header_in_range(headers: Seq<HeaderKey>, ident: Seq<char>, from: int)
    requires
        0 <= from,
    ensures
        output_header(headers, ident, from) matches Some(index) ==> from <= index < headers.len(),
        input_header(headers, ident, from) matches Some(index) ==> from <= index < headers.len()
            && headers[index as int].1 is Some,
    decreases headers.len() - from,
{
    if from < headers.len() {
        lemma_header_in_range(headers, ident, from + 1);
    }
}

fn find_output_header(headers: &[CustomHeader], ident: &String) -> (found: Option<usize>)
    ensures
        match output_header(header_keys(headers@), ident@, 0) {
            Some(index) => found == Some(index as usize),
            None => found is None,
        },
{
    let mut i: usize = 0;
    while i < headers.len()
        invariant
            i <= header_keys(headers@).len(),
            output_header(header_keys(headers@), ident@, 0) == output_header(
                header_keys(headers@),
                ident@,
                i as int,
            ),
        decreases headers.len() - i,
    {
        if headers[i].ident == *ident {
            return Some(i);
        }
        i = i + 1;
    }
    None
}

fn find_input_header(headers: &[CustomHeader], ident: &String) -> (found: Option<usize>)
    ensures
        match input_header(header_keys(headers@), ident@, 0) {
            Some(index) => found == Some(index as usize),
            None => found is None,
        },
{
    let mut i: usize = 0;
    while i < headers.len()
        invariant
            i <= header_keys(headers@).len(),
            input_header(header_keys(headers@), ident@, 0) == input_header(
                header_keys(headers@),
                ident@,
                i as int,
            ),
        decreases headers.len() - i,
    {
        match &headers[i].input {
            Some(input) => {
                if *input == *ident {
                    return Some(i);
                }
            },
            None => {},
        }
        i = i + 1;
    }
    None
}

/// A rejection among the first `count` elements rejects them all with its
/// message.
proof fn lemma_values_rejection_stays(elements: Seq<TypeFacts>, count: int, headers: Seq<HeaderKey>)
    requires
        0 <= count <= elements.len(),
        classified_values(elements.take(count), headers) is Err,
    ensures
        classified_values(elements, headers) == classified_values(elements.take(count), headers),
    decreases elements.len(),
{
    if count < elements.len() {
        assert(elements.drop_last().take(count) =~= elements.take(count));
        lemma_values_rejection_stays(elements.drop_last(), count, headers);
    } else {
        assert(elements.take(count) =~= elements);
    }
}

/// Classifies a field type of a custom declaration: references, Lists and
/// Vecs are rejected; `Result` and `Option` wrap the classes of their
/// arguments; then in turn an external declaration, a custom declaration
/// named by its identifier, a tuple of classified elements, a qualified path
/// (a declared type) or any other type (a scalar). A custom input type named
/// here is rejected.
pub fn classify_custom_value(facts: &TypeFacts, headers: &[CustomHeader]) -> (result: Result<
    StaticValueType,
    Diagnostic,
>)
    ensures
        match classified_value(*facts, header_keys(headers@)) {
            Ok(value) => result matches Ok(found) && found@ == value,
            Err(message) => result matches Err(error) && error.message@ == message,
        },
    decreases facts,
{
    if facts.is_reference {
        return Err(diagnostic("custom output fields must be owned values"));
    }
    if facts.is_list || facts.is_vec {
        return Err(diagnostic("List values are not supported inside custom tuple fields"));
    }
    match &facts.wrapper {
        Err(message) => Err(Diagnostic { message: message.clone() }),
        Ok(WrapperFacts::Result { success, failure }) => {
            let success = match classify_custom_value(success, headers) {
                Ok(value) => value,
                Err(error) => {
                    return Err(error);
                },
            };
            let failure = match classify_custom_value(failure, headers) {
                Ok(value) => value,
                Err(error) => {
                    return Err(error);
                },
            };
            Ok(StaticValueType::Result { success: Box::new(success), failure: Box::new(failure) })
        },
        Ok(WrapperFacts::Option { value }) => {
            let value = match classify_custom_value(value, headers) {
                Ok(value) => value,
                Err(error) => {
                    return Err(error);
                },
            };
            Ok(StaticValueType::Option { value: Box::new(value) })
        },
        Ok(WrapperFacts::Other) => match &facts.external {
            Some(external) => Ok(
                StaticValueType::External {
                    payload: external.payload.clone(),
                    schema: external.schema.clone(),
                    store_field: external.store_field.clone(),
                },
            ),
            None => {
                let output = match &facts.path_ident {
                    Some(ident) => find_output_header(headers, ident),
                    None => None,
                };
                let input = match &facts.path_ident {
                    Some(ident) => find_input_header(headers, ident),
                    None => None,
                };
                let count = headers.len();
                proof {
                    assert(header_keys(headers@).len() == count);
                    if facts.path_ident is Some {
                        lemma_header_in_range(header_keys(headers@), facts.path_ident->0@, 0);
                    }
                }
                if let Some(index) = output {
                    assert(classified_value(*facts, header_keys(headers@)) == Ok::<StaticValue, Seq<char>>(
                        StaticValue::Custom(index as nat),
                    ));
                    return Ok(StaticValueType::Custom { index });
                }
                if let Some(index) = input {
                    let header = &headers[index];
                    let mut message = String::new();
                    message.append("custom input `");
                    match &header.input {
                        Some(input) => message.append(input.as_str()),
                        None => {},
                    }
                    message.append("` cannot be stored in an output; use `");
                    message.append(header.ident.as_str());
                    message.append("`");
                    return Err(Diagnostic { message });
                }
                if facts.elements.len() > 0 {
                    let mut values: Vec<StaticValueType> = Vec::new();
                    let mut i: usize = 0;
                    assert(facts.elements@.take(0) =~= Seq::<TypeFacts>::empty());
                    assert(static_values_model(values@) =~= Seq::<StaticValue>::empty());
                    let ghost whole = match classified_values(facts.elements@, header_keys(headers@)) {
                        Err(message) => Err(message),
                        Ok(elements) => Ok(StaticValue::Tuple(elements)),
                    };
                    assert(classified_value(*facts, header_keys(headers@)) == whole);
                    while i < facts.elements.len()
                        invariant
                            i <= facts.elements@.len(),
                            classified_value(*facts, header_keys(headers@)) == whole,
                            whole == match classified_values(facts.elements@, header_keys(headers@)) {
                                Err(message) => Err(message),
                                Ok(elements) => Ok(StaticValue::Tuple(elements)),
                            },
                            classified_values(facts.elements@.take(i as int), header_keys(headers@)) == Ok::<
                                Seq<StaticValue>,
                                Seq<char>,
                            >(static_values_model(values@)),
                        decreases facts.elements.len() - i,
                    {
                        proof {
                            vstd::std_specs::vec::axiom_vec_index_decreases(facts.elements, i as int);
                            assert(decreases_to!(*facts => facts.elements));
                            assert(facts.elements@.take(i + 1).drop_last() =~= facts.elements@.take(
                                i as int,
                            ));
                            assert(facts.elements@.take(i + 1).last() == facts.elements@[i as int]);
                        }
                        match classify_custom_value(&facts.elements[i], headers) {
                            Ok(value) => {
                                let ghost before = values@;
                                values.push(value);
                                assert(values@.drop_last() =~= before);
                            },
                            Err(error) => {
                                proof {
                                    let done = facts.elements@.take(i as int);
                                    let next = facts.elements@.take(i + 1);
                                    assert(next.drop_last() == done);
                                    assert(classified_value(next.last(), header_keys(headers@)) == Err::<
                                        StaticValue,
                                        Seq<char>,
                                    >(error.message@));
                                    assert(classified_values(next, header_keys(headers@)) == Err::<
                                        Seq<StaticValue>,
                                        Seq<char>,
                                    >(error.message@));
                                    lemma_values_rejection_stays(facts.elements@, i + 1, header_keys(headers@));
                                    assert(classified_values(facts.elements@, header_keys(headers@)) == Err::<
                                        Seq<StaticValue>,
                                        Seq<char>,
                                    >(error.message@));
                                }
                                return Err(error);
                            },
                        }
                        i = i + 1;
                    }
                    assert(facts.elements@.take(facts.elements.len() as int) =~= facts.elements@);
                    Ok(StaticValueType::Tuple(values))
                } else if facts.qualified {
                    Ok(StaticValueType::Declared { type_: facts.text.clone() })
                } else {
                    Ok(StaticValueType::Scalar(facts.text.clone()))
                }
            },
        },
    }
}

/// Every declaration that `dependencies` names is among the first `count`.
pub open spec fn names_below(dependencies: Seq<nat>, count: nat) -> bool {
    forall|k: int| 0 <= k < dependencies.len() ==> #[trigger] dependencies[k] < count
}

pub proof fn lemma_names_below_append(first: Seq<nat>, second: Seq<nat>, count: nat)
    requires
        names_below(first, count),
        names_below(second, count),
    ensures
        names_below(first + second, count),
{
    assert forall|k: int| 0 <= k < (first + second).len() implies #[trigger] (first + second)[k]
        < count by {
        if k < first.len() {
            assert((first + second)[k] == first[k]);
        } else {
            assert((first + second)[k] == second[k - first.len()]);
        }
    }
}

/// A classified value names only declarations that have headers.
pub proof fn lemma_classified_value_names(facts: TypeFacts, headers: Seq<HeaderKey>)
    ensures
        classified_value(facts, headers) matches Ok(value) ==> names_below(
            value_dependencies(value),
            headers.len(),
        ),
    decreases facts,
{
    if !facts.is_reference && !facts.is_list && !facts.is_vec {
        match facts.wrapper {
            Ok(WrapperFacts::Result { success, failure }) => {
                lemma_classified_value_names(*success, headers);
                lemma_classified_value_names(*failure, headers);
                if classified_value(facts, headers) is Ok {
                    let s = classified_value(*success, headers)->Ok_0;
                    let f = classified_value(*failure, headers)->Ok_0;
                    lemma_names_below_append(value_dependencies(s), value_dependencies(f), headers.len());
                }
            },
            Ok(WrapperFacts::Option { value }) => {
                lemma_classified_value_names(*value, headers);
            },
            Ok(WrapperFacts::Other) => {
                if facts.external is None {
                    if facts.path_ident is Some {
                        lemma_header_in_range(headers, facts.path_ident->0@, 0);
                    }
                    lemma_classified_values_names(facts.elements@, headers);
                }
            },
            Err(_) => {},
        }
    }
}

pub proof fn lemma_classified_values_names(elements: Seq<TypeFacts>, headers: Seq<HeaderKey>)
    ensures
        classified_values(elements, headers) matches Ok(values) ==> names_below(
            values_dependencies(values),
            headers.len(),
        ),
    decreases elements,
{
    if elements.len() > 0 {
        lemma_classified_values_names(elements.drop_last(), headers);
        lemma_classified_value_names(elements.last(), headers);
        if classified_values(elements, headers) is Ok {
            let earlier = classified_values(elements.drop_last(), headers)->Ok_0;
            let last = classified_value(elements.last(), headers)->Ok_0;
            assert(earlier.push(last).drop_last() =~= earlier);
            lemma_names_below_append(
                values_dependencies(earlier),
                value_dependencies(last),
                headers.len(),
            );
        }
    }
}

/// How field types refer to built custom declarations.
pub open spec fn model_keys(customs: Seq<CustomModel>) -> Seq<HeaderKey> {
    customs.map_values(|custom: CustomModel| (custom.ident@, option_text(custom.input)))
}

/// The first custom declaration that a plain one-segment type path names,
/// if any.
pub fn custom_output_type_with_index(path_ident: &Option<String>, customs: &[CustomModel]) -> (found:
    Option<usize>)
    ensures
        match *path_ident {
            None => found is None,
            Some(ident) => match output_header(model_keys(customs@), ident@, 0) {
                Some(index) => found == Some(index as usize),
                None => found is None,
            },
        },
{
    match path_ident {
        None => None,
        Some(ident) => {
            let mut i: usize = 0;
            while i < customs.len()
                invariant
                    i <= customs@.len(),
                    *path_ident == Some(*ident),
                    output_header(model_keys(customs@), ident@, 0) == output_header(
                        model_keys(customs@),
                        ident@,
                        i as int,
                    ),
                decreases customs.len() - i,
            {
                if customs[i].ident == *ident {
                    return Some(i);
                }
                i = i + 1;
            }
            None
        },
    }
}

/// The first custom declaration whose generated input type a plain
/// one-segment type path names, if any.
pub fn custom_input_model(path_ident: &Option<String>, customs: &[CustomModel]) -> (found: Option<usize>)
    ensures
        match *path_ident {
            None => found is None,
            Some(ident) => match input_header(model_keys(customs@), ident@, 0) {
                Some(index) => found == Some(index as usize),
                None => found is None,
            },
        },
{
    match path_ident {
        None => None,
        Some(ident) => {
            let mut i: usize = 0;
            while i < customs.len()
                invariant
                    i <= customs@.len(),
                    *path_ident == Some(*ident),
                    input_header(model_keys(customs@), ident@, 0) == input_header(
                        model_keys(customs@),
                        ident@,
                        i as int,
                    ),
                decreases customs.len() - i,
            {
                match &customs[i].input {
                    Some(input) => {
                        if *input == *ident {
                            assert(model_keys(customs@)[i as int].1 == Some(ident@));
                            return Some(i);
                        }
                    },
                    None => {},
                }
                i = i + 1;
            }
            None
        },
    }
}

/// `value` models `facts` node by node, and no node it models is a `Vec` or
/// a `List`: an `Option` or `Result` value models the type's wrapped parts,
/// a tuple value models the type's elements.
pub open spec fn models_without_collections(facts: TypeFacts, value: StaticValue) -> bool
    decreases facts,
{
    &&& !facts.is_vec
    &&& !facts.is_list
    &&& match value {
        StaticValue::Option(inner) => match facts.wrapper {
            Ok(WrapperFacts::Option { value: wrapped }) => models_without_collections(*wrapped, *inner),
            _ => false,
        },
        StaticValue::Result(success, failure) => match facts.wrapper {
            Ok(WrapperFacts::Result { success: wrapped_success, failure: wrapped_failure }) => {
                &&& models_without_collections(*wrapped_success, *success)
                &&& models_without_collections(*wrapped_failure, *failure)
            },
            _ => false,
        },
        StaticValue::Tuple(values) => all_model_without_collections(facts.elements@, values),
        _ => true,
    }
}

pub open spec fn all_model_without_collections(elements: Seq<TypeFacts>, values: Seq<StaticValue>) -> bool
    decreases elements,
{
    &&& elements.len() == values.len()
    &&& elements.len() > 0 ==> {
        &&& all_model_without_collections(elements.drop_last(), values.drop_last())
        &&& models_without_collections(elements.last(), values.last())
    }
}

/// No classified value models a `Vec` or `List` type, at the top or inside
/// a tuple, `Result` or `Option`: an owned `Vec` or `List` type is rejected
/// with the message for List values in custom fields, and every node of an
/// accepted value models a node of the type that is neither.
pub proof fn law_collections_are_never_classified_as_values(facts: TypeFacts, headers: Seq<HeaderKey>)
    ensures
        !facts.is_reference && (facts.is_vec || facts.is_list) ==> classified_value(facts, headers)
            == Err::<StaticValue, Seq<char>>("List values are not supported inside custom tuple fields"@),
        classified_value(facts, headers) matches Ok(value) ==> models_without_collections(facts, value),
    decreases facts,
{
    if !facts.is_reference && !facts.is_list && !facts.is_vec {
        match facts.wrapper {
            Ok(WrapperFacts::Result { success, failure }) => {
                law_collections_are_never_classified_as_values(*success, headers);
                law_collections_are_never_classified_as_values(*failure, headers);
            },
            Ok(WrapperFacts::Option { value }) => {
                law_collections_are_never_classified_as_values(*value, headers);
            },
            Ok(WrapperFacts::Other) => {
                lemma_classified_elements_without_collections(facts.elements@, headers);
            },
            Err(_) => {},
        }
    }
}

proof fn lemma_classified_elements_without_collections(elements: Seq<TypeFacts>, headers: Seq<HeaderKey>)
    ensures
        classified_values(elements, headers) matches Ok(values) ==> all_model_without_collections(
            elements,
            values,
        ),
    decreases elements,
{
    if elements.len() > 0 {
        lemma_classified_elements_without_collections(elements.drop_last(), headers);
        law_collections_are_never_classified_as_values(elements.last(), headers);
        if classified_values(elements, headers) is Ok {
            let values = classified_values(elements, headers)->Ok_0;
            let earlier = classified_values(elements.drop_last(), headers)->Ok_0;
            assert(values.drop_last() =~= earlier);
        }
    }
}

} // verus!
