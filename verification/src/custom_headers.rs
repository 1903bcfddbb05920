use crate::custom_build::VariantFacts;
use crate::custom_cycles::{
    cycle_message, dependency_graph, first_cycle, graph_well_formed, has_cycle, is_cycle,
    validate_custom_cycles,
};
use crate::custom_value::{CustomModel, has_inputs, input_decoder_values, register_custom_list_decoders};
use crate::list_model::{
    ListDecoderModel, StaticValue, registered_all, registry_model, registry_well_formed, value_key,
};
use crate::attributes::{AttributeModel, custom_marker_of, non_markers, take_custom_marker};
use crate::declarations::{
    CustomEnumShape, custom_shape_error, option_text, register_custom_names, validate_custom,
};
use crate::diagnostic::Diagnostic;
use crate::generics::texts;
use crate::identifiers::{custom_decoder, custom_decoder_name, custom_schema, custom_schema_name};
use crate::item::ItemKind;
use crate::tokens::{unraw, unraw_text};
use vstd::prelude::*;

verus! {

/// An item of a module as the custom declaration pass reads it: its kind,
/// its name as written (a raw identifier keeps its `r#`; its source name is
/// the name without it), its visibility as token text,
/// its attributes and, for an enum, the shape that the custom rules check and
/// its constructors.
pub struct CustomEnumItem {
    pub kind: ItemKind,
    pub name: String,
    pub visibility: String,
    pub attributes: Vec<AttributeModel>,
    pub shape: CustomEnumShape,
    pub variants: Vec<VariantFacts>,
}

/// An accepted `#[geam::custom]` enum: its name, generated input type,
/// visibility, the schema type and decoder function generated for it, and
/// the position of its item in the module.
pub struct CustomHeader {
    pub ident: String,
    pub input: Option<String>,
    pub visibility: String,
    pub schema: String,
    pub decoder: String,
    pub item: usize,
}

/// A header as the pass computes it: name, generated input, visibility and
/// item position.
pub type HeaderModel = (Seq<char>, Option<Seq<char>>, Seq<char>, nat);

/// How field types refer to a custom declaration: by its name, or by its
/// generated input type.
pub type HeaderKey = (Seq<char>, Option<Seq<char>>);

pub open spec fn header_keys(headers: Seq<CustomHeader>) -> Seq<HeaderKey> {
    headers.map_values(|header: CustomHeader| (header.ident@, option_text(header.input)))
}

/// The naming rules of one custom declaration as a function: the source and
/// generated input names after it, or the message that rejects it. The
/// generated input type is named without its `r#`.
pub open spec fn custom_names_step(
    name: Seq<char>,
    input: Option<Seq<char>>,
    provider_type_names: Seq<Seq<char>>,
    sources: Seq<Seq<char>>,
    inputs: Seq<Seq<char>>,
) -> Result<(Seq<Seq<char>>, Seq<Seq<char>>), Seq<char>> {
    if sources.contains(name) {
        Err("duplicate source type `"@ + name + "`"@)
    } else {
        match input {
            None => Ok((sources.push(name), inputs)),
            Some(input) => {
                let input = unraw(input);
                if provider_type_names.contains(input) {
                    Err(
                        "generated custom input type `"@ + input
                            + "` conflicts with provider value type `"@ + input + "`"@,
                    )
                } else if inputs.contains(input) {
                    Err("duplicate generated input type `"@ + input + "`"@)
                } else {
                    Ok((sources.push(name), inputs.push(input)))
                }
            },
        }
    }
}

/// The headers of the custom declarations among `items`, with the source and
/// generated input names after them,
/// or the first rejection: a malformed marker, a malformed enum, or a name
/// taken before.
pub open spec fn custom_headers_after(
    items: Seq<CustomEnumItem>,
    provider_type_names: Seq<Seq<char>>,
    sources: Seq<Seq<char>>,
    inputs: Seq<Seq<char>>,
) -> Result<
    (Seq<HeaderModel>, Seq<Seq<char>>, Seq<Seq<char>>),
    Seq<char>,
>
    decreases items.len(),
{
    if items.len() == 0 {
        Ok((Seq::empty(), sources, inputs))
    } else {
        match custom_headers_after(items.drop_last(), provider_type_names, sources, inputs) {
            Err(message) => Err(message),
            Ok((headers, sources, inputs)) => {
                let item = items.last();
                if item.kind != ItemKind::Enum {
                    Ok((headers, sources, inputs))
                } else {
                    match custom_marker_of(item.attributes@) {
                        Err(message) => Err(message),
                        Ok(None) => Ok((headers, sources, inputs)),
                        Ok(Some(input)) => match custom_shape_error(item.shape) {
                            Some(message) => Err(message),
                            None => match custom_names_step(
                                unraw(item.name@),
                                input,
                                provider_type_names,
                                sources,
                                inputs,
                            ) {
                                Err(message) => Err(message),
                                Ok((sources, inputs)) => Ok(
                                    (
                                        headers.push(
                                            (item.name@, input, item.visibility@, (items.len() - 1) as nat),
                                        ),
                                        sources,
                                        inputs,
                                    ),
                                ),
                            },
                        },
                    }
                }
            },
        }
    }
}

/// The source and generated input names after the naming rules of one
/// declaration, accepted or rejected: a repeated source name changes
/// nothing; otherwise the source name is recorded, and the generated input
/// name too when it is accepted.
pub open spec fn custom_names_after(
    name: Seq<char>,
    input: Option<Seq<char>>,
    provider_type_names: Seq<Seq<char>>,
    sources: Seq<Seq<char>>,
    inputs: Seq<Seq<char>>,
) -> (Seq<Seq<char>>, Seq<Seq<char>>) {
    match custom_names_step(name, input, provider_type_names, sources, inputs) {
        Ok(names) => names,
        Err(_) => if sources.contains(name) {
            (sources, inputs)
        } else {
            (sources.push(name), inputs)
        },
    }
}

/// Where a rejected pass stops: the position of the rejected item, whether
/// its marker was the rejected part, and the source and generated input
/// names at that point.
pub open spec fn headers_rejection(
    items: Seq<CustomEnumItem>,
    provider_type_names: Seq<Seq<char>>,
    sources: Seq<Seq<char>>,
    inputs: Seq<Seq<char>>,
) -> (nat, bool, Seq<Seq<char>>, Seq<Seq<char>>)
    decreases items.len(),
{
    if items.len() == 0 {
        (0, false, sources, inputs)
    } else {
        match custom_headers_after(items.drop_last(), provider_type_names, sources, inputs) {
            Err(_) => headers_rejection(items.drop_last(), provider_type_names, sources, inputs),
            Ok((_, earlier_sources, earlier_inputs)) => {
                let item = items.last();
                let position = (items.len() - 1) as nat;
                match custom_marker_of(item.attributes@) {
                    Err(_) => (position, true, earlier_sources, earlier_inputs),
                    Ok(Some(input)) => if custom_shape_error(item.shape) is Some {
                        (position, false, earlier_sources, earlier_inputs)
                    } else {
                        let names = custom_names_after(
                            unraw(item.name@),
                            input,
                            provider_type_names,
                            earlier_sources,
                            earlier_inputs,
                        );
                        (position, false, names.0, names.1)
                    },
                    Ok(None) => (position, false, earlier_sources, earlier_inputs),
                }
            },
        }
    }
}

/// The rejected item after the pass: its marker's attributes are gone, all
/// of them when the marker itself was rejected; every other part stays.
pub open spec fn rejected_item_after(
    before: CustomEnumItem,
    after: CustomEnumItem,
    marker_rejected: bool,
) -> bool {
    &&& after.kind == before.kind
    &&& after.name == before.name
    &&& after.visibility == before.visibility
    &&& after.shape == before.shape
    &&& after.variants == before.variants
    &&& after.attributes@ == if marker_rejected {
        Seq::empty()
    } else {
        non_markers(before.attributes@)
    }
}

/// The items and names after a rejected pass: the items before the rejected
/// one lost their markers, the rejected one as `rejected_item_after` says,
/// the later ones are untouched.
pub open spec fn rejected_pass(
    before: Seq<CustomEnumItem>,
    after: Seq<CustomEnumItem>,
    provider_type_names: Seq<Seq<char>>,
    sources: Seq<Seq<char>>,
    inputs: Seq<Seq<char>>,
    final_sources: Seq<Seq<char>>,
    final_inputs: Seq<Seq<char>>,
) -> bool {
    let (at, marker_rejected, rejected_sources, rejected_inputs) = headers_rejection(
        before,
        provider_type_names,
        sources,
        inputs,
    );
    &&& final_sources == rejected_sources
    &&& final_inputs == rejected_inputs
    &&& after.len() == before.len()
    &&& at < before.len()
    &&& forall|j: int| 0 <= j < at ==> item_after_pass(#[trigger] before[j], after[j])
    &&& forall|j: int| at < j < before.len() ==> #[trigger] after[j] == before[j]
    &&& rejected_item_after(before[at as int], after[at as int], marker_rejected)
}

/// A pass rejected within the first `count` items stops where that shorter
/// pass stops.
proof fn lemma_rejection_point_stays(
    items: Seq<CustomEnumItem>,
    count: int,
    provider_type_names: Seq<Seq<char>>,
    sources: Seq<Seq<char>>,
    inputs: Seq<Seq<char>>,
)
    requires
        0 <= count <= items.len(),
        custom_headers_after(items.take(count), provider_type_names, sources, inputs) is Err,
    ensures
        headers_rejection(items, provider_type_names, sources, inputs) == headers_rejection(
            items.take(count),
            provider_type_names,
            sources,
            inputs,
        ),
    decreases items.len(),
{
    if count < items.len() {
        assert(items.drop_last().take(count) =~= items.take(count));
        lemma_rejection_point_stays(items.drop_last(), count, provider_type_names, sources, inputs);
        lemma_rejection_stays(items.drop_last(), count, provider_type_names, sources, inputs);
    } else {
        assert(items.take(count) =~= items);
    }
}

proof fn lemma_rejection_position(
    items: Seq<CustomEnumItem>,
    provider_type_names: Seq<Seq<char>>,
    sources: Seq<Seq<char>>,
    inputs: Seq<Seq<char>>,
)
    requires
        items.len() > 0,
    ensures
        headers_rejection(items, provider_type_names, sources, inputs).0 < items.len(),
    decreases items.len(),
{
    if items.len() > 1 {
        lemma_rejection_position(items.drop_last(), provider_type_names, sources, inputs);
    }
}

/// A rejection of the first `count` items rejects them all with its message.
proof fn lemma_rejection_stays(
    items: Seq<CustomEnumItem>,
    count: int,
    provider_type_names: Seq<Seq<char>>,
    sources: Seq<Seq<char>>,
    inputs: Seq<Seq<char>>,
)
    requires
        0 <= count <= items.len(),
        custom_headers_after(items.take(count), provider_type_names, sources, inputs) is Err,
    ensures
        custom_headers_after(items, provider_type_names, sources, inputs) == custom_headers_after(
            items.take(count),
            provider_type_names,
            sources,
            inputs,
        ),
    decreases items.len(),
{
    if count < items.len() {
        assert(items.drop_last().take(count) =~= items.take(count));
        lemma_rejection_stays(items.drop_last(), count, provider_type_names, sources, inputs);
    } else {
        assert(items.take(count) =~= items);
    }
}

pub open spec fn header_model(header: CustomHeader) -> HeaderModel {
    (header.ident@, option_text(header.input), header.visibility@, header.item as nat)
}

/// Each header is the model of its declaration, and the `index`-th carries
/// the schema and decoder names of index `index`.
pub open spec fn headers_match(
    headers: Seq<CustomHeader>,
    models: Seq<HeaderModel>,
) -> bool {
    &&& headers.len() == models.len()
    &&& forall|i: int|
        0 <= i < headers.len() ==> header_model(#[trigger] headers[i]) == models[i]
            && headers[i].schema@ == custom_schema_name(i as nat) && headers[i].decoder@
            == custom_decoder_name(i as nat)
}

/// An item after the pass: an enum loses its `custom` markers, every other
/// part stays.
pub open spec fn item_after_pass(before: CustomEnumItem, after: CustomEnumItem) -> bool {
    &&& after.kind == before.kind
    &&& after.name == before.name
    &&& after.visibility == before.visibility
    &&& after.shape == before.shape
    &&& after.variants == before.variants
    &&& after.attributes@ == if before.kind == ItemKind::Enum {
        non_markers(before.attributes@)
    } else {
        before.attributes@
    }
}

/// Reads the `#[geam::custom]` enums of a module in item order: takes each
/// enum's marker, checks the enum's shape and names, and gives each accepted
/// enum its header.
pub fn collect_custom_headers(
    items: &mut Vec<CustomEnumItem>,
    source_names: &mut Vec<String>,
    generated_input_names: &mut Vec<String>,
    provider_type_names: &Vec<String>,
) -> (result: Result<Vec<CustomHeader>, Diagnostic>)
    ensures
        match custom_headers_after(
            old(items)@,
            texts(provider_type_names@),
            texts(old(source_names)@),
            texts(old(generated_input_names)@),
        ) {
            Ok((headers, sources, inputs)) => result matches Ok(found) && headers_match(
                found@,
                headers,
            ) && texts(final(source_names)@) == sources && texts(final(generated_input_names)@)
                == inputs && final(items)@.len() == old(items)@.len() && forall|j: int|
                0 <= j < old(items)@.len() ==> item_after_pass(
                    #[trigger] old(items)@[j],
                    final(items)@[j],
                ),
            Err(message) => result matches Err(error) && error.message@ == message && rejected_pass(
                old(items)@,
                final(items)@,
                texts(provider_type_names@),
                texts(old(source_names)@),
                texts(old(generated_input_names)@),
                texts(final(source_names)@),
                texts(final(generated_input_names)@),
            ),
        },
{
    let ghost all = items@;
    let ghost provider = texts(provider_type_names@);
    let ghost start_sources = texts(source_names@);
    let ghost start_inputs = texts(generated_input_names@);
    let mut headers: Vec<CustomHeader> = Vec::new();
    let mut i: usize = 0;
    assert(all.take(0) =~= Seq::<CustomEnumItem>::empty());
    while i < items.len()
        invariant
            i <= items@.len(),
            items@.len() == all.len(),
            all == old(items)@,
            provider == texts(provider_type_names@),
            start_sources == texts(old(source_names)@),
            start_inputs == texts(old(generated_input_names)@),
            forall|j: int| i <= j < all.len() ==> #[trigger] items@[j] == all[j],
            forall|j: int| 0 <= j < i ==> item_after_pass(#[trigger] all[j], items@[j]),
            custom_headers_after(all.take(i as int), provider, start_sources, start_inputs) matches Ok(
                (models, sources, inputs),
            ) && headers_match(headers@, models) && texts(source_names@) == sources && texts(
                generated_input_names@,
            ) == inputs,
        decreases all.len() - i,
    {
        proof {
            assert(all.take(i + 1).drop_last() =~= all.take(i as int));
            assert(all.take(i + 1).last() == all[i as int]);
        }
        let ghost item = all[i as int];
        let ghost before_items = items@;
        let is_enum = match items[i].kind {
            ItemKind::Enum => true,
            _ => false,
        };
        if is_enum {
            let marker = take_custom_marker(&mut items[i].attributes);
            assert(forall|j: int| 0 <= j < all.len() && j != i ==> items@[j] == before_items[j]);
            match marker {
                Err(error) => {
                    proof {
                        lemma_rejection_stays(all, i + 1, provider, start_sources, start_inputs);
                        lemma_rejection_point_stays(all, i + 1, provider, start_sources, start_inputs);
                        assert(items@[i as int].attributes@ =~= Seq::<AttributeModel>::empty());
                        assert(rejected_item_after(all[i as int], items@[i as int], true));
                    }
                    return Err(error);
                },
                Ok(None) => {},
                Ok(Some(arguments)) => {
                    match validate_custom(&items[i].shape) {
                        Err(error) => {
                            proof {
                                lemma_rejection_stays(all, i + 1, provider, start_sources, start_inputs);
                                lemma_rejection_point_stays(all, i + 1, provider, start_sources, start_inputs);
                            }
                            return Err(error);
                        },
                        Ok(()) => {},
                    }
                    let ghost names_before = texts(source_names@);
                    let ghost inputs_before = texts(generated_input_names@);
                    let source_name = unraw_text(&items[i].name);
                    let registered = register_custom_names(
                        &source_name,
                        &arguments.input,
                        provider_type_names,
                        source_names,
                        generated_input_names,
                    );
                    match registered {
                        Err(error) => {
                            proof {
                                lemma_rejection_stays(all, i + 1, provider, start_sources, start_inputs);
                                lemma_rejection_point_stays(all, i + 1, provider, start_sources, start_inputs);
                            }
                            return Err(error);
                        },
                        Ok(()) => {},
                    }
                    let index = headers.len();
                    let ghost models_before = headers@;
                    headers.push(
                        CustomHeader {
                            ident: items[i].name.clone(),
                            input: arguments.input,
                            visibility: items[i].visibility.clone(),
                            schema: custom_schema(index),
                            decoder: custom_decoder(index),
                            item: i,
                        },
                    );
                    proof {
                        assert(headers@.drop_last() =~= models_before);
                    }
                },
            }
        }
        i = i + 1;
    }
    assert(all.take(all.len() as int) =~= all);
    Ok(headers)
}

/// The custom declarations of a module once their fields are classified,
/// with the list decoder registered for each one's generated input type.
pub struct CustomDeclarations {
    pub models: Vec<CustomModel>,
    pub list_decoders: Vec<Option<String>>,
}

/// Rejects recursive custom declarations, then registers a list decoder for
/// every declaration that has a generated input type.
pub fn finish_custom_declarations(models: Vec<CustomModel>, list_decoders: &mut Vec<ListDecoderModel>) -> (result:
    Result<CustomDeclarations, Diagnostic>)
    requires
        graph_well_formed(dependency_graph(models@)),
        registry_well_formed(old(list_decoders)@),
    ensures
        result is Ok <==> !has_cycle(dependency_graph(models@)),
        result matches Err(error) ==> final(list_decoders)@ == old(list_decoders)@,
        result matches Err(error) ==> (first_cycle(dependency_graph(models@)) matches Err(walk)
            && is_cycle(dependency_graph(models@), walk) && error.message@ == cycle_message(
            models@,
            walk,
        )),
        result matches Ok(declarations) ==> {
            let decoders = final(list_decoders)@;
            &&& declarations.models@ == models@
            &&& registry_well_formed(decoders)
            &&& registry_model(decoders) == registered_all(
                registry_model(old(list_decoders)@),
                input_decoder_values(has_inputs(models@)),
            )
            &&& decoders.len() >= old(list_decoders)@.len()
            &&& decoders.subrange(0, old(list_decoders)@.len() as int) == old(list_decoders)@
            &&& declarations.list_decoders@.len() == models@.len()
            &&& forall|i: int|
                0 <= i < models@.len() ==> match #[trigger] declarations.list_decoders@[i] {
                    None => models@[i].input is None,
                    Some(ident) => models@[i].input is Some && exists|j: int|
                        0 <= j < decoders.len() && decoders[j].key@ == value_key(
                            StaticValue::Custom(i as nat),
                        ) && decoders[j].ident@ == ident@,
                }
        },
{
    match validate_custom_cycles(models.as_slice()) {
        Err(error) => Err(error),
        Ok(()) => {
            let registered = register_custom_list_decoders(models.as_slice(), list_decoders);
            Ok(CustomDeclarations { models, list_decoders: registered })
        },
    }
}

} // verus!
