use crate::custom_build::{
    ClassifiedField, HeaderNames, build_custom_model, classified_variants, constructor_built,
    variants_items,
    constructor_class_dependencies, decoder_of, grows, header_names, lemma_classified_names,
    lemma_grows_transitive,
    lemma_constructor_built_kept, lemma_model_dependencies, model_built,
};
use crate::custom_classify::names_below;
use crate::custom_cycles::{
    cycle_message, dependency_graph, first_cycle, has_cycle, is_cycle, joined,
    lemma_cycle_in_range,
};
use crate::custom_headers::{
    CustomDeclarations, CustomEnumItem, HeaderKey, HeaderModel, collect_custom_headers,
    custom_headers_after, finish_custom_declarations, header_keys, headers_match, item_after_pass,
    rejected_pass,
};
use crate::diagnostic::Diagnostic;
use crate::generics::texts;
use crate::identifiers::{custom_decoder_name, custom_schema_name};
use crate::custom_value::{has_inputs, input_decoder_values};
use crate::list_model::{
    ListDecoderModel, StaticValue, lemma_registered_all_append, registered_all, registry_model,
    registry_well_formed,
};
use vstd::prelude::*;

verus! {

pub open spec fn header_model_keys(headers: Seq<HeaderModel>) -> Seq<HeaderKey> {
    headers.map_values(|header: HeaderModel| (header.0, header.1))
}

/// The field classes of the first `count` accepted declarations, in header
/// order, or the first rejection.
pub open spec fn classified_customs(items: Seq<CustomEnumItem>, headers: Seq<HeaderModel>, count: nat) -> Result<
    Seq<Seq<Seq<ClassifiedField>>>,
    Seq<char>,
>
    decreases count,
{
    if count == 0 {
        Ok(Seq::empty())
    } else {
        match classified_customs(items, headers, (count - 1) as nat) {
            Err(message) => Err(message),
            Ok(earlier) => match classified_variants(
                items[headers[count - 1].3 as int].variants@,
                header_model_keys(headers),
            ) {
                Err(message) => Err(message),
                Ok(classes) => Ok(earlier.push(classes)),
            },
        }
    }
}

/// The item shapes whose list decoders the fields of the first `count`
/// accepted declarations register, in header order, up to and including the
/// first rejection.
pub open spec fn customs_items(items: Seq<CustomEnumItem>, headers: Seq<HeaderModel>, count: nat) -> Seq<
    StaticValue,
>
    decreases count,
{
    if count == 0 {
        Seq::empty()
    } else {
        let earlier = customs_items(items, headers, (count - 1) as nat);
        match classified_customs(items, headers, (count - 1) as nat) {
            Err(_) => earlier,
            Ok(_) => earlier + variants_items(
                items[headers[count - 1].3 as int].variants@,
                header_model_keys(headers),
            ),
        }
    }
}

/// Which accepted declarations have a generated input type, in order.
pub open spec fn header_inputs(headers: Seq<HeaderModel>) -> Seq<bool> {
    headers.map_values(|header: HeaderModel| header.1 is Some)
}

proof fn lemma_customs_items_stay(
    items: Seq<CustomEnumItem>,
    headers: Seq<HeaderModel>,
    count: nat,
    total: nat,
)
    requires
        count <= total,
        classified_customs(items, headers, count) is Err,
    ensures
        customs_items(items, headers, total) == customs_items(items, headers, count),
    decreases total,
{
    if count < total {
        lemma_customs_items_stay(items, headers, count, (total - 1) as nat);
        lemma_customs_rejection_stays(items, headers, count, (total - 1) as nat);
    }
}

/// The dependency graph of classified declarations: entry `i` lists the
/// declarations that the fields of declaration `i` name.
pub open spec fn class_graph(classes: Seq<Seq<Seq<ClassifiedField>>>) -> Seq<Seq<nat>> {
    Seq::new(classes.len(), |i: int| constructor_class_dependencies(classes[i]))
}

/// The message that reports the recursive declarations of `walk` by name.
pub open spec fn header_cycle_message(headers: Seq<HeaderModel>, walk: Seq<nat>) -> Seq<char> {
    "recursive custom values are not supported: "@ + joined(
        walk.map_values(|index: nat| headers[index as int].0),
        " -> "@,
    )
}

/// The names of the `index`-th accepted declaration.
pub open spec fn names_of(header: HeaderModel, index: nat) -> HeaderNames {
    HeaderNames {
        ident: header.0,
        input: header.1,
        visibility: header.2,
        schema: custom_schema_name(index),
        decoder: custom_decoder_name(index),
    }
}

/// The declarations of a module: one model per accepted declaration, built
/// from its constructors, and the list decoder of each generated input type.
pub open spec fn declarations_built(
    declarations: CustomDeclarations,
    headers: Seq<HeaderModel>,
    items: Seq<CustomEnumItem>,
    classes: Seq<Seq<Seq<ClassifiedField>>>,
    decoders: Seq<ListDecoderModel>,
) -> bool {
    &&& declarations.models@.len() == headers.len()
    &&& forall|i: int|
        0 <= i < headers.len() ==> model_built(
            #[trigger] declarations.models@[i],
            i as nat,
            names_of(headers[i], i as nat),
            items[headers[i].3 as int].variants@,
            classes[i],
            decoders,
        )
    &&& declarations.list_decoders@.len() == headers.len()
    &&& forall|i: int|
        0 <= i < headers.len() ==> match #[trigger] declarations.list_decoders@[i] {
            None => headers[i].1 is None,
            Some(ident) => headers[i].1 is Some && decoder_of(
                decoders,
                StaticValue::Custom(i as nat),
                ident@,
            ),
        }
}

proof fn lemma_header_positions(
    items: Seq<CustomEnumItem>,
    provider_type_names: Seq<Seq<char>>,
    sources: Seq<Seq<char>>,
    inputs: Seq<Seq<char>>,
)
    ensures
        custom_headers_after(items, provider_type_names, sources, inputs) matches Ok(
            (headers, _, _),
        ) ==> forall|i: int| 0 <= i < headers.len() ==> #[trigger] headers[i].3 < items.len(),
    decreases items.len(),
{
    if items.len() > 0 {
        lemma_header_positions(items.drop_last(), provider_type_names, sources, inputs);
    }
}

proof fn lemma_customs_rejection_stays(
    items: Seq<CustomEnumItem>,
    headers: Seq<HeaderModel>,
    count: nat,
    total: nat,
)
    requires
        count <= total,
        classified_customs(items, headers, count) is Err,
    ensures
        classified_customs(items, headers, total) == classified_customs(items, headers, count),
    decreases total,
{
    if count < total {
        lemma_customs_rejection_stays(items, headers, count, (total - 1) as nat);
    }
}

proof fn lemma_classified_customs(items: Seq<CustomEnumItem>, headers: Seq<HeaderModel>, count: nat)
    ensures
        classified_customs(items, headers, count) matches Ok(classes) ==> {
            &&& classes.len() == count
            &&& forall|i: int|
                0 <= i < count ==> names_below(
                    constructor_class_dependencies(#[trigger] classes[i]),
                    headers.len(),
                )
        },
    decreases count,
{
    if count > 0 {
        lemma_classified_customs(items, headers, (count - 1) as nat);
        lemma_classified_names(
            Seq::empty(),
            items[headers[count - 1].3 as int].variants@,
            header_model_keys(headers),
        );
        if classified_customs(items, headers, count) is Ok {
            let earlier = classified_customs(items, headers, (count - 1) as nat)->Ok_0;
            let classes = classified_customs(items, headers, count)->Ok_0;
            assert forall|i: int| 0 <= i < count implies names_below(
                constructor_class_dependencies(#[trigger] classes[i]),
                headers.len(),
            ) by {
                if i < count - 1 {
                    assert(classes[i] == earlier[i]);
                }
            }
        }
    }
}

proof fn lemma_model_built_kept(
    model: crate::custom_value::CustomModel,
    custom: nat,
    header: HeaderNames,
    variants: Seq<crate::custom_build::VariantFacts>,
    classes: Seq<Seq<ClassifiedField>>,
    before: Seq<ListDecoderModel>,
    after: Seq<ListDecoderModel>,
)
    requires
        model_built(model, custom, header, variants, classes, before),
        grows(before, after),
    ensures
        model_built(model, custom, header, variants, classes, after),
{
    assert forall|k: int| 0 <= k < variants.len() implies constructor_built(
        #[trigger] model.constructors@[k],
        custom,
        k as nat,
        variants[k],
        classes[k],
        after,
    ) by {
        lemma_constructor_built_kept(
            model.constructors@[k],
            custom,
            k as nat,
            variants[k],
            classes[k],
            before,
            after,
        );
    }
}

/// What the custom declaration pass does, from the items, names and decoder
/// registry before it to those after it and its result: the first rejected
/// declaration with the state where the pass stopped, or the declarations
/// with their names, classes and decoders.
pub open spec fn custom_pass(
    before_items: Seq<CustomEnumItem>,
    after_items: Seq<CustomEnumItem>,
    provider_type_names: Seq<Seq<char>>,
    sources_before: Seq<Seq<char>>,
    inputs_before: Seq<Seq<char>>,
    sources_after: Seq<Seq<char>>,
    inputs_after: Seq<Seq<char>>,
    decoders_before: Seq<ListDecoderModel>,
    decoders_after: Seq<ListDecoderModel>,
    result: Result<CustomDeclarations, Diagnostic>,
) -> bool {
    match custom_headers_after(
        before_items,
        provider_type_names,
        sources_before,
        inputs_before,
    ) {
        Err(message) => result matches Err(error) && error.message@ == message
            && decoders_after == decoders_before && rejected_pass(
            before_items,
            after_items,
            provider_type_names,
            sources_before,
            inputs_before,
            sources_after,
            inputs_after,
        ),
        Ok((headers, sources, inputs)) => {
            &&& registry_model(decoders_after) == registered_all(
                registry_model(decoders_before),
                customs_items(before_items, headers, headers.len()) + if result is Ok {
                    input_decoder_values(header_inputs(headers))
                } else {
                    Seq::empty()
                },
            )
            &&& sources_after == sources
            &&& inputs_after == inputs
            &&& after_items.len() == before_items.len()
            &&& forall|j: int|
                0 <= j < before_items.len() ==> item_after_pass(
                    #[trigger] before_items[j],
                    after_items[j],
                )
            &&& match classified_customs(before_items, headers, headers.len()) {
                Err(message) => result matches Err(error) && error.message@ == message,
                Ok(classes) => if has_cycle(class_graph(classes)) {
                    result matches Err(error) && first_cycle(class_graph(classes)) matches Err(
                        walk,
                    ) && is_cycle(class_graph(classes), walk) && error.message@
                        == header_cycle_message(headers, walk)
                } else {
                    result matches Ok(declarations) && declarations_built(
                        declarations,
                        headers,
                        before_items,
                        classes,
                        decoders_after,
                    )
                },
            }
        },
    }
}

/// Reads the custom declarations of a module: takes each enum's marker and
/// checks its shape and names, builds the model of each accepted enum in
/// order, rejects recursive declarations, and registers the list decoder of
/// each generated input type.
pub fn collect_custom_declarations(
    items: &mut Vec<CustomEnumItem>,
    source_names: &mut Vec<String>,
    generated_input_names: &mut Vec<String>,
    provider_type_names: &Vec<String>,
    list_decoders: &mut Vec<ListDecoderModel>,
) -> (result: Result<CustomDeclarations, Diagnostic>)
    requires
        registry_well_formed(old(list_decoders)@),
    ensures
        registry_well_formed(final(list_decoders)@),
        grows(old(list_decoders)@, final(list_decoders)@),
        custom_pass(
            old(items)@,
            final(items)@,
            texts(provider_type_names@),
            texts(old(source_names)@),
            texts(old(generated_input_names)@),
            texts(final(source_names)@),
            texts(final(generated_input_names)@),
            old(list_decoders)@,
            final(list_decoders)@,
            result,
        ),
{
    let ghost all = items@;
    let ghost start = list_decoders@;
    assert(list_decoders@.subrange(0, start.len() as int) =~= start);
    let headers = match collect_custom_headers(
        items,
        source_names,
        generated_input_names,
        provider_type_names,
    ) {
        Ok(headers) => headers,
        Err(error) => {
            return Err(error);
        },
    };
    let ghost outcome = custom_headers_after(
        all,
        texts(provider_type_names@),
        texts(old(source_names)@),
        texts(old(generated_input_names)@),
    );
    let ghost models_of_headers = outcome->Ok_0.0;
    proof {
        lemma_header_positions(
            all,
            texts(provider_type_names@),
            texts(old(source_names)@),
            texts(old(generated_input_names)@),
        );
        assert(header_keys(headers@) =~= header_model_keys(models_of_headers)) by {
            assert forall|i: int| 0 <= i < headers@.len() implies #[trigger] header_keys(headers@)[i]
                == header_model_keys(models_of_headers)[i] by {
                assert(crate::custom_headers::header_model(headers@[i]) == models_of_headers[i]);
            }
        }
        assert(list_decoders@.subrange(0, start.len() as int) =~= start);
    }
    let mut models: Vec<crate::custom_value::CustomModel> = Vec::new();
    let mut index: usize = 0;
    while index < headers.len()
        invariant
            index <= headers@.len(),
            headers_match(headers@, models_of_headers),
            header_keys(headers@) == header_model_keys(models_of_headers),
            forall|i: int| 0 <= i < models_of_headers.len() ==> #[trigger] models_of_headers[i].3 < all.len(),
            items@.len() == all.len(),
            all == old(items)@,
            outcome == custom_headers_after(
                old(items)@,
                texts(provider_type_names@),
                texts(old(source_names)@),
                texts(old(generated_input_names)@),
            ),
            outcome is Ok,
            models_of_headers == outcome->Ok_0.0,
            texts(source_names@) == outcome->Ok_0.1,
            texts(generated_input_names@) == outcome->Ok_0.2,
            forall|j: int| 0 <= j < all.len() ==> item_after_pass(#[trigger] all[j], items@[j]),
            registry_well_formed(list_decoders@),
            grows(start, list_decoders@),
            start == old(list_decoders)@,
            registry_model(list_decoders@) == registered_all(
                registry_model(start),
                customs_items(all, models_of_headers, index as nat),
            ),
            classified_customs(all, models_of_headers, index as nat) matches Ok(classes)
                && models@.len() == index && forall|i: int|
                0 <= i < index ==> model_built(
                    #[trigger] models@[i],
                    i as nat,
                    names_of(models_of_headers[i], i as nat),
                    all[models_of_headers[i].3 as int].variants@,
                    classes[i],
                    list_decoders@,
                ),
        decreases headers.len() - index,
    {
        let ghost classes = classified_customs(all, models_of_headers, index as nat)->Ok_0;
        let ghost before = list_decoders@;
        let header = &headers[index];
        let position = header.item;
        proof {
            assert(crate::custom_headers::header_model(headers@[index as int])
                == models_of_headers[index as int]);
            assert(item_after_pass(all[position as int], items@[position as int]));
        }
        let built = build_custom_model(
            index,
            header,
            &items[position].variants,
            headers.as_slice(),
            list_decoders,
        );
        proof {
            lemma_grows_transitive(start, before, list_decoders@);
            let keys = header_model_keys(models_of_headers);
            let earlier_items = customs_items(all, models_of_headers, index as nat);
            let added = variants_items(all[position as int].variants@, keys);
            assert(customs_items(all, models_of_headers, (index + 1) as nat) == earlier_items + added);
            lemma_registered_all_append(registry_model(start), earlier_items, added);
        }
        let model = match built {
            Ok(model) => model,
            Err(error) => {
                proof {
                    assert(classified_customs(all, models_of_headers, (index + 1) as nat) is Err);
                    lemma_customs_rejection_stays(
                        all,
                        models_of_headers,
                        (index + 1) as nat,
                        models_of_headers.len(),
                    );
                    lemma_customs_items_stay(
                        all,
                        models_of_headers,
                        (index + 1) as nat,
                        models_of_headers.len(),
                    );
                    let total = customs_items(all, models_of_headers, models_of_headers.len());
                    assert(total + Seq::<StaticValue>::empty() =~= total);
                }
                return Err(error);
            },
        };
        proof {
            let class = classified_variants(
                all[position as int].variants@,
                header_model_keys(models_of_headers),
            )->Ok_0;
            assert(header_names(*header) == names_of(models_of_headers[index as int], index as nat));
            assert forall|i: int| 0 <= i < index implies model_built(
                #[trigger] models@[i],
                i as nat,
                names_of(models_of_headers[i], i as nat),
                all[models_of_headers[i].3 as int].variants@,
                classes[i],
                list_decoders@,
            ) by {
                lemma_model_built_kept(
                    models@[i],
                    i as nat,
                    names_of(models_of_headers[i], i as nat),
                    all[models_of_headers[i].3 as int].variants@,
                    classes[i],
                    before,
                    list_decoders@,
                );
            }
            assert(classified_customs(all, models_of_headers, (index + 1) as nat) == Ok::<
                Seq<Seq<Seq<ClassifiedField>>>,
                Seq<char>,
            >(classes.push(class)));
        }
        let ghost earlier = models@;
        models.push(model);
        proof {
            let class = classified_variants(
                all[position as int].variants@,
                header_model_keys(models_of_headers),
            )->Ok_0;
            let next = classes.push(class);
            lemma_classified_customs(all, models_of_headers, index as nat);
            assert forall|i: int| 0 <= i < index + 1 implies model_built(
                #[trigger] models@[i],
                i as nat,
                names_of(models_of_headers[i], i as nat),
                all[models_of_headers[i].3 as int].variants@,
                next[i],
                list_decoders@,
            ) by {
                if i < index {
                    assert(models@[i] == earlier[i]);
                    assert(next[i] == classes[i]);
                }
            }
        }
        index = index + 1;
    }
    let ghost classes = classified_customs(all, models_of_headers, models_of_headers.len())->Ok_0;
    let ghost built = models@;
    proof {
        lemma_classified_customs(all, models_of_headers, models_of_headers.len());
        assert(dependency_graph(built) =~= class_graph(classes)) by {
            assert forall|i: int| 0 <= i < built.len() implies #[trigger] dependency_graph(built)[i]
                == class_graph(classes)[i] by {
                lemma_model_dependencies(
                    built[i],
                    i as nat,
                    names_of(models_of_headers[i], i as nat),
                    all[models_of_headers[i].3 as int].variants@,
                    classes[i],
                    list_decoders@,
                );
            }
        }
        assert forall|i: int, k: int|
            0 <= i < dependency_graph(built).len() && 0 <= k < dependency_graph(built)[i].len()
            implies #[trigger] dependency_graph(built)[i][k] < dependency_graph(built).len() by {
            assert(names_below(constructor_class_dependencies(classes[i]), models_of_headers.len()));
        }
    }
    let ghost decoders_before = list_decoders@;
    let finished = finish_custom_declarations(models, list_decoders);
    proof {
        let total = customs_items(all, models_of_headers, models_of_headers.len());
        if finished is Ok {
                let declarations = finished->Ok_0;
                assert(has_inputs(built) =~= header_inputs(models_of_headers)) by {
                    assert forall|i: int| 0 <= i < built.len() implies #[trigger] has_inputs(built)[i]
                        == header_inputs(models_of_headers)[i] by {
                        assert(model_built(
                            built[i],
                            i as nat,
                            names_of(models_of_headers[i], i as nat),
                            all[models_of_headers[i].3 as int].variants@,
                            classes[i],
                            decoders_before,
                        ));
                    }
                }
                lemma_registered_all_append(
                    registry_model(start),
                    total,
                    input_decoder_values(header_inputs(models_of_headers)),
                );
                lemma_grows_transitive(start, decoders_before, list_decoders@);
                assert forall|i: int| 0 <= i < models_of_headers.len() implies model_built(
                    #[trigger] declarations.models@[i],
                    i as nat,
                    names_of(models_of_headers[i], i as nat),
                    all[models_of_headers[i].3 as int].variants@,
                    classes[i],
                    list_decoders@,
                ) by {
                    lemma_model_built_kept(
                        built[i],
                        i as nat,
                        names_of(models_of_headers[i], i as nat),
                        all[models_of_headers[i].3 as int].variants@,
                        classes[i],
                        decoders_before,
                        list_decoders@,
                    );
                }
                assert forall|i: int| 0 <= i < models_of_headers.len() implies match #[trigger] declarations.list_decoders@[i] {
                    None => models_of_headers[i].1 is None,
                    Some(ident) => models_of_headers[i].1 is Some && decoder_of(
                        list_decoders@,
                        StaticValue::Custom(i as nat),
                        ident@,
                    ),
                } by {
                    assert(model_built(
                        built[i],
                        i as nat,
                        names_of(models_of_headers[i], i as nat),
                        all[models_of_headers[i].3 as int].variants@,
                        classes[i],
                        decoders_before,
                    ));
                }
        } else {
                assert(total + Seq::<StaticValue>::empty() =~= total);
                let error = finished->Err_0;
                let walk = first_cycle(dependency_graph(built))->Err_0;
                lemma_cycle_in_range(dependency_graph(built), walk);
                assert(walk.map_values(|index: nat| built[index as int].ident@) =~= walk.map_values(
                    |index: nat| models_of_headers[index as int].0,
                )) by {
                    assert forall|j: int| 0 <= j < walk.len() implies built[walk[j] as int].ident@
                        == models_of_headers[walk[j] as int].0 by {
                        assert(model_built(
                            built[walk[j] as int],
                            walk[j],
                            names_of(models_of_headers[walk[j] as int], walk[j]),
                            all[models_of_headers[walk[j] as int].3 as int].variants@,
                            classes[walk[j] as int],
                            decoders_before,
                        ));
                    }
                }
                assert(is_cycle(class_graph(classes), walk));
        }
    }
    finished
}

} // verus!
