use crate::custom_collect::{collect_custom_declarations, custom_pass};
use crate::custom_headers::{CustomDeclarations, CustomEnumItem};
use crate::declarations::{
    ExternalDeclaration, check_stores_projection, option_text, register_external_names,
    stores_projection_error,
};
use crate::diagnostic::Diagnostic;
use crate::generics::texts;
use crate::list_model::{ListDecoderModel, registry_well_formed};
use crate::tokens::unraw;
use vstd::prelude::*;

verus! {

/// The naming rules of one external declaration as a function: whether it is
/// accepted, and the source and generated input names after it. The source
/// name is recorded once it is new, before its input type is checked.
pub open spec fn external_step(
    external: ExternalDeclaration,
    provider_type_names: Seq<Seq<char>>,
    sources: Seq<Seq<char>>,
    inputs: Seq<Seq<char>>,
) -> (Result<(), Seq<char>>, Seq<Seq<char>>, Seq<Seq<char>>) {
    let name = external.name@;
    if sources.contains(name) {
        (Err("duplicate external source type `"@ + name + "`"@), sources, inputs)
    } else {
        match option_text(external.input) {
            None => (Ok(()), sources.push(name), inputs),
            Some(written) => {
                let key = unraw(written);
                if provider_type_names.contains(key) {
                    (
                        Err(
                            "generated external input type `"@ + written
                                + "` conflicts with provider value type `"@ + written + "`"@,
                        ),
                        sources.push(name),
                        inputs,
                    )
                } else if inputs.contains(key) {
                    (
                        Err("duplicate generated input type `"@ + written + "`"@),
                        sources.push(name),
                        inputs,
                    )
                } else {
                    (Ok(()), sources.push(name), inputs.push(key))
                }
            },
        }
    }
}

/// The naming rules of the external declarations in order: the first
/// rejection, if any, and the names where the checks stopped.
pub open spec fn externals_after(
    externals: Seq<ExternalDeclaration>,
    provider_type_names: Seq<Seq<char>>,
    sources: Seq<Seq<char>>,
    inputs: Seq<Seq<char>>,
) -> (Result<(), Seq<char>>, Seq<Seq<char>>, Seq<Seq<char>>)
    decreases externals.len(),
{
    if externals.len() == 0 {
        (Ok(()), sources, inputs)
    } else {
        let earlier = externals_after(externals.drop_last(), provider_type_names, sources, inputs);
        if earlier.0 is Err {
            earlier
        } else {
            external_step(externals.last(), provider_type_names, earlier.1, earlier.2)
        }
    }
}

proof fn lemma_externals_rejection_stays(
    externals: Seq<ExternalDeclaration>,
    count: int,
    provider_type_names: Seq<Seq<char>>,
    sources: Seq<Seq<char>>,
    inputs: Seq<Seq<char>>,
)
    requires
        0 <= count <= externals.len(),
        externals_after(externals.take(count), provider_type_names, sources, inputs).0 is Err,
    ensures
        externals_after(externals, provider_type_names, sources, inputs) == externals_after(
            externals.take(count),
            provider_type_names,
            sources,
            inputs,
        ),
    decreases externals.len(),
{
    if count < externals.len() {
        assert(externals.drop_last().take(count) =~= externals.take(count));
        lemma_externals_rejection_stays(
            externals.drop_last(),
            count,
            provider_type_names,
            sources,
            inputs,
        );
    } else {
        assert(externals.take(count) =~= externals);
    }
}

/// The declaration checks of a module in the order the module runs them:
/// the names of its external declarations, then its `stores` projection,
/// then its custom declarations, which share the names recorded so far.
pub fn check_module_declarations(
    externals: &Vec<ExternalDeclaration>,
    provider_type_names: &Vec<String>,
    explicit_profile: bool,
    has_stores: bool,
    items: &mut Vec<CustomEnumItem>,
    source_names: &mut Vec<String>,
    generated_input_names: &mut Vec<String>,
    list_decoders: &mut Vec<ListDecoderModel>,
) -> (result: Result<CustomDeclarations, Diagnostic>)
    requires
        registry_well_formed(old(list_decoders)@),
    ensures
        registry_well_formed(final(list_decoders)@),
        ({
            let (named, sources, inputs) = externals_after(
                externals@,
                texts(provider_type_names@),
                texts(old(source_names)@),
                texts(old(generated_input_names)@),
            );
            match named {
                Err(message) => {
                    &&& result matches Err(error) && error.message@ == message
                    &&& texts(final(source_names)@) == sources
                    &&& texts(final(generated_input_names)@) == inputs
                    &&& final(items)@ == old(items)@
                    &&& final(list_decoders)@ == old(list_decoders)@
                },
                Ok(()) => match stores_projection_error(explicit_profile, has_stores, externals@.len() > 0) {
                    Some(message) => {
                        &&& result matches Err(error) && error.message@ == message
                        &&& texts(final(source_names)@) == sources
                        &&& texts(final(generated_input_names)@) == inputs
                        &&& final(items)@ == old(items)@
                        &&& final(list_decoders)@ == old(list_decoders)@
                    },
                    None => custom_pass(
                        old(items)@,
                        final(items)@,
                        texts(provider_type_names@),
                        sources,
                        inputs,
                        texts(final(source_names)@),
                        texts(final(generated_input_names)@),
                        old(list_decoders)@,
                        final(list_decoders)@,
                        result,
                    ),
                },
            }
        }),
{
    let ghost providers = texts(provider_type_names@);
    let ghost start_sources = texts(source_names@);
    let ghost start_inputs = texts(generated_input_names@);
    let mut k: usize = 0;
    assert(externals@.take(0) =~= Seq::<ExternalDeclaration>::empty());
    while k < externals.len()
        invariant
            k <= externals@.len(),
            providers == texts(provider_type_names@),
            start_sources == texts(old(source_names)@),
            start_inputs == texts(old(generated_input_names)@),
            list_decoders@ == old(list_decoders)@,
            registry_well_formed(list_decoders@),
            items@ == old(items)@,
            externals_after(externals@.take(k as int), providers, start_sources, start_inputs) == (
                Ok::<(), Seq<char>>(()),
                texts(source_names@),
                texts(generated_input_names@),
            ),
        decreases externals.len() - k,
    {
        proof {
            assert(externals@.take(k + 1).drop_last() =~= externals@.take(k as int));
            assert(externals@.take(k + 1).last() == externals@[k as int]);
        }
        let registered = register_external_names(
            &externals[k],
            provider_type_names,
            source_names,
            generated_input_names,
        );
        match registered {
            Err(error) => {
                proof {
                    lemma_externals_rejection_stays(
                        externals@,
                        k + 1,
                        providers,
                        start_sources,
                        start_inputs,
                    );
                }
                return Err(error);
            },
            Ok(()) => {},
        }
        k = k + 1;
    }
    proof {
        assert(externals@.take(externals@.len() as int) =~= externals@);
    }
    match check_stores_projection(explicit_profile, has_stores, externals.len() > 0) {
        Err(error) => {
            return Err(error);
        },
        Ok(()) => {},
    }
    collect_custom_declarations(
        items,
        source_names,
        generated_input_names,
        provider_type_names,
        list_decoders,
    )
}

} // verus!
