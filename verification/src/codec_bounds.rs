use crate::bounds::{deduplicate_bounds, first_occurrences};
use crate::custom_value::CustomModel;
use crate::generics::texts;
use crate::identifiers::InputOwnership;
use crate::list_access::{
    declared_access_models, declared_accesses, list_declared_accesses, value_leaves, walk_ends,
};
use crate::list_model::{StaticValue, StaticValueType};
use vstd::prelude::*;

verus! {

/// `< type_ as support :: ProviderContextualValueForms < __GeamProfile >> :: `,
/// the path to one of `type_`'s contextual forms.
pub open spec fn contextual_forms(type_: Seq<char>, support: Seq<char>) -> Seq<char> {
    "< "@ + type_ + " as "@ + support + " :: ProviderContextualValueForms < __GeamProfile >> :: "@
}

/// The bound that a declared type's list input form decodes list items of
/// the type in the given ownership flavor.
pub open spec fn list_codec_bound(type_: Seq<char>, support: Seq<char>, flavor: InputOwnership) -> Seq<
    char,
> {
    contextual_forms(type_, support) + match flavor {
        InputOwnership::Borrowed => "ImmediateListInput"@,
        InputOwnership::Owned => "OwnedListInput"@,
    } + " : "@ + support
        + " :: ProviderListInputCodec < __GeamProfile , __GeamProviderBinding , Host = "@
        + contextual_forms(type_, support) + "Host , Requirements = "@ + contextual_forms(
        type_,
        support,
    ) + "InputRequirements >"@
}

/// The list codec bounds of the declared accesses `accesses`, in order.
pub open spec fn list_codec_bounds(
    accesses: Seq<(Seq<char>, Seq<char>)>,
    support: Seq<char>,
    flavor: InputOwnership,
) -> Seq<Seq<char>> {
    accesses.map_values(
        |access: (Seq<char>, Seq<char>)| list_codec_bound(access.0, support, flavor),
    )
}

fn push_contextual_forms(output: &mut String, type_: &str, support: &str)
    ensures
        final(output)@ == old(output)@ + contextual_forms(type_@, support@),
{
    output.append("< ");
    output.append(type_);
    output.append(" as ");
    output.append(support);
    output.append(" :: ProviderContextualValueForms < __GeamProfile >> :: ");
}

fn list_codec_bound_text(type_: &str, support: &str, flavor: InputOwnership) -> (bound: String)
    ensures
        bound@ == list_codec_bound(type_@, support@, flavor),
{
    let mut bound = String::new();
    push_contextual_forms(&mut bound, type_, support);
    match flavor {
        InputOwnership::Borrowed => bound.append("ImmediateListInput"),
        InputOwnership::Owned => bound.append("OwnedListInput"),
    }
    bound.append(" : ");
    bound.append(support);
    bound.append(" :: ProviderListInputCodec < __GeamProfile , __GeamProviderBinding , Host = ");
    push_contextual_forms(&mut bound, type_, support);
    bound.append("Host , Requirements = ");
    push_contextual_forms(&mut bound, type_, support);
    bound.append("InputRequirements >");
    bound
}

/// The bounds under which the list decoder of custom declaration
/// `custom_index` decodes the declared types its fields reach: one per
/// declared type, in walk order, each bound once.
pub fn custom_list_codec_bounds(
    custom_index: usize,
    customs: &[CustomModel],
    support: &str,
    flavor: InputOwnership,
) -> (bounds: Vec<String>)
    requires
        walk_ends(StaticValue::Custom(custom_index as nat), customs@),
    ensures
        texts(bounds@) == first_occurrences(
            list_codec_bounds(
                declared_accesses(
                    value_leaves(StaticValue::Custom(custom_index as nat), customs@, customs@.len()),
                ),
                support@,
                flavor,
            ),
        ),
{
    let value = StaticValueType::Custom { index: custom_index };
    let accesses = list_declared_accesses(&value, customs);
    let ghost models = declared_access_models(accesses@);
    let mut bounds: Vec<String> = Vec::new();
    let mut i: usize = 0;
    while i < accesses.len()
        invariant
            i <= accesses@.len(),
            models == declared_access_models(accesses@),
            texts(bounds@) == list_codec_bounds(models.take(i as int), support@, flavor),
        decreases accesses.len() - i,
    {
        let bound = list_codec_bound_text(accesses[i].type_.as_str(), support, flavor);
        let ghost before = bounds@;
        bounds.push(bound);
        proof {
            assert(models.take(i + 1) =~= models.take(i as int).push(models[i as int]));
            assert(texts(bounds@) =~= texts(before).push(bound@));
            assert(list_codec_bounds(models.take(i + 1), support@, flavor) =~= list_codec_bounds(
                models.take(i as int),
                support@,
                flavor,
            ).push(list_codec_bound(models[i as int].0, support@, flavor)));
        }
        i = i + 1;
    }
    assert(models.take(accesses@.len() as int) =~= models);
    deduplicate_bounds(bounds)
}

} // verus!
