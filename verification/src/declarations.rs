use crate::diagnostic::{Diagnostic, diagnostic};
use crate::attributes::{AttributeModel, is_marker};
use crate::generics::texts;
use crate::item::ItemKind;
use crate::tokens::{option_unraw, text_is, unraw, unraw_text};
use vstd::prelude::*;

verus! {

/// A `#[geam::external]` struct as far as the naming rules read it: its
/// source name and its generated input type, if any, as the identifier is
/// written (a raw identifier keeps its `r#`).
pub struct ExternalDeclaration {
    pub name: String,
    pub input: Option<String>,
}

/// Whether `names` holds `text`.
pub fn contains_text(names: &Vec<String>, text: &String) -> (found: bool)
    ensures
        found == texts(names@).contains(text@),
{
    let mut i: usize = 0;
    while i < names.len()
        invariant
            i <= names@.len(),
            forall|j: int| 0 <= j < i ==> names@[j]@ != text@,
        decreases names.len() - i,
    {
        if names[i] == *text {
            proof {
                assert(texts(names@)[i as int] == text@);
            }
            return true;
        }
        i = i + 1;
    }
    proof {
        if texts(names@).contains(text@) {
            let j = choose|j: int| 0 <= j < texts(names@).len() && texts(names@)[j] == text@;
            assert(names@[j]@ == text@);
        }
    }
    false
}

/// `prefix`, `name` and `suffix` in one message.
fn message_with(prefix: &str, name: &String, suffix: &str) -> (error: Diagnostic)
    ensures
        error.message@ == prefix@ + name@ + suffix@,
{
    let mut message = String::new();
    message.append(prefix);
    message.append(name.as_str());
    message.append(suffix);
    Diagnostic { message }
}

/// Records the names of one declaration: its source name must be new among
/// all source names, and its generated input name, if any, must neither name
/// a provider value type nor repeat another generated input name. `kind`
/// words the messages: `external` for external declarations, `custom` for
/// custom ones.
pub open spec fn declaration_names_outcome(
    duplicate_source_message: Seq<char>,
    conflict_message: Seq<char>,
    duplicate_input_message: Seq<char>,
    name: Seq<char>,
    input: Option<Seq<char>>,
    provider_type_names: Seq<Seq<char>>,
    sources: Seq<Seq<char>>,
    inputs: Seq<Seq<char>>,
    result: Result<(), Seq<char>>,
    final_sources: Seq<Seq<char>>,
    final_inputs: Seq<Seq<char>>,
) -> bool {
    if sources.contains(name) {
        result == Err::<(), Seq<char>>(duplicate_source_message) && final_sources == sources
            && final_inputs == inputs
    } else {
        &&& final_sources == sources.push(name)
        &&& match input {
            None => result == Ok::<(), Seq<char>>(()) && final_inputs == inputs,
            Some(input) => if provider_type_names.contains(input) {
                result == Err::<(), Seq<char>>(conflict_message) && final_inputs == inputs
            } else if inputs.contains(input) {
                result == Err::<(), Seq<char>>(duplicate_input_message) && final_inputs == inputs
            } else {
                result == Ok::<(), Seq<char>>(()) && final_inputs == inputs.push(input)
            },
        }
    }
}

pub open spec fn option_text(text: Option<String>) -> Option<Seq<char>> {
    match text {
        Some(text) => Some(text@),
        None => None,
    }
}

pub open spec fn outcome(result: Result<(), Diagnostic>) -> Result<(), Seq<char>> {
    match result {
        Ok(()) => Ok(()),
        Err(error) => Err(error.message@),
    }
}

pub open spec fn input_text(input: Option<String>) -> Seq<char> {
    match input {
        Some(input) => input@,
        None => Seq::empty(),
    }
}

/// Checks and records `name` and the generated input name `input`; the
/// messages on `input` show it as `shown`.
fn register_names(
    name: &String,
    input: &Option<String>,
    shown: &Option<String>,
    provider_type_names: &Vec<String>,
    source_names: &mut Vec<String>,
    generated_input_names: &mut Vec<String>,
    duplicate_source: &str,
    conflict: &str,
) -> (result: Result<(), Diagnostic>)
    requires
        input is Some <==> shown is Some,
    ensures
        declaration_names_outcome(
            duplicate_source@ + name@ + "`"@,
            conflict@ + input_text(*shown) + "` conflicts with provider value type `"@ + input_text(
                *shown,
            ) + "`"@,
            "duplicate generated input type `"@ + input_text(*shown) + "`"@,
            name@,
            option_text(*input),
            texts(provider_type_names@),
            texts(old(source_names)@),
            texts(old(generated_input_names)@),
            outcome(result),
            texts(final(source_names)@),
            texts(final(generated_input_names)@),
        ),
{
    if contains_text(source_names, name) {
        return Err(message_with(duplicate_source, name, "`"));
    }
    source_names.push(name.clone());
    assert(texts(source_names@) =~= texts(old(source_names)@).push(name@));
    match (input, shown) {
        (Some(input), Some(shown)) => {
            if contains_text(provider_type_names, input) {
                let mut error = message_with(conflict, shown, "` conflicts with provider value type `");
                error.message.append(shown.as_str());
                error.message.append("`");
                return Err(error);
            }
            if contains_text(generated_input_names, input) {
                return Err(message_with("duplicate generated input type `", shown, "`"));
            }
            generated_input_names.push(input.clone());
            assert(texts(generated_input_names@) =~= texts(old(generated_input_names)@).push(
                input@,
            ));
            Ok(())
        },
        _ => Ok(()),
    }
}

/// The name that `input` gives, if any.
fn input_name(input: &Option<String>) -> (name: Option<String>)
    ensures
        option_text(name) == option_unraw(option_text(*input)),
{
    match input {
        Some(input) => Some(unraw_text(input)),
        None => None,
    }
}

/// The naming rules of one `#[geam::external]` declaration, checked in the
/// order the module reads its declarations. The input type is checked and
/// recorded by its name without `r#`, and shown in messages as written.
pub fn register_external_names(
    external: &ExternalDeclaration,
    provider_type_names: &Vec<String>,
    source_names: &mut Vec<String>,
    generated_input_names: &mut Vec<String>,
) -> (result: Result<(), Diagnostic>)
    ensures
        declaration_names_outcome(
            "duplicate external source type `"@ + external.name@ + "`"@,
            "generated external input type `"@ + input_text(external.input)
                + "` conflicts with provider value type `"@ + input_text(external.input) + "`"@,
            "duplicate generated input type `"@ + input_text(external.input) + "`"@,
            external.name@,
            option_unraw(option_text(external.input)),
            texts(provider_type_names@),
            texts(old(source_names)@),
            texts(old(generated_input_names)@),
            outcome(result),
            texts(final(source_names)@),
            texts(final(generated_input_names)@),
        ),
{
    let name = input_name(&external.input);
    register_names(
        &external.name,
        &name,
        &external.input,
        provider_type_names,
        source_names,
        generated_input_names,
        "duplicate external source type `",
        "generated external input type `",
    )
}

/// The naming rules of one `#[geam::custom]` declaration: `name` is its
/// source name, `input` its generated input type as written; the input is
/// checked, recorded and shown by its name without `r#`.
pub fn register_custom_names(
    name: &String,
    input: &Option<String>,
    provider_type_names: &Vec<String>,
    source_names: &mut Vec<String>,
    generated_input_names: &mut Vec<String>,
) -> (result: Result<(), Diagnostic>)
    ensures
        declaration_names_outcome(
            "duplicate source type `"@ + name@ + "`"@,
            "generated custom input type `"@ + unraw(input_text(*input))
                + "` conflicts with provider value type `"@ + unraw(input_text(*input)) + "`"@,
            "duplicate generated input type `"@ + unraw(input_text(*input)) + "`"@,
            name@,
            option_unraw(option_text(*input)),
            texts(provider_type_names@),
            texts(old(source_names)@),
            texts(old(generated_input_names)@),
            outcome(result),
            texts(final(source_names)@),
            texts(final(generated_input_names)@),
        ),
{
    let input_name = input_name(input);
    register_names(
        name,
        &input_name,
        &input_name,
        provider_type_names,
        source_names,
        generated_input_names,
        "duplicate source type `",
        "generated custom input type `",
    )
}

/// The message that rejects a module's `stores` projection, if any: an
/// explicit profile needs one exactly when the module declares externals.
pub open spec fn stores_projection_error(explicit_profile: bool, has_stores: bool, has_externals: bool) -> Option<
    Seq<char>,
> {
    if explicit_profile && !has_stores && has_externals {
        Some("built-in modules with external declarations require a `stores` projection"@)
    } else if explicit_profile && has_stores && !has_externals {
        Some("module `stores` is used only by external declarations"@)
    } else {
        None
    }
}

pub fn check_stores_projection(explicit_profile: bool, has_stores: bool, has_externals: bool) -> (result:
    Result<(), Diagnostic>)
    ensures
        match stores_projection_error(explicit_profile, has_stores, has_externals) {
            Some(message) => result matches Err(error) && error.message@ == message,
            None => result is Ok,
        },
{
    if explicit_profile && !has_stores && has_externals {
        return Err(diagnostic("built-in modules with external declarations require a `stores` projection"));
    }
    if explicit_profile && has_stores && !has_externals {
        return Err(diagnostic("module `stores` is used only by external declarations"));
    }
    Ok(())
}

/// A `#[geam::custom]` enum as far as its shape rules read it: whether it
/// has generic parameters or a where clause, and for each variant whether it
/// has an explicit discriminant.
pub struct CustomEnumShape {
    pub has_generic_params: bool,
    pub has_where_clause: bool,
    pub variant_discriminants: Vec<bool>,
}

pub open spec fn custom_shape_error(shape: CustomEnumShape) -> Option<Seq<char>> {
    if shape.has_generic_params || shape.has_where_clause {
        Some("custom value enums must not have generics"@)
    } else if shape.variant_discriminants@.len() == 0 {
        Some("custom value enums must declare at least one constructor"@)
    } else if shape.variant_discriminants@.contains(true) {
        Some("custom value constructors must not have Rust discriminants"@)
    } else {
        None
    }
}

/// Custom values are non-generic enums with at least one constructor and no
/// Rust discriminants.
pub fn validate_custom(shape: &CustomEnumShape) -> (result: Result<(), Diagnostic>)
    ensures
        match custom_shape_error(*shape) {
            Some(message) => result matches Err(error) && error.message@ == message,
            None => result is Ok,
        },
{
    if shape.has_generic_params || shape.has_where_clause {
        return Err(diagnostic("custom value enums must not have generics"));
    }
    if shape.variant_discriminants.len() == 0 {
        return Err(diagnostic("custom value enums must declare at least one constructor"));
    }
    let mut i: usize = 0;
    while i < shape.variant_discriminants.len()
        invariant
            i <= shape.variant_discriminants@.len(),
            forall|j: int| 0 <= j < i ==> !shape.variant_discriminants@[j],
            !shape.has_generic_params && !shape.has_where_clause,
            shape.variant_discriminants@.len() > 0,
        decreases shape.variant_discriminants.len() - i,
    {
        if shape.variant_discriminants[i] {
            assert(shape.variant_discriminants@.contains(true));
            return Err(diagnostic("custom value constructors must not have Rust discriminants"));
        }
        i = i + 1;
    }
    assert(!shape.variant_discriminants@.contains(true));
    Ok(())
}


/// An item of a provider module, as far as the declaration rules read it:
/// its kind, its name as written (a raw identifier keeps its `r#`), and its
/// attributes.
pub struct ModuleItem {
    pub kind: ItemKind,
    pub ident: String,
    pub attributes: Vec<AttributeModel>,
}

pub open spec fn has_marker(attributes: Seq<AttributeModel>, name: Seq<char>) -> bool {
    exists|i: int| 0 <= i < attributes.len() && is_marker(#[trigger] attributes[i], name)
}

/// An item declares a provider value type when it is a struct marked
/// `external` or an enum marked `custom`.
pub open spec fn declares_provider_type(item: ModuleItem) -> bool {
    ||| item.kind == ItemKind::Struct && has_marker(item.attributes@, "external"@)
    ||| item.kind == ItemKind::Enum && has_marker(item.attributes@, "custom"@)
}

fn has_marker_attribute(attributes: &Vec<AttributeModel>, name: &str) -> (found: bool)
    ensures
        found == has_marker(attributes@, name@),
{
    let mut i: usize = 0;
    while i < attributes.len()
        invariant
            i <= attributes@.len(),
            forall|j: int| 0 <= j < i ==> !is_marker(#[trigger] attributes@[j], name@),
        decreases attributes.len() - i,
    {
        if text_is(&attributes[i].last_segment, name) {
            assert(is_marker(attributes@[i as int], name@));
            return true;
        }
        i = i + 1;
    }
    false
}

/// The names of the provider value types that a module declares, each once
/// and without `r#`.
pub fn provider_type_names(items: &Vec<ModuleItem>) -> (names: Vec<String>)
    ensures
        forall|text: Seq<char>|
            texts(names@).contains(text) <==> exists|i: int|
                0 <= i < items@.len() && declares_provider_type(#[trigger] items@[i])
                    && unraw(items@[i].ident@) == text,
        forall|j: int, k: int|
            0 <= j < k < names@.len() ==> #[trigger] names@[j]@ != #[trigger] names@[k]@,
{
    let mut names: Vec<String> = Vec::new();
    let mut i: usize = 0;
    while i < items.len()
        invariant
            i <= items@.len(),
            forall|text: Seq<char>|
                texts(names@).contains(text) <==> exists|m: int|
                    0 <= m < i && declares_provider_type(#[trigger] items@[m]) && unraw(items@[m].ident@)
                        == text,
            forall|j: int, k: int|
                0 <= j < k < names@.len() ==> #[trigger] names@[j]@ != #[trigger] names@[k]@,
        decreases items.len() - i,
    {
        let item = &items[i];
        let declares = match item.kind {
            ItemKind::Struct => has_marker_attribute(&item.attributes, "external"),
            ItemKind::Enum => has_marker_attribute(&item.attributes, "custom"),
            ItemKind::Other => false,
        };
        let name = unraw_text(&item.ident);
        let ghost before = names@;
        if declares && !contains_text(&names, &name) {
            names.push(name);
        }
        proof {
            assert forall|text: Seq<char>|
                texts(names@).contains(text) <==> exists|m: int|
                    0 <= m < i + 1 && declares_provider_type(#[trigger] items@[m]) && unraw(items@[m].ident@)
                        == text by {
                if texts(names@).contains(text) {
                    let j = choose|j: int| 0 <= j < texts(names@).len() && texts(names@)[j] == text;
                    if j < before.len() {
                        assert(texts(before)[j] == text);
                        assert(texts(before).contains(text));
                    } else {
                        assert(declares_provider_type(items@[i as int]));
                    }
                }
                if exists|m: int|
                    0 <= m < i + 1 && declares_provider_type(#[trigger] items@[m]) && unraw(items@[m].ident@)
                        == text {
                    let m = choose|m: int|
                        0 <= m < i + 1 && declares_provider_type(#[trigger] items@[m])
                            && unraw(items@[m].ident@) == text;
                    if m < i {
                        assert(texts(before).contains(text));
                        let j = choose|j: int|
                            0 <= j < texts(before).len() && texts(before)[j] == text;
                        assert(texts(names@)[j] == texts(before)[j]);
                    } else if names@.len() > before.len() {
                        assert(texts(names@)[before.len() as int] == text);
                    } else {
                        assert(texts(before).contains(unraw(item.ident@)));
                    }
                }
            }
            assert forall|j: int, k: int| 0 <= j < k < names@.len() implies #[trigger] names@[j]@
                != #[trigger] names@[k]@ by {
                if k >= before.len() {
                    assert(texts(before)[j] == names@[j]@);
                    assert(names@[j] == before[j]);
                }
            }
        }
        i = i + 1;
    }
    names
}


/// A source name is accepted at most once: after a declaration's names were
/// recorded, a later declaration with the same source name is rejected with
/// the duplicate message and changes nothing.
pub proof fn law_source_names_are_accepted_once(
    duplicate_source_message: Seq<char>,
    conflict_message: Seq<char>,
    duplicate_input_message: Seq<char>,
    name: Seq<char>,
    input: Option<Seq<char>>,
    provider_type_names: Seq<Seq<char>>,
    sources: Seq<Seq<char>>,
    inputs: Seq<Seq<char>>,
    result: Result<(), Seq<char>>,
    middle_sources: Seq<Seq<char>>,
    middle_inputs: Seq<Seq<char>>,
    again_duplicate_source_message: Seq<char>,
    again_conflict_message: Seq<char>,
    again_duplicate_input_message: Seq<char>,
    again_input: Option<Seq<char>>,
    again: Result<(), Seq<char>>,
    final_sources: Seq<Seq<char>>,
    final_inputs: Seq<Seq<char>>,
)
    requires
        declaration_names_outcome(
            duplicate_source_message,
            conflict_message,
            duplicate_input_message,
            name,
            input,
            provider_type_names,
            sources,
            inputs,
            result,
            middle_sources,
            middle_inputs,
        ),
        declaration_names_outcome(
            again_duplicate_source_message,
            again_conflict_message,
            again_duplicate_input_message,
            name,
            again_input,
            provider_type_names,
            middle_sources,
            middle_inputs,
            again,
            final_sources,
            final_inputs,
        ),
    ensures
        again == Err::<(), Seq<char>>(again_duplicate_source_message),
        final_sources == middle_sources,
        final_inputs == middle_inputs,
{
    if !sources.contains(name) {
        assert(middle_sources[middle_sources.len() - 1] == name);
    }
}

/// A generated input name is accepted at most once, and never when it names
/// a provider value type.
pub proof fn law_generated_input_names_are_accepted_once(
    duplicate_source_message: Seq<char>,
    conflict_message: Seq<char>,
    duplicate_input_message: Seq<char>,
    name: Seq<char>,
    input: Seq<char>,
    provider_type_names: Seq<Seq<char>>,
    sources: Seq<Seq<char>>,
    inputs: Seq<Seq<char>>,
    result: Result<(), Seq<char>>,
    final_sources: Seq<Seq<char>>,
    final_inputs: Seq<Seq<char>>,
)
    requires
        declaration_names_outcome(
            duplicate_source_message,
            conflict_message,
            duplicate_input_message,
            name,
            Some(input),
            provider_type_names,
            sources,
            inputs,
            result,
            final_sources,
            final_inputs,
        ),
        result is Ok,
    ensures
        !inputs.contains(input),
        !provider_type_names.contains(input),
        final_inputs == inputs.push(input),
{
}

} // verus!
