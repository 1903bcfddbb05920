use crate::diagnostic::Diagnostic;
use crate::item::{ItemKind, kind_text, parse_item_kind, parsed_item_kind};
use proc_macro2::TokenStream;
use vstd::prelude::*;

verus! {

/// What `#[geam::custom]` reports when it stands outside a module: a parse
/// error of the item as the parser gave it, otherwise where the attribute
/// belongs.
pub open spec fn custom_placement_message(parsed: Result<ItemKind, Seq<char>>) -> Seq<char> {
    match parsed {
        Ok(ItemKind::Enum) => "`#[geam::custom]` must be inside a `#[geam::module]` inline module"@,
        Ok(_) => "`#[geam::custom]` must be applied to an enum inside a `#[geam::module]` inline module"@,
        Err(message) => message,
    }
}

pub fn custom_placement_error(parsed: Result<ItemKind, String>) -> (error: Diagnostic)
    ensures
        error.message@ == custom_placement_message(kind_text(parsed)),
{
    let mut message = String::new();
    match parsed {
        Ok(ItemKind::Enum) => {
            message.append("`#[geam::custom]` must be inside a `#[geam::module]` inline module");
        },
        Ok(_) => {
            message.append(
                "`#[geam::custom]` must be applied to an enum inside a `#[geam::module]` inline module",
            );
        },
        Err(parser) => {
            message = parser;
        },
    }
    Diagnostic { message }
}

/// `#[geam::custom]` is read by `#[geam::module]` only; standing on its own it
/// rejects the item it is applied to.
pub fn expand(arguments: TokenStream, item: TokenStream) -> (result: Result<TokenStream, Diagnostic>)
    ensures
        result matches Err(error) && error.message@ == custom_placement_message(parsed_item_kind(item)),
{
    let parsed = parse_item_kind(item);
    let ghost given = parsed;
    let error = custom_placement_error(parsed);
    assert(error.message@ == custom_placement_message(kind_text(given)));
    Err(error)
}

} // verus!
