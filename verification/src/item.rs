use proc_macro2::TokenStream;
use vstd::prelude::*;

verus! {

/// The kind of item that an attribute was applied to.
pub enum ItemKind {
    Enum,
    Struct,
    Other,
}

/// What parsing a token stream as a Rust item gives: its kind, or the
/// parser's message.
pub uninterp spec fn parsed_item_kind(item: TokenStream) -> Result<ItemKind, Seq<char>>;

pub open spec fn kind_text(kind: Result<ItemKind, String>) -> Result<ItemKind, Seq<char>> {
    match kind {
        Ok(kind) => Ok(kind),
        Err(message) => Err(message@),
    }
}

/// Parses `item` as a Rust item (`syn::parse2::<syn::Item>`) and tells enums
/// and structs apart from every other item; a rejected item yields the
/// parser's message (`syn::Error`'s `Display`). The contract claims only that
/// the outcome depends on the tokens alone, named `parsed_item_kind`.
#[verifier::external_body]
pub fn parse_item_kind(item: TokenStream) -> (kind: Result<ItemKind, String>)
    ensures
        kind_text(kind) == parsed_item_kind(item),
{
    match syn::parse2::<syn::Item>(item) {
        Ok(syn::Item::Enum(_)) => Ok(ItemKind::Enum),
        Ok(syn::Item::Struct(_)) => Ok(ItemKind::Struct),
        Ok(_) => Ok(ItemKind::Other),
        Err(error) => Err(error.to_string()),
    }
}

} // verus!
