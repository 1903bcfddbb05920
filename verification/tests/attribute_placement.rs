use geam_macros::custom;
use geam_macros::external;
use geam_macros::item::ItemKind;
use proc_macro2::TokenStream;

fn tokens(text: &str) -> TokenStream {
    text.parse().expect("test tokens should lex")
}

#[test]
fn custom_attribute_rejects_standalone_and_non_enum_targets() {
    assert_eq!(
        custom::expand(tokens("input = StatusInput"), tokens("enum Status {}"))
            .expect_err("standalone custom enums should fail")
            .message(),
        "`#[geam::custom]` must be inside a `#[geam::module]` inline module",
    );
    assert_eq!(
        custom::expand(tokens("input = StatusInput"), tokens("struct Status;"))
            .expect_err("custom structs should fail")
            .message(),
        "`#[geam::custom]` must be applied to an enum inside a `#[geam::module]` inline module",
    );
    assert_eq!(
        custom::expand(tokens("input = StatusInput"), tokens("enum"))
            .expect_err("malformed items should preserve their parser error")
            .message(),
        "unexpected end of input, expected identifier",
    );
}

#[test]
fn external_attribute_rejects_standalone_and_non_struct_targets() {
    assert_eq!(
        external::expand(tokens("name = \"Metrics\""), tokens("struct Metrics;"))
            .expect_err("standalone external structs should fail")
            .message(),
        "`#[geam::external]` must be inside a `#[geam::module]` inline module",
    );
    assert_eq!(
        external::expand(tokens("name = \"Metrics\""), tokens("enum Metrics {}"))
            .expect_err("external enums should fail")
            .message(),
        "`#[geam::external]` must be applied to a struct inside a `#[geam::module]` inline module",
    );
    assert_eq!(
        external::expand(tokens("name = \"Metrics\""), tokens("struct"))
            .expect_err("malformed items should preserve their parser error")
            .message(),
        "unexpected end of input, expected identifier",
    );
}

#[test]
fn placement_errors_follow_the_parsed_item_kind() {
    assert_eq!(
        custom::custom_placement_error(Ok(ItemKind::Other)).message(),
        "`#[geam::custom]` must be applied to an enum inside a `#[geam::module]` inline module",
    );
    assert_eq!(
        external::external_placement_error(Ok(ItemKind::Enum)).message(),
        "`#[geam::external]` must be applied to a struct inside a `#[geam::module]` inline module",
    );
    assert_eq!(
        external::external_placement_error(Err("parser says no".to_string())).message(),
        "parser says no",
    );
    assert_eq!(
        custom::expand(tokens(""), tokens("fn helper() {}"))
            .expect_err("functions are not custom declarations")
            .message(),
        "`#[geam::custom]` must be applied to an enum inside a `#[geam::module]` inline module",
    );
}
