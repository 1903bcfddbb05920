use geam_macros::bounds::deduplicate_bounds;
use geam_macros::generics::{GenericParamModel, GenericParameterScope, GenericsModel};
use geam_macros::identifiers::{
    constructor_names, custom_decoder, custom_schema, declared_access_field, declared_names,
    field_definition, flavored_ident, list_marker_ident, InputOwnership,
};
use geam_macros::names::{phantom_variant_name, GeneratedNames};
use proc_macro2::TokenStream;

fn type_param(ident: &str) -> GenericParamModel {
    GenericParamModel::Type { ident: ident.to_string(), has_bounds: false, has_default: false }
}

fn generics(params: Vec<GenericParamModel>, has_where_clause: bool) -> GenericsModel {
    GenericsModel { params, has_where_clause }
}

#[test]
fn generic_scope_rejects_every_form_but_plain_type_parameters() {
    let cases = [
        (generics(vec![type_param("T")], true), "provider functions must not have where clauses"),
        (
            generics(vec![type_param("T"), GenericParamModel::Lifetime], false),
            "provider functions must not have lifetime generics",
        ),
        (
            generics(vec![GenericParamModel::Const, type_param("T")], false),
            "provider functions must not have const generics",
        ),
        (
            generics(
                vec![GenericParamModel::Type {
                    ident: "T".to_string(),
                    has_bounds: true,
                    has_default: true,
                }],
                false,
            ),
            "provider function type generics must not have bounds",
        ),
        (
            generics(
                vec![GenericParamModel::Type {
                    ident: "T".to_string(),
                    has_bounds: false,
                    has_default: true,
                }],
                false,
            ),
            "provider function type generics must not have defaults",
        ),
    ];
    for (model, expected) in cases {
        assert_eq!(GenericParameterScope::new(&model).err().unwrap().message(), expected);
    }
}

#[test]
fn generic_indices_follow_first_use_and_every_parameter_must_be_used() {
    let mut scope =
        GenericParameterScope::new(&generics(vec![type_param("T"), type_param("U")], false)).unwrap();
    assert_eq!(scope.declared_ident(&Some("U".to_string())), Some("U".to_string()));
    assert_eq!(scope.declared_ident(&Some("V".to_string())), None);
    assert_eq!(scope.declared_ident(&None), None);
    assert_eq!(scope.parameter_index("U".to_string()), 0);
    assert_eq!(scope.parameter_index("T".to_string()), 1);
    assert_eq!(scope.parameter_index("U".to_string()), 0);
    let finished = scope.finish().unwrap();
    assert_eq!(finished.len(), 2);
    assert_eq!((finished[0].ident.as_str(), finished[0].index), ("T", 1));
    assert_eq!((finished[1].ident.as_str(), finished[1].index), ("U", 0));

    let mut unused =
        GenericParameterScope::new(&generics(vec![type_param("T"), type_param("U")], false)).unwrap();
    unused.parameter_index("T".to_string());
    assert_eq!(
        unused.finish().err().unwrap().message(),
        "generic parameter `U` must appear inside a Value<...> source shape",
    );
}

#[test]
fn generated_names_count_across_roles() {
    let mut names = GeneratedNames::new();
    assert_eq!(names.next("construction"), "__geam_construction_0");
    assert_eq!(names.next("value"), "__geam_value_1");
    assert_eq!(names.next("construction"), "__geam_construction_2");
    names.next = 41;
    assert_eq!(names.next("value"), "__geam_value_41");
}

#[test]
fn phantom_markers_do_not_shadow_author_declared_variants() {
    let taken = vec!["__GeamParameters".to_string(), "__GeamParameters_".to_string()];
    assert_eq!(phantom_variant_name(&taken), "__GeamParameters__");
    assert_eq!(phantom_variant_name(&vec!["Ready".to_string()]), "__GeamParameters");
    let gap = vec!["__GeamParameters".to_string(), "__GeamParameters__".to_string()];
    assert_eq!(phantom_variant_name(&gap), "__GeamParameters_");
}

#[test]
fn declared_access_fields_hex_encode_the_type_tokens() {
    let rendered = "crate::Tag".parse::<TokenStream>().unwrap().to_string();
    let expected: String = rendered.bytes().map(|byte| format!("{byte:02x}")).collect();
    assert_eq!(declared_access_field(&rendered), format!("__geam_declared_{expected}"));
    assert_eq!(declared_access_field("Tag"), "__geam_declared_546167");
    assert_eq!(declared_access_field("é"), "__geam_declared_c3a9");
    let (item, decoder) = declared_names("Tag");
    assert_eq!(item, "__GeamItem__geam_declared_546167");
    assert_eq!(decoder, "__GeamDecoder__geam_declared_546167");
}

#[test]
fn flavored_and_indexed_names_are_exact() {
    assert_eq!(flavored_ident("StatusInput", InputOwnership::Borrowed), "__GeamImmediateStatusInput");
    assert_eq!(flavored_ident("StatusInput", InputOwnership::Owned), "__GeamOwnedStatusInput");
    assert_eq!(list_marker_ident("StatusInput", InputOwnership::Owned), "__GeamOwnedStatusInputList");
    assert_eq!(custom_schema(12), "__GeamCustomSchema12");
    assert_eq!(custom_decoder(3), "__geam_decode_custom_3");
    let (marker, definition) = constructor_names(2, 5);
    assert_eq!(marker, "__GeamCustom2Constructor5");
    assert_eq!(definition, "__GeamCustom2Constructor5Definition");
    assert_eq!(field_definition(0, 1, 10), "__GeamCustom0Constructor1Field10");
}

#[test]
fn bounds_keep_their_first_occurrence() {
    let bounds = vec![
        "T : Clone".to_string(),
        "U : Copy".to_string(),
        "T : Clone".to_string(),
        "V : Send".to_string(),
        "U : Copy".to_string(),
    ];
    assert_eq!(deduplicate_bounds(bounds), vec!["T : Clone", "U : Copy", "V : Send"]);
    assert!(deduplicate_bounds(Vec::new()).is_empty());
}

#[test]
fn distinct_custom_declarations_get_distinct_generated_items() {
    let schemas: Vec<String> = (0..12).map(custom_schema).collect();
    let decoders: Vec<String> = (0..12).map(custom_decoder).collect();
    for i in 0..12 {
        for j in 0..12 {
            if i != j {
                assert_ne!(schemas[i], schemas[j]);
                assert_ne!(decoders[i], decoders[j]);
            }
        }
    }
    assert_ne!(custom_schema(1), custom_schema(10));
}

#[test]
fn constructor_and_field_definitions_never_share_a_name() {
    assert_ne!(constructor_names(1, 12), constructor_names(11, 2));
    assert_ne!(field_definition(1, 1, 11), field_definition(1, 11, 1));
    assert_ne!(field_definition(1, 11, 1), field_definition(11, 1, 1));
    assert_eq!(field_definition(1, 11, 1), "__GeamCustom1Constructor11Field1");
}

#[test]
fn declared_parameters_are_found_only_by_plain_identifier_types() {
    let scope =
        GenericParameterScope::new(&generics(vec![type_param("T"), type_param("U")], false)).unwrap();
    let found = |text: &str| scope.declared_type_ident(text.parse::<TokenStream>().unwrap());
    assert_eq!(found("U"), Some("U".to_string()));
    assert_eq!(found("V"), None);
    assert_eq!(found("Vec<U>"), None);
    assert_eq!(found("::U"), None);
    assert_eq!(found("<T as Trait>::U"), None);
    assert_eq!(found("&U"), None);
}
