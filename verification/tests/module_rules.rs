use geam_macros::attributes::{AttributeMeta, AttributeModel};
use geam_macros::declarations::{
    check_stores_projection, provider_type_names, register_external_names, ExternalDeclaration,
    ModuleItem,
};
use geam_macros::item::ItemKind;
use geam_macros::names::GeneratedNames;
use geam_macros::callable::{capture_mode, invocation_names};
use geam_macros::function::standalone_function_error;
use geam_macros::identifiers::InputOwnership;
use geam_macros::type_lists::{
    host_custom_constructor_sequence, host_custom_field_sequence, host_custom_index,
    host_value_sequence, provider_construction_bindings, provider_construction_index,
    provider_requirement_selection_bounds, provider_requirement_sequence,
    register_host_construction, register_provider_requirement, GeneratedConstruction,
};
use proc_macro2::TokenStream;

#[test]
fn explicit_external_modules_require_one_static_store_projection() {
    assert_eq!(
        check_stores_projection(true, false, true).err().unwrap().message(),
        "built-in modules with external declarations require a `stores` projection",
    );
    assert_eq!(
        check_stores_projection(true, true, false).err().unwrap().message(),
        "module `stores` is used only by external declarations",
    );
    assert!(check_stores_projection(true, true, true).is_ok());
    assert!(check_stores_projection(false, false, true).is_ok());
    assert!(check_stores_projection(false, true, false).is_ok());
}

fn external(name: &str, input: Option<&str>) -> ExternalDeclaration {
    ExternalDeclaration { name: name.to_string(), input: input.map(str::to_string) }
}

#[test]
fn source_identity_and_generated_input_names_have_distinct_owners() {
    let providers = vec!["Token".to_string(), "Status".to_string()];
    let mut sources = Vec::new();
    let mut inputs = Vec::new();
    assert!(register_external_names(&external("Token", None), &providers, &mut sources, &mut inputs)
        .is_ok());
    assert_eq!(
        register_external_names(&external("Token", None), &providers, &mut sources, &mut inputs)
            .err()
            .unwrap()
            .message(),
        "duplicate external source type `Token`",
    );
    assert_eq!(
        register_external_names(
            &external("Parcel", Some("Status")),
            &providers,
            &mut sources,
            &mut inputs,
        )
        .err()
        .unwrap()
        .message(),
        "generated external input type `Status` conflicts with provider value type `Status`",
    );
    assert!(register_external_names(
        &external("Package", Some("PackageInput")),
        &providers,
        &mut sources,
        &mut inputs,
    )
    .is_ok());
    assert_eq!(
        register_external_names(
            &external("Box", Some("PackageInput")),
            &providers,
            &mut sources,
            &mut inputs,
        )
        .err()
        .unwrap()
        .message(),
        "duplicate generated input type `PackageInput`",
    );
    assert_eq!(sources, vec!["Token", "Parcel", "Package", "Box"]);
    assert_eq!(inputs, vec!["PackageInput"]);
}

fn item(kind: ItemKind, ident: &str, markers: &[&str]) -> ModuleItem {
    ModuleItem {
        kind,
        ident: ident.to_string(),
        attributes: markers
            .iter()
            .map(|segment| AttributeModel { last_segment: segment.to_string(), meta: AttributeMeta::Path })
            .collect(),
    }
}

#[test]
fn provider_type_names_are_marked_structs_and_enums() {
    let items = vec![
        item(ItemKind::Struct, "Token", &["derive", "external"]),
        item(ItemKind::Enum, "Status", &["custom"]),
        item(ItemKind::Enum, "Plain", &["external"]),
        item(ItemKind::Struct, "Ordinary", &[]),
        item(ItemKind::Other, "helper", &["custom"]),
        item(ItemKind::Struct, "Token", &["external"]),
    ];
    assert_eq!(provider_type_names(&items), vec!["Token", "Status"]);
}

fn rendered(text: &str) -> String {
    text.parse::<TokenStream>().unwrap().to_string()
}

#[test]
fn type_level_indices_and_lists_render_as_token_streams_do() {
    assert_eq!(provider_construction_index(0, "support"), "support :: ProviderConstructionIndex0");
    assert_eq!(
        provider_construction_index(2, "support"),
        rendered("support::ProviderConstructionIndexNext<support::ProviderConstructionIndexNext<support::ProviderConstructionIndex0> >"),
    );
    assert_eq!(
        host_custom_index(1, ":: geam"),
        rendered("::geam::HostCustomIndexNext< ::geam::HostCustomIndex0 >"),
    );
    assert_eq!(
        host_custom_field_sequence(&vec!["A".to_string(), "B".to_string()], "s"),
        rendered("s::HostCustomFieldList<A, s::HostCustomFieldList<B, s::HostCustomFieldListEnd> >"),
    );
    assert_eq!(
        host_custom_constructor_sequence(&Vec::new(), "s"),
        "s :: HostCustomConstructorListEnd",
    );
    assert_eq!(
        host_value_sequence(&vec!["a".to_string(), "b".to_string()]),
        rendered("(a, (b, ()))"),
    );
    assert_eq!(host_value_sequence(&Vec::new()), "()");
}

#[test]
fn registered_constructions_use_fresh_names_and_keep_order() {
    let mut names = GeneratedNames::new();
    let mut constructions: Vec<GeneratedConstruction> = Vec::new();
    assert_eq!(
        register_host_construction("Value", "s", &mut names, &mut constructions),
        "__geam_construction_0",
    );
    names.next("value");
    assert_eq!(
        register_host_construction("Other", "s", &mut names, &mut constructions),
        "__geam_construction_2",
    );
    assert_eq!(constructions[0].requirement, "s :: ProviderConstruction < Value >");
    assert_eq!(constructions[1].binding, "__geam_construction_2");
    assert_eq!(
        provider_requirement_sequence(&constructions, "s"),
        rendered("s::ProviderConstructionList<s::ProviderConstruction<Value> , s::ProviderConstructionList<s::ProviderConstruction<Other> , s::ProviderNoConstructions> >"),
    );
}

#[test]
fn construction_bindings_select_each_requirement_by_position() {
    let mut names = GeneratedNames::new();
    let mut constructions: Vec<GeneratedConstruction> = Vec::new();
    register_host_construction("Value", "s", &mut names, &mut constructions);
    register_provider_requirement(rendered("s::ProviderContext"), &mut names, &mut constructions);
    assert_eq!(
        provider_construction_bindings(&constructions, "requirements", "s"),
        rendered(
            "let __geam_construction_0 = s::ProviderConstructions::select:: <s::ProviderConstructionIndex0>(requirements); \
             let __geam_construction_1 = s::ProviderConstructions::select:: <s::ProviderConstructionIndexNext<s::ProviderConstructionIndex0> >(requirements);"
        ),
    );
    assert_eq!(provider_construction_bindings(&Vec::new(), "requirements", "s"), "");
    let bounds = provider_requirement_selection_bounds("R", &constructions, "s");
    assert_eq!(bounds.len(), 2);
    assert_eq!(
        bounds[0],
        rendered("R: s::ProviderConstructionRequirementAt<s::ProviderConstructionIndex0, Requirement = s::ProviderConstruction<Value> , >"),
    );
    assert_eq!(
        bounds[1],
        rendered("R: s::ProviderConstructionRequirementAt<s::ProviderConstructionIndexNext<s::ProviderConstructionIndex0> , Requirement = s::ProviderContext , >"),
    );
}

#[test]
fn invocations_pass_every_argument_that_was_not_captured() {
    let names: Vec<String> = vec!["a".to_string(), "b".to_string(), "c".to_string()];
    assert_eq!(invocation_names(&names, &None), vec!["a", "b", "c"]);
    assert_eq!(invocation_names(&names, &Some(vec![0, 2])), vec!["b"]);
    assert_eq!(invocation_names(&names, &Some(vec![1, 7])), vec!["a", "c"]);
    assert_eq!(invocation_names(&names, &Some(vec![0, 1, 2])), Vec::<String>::new());
    assert_eq!(
        capture_mode(InputOwnership::Borrowed, "s"),
        rendered("s::ProviderImmediateCaptures"),
    );
    assert_eq!(capture_mode(InputOwnership::Owned, ":: geam"), rendered("::geam::ProviderOwnedCaptures"));
}

#[test]
fn function_markers_outside_a_module_are_rejected() {
    assert_eq!(
        standalone_function_error().message(),
        "`#[geam::function]` must be inside a `#[geam::module]` inline module",
    );
}

#[test]
fn raw_external_input_names_are_compared_without_their_prefix() {
    let providers = vec!["Status".to_string()];
    let mut sources = Vec::new();
    let mut inputs = Vec::new();
    assert_eq!(
        register_external_names(
            &external("Parcel", Some("r#Status")),
            &providers,
            &mut sources,
            &mut inputs,
        )
        .err()
        .unwrap()
        .message(),
        "generated external input type `r#Status` conflicts with provider value type `r#Status`",
    );
    assert!(register_external_names(
        &external("Package", Some("r#PackageInput")),
        &providers,
        &mut sources,
        &mut inputs,
    )
    .is_ok());
    assert_eq!(inputs, vec!["PackageInput"]);
    assert_eq!(
        register_external_names(
            &external("Box", Some("PackageInput")),
            &providers,
            &mut sources,
            &mut inputs,
        )
        .err()
        .unwrap()
        .message(),
        "duplicate generated input type `PackageInput`",
    );
}

#[test]
fn raw_provider_type_names_lose_their_prefix() {
    let items = vec![item(ItemKind::Struct, "r#Token", &["external"])];
    assert_eq!(provider_type_names(&items), vec!["Token"]);
}

fn custom_enum(name: &str) -> geam_macros::custom_headers::CustomEnumItem {
    geam_macros::custom_headers::CustomEnumItem {
        kind: ItemKind::Enum,
        name: name.to_string(),
        visibility: "pub".to_string(),
        attributes: vec![AttributeModel { last_segment: "custom".to_string(), meta: AttributeMeta::Path }],
        shape: geam_macros::declarations::CustomEnumShape {
            has_generic_params: false,
            has_where_clause: false,
            variant_discriminants: vec![false],
        },
        variants: vec![geam_macros::custom_build::VariantFacts {
            ident: "Ready".to_string(),
            fields: geam_macros::custom_build::FieldsFacts::Unit,
        }],
    }
}

fn module_outcome(
    externals: &[ExternalDeclaration],
    explicit_profile: bool,
    has_stores: bool,
    customs: &[&str],
) -> Result<usize, String> {
    let providers: Vec<String> = customs.iter().map(|name| name.to_string()).collect();
    let mut items: Vec<_> = customs.iter().map(|name| custom_enum(name)).collect();
    let externals: Vec<ExternalDeclaration> = externals
        .iter()
        .map(|external| ExternalDeclaration { name: external.name.clone(), input: external.input.clone() })
        .collect();
    geam_macros::module_checks::check_module_declarations(
        &externals,
        &providers,
        explicit_profile,
        has_stores,
        &mut items,
        &mut Vec::new(),
        &mut Vec::new(),
        &mut Vec::new(),
    )
    .map(|declarations| declarations.models.len())
    .map_err(|error| error.message())
}

#[test]
fn module_declarations_are_checked_in_module_order() {
    assert_eq!(
        module_outcome(&[external("Token", None), external("Token", None)], true, false, &["Token"]),
        Err("duplicate external source type `Token`".to_string()),
    );
    assert_eq!(
        module_outcome(&[external("Token", None)], true, false, &["Token"]),
        Err("built-in modules with external declarations require a `stores` projection".to_string()),
    );
    assert_eq!(
        module_outcome(&[external("Token", None)], true, true, &["Token"]),
        Err("duplicate source type `Token`".to_string()),
    );
    assert_eq!(
        module_outcome(&[], true, true, &["Status"]),
        Err("module `stores` is used only by external declarations".to_string()),
    );
    assert_eq!(module_outcome(&[external("Token", None)], true, true, &["Status", "Mode"]), Ok(2));
    assert_eq!(module_outcome(&[], false, false, &["Status"]), Ok(1));
}

fn external_code(payload: &str, default: bool) -> geam_macros::external_code::ExternalCode {
    geam_macros::external_code::ExternalCode {
        payload: payload.to_string(),
        name: format!("\"{payload}\""),
        store_field: format!("{}_store", payload.to_lowercase()),
        stored_payload: payload.to_string(),
        default_payload_semantics: default,
        schema: format!("{payload}Schema"),
        storage: format!("{payload}Storage"),
        manual_payload: None,
    }
}

#[test]
fn external_payload_impls_and_store_fields_render_as_token_streams_do() {
    let externals = vec![external_code("Token", true), external_code("Parcel", false), external_code("Box", true)];
    // `quote!` emits `>` as a lone punctuation, so the expected text keeps
    // `> ::eq` apart.
    let impl_of = |payload: &str| {
        format!(
            "impl ::geam::ExternalPayload for {payload} {{
                fn source_equal(&self, other: &Self) -> bool {{
                    <Self as ::core::cmp::PartialEq> ::eq(self, other)
                }}
                fn source_hash(&self) -> u64 {{
                    ::geam::external_payload_hash(self)
                }}
                fn inspect(&self) -> ::geam::EcoString {{
                    ::geam::EcoString::from(::core::concat!(\"{payload}\", \"(<opaque>)\"))
                }}
            }}"
        )
    };
    assert_eq!(
        geam_macros::external_code::payload_semantics(&externals, &rendered("::geam")),
        rendered(&format!("{} {}", impl_of("Token"), impl_of("Box"))),
    );
    assert_eq!(
        geam_macros::external_code::store_fields(&externals, &rendered("::geam")),
        rendered(
            "token_store: ::geam::HostExternalStore<Token> , parcel_store: ::geam::HostExternalStore<Parcel> , box_store: ::geam::HostExternalStore<Box> ,",
        ),
    );
    assert_eq!(geam_macros::external_code::payload_semantics(&Vec::new(), "s"), "");
    assert_eq!(
        geam_macros::external_code::payload_semantics(&vec![external_code("Token", false)], "s"),
        "",
    );
}

#[test]
fn provider_functions_and_callbacks_take_at_most_seven_source_arguments() {
    assert!(geam_macros::function::check_source_arguments(0, false).is_ok());
    assert!(geam_macros::function::check_source_arguments(7, false).is_ok());
    assert!(geam_macros::function::check_source_arguments(7, true).is_ok());
    assert_eq!(
        geam_macros::function::check_source_arguments(8, false).err().unwrap().message(),
        "provider functions support at most seven source arguments",
    );
    assert_eq!(
        geam_macros::function::check_source_arguments(8, true).err().unwrap().message(),
        "provider callbacks support at most seven source arguments",
    );
}
