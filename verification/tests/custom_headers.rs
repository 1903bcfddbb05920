use geam_macros::attributes::{AttributeMeta, AttributeModel};
use geam_macros::custom_headers::{
    collect_custom_headers, finish_custom_declarations, CustomEnumItem,
};
use geam_macros::custom_value::{
    CustomConstructorModel, CustomFieldModel, CustomFieldValueType, CustomFields, CustomModel,
};
use geam_macros::declarations::CustomEnumShape;
use geam_macros::item::ItemKind;
use geam_macros::list_model::{ListDecoderModel, StaticValueType};
use geam_macros::tokens::token_trees;
use proc_macro2::TokenStream;

fn attribute(segment: &str, meta: AttributeMeta) -> AttributeModel {
    AttributeModel { last_segment: segment.to_string(), meta }
}

fn arguments(text: &str) -> AttributeMeta {
    AttributeMeta::List(token_trees(text.parse::<TokenStream>().unwrap()))
}

fn shape(variants: usize) -> CustomEnumShape {
    CustomEnumShape {
        has_generic_params: false,
        has_where_clause: false,
        variant_discriminants: vec![false; variants],
    }
}

fn item(kind: ItemKind, name: &str, attributes: Vec<AttributeModel>, variants: usize) -> CustomEnumItem {
    CustomEnumItem {
        kind,
        name: name.to_string(),
        visibility: "pub".to_string(),
        attributes,
        shape: shape(variants),
        variants: Vec::new(),
    }
}

fn module_items() -> Vec<CustomEnumItem> {
    vec![
        item(ItemKind::Struct, "Token", vec![attribute("custom", AttributeMeta::Path)], 0),
        item(
            ItemKind::Enum,
            "Status",
            vec![
                attribute("derive", arguments("Clone")),
                attribute("custom", arguments("input = StatusInput")),
            ],
            2,
        ),
        item(ItemKind::Enum, "Plain", vec![attribute("derive", arguments("Debug"))], 1),
        item(ItemKind::Enum, "Mode", vec![attribute("custom", AttributeMeta::Path)], 1),
    ]
}

fn names(items: &[CustomEnumItem]) -> Vec<Vec<String>> {
    items
        .iter()
        .map(|item| item.attributes.iter().map(|attribute| attribute.last_segment.clone()).collect())
        .collect()
}

#[test]
fn custom_enums_get_headers_in_item_order_and_lose_their_markers() {
    let mut items = module_items();
    let mut sources = vec!["Token".to_string()];
    let mut inputs: Vec<String> = Vec::new();
    let provider = vec!["Token".to_string(), "Status".to_string(), "Mode".to_string()];
    let headers = collect_custom_headers(&mut items, &mut sources, &mut inputs, &provider)
        .unwrap_or_else(|error| panic!("{}", error.message()));
    assert_eq!(headers.len(), 2);
    assert_eq!(headers[0].ident, "Status");
    assert_eq!(headers[0].input.as_deref(), Some("StatusInput"));
    assert_eq!(headers[0].visibility, "pub");
    assert_eq!(headers[0].schema, "__GeamCustomSchema0");
    assert_eq!(headers[0].decoder, "__geam_decode_custom_0");
    assert_eq!(headers[1].ident, "Mode");
    assert_eq!(headers[1].input, None);
    assert_eq!(headers[1].schema, "__GeamCustomSchema1");
    assert_eq!(headers[1].decoder, "__geam_decode_custom_1");
    assert_eq!(sources, vec!["Token", "Status", "Mode"]);
    assert_eq!(inputs, vec!["StatusInput"]);
    assert_eq!(
        names(&items),
        vec![vec!["custom".to_string()], vec!["derive".to_string()], vec!["derive".to_string()], vec![]],
    );
}

#[test]
fn custom_headers_report_the_first_rejected_declaration() {
    let mut sources = vec!["Status".to_string()];
    let error = collect_custom_headers(&mut module_items(), &mut sources, &mut Vec::new(), &Vec::new())
        .err()
        .expect("a repeated source name is rejected");
    assert_eq!(error.message(), "duplicate source type `Status`");

    let provider = vec!["StatusInput".to_string()];
    let error = collect_custom_headers(&mut module_items(), &mut Vec::new(), &mut Vec::new(), &provider)
        .err()
        .expect("an input named like a provider type is rejected");
    assert_eq!(
        error.message(),
        "generated custom input type `StatusInput` conflicts with provider value type `StatusInput`",
    );

    let mut inputs = vec!["StatusInput".to_string()];
    let error = collect_custom_headers(&mut module_items(), &mut Vec::new(), &mut inputs, &Vec::new())
        .err()
        .expect("a repeated input name is rejected");
    assert_eq!(error.message(), "duplicate generated input type `StatusInput`");

    let mut empty = vec![item(ItemKind::Enum, "Never", vec![attribute("custom", AttributeMeta::Path)], 0)];
    let error = collect_custom_headers(&mut empty, &mut Vec::new(), &mut Vec::new(), &Vec::new())
        .err()
        .expect("an enum without constructors is rejected");
    assert_eq!(error.message(), "custom value enums must declare at least one constructor");

    let mut twice = vec![item(
        ItemKind::Enum,
        "Twice",
        vec![attribute("custom", AttributeMeta::Path), attribute("custom", AttributeMeta::Path)],
        1,
    )];
    let error = collect_custom_headers(&mut twice, &mut Vec::new(), &mut Vec::new(), &Vec::new())
        .err()
        .expect("a second marker is rejected");
    assert_eq!(error.message(), "duplicate `#[geam::custom]` attribute");
}

fn custom(ident: &str, input: Option<&str>, fields: Vec<StaticValueType>) -> CustomModel {
    CustomModel {
        ident: ident.to_string(),
        input: input.map(str::to_string),
        visibility: String::new(),
        schema: "schema".to_string(),
        decoder: "decoder".to_string(),
        constructors: vec![CustomConstructorModel {
            ident: "Only".to_string(),
            definition: "OnlyDefinition".to_string(),
            marker: "OnlyMarker".to_string(),
            fields: CustomFields::Unnamed(
                fields
                    .into_iter()
                    .map(|value| CustomFieldModel {
                        ident: None,
                        definition: "definition".to_string(),
                        value: CustomFieldValueType::Value(Box::new(value)),
                    })
                    .collect(),
            ),
        }],
    }
}

#[test]
fn finished_declarations_register_input_decoders_unless_recursive() {
    let mut decoders: Vec<ListDecoderModel> = Vec::new();
    let declarations = finish_custom_declarations(
        vec![
            custom("Leaf", Some("LeafInput"), vec![]),
            custom("Tree", None, vec![StaticValueType::Custom { index: 0 }]),
        ],
        &mut decoders,
    )
    .unwrap_or_else(|error| panic!("{}", error.message()));
    assert_eq!(declarations.models.len(), 2);
    assert_eq!(declarations.list_decoders, vec![Some("__GeamListDecoder0".to_string()), None]);
    assert_eq!(decoders.len(), 1);
    assert_eq!(decoders[0].key, "custom:0");

    let mut decoders: Vec<ListDecoderModel> = Vec::new();
    let error = finish_custom_declarations(
        vec![custom("Loop", Some("LoopInput"), vec![StaticValueType::Custom { index: 0 }])],
        &mut decoders,
    )
    .err()
    .expect("recursive declarations are rejected");
    assert_eq!(error.message(), "recursive custom values are not supported: Loop -> Loop");
    assert!(decoders.is_empty());
}

fn rejection(mut items: Vec<CustomEnumItem>, sources: &[&str]) -> String {
    let mut sources: Vec<String> = sources.iter().map(|source| source.to_string()).collect();
    let provider: Vec<String> = items
        .iter()
        .filter(|item| matches!(item.kind, ItemKind::Enum))
        .map(|item| item.name.clone())
        .collect();
    collect_custom_headers(&mut items, &mut sources, &mut Vec::new(), &provider)
        .err()
        .expect("the declarations are rejected")
        .message()
}

#[test]
fn custom_declaration_rules_report_each_rejection() {
    let marked = |name: &str, meta: AttributeMeta, shape: CustomEnumShape| CustomEnumItem {
        kind: ItemKind::Enum,
        name: name.to_string(),
        visibility: String::new(),
        attributes: vec![attribute("custom", meta)],
        shape,
        variants: Vec::new(),
    };
    let generic = CustomEnumShape { has_generic_params: true, ..shape(1) };
    assert_eq!(
        rejection(vec![marked("Status", AttributeMeta::Path, generic)], &[]),
        "custom value enums must not have generics",
    );
    let bounded = CustomEnumShape { has_where_clause: true, ..shape(1) };
    assert_eq!(
        rejection(vec![marked("Status", AttributeMeta::Path, bounded)], &[]),
        "custom value enums must not have generics",
    );
    assert_eq!(
        rejection(vec![marked("Status", AttributeMeta::Path, shape(0))], &[]),
        "custom value enums must declare at least one constructor",
    );
    let discriminant = CustomEnumShape { variant_discriminants: vec![false, true], ..shape(2) };
    assert_eq!(
        rejection(vec![marked("Status", AttributeMeta::Path, discriminant)], &[]),
        "custom value constructors must not have Rust discriminants",
    );
    assert_eq!(
        rejection(vec![marked("Status", AttributeMeta::NameValue, shape(1))], &[]),
        "`#[geam::custom]` accepts only `input = Type` arguments",
    );
    assert_eq!(
        rejection(vec![marked("Status", arguments("other = StatusInput"), shape(1))], &[]),
        "unknown custom argument `other`",
    );
    assert_eq!(
        rejection(vec![marked("Status", AttributeMeta::Path, shape(1))], &["Status"]),
        "duplicate source type `Status`",
    );
    assert_eq!(
        rejection(
            vec![
                marked("Status", AttributeMeta::Path, shape(1)),
                marked("Status", AttributeMeta::Path, shape(1)),
            ],
            &[],
        ),
        "duplicate source type `Status`",
    );
    assert_eq!(
        rejection(vec![marked("Status", arguments("input = Status"), shape(1))], &[]),
        "generated custom input type `Status` conflicts with provider value type `Status`",
    );
    assert_eq!(
        rejection(
            vec![
                marked("First", arguments("input = SharedInput"), shape(1)),
                marked("Second", arguments("input = SharedInput"), shape(1)),
            ],
            &[],
        ),
        "duplicate generated input type `SharedInput`",
    );
}

#[test]
fn raw_custom_names_keep_their_written_form_in_headers() {
    let mut items = vec![item(
        ItemKind::Enum,
        "r#Mode",
        vec![attribute("custom", arguments("input = r#ModeInput"))],
        1,
    )];
    let mut sources = Vec::new();
    let mut inputs = Vec::new();
    let headers = collect_custom_headers(&mut items, &mut sources, &mut inputs, &Vec::new())
        .unwrap_or_else(|error| panic!("{}", error.message()));
    assert_eq!(headers[0].ident, "r#Mode");
    assert_eq!(headers[0].input.as_deref(), Some("r#ModeInput"));
    assert_eq!(sources, vec!["Mode"]);
    assert_eq!(inputs, vec!["ModeInput"]);

    let mut again = vec![item(ItemKind::Enum, "Mode", vec![attribute("custom", AttributeMeta::Path)], 1)];
    let error = collect_custom_headers(&mut again, &mut sources, &mut inputs, &Vec::new())
        .err()
        .unwrap();
    assert_eq!(error.message(), "duplicate source type `Mode`");
}

#[test]
fn rejected_passes_leave_names_and_items_where_they_stopped() {
    let provider = vec!["StatusInput".to_string()];
    let mut items = module_items();
    let mut sources = Vec::new();
    let mut inputs = Vec::new();
    assert!(collect_custom_headers(&mut items, &mut sources, &mut inputs, &provider).is_err());
    assert_eq!(sources, vec!["Status"]);
    assert!(inputs.is_empty());
    assert_eq!(
        names(&items),
        vec![vec!["custom".to_string()], vec!["derive".to_string()], vec!["derive".to_string()], vec!["custom".to_string()]],
    );

    let mut twice = vec![item(
        ItemKind::Enum,
        "Twice",
        vec![attribute("derive", arguments("Clone")), attribute("custom", AttributeMeta::Path), attribute("custom", AttributeMeta::Path)],
        1,
    )];
    assert!(collect_custom_headers(&mut twice, &mut Vec::new(), &mut Vec::new(), &Vec::new()).is_err());
    assert!(twice[0].attributes.is_empty());
}
