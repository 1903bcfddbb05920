use geam_macros::attributes::{take_custom_marker, AttributeMeta, AttributeModel};
use geam_macros::custom_cycles::validate_custom_cycles;
use geam_macros::custom_value::{
    custom_dependencies, register_custom_list_decoders, CustomConstructorModel, CustomFieldModel,
    CustomFieldValueType, CustomFields, CustomModel, ListType,
};
use geam_macros::declarations::{register_custom_names, validate_custom, CustomEnumShape};
use geam_macros::list_model::{CollectionType, ListDecoderModel, StaticValueType};
use geam_macros::tokens::token_trees;
use proc_macro2::TokenStream;

fn field(value: StaticValueType) -> CustomFieldModel {
    CustomFieldModel {
        ident: None,
        definition: "definition".to_string(),
        value: CustomFieldValueType::Value(Box::new(value)),
    }
}

fn list_field(value: StaticValueType) -> CustomFieldModel {
    CustomFieldModel {
        ident: None,
        definition: "definition".to_string(),
        value: CustomFieldValueType::List(Box::new(ListType {
            collection: CollectionType {
                source: "Vec < First >".to_string(),
                item: "First".to_string(),
                value,
            },
            decoder: "__GeamListDecoder0".to_string(),
        })),
    }
}

fn constructor(ident: &str, fields: CustomFields) -> CustomConstructorModel {
    CustomConstructorModel {
        ident: ident.to_string(),
        definition: format!("{ident}Definition"),
        marker: format!("{ident}Marker"),
        fields,
    }
}

fn custom(ident: &str, input: Option<&str>, constructors: Vec<CustomConstructorModel>) -> CustomModel {
    CustomModel {
        ident: ident.to_string(),
        input: input.map(str::to_string),
        visibility: String::new(),
        schema: "schema".to_string(),
        decoder: "decoder".to_string(),
        constructors,
    }
}

#[test]
fn recursive_custom_declarations_are_rejected_with_the_exact_cycle() {
    let node = custom(
        "Node",
        None,
        vec![constructor("Next", CustomFields::Unnamed(vec![field(StaticValueType::Custom { index: 0 })]))],
    );
    assert_eq!(
        validate_custom_cycles(&[node]).err().expect("self reference").message(),
        "recursive custom values are not supported: Node -> Node",
    );

    let first = custom(
        "First",
        None,
        vec![constructor(
            "Next",
            CustomFields::Unnamed(vec![field(StaticValueType::Tuple(vec![
                StaticValueType::Scalar("bool".to_string()),
                StaticValueType::Custom { index: 1 },
            ]))]),
        )],
    );
    let second = custom(
        "Second",
        None,
        vec![constructor(
            "Next",
            CustomFields::Unnamed(vec![list_field(StaticValueType::Custom { index: 0 })]),
        )],
    );
    assert_eq!(
        validate_custom_cycles(&[first, second]).err().expect("mutual reference").message(),
        "recursive custom values are not supported: First -> Second -> First",
    );
}

#[test]
fn acyclic_custom_declarations_pass_and_cycles_start_at_the_repeated_declaration() {
    let leaf = custom("Leaf", None, vec![constructor("Leaf", CustomFields::Unit)]);
    let branch = custom(
        "Branch",
        None,
        vec![
            constructor("Empty", CustomFields::Unit),
            constructor(
                "Pair",
                CustomFields::Named(vec![
                    field(StaticValueType::Custom { index: 0 }),
                    field(StaticValueType::Option { value: Box::new(StaticValueType::Custom { index: 0 }) }),
                ]),
            ),
        ],
    );
    assert!(validate_custom_cycles(&[leaf, branch]).is_ok());
    assert!(validate_custom_cycles(&[]).is_ok());

    let start = custom(
        "Start",
        None,
        vec![constructor("Go", CustomFields::Unnamed(vec![field(StaticValueType::Custom { index: 1 })]))],
    );
    let loop_a = custom(
        "LoopA",
        None,
        vec![constructor("Go", CustomFields::Unnamed(vec![field(StaticValueType::Custom { index: 2 })]))],
    );
    let loop_b = custom(
        "LoopB",
        None,
        vec![constructor(
            "Go",
            CustomFields::Unnamed(vec![field(StaticValueType::Result {
                success: Box::new(StaticValueType::Scalar("bool".to_string())),
                failure: Box::new(StaticValueType::Custom { index: 1 }),
            })]),
        )],
    );
    assert_eq!(
        validate_custom_cycles(&[start, loop_a, loop_b]).err().expect("cycle").message(),
        "recursive custom values are not supported: LoopA -> LoopB -> LoopA",
    );
}

#[test]
fn dependencies_follow_constructor_and_field_order() {
    let mixed = custom(
        "Mixed",
        None,
        vec![
            constructor(
                "A",
                CustomFields::Unnamed(vec![
                    field(StaticValueType::Tuple(vec![
                        StaticValueType::Custom { index: 4 },
                        StaticValueType::Custom { index: 2 },
                    ])),
                    list_field(StaticValueType::Custom { index: 7 }),
                ]),
            ),
            constructor("B", CustomFields::Unit),
            constructor("C", CustomFields::Named(vec![field(StaticValueType::Custom { index: 4 })])),
        ],
    );
    assert_eq!(custom_dependencies(&mixed), vec![4, 2, 7, 4]);
}

#[test]
fn custom_shapes_names_and_markers_report_exact_diagnostics() {
    let shape = |generic: bool, where_clause: bool, variants: Vec<bool>| CustomEnumShape {
        has_generic_params: generic,
        has_where_clause: where_clause,
        variant_discriminants: variants,
    };
    assert_eq!(
        validate_custom(&shape(true, false, vec![false])).err().unwrap().message(),
        "custom value enums must not have generics",
    );
    assert_eq!(
        validate_custom(&shape(false, true, vec![false])).err().unwrap().message(),
        "custom value enums must not have generics",
    );
    assert_eq!(
        validate_custom(&shape(false, false, vec![])).err().unwrap().message(),
        "custom value enums must declare at least one constructor",
    );
    assert_eq!(
        validate_custom(&shape(false, false, vec![false, true])).err().unwrap().message(),
        "custom value constructors must not have Rust discriminants",
    );
    assert!(validate_custom(&shape(false, false, vec![false])).is_ok());

    let mut sources = vec!["Status".to_string()];
    let mut inputs = Vec::new();
    let providers = vec!["Status".to_string(), "First".to_string()];
    assert_eq!(
        register_custom_names(&"Status".to_string(), &None, &providers, &mut sources, &mut inputs)
            .err()
            .unwrap()
            .message(),
        "duplicate source type `Status`",
    );
    let mut sources = Vec::new();
    assert_eq!(
        register_custom_names(
            &"Status".to_string(),
            &Some("Status".to_string()),
            &providers,
            &mut sources,
            &mut inputs,
        )
        .err()
        .unwrap()
        .message(),
        "generated custom input type `Status` conflicts with provider value type `Status`",
    );
    assert!(register_custom_names(
        &"First".to_string(),
        &Some("SharedInput".to_string()),
        &providers,
        &mut sources,
        &mut inputs,
    )
    .is_ok());
    assert_eq!(
        register_custom_names(
            &"Second".to_string(),
            &Some("SharedInput".to_string()),
            &providers,
            &mut sources,
            &mut inputs,
        )
        .err()
        .unwrap()
        .message(),
        "duplicate generated input type `SharedInput`",
    );
    assert_eq!(sources, vec!["Status", "First", "Second"]);
    assert_eq!(inputs, vec!["SharedInput"]);
}

fn attribute(segment: &str, meta: AttributeMeta) -> AttributeModel {
    AttributeModel { last_segment: segment.to_string(), meta }
}

fn arguments(text: &str) -> AttributeMeta {
    AttributeMeta::List(token_trees(text.parse::<TokenStream>().unwrap()))
}

#[test]
fn custom_markers_are_taken_once_and_other_attributes_stay() {
    let mut attributes = vec![
        attribute("derive", arguments("Clone")),
        attribute("custom", arguments("input = StatusInput")),
        attribute("doc", AttributeMeta::NameValue),
    ];
    let taken = take_custom_marker(&mut attributes).unwrap().unwrap();
    assert_eq!(taken.input.unwrap(), "StatusInput");
    assert_eq!(attributes.len(), 2);
    assert_eq!(attributes[0].last_segment, "derive");
    assert_eq!(attributes[1].last_segment, "doc");

    let mut unmarked = vec![attribute("derive", arguments("Clone"))];
    assert!(take_custom_marker(&mut unmarked).unwrap().is_none());
    assert_eq!(unmarked.len(), 1);

    let mut bare = vec![attribute("custom", AttributeMeta::Path)];
    assert!(take_custom_marker(&mut bare).unwrap().unwrap().input.is_none());

    let mut twice = vec![
        attribute("custom", AttributeMeta::Path),
        attribute("custom", arguments("input = StatusInput")),
    ];
    assert_eq!(
        take_custom_marker(&mut twice).err().unwrap().message(),
        "duplicate `#[geam::custom]` attribute",
    );
    assert!(twice.is_empty());

    let mut assigned = vec![attribute("custom", AttributeMeta::NameValue)];
    assert_eq!(
        take_custom_marker(&mut assigned).err().unwrap().message(),
        "`#[geam::custom]` accepts only `input = Type` arguments",
    );

    let mut unknown = vec![attribute("custom", arguments("other = StatusInput"))];
    assert_eq!(
        take_custom_marker(&mut unknown).err().unwrap().message(),
        "unknown custom argument `other`",
    );
}

#[test]
fn custom_inputs_get_one_list_decoder_each() {
    let customs = vec![
        custom("Status", Some("StatusInput"), vec![constructor("Ready", CustomFields::Unit)]),
        custom("Plain", None, vec![constructor("Plain", CustomFields::Unit)]),
        custom("Reply", Some("ReplyInput"), vec![constructor("Reply", CustomFields::Unit)]),
    ];
    let mut decoders: Vec<ListDecoderModel> = Vec::new();
    let registered = register_custom_list_decoders(&customs, &mut decoders);
    assert_eq!(
        registered,
        vec![
            Some("__GeamListDecoder0".to_string()),
            None,
            Some("__GeamListDecoder1".to_string()),
        ],
    );
    assert_eq!(decoders[0].key, "custom:0");
    assert_eq!(decoders[1].key, "custom:2");
}

#[test]
fn raw_custom_input_names_are_compared_and_shown_without_their_prefix() {
    let providers = vec!["Status".to_string()];
    let mut sources = Vec::new();
    let mut inputs = Vec::new();
    assert_eq!(
        register_custom_names(
            &"Choice".to_string(),
            &Some("r#Status".to_string()),
            &providers,
            &mut sources,
            &mut inputs,
        )
        .err()
        .unwrap()
        .message(),
        "generated custom input type `Status` conflicts with provider value type `Status`",
    );
    assert!(register_custom_names(
        &"First".to_string(),
        &Some("r#Shared".to_string()),
        &providers,
        &mut sources,
        &mut inputs,
    )
    .is_ok());
    assert_eq!(inputs, vec!["Shared"]);
}
