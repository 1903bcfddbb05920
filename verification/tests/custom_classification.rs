use geam_macros::attributes::{AttributeMeta, AttributeModel};
use geam_macros::custom_build::{
    build_custom_field, build_custom_model, classify_custom_output_value, FieldsFacts,
    NamedFieldFacts, VariantFacts,
};
use geam_macros::custom_classify::{
    classify_custom_value, ExternalNames, TypeFacts, WrapperFacts,
};
use geam_macros::custom_collect::collect_custom_declarations;
use geam_macros::custom_headers::{CustomEnumItem, CustomHeader};
use geam_macros::custom_input::{custom_input_expression, custom_output_pattern};
use geam_macros::names::GeneratedNames;
use geam_macros::custom_value::{
    CustomConstructorModel, CustomFieldModel, CustomFieldValueType, CustomFields,
};
use geam_macros::declarations::CustomEnumShape;
use geam_macros::item::ItemKind;
use geam_macros::list_model::{static_value_key, ListDecoderModel, StaticValueType};
use geam_macros::tokens::token_trees;
use proc_macro2::TokenStream;

fn plain(text: &str) -> TypeFacts {
    TypeFacts {
        text: text.to_string(),
        is_reference: false,
        is_list: false,
        is_vec: false,
        vec_item: Ok(None),
        wrapper: Ok(WrapperFacts::Other),
        external: None,
        path_ident: None,
        elements: Vec::new(),
        qualified: false,
    }
}

fn named_path(ident: &str) -> TypeFacts {
    TypeFacts { path_ident: Some(ident.to_string()), ..plain(ident) }
}

fn qualified(text: &str) -> TypeFacts {
    TypeFacts { qualified: true, ..plain(text) }
}

fn vec_of(text: &str, item: TypeFacts) -> TypeFacts {
    TypeFacts { is_vec: true, vec_item: Ok(Some(Box::new(item))), ..plain(text) }
}

fn header(ident: &str, input: Option<&str>, index: usize) -> CustomHeader {
    CustomHeader {
        ident: ident.to_string(),
        input: input.map(str::to_string),
        visibility: "pub".to_string(),
        schema: format!("__GeamCustomSchema{index}"),
        decoder: format!("__geam_decode_custom_{index}"),
        item: index,
    }
}

fn key(value: &StaticValueType) -> String {
    static_value_key(value)
}

#[test]
fn field_types_are_classified_in_the_documented_order() {
    let headers = vec![header("Leaf", Some("LeafInput"), 0)];
    let external = TypeFacts {
        external: Some(ExternalNames {
            payload: "Photo".to_string(),
            schema: "PhotoSchema".to_string(),
            store_field: "photos".to_string(),
        }),
        path_ident: Some("Photo".to_string()),
        ..plain("Photo")
    };
    let wrapped = TypeFacts {
        wrapper: Ok(WrapperFacts::Result {
            success: Box::new(TypeFacts {
                wrapper: Ok(WrapperFacts::Option { value: Box::new(named_path("Leaf")) }),
                ..plain("Option < Leaf >")
            }),
            failure: Box::new(qualified("crate :: Failure")),
        }),
        ..plain("Result < Option < Leaf > , crate :: Failure >")
    };
    let tuple = TypeFacts { elements: vec![plain("u8"), external], ..plain("(u8 , Photo)") };

    let value = classify_custom_value(&wrapped, &headers).unwrap_or_else(|error| panic!("{}", error.message()));
    assert_eq!(key(&value), "result:<option:<custom:0>,declared:crate :: Failure>");
    let value = classify_custom_value(&tuple, &headers).unwrap_or_else(|error| panic!("{}", error.message()));
    assert_eq!(key(&value), "tuple:(scalar:u8,external:PhotoSchema)");
    let value = classify_custom_value(&plain("bool"), &headers).unwrap_or_else(|error| panic!("{}", error.message()));
    assert_eq!(key(&value), "scalar:bool");
}

#[test]
fn rejected_field_types_report_exact_messages() {
    let headers = vec![header("Leaf", Some("LeafInput"), 0)];
    let message = |facts: TypeFacts| -> String {
        classify_custom_value(&facts, &headers).err().expect("the type is rejected").message()
    };
    assert_eq!(
        message(TypeFacts { is_reference: true, ..plain("& Leaf") }),
        "custom output fields must be owned values",
    );
    assert_eq!(
        message(TypeFacts { is_list: true, ..plain("geam :: List < u8 >") }),
        "List values are not supported inside custom tuple fields",
    );
    assert_eq!(
        message(named_path("LeafInput")),
        "custom input `LeafInput` cannot be stored in an output; use `Leaf`",
    );
    assert_eq!(
        message(TypeFacts { wrapper: Err("unsupported wrapper".to_string()), ..plain("Result") }),
        "unsupported wrapper",
    );
    assert_eq!(
        message(TypeFacts {
            elements: vec![plain("u8"), TypeFacts { is_reference: true, ..plain("& str") }, named_path("LeafInput")],
            ..plain("(u8 , & str , LeafInput)")
        }),
        "custom output fields must be owned values",
    );

    let mut decoders: Vec<ListDecoderModel> = Vec::new();
    let error = classify_custom_output_value(&TypeFacts { is_list: true, ..plain("List < u8 >") }, &headers, &mut decoders)
        .err()
        .expect("List outputs are rejected");
    assert_eq!(
        error.message(),
        "custom output List fields use Vec<T>; generated input values use geam::List<T>",
    );
    let error = classify_custom_output_value(
        &vec_of("Vec < Vec < u8 > >", TypeFacts { is_vec: true, ..plain("Vec < u8 >") }),
        &headers,
        &mut decoders,
    )
    .err()
    .expect("nested Lists are rejected");
    assert_eq!(error.message(), "nested List values are not supported in custom declarations");
    let error = classify_custom_output_value(
        &vec_of("Vec < & u8 >", TypeFacts { is_reference: true, ..plain("& u8") }),
        &headers,
        &mut decoders,
    )
    .err()
    .expect("borrowed List items are rejected");
    assert_eq!(error.message(), "custom List item outputs must be owned values");
    assert!(decoders.is_empty());
}

#[test]
fn vec_fields_register_one_decoder_per_item_shape() {
    let headers = vec![header("Leaf", None, 0)];
    let mut decoders: Vec<ListDecoderModel> = Vec::new();
    let field = build_custom_field(2, 1, 0, Some("children".to_string()), &vec_of("Vec < Leaf >", named_path("Leaf")), &headers, &mut decoders)
        .unwrap_or_else(|error| panic!("{}", error.message()));
    assert_eq!(field.ident.as_deref(), Some("children"));
    assert_eq!(field.definition, "__GeamCustom2Constructor1Field0");
    match &field.value {
        CustomFieldValueType::List(list) => {
            assert_eq!(list.collection.source, "Vec < Leaf >");
            assert_eq!(list.collection.item, "Leaf");
            assert_eq!(key(&list.collection.value), "custom:0");
            assert_eq!(list.decoder, "__GeamListDecoder0");
        }
        CustomFieldValueType::Value(_) => panic!("a Vec field is a List field"),
    }
    let again = classify_custom_output_value(&vec_of("Vec < Leaf >", named_path("Leaf")), &headers, &mut decoders)
        .unwrap_or_else(|error| panic!("{}", error.message()));
    match again {
        CustomFieldValueType::List(list) => assert_eq!(list.decoder, "__GeamListDecoder0"),
        CustomFieldValueType::Value(_) => panic!("a Vec field is a List field"),
    }
    assert_eq!(decoders.len(), 1);
}

fn leaf_variants() -> Vec<VariantFacts> {
    vec![
        VariantFacts { ident: "Small".to_string(), fields: FieldsFacts::Unnamed(vec![plain("u8")]) },
        VariantFacts { ident: "Nothing".to_string(), fields: FieldsFacts::Unit },
    ]
}

fn tree_variants(child: &str) -> Vec<VariantFacts> {
    vec![VariantFacts {
        ident: "Node".to_string(),
        fields: FieldsFacts::Named(vec![
            NamedFieldFacts {
                ident: "children".to_string(),
                type_: vec_of(&format!("Vec < {child} >"), named_path(child)),
            },
            NamedFieldFacts { ident: "tag".to_string(), type_: qualified("crate :: Tag") },
        ]),
    }]
}

#[test]
fn models_name_constructors_and_fields_by_position() {
    let headers = vec![header("Leaf", Some("LeafInput"), 0), header("Tree", None, 1)];
    let mut decoders: Vec<ListDecoderModel> = Vec::new();
    let model = build_custom_model(1, &headers[1], &tree_variants("Leaf"), &headers, &mut decoders)
        .unwrap_or_else(|error| panic!("{}", error.message()));
    assert_eq!(model.ident, "Tree");
    assert_eq!(model.schema, "__GeamCustomSchema1");
    assert_eq!(model.decoder, "__geam_decode_custom_1");
    assert_eq!(model.constructors.len(), 1);
    let node = &model.constructors[0];
    assert_eq!(node.ident, "Node");
    assert_eq!(node.marker, "__GeamCustom1Constructor0");
    assert_eq!(node.definition, "__GeamCustom1Constructor0Definition");
    match &node.fields {
        CustomFields::Named(fields) => {
            assert_eq!(fields.len(), 2);
            assert_eq!(fields[1].ident.as_deref(), Some("tag"));
            assert_eq!(fields[1].definition, "__GeamCustom1Constructor0Field1");
            match &fields[1].value {
                CustomFieldValueType::Value(value) => assert_eq!(key(value), "declared:crate :: Tag"),
                CustomFieldValueType::List(_) => panic!("a declared field is a value"),
            }
        }
        _ => panic!("named fields stay named"),
    }
    let error = build_custom_model(0, &headers[0], &tree_variants("LeafInput"), &headers, &mut decoders)
        .err()
        .expect("a stored input is rejected");
    assert_eq!(error.message(), "custom input `LeafInput` cannot be stored in an output; use `Leaf`");
}

fn enum_item(name: &str, marker: AttributeMeta, variants: Vec<VariantFacts>) -> CustomEnumItem {
    CustomEnumItem {
        kind: ItemKind::Enum,
        name: name.to_string(),
        visibility: "pub".to_string(),
        attributes: vec![AttributeModel { last_segment: "custom".to_string(), meta: marker }],
        shape: CustomEnumShape {
            has_generic_params: false,
            has_where_clause: false,
            variant_discriminants: vec![false; variants.len()],
        },
        variants,
    }
}

fn input_marker(input: &str) -> AttributeMeta {
    AttributeMeta::List(token_trees(format!("input = {input}").parse::<TokenStream>().unwrap()))
}

#[test]
fn collected_declarations_share_the_decoder_of_equal_item_shapes() {
    let mut items = vec![
        enum_item("Leaf", input_marker("LeafInput"), leaf_variants()),
        enum_item("Tree", AttributeMeta::Path, tree_variants("Leaf")),
    ];
    let mut decoders: Vec<ListDecoderModel> = Vec::new();
    let declarations = collect_custom_declarations(&mut items, &mut Vec::new(), &mut Vec::new(), &Vec::new(), &mut decoders)
        .unwrap_or_else(|error| panic!("{}", error.message()));
    assert_eq!(declarations.models.len(), 2);
    assert_eq!(declarations.models[0].ident, "Leaf");
    assert_eq!(declarations.models[0].input.as_deref(), Some("LeafInput"));
    assert_eq!(declarations.models[1].ident, "Tree");
    assert_eq!(declarations.list_decoders, vec![Some("__GeamListDecoder0".to_string()), None]);
    assert_eq!(decoders.len(), 1);
    assert_eq!(decoders[0].key, "custom:0");
    assert!(items.iter().all(|item| item.attributes.is_empty()));
}

#[test]
fn collected_declarations_reject_recursion_and_bad_fields() {
    let mut items = vec![enum_item("Tree", AttributeMeta::Path, tree_variants("Tree"))];
    let error = collect_custom_declarations(&mut items, &mut Vec::new(), &mut Vec::new(), &Vec::new(), &mut Vec::new())
        .err()
        .expect("recursive declarations are rejected");
    assert_eq!(error.message(), "recursive custom values are not supported: Tree -> Tree");

    let mut items = vec![
        enum_item("Leaf", input_marker("LeafInput"), leaf_variants()),
        enum_item("Tree", AttributeMeta::Path, tree_variants("LeafInput")),
    ];
    let error = collect_custom_declarations(&mut items, &mut Vec::new(), &mut Vec::new(), &Vec::new(), &mut Vec::new())
        .err()
        .expect("a stored input is rejected");
    assert_eq!(error.message(), "custom input `LeafInput` cannot be stored in an output; use `Leaf`");

    let mut items = vec![enum_item("Leaf", input_marker("Leaf"), leaf_variants())];
    let provider = vec!["Leaf".to_string()];
    let error = collect_custom_declarations(&mut items, &mut Vec::new(), &mut Vec::new(), &provider, &mut Vec::new())
        .err()
        .expect("an input named like a provider type is rejected");
    assert_eq!(
        error.message(),
        "generated custom input type `Leaf` conflicts with provider value type `Leaf`",
    );
}

fn rendered(text: &str) -> String {
    text.parse::<TokenStream>().unwrap().to_string()
}

fn input_constructor(fields: CustomFields) -> CustomConstructorModel {
    CustomConstructorModel {
        ident: "Variant".to_string(),
        definition: "VariantDefinition".to_string(),
        marker: "VariantMarker".to_string(),
        fields,
    }
}

fn named_field(name: &str) -> CustomFieldModel {
    CustomFieldModel {
        ident: Some(name.to_string()),
        definition: "definition".to_string(),
        value: CustomFieldValueType::Value(Box::new(StaticValueType::Scalar("u8".to_string()))),
    }
}

#[test]
fn input_expressions_follow_the_constructor_form() {
    let values = vec!["a".to_string(), "b".to_string()];
    assert_eq!(
        custom_input_expression("Input", &input_constructor(CustomFields::Unit), &values),
        rendered("Input::Variant"),
    );
    assert_eq!(
        custom_input_expression("Input", &input_constructor(CustomFields::Unnamed(Vec::new())), &values),
        rendered("Input::Variant(a, b)"),
    );
    assert_eq!(
        custom_input_expression("Input", &input_constructor(CustomFields::Unnamed(Vec::new())), &Vec::new()),
        rendered("Input::Variant()"),
    );
    assert_eq!(
        custom_input_expression(
            "Input",
            &input_constructor(CustomFields::Named(vec![named_field("x"), named_field("y")])),
            &values,
        ),
        rendered("Input::Variant { x: a, y: b }"),
    );
    assert_eq!(
        custom_input_expression("Input", &input_constructor(CustomFields::Named(Vec::new())), &Vec::new()),
        rendered("Input::Variant {}"),
    );
}

#[test]
fn output_patterns_bind_each_field_to_a_fresh_name() {
    let mut names = GeneratedNames::new();
    names.next("value");
    let (pattern, bindings) = custom_output_pattern(
        "Leaf",
        &input_constructor(CustomFields::Named(vec![named_field("x"), named_field("y")])),
        &mut names,
    );
    assert_eq!(pattern, rendered("Leaf::Variant { x: __geam_custom_field_1, y: __geam_custom_field_2 }"));
    assert_eq!(bindings, vec!["__geam_custom_field_1", "__geam_custom_field_2"]);
    assert_eq!(names.next, 3);
    let (pattern, bindings) = custom_output_pattern("Leaf", &input_constructor(CustomFields::Unit), &mut names);
    assert_eq!(pattern, rendered("Leaf::Variant"));
    assert!(bindings.is_empty());
    assert_eq!(names.next, 3);
}
