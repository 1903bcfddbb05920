use geam_macros::codec_bounds::custom_list_codec_bounds;
use geam_macros::identifiers::InputOwnership;
use geam_macros::custom_value::{
    CustomConstructorModel, CustomFieldModel, CustomFieldValueType, CustomFields, CustomModel,
    ListType,
};
use geam_macros::list_access::{list_declared_accesses, list_external_accesses};
use geam_macros::list_model::{CollectionType, StaticValueType};
use proc_macro2::TokenStream;

fn field(value: StaticValueType) -> CustomFieldModel {
    CustomFieldModel {
        ident: None,
        definition: "definition".to_string(),
        value: CustomFieldValueType::Value(Box::new(value)),
    }
}

fn list_field(value: StaticValueType) -> CustomFieldModel {
    CustomFieldModel {
        ident: Some("items".to_string()),
        definition: "definition".to_string(),
        value: CustomFieldValueType::List(Box::new(ListType {
            collection: CollectionType {
                source: "Vec < Item >".to_string(),
                item: "Item".to_string(),
                value,
            },
            decoder: "__GeamListDecoder0".to_string(),
        })),
    }
}

fn constructor(ident: &str, fields: CustomFields) -> CustomConstructorModel {
    CustomConstructorModel {
        ident: ident.to_string(),
        definition: format!("{ident}Definition"),
        marker: format!("{ident}Marker"),
        fields,
    }
}

fn custom(ident: &str, constructors: Vec<CustomConstructorModel>) -> CustomModel {
    CustomModel {
        ident: ident.to_string(),
        input: None,
        visibility: String::new(),
        schema: "schema".to_string(),
        decoder: "decoder".to_string(),
        constructors,
    }
}

fn external(payload: &str, schema: &str, store_field: &str) -> StaticValueType {
    StaticValueType::External {
        payload: payload.to_string(),
        schema: schema.to_string(),
        store_field: store_field.to_string(),
    }
}

fn declared(type_: &str) -> StaticValueType {
    StaticValueType::Declared { type_: type_.to_string() }
}

fn module_customs() -> Vec<CustomModel> {
    vec![
        custom(
            "Inner",
            vec![constructor(
                "Leaf",
                CustomFields::Unnamed(vec![
                    field(external("Photo", "PhotoSchema", "photos")),
                    field(declared("crate :: Tag")),
                ]),
            )],
        ),
        custom(
            "Outer",
            vec![
                constructor(
                    "Branch",
                    CustomFields::Named(vec![
                        field(StaticValueType::Custom { index: 0 }),
                        list_field(external("Song", "SongSchema", "songs")),
                    ]),
                ),
                constructor("Empty", CustomFields::Unit),
                constructor(
                    "Again",
                    CustomFields::Unnamed(vec![field(external("OtherPhoto", "PhotoSchema", "other_photos"))]),
                ),
            ],
        ),
    ]
}

fn item() -> StaticValueType {
    StaticValueType::Tuple(vec![
        external("Song", "SongSchema", "first_songs"),
        StaticValueType::Custom { index: 1 },
        StaticValueType::Option { value: Box::new(declared("crate :: Tag")) },
        StaticValueType::Result {
            success: Box::new(declared("u8")),
            failure: Box::new(external("Fault", "FaultSchema", "faults")),
        },
    ])
}

#[test]
fn external_accesses_keep_the_first_store_field_of_each_schema_in_walk_order() {
    let accesses = list_external_accesses(&item(), &module_customs());
    let found: Vec<(&str, &str, &str)> = accesses
        .iter()
        .map(|access| (access.payload.as_str(), access.schema.as_str(), access.field.as_str()))
        .collect();
    assert_eq!(
        found,
        vec![
            ("Song", "SongSchema", "first_songs"),
            ("Photo", "PhotoSchema", "photos"),
            ("Fault", "FaultSchema", "faults"),
        ],
    );
}

#[test]
fn declared_accesses_keep_one_hex_named_field_per_type() {
    let accesses = list_declared_accesses(&item(), &module_customs());
    let found: Vec<(&str, &str)> =
        accesses.iter().map(|access| (access.type_.as_str(), access.field.as_str())).collect();
    assert_eq!(
        found,
        vec![
            ("crate :: Tag", "__geam_declared_6372617465203a3a20546167"),
            ("u8", "__geam_declared_7538"),
        ],
    );
}

#[test]
fn scalar_items_and_unit_declarations_need_no_access() {
    let customs = vec![custom("Flag", vec![constructor("On", CustomFields::Unit)])];
    let scalar = StaticValueType::Scalar("bool".to_string());
    assert!(list_external_accesses(&scalar, &customs).is_empty());
    assert!(list_declared_accesses(&scalar, &customs).is_empty());
    let flag = StaticValueType::Custom { index: 0 };
    assert!(list_external_accesses(&flag, &customs).is_empty());
    assert!(list_declared_accesses(&flag, &customs).is_empty());
}

fn rendered(text: &str) -> String {
    text.parse::<TokenStream>().unwrap().to_string()
}

#[test]
fn custom_list_codec_bounds_cover_each_declared_type_once() {
    let customs = module_customs();
    let borrowed = custom_list_codec_bounds(1, &customs, "s", InputOwnership::Borrowed);
    assert_eq!(
        borrowed,
        vec![rendered(
            "<crate::Tag as s::ProviderContextualValueForms<__GeamProfile>> ::ImmediateListInput: \
             s::ProviderListInputCodec<__GeamProfile, __GeamProviderBinding, \
             Host = <crate::Tag as s::ProviderContextualValueForms<__GeamProfile>> ::Host, \
             Requirements = <crate::Tag as s::ProviderContextualValueForms<__GeamProfile>> ::InputRequirements>"
        )],
    );
    let owned = custom_list_codec_bounds(0, &customs, "s", InputOwnership::Owned);
    assert_eq!(owned.len(), 1);
    assert!(owned[0].contains(":: OwnedListInput :"));
    let flags = vec![custom("Flag", vec![constructor("On", CustomFields::Unit)])];
    assert!(custom_list_codec_bounds(0, &flags, "s", InputOwnership::Owned).is_empty());
}
