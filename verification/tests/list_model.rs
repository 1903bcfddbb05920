use geam_macros::list_model::{
    register_list_decoder, static_value_key, CollectionType, ListDecoderModel, StaticValueType,
};
use proc_macro2::TokenStream;

/// The token text of a Rust type, as the macros render it.
fn rendered(type_: &str) -> String {
    type_.parse::<TokenStream>().expect("type should lex").to_string()
}

#[test]
fn static_value_keys_cover_each_distinct_list_item_family() {
    let scalar = StaticValueType::Scalar(rendered("BigInt"));
    let declared = StaticValueType::Declared { type_: rendered("crate::Tag") };
    let external = StaticValueType::External {
        payload: rendered("Payload"),
        schema: rendered("Schema"),
        store_field: rendered("store"),
    };
    let custom = StaticValueType::Custom { index: 3 };
    let tuple = StaticValueType::Tuple(vec![scalar.duplicate(), external.duplicate()]);
    let result = StaticValueType::Result {
        success: Box::new(StaticValueType::Option { value: Box::new(scalar.duplicate()) }),
        failure: Box::new(StaticValueType::Option {
            value: Box::new(StaticValueType::Scalar(rendered("EcoString"))),
        }),
    };

    assert_eq!(static_value_key(&scalar), "scalar:BigInt");
    assert_eq!(static_value_key(&declared), "declared:crate :: Tag");
    assert_eq!(static_value_key(&external), "external:Schema");
    assert_eq!(static_value_key(&custom), "custom:3");
    assert_eq!(static_value_key(&tuple), "tuple:(scalar:BigInt,external:Schema)",);
    assert_eq!(
        static_value_key(&result),
        "result:<option:<scalar:BigInt>,option:<scalar:EcoString>>",
    );
}

#[test]
fn decoder_registration_deduplicates_exact_item_shapes() {
    let mut decoders: Vec<ListDecoderModel> = Vec::new();
    let integers = CollectionType {
        source: rendered("geam::List<BigInt>"),
        item: rendered("BigInt"),
        value: StaticValueType::Scalar(rendered("BigInt")),
    };
    let booleans = CollectionType {
        source: rendered("geam::List<bool>"),
        item: rendered("bool"),
        value: StaticValueType::Scalar(rendered("bool")),
    };

    assert_eq!(register_list_decoder(&integers, &mut decoders), "__GeamListDecoder0");
    assert_eq!(register_list_decoder(&integers, &mut decoders), "__GeamListDecoder0");
    assert_eq!(register_list_decoder(&booleans, &mut decoders), "__GeamListDecoder1");
    assert_eq!(decoders.len(), 2);
    assert_eq!(decoders[0].key, "scalar:BigInt");
    assert_eq!(decoders[1].key, "scalar:bool");
}

#[test]
fn empty_tuples_and_large_custom_indices_have_exact_keys() {
    assert_eq!(static_value_key(&StaticValueType::Tuple(Vec::new())), "tuple:()");
    assert_eq!(static_value_key(&StaticValueType::Custom { index: 1207 }), "custom:1207");
    assert_eq!(static_value_key(&StaticValueType::Custom { index: 0 }), "custom:0");
    let nested = StaticValueType::Tuple(vec![StaticValueType::Tuple(vec![
        StaticValueType::Custom { index: 10 },
    ])]);
    assert_eq!(static_value_key(&nested), "tuple:(tuple:(custom:10))");
}

#[test]
fn registration_reuses_the_decoder_of_an_equal_key_from_a_different_shape_value() {
    let mut decoders: Vec<ListDecoderModel> = Vec::new();
    let first = CollectionType {
        source: rendered("Vec<(BigInt, Status)>"),
        item: rendered("(BigInt, Status)"),
        value: StaticValueType::Tuple(vec![
            StaticValueType::Scalar(rendered("BigInt")),
            StaticValueType::Custom { index: 0 },
        ]),
    };
    let again = CollectionType {
        source: rendered("geam::List<(BigInt, StatusInput)>"),
        item: rendered("(BigInt, StatusInput)"),
        value: first.value.duplicate(),
    };
    let optional = CollectionType {
        source: rendered("Vec<Option<BigInt>>"),
        item: rendered("Option<BigInt>"),
        value: StaticValueType::Option { value: Box::new(StaticValueType::Scalar(rendered("BigInt"))) },
    };
    assert_eq!(register_list_decoder(&first, &mut decoders), "__GeamListDecoder0");
    assert_eq!(register_list_decoder(&optional, &mut decoders), "__GeamListDecoder1");
    assert_eq!(register_list_decoder(&again, &mut decoders), "__GeamListDecoder0");
    assert_eq!(decoders.len(), 2);
    assert_eq!(decoders[0].key, "tuple:(scalar:BigInt,custom:0)");
    assert_eq!(decoders[1].ident, "__GeamListDecoder1");
    assert_eq!(static_value_key(&decoders[1].value), "option:<scalar:BigInt>");
}
