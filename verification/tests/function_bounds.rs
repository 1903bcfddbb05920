use geam_macros::custom_classify::{custom_input_model, custom_output_type_with_index};
use geam_macros::custom_value::{
    CustomConstructorModel, CustomFieldModel, CustomFieldValueType, CustomFields, CustomModel,
    ListType,
};
use geam_macros::function_bounds::{
    function_codec_bounds, DeclaredInput, FunctionArgumentType, FunctionInputType,
    FunctionOutputLeafType, FunctionOutputValueType, FunctionReturnType,
    FunctionRootOutputValueType, ProviderValueType,
};
use geam_macros::list_model::{CollectionType, StaticValueType};
use proc_macro2::TokenStream;

fn rendered(text: &str) -> String {
    text.parse::<TokenStream>().unwrap().to_string()
}

fn leaf_custom() -> CustomModel {
    CustomModel {
        ident: "Leaf".to_string(),
        input: Some("LeafInput".to_string()),
        visibility: String::new(),
        schema: "__GeamCustomSchema0".to_string(),
        decoder: "__geam_decode_custom_0".to_string(),
        constructors: vec![CustomConstructorModel {
            ident: "Tagged".to_string(),
            definition: "__GeamCustom0Constructor0Definition".to_string(),
            marker: "__GeamCustom0Constructor0".to_string(),
            fields: CustomFields::Unnamed(vec![CustomFieldModel {
                ident: None,
                definition: "__GeamCustom0Constructor0Field0".to_string(),
                value: CustomFieldValueType::Value(Box::new(StaticValueType::Declared {
                    type_: "crate :: Tag".to_string(),
                })),
            }]),
        }],
    }
}

fn declared(type_: &str, input: DeclaredInput) -> ProviderValueType {
    ProviderValueType::Declared { type_: type_.to_string(), input }
}

#[test]
fn function_bounds_cover_arguments_then_returns_once_each() {
    let customs = vec![leaf_custom()];
    let leaves = ListType {
        collection: CollectionType {
            source: "geam :: List < LeafInput >".to_string(),
            item: "LeafInput".to_string(),
            value: StaticValueType::Custom { index: 0 },
        },
        decoder: "__GeamListDecoder0".to_string(),
    };
    let arguments = vec![
        FunctionArgumentType::Input(FunctionInputType::Value(Box::new(declared("crate :: Tag", DeclaredInput::Owned)))),
        FunctionArgumentType::Callback,
        FunctionArgumentType::Input(FunctionInputType::Value(Box::new(ProviderValueType::Tuple(vec![
            declared("crate :: Tag", DeclaredInput::BorrowedExternal),
            ProviderValueType::Custom { index: 0, rust: "LeafInput".to_string() },
            declared("crate :: Tag", DeclaredInput::Owned),
            ProviderValueType::Scalar("u8".to_string()),
        ])))),
        FunctionArgumentType::Input(FunctionInputType::Generic),
        FunctionArgumentType::Input(FunctionInputType::List(Box::new(leaves))),
    ];
    let return_ = FunctionReturnType::Value(FunctionRootOutputValueType::Result {
        success: Box::new(FunctionOutputValueType::Value(Box::new(FunctionOutputLeafType::Custom {
            index: 0,
            rust: "Leaf".to_string(),
        }))),
        failure: Box::new(FunctionOutputValueType::Vec(Box::new(FunctionOutputValueType::Value(Box::new(
            FunctionOutputLeafType::Declared { type_: "crate :: Err".to_string(), input: DeclaredInput::Owned },
        ))))),
    });
    assert_eq!(
        function_codec_bounds(&arguments, &return_, &customs, "s", "R"),
        vec![
            rendered("crate::Tag: s::ProviderInputValue<Profile, __GeamProvider, R>"),
            rendered("<crate::Tag as s::ProviderValue> ::Input: s::ProviderInputValue<Profile, __GeamProvider, R>"),
            rendered("LeafInput: s::ProviderInputValue<Profile, __GeamProvider, R , >"),
            rendered("<crate::Tag as s::ProviderValue> ::ListInput: s::ProviderListInputCodec<Profile>"),
            rendered("Leaf: s::ProviderOutputValue<Profile, __GeamProvider, R , >"),
            rendered("crate::Err: s::ProviderOutputValue<Profile, __GeamProvider, R , >"),
        ],
    );
}

#[test]
fn root_outputs_need_root_output_bounds_and_scalars_none() {
    let customs = vec![leaf_custom()];
    let root = FunctionReturnType::Value(FunctionRootOutputValueType::Value(Box::new(
        FunctionOutputLeafType::Declared { type_: "crate :: Out".to_string(), input: DeclaredInput::Owned },
    )));
    assert_eq!(
        function_codec_bounds(&Vec::new(), &root, &customs, "s", "R"),
        vec![rendered("crate::Out: s::ProviderRootOutputValue<Profile, __GeamProvider>")],
    );
    let custom_root = FunctionReturnType::Value(FunctionRootOutputValueType::Value(Box::new(
        FunctionOutputLeafType::Custom { index: 0, rust: "Leaf".to_string() },
    )));
    assert_eq!(
        function_codec_bounds(&Vec::new(), &custom_root, &customs, "s", "R"),
        vec![rendered("Leaf: s::ProviderRootOutputValue<Profile, __GeamProvider>")],
    );
    let scalar = FunctionReturnType::Value(FunctionRootOutputValueType::Tuple(vec![
        FunctionOutputValueType::Value(Box::new(FunctionOutputLeafType::Scalar("u8".to_string()))),
        FunctionOutputValueType::Generic,
    ]));
    assert!(function_codec_bounds(&Vec::new(), &scalar, &customs, "s", "R").is_empty());
    assert!(function_codec_bounds(&Vec::new(), &FunctionReturnType::Generic, &customs, "s", "R").is_empty());
}

#[test]
fn custom_types_are_found_by_their_name_or_their_input_name() {
    let mut tree = leaf_custom();
    tree.ident = "Tree".to_string();
    tree.input = None;
    let customs = vec![leaf_custom(), tree];
    assert_eq!(custom_output_type_with_index(&Some("Tree".to_string()), &customs), Some(1));
    assert_eq!(custom_output_type_with_index(&Some("Leaf".to_string()), &customs), Some(0));
    assert_eq!(custom_output_type_with_index(&Some("LeafInput".to_string()), &customs), None);
    assert_eq!(custom_output_type_with_index(&None, &customs), None);
    assert_eq!(custom_input_model(&Some("LeafInput".to_string()), &customs), Some(0));
    assert_eq!(custom_input_model(&Some("Leaf".to_string()), &customs), None);
    assert_eq!(custom_input_model(&None, &customs), None);
}
