use geam_macros::external_code::ExternalCode;
use geam_macros::module_expansion::{
    expand_module, FunctionCode, ModuleFrame, ModuleParts, ModuleProfile,
};
use proc_macro2::TokenStream;

fn rendered(text: &str) -> String {
    text.parse::<TokenStream>().unwrap().to_string()
}

fn external(payload: &str, manual_payload: Option<&str>) -> ExternalCode {
    ExternalCode {
        payload: payload.to_string(),
        name: format!("\"{payload}\""),
        store_field: format!("{}_store", payload.to_lowercase()),
        stored_payload: payload.to_string(),
        default_payload_semantics: manual_payload.is_none(),
        schema: format!("{payload}Schema"),
        storage: format!("{payload}Storage"),
        manual_payload: manual_payload.map(str::to_string),
    }
}

fn parts(externals: Vec<ExternalCode>, functions: Vec<FunctionCode>) -> ModuleParts {
    ModuleParts {
        head: "mod counter".to_string(),
        items: vec![rendered("struct Helper;")],
        externals,
        schemas: vec![rendered("struct TokenSchema;")],
        custom_declarations: vec![rendered("struct CustomDeclaration;")],
        list_decoders: vec![rendered("struct Decoder0;")],
        functions,
    }
}

fn function() -> FunctionCode {
    FunctionCode {
        bounds: vec![rendered("Profile: Clone"), rendered("Profile: Clone")],
        callback_codecs: vec![rendered("struct Codec;")],
        wrapper: rendered("fn wrapper() {}"),
        registration: rendered("let provider = provider;"),
    }
}

#[test]
fn component_modules_expand_to_their_items_then_the_generated_frame() {
    let frame = ModuleFrame {
        support: rendered("s"),
        path_literal: rendered("\"counter\""),
        profile: ModuleProfile::Component,
        has_stores: false,
    };
    let expected = "mod counter {
        struct Helper;
        trait __GeamModuleProfile: s::HostComponentProfile<super::Component> {}
        impl<Profile> __GeamModuleProfile for Profile where Profile: s::HostComponentProfile<super::Component> , {}
        #[doc(hidden)] #[derive(Default)] pub(super) struct __GeamStores { token_store: s::HostExternalStore<Token> , }
        impl s::ExternalPayload for Token {
            fn source_equal(&self, other: &Self) -> bool { <Self as ::core::cmp::PartialEq> ::eq(self, other) }
            fn source_hash(&self) -> u64 { s::external_payload_hash(self) }
            fn inspect(&self) -> s::EcoString { s::EcoString::from(::core::concat!(\"Token\", \"(<opaque>)\")) }
        }
        struct TokenSchema;
        struct CustomDeclaration;
        struct __GeamProvider;
        impl<Profile> s::HostProvider<Profile> for __GeamProvider where Profile: __GeamModuleProfile, {
            type State = <super::Component as s::HostProviderComponent> ::RunState;
            fn project(state: &mut Profile::RunState) -> &mut Self::State {
                <Profile as s::HostComponentProfile<super::Component>> ::component_state(state)
            }
        }
        impl<Profile> s::HostExternalBinding<Profile, TokenSchema> for __GeamProvider where Profile: __GeamModuleProfile, { type Storage = TokenStorage; }
        struct Decoder0;
        struct Codec;
        fn wrapper() {}
        pub(super) struct __GeamModule;
        impl<Profile> s::ProviderModuleRegistration<Profile> for __GeamModule where Profile: __GeamModuleProfile, Profile: Clone, {
            fn module() -> ::core::result::Result<s::HostProviderModule<Profile> , s::HostRegistrationError, > {
                let provider = s::HostProviderModule:: <Profile> ::new(<super::Component as s::ProviderPackage> ::PACKAGE, \"counter\") ? ;
                let provider = provider.with_external_type:: <__GeamProvider, TokenSchema> () ? ;
                let provider = provider;
                ::core::result::Result::Ok(provider)
            }
        }
    }";
    assert_eq!(
        expand_module(&frame, &parts(vec![external("Token", None)], vec![function()])),
        rendered(expected),
    );
}

#[test]
fn explicit_module_profile_wires_one_static_component_projection() {
    let frame = |has_stores| ModuleFrame {
        support: rendered("geam_core::__macro_support"),
        path_literal: rendered("\"random\""),
        profile: ModuleProfile::Explicit {
            bound: rendered("crate::BuiltInProfile"),
            component: rendered("crate::Component<Profile::Io>"),
        },
        has_stores,
    };
    let expansion = expand_module(&frame(false), &parts(Vec::new(), Vec::new()));
    assert!(expansion.contains("pub (super) trait __GeamModuleProfile : crate :: BuiltInProfile"));
    assert!(expansion.contains("pub (super) fn __geam_module < Profile >"));
    assert!(!expansion.contains("ProviderModuleRegistration"));
    assert!(expansion.contains(
        "Profile as geam_core :: __macro_support :: HostComponentProfile < crate :: Component < Profile :: Io > >> :: component_state"
    ));
    assert!(expansion.contains("# [doc (hidden)] # [derive (Default)] pub (super) struct __GeamStores"));
    let expansion = expand_module(&frame(true), &parts(Vec::new(), Vec::new()));
    assert!(expansion.contains("# [doc (hidden)] # [derive (Default)] pub struct __GeamStores"));
}

#[test]
fn shared_manual_payloads_get_one_stored_owner() {
    let frame = ModuleFrame {
        support: rendered("s"),
        path_literal: rendered("\"queues\""),
        profile: ModuleProfile::Component,
        has_stores: false,
    };
    let externals = vec![
        external("Dict", Some("QueuePayload")),
        external("TransientDict", Some("QueuePayload")),
        external("Other", Some("OtherPayload")),
    ];
    let expansion = expand_module(&frame, &parts(externals, Vec::new()));
    assert_eq!(expansion.matches("ProviderStoredOwner for QueuePayload").count(), 1);
    assert_eq!(expansion.matches("ProviderStoredOwner for OtherPayload").count(), 1);
    assert!(!expansion.contains("ExternalPayload for Dict"));
    assert_eq!(expansion.matches("HostExternalStore").count(), 3);
    let registrations = ["DictSchema", "TransientDictSchema", "OtherSchema"]
        .map(|schema| expansion.find(&format!("with_external_type :: < __GeamProvider , {schema} >")).unwrap());
    assert!(registrations[0] < registrations[1] && registrations[1] < registrations[2]);
}
