//! Verified core of the `geam` provider-module macros: the rules that decide
//! which declarations a module may hold, the names generated for them, and the
//! diagnostics reported when a declaration is rejected.

pub mod text;
pub mod list_model;
pub mod diagnostic;
pub mod custom_value;
pub mod custom_cycles;
pub mod tokens;
pub mod custom_arguments;
pub mod item;
pub mod custom;
pub mod external;
pub mod generics;
pub mod names;
pub mod declarations;
pub mod attributes;
pub mod type_lists;
pub mod bounds;
pub mod identifiers;
pub mod callable;
pub mod function;
pub mod list_access;
pub mod custom_headers;
pub mod custom_classify;
pub mod custom_build;
pub mod custom_collect;
pub mod codec_bounds;
pub mod custom_input;
pub mod function_bounds;
pub mod module_checks;
pub mod external_code;
pub mod module_expansion;
