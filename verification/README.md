# geam_macros

The rules behind the `geam` attribute macros (`#[geam::module]`,
`#[geam::custom]`, `#[geam::external]`, `#[geam::function]`), written in Verus
and verified against their contracts.

- `src/` is the verified library. Syntax reaches it as plain models (token
  text, attribute forms, enum shapes, classified value types); the rules it
  applies are proved there: marker and argument parsing, naming rules,
  custom declaration classification, dependency cycles, list decoder
  registration, the order in which a module checks its declarations, the
  arity limit of provider functions, the accesses and codec bounds of
  generated code, and the token text of generated names, type lists,
  patterns and the module frame: the module's own items followed by its
  profile trait, stores, payload impls, stored owners, provider, external
  bindings and registrar, around the generated schemas, custom
  declarations, list decoders and functions it is given.
- `tests/` runs the library on concrete models, comparing generated token
  text with what `proc_macro2` prints for the same tokens.
- `app/` holds the standalone forms of `#[geam::external]` and
  `#[geam::function]` as plain functions over
  `proc_macro::TokenStream`, for a proc-macro crate to register. The module
  and provider expansions are not part of this crate.
