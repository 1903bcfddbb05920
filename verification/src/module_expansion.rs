use crate::bounds::{deduplicate_bounds, first_occurrences, law_first_occurrences_keep_each_item_once};
use crate::external_code::{
    ExternalCode, payload_semantics, payload_semantics_all, push_side_by_side, side_by_side,
    store_fields, store_fields_all,
};
use crate::generics::texts;
use vstd::prelude::*;

verus! {

/// How a module names its host profile: through the package's component, or
/// through an explicit profile bound and component type (token text).
pub enum ModuleProfile {
    Component,
    Explicit { bound: String, component: String },
}

/// The arguments of a module as its expansion uses them, as token text: the
/// support path, the module path literal, the profile, and whether a
/// `stores` projection is given.
pub struct ModuleFrame {
    pub support: String,
    pub path_literal: String,
    pub profile: ModuleProfile,
    pub has_stores: bool,
}

/// The generated code of one provider function, as token text: its
/// where-clause bounds, its callback codecs, its wrapper and its
/// registration statement.
pub struct FunctionCode {
    pub bounds: Vec<String>,
    pub callback_codecs: Vec<String>,
    pub wrapper: String,
    pub registration: String,
}

/// The parts of a module expansion that the frame places, as token text: the
/// module's head (attributes, visibility, `mod` and name), its own items with
/// their markers taken, the external declarations, and the generated schemas,
/// custom declarations, list decoders and functions.
pub struct ModuleParts {
    pub head: String,
    pub items: Vec<String>,
    pub externals: Vec<ExternalCode>,
    pub schemas: Vec<String>,
    pub custom_declarations: Vec<String>,
    pub list_decoders: Vec<String>,
    pub functions: Vec<FunctionCode>,
}

/// Pieces of token text in order, as a token stream prints them.
pub open spec fn spaced(pieces: Seq<Seq<char>>) -> Seq<char>
    decreases pieces.len(),
{
    if pieces.len() == 0 {
        Seq::empty()
    } else {
        side_by_side(spaced(pieces.drop_last()), pieces.last())
    }
}

/// A brace-delimited group around `inner`, as a token stream prints it.
pub open spec fn braced(inner: Seq<char>) -> Seq<char> {
    if inner.len() == 0 {
        "{ }"@
    } else {
        "{ "@ + inner + " }"@
    }
}

pub open spec fn profile_bound(frame: ModuleFrame) -> Seq<char> {
    match frame.profile {
        ModuleProfile::Component => frame.support@ + " :: HostComponentProfile < super :: Component >"@,
        ModuleProfile::Explicit { bound, .. } => bound@,
    }
}

pub open spec fn profile_component(frame: ModuleFrame) -> Seq<char> {
    match frame.profile {
        ModuleProfile::Component => "super :: Component"@,
        ModuleProfile::Explicit { component, .. } => component@,
    }
}

/// The visibility of the profile trait and provider type: `pub (super)` with
/// an explicit profile, private otherwise.
pub open spec fn profile_visibility(frame: ModuleFrame) -> Seq<char> {
    match frame.profile {
        ModuleProfile::Component => Seq::empty(),
        ModuleProfile::Explicit { .. } => "pub (super)"@,
    }
}

/// The module's profile trait and its blanket impl.
pub open spec fn profile_trait_text(frame: ModuleFrame) -> Seq<char> {
    side_by_side(
        profile_visibility(frame),
        "trait __GeamModuleProfile : "@ + profile_bound(frame)
            + " { } impl < Profile > __GeamModuleProfile for Profile where Profile : "@
            + profile_bound(frame) + " , { }"@,
    )
}

/// The module's external stores: one field per external declaration.
pub open spec fn stores_text(frame: ModuleFrame, externals: Seq<ExternalCode>) -> Seq<char> {
    "# [doc (hidden)] # [derive (Default)] "@ + (if frame.has_stores {
        "pub"@
    } else {
        "pub (super)"@
    }) + " struct __GeamStores "@ + braced(store_fields_all(externals, frame.support@))
}

/// The explicit payload types of the generic externals with a manual
/// payload, in declaration order.
pub open spec fn manual_payloads(externals: Seq<ExternalCode>) -> Seq<Seq<char>>
    decreases externals.len(),
{
    if externals.len() == 0 {
        Seq::empty()
    } else {
        let earlier = manual_payloads(externals.drop_last());
        match externals.last().manual_payload {
            Some(payload) => earlier.push(payload@),
            None => earlier,
        }
    }
}

pub open spec fn owner_text(payload: Seq<char>, support: Seq<char>) -> Seq<char> {
    "impl "@ + support + " :: ProviderStoredOwner for "@ + payload + " { }"@
}

/// One stored-owner impl per distinct manual payload type, in order of first
/// appearance.
pub open spec fn owners_text(externals: Seq<ExternalCode>, support: Seq<char>) -> Seq<char> {
    spaced(first_occurrences(manual_payloads(externals)).map_values(|payload: Seq<char>| owner_text(payload, support)))
}

pub open spec fn provider_struct_text(frame: ModuleFrame) -> Seq<char> {
    side_by_side(profile_visibility(frame), "struct __GeamProvider ;"@)
}

/// The provider's `HostProvider` impl: its state is the component's run
/// state, projected through the profile.
pub open spec fn provider_impl_text(frame: ModuleFrame) -> Seq<char> {
    let support = frame.support@;
    let component = profile_component(frame);
    "impl < Profile > "@ + support
        + " :: HostProvider < Profile > for __GeamProvider where Profile : __GeamModuleProfile , { type State = < "@
        + component + " as "@ + support
        + " :: HostProviderComponent > :: RunState ; fn project (state : & mut Profile :: RunState) -> & mut Self :: State { < Profile as "@
        + support + " :: HostComponentProfile < "@ + component
        + " >> :: component_state (state) } }"@
}

pub open spec fn binding_text(external: ExternalCode, support: Seq<char>) -> Seq<char> {
    "impl < Profile > "@ + support + " :: HostExternalBinding < Profile , "@ + external.schema@
        + " > for __GeamProvider where Profile : __GeamModuleProfile , { type Storage = "@
        + external.storage@ + " ; }"@
}

pub open spec fn external_registration_text(external: ExternalCode) -> Seq<char> {
    "let provider = provider . with_external_type :: < __GeamProvider , "@ + external.schema@
        + " > () ? ;"@
}

/// The registration body: the module is created under its path, each
/// external type is registered in declaration order, then each function.
pub open spec fn registration_text(
    frame: ModuleFrame,
    externals: Seq<ExternalCode>,
    functions: Seq<FunctionCode>,
) -> Seq<char> {
    let support = frame.support@;
    spaced(
        seq![
            "let provider = "@ + support + " :: HostProviderModule :: < Profile > :: new (< super :: Component as "@
                + support + " :: ProviderPackage > :: PACKAGE , "@ + frame.path_literal@ + ") ? ;"@,
        ] + externals.map_values(|external: ExternalCode| external_registration_text(external))
            + functions.map_values(|function: FunctionCode| function.registration@) + seq![
            ":: core :: result :: Result :: Ok (provider)"@,
        ],
    )
}

/// The bounds of all functions in order, each once.
pub open spec fn module_bounds(functions: Seq<FunctionCode>) -> Seq<Seq<char>> {
    first_occurrences(all_bounds(functions))
}

pub open spec fn all_bounds(functions: Seq<FunctionCode>) -> Seq<Seq<char>>
    decreases functions.len(),
{
    if functions.len() == 0 {
        Seq::empty()
    } else {
        all_bounds(functions.drop_last()) + texts(functions.last().bounds@)
    }
}

pub open spec fn all_codecs(functions: Seq<FunctionCode>) -> Seq<Seq<char>>
    decreases functions.len(),
{
    if functions.len() == 0 {
        Seq::empty()
    } else {
        all_codecs(functions.drop_last()) + texts(functions.last().callback_codecs@)
    }
}

pub open spec fn where_text(bounds: Seq<Seq<char>>) -> Seq<char> {
    side_by_side(
        "where Profile : __GeamModuleProfile ,"@,
        spaced(bounds.map_values(|bound: Seq<char>| bound + " ,"@)),
    )
}

/// The module's registrar: a `__geam_module` function with an explicit
/// profile, a `ProviderModuleRegistration` impl otherwise.
pub open spec fn registrar_text(
    frame: ModuleFrame,
    externals: Seq<ExternalCode>,
    functions: Seq<FunctionCode>,
) -> Seq<char> {
    let support = frame.support@;
    let result_type = ":: core :: result :: Result < "@ + support
        + " :: HostProviderModule < Profile > , "@ + support + " :: HostRegistrationError , >"@;
    let registration = registration_text(frame, externals, functions);
    let bounds = where_text(module_bounds(functions));
    match frame.profile {
        ModuleProfile::Explicit { .. } => "pub (super) fn __geam_module < Profile > () -> "@
            + result_type + " "@ + bounds + " { "@ + registration + " }"@,
        ModuleProfile::Component => "pub (super) struct __GeamModule ; impl < Profile > "@ + support
            + " :: ProviderModuleRegistration < Profile > for __GeamModule "@ + bounds
            + " { fn module () -> "@ + result_type + " { "@ + registration + " } }"@,
    }
}

/// The items a module expansion appends after the module's own items, in
/// order.
pub open spec fn appended_items(frame: ModuleFrame, parts: ModuleParts) -> Seq<Seq<char>> {
    let support = frame.support@;
    let externals = parts.externals@;
    let functions = parts.functions@;
    seq![
        profile_trait_text(frame),
        stores_text(frame, externals),
        payload_semantics_all(externals, support),
        spaced(texts(parts.schemas@)),
        owners_text(externals, support),
        spaced(texts(parts.custom_declarations@)),
        provider_struct_text(frame),
        provider_impl_text(frame),
        spaced(externals.map_values(|external: ExternalCode| binding_text(external, support))),
        spaced(texts(parts.list_decoders@)),
        spaced(all_codecs(functions)),
        spaced(functions.map_values(|function: FunctionCode| function.wrapper@)),
        registrar_text(frame, externals, functions),
    ]
}

/// A module's expansion: its head, then its own items followed by the
/// generated items, in one brace-delimited body.
pub open spec fn module_expansion(frame: ModuleFrame, parts: ModuleParts) -> Seq<char> {
    parts.head@ + " "@ + braced(spaced(texts(parts.items@) + appended_items(frame, parts)))
}

proof fn lemma_side_by_side_associates(first: Seq<char>, second: Seq<char>, third: Seq<char>)
    ensures
        side_by_side(side_by_side(first, second), third) == side_by_side(
            first,
            side_by_side(second, third),
        ),
{
    if first.len() > 0 && second.len() > 0 && third.len() > 0 {
        assert(first + " "@ + second + " "@ + third =~= first + " "@ + (second + " "@ + third));
    }
    if first.len() > 0 && second.len() > 0 {
        assert((first + " "@ + second).len() > 0);
    }
    if second.len() > 0 && third.len() > 0 {
        assert((second + " "@ + third).len() > 0);
    }
}

/// Token text of `pieces` in order, spaced: laying out a longer run extends
/// the shorter one by the last piece.
proof fn lemma_spaced_push(pieces: Seq<Seq<char>>, piece: Seq<char>)
    ensures
        spaced(pieces.push(piece)) == side_by_side(spaced(pieces), piece),
{
    assert(pieces.push(piece).drop_last() =~= pieces);
}

/// Laying out two runs of pieces one after the other lays out their
/// concatenation.
pub proof fn lemma_spaced_append(first: Seq<Seq<char>>, second: Seq<Seq<char>>)
    ensures
        spaced(first + second) == side_by_side(spaced(first), spaced(second)),
    decreases second.len(),
{
    if second.len() == 0 {
        assert(first + second =~= first);
        assert(side_by_side(spaced(first), Seq::empty()) =~= spaced(first));
    } else {
        assert((first + second).drop_last() =~= first + second.drop_last());
        lemma_spaced_append(first, second.drop_last());
        lemma_side_by_side_associates(spaced(first), spaced(second.drop_last()), second.last());
    }
}

/// Appends the pieces in order to `tokens`, as a token stream prints them.
fn push_all(tokens: &mut String, pieces: &Vec<String>)
    ensures
        final(tokens)@ == side_by_side(old(tokens)@, spaced(texts(pieces@))),
{
    let ghost start = tokens@;
    let mut i: usize = 0;
    proof {
        assert(texts(pieces@).take(0) =~= Seq::<Seq<char>>::empty());
        assert(side_by_side(start, Seq::empty()) =~= start);
    }
    while i < pieces.len()
        invariant
            i <= pieces@.len(),
            start == old(tokens)@,
            tokens@ == side_by_side(start, spaced(texts(pieces@).take(i as int))),
        decreases pieces.len() - i,
    {
        proof {
            assert(texts(pieces@).take(i + 1) =~= texts(pieces@).take(i as int).push(pieces@[i as int]@));
            lemma_spaced_push(texts(pieces@).take(i as int), pieces@[i as int]@);
            lemma_side_by_side_associates(start, spaced(texts(pieces@).take(i as int)), pieces@[i as int]@);
        }
        push_side_by_side(tokens, &pieces[i]);
        i = i + 1;
    }
    assert(texts(pieces@).take(pieces@.len() as int) =~= texts(pieces@));
}

/// The token text of `pieces` in order.
fn spaced_text(pieces: &Vec<String>) -> (tokens: String)
    ensures
        tokens@ == spaced(texts(pieces@)),
{
    let mut tokens = String::new();
    push_all(&mut tokens, pieces);
    tokens
}

fn append_strings(target: &mut Vec<String>, more: &Vec<String>)
    ensures
        texts(final(target)@) == texts(old(target)@) + texts(more@),
{
    let mut i: usize = 0;
    while i < more.len()
        invariant
            i <= more@.len(),
            texts(target@) == texts(old(target)@) + texts(more@).take(i as int),
        decreases more.len() - i,
    {
        let ghost before = target@;
        target.push(more[i].clone());
        proof {
            assert(texts(target@) =~= texts(before).push(more@[i as int]@));
            assert(texts(more@).take(i + 1) =~= texts(more@).take(i as int).push(more@[i as int]@));
        }
        i = i + 1;
    }
    assert(texts(more@).take(more@.len() as int) =~= texts(more@));
}

fn push_text(target: &mut Vec<String>, text: String)
    ensures
        texts(final(target)@) == texts(old(target)@).push(text@),
{
    let ghost before = target@;
    target.push(text);
    assert(texts(target@) =~= texts(before).push(text@));
}

fn profile_bound_of(frame: &ModuleFrame) -> (bound: String)
    ensures
        bound@ == profile_bound(*frame),
{
    match &frame.profile {
        ModuleProfile::Component => {
            let mut bound = frame.support.clone();
            bound.append(" :: HostComponentProfile < super :: Component >");
            bound
        },
        ModuleProfile::Explicit { bound, .. } => bound.clone(),
    }
}

fn profile_component_of(frame: &ModuleFrame) -> (component: String)
    ensures
        component@ == profile_component(*frame),
{
    match &frame.profile {
        ModuleProfile::Component => {
            let mut component = String::new();
            component.append("super :: Component");
            component
        },
        ModuleProfile::Explicit { component, .. } => component.clone(),
    }
}

fn profile_visibility_of(frame: &ModuleFrame) -> (visibility: String)
    ensures
        visibility@ == profile_visibility(*frame),
{
    let mut visibility = String::new();
    match &frame.profile {
        ModuleProfile::Component => {},
        ModuleProfile::Explicit { .. } => visibility.append("pub (super)"),
    }
    visibility
}

/// The module's profile trait and its blanket impl.
pub fn profile_trait(frame: &ModuleFrame) -> (tokens: String)
    ensures
        tokens@ == profile_trait_text(*frame),
{
    let bound = profile_bound_of(frame);
    let mut body = String::new();
    body.append("trait __GeamModuleProfile : ");
    body.append(bound.as_str());
    body.append(" { } impl < Profile > __GeamModuleProfile for Profile where Profile : ");
    body.append(bound.as_str());
    body.append(" , { }");
    let mut tokens = profile_visibility_of(frame);
    push_side_by_side(&mut tokens, &body);
    tokens
}

/// The module's external stores struct.
pub fn stores(frame: &ModuleFrame, externals: &Vec<ExternalCode>) -> (tokens: String)
    ensures
        tokens@ == stores_text(*frame, externals@),
{
    let mut tokens = String::new();
    tokens.append("# [doc (hidden)] # [derive (Default)] ");
    if frame.has_stores {
        tokens.append("pub");
    } else {
        tokens.append("pub (super)");
    }
    tokens.append(" struct __GeamStores ");
    let fields = store_fields(externals, frame.support.as_str());
    if fields.as_str().unicode_len() == 0 {
        tokens.append("{ }");
    } else {
        tokens.append("{ ");
        tokens.append(fields.as_str());
        tokens.append(" }");
    }
    tokens
}

fn manual_payloads_of(externals: &Vec<ExternalCode>) -> (payloads: Vec<String>)
    ensures
        texts(payloads@) == manual_payloads(externals@),
{
    let mut payloads: Vec<String> = Vec::new();
    let mut i: usize = 0;
    while i < externals.len()
        invariant
            i <= externals@.len(),
            texts(payloads@) == manual_payloads(externals@.take(i as int)),
        decreases externals.len() - i,
    {
        proof {
            assert(externals@.take(i + 1).drop_last() =~= externals@.take(i as int));
            assert(externals@.take(i + 1).last() == externals@[i as int]);
        }
        match &externals[i].manual_payload {
            Some(payload) => push_text(&mut payloads, payload.clone()),
            None => {},
        }
        i = i + 1;
    }
    assert(externals@.take(externals@.len() as int) =~= externals@);
    payloads
}

/// One stored-owner impl per distinct manual payload type.
pub fn owners(externals: &Vec<ExternalCode>, support: &str) -> (tokens: String)
    ensures
        tokens@ == owners_text(externals@, support@),
{
    let payloads = deduplicate_bounds(manual_payloads_of(externals));
    let ghost all = texts(payloads@);
    let mut pieces: Vec<String> = Vec::new();
    let mut i: usize = 0;
    while i < payloads.len()
        invariant
            i <= payloads@.len(),
            all == texts(payloads@),
            texts(pieces@) == all.take(i as int).map_values(|payload: Seq<char>| owner_text(payload, support@)),
        decreases payloads.len() - i,
    {
        let mut piece = String::new();
        piece.append("impl ");
        piece.append(support);
        piece.append(" :: ProviderStoredOwner for ");
        piece.append(payloads[i].as_str());
        piece.append(" { }");
        proof {
            assert(all[i as int] == payloads@[i as int]@);
        }
        push_text(&mut pieces, piece);
        proof {
            assert(all.take(i + 1).map_values(|payload: Seq<char>| owner_text(payload, support@))
                =~= all.take(i as int).map_values(|payload: Seq<char>| owner_text(payload, support@)).push(
                owner_text(all[i as int], support@),
            ));
        }
        i = i + 1;
    }
    assert(all.take(all.len() as int) =~= all);
    spaced_text(&pieces)
}


/// The module's provider type.
pub fn provider_struct(frame: &ModuleFrame) -> (tokens: String)
    ensures
        tokens@ == provider_struct_text(*frame),
{
    let mut tokens = profile_visibility_of(frame);
    let mut body = String::new();
    body.append("struct __GeamProvider ;");
    push_side_by_side(&mut tokens, &body);
    tokens
}

/// The provider's `HostProvider` impl.
pub fn provider_impl(frame: &ModuleFrame) -> (tokens: String)
    ensures
        tokens@ == provider_impl_text(*frame),
{
    let support = frame.support.as_str();
    let component = profile_component_of(frame);
    let mut tokens = String::new();
    tokens.append("impl < Profile > ");
    tokens.append(support);
    tokens.append(
        " :: HostProvider < Profile > for __GeamProvider where Profile : __GeamModuleProfile , { type State = < ",
    );
    tokens.append(component.as_str());
    tokens.append(" as ");
    tokens.append(support);
    tokens.append(
        " :: HostProviderComponent > :: RunState ; fn project (state : & mut Profile :: RunState) -> & mut Self :: State { < Profile as ",
    );
    tokens.append(support);
    tokens.append(" :: HostComponentProfile < ");
    tokens.append(component.as_str());
    tokens.append(" >> :: component_state (state) } }");
    tokens
}

/// The binding of each external declaration's schema to its storage, in
/// declaration order.
pub fn bindings(externals: &Vec<ExternalCode>, support: &str) -> (tokens: String)
    ensures
        tokens@ == spaced(externals@.map_values(|external: ExternalCode| binding_text(external, support@))),
{
    let mut pieces: Vec<String> = Vec::new();
    let mut i: usize = 0;
    while i < externals.len()
        invariant
            i <= externals@.len(),
            texts(pieces@) == externals@.take(i as int).map_values(
                |external: ExternalCode| binding_text(external, support@),
            ),
        decreases externals.len() - i,
    {
        let mut piece = String::new();
        piece.append("impl < Profile > ");
        piece.append(support);
        piece.append(" :: HostExternalBinding < Profile , ");
        piece.append(externals[i].schema.as_str());
        piece.append(" > for __GeamProvider where Profile : __GeamModuleProfile , { type Storage = ");
        piece.append(externals[i].storage.as_str());
        piece.append(" ; }");
        push_text(&mut pieces, piece);
        proof {
            assert(externals@.take(i + 1).map_values(|external: ExternalCode| binding_text(external, support@))
                =~= externals@.take(i as int).map_values(
                |external: ExternalCode| binding_text(external, support@),
            ).push(binding_text(externals@[i as int], support@)));
        }
        i = i + 1;
    }
    assert(externals@.take(externals@.len() as int) =~= externals@);
    spaced_text(&pieces)
}

fn all_bounds_of(functions: &Vec<FunctionCode>) -> (bounds: Vec<String>)
    ensures
        texts(bounds@) == all_bounds(functions@),
{
    let mut bounds: Vec<String> = Vec::new();
    let mut i: usize = 0;
    while i < functions.len()
        invariant
            i <= functions@.len(),
            texts(bounds@) == all_bounds(functions@.take(i as int)),
        decreases functions.len() - i,
    {
        proof {
            assert(functions@.take(i + 1).drop_last() =~= functions@.take(i as int));
            assert(functions@.take(i + 1).last() == functions@[i as int]);
        }
        append_strings(&mut bounds, &functions[i].bounds);
        i = i + 1;
    }
    assert(functions@.take(functions@.len() as int) =~= functions@);
    bounds
}

fn all_codecs_of(functions: &Vec<FunctionCode>) -> (codecs: Vec<String>)
    ensures
        texts(codecs@) == all_codecs(functions@),
{
    let mut codecs: Vec<String> = Vec::new();
    let mut i: usize = 0;
    while i < functions.len()
        invariant
            i <= functions@.len(),
            texts(codecs@) == all_codecs(functions@.take(i as int)),
        decreases functions.len() - i,
    {
        proof {
            assert(functions@.take(i + 1).drop_last() =~= functions@.take(i as int));
            assert(functions@.take(i + 1).last() == functions@[i as int]);
        }
        append_strings(&mut codecs, &functions[i].callback_codecs);
        i = i + 1;
    }
    assert(functions@.take(functions@.len() as int) =~= functions@);
    codecs
}

/// The module's registration body.
pub fn registration(frame: &ModuleFrame, externals: &Vec<ExternalCode>, functions: &Vec<FunctionCode>) -> (tokens:
    String)
    ensures
        tokens@ == registration_text(*frame, externals@, functions@),
{
    let support = frame.support.as_str();
    let mut pieces: Vec<String> = Vec::new();
    let mut first = String::new();
    first.append("let provider = ");
    first.append(support);
    first.append(" :: HostProviderModule :: < Profile > :: new (< super :: Component as ");
    first.append(support);
    first.append(" :: ProviderPackage > :: PACKAGE , ");
    first.append(frame.path_literal.as_str());
    first.append(") ? ;");
    let ghost head = first@;
    push_text(&mut pieces, first);
    let mut i: usize = 0;
    while i < externals.len()
        invariant
            i <= externals@.len(),
            texts(pieces@) == seq![head] + externals@.take(i as int).map_values(
                |external: ExternalCode| external_registration_text(external),
            ),
        decreases externals.len() - i,
    {
        let mut piece = String::new();
        piece.append("let provider = provider . with_external_type :: < __GeamProvider , ");
        piece.append(externals[i].schema.as_str());
        piece.append(" > () ? ;");
        push_text(&mut pieces, piece);
        proof {
            assert(externals@.take(i + 1).map_values(|external: ExternalCode| external_registration_text(external))
                =~= externals@.take(i as int).map_values(
                |external: ExternalCode| external_registration_text(external),
            ).push(external_registration_text(externals@[i as int])));
        }
        i = i + 1;
    }
    assert(externals@.take(externals@.len() as int) =~= externals@);
    let ghost after_externals = texts(pieces@);
    let mut k: usize = 0;
    while k < functions.len()
        invariant
            k <= functions@.len(),
            texts(pieces@) == after_externals + functions@.take(k as int).map_values(
                |function: FunctionCode| function.registration@,
            ),
        decreases functions.len() - k,
    {
        push_text(&mut pieces, functions[k].registration.clone());
        proof {
            assert(functions@.take(k + 1).map_values(|function: FunctionCode| function.registration@)
                =~= functions@.take(k as int).map_values(|function: FunctionCode| function.registration@).push(
                functions@[k as int].registration@,
            ));
        }
        k = k + 1;
    }
    assert(functions@.take(functions@.len() as int) =~= functions@);
    let mut last = String::new();
    last.append(":: core :: result :: Result :: Ok (provider)");
    push_text(&mut pieces, last);
    proof {
        let emap = externals@.map_values(|external: ExternalCode| external_registration_text(external));
        let fmap = functions@.map_values(|function: FunctionCode| function.registration@);
        assert(texts(pieces@) =~= seq![head] + emap + fmap + seq![
            ":: core :: result :: Result :: Ok (provider)"@,
        ]);
    }
    spaced_text(&pieces)
}

fn where_clause(bounds: &Vec<String>) -> (tokens: String)
    ensures
        tokens@ == where_text(texts(bounds@)),
{
    let mut pieces: Vec<String> = Vec::new();
    let mut i: usize = 0;
    while i < bounds.len()
        invariant
            i <= bounds@.len(),
            texts(pieces@) == texts(bounds@).take(i as int).map_values(|bound: Seq<char>| bound + " ,"@),
        decreases bounds.len() - i,
    {
        let mut piece = bounds[i].clone();
        piece.append(" ,");
        push_text(&mut pieces, piece);
        proof {
            assert(texts(bounds@).take(i + 1).map_values(|bound: Seq<char>| bound + " ,"@)
                =~= texts(bounds@).take(i as int).map_values(|bound: Seq<char>| bound + " ,"@).push(
                bounds@[i as int]@ + " ,"@,
            ));
        }
        i = i + 1;
    }
    assert(texts(bounds@).take(bounds@.len() as int) =~= texts(bounds@));
    let mut tokens = String::new();
    tokens.append("where Profile : __GeamModuleProfile ,");
    let rest = spaced_text(&pieces);
    push_side_by_side(&mut tokens, &rest);
    tokens
}

/// The module's registrar.
pub fn registrar(frame: &ModuleFrame, externals: &Vec<ExternalCode>, functions: &Vec<FunctionCode>) -> (tokens:
    String)
    ensures
        tokens@ == registrar_text(*frame, externals@, functions@),
{
    let support = frame.support.as_str();
    let mut result_type = String::new();
    result_type.append(":: core :: result :: Result < ");
    result_type.append(support);
    result_type.append(" :: HostProviderModule < Profile > , ");
    result_type.append(support);
    result_type.append(" :: HostRegistrationError , >");
    let body = registration(frame, externals, functions);
    let bounds = where_clause(&deduplicate_bounds(all_bounds_of(functions)));
    let mut tokens = String::new();
    match &frame.profile {
        ModuleProfile::Explicit { .. } => {
            tokens.append("pub (super) fn __geam_module < Profile > () -> ");
            tokens.append(result_type.as_str());
            tokens.append(" ");
            tokens.append(bounds.as_str());
            tokens.append(" { ");
            tokens.append(body.as_str());
            tokens.append(" }");
        },
        ModuleProfile::Component => {
            tokens.append("pub (super) struct __GeamModule ; impl < Profile > ");
            tokens.append(support);
            tokens.append(" :: ProviderModuleRegistration < Profile > for __GeamModule ");
            tokens.append(bounds.as_str());
            tokens.append(" { fn module () -> ");
            tokens.append(result_type.as_str());
            tokens.append(" { ");
            tokens.append(body.as_str());
            tokens.append(" } }");
        },
    }
    tokens
}


fn wrappers_of(functions: &Vec<FunctionCode>) -> (wrappers: Vec<String>)
    ensures
        texts(wrappers@) == functions@.map_values(|function: FunctionCode| function.wrapper@),
{
    let mut wrappers: Vec<String> = Vec::new();
    let mut i: usize = 0;
    while i < functions.len()
        invariant
            i <= functions@.len(),
            texts(wrappers@) == functions@.take(i as int).map_values(|function: FunctionCode| function.wrapper@),
        decreases functions.len() - i,
    {
        push_text(&mut wrappers, functions[i].wrapper.clone());
        proof {
            assert(functions@.take(i + 1).map_values(|function: FunctionCode| function.wrapper@)
                =~= functions@.take(i as int).map_values(|function: FunctionCode| function.wrapper@).push(
                functions@[i as int].wrapper@,
            ));
        }
        i = i + 1;
    }
    assert(functions@.take(functions@.len() as int) =~= functions@);
    wrappers
}

/// The expansion of a module: its own items, then the generated items in
/// order (profile trait, stores, payload impls, schemas, stored owners,
/// custom declarations, provider type and impl, external bindings, list
/// decoders, callback codecs, function wrappers and the registrar).
pub fn expand_module(frame: &ModuleFrame, parts: &ModuleParts) -> (tokens: String)
    ensures
        tokens@ == module_expansion(*frame, *parts),
{
    let support = frame.support.as_str();
    let mut pieces: Vec<String> = Vec::new();
    append_strings(&mut pieces, &parts.items);
    let mut generated: Vec<String> = Vec::new();
    push_text(&mut generated, profile_trait(frame));
    push_text(&mut generated, stores(frame, &parts.externals));
    push_text(&mut generated, payload_semantics(&parts.externals, support));
    push_text(&mut generated, spaced_text(&parts.schemas));
    push_text(&mut generated, owners(&parts.externals, support));
    push_text(&mut generated, spaced_text(&parts.custom_declarations));
    push_text(&mut generated, provider_struct(frame));
    push_text(&mut generated, provider_impl(frame));
    push_text(&mut generated, bindings(&parts.externals, support));
    push_text(&mut generated, spaced_text(&parts.list_decoders));
    push_text(&mut generated, spaced_text(&all_codecs_of(&parts.functions)));
    push_text(&mut generated, spaced_text(&wrappers_of(&parts.functions)));
    push_text(&mut generated, registrar(frame, &parts.externals, &parts.functions));
    proof {
        assert(texts(generated@) =~= appended_items(*frame, *parts));
    }
    append_strings(&mut pieces, &generated);
    let body = spaced_text(&pieces);
    let mut tokens = parts.head.clone();
    tokens.append(" ");
    if body.as_str().unicode_len() == 0 {
        tokens.append("{ }");
    } else {
        tokens.append("{ ");
        tokens.append(body.as_str());
        tokens.append(" }");
    }
    proof {
        assert(texts(pieces@) =~= texts(parts.items@) + appended_items(*frame, *parts));
    }
    tokens
}


/// A module keeps its own items, unchanged and in order, ahead of every
/// generated item.
pub proof fn law_module_items_come_first(frame: ModuleFrame, parts: ModuleParts)
    ensures
        module_expansion(frame, parts) == parts.head@ + " "@ + braced(
            side_by_side(spaced(texts(parts.items@)), spaced(appended_items(frame, parts))),
        ),
{
    lemma_spaced_append(texts(parts.items@), appended_items(frame, parts));
}

/// Registration creates the module first, then registers every external
/// type in declaration order, then every function in order, and returns the
/// provider last.
pub proof fn law_externals_register_before_functions(
    frame: ModuleFrame,
    externals: Seq<ExternalCode>,
    functions: Seq<FunctionCode>,
)
    ensures
        ({
            let support = frame.support@;
            let create = "let provider = "@ + support
                + " :: HostProviderModule :: < Profile > :: new (< super :: Component as "@ + support
                + " :: ProviderPackage > :: PACKAGE , "@ + frame.path_literal@ + ") ? ;"@;
            registration_text(frame, externals, functions) == side_by_side(
                side_by_side(
                    side_by_side(
                        create,
                        spaced(externals.map_values(|external: ExternalCode| external_registration_text(external))),
                    ),
                    spaced(functions.map_values(|function: FunctionCode| function.registration@)),
                ),
                ":: core :: result :: Result :: Ok (provider)"@,
            )
        }),
{
    let support = frame.support@;
    let create = "let provider = "@ + support
        + " :: HostProviderModule :: < Profile > :: new (< super :: Component as "@ + support
        + " :: ProviderPackage > :: PACKAGE , "@ + frame.path_literal@ + ") ? ;"@;
    let emap = externals.map_values(|external: ExternalCode| external_registration_text(external));
    let fmap = functions.map_values(|function: FunctionCode| function.registration@);
    let last = ":: core :: result :: Result :: Ok (provider)"@;
    lemma_spaced_append(seq![create] + emap + fmap, seq![last]);
    lemma_spaced_append(seq![create] + emap, fmap);
    lemma_spaced_append(seq![create], emap);
    assert(seq![create].drop_last() =~= Seq::<Seq<char>>::empty());
    assert(spaced(Seq::<Seq<char>>::empty()) == Seq::<char>::empty());
    assert(spaced(seq![create]) == create);
    assert(seq![last].drop_last() =~= Seq::<Seq<char>>::empty());
    assert(spaced(seq![last]) == last);
}

/// The stores struct holds one field per external declaration, in
/// declaration order.
pub proof fn law_one_store_field_per_external(externals: Seq<ExternalCode>, support: Seq<char>)
    ensures
        store_fields_all(externals, support) == spaced(
            externals.map_values(
                |external: ExternalCode| crate::external_code::store_field_text(external.store_field@, external.stored_payload@, support),
            ),
        ),
    decreases externals.len(),
{
    if externals.len() > 0 {
        law_one_store_field_per_external(externals.drop_last(), support);
        let fields = externals.map_values(
            |external: ExternalCode| crate::external_code::store_field_text(external.store_field@, external.stored_payload@, support),
        );
        assert(fields.drop_last() =~= externals.drop_last().map_values(
            |external: ExternalCode| crate::external_code::store_field_text(external.store_field@, external.stored_payload@, support),
        ));
    } else {
        assert(externals.map_values(
            |external: ExternalCode| crate::external_code::store_field_text(external.store_field@, external.stored_payload@, support),
        ) =~= Seq::<Seq<char>>::empty());
    }
}

/// Each distinct manual payload type gets exactly one stored-owner impl, in
/// order of first appearance: the owners are those of a sequence that holds
/// every manual payload, nothing else, and none twice.
pub proof fn law_one_owner_per_payload(externals: Seq<ExternalCode>, support: Seq<char>)
    ensures
        ({
            let payloads = manual_payloads(externals);
            let owned = first_occurrences(payloads);
            &&& owners_text(externals, support) == spaced(
                owned.map_values(|payload: Seq<char>| owner_text(payload, support)),
            )
            &&& forall|i: int| 0 <= i < payloads.len() ==> owned.contains(#[trigger] payloads[i])
            &&& forall|j: int| 0 <= j < owned.len() ==> payloads.contains(#[trigger] owned[j])
            &&& forall|j: int, k: int|
                0 <= j < k < owned.len() ==> #[trigger] owned[j] != #[trigger] owned[k]
        }),
{
    law_first_occurrences_keep_each_item_once(manual_payloads(externals));
}


proof fn lemma_all_bounds_hold_each_bound(functions: Seq<FunctionCode>, f: int, b: int)
    requires
        0 <= f < functions.len(),
        0 <= b < functions[f].bounds@.len(),
    ensures
        all_bounds(functions).contains(functions[f].bounds@[b]@),
    decreases functions.len(),
{
    let earlier = all_bounds(functions.drop_last());
    let last = texts(functions.last().bounds@);
    if f < functions.len() - 1 {
        assert(functions.drop_last()[f] == functions[f]);
        lemma_all_bounds_hold_each_bound(functions.drop_last(), f, b);
        let j = choose|j: int| 0 <= j < earlier.len() && earlier[j] == functions[f].bounds@[b]@;
        assert((earlier + last)[j] == earlier[j]);
    } else {
        assert(last[b] == functions[f].bounds@[b]@);
        assert((earlier + last)[earlier.len() + b] == last[b]);
    }
}

proof fn lemma_all_bounds_come_from_functions(functions: Seq<FunctionCode>, j: int)
    requires
        0 <= j < all_bounds(functions).len(),
    ensures
        exists|f: int, b: int|
            0 <= f < functions.len() && 0 <= b < functions[f].bounds@.len() && #[trigger] functions[f].bounds@[b]@
                == all_bounds(functions)[j],
    decreases functions.len(),
{
    let earlier = all_bounds(functions.drop_last());
    let last = texts(functions.last().bounds@);
    let f_last = functions.len() - 1;
    if j < earlier.len() {
        lemma_all_bounds_come_from_functions(functions.drop_last(), j);
        let (f, b) = choose|f: int, b: int|
            0 <= f < functions.drop_last().len() && 0 <= b < functions.drop_last()[f].bounds@.len()
                && #[trigger] functions.drop_last()[f].bounds@[b]@ == earlier[j];
        assert(functions.drop_last()[f] == functions[f]);
        assert((earlier + last)[j] == earlier[j]);
    } else {
        let b = j - earlier.len();
        assert((earlier + last)[j] == last[b]);
        assert(functions[f_last].bounds@[b]@ == last[b]);
    }
}

/// The registrar's where clause holds every bound of every generated
/// function, nothing else, and no bound twice.
pub proof fn law_registrar_holds_every_function_bound(functions: Seq<FunctionCode>)
    ensures
        forall|f: int, b: int|
            0 <= f < functions.len() && 0 <= b < functions[f].bounds@.len() ==> module_bounds(
                functions,
            ).contains(#[trigger] functions[f].bounds@[b]@),
        forall|j: int|
            0 <= j < module_bounds(functions).len() ==> exists|f: int, b: int|
                0 <= f < functions.len() && 0 <= b < functions[f].bounds@.len() && #[trigger] functions[f].bounds@[b]@
                    == #[trigger] module_bounds(functions)[j],
        forall|j: int, k: int|
            0 <= j < k < module_bounds(functions).len() ==> #[trigger] module_bounds(functions)[j]
                != #[trigger] module_bounds(functions)[k],
{
    let all = all_bounds(functions);
    law_first_occurrences_keep_each_item_once(all);
    assert forall|f: int, b: int|
        0 <= f < functions.len() && 0 <= b < functions[f].bounds@.len() implies module_bounds(
            functions,
        ).contains(#[trigger] functions[f].bounds@[b]@) by {
        lemma_all_bounds_hold_each_bound(functions, f, b);
        let i = choose|i: int| 0 <= i < all.len() && all[i] == functions[f].bounds@[b]@;
        assert(first_occurrences(all).contains(all[i]));
    }
    assert forall|j: int| 0 <= j < module_bounds(functions).len() implies exists|f: int, b: int|
        0 <= f < functions.len() && 0 <= b < functions[f].bounds@.len() && #[trigger] functions[f].bounds@[b]@
            == #[trigger] module_bounds(functions)[j] by {
        let i = choose|i: int| 0 <= i < all.len() && all[i] == first_occurrences(all)[j];
        lemma_all_bounds_come_from_functions(functions, i);
    }
}

} // verus!
