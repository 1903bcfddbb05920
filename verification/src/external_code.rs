use vstd::prelude::*;

verus! {

/// An external declaration as the module's generated code names it, each
/// part as token text: its payload type, its source name literal, its store
/// field, the payload its store holds (the stored payload of a generic
/// external, else the payload type), whether it takes the default payload
/// semantics (a non-generic external with default semantics), its schema and
/// storage types, and the explicit payload type of a generic external with a
/// manual payload.
pub struct ExternalCode {
    pub payload: String,
    pub name: String,
    pub store_field: String,
    pub stored_payload: String,
    pub default_payload_semantics: bool,
    pub schema: String,
    pub storage: String,
    pub manual_payload: Option<String>,
}

/// Two pieces of token text side by side, as a token stream prints them:
/// separated by one space, an empty piece leaving no trace.
pub open spec fn side_by_side(first: Seq<char>, second: Seq<char>) -> Seq<char> {
    if first.len() == 0 {
        second
    } else if second.len() == 0 {
        first
    } else {
        first + " "@ + second
    }
}

/// The `ExternalPayload` impl of an external with default payload semantics:
/// equality and hashing by the payload's own impls, and an opaque inspection
/// text made of the source name.
pub open spec fn payload_semantics_text(payload: Seq<char>, name: Seq<char>, support: Seq<char>) -> Seq<char> {
    "impl "@ + support + " :: ExternalPayload for "@ + payload
        + " { fn source_equal (& self , other : & Self) -> bool { < Self as :: core :: cmp :: PartialEq > :: eq (self , other) } fn source_hash (& self) -> u64 { "@
        + support + " :: external_payload_hash (self) } fn inspect (& self) -> "@ + support
        + " :: EcoString { "@ + support + " :: EcoString :: from (:: core :: concat ! ("@ + name
        + " , \"(<opaque>)\")) } }"@
}

/// The payload impls of `externals` in order, for those with default payload
/// semantics.
pub open spec fn payload_semantics_all(externals: Seq<ExternalCode>, support: Seq<char>) -> Seq<char>
    decreases externals.len(),
{
    if externals.len() == 0 {
        Seq::empty()
    } else {
        let last = externals.last();
        side_by_side(
            payload_semantics_all(externals.drop_last(), support),
            if last.default_payload_semantics {
                payload_semantics_text(last.payload@, last.name@, support)
            } else {
                Seq::empty()
            },
        )
    }
}

/// The store field of one external: `field : support :: HostExternalStore < payload > ,`.
pub open spec fn store_field_text(field: Seq<char>, payload: Seq<char>, support: Seq<char>) -> Seq<char> {
    field + " : "@ + support + " :: HostExternalStore < "@ + payload + " > ,"@
}

/// The store fields of `externals`, one per external, in order.
pub open spec fn store_fields_all(externals: Seq<ExternalCode>, support: Seq<char>) -> Seq<char>
    decreases externals.len(),
{
    if externals.len() == 0 {
        Seq::empty()
    } else {
        let last = externals.last();
        side_by_side(
            store_fields_all(externals.drop_last(), support),
            store_field_text(last.store_field@, last.stored_payload@, support),
        )
    }
}

/// Appends `piece` to `tokens` as a token stream prints the two side by side.
pub fn push_side_by_side(tokens: &mut String, piece: &String)
    ensures
        final(tokens)@ == side_by_side(old(tokens)@, piece@),
{
    if piece.as_str().unicode_len() == 0 {
        return;
    }
    if tokens.as_str().unicode_len() > 0 {
        tokens.append(" ");
    }
    tokens.append(piece.as_str());
}

fn payload_semantics_of(external: &ExternalCode, support: &str) -> (tokens: String)
    ensures
        tokens@ == payload_semantics_text(external.payload@, external.name@, support@),
{
    let mut tokens = String::new();
    tokens.append("impl ");
    tokens.append(support);
    tokens.append(" :: ExternalPayload for ");
    tokens.append(external.payload.as_str());
    tokens.append(
        " { fn source_equal (& self , other : & Self) -> bool { < Self as :: core :: cmp :: PartialEq > :: eq (self , other) } fn source_hash (& self) -> u64 { ",
    );
    tokens.append(support);
    tokens.append(" :: external_payload_hash (self) } fn inspect (& self) -> ");
    tokens.append(support);
    tokens.append(" :: EcoString { ");
    tokens.append(support);
    tokens.append(" :: EcoString :: from (:: core :: concat ! (");
    tokens.append(external.name.as_str());
    tokens.append(" , \"(<opaque>)\")) } }");
    tokens
}

/// The `ExternalPayload` impls that a module generates for its external
/// declarations with default payload semantics, in declaration order.
pub fn payload_semantics(externals: &Vec<ExternalCode>, support: &str) -> (tokens: String)
    ensures
        tokens@ == payload_semantics_all(externals@, support@),
{
    let mut tokens = String::new();
    let mut i: usize = 0;
    while i < externals.len()
        invariant
            i <= externals@.len(),
            tokens@ == payload_semantics_all(externals@.take(i as int), support@),
        decreases externals.len() - i,
    {
        proof {
            assert(externals@.take(i + 1).drop_last() =~= externals@.take(i as int));
            assert(externals@.take(i + 1).last() == externals@[i as int]);
        }
        let piece = if externals[i].default_payload_semantics {
            payload_semantics_of(&externals[i], support)
        } else {
            String::new()
        };
        push_side_by_side(&mut tokens, &piece);
        i = i + 1;
    }
    assert(externals@.take(externals@.len() as int) =~= externals@);
    tokens
}

/// The fields of a module's external stores: one `HostExternalStore` field
/// per external declaration, in declaration order.
pub fn store_fields(externals: &Vec<ExternalCode>, support: &str) -> (tokens: String)
    ensures
        tokens@ == store_fields_all(externals@, support@),
{
    let mut tokens = String::new();
    let mut i: usize = 0;
    while i < externals.len()
        invariant
            i <= externals@.len(),
            tokens@ == store_fields_all(externals@.take(i as int), support@),
        decreases externals.len() - i,
    {
        proof {
            assert(externals@.take(i + 1).drop_last() =~= externals@.take(i as int));
            assert(externals@.take(i + 1).last() == externals@[i as int]);
        }
        let mut piece = String::new();
        piece.append(externals[i].store_field.as_str());
        piece.append(" : ");
        piece.append(support);
        piece.append(" :: HostExternalStore < ");
        piece.append(externals[i].stored_payload.as_str());
        piece.append(" > ,");
        push_side_by_side(&mut tokens, &piece);
        i = i + 1;
    }
    assert(externals@.take(externals@.len() as int) =~= externals@);
    tokens
}

} // verus!
