use crate::names::lemma_decimal_injective;
use crate::text::decimal;
use vstd::prelude::*;
use vstd::utf8::encode_utf8;

verus! {

/// The lowercase hexadecimal digit of a value below sixteen.
pub open spec fn hex_digit(value: nat) -> char {
    if value < 10 {
        crate::text::digit_char(value)
    } else if value == 10 {
        'a'
    } else if value == 11 {
        'b'
    } else if value == 12 {
        'c'
    } else if value == 13 {
        'd'
    } else if value == 14 {
        'e'
    } else {
        'f'
    }
}

/// Each byte as two lowercase hexadecimal digits (`{byte:02x}`).
pub open spec fn hex_bytes(bytes: Seq<u8>) -> Seq<char>
    decreases bytes.len(),
{
    if bytes.len() == 0 {
        Seq::empty()
    } else {
        hex_bytes(bytes.drop_last()) + seq![
            hex_digit((bytes.last() / 16) as nat),
            hex_digit((bytes.last() % 16) as nat),
        ]
    }
}

fn hex_text(value: u8) -> (text: &'static str)
    requires
        value < 16,
    ensures
        text@ == seq![hex_digit(value as nat)],
{
    proof {
        reveal_strlit("0");
        reveal_strlit("1");
        reveal_strlit("2");
        reveal_strlit("3");
        reveal_strlit("4");
        reveal_strlit("5");
        reveal_strlit("6");
        reveal_strlit("7");
        reveal_strlit("8");
        reveal_strlit("9");
        reveal_strlit("a");
        reveal_strlit("b");
        reveal_strlit("c");
        reveal_strlit("d");
        reveal_strlit("e");
        reveal_strlit("f");
    }
    if value == 0 {
        "0"
    } else if value == 1 {
        "1"
    } else if value == 2 {
        "2"
    } else if value == 3 {
        "3"
    } else if value == 4 {
        "4"
    } else if value == 5 {
        "5"
    } else if value == 6 {
        "6"
    } else if value == 7 {
        "7"
    } else if value == 8 {
        "8"
    } else if value == 9 {
        "9"
    } else if value == 10 {
        "a"
    } else if value == 11 {
        "b"
    } else if value == 12 {
        "c"
    } else if value == 13 {
        "d"
    } else if value == 14 {
        "e"
    } else {
        "f"
    }
}

/// The field that gives generated list decoders access to a declared type:
/// `__geam_declared_` followed by the hexadecimal UTF-8 bytes of the type's
/// token text.
pub open spec fn declared_access_field_name(type_: Seq<char>) -> Seq<char> {
    "__geam_declared_"@ + hex_bytes(encode_utf8(type_))
}

pub fn declared_access_field(type_: &str) -> (field: String)
    ensures
        field@ == declared_access_field_name(type_@),
{
    let bytes = type_.as_bytes();
    let mut field = String::new();
    field.append("__geam_declared_");
    let ghost start = field@;
    let mut i: usize = 0;
    while i < bytes.len()
        invariant
            i <= bytes@.len(),
            bytes@ == encode_utf8(type_@),
            field@ == start + hex_bytes(bytes@.take(i as int)),
        decreases bytes.len() - i,
    {
        let byte = bytes[i];
        proof {
            assert(bytes@.take(i + 1).drop_last() =~= bytes@.take(i as int));
            assert(bytes@.take(i + 1).last() == byte);
        }
        field.append(hex_text(byte / 16));
        field.append(hex_text(byte % 16));
        proof {
            assert(field@ =~= start + hex_bytes(bytes@.take(i + 1)));
        }
        i = i + 1;
    }
    assert(bytes@.take(bytes@.len() as int) =~= bytes@);
    field
}

/// The item and decoder names of a declared list item type.
pub fn declared_names(type_: &str) -> (names: (String, String))
    ensures
        names.0@ == "__GeamItem"@ + declared_access_field_name(type_@),
        names.1@ == "__GeamDecoder"@ + declared_access_field_name(type_@),
{
    let field = declared_access_field(type_);
    let mut item = String::new();
    item.append("__GeamItem");
    item.append(field.as_str());
    let mut decoder = String::new();
    decoder.append("__GeamDecoder");
    decoder.append(field.as_str());
    (item, decoder)
}

proof fn lemma_hex_digit_injective(a: nat, b: nat)
    requires
        a < 16,
        b < 16,
        hex_digit(a) == hex_digit(b),
    ensures
        a == b,
{
}

proof fn lemma_hex_bytes_injective(first: Seq<u8>, second: Seq<u8>)
    requires
        hex_bytes(first) == hex_bytes(second),
    ensures
        first == second,
    decreases first.len(),
{
    lemma_hex_bytes_len(first);
    lemma_hex_bytes_len(second);
    if first.len() > 0 {
        let h1 = hex_bytes(first);
        let h2 = hex_bytes(second);
        assert(h1.subrange(0, h1.len() - 2) =~= hex_bytes(first.drop_last()));
        assert(h2.subrange(0, h2.len() - 2) =~= hex_bytes(second.drop_last()));
        lemma_hex_bytes_injective(first.drop_last(), second.drop_last());
        let x = first.last();
        let y = second.last();
        assert(h1[h1.len() - 2] == hex_digit((x / 16) as nat));
        assert(h2[h2.len() - 2] == hex_digit((y / 16) as nat));
        assert(h1[h1.len() - 1] == hex_digit((x % 16) as nat));
        assert(h2[h2.len() - 1] == hex_digit((y % 16) as nat));
        lemma_hex_digit_injective((x / 16) as nat, (y / 16) as nat);
        lemma_hex_digit_injective((x % 16) as nat, (y % 16) as nat);
        assert(first =~= first.drop_last().push(x));
        assert(second =~= second.drop_last().push(y));
    }
}

proof fn lemma_hex_bytes_len(bytes: Seq<u8>)
    ensures
        hex_bytes(bytes).len() == 2 * bytes.len(),
    decreases bytes.len(),
{
    if bytes.len() > 0 {
        lemma_hex_bytes_len(bytes.drop_last());
    }
}

/// Different declared types get different access fields, so the decoders of
/// different declared item types never share a field.
pub proof fn law_declared_access_fields_are_distinct(first: Seq<char>, second: Seq<char>)
    requires
        first != second,
    ensures
        declared_access_field_name(first) != declared_access_field_name(second),
{
    if declared_access_field_name(first) == declared_access_field_name(second) {
        let prefix = "__geam_declared_"@;
        let f = declared_access_field_name(first);
        let s = declared_access_field_name(second);
        assert(f.subrange(prefix.len() as int, f.len() as int) =~= hex_bytes(encode_utf8(first)));
        assert(s.subrange(prefix.len() as int, s.len() as int) =~= hex_bytes(encode_utf8(second)));
        lemma_hex_bytes_injective(encode_utf8(first), encode_utf8(second));
        vstd::utf8::encode_utf8_decode_utf8(first);
        vstd::utf8::encode_utf8_decode_utf8(second);
    }
}

/// How generated input values hold their payload: borrowed for the call, or
/// owned.
#[derive(Clone, Copy)]
pub enum InputOwnership {
    Borrowed,
    Owned,
}

pub open spec fn flavored_name(ident: Seq<char>, flavor: InputOwnership) -> Seq<char> {
    match flavor {
        InputOwnership::Borrowed => "__GeamImmediate"@ + ident,
        InputOwnership::Owned => "__GeamOwned"@ + ident,
    }
}

/// The name of a generated input type or list decoder in one ownership
/// flavor.
pub fn flavored_ident(ident: &str, flavor: InputOwnership) -> (name: String)
    ensures
        name@ == flavored_name(ident@, flavor),
{
    let mut name = String::new();
    match flavor {
        InputOwnership::Borrowed => name.append("__GeamImmediate"),
        InputOwnership::Owned => name.append("__GeamOwned"),
    }
    name.append(ident);
    name
}

/// The marker type of a List of a custom input in one ownership flavor.
pub fn list_marker_ident(input: &str, flavor: InputOwnership) -> (name: String)
    ensures
        name@ == flavored_name(input@, flavor) + "List"@,
{
    let mut name = flavored_ident(input, flavor);
    name.append("List");
    name
}

/// The schema type of the `index`-th custom declaration.
pub open spec fn custom_schema_name(index: nat) -> Seq<char> {
    "__GeamCustomSchema"@ + decimal(index)
}

/// The decoder function of the `index`-th custom declaration.
pub open spec fn custom_decoder_name(index: nat) -> Seq<char> {
    "__geam_decode_custom_"@ + decimal(index)
}

/// Distinct custom declarations get distinct schema types and decoder
/// functions.
pub proof fn law_custom_names_are_distinct(index: nat, other: nat)
    requires
        index != other,
    ensures
        custom_schema_name(index) != custom_schema_name(other),
        custom_decoder_name(index) != custom_decoder_name(other),
{
    let schema = "__GeamCustomSchema"@;
    let decoder = "__geam_decode_custom_"@;
    if custom_schema_name(index) == custom_schema_name(other) {
        let name = custom_schema_name(index);
        assert(name.subrange(schema.len() as int, name.len() as int) =~= decimal(index));
        assert(name.subrange(schema.len() as int, name.len() as int) =~= decimal(other));
        lemma_decimal_injective(index, other);
    }
    if custom_decoder_name(index) == custom_decoder_name(other) {
        let name = custom_decoder_name(index);
        assert(name.subrange(decoder.len() as int, name.len() as int) =~= decimal(index));
        assert(name.subrange(decoder.len() as int, name.len() as int) =~= decimal(other));
        lemma_decimal_injective(index, other);
    }
}

pub fn custom_schema(index: usize) -> (name: String)
    ensures
        name@ == custom_schema_name(index as nat),
{
    let mut name = String::new();
    name.append("__GeamCustomSchema");
    crate::text::push_decimal(&mut name, index);
    name
}

pub fn custom_decoder(index: usize) -> (name: String)
    ensures
        name@ == custom_decoder_name(index as nat),
{
    let mut name = String::new();
    name.append("__geam_decode_custom_");
    crate::text::push_decimal(&mut name, index);
    name
}

/// The names of constructor `constructor` of custom declaration `custom`:
/// its marker type and its definition type.
pub fn constructor_names(custom: usize, constructor: usize) -> (names: (String, String))
    ensures
        names.0@ == "__GeamCustom"@ + decimal(custom as nat) + "Constructor"@ + decimal(
            constructor as nat,
        ),
        names.1@ == "__GeamCustom"@ + decimal(custom as nat) + "Constructor"@ + decimal(
            constructor as nat,
        ) + "Definition"@,
{
    let mut marker = String::new();
    marker.append("__GeamCustom");
    crate::text::push_decimal(&mut marker, custom);
    marker.append("Constructor");
    crate::text::push_decimal(&mut marker, constructor);
    let mut definition = marker.clone();
    definition.append("Definition");
    (marker, definition)
}

/// The definition type of field `field` of a custom constructor.
pub fn field_definition(custom: usize, constructor: usize, field: usize) -> (name: String)
    ensures
        name@ == "__GeamCustom"@ + decimal(custom as nat) + "Constructor"@ + decimal(
            constructor as nat,
        ) + "Field"@ + decimal(field as nat),
{
    let (mut name, _) = constructor_names(custom, constructor);
    name.append("Field");
    crate::text::push_decimal(&mut name, field);
    name
}

} // verus!
