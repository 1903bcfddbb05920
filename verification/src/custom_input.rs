use crate::custom_build::fields_of;
use crate::custom_cycles::joined;
use crate::names::{GeneratedNames, generated_name};
use crate::custom_value::{CustomConstructorModel, CustomFieldModel, CustomFields};
use crate::generics::texts;
use vstd::prelude::*;

verus! {

/// One `name : value` pair of a struct-like constructor expression; a field
/// without a name contributes its value alone.
pub open spec fn field_pair(field: CustomFieldModel, value: Seq<char>) -> Seq<char> {
    match field.ident {
        Some(name) => name@ + " : "@ + value,
        None => ": "@ + value,
    }
}

/// The `name : value` pairs of `fields` and `values`, as far as both reach.
pub open spec fn field_pairs(fields: Seq<CustomFieldModel>, values: Seq<Seq<char>>) -> Seq<Seq<char>> {
    Seq::new(
        if fields.len() < values.len() {
            fields.len()
        } else {
            values.len()
        },
        |i: int| field_pair(fields[i], values[i]),
    )
}

/// The expression that builds a generated custom input value with
/// constructor `constructor` from `values`, as token text.
pub open spec fn input_expression(
    input: Seq<char>,
    constructor: CustomConstructorModel,
    values: Seq<Seq<char>>,
) -> Seq<char> {
    let path = input + " :: "@ + constructor.ident@;
    match constructor.fields {
        CustomFields::Unit => path,
        CustomFields::Unnamed(_) => path + " ("@ + joined(values, " , "@) + ")"@,
        CustomFields::Named(fields) => {
            let pairs = field_pairs(fields@, values);
            if pairs.len() == 0 {
                path + " { }"@
            } else {
                path + " { "@ + joined(pairs, " , "@) + " }"@
            }
        },
    }
}

/// Appends `items` joined by `separator`.
fn push_joined(output: &mut String, items: &Vec<String>, separator: &str)
    ensures
        final(output)@ == old(output)@ + joined(texts(items@), separator@),
{
    let ghost start = output@;
    let mut i: usize = 0;
    assert(texts(items@).take(0) =~= Seq::<Seq<char>>::empty());
    while i < items.len()
        invariant
            i <= items@.len(),
            output@ == start + joined(texts(items@).take(i as int), separator@),
        decreases items.len() - i,
    {
        let ghost before = output@;
        if i > 0 {
            output.append(separator);
        }
        output.append(items[i].as_str());
        proof {
            let all = texts(items@);
            assert(all.take(i + 1).drop_last() =~= all.take(i as int));
            assert(all.take(i + 1).last() == items@[i as int]@);
            if i == 0 {
                assert(all.take(1) =~= seq![items@[0]@]);
            }
        }
        i = i + 1;
    }
    assert(texts(items@).take(items@.len() as int) =~= texts(items@));
}

/// The expression that builds a generated custom input value: the input
/// type's path to the constructor, followed by the values in parentheses or
/// paired with the field names in braces.
pub fn custom_input_expression(
    input: &str,
    constructor: &CustomConstructorModel,
    values: &Vec<String>,
) -> (expression: String)
    ensures
        expression@ == input_expression(input@, *constructor, texts(values@)),
{
    let mut expression = String::new();
    expression.append(input);
    expression.append(" :: ");
    expression.append(constructor.ident.as_str());
    match &constructor.fields {
        CustomFields::Unit => {},
        CustomFields::Unnamed(_) => {
            expression.append(" (");
            push_joined(&mut expression, values, " , ");
            expression.append(")");
        },
        CustomFields::Named(fields) => {
            let count = if fields.len() < values.len() {
                fields.len()
            } else {
                values.len()
            };
            let mut pairs: Vec<String> = Vec::new();
            let mut i: usize = 0;
            while i < count
                invariant
                    count <= fields@.len(),
                    count <= values@.len(),
                    i <= count,
                    pairs@.len() == i,
                    forall|j: int|
                        0 <= j < i ==> #[trigger] pairs@[j]@ == field_pair(
                            fields@[j],
                            values@[j]@,
                        ),
                decreases count - i,
            {
                let mut pair = String::new();
                match &fields[i].ident {
                    Some(name) => {
                        pair.append(name.as_str());
                        pair.append(" : ");
                    },
                    None => {
                        pair.append(": ");
                    },
                }
                pair.append(values[i].as_str());
                pairs.push(pair);
                i = i + 1;
            }
            assert(texts(pairs@) =~= field_pairs(fields@, texts(values@)));
            if count == 0 {
                expression.append(" { }");
            } else {
                expression.append(" { ");
                push_joined(&mut expression, &pairs, " , ");
                expression.append(" }");
            }
        },
    }
    expression
}

/// The pattern that matches a custom output value built with `constructor`,
/// binding each field to a fresh `custom_field` name, and those names in
/// field order.
pub fn custom_output_pattern(
    custom: &str,
    constructor: &CustomConstructorModel,
    names: &mut GeneratedNames,
) -> (result: (String, Vec<String>))
    requires
        old(names).next + fields_of(constructor.fields).len() < usize::MAX,
    ensures
        final(names).next == old(names).next + fields_of(constructor.fields).len(),
        result.1@.len() == fields_of(constructor.fields).len(),
        forall|i: int|
            0 <= i < result.1@.len() ==> #[trigger] result.1@[i]@ == generated_name(
                "custom_field"@,
                (old(names).next + i) as nat,
            ),
        result.0@ == input_expression(custom@, *constructor, texts(result.1@)),
{
    let count = match &constructor.fields {
        CustomFields::Unit => 0,
        CustomFields::Unnamed(fields) => fields.len(),
        CustomFields::Named(fields) => fields.len(),
    };
    let ghost start = names.next;
    let mut bindings: Vec<String> = Vec::new();
    let mut i: usize = 0;
    while i < count
        invariant
            count == fields_of(constructor.fields).len(),
            start == old(names).next,
            start + count < usize::MAX,
            i <= count,
            names.next == start + i,
            bindings@.len() == i,
            forall|j: int|
                0 <= j < i ==> #[trigger] bindings@[j]@ == generated_name(
                    "custom_field"@,
                    (start + j) as nat,
                ),
        decreases count - i,
    {
        let binding = names.next("custom_field");
        bindings.push(binding);
        i = i + 1;
    }
    let pattern = custom_input_expression(custom, constructor, &bindings);
    (pattern, bindings)
}

} // verus!
