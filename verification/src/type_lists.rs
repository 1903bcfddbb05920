//! Type-level indices and lists of the generated code, produced as token
//! text in the form that `proc_macro2::TokenStream`'s `Display` prints: one
//! space between tokens, `::` kept together.
use crate::names::{GeneratedNames, generated_name};
use vstd::prelude::*;

verus! {

/// `support :: next < ... < support :: zero > ... >` with `index` wrappers.
pub open spec fn type_index(support: Seq<char>, zero: Seq<char>, next: Seq<char>, index: nat) -> Seq<
    char,
>
    decreases index,
{
    if index == 0 {
        support + " :: "@ + zero
    } else {
        support + " :: "@ + next + " < "@ + type_index(support, zero, next, (index - 1) as nat)
            + " >"@
    }
}

fn push_type_index(output: &mut String, support: &str, zero: &str, next: &str, index: usize)
    ensures
        final(output)@ == old(output)@ + type_index(support@, zero@, next@, index as nat),
    decreases index,
{
    output.append(support);
    output.append(" :: ");
    if index == 0 {
        output.append(zero);
    } else {
        output.append(next);
        output.append(" < ");
        push_type_index(output, support, zero, next, index - 1);
        output.append(" >");
    }
}

/// The type that selects construction `index` of a requirement list.
pub fn provider_construction_index(index: usize, support: &str) -> (tokens: String)
    ensures
        tokens@ == type_index(
            support@,
            "ProviderConstructionIndex0"@,
            "ProviderConstructionIndexNext"@,
            index as nat,
        ),
{
    let mut tokens = String::new();
    push_type_index(
        &mut tokens,
        support,
        "ProviderConstructionIndex0",
        "ProviderConstructionIndexNext",
        index,
    );
    tokens
}

/// The type that names custom declaration `index` of a module.
pub fn host_custom_index(index: usize, support: &str) -> (tokens: String)
    ensures
        tokens@ == type_index(support@, "HostCustomIndex0"@, "HostCustomIndexNext"@, index as nat),
{
    let mut tokens = String::new();
    push_type_index(&mut tokens, support, "HostCustomIndex0", "HostCustomIndexNext", index);
    tokens
}

/// `support :: cons < h0 , support :: cons < h1 , ... support :: end > ... >`
/// over `heads[from..]`.
pub open spec fn cons_list(
    support: Seq<char>,
    cons: Seq<char>,
    end: Seq<char>,
    heads: Seq<Seq<char>>,
    from: int,
) -> Seq<char>
    decreases heads.len() - from,
{
    if from < 0 || from >= heads.len() {
        support + " :: "@ + end
    } else {
        support + " :: "@ + cons + " < "@ + heads[from] + " , "@ + cons_list(
            support,
            cons,
            end,
            heads,
            from + 1,
        ) + " >"@
    }
}

pub open spec fn texts_of(strings: Seq<String>) -> Seq<Seq<char>> {
    strings.map_values(|text: String| text@)
}

fn push_cons_list(
    output: &mut String,
    support: &str,
    cons: &str,
    end: &str,
    heads: &Vec<String>,
    from: usize,
)
    requires
        from <= heads@.len(),
    ensures
        final(output)@ == old(output)@ + cons_list(
            support@,
            cons@,
            end@,
            texts_of(heads@),
            from as int,
        ),
    decreases heads@.len() - from,
{
    output.append(support);
    output.append(" :: ");
    if from >= heads.len() {
        output.append(end);
    } else {
        output.append(cons);
        output.append(" < ");
        output.append(heads[from].as_str());
        output.append(" , ");
        push_cons_list(output, support, cons, end, heads, from + 1);
        output.append(" >");
    }
}

/// The type-level list of a custom constructor's fields.
pub fn host_custom_field_sequence(fields: &Vec<String>, support: &str) -> (tokens: String)
    ensures
        tokens@ == cons_list(
            support@,
            "HostCustomFieldList"@,
            "HostCustomFieldListEnd"@,
            texts_of(fields@),
            0,
        ),
{
    let mut tokens = String::new();
    push_cons_list(&mut tokens, support, "HostCustomFieldList", "HostCustomFieldListEnd", fields, 0);
    tokens
}

/// The type-level list of a custom declaration's constructors.
pub fn host_custom_constructor_sequence(constructors: &Vec<String>, support: &str) -> (tokens:
    String)
    ensures
        tokens@ == cons_list(
            support@,
            "HostCustomConstructorList"@,
            "HostCustomConstructorListEnd"@,
            texts_of(constructors@),
            0,
        ),
{
    let mut tokens = String::new();
    push_cons_list(
        &mut tokens,
        support,
        "HostCustomConstructorList",
        "HostCustomConstructorListEnd",
        constructors,
        0,
    );
    tokens
}

/// A construction the generated code requires, bound to a generated name.
pub struct GeneratedConstruction {
    pub requirement: String,
    pub binding: String,
}

pub open spec fn requirements_of(constructions: Seq<GeneratedConstruction>) -> Seq<Seq<char>> {
    constructions.map_values(|construction: GeneratedConstruction| construction.requirement@)
}

/// The type-level list of the requirements of `constructions`, in order.
pub fn provider_requirement_sequence(constructions: &Vec<GeneratedConstruction>, support: &str) -> (tokens:
    String)
    ensures
        tokens@ == cons_list(
            support@,
            "ProviderConstructionList"@,
            "ProviderNoConstructions"@,
            requirements_of(constructions@),
            0,
        ),
{
    let mut requirements: Vec<String> = Vec::new();
    let mut i: usize = 0;
    while i < constructions.len()
        invariant
            i <= constructions@.len(),
            requirements@.len() == i,
            forall|j: int|
                0 <= j < i ==> #[trigger] requirements@[j]@ == constructions@[j].requirement@,
        decreases constructions.len() - i,
    {
        requirements.push(constructions[i].requirement.clone());
        i = i + 1;
    }
    assert(texts_of(requirements@) =~= requirements_of(constructions@));
    let mut tokens = String::new();
    push_cons_list(
        &mut tokens,
        support,
        "ProviderConstructionList",
        "ProviderNoConstructions",
        &requirements,
        0,
    );
    tokens
}

/// Registers one more required construction under the next generated
/// `construction` name, and returns that name.
pub fn register_provider_requirement(
    requirement: String,
    names: &mut GeneratedNames,
    constructions: &mut Vec<GeneratedConstruction>,
) -> (binding: String)
    requires
        old(names).next < usize::MAX,
    ensures
        final(names).next == old(names).next + 1,
        binding@ == generated_name("construction"@, old(names).next as nat),
        final(constructions)@.len() == old(constructions)@.len() + 1,
        final(constructions)@.drop_last() == old(constructions)@,
        final(constructions)@.last().requirement == requirement,
        final(constructions)@.last().binding@ == binding@,
{
    let binding = names.next("construction");
    let ghost before = constructions@;
    constructions.push(GeneratedConstruction { requirement, binding: binding.clone() });
    assert(constructions@.drop_last() =~= before);
    binding
}

/// A construction of `type_`, registered like any other requirement.
pub fn register_host_construction(
    type_: &str,
    support: &str,
    names: &mut GeneratedNames,
    constructions: &mut Vec<GeneratedConstruction>,
) -> (binding: String)
    requires
        old(names).next < usize::MAX,
    ensures
        final(names).next == old(names).next + 1,
        binding@ == generated_name("construction"@, old(names).next as nat),
        final(constructions)@.len() == old(constructions)@.len() + 1,
        final(constructions)@.drop_last() == old(constructions)@,
        final(constructions)@.last().requirement@ == support@ + " :: ProviderConstruction < "@
            + type_@ + " >"@,
        final(constructions)@.last().binding@ == binding@,
{
    let mut requirement = String::new();
    requirement.append(support);
    requirement.append(" :: ProviderConstruction < ");
    requirement.append(type_);
    requirement.append(" >");
    register_provider_requirement(requirement, names, constructions)
}

/// `( v0 , ( v1 , ... ( ) ) )` over `values[from..]`.
pub open spec fn value_sequence(values: Seq<Seq<char>>, from: int) -> Seq<char>
    decreases values.len() - from,
{
    if from < 0 || from >= values.len() {
        "()"@
    } else {
        "("@ + values[from] + " , "@ + value_sequence(values, from + 1) + ")"@
    }
}

fn push_value_sequence(output: &mut String, values: &Vec<String>, from: usize)
    requires
        from <= values@.len(),
    ensures
        final(output)@ == old(output)@ + value_sequence(texts_of(values@), from as int),
    decreases values@.len() - from,
{
    if from >= values.len() {
        output.append("()");
    } else {
        output.append("(");
        output.append(values[from].as_str());
        output.append(" , ");
        push_value_sequence(output, values, from + 1);
        output.append(")");
    }
}

/// The nested pairs that carry host values to the generated calls.
pub fn host_value_sequence(values: &Vec<String>) -> (tokens: String)
    ensures
        tokens@ == value_sequence(texts_of(values@), 0),
{
    let mut tokens = String::new();
    push_value_sequence(&mut tokens, values, 0);
    tokens
}


/// The statement that binds construction `index`'s binding to its selection.
pub open spec fn construction_binding(
    binding: Seq<char>,
    index: nat,
    requirements: Seq<char>,
    support: Seq<char>,
) -> Seq<char> {
    "let "@ + binding + " = "@ + support + " :: ProviderConstructions :: select :: < "@ + type_index(
        support,
        "ProviderConstructionIndex0"@,
        "ProviderConstructionIndexNext"@,
        index,
    ) + " > ("@ + requirements + ") ;"@
}

/// The binding statements of `constructions[..count]`, separated by spaces.
pub open spec fn construction_bindings(
    constructions: Seq<GeneratedConstruction>,
    count: nat,
    requirements: Seq<char>,
    support: Seq<char>,
) -> Seq<char>
    decreases count,
{
    if count == 0 {
        Seq::empty()
    } else if count == 1 {
        construction_binding(constructions[0].binding@, 0, requirements, support)
    } else {
        construction_bindings(constructions, (count - 1) as nat, requirements, support) + " "@
            + construction_binding(
            constructions[count - 1].binding@,
            (count - 1) as nat,
            requirements,
            support,
        )
    }
}

/// Binds every construction of a call to its selection from `requirements`.
pub fn provider_construction_bindings(
    constructions: &Vec<GeneratedConstruction>,
    requirements: &str,
    support: &str,
) -> (statements: String)
    ensures
        statements@ == construction_bindings(
            constructions@,
            constructions@.len(),
            requirements@,
            support@,
        ),
{
    let mut statements = String::new();
    let mut i: usize = 0;
    while i < constructions.len()
        invariant
            i <= constructions@.len(),
            statements@ == construction_bindings(constructions@, i as nat, requirements@, support@),
        decreases constructions.len() - i,
    {
        if i > 0 {
            statements.append(" ");
        }
        statements.append("let ");
        statements.append(constructions[i].binding.as_str());
        statements.append(" = ");
        statements.append(support);
        statements.append(" :: ProviderConstructions :: select :: < ");
        push_type_index(
            &mut statements,
            support,
            "ProviderConstructionIndex0",
            "ProviderConstructionIndexNext",
            i,
        );
        statements.append(" > (");
        statements.append(requirements);
        statements.append(") ;");
        i = i + 1;
    }
    statements
}

/// The bound that requirement `index` of `requirements` is `requirement`.
pub open spec fn selection_bound(
    requirements: Seq<char>,
    index: nat,
    requirement: Seq<char>,
    support: Seq<char>,
) -> Seq<char> {
    requirements + " : "@ + support + " :: ProviderConstructionRequirementAt < "@ + type_index(
        support,
        "ProviderConstructionIndex0"@,
        "ProviderConstructionIndexNext"@,
        index,
    ) + " , Requirement = "@ + requirement + " , >"@
}

/// One bound per construction: `requirements` selects that construction's
/// requirement at its position.
pub fn provider_requirement_selection_bounds(
    requirements: &str,
    constructions: &Vec<GeneratedConstruction>,
    support: &str,
) -> (bounds: Vec<String>)
    ensures
        bounds@.len() == constructions@.len(),
        forall|i: int|
            0 <= i < bounds@.len() ==> #[trigger] bounds@[i]@ == selection_bound(
                requirements@,
                i as nat,
                constructions@[i].requirement@,
                support@,
            ),
{
    let mut bounds: Vec<String> = Vec::new();
    let mut i: usize = 0;
    while i < constructions.len()
        invariant
            i <= constructions@.len(),
            bounds@.len() == i,
            forall|j: int|
                0 <= j < i ==> #[trigger] bounds@[j]@ == selection_bound(
                    requirements@,
                    j as nat,
                    constructions@[j].requirement@,
                    support@,
                ),
        decreases constructions.len() - i,
    {
        let mut bound = String::new();
        bound.append(requirements);
        bound.append(" : ");
        bound.append(support);
        bound.append(" :: ProviderConstructionRequirementAt < ");
        push_type_index(
            &mut bound,
            support,
            "ProviderConstructionIndex0",
            "ProviderConstructionIndexNext",
            i,
        );
        bound.append(" , Requirement = ");
        bound.append(constructions[i].requirement.as_str());
        bound.append(" , >");
        bounds.push(bound);
        i = i + 1;
    }
    bounds
}

} // verus!
