use crate::text::{decimal, digit_char, push_decimal};
use vstd::prelude::*;

verus! {

/// The counter behind the `__geam_{role}_{index}` names of one expansion.
pub struct GeneratedNames {
    pub next: usize,
}

/// The name generated for `role` at position `index`.
pub open spec fn generated_name(role: Seq<char>, index: nat) -> Seq<char> {
    "__geam_"@ + role + "_"@ + decimal(index)
}

impl GeneratedNames {
    pub fn new() -> (names: GeneratedNames)
        ensures
            names.next == 0,
    {
        GeneratedNames { next: 0 }
    }

    /// The next name for `role`; every call advances the shared counter.
    pub fn next(&mut self, role: &str) -> (ident: String)
        requires
            old(self).next < usize::MAX,
        ensures
            final(self).next == old(self).next + 1,
            ident@ == generated_name(role@, old(self).next as nat),
    {
        let index = self.next;
        self.next = self.next + 1;
        let mut ident = String::new();
        ident.append("__geam_");
        ident.append(role);
        ident.append("_");
        push_decimal(&mut ident, index);
        ident
    }
}

proof fn lemma_digit_char_injective(a: nat, b: nat)
    requires
        a < 10,
        b < 10,
        digit_char(a) == digit_char(b),
    ensures
        a == b,
{
}

/// Decimal renderings have at least one character, only digits, and two or
/// more exactly for numbers from ten on.
pub proof fn lemma_decimal_shape(n: nat)
    ensures
        decimal(n).len() >= 1,
        n >= 10 ==> decimal(n).len() >= 2,
        forall|i: int| 0 <= i < decimal(n).len() ==> #[trigger] decimal(n)[i] != '_',
    decreases n,
{
    if n >= 10 {
        lemma_decimal_shape(n / 10);
        let d = decimal(n);
        assert forall|i: int| 0 <= i < d.len() implies #[trigger] d[i] != '_' by {
            if i < d.len() - 1 {
                assert(d[i] == decimal(n / 10)[i]);
            }
        }
    }
}

/// Decimal renderings consist of digits.
pub proof fn lemma_decimal_digits(n: nat)
    ensures
        forall|i: int| 0 <= i < decimal(n).len() ==> '0' <= #[trigger] decimal(n)[i] <= '9',
    decreases n,
{
    if n >= 10 {
        lemma_decimal_digits(n / 10);
        let d = decimal(n);
        assert forall|i: int| 0 <= i < d.len() implies '0' <= #[trigger] d[i] <= '9' by {
            if i < d.len() - 1 {
                assert(d[i] == decimal(n / 10)[i]);
            }
        }
    }
}

/// A number written between a common prefix and a suffix that starts with a
/// non-digit is read back from the text: equal texts mean equal numbers and
/// equal suffixes.
pub proof fn lemma_decimal_between(
    prefix: Seq<char>,
    a: nat,
    first: Seq<char>,
    b: nat,
    second: Seq<char>,
)
    requires
        first.len() > 0,
        second.len() > 0,
        !('0' <= first[0] <= '9'),
        !('0' <= second[0] <= '9'),
        prefix + decimal(a) + first == prefix + decimal(b) + second,
    ensures
        a == b,
        first == second,
{
    let x = prefix + decimal(a) + first;
    let y = prefix + decimal(b) + second;
    let da = decimal(a);
    let db = decimal(b);
    let start = prefix.len() as int;
    let la = da.len() as int;
    let lb = db.len() as int;
    lemma_decimal_digits(a);
    lemma_decimal_digits(b);
    if la < lb {
        assert(x[start + la] == first[0]);
        assert(y[start + la] == db[la]);
    } else if lb < la {
        assert(y[start + lb] == second[0]);
        assert(x[start + lb] == da[lb]);
    } else {
        assert(x.subrange(start, start + la) =~= da);
        assert(y.subrange(start, start + lb) =~= db);
        lemma_decimal_injective(a, b);
        assert(x.subrange(start + la, x.len() as int) =~= first);
        assert(y.subrange(start + lb, y.len() as int) =~= second);
    }
}

/// Different numbers have different decimal renderings.
pub proof fn lemma_decimal_injective(a: nat, b: nat)
    requires
        decimal(a) == decimal(b),
    ensures
        a == b,
    decreases a,
{
    lemma_decimal_shape(a);
    lemma_decimal_shape(b);
    if a < 10 && b < 10 {
        assert(decimal(a)[0] == digit_char(a));
        assert(decimal(b)[0] == digit_char(b));
        lemma_digit_char_injective(a, b);
    } else if a >= 10 && b >= 10 {
        assert(decimal(a).drop_last() =~= decimal(a / 10));
        assert(decimal(b).drop_last() =~= decimal(b / 10));
        lemma_decimal_injective(a / 10, b / 10);
        assert(decimal(a).last() == digit_char(a % 10));
        lemma_digit_char_injective(a % 10, b % 10);
    }
}

/// One generator never hands out the same name twice, whatever the roles:
/// names at different positions differ.
pub proof fn law_generated_names_are_distinct(
    role: Seq<char>,
    index: nat,
    other_role: Seq<char>,
    other_index: nat,
)
    requires
        index != other_index,
    ensures
        generated_name(role, index) != generated_name(other_role, other_index),
{
    let first = generated_name(role, index);
    let second = generated_name(other_role, other_index);
    lemma_decimal_shape(index);
    lemma_decimal_shape(other_index);
    let d1 = decimal(index);
    let d2 = decimal(other_index);
    reveal_strlit("_");
    let head1 = "__geam_"@ + role + "_"@;
    let head2 = "__geam_"@ + other_role + "_"@;
    assert(first =~= head1 + d1);
    assert(second =~= head2 + d2);
    assert(head1.last() == '_');
    assert(head2.last() == '_');
    if first == second {
        let n = first.len();
        if d1.len() < d2.len() {
            let at = n - d1.len() - 1;
            assert(first[at] == head1[head1.len() - 1]);
            assert(second[at] == d2[at - (n - d2.len())]);
        } else if d2.len() < d1.len() {
            let at = n - d2.len() - 1;
            assert(second[at] == head2[head2.len() - 1]);
            assert(first[at] == d1[at - (n - d1.len())]);
        } else {
            assert forall|i: int| 0 <= i < d1.len() implies d1[i] == d2[i] by {
                assert(first[n - d1.len() + i] == d1[i]);
                assert(second[n - d2.len() + i] == d2[i]);
            }
            assert(d1 =~= d2);
            lemma_decimal_injective(index, other_index);
        }
    }
}

} // verus!

verus! {

/// `count` underscores.
pub open spec fn underscores(count: nat) -> Seq<char>
    decreases count,
{
    if count == 0 {
        Seq::empty()
    } else {
        underscores((count - 1) as nat).push('_')
    }
}

/// The number of `names` at least `length` characters long.
spec fn count_at_least(names: Seq<Seq<char>>, length: nat) -> nat
    decreases names.len(),
{
    if names.len() == 0 {
        0
    } else {
        count_at_least(names.drop_last(), length) + if names.last().len() >= length {
            1nat
        } else {
            0nat
        }
    }
}

proof fn lemma_count_at_least_shrinks(names: Seq<Seq<char>>, name: Seq<char>)
    requires
        names.contains(name),
    ensures
        count_at_least(names, name.len() + 1) < count_at_least(names, name.len()),
    decreases names.len(),
{
    lemma_count_at_least_monotone(names, name.len());
    let earlier = names.drop_last();
    if earlier.contains(name) {
        lemma_count_at_least_shrinks(earlier, name);
    } else {
        assert(names.last() == name) by {
            let j = choose|j: int| 0 <= j < names.len() && names[j] == name;
            if j < names.len() - 1 {
                assert(earlier[j] == names[j]);
            }
        }
        lemma_count_at_least_monotone(earlier, name.len());
    }
}

proof fn lemma_count_at_least_monotone(names: Seq<Seq<char>>, length: nat)
    ensures
        count_at_least(names, length + 1) <= count_at_least(names, length),
    decreases names.len(),
{
    if names.len() > 0 {
        lemma_count_at_least_monotone(names.drop_last(), length);
    }
}

/// The name of the uninhabited marker variant of a generic fieldless custom
/// declaration: `__GeamParameters`, lengthened by `_` until no constructor
/// has that name.
pub fn phantom_variant_name(constructors: &Vec<String>) -> (name: String)
    ensures
        exists|count: nat|
            {
                &&& name@ == "__GeamParameters"@ + underscores(count)
                &&& !crate::generics::texts(constructors@).contains(name@)
                &&& forall|fewer: nat|
                    fewer < count ==> crate::generics::texts(constructors@).contains(
                        #[trigger] ("__GeamParameters"@ + underscores(fewer)),
                    )
            },
{
    let ghost idents = crate::generics::texts(constructors@);
    let mut name = String::new();
    name.append("__GeamParameters");
    let ghost mut count: nat = 0;
    assert(name@ =~= "__GeamParameters"@ + underscores(0));
    while crate::declarations::contains_text(constructors, &name)
        invariant
            idents == crate::generics::texts(constructors@),
            name@ == "__GeamParameters"@ + underscores(count),
            forall|fewer: nat|
                fewer < count ==> idents.contains(#[trigger] ("__GeamParameters"@ + underscores(fewer))),
        decreases count_at_least(idents, name@.len()),
    {
        proof {
            lemma_count_at_least_shrinks(idents, name@);
        }
        let ghost before = name@;
        name.append("_");
        proof {
            reveal_strlit("_");
            assert(name@ =~= "__GeamParameters"@ + underscores(count + 1));
            assert(name@.len() == before.len() + 1);
            assert forall|fewer: nat| fewer < count + 1 implies idents.contains(
                #[trigger] ("__GeamParameters"@ + underscores(fewer)),
            ) by {
                if fewer == count {
                    assert(idents.contains(before));
                }
            }
            count = count + 1;
        }
    }
    name
}

} // verus!
