use crate::identifiers::InputOwnership;
use vstd::prelude::*;

verus! {

/// The argument names of a function that its callers pass on each
/// invocation: those not captured when the callable was created, in order.
pub open spec fn invocation_positions(count: nat, captures: Option<Seq<usize>>) -> Seq<nat>
    decreases count,
{
    if count == 0 {
        Seq::empty()
    } else {
        let earlier = invocation_positions((count - 1) as nat, captures);
        match captures {
            Some(captures) => if captures.contains((count - 1) as usize) {
                earlier
            } else {
                earlier.push((count - 1) as nat)
            },
            None => earlier.push((count - 1) as nat),
        }
    }
}

pub open spec fn captured_positions(captures: Option<Vec<usize>>) -> Option<Seq<usize>> {
    match captures {
        Some(captures) => Some(captures@),
        None => None,
    }
}

/// The names of the arguments passed at invocation, skipping the captured
/// positions of a callable.
pub fn invocation_names(names: &Vec<String>, captures: &Option<Vec<usize>>) -> (invoked: Vec<String>)
    ensures
        ({
            let positions = invocation_positions(names@.len(), captured_positions(*captures));
            &&& invoked@.len() == positions.len()
            &&& forall|i: int|
                0 <= i < invoked@.len() ==> #[trigger] invoked@[i] == names@[positions[i] as int]
        }),
{
    let mut invoked: Vec<String> = Vec::new();
    let mut index: usize = 0;
    while index < names.len()
        invariant
            index <= names@.len(),
            ({
                let positions = invocation_positions(index as nat, captured_positions(*captures));
                &&& invoked@.len() == positions.len()
                &&& forall|i: int|
                    0 <= i < invoked@.len() ==> #[trigger] invoked@[i] == names@[positions[i] as int]
            }),
            forall|i: int|
                0 <= i < invocation_positions(index as nat, captured_positions(*captures)).len()
                    ==> #[trigger] invocation_positions(index as nat, captured_positions(*captures))[i]
                    < index,
        decreases names.len() - index,
    {
        let captured = match captures {
            Some(captures) => contains_index(captures, index),
            None => false,
        };
        let ghost before = invoked@;
        let ghost earlier = invocation_positions(index as nat, captured_positions(*captures));
        if !captured {
            invoked.push(names[index].clone());
        }
        proof {
            let positions = invocation_positions((index + 1) as nat, captured_positions(*captures));
            if captured {
                assert(positions == earlier);
            } else {
                assert(positions == earlier.push(index as nat));
                assert forall|i: int| 0 <= i < invoked@.len() implies #[trigger] invoked@[i]
                    == names@[positions[i] as int] by {
                    if i < before.len() {
                        assert(invoked@[i] == before[i]);
                        assert(positions[i] == earlier[i]);
                    }
                }
            }
        }
        index = index + 1;
    }
    invoked
}

fn contains_index(indices: &Vec<usize>, index: usize) -> (found: bool)
    ensures
        found == indices@.contains(index),
{
    let mut i: usize = 0;
    while i < indices.len()
        invariant
            i <= indices@.len(),
            forall|j: int| 0 <= j < i ==> indices@[j] != index,
        decreases indices.len() - i,
    {
        if indices[i] == index {
            assert(indices@[i as int] == index);
            return true;
        }
        i = i + 1;
    }
    false
}

/// The capture mode type of a factory in one ownership flavor.
pub fn capture_mode(flavor: InputOwnership, support: &str) -> (mode: String)
    ensures
        mode@ == support@ + match flavor {
            InputOwnership::Borrowed => " :: ProviderImmediateCaptures"@,
            InputOwnership::Owned => " :: ProviderOwnedCaptures"@,
        },
{
    let mut mode = String::new();
    mode.append(support);
    match flavor {
        InputOwnership::Borrowed => mode.append(" :: ProviderImmediateCaptures"),
        InputOwnership::Owned => mode.append(" :: ProviderOwnedCaptures"),
    }
    mode
}

} // verus!
