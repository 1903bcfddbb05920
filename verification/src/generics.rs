use crate::diagnostic::Diagnostic;
use proc_macro2::TokenStream;
use vstd::prelude::*;

verus! {

/// One segment of a type's path: its identifier, and whether it carries no
/// angle-bracketed or parenthesized arguments.
pub struct PathSegmentFacts {
    pub ident: String,
    pub no_arguments: bool,
}

/// A path type as written: whether it has a qualified self type, whether its
/// path starts with `::`, and its segments.
pub struct PathTypeFacts {
    pub qualified_self: bool,
    pub leading_colon: bool,
    pub segments: Vec<PathSegmentFacts>,
}

pub open spec fn path_type_model(facts: PathTypeFacts) -> (bool, bool, Seq<(Seq<char>, bool)>) {
    (
        facts.qualified_self,
        facts.leading_colon,
        facts.segments@.map_values(|segment: PathSegmentFacts| (segment.ident@, segment.no_arguments)),
    )
}

/// What `syn` reads in `type_` as a path type: its qualified self flag, its
/// leading `::` flag and its segments; `None` for any other type.
pub uninterp spec fn parsed_path_type(type_: TokenStream) -> Option<(bool, bool, Seq<(Seq<char>, bool)>)>;

/// Parses `type_` as a type (`syn::parse2::<syn::Type>`) and hands out a
/// path type's parts: whether `qself` is present, whether the path has a
/// leading colon, and each segment's identifier with whether its arguments
/// are none (`PathArguments::is_none`). Other types and tokens that are no
/// type give `None`. The contract claims only that the result depends on the
/// tokens alone, named `parsed_path_type`.
#[verifier::external_body]
fn path_type(type_: TokenStream) -> (facts: Option<PathTypeFacts>)
    ensures
        match facts {
            Some(facts) => parsed_path_type(type_) == Some(path_type_model(facts)),
            None => parsed_path_type(type_) is None,
        },
{
    match syn::parse2::<syn::Type>(type_) {
        Ok(syn::Type::Path(path)) => Some(PathTypeFacts {
            qualified_self: path.qself.is_some(),
            leading_colon: path.path.leading_colon.is_some(),
            segments: path.path.segments.iter().map(|segment| PathSegmentFacts {
                ident: segment.ident.to_string(),
                no_arguments: segment.arguments.is_none(),
            }).collect(),
        }),
        _ => None,
    }
}

/// The identifier of a path as `syn::Path::get_ident` gives it: the path has
/// no leading colon and one segment without arguments.
pub open spec fn path_ident(leading_colon: bool, segments: Seq<(Seq<char>, bool)>) -> Option<Seq<char>> {
    if !leading_colon && segments.len() == 1 && segments[0].1 {
        Some(segments[0].0)
    } else {
        None
    }
}

/// The identifier of a type written as one plain identifier: a path type
/// without a qualified self type whose path is one identifier.
pub open spec fn bare_type_ident(type_: TokenStream) -> Option<Seq<char>> {
    match parsed_path_type(type_) {
        Some((qualified_self, leading_colon, segments)) => if qualified_self {
            None
        } else {
            path_ident(leading_colon, segments)
        },
        None => None,
    }
}

/// The identifier of `type_` when it is written as one plain identifier.
fn type_ident(type_: TokenStream) -> (ident: Option<String>)
    ensures
        match ident {
            Some(ident) => bare_type_ident(type_) == Some(ident@),
            None => bare_type_ident(type_) is None,
        },
{
    let facts = match path_type(type_) {
        Some(facts) => facts,
        None => {
            return None;
        },
    };
    if facts.qualified_self || facts.leading_colon || facts.segments.len() != 1 {
        return None;
    }
    let segment = &facts.segments[0];
    if segment.no_arguments {
        Some(segment.ident.clone())
    } else {
        None
    }
}

/// One generic parameter of a provider function, as far as the rules read it.
pub enum GenericParamModel {
    Type { ident: String, has_bounds: bool, has_default: bool },
    Lifetime,
    Const,
}

/// The generics of a provider function.
pub struct GenericsModel {
    pub params: Vec<GenericParamModel>,
    pub has_where_clause: bool,
}

/// A declared type parameter and the position of its first use.
pub struct FunctionGeneric {
    pub ident: String,
    pub index: usize,
}

/// The type parameters a provider function declares, and the order in which
/// its source shapes first use them.
pub struct GenericParameterScope {
    pub declared: Vec<String>,
    pub indices: Vec<String>,
}

/// The first rule that `params[from..]` break, if any.
pub open spec fn generic_params_error(params: Seq<GenericParamModel>, from: int) -> Option<Seq<char>>
    decreases params.len() - from,
{
    if from < 0 || from >= params.len() {
        None
    } else {
        match params[from] {
            GenericParamModel::Lifetime => Some(
                "provider functions must not have lifetime generics"@,
            ),
            GenericParamModel::Const => Some("provider functions must not have const generics"@),
            GenericParamModel::Type { has_bounds, has_default, .. } => if has_bounds {
                Some("provider function type generics must not have bounds"@)
            } else if has_default {
                Some("provider function type generics must not have defaults"@)
            } else {
                generic_params_error(params, from + 1)
            },
        }
    }
}

/// The message that rejects `generics`, if they break a rule: no where
/// clause, and only plain type parameters without bounds or defaults.
pub open spec fn generics_error(generics: GenericsModel) -> Option<Seq<char>> {
    if generics.has_where_clause {
        Some("provider functions must not have where clauses"@)
    } else {
        generic_params_error(generics.params@, 0)
    }
}

pub open spec fn param_ident(param: GenericParamModel) -> Seq<char> {
    match param {
        GenericParamModel::Type { ident, .. } => ident@,
        _ => Seq::empty(),
    }
}

/// The position of `text` among `names`, or -1.
pub open spec fn position_of(names: Seq<Seq<char>>, text: Seq<char>) -> int
    decreases names.len(),
{
    if names.len() == 0 {
        -1
    } else if position_of(names.drop_last(), text) >= 0 {
        position_of(names.drop_last(), text)
    } else if names.last() == text {
        names.len() - 1
    } else {
        -1
    }
}

pub proof fn lemma_position_of(names: Seq<Seq<char>>, text: Seq<char>)
    ensures
        -1 <= position_of(names, text) < names.len(),
        position_of(names, text) >= 0 ==> names[position_of(names, text)] == text,
        position_of(names, text) >= 0 ==> forall|j: int|
            0 <= j < position_of(names, text) ==> names[j] != text,
        position_of(names, text) < 0 ==> forall|j: int| 0 <= j < names.len() ==> names[j] != text,
    decreases names.len(),
{
    if names.len() > 0 {
        let earlier = names.drop_last();
        lemma_position_of(earlier, text);
        assert forall|j: int| 0 <= j < earlier.len() implies earlier[j] == names[j] by {}
    }
}

pub open spec fn texts(strings: Seq<String>) -> Seq<Seq<char>> {
    strings.map_values(|text: String| text@)
}

/// The position of the first declared parameter that was never used, or -1.
pub open spec fn first_unused(declared: Seq<Seq<char>>, used: Seq<Seq<char>>) -> int
    decreases declared.len(),
{
    if declared.len() == 0 {
        -1
    } else if first_unused(declared.drop_last(), used) >= 0 {
        first_unused(declared.drop_last(), used)
    } else if !used.contains(declared.last()) {
        declared.len() - 1
    } else {
        -1
    }
}

pub proof fn lemma_first_unused(declared: Seq<Seq<char>>, used: Seq<Seq<char>>)
    ensures
        -1 <= first_unused(declared, used) < declared.len(),
        first_unused(declared, used) >= 0 ==> !used.contains(declared[first_unused(declared, used)]),
        forall|j: int|
            0 <= j < declared.len() && (first_unused(declared, used) < 0 || j < first_unused(
                declared,
                used,
            )) ==> used.contains(#[trigger] declared[j]),
    decreases declared.len(),
{
    if declared.len() > 0 {
        let earlier = declared.drop_last();
        lemma_first_unused(earlier, used);
        assert forall|j: int| 0 <= j < earlier.len() implies earlier[j] == declared[j] by {}
    }
}

/// The message for a declared parameter that no source shape uses.
pub open spec fn unused_generic_message(ident: Seq<char>) -> Seq<char> {
    "generic parameter `"@ + ident + "` must appear inside a Value<...> source shape"@
}

impl GenericParameterScope {
    /// No text is used twice.
    pub open spec fn well_formed(&self) -> bool {
        forall|i: int, j: int|
            0 <= i < j < self.indices@.len() ==> self.indices@[i]@ != self.indices@[j]@
    }

    /// Collects the declared type parameters, rejecting any other generics.
    pub fn new(generics: &GenericsModel) -> (result: Result<GenericParameterScope, Diagnostic>)
        ensures
            match generics_error(*generics) {
                Some(message) => result matches Err(error) && error.message@ == message,
                None => result matches Ok(scope) && texts(scope.declared@) == generics.params@.map_values(
                    |param: GenericParamModel| param_ident(param),
                ) && scope.indices@.len() == 0,
            },
    {
        let mut message = String::new();
        if generics.has_where_clause {
            message.append("provider functions must not have where clauses");
            return Err(Diagnostic { message });
        }
        let mut declared: Vec<String> = Vec::new();
        let ghost params = generics.params@;
        let mut i: usize = 0;
        while i < generics.params.len()
            invariant
                i <= params.len(),
                params == generics.params@,
                message@ == Seq::<char>::empty(),
                !generics.has_where_clause,
                generic_params_error(params, 0) == generic_params_error(params, i as int),
                texts(declared@) == params.take(i as int).map_values(
                    |param: GenericParamModel| param_ident(param),
                ),
            decreases params.len() - i,
        {
            let ghost old_declared = declared@;
            match &generics.params[i] {
                GenericParamModel::Lifetime => {
                    message.append("provider functions must not have lifetime generics");
                    return Err(Diagnostic { message });
                },
                GenericParamModel::Const => {
                    message.append("provider functions must not have const generics");
                    return Err(Diagnostic { message });
                },
                GenericParamModel::Type { ident, has_bounds, has_default } => {
                    if *has_bounds {
                        message.append("provider function type generics must not have bounds");
                        return Err(Diagnostic { message });
                    }
                    if *has_default {
                        message.append("provider function type generics must not have defaults");
                        return Err(Diagnostic { message });
                    }
                    declared.push(ident.clone());
                },
            }
            proof {
                let before = params.take(i as int).map_values(
                    |param: GenericParamModel| param_ident(param),
                );
                let after = params.take(i + 1).map_values(
                    |param: GenericParamModel| param_ident(param),
                );
                assert(after.drop_last() =~= before);
                assert(after.last() == param_ident(params[i as int]));
                assert(declared@.drop_last() =~= old_declared);
                assert forall|j: int| 0 <= j < i + 1 implies #[trigger] texts(declared@)[j] == after[j] by {
                    if j < i {
                        assert(texts(old_declared)[j] == before[j]);
                        assert(declared@[j] == old_declared[j]);
                    }
                }
                assert(texts(declared@) =~= after);
            }
            i = i + 1;
        }
        assert(params.take(params.len() as int) =~= params);
        Ok(GenericParameterScope { declared, indices: Vec::new() })
    }

    /// The declared type parameter that `type_` names, when it is written as
    /// one plain identifier.
    pub fn declared_type_ident(&self, type_: TokenStream) -> (found: Option<String>)
        ensures
            match bare_type_ident(type_) {
                Some(ident) => if texts(self.declared@).contains(ident) {
                    found matches Some(declared) && declared@ == ident
                } else {
                    found is None
                },
                None => found is None,
            },
    {
        let bare = type_ident(type_);
        self.declared_ident(&bare)
    }

    /// The declared type parameter that `bare` names, where `bare` is the
    /// identifier of a type written as one plain identifier.
    pub fn declared_ident(&self, bare: &Option<String>) -> (found: Option<String>)
        ensures
            match *bare {
                Some(ident) => if texts(self.declared@).contains(ident@) {
                    found matches Some(declared) && declared@ == ident@
                } else {
                    found is None
                },
                None => found is None,
            },
    {
        let ident = match bare {
            Some(ident) => ident,
            None => {
                return None;
            },
        };
        let mut i: usize = 0;
        while i < self.declared.len()
            invariant
                i <= self.declared@.len(),
                *bare == Some(*ident),
                forall|j: int| 0 <= j < i ==> self.declared@[j]@ != ident@,
            decreases self.declared.len() - i,
        {
            if self.declared[i] == *ident {
                let found = self.declared[i].clone();
                proof {
                    assert(texts(self.declared@)[i as int] == ident@);
                    assert(texts(self.declared@).contains(ident@));
                    assert(found@ == ident@);
                }
                return Some(found);
            }
            i = i + 1;
        }
        proof {
            if texts(self.declared@).contains(ident@) {
                let j = choose|j: int|
                    0 <= j < texts(self.declared@).len() && texts(self.declared@)[j] == ident@;
                assert(self.declared@[j]@ == ident@);
            }
        }
        None
    }

    /// The index of `ident`: the position of its first use among all
    /// parameters used so far.
    pub fn parameter_index(&mut self, ident: String) -> (index: usize)
        requires
            old(self).indices@.len() < usize::MAX,
        ensures
            final(self).declared@ == old(self).declared@,
            ({
                let found = position_of(texts(old(self).indices@), ident@);
                if found >= 0 {
                    &&& texts(final(self).indices@) == texts(old(self).indices@)
                    &&& index == found
                } else {
                    &&& texts(final(self).indices@) == texts(old(self).indices@).push(ident@)
                    &&& index == old(self).indices@.len()
                }
            }),
            texts(final(self).indices@) == indices_after(texts(old(self).indices@), ident@),
            numbering(texts(old(self).indices@)) ==> numbering(texts(final(self).indices@)),
    {
        proof {
            lemma_position_of(texts(self.indices@), ident@);
            if numbering(texts(self.indices@)) {
                law_parameter_numbering_is_one_to_one(texts(self.indices@), ident@);
            }
        }
        let mut i: usize = 0;
        while i < self.indices.len()
            invariant
                i <= self.indices@.len(),
                forall|j: int| 0 <= j < i ==> self.indices@[j]@ != ident@,
            decreases self.indices.len() - i,
        {
            if self.indices[i] == ident {
                proof {
                    let found = position_of(texts(self.indices@), ident@);
                    lemma_position_of(texts(self.indices@), ident@);
                    assert(texts(self.indices@)[i as int] == ident@);
                    if found < i {
                        assert(texts(self.indices@)[found] == self.indices@[found]@);
                    }
                }
                return i;
            }
            i = i + 1;
        }
        proof {
            lemma_position_of(texts(self.indices@), ident@);
            let found = position_of(texts(self.indices@), ident@);
            if found >= 0 {
                assert(texts(self.indices@)[found] == self.indices@[found]@);
            }
        }
        let index = self.indices.len();
        self.indices.push(ident);
        assert(texts(self.indices@) =~= texts(old(self).indices@).push(self.indices@.last()@));
        index
    }

    /// The declared parameters in declaration order with the index of their
    /// first use; a declared parameter that was never used is rejected.
    pub fn finish(self) -> (result: Result<Vec<FunctionGeneric>, Diagnostic>)
        ensures
            ({
                let unused = first_unused(texts(self.declared@), texts(self.indices@));
                if unused >= 0 {
                    result matches Err(error) && error.message@ == unused_generic_message(
                        self.declared@[unused]@,
                    )
                } else {
                    result matches Ok(generics) && generics@.len() == self.declared@.len() && (
                    forall|i: int|
                        0 <= i < generics@.len() ==> {
                            &&& #[trigger] generics@[i].ident@ == self.declared@[i]@
                            &&& generics@[i].index == position_of(
                                texts(self.indices@),
                                self.declared@[i]@,
                            )
                        })
                }
            }),
    {
        let ghost declared = texts(self.declared@);
        let ghost used = texts(self.indices@);
        proof {
            lemma_first_unused(declared, used);
        }
        let mut generics: Vec<FunctionGeneric> = Vec::new();
        let mut i: usize = 0;
        while i < self.declared.len()
            invariant
                i <= self.declared@.len(),
                declared == texts(self.declared@),
                used == texts(self.indices@),
                first_unused(declared, used) < 0 || i <= first_unused(declared, used),
                -1 <= first_unused(declared, used) < declared.len(),
                first_unused(declared, used) >= 0 ==> !used.contains(declared[first_unused(declared, used)]),
                forall|j: int|
                    0 <= j < declared.len() && (first_unused(declared, used) < 0 || j
                        < first_unused(declared, used)) ==> used.contains(#[trigger] declared[j]),
                generics@.len() == i,
                forall|j: int|
                    0 <= j < i ==> {
                        &&& #[trigger] generics@[j].ident@ == self.declared@[j]@
                        &&& generics@[j].index == position_of(used, self.declared@[j]@)
                    },
            decreases self.declared.len() - i,
        {
            let ident = self.declared[i].clone();
            let mut position: usize = 0;
            let mut found = false;
            proof {
                lemma_position_of(used, ident@);
            }
            while position < self.indices.len()
                invariant_except_break
                    !found,
                invariant
                    position <= self.indices@.len(),
                    used == texts(self.indices@),
                    forall|j: int| 0 <= j < position ==> self.indices@[j]@ != ident@,
                ensures
                    found ==> position < self.indices@.len() && self.indices@[position as int]@
                        == ident@,
                    !found ==> position == self.indices@.len(),
                decreases self.indices.len() - position,
            {
                if self.indices[position] == ident {
                    found = true;
                    break;
                }
                position = position + 1;
            }
            if !found {
                proof {
                    assert(declared[i as int] == ident@);
                    if used.contains(ident@) {
                        let j = choose|j: int| 0 <= j < used.len() && used[j] == ident@;
                        assert(self.indices@[j]@ == used[j]);
                    }
                    assert(!used.contains(declared[i as int]));
                    assert(first_unused(declared, used) == i);
                }
                let mut message = String::new();
                message.append("generic parameter `");
                message.append(ident.as_str());
                message.append("` must appear inside a Value<...> source shape");
                return Err(Diagnostic { message });
            }
            proof {
                assert(used[position as int] == ident@);
                let first = position_of(used, ident@);
                if first >= 0 && first < position {
                    assert(used[first] == self.indices@[first]@);
                }
                assert(first == position);
            }
            let ghost before = generics@;
            generics.push(FunctionGeneric { ident, index: position });
            proof {
                assert forall|j: int| 0 <= j < i + 1 implies {
                    &&& #[trigger] generics@[j].ident@ == self.declared@[j]@
                    &&& generics@[j].index == position_of(used, self.declared@[j]@)
                } by {
                    if j < i {
                        assert(generics@[j] == before[j]);
                    }
                }
                if first_unused(declared, used) >= 0 && first_unused(declared, used) == i {
                    assert(used.contains(declared[i as int]));
                }
            }
            i = i + 1;
        }
        Ok(generics)
    }
}


/// The list of used parameters after asking for the index of `ident`.
pub open spec fn indices_after(used: Seq<Seq<char>>, ident: Seq<char>) -> Seq<Seq<char>> {
    if position_of(used, ident) >= 0 {
        used
    } else {
        used.push(ident)
    }
}

/// Once a parameter has an index, asking again gives the same index and
/// leaves the used parameters as they are; indices follow first use.
pub proof fn law_parameter_index_is_stable(used: Seq<Seq<char>>, ident: Seq<char>)
    ensures
        position_of(indices_after(used, ident), ident) == if position_of(used, ident) >= 0 {
            position_of(used, ident)
        } else {
            used.len() as int
        },
        indices_after(indices_after(used, ident), ident) == indices_after(used, ident),
{
    lemma_position_of(used, ident);
    let after = indices_after(used, ident);
    lemma_position_of(after, ident);
    if position_of(used, ident) < 0 {
        assert(after.drop_last() =~= used);
        assert(after.last() == ident);
    }
}

/// The used parameters number their names one to one: each position holds
/// a distinct name, and a name's index is its position.
pub open spec fn numbering(used: Seq<Seq<char>>) -> bool {
    &&& used.no_duplicates()
    &&& forall|i: int| 0 <= i < used.len() ==> position_of(used, #[trigger] used[i]) == i
}

/// Numbering parameters by first use keeps the numbering one to one: an
/// index already given stays, a new name gets the next index, and the
/// indices stay exactly the positions `0..len`.
pub proof fn law_parameter_numbering_is_one_to_one(used: Seq<Seq<char>>, ident: Seq<char>)
    requires
        numbering(used),
    ensures
        numbering(indices_after(used, ident)),
        forall|i: int|
            0 <= i < used.len() ==> position_of(indices_after(used, ident), #[trigger] used[i]) == i,
        position_of(indices_after(used, ident), ident) >= 0,
        indices_after(used, ident).len() == used.len() + if position_of(used, ident) >= 0 {
            0int
        } else {
            1int
        },
{
    lemma_position_of(used, ident);
    let after = indices_after(used, ident);
    lemma_position_of(after, ident);
    if position_of(used, ident) < 0 {
        assert(after.drop_last() =~= used);
        assert forall|i: int, j: int| 0 <= i < after.len() && 0 <= j < after.len() && i != j implies after[i]
            != after[j] by {
            if i < used.len() && j < used.len() {
                assert(after[i] == used[i] && after[j] == used[j]);
            }
        }
        assert forall|i: int| 0 <= i < after.len() implies position_of(after, #[trigger] after[i]) == i by {
            lemma_position_of(after, after[i]);
            let p = position_of(after, after[i]);
            if p != i {
                assert(after[p] == after[i]);
            }
        }
        assert forall|i: int| 0 <= i < used.len() implies position_of(after, #[trigger] used[i]) == i by {
            assert(after[i] == used[i]);
            assert(position_of(after, after[i]) == i);
        }
    }
}

} // verus!
