use crate::bounds::{deduplicate_bounds, first_occurrences};
use crate::custom_value::{CustomModel, ListType};
use crate::generics::texts;
use crate::list_access::{
    declared_access_models, declared_accesses, list_declared_accesses, value_leaves, walk_ends,
};
use vstd::prelude::*;

verus! {

/// How a declared type is taken as input: owned, or borrowed from an
/// external payload.
#[derive(Clone, Copy)]
pub enum DeclaredInput {
    Owned,
    BorrowedExternal,
}

/// A provider value as a function input reads it; types are held as token
/// text. Generic values carry nothing that the codec bounds read.
pub enum ProviderValueType {
    Scalar(String),
    Generic,
    Declared { type_: String, input: DeclaredInput },
    External { payload: String, schema: String },
    Custom { index: usize, rust: String },
    List(Box<ListType>),
    Tuple(Vec<ProviderValueType>),
    Result { success: Box<ProviderValueType>, failure: Box<ProviderValueType> },
    Option { value: Box<ProviderValueType> },
}

/// A function input: a provider value, a generic value, a generic external
/// value or a List.
pub enum FunctionInputType {
    Value(Box<ProviderValueType>),
    Generic,
    External,
    List(Box<ListType>),
}

/// A function argument: an input, or a callback.
pub enum FunctionArgumentType {
    Input(FunctionInputType),
    Callback,
}

/// A leaf of a function output.
pub enum FunctionOutputLeafType {
    Scalar(String),
    Declared { type_: String, input: DeclaredInput },
    External { payload: String, schema: String },
    Custom { index: usize, rust: String },
}

/// A value inside a function output.
pub enum FunctionOutputValueType {
    Value(Box<FunctionOutputLeafType>),
    Generic,
    Tuple(Vec<FunctionOutputValueType>),
    Result { success: Box<FunctionOutputValueType>, failure: Box<FunctionOutputValueType> },
    Option { value: Box<FunctionOutputValueType> },
    Vec(Box<FunctionOutputValueType>),
}

/// The outermost shape of a function output.
pub enum FunctionRootOutputValueType {
    Value(Box<FunctionOutputLeafType>),
    Tuple(Vec<FunctionOutputValueType>),
    Result { success: Box<FunctionOutputValueType>, failure: Box<FunctionOutputValueType> },
    Option { value: Box<FunctionOutputValueType> },
    Vec(Box<FunctionOutputValueType>),
}

/// What a function returns.
pub enum FunctionReturnType {
    Value(FunctionRootOutputValueType),
    Generic,
    External,
    List(Box<ListType>),
}

/// `R : support :: Trait < Profile , __GeamProvider , return_type >`-like
/// bounds, as token text.
pub open spec fn input_value_bound(type_: Seq<char>, support: Seq<char>, return_type: Seq<char>) -> Seq<
    char,
> {
    type_ + " : "@ + support + " :: ProviderInputValue < Profile , __GeamProvider , "@ + return_type
        + " >"@
}

pub open spec fn borrowed_input_bound(type_: Seq<char>, support: Seq<char>, return_type: Seq<char>) -> Seq<
    char,
> {
    "< "@ + type_ + " as "@ + support + " :: ProviderValue > :: Input : "@ + support
        + " :: ProviderInputValue < Profile , __GeamProvider , "@ + return_type + " >"@
}

pub open spec fn custom_input_bound(type_: Seq<char>, support: Seq<char>, return_type: Seq<char>) -> Seq<
    char,
> {
    type_ + " : "@ + support + " :: ProviderInputValue < Profile , __GeamProvider , "@ + return_type
        + " , >"@
}

pub open spec fn list_input_bound(type_: Seq<char>, support: Seq<char>) -> Seq<char> {
    "< "@ + type_ + " as "@ + support + " :: ProviderValue > :: ListInput : "@ + support
        + " :: ProviderListInputCodec < Profile >"@
}

pub open spec fn root_output_bound(type_: Seq<char>, support: Seq<char>) -> Seq<char> {
    type_ + " : "@ + support + " :: ProviderRootOutputValue < Profile , __GeamProvider >"@
}

pub open spec fn output_value_bound(type_: Seq<char>, support: Seq<char>, return_type: Seq<char>) -> Seq<
    char,
> {
    type_ + " : "@ + support + " :: ProviderOutputValue < Profile , __GeamProvider , "@ + return_type
        + " , >"@
}

/// The bounds that the declared types reached by a List's items need.
pub open spec fn list_bounds(list: ListType, customs: Seq<CustomModel>, support: Seq<char>) -> Seq<
    Seq<char>,
> {
    declared_accesses(value_leaves(list.collection.value@, customs, customs.len())).map_values(
        |access: (Seq<char>, Seq<char>)| list_input_bound(access.0, support),
    )
}

/// The codec bounds of a provider input value, in walk order.
pub open spec fn input_bounds(
    value: ProviderValueType,
    customs: Seq<CustomModel>,
    support: Seq<char>,
    return_type: Seq<char>,
) -> Seq<Seq<char>>
    decreases value,
{
    match value {
        ProviderValueType::Declared { type_, input: DeclaredInput::Owned } => seq![
            input_value_bound(type_@, support, return_type),
        ],
        ProviderValueType::Declared { type_, input: DeclaredInput::BorrowedExternal } => seq![
            borrowed_input_bound(type_@, support, return_type),
        ],
        ProviderValueType::Tuple(elements) => inputs_bounds(elements@, customs, support, return_type),
        ProviderValueType::Result { success, failure } => input_bounds(
            *success,
            customs,
            support,
            return_type,
        ) + input_bounds(*failure, customs, support, return_type),
        ProviderValueType::Option { value } => input_bounds(*value, customs, support, return_type),
        ProviderValueType::Custom { rust, .. } => seq![
            custom_input_bound(rust@, support, return_type),
        ],
        ProviderValueType::List(list) => list_bounds(*list, customs, support),
        _ => Seq::empty(),
    }
}

pub open spec fn inputs_bounds(
    values: Seq<ProviderValueType>,
    customs: Seq<CustomModel>,
    support: Seq<char>,
    return_type: Seq<char>,
) -> Seq<Seq<char>>
    decreases values,
{
    if values.len() == 0 {
        Seq::empty()
    } else {
        inputs_bounds(values.drop_last(), customs, support, return_type) + input_bounds(
            values.last(),
            customs,
            support,
            return_type,
        )
    }
}

/// Every List that a provider input value holds has items whose walk ends.
pub open spec fn input_lists_end(value: ProviderValueType, customs: Seq<CustomModel>) -> bool
    decreases value,
{
    match value {
        ProviderValueType::Tuple(elements) => inputs_lists_end(elements@, customs),
        ProviderValueType::Result { success, failure } => input_lists_end(*success, customs)
            && input_lists_end(*failure, customs),
        ProviderValueType::Option { value } => input_lists_end(*value, customs),
        ProviderValueType::List(list) => walk_ends(list.collection.value@, customs),
        _ => true,
    }
}

pub open spec fn inputs_lists_end(values: Seq<ProviderValueType>, customs: Seq<CustomModel>) -> bool
    decreases values,
{
    if values.len() == 0 {
        true
    } else {
        inputs_lists_end(values.drop_last(), customs) && input_lists_end(values.last(), customs)
    }
}

fn push_list_bounds(list: &ListType, customs: &[CustomModel], support: &str, bounds: &mut Vec<String>)
    requires
        walk_ends(list.collection.value@, customs@),
    ensures
        texts(final(bounds)@) == texts(old(bounds)@) + list_bounds(*list, customs@, support@),
{
    let accesses = list_declared_accesses(&list.collection.value, customs);
    let ghost models = declared_access_models(accesses@);
    let ghost start = texts(bounds@);
    let mut i: usize = 0;
    while i < accesses.len()
        invariant
            i <= accesses@.len(),
            models == declared_access_models(accesses@),
            models == declared_accesses(value_leaves(list.collection.value@, customs@, customs@.len())),
            texts(bounds@) == start + models.take(i as int).map_values(
                |access: (Seq<char>, Seq<char>)| list_input_bound(access.0, support@),
            ),
        decreases accesses.len() - i,
    {
        let mut bound = String::new();
        bound.append("< ");
        bound.append(accesses[i].type_.as_str());
        bound.append(" as ");
        bound.append(support);
        bound.append(" :: ProviderValue > :: ListInput : ");
        bound.append(support);
        bound.append(" :: ProviderListInputCodec < Profile >");
        let ghost before = bounds@;
        bounds.push(bound);
        proof {
            assert(texts(bounds@) =~= texts(before).push(bound@));
            assert(models.take(i + 1).map_values(
                |access: (Seq<char>, Seq<char>)| list_input_bound(access.0, support@),
            ) =~= models.take(i as int).map_values(
                |access: (Seq<char>, Seq<char>)| list_input_bound(access.0, support@),
            ).push(list_input_bound(models[i as int].0, support@)));
        }
        i = i + 1;
    }
    assert(models.take(accesses@.len() as int) =~= models);
}

fn push_bound(bounds: &mut Vec<String>, bound: String)
    ensures
        texts(final(bounds)@) == texts(old(bounds)@) + seq![bound@],
{
    let ghost before = bounds@;
    bounds.push(bound);
    assert(texts(bounds@) =~= texts(before) + seq![bound@]);
}

/// Appends the codec bounds of a provider input value.
fn collect_function_input_bounds(
    value: &ProviderValueType,
    customs: &[CustomModel],
    support: &str,
    return_type: &str,
    bounds: &mut Vec<String>,
)
    requires
        input_lists_end(*value, customs@),
    ensures
        texts(final(bounds)@) == texts(old(bounds)@) + input_bounds(
            *value,
            customs@,
            support@,
            return_type@,
        ),
    decreases value,
{
    let ghost start = texts(bounds@);
    match value {
        ProviderValueType::Declared { type_, input } => {
            let mut bound = String::new();
            match input {
                DeclaredInput::Owned => {
                    bound.append(type_.as_str());
                    bound.append(" : ");
                },
                DeclaredInput::BorrowedExternal => {
                    bound.append("< ");
                    bound.append(type_.as_str());
                    bound.append(" as ");
                    bound.append(support);
                    bound.append(" :: ProviderValue > :: Input : ");
                },
            }
            bound.append(support);
            bound.append(" :: ProviderInputValue < Profile , __GeamProvider , ");
            bound.append(return_type);
            bound.append(" >");
            push_bound(bounds, bound);
        },
        ProviderValueType::Custom { rust, .. } => {
            let mut bound = String::new();
            bound.append(rust.as_str());
            bound.append(" : ");
            bound.append(support);
            bound.append(" :: ProviderInputValue < Profile , __GeamProvider , ");
            bound.append(return_type);
            bound.append(" , >");
            push_bound(bounds, bound);
        },
        ProviderValueType::List(list) => {
            push_list_bounds(list, customs, support, bounds);
        },
        ProviderValueType::Tuple(elements) => {
            let mut i: usize = 0;
            assert(elements@.take(0) =~= Seq::<ProviderValueType>::empty());
            assert(texts(bounds@) =~= start + inputs_bounds(elements@.take(0), customs@, support@, return_type@));
            while i < elements.len()
                invariant
                    i <= elements.len(),
                    *value == ProviderValueType::Tuple(*elements),
                    input_lists_end(*value, customs@),
                    texts(bounds@) == start + inputs_bounds(
                        elements@.take(i as int),
                        customs@,
                        support@,
                        return_type@,
                    ),
                decreases elements.len() - i,
            {
                proof {
                    vstd::std_specs::vec::axiom_vec_index_decreases(*elements, i as int);
                    assert(decreases_to!(*value => (*value)->Tuple_0));
                    assert(elements@.take(i + 1).drop_last() =~= elements@.take(i as int));
                    assert(elements@.take(i + 1).last() == elements@[i as int]);
                    lemma_inputs_lists_end(elements@, customs@, i as int);
                }
                collect_function_input_bounds(&elements[i], customs, support, return_type, bounds);
                i = i + 1;
            }
            assert(elements@.take(elements.len() as int) =~= elements@);
        },
        ProviderValueType::Result { success, failure } => {
            collect_function_input_bounds(success, customs, support, return_type, bounds);
            collect_function_input_bounds(failure, customs, support, return_type, bounds);
        },
        ProviderValueType::Option { value: inner } => {
            collect_function_input_bounds(inner, customs, support, return_type, bounds);
        },
        _ => {
            assert(texts(bounds@) =~= start + Seq::<Seq<char>>::empty());
        },
    }
}

proof fn lemma_inputs_lists_end(values: Seq<ProviderValueType>, customs: Seq<CustomModel>, index: int)
    requires
        inputs_lists_end(values, customs),
        0 <= index < values.len(),
    ensures
        input_lists_end(values[index], customs),
    decreases values.len(),
{
    if index < values.len() - 1 {
        lemma_inputs_lists_end(values.drop_last(), customs, index);
    }
}

/// The bound of an output leaf: a declared type or custom declaration must
/// be a root output value at the top of a return, an output value inside it.
pub open spec fn leaf_bounds(
    leaf: FunctionOutputLeafType,
    customs: Seq<CustomModel>,
    support: Seq<char>,
    return_type: Seq<char>,
    root: bool,
) -> Seq<Seq<char>> {
    let named = match leaf {
        FunctionOutputLeafType::Declared { type_, .. } => Some(type_@),
        FunctionOutputLeafType::Custom { index, .. } => Some(customs[index as int].ident@),
        _ => None,
    };
    match named {
        Some(type_) => seq![
            if root {
                root_output_bound(type_, support)
            } else {
                output_value_bound(type_, support, return_type)
            },
        ],
        None => Seq::empty(),
    }
}

/// The codec bounds of a value inside a function output, in walk order.
pub open spec fn output_bounds(
    value: FunctionOutputValueType,
    customs: Seq<CustomModel>,
    support: Seq<char>,
    return_type: Seq<char>,
) -> Seq<Seq<char>>
    decreases value,
{
    match value {
        FunctionOutputValueType::Value(leaf) => leaf_bounds(*leaf, customs, support, return_type, false),
        FunctionOutputValueType::Generic => Seq::empty(),
        FunctionOutputValueType::Tuple(elements) => outputs_bounds(
            elements@,
            customs,
            support,
            return_type,
        ),
        FunctionOutputValueType::Result { success, failure } => output_bounds(
            *success,
            customs,
            support,
            return_type,
        ) + output_bounds(*failure, customs, support, return_type),
        FunctionOutputValueType::Option { value } => output_bounds(*value, customs, support, return_type),
        FunctionOutputValueType::Vec(value) => output_bounds(*value, customs, support, return_type),
    }
}

pub open spec fn outputs_bounds(
    values: Seq<FunctionOutputValueType>,
    customs: Seq<CustomModel>,
    support: Seq<char>,
    return_type: Seq<char>,
) -> Seq<Seq<char>>
    decreases values,
{
    if values.len() == 0 {
        Seq::empty()
    } else {
        outputs_bounds(values.drop_last(), customs, support, return_type) + output_bounds(
            values.last(),
            customs,
            support,
            return_type,
        )
    }
}

/// The codec bounds of a function's returned value.
pub open spec fn return_bounds(
    return_: FunctionReturnType,
    customs: Seq<CustomModel>,
    support: Seq<char>,
    return_type: Seq<char>,
) -> Seq<Seq<char>> {
    match return_ {
        FunctionReturnType::Value(root) => match root {
            FunctionRootOutputValueType::Value(leaf) => leaf_bounds(
                *leaf,
                customs,
                support,
                return_type,
                true,
            ),
            FunctionRootOutputValueType::Tuple(elements) => outputs_bounds(
                elements@,
                customs,
                support,
                return_type,
            ),
            FunctionRootOutputValueType::Result { success, failure } => output_bounds(
                *success,
                customs,
                support,
                return_type,
            ) + output_bounds(*failure, customs, support, return_type),
            FunctionRootOutputValueType::Option { value } => output_bounds(
                *value,
                customs,
                support,
                return_type,
            ),
            FunctionRootOutputValueType::Vec(value) => output_bounds(
                *value,
                customs,
                support,
                return_type,
            ),
        },
        _ => Seq::empty(),
    }
}

/// Every custom declaration that an output leaf names exists.
pub open spec fn leaf_in_range(leaf: FunctionOutputLeafType, count: nat) -> bool {
    leaf matches FunctionOutputLeafType::Custom { index, .. } ==> index < count
}

pub open spec fn output_in_range(value: FunctionOutputValueType, count: nat) -> bool
    decreases value,
{
    match value {
        FunctionOutputValueType::Value(leaf) => leaf_in_range(*leaf, count),
        FunctionOutputValueType::Generic => true,
        FunctionOutputValueType::Tuple(elements) => outputs_in_range(elements@, count),
        FunctionOutputValueType::Result { success, failure } => output_in_range(*success, count)
            && output_in_range(*failure, count),
        FunctionOutputValueType::Option { value } => output_in_range(*value, count),
        FunctionOutputValueType::Vec(value) => output_in_range(*value, count),
    }
}

pub open spec fn outputs_in_range(values: Seq<FunctionOutputValueType>, count: nat) -> bool
    decreases values,
{
    if values.len() == 0 {
        true
    } else {
        outputs_in_range(values.drop_last(), count) && output_in_range(values.last(), count)
    }
}

pub open spec fn return_in_range(return_: FunctionReturnType, count: nat) -> bool {
    match return_ {
        FunctionReturnType::Value(root) => match root {
            FunctionRootOutputValueType::Value(leaf) => leaf_in_range(*leaf, count),
            FunctionRootOutputValueType::Tuple(elements) => outputs_in_range(elements@, count),
            FunctionRootOutputValueType::Result { success, failure } => output_in_range(
                *success,
                count,
            ) && output_in_range(*failure, count),
            FunctionRootOutputValueType::Option { value } => output_in_range(*value, count),
            FunctionRootOutputValueType::Vec(value) => output_in_range(*value, count),
        },
        _ => true,
    }
}

proof fn lemma_outputs_in_range(values: Seq<FunctionOutputValueType>, count: nat, index: int)
    requires
        outputs_in_range(values, count),
        0 <= index < values.len(),
    ensures
        output_in_range(values[index], count),
    decreases values.len(),
{
    if index < values.len() - 1 {
        lemma_outputs_in_range(values.drop_last(), count, index);
    }
}

fn push_leaf_bound(
    leaf: &FunctionOutputLeafType,
    customs: &[CustomModel],
    support: &str,
    return_type: &str,
    root: bool,
    bounds: &mut Vec<String>,
)
    requires
        leaf_in_range(*leaf, customs@.len()),
    ensures
        texts(final(bounds)@) == texts(old(bounds)@) + leaf_bounds(
            *leaf,
            customs@,
            support@,
            return_type@,
            root,
        ),
{
    let type_: Option<&str> = match leaf {
        FunctionOutputLeafType::Declared { type_, .. } => Some(type_.as_str()),
        FunctionOutputLeafType::Custom { index, .. } => Some(customs[*index].ident.as_str()),
        _ => None,
    };
    match type_ {
        Some(type_) => {
            let mut bound = String::new();
            bound.append(type_);
            bound.append(" : ");
            bound.append(support);
            if root {
                bound.append(" :: ProviderRootOutputValue < Profile , __GeamProvider >");
            } else {
                bound.append(" :: ProviderOutputValue < Profile , __GeamProvider , ");
                bound.append(return_type);
                bound.append(" , >");
            }
            push_bound(bounds, bound);
        },
        None => {
            assert(texts(bounds@) =~= texts(old(bounds)@) + Seq::<Seq<char>>::empty());
        },
    }
}

/// Appends the codec bounds of a value inside a function output.
fn collect_function_output_intermediate_bounds(
    value: &FunctionOutputValueType,
    customs: &[CustomModel],
    support: &str,
    return_type: &str,
    bounds: &mut Vec<String>,
)
    requires
        output_in_range(*value, customs@.len()),
    ensures
        texts(final(bounds)@) == texts(old(bounds)@) + output_bounds(
            *value,
            customs@,
            support@,
            return_type@,
        ),
    decreases value,
{
    let ghost start = texts(bounds@);
    match value {
        FunctionOutputValueType::Value(leaf) => {
            push_leaf_bound(leaf, customs, support, return_type, false, bounds);
        },
        FunctionOutputValueType::Generic => {
            assert(texts(bounds@) =~= start + Seq::<Seq<char>>::empty());
        },
        FunctionOutputValueType::Tuple(elements) => {
            collect_outputs_bounds(elements, customs, support, return_type, bounds);
        },
        FunctionOutputValueType::Result { success, failure } => {
            collect_function_output_intermediate_bounds(success, customs, support, return_type, bounds);
            collect_function_output_intermediate_bounds(failure, customs, support, return_type, bounds);
        },
        FunctionOutputValueType::Option { value: inner } => {
            collect_function_output_intermediate_bounds(inner, customs, support, return_type, bounds);
        },
        FunctionOutputValueType::Vec(inner) => {
            collect_function_output_intermediate_bounds(inner, customs, support, return_type, bounds);
        },
    }
}

fn collect_outputs_bounds(
    elements: &Vec<FunctionOutputValueType>,
    customs: &[CustomModel],
    support: &str,
    return_type: &str,
    bounds: &mut Vec<String>,
)
    requires
        outputs_in_range(elements@, customs@.len()),
    ensures
        texts(final(bounds)@) == texts(old(bounds)@) + outputs_bounds(
            elements@,
            customs@,
            support@,
            return_type@,
        ),
    decreases elements,
{
    let ghost start = texts(bounds@);
    let mut i: usize = 0;
    assert(elements@.take(0) =~= Seq::<FunctionOutputValueType>::empty());
    assert(texts(bounds@) =~= start + outputs_bounds(elements@.take(0), customs@, support@, return_type@));
    while i < elements.len()
        invariant
            i <= elements.len(),
            outputs_in_range(elements@, customs@.len()),
            texts(bounds@) == start + outputs_bounds(
                elements@.take(i as int),
                customs@,
                support@,
                return_type@,
            ),
        decreases elements.len() - i,
    {
        proof {
            vstd::std_specs::vec::axiom_vec_index_decreases(*elements, i as int);
            assert(elements@.take(i + 1).drop_last() =~= elements@.take(i as int));
            assert(elements@.take(i + 1).last() == elements@[i as int]);
            lemma_outputs_in_range(elements@, customs@.len(), i as int);
        }
        collect_function_output_intermediate_bounds(&elements[i], customs, support, return_type, bounds);
        i = i + 1;
    }
    assert(elements@.take(elements.len() as int) =~= elements@);
}

/// Appends the codec bounds of a function's returned value.
fn collect_function_return_bounds(
    return_: &FunctionReturnType,
    customs: &[CustomModel],
    support: &str,
    return_type: &str,
    bounds: &mut Vec<String>,
)
    requires
        return_in_range(*return_, customs@.len()),
    ensures
        texts(final(bounds)@) == texts(old(bounds)@) + return_bounds(
            *return_,
            customs@,
            support@,
            return_type@,
        ),
{
    match return_ {
        FunctionReturnType::Value(root) => collect_function_root_output_bounds(
            root,
            customs,
            support,
            return_type,
            bounds,
        ),
        _ => {
            assert(texts(bounds@) =~= texts(old(bounds)@) + Seq::<Seq<char>>::empty());
        },
    }
}

/// Appends the codec bounds of the outermost shape of a function output.
fn collect_function_root_output_bounds(
    root: &FunctionRootOutputValueType,
    customs: &[CustomModel],
    support: &str,
    return_type: &str,
    bounds: &mut Vec<String>,
)
    requires
        return_in_range(FunctionReturnType::Value(*root), customs@.len()),
    ensures
        texts(final(bounds)@) == texts(old(bounds)@) + return_bounds(
            FunctionReturnType::Value(*root),
            customs@,
            support@,
            return_type@,
        ),
{
    match root {
        FunctionRootOutputValueType::Value(leaf) => {
            push_leaf_bound(leaf, customs, support, return_type, true, bounds);
        },
        FunctionRootOutputValueType::Tuple(elements) => {
            collect_outputs_bounds(elements, customs, support, return_type, bounds);
        },
        FunctionRootOutputValueType::Result { success, failure } => {
            collect_function_output_intermediate_bounds(success, customs, support, return_type, bounds);
            collect_function_output_intermediate_bounds(failure, customs, support, return_type, bounds);
        },
        FunctionRootOutputValueType::Option { value } => {
            collect_function_output_intermediate_bounds(value, customs, support, return_type, bounds);
        },
        FunctionRootOutputValueType::Vec(value) => {
            collect_function_output_intermediate_bounds(value, customs, support, return_type, bounds);
        },
    }
}

/// The codec bounds of one function input: those of a provider value or of
/// a List's declared items; generic inputs need none here.
pub open spec fn input_type_bounds(
    input: FunctionInputType,
    customs: Seq<CustomModel>,
    support: Seq<char>,
    return_type: Seq<char>,
) -> Seq<Seq<char>> {
    match input {
        FunctionInputType::Value(value) => input_bounds(*value, customs, support, return_type),
        FunctionInputType::List(list) => list_bounds(*list, customs, support),
        _ => Seq::empty(),
    }
}

/// The codec bounds of one function argument; callbacks need none here.
pub open spec fn argument_bounds(
    argument: FunctionArgumentType,
    customs: Seq<CustomModel>,
    support: Seq<char>,
    return_type: Seq<char>,
) -> Seq<Seq<char>> {
    match argument {
        FunctionArgumentType::Input(input) => input_type_bounds(input, customs, support, return_type),
        FunctionArgumentType::Callback => Seq::empty(),
    }
}

/// Every List that a function input holds has items whose walk ends.
pub open spec fn input_type_lists_end(input: FunctionInputType, customs: Seq<CustomModel>) -> bool {
    match input {
        FunctionInputType::Value(value) => input_lists_end(*value, customs),
        FunctionInputType::List(list) => walk_ends(list.collection.value@, customs),
        _ => true,
    }
}

/// Appends the codec bounds of one function input.
fn collect_function_input_type_bounds(
    input: &FunctionInputType,
    customs: &[CustomModel],
    support: &str,
    return_type: &str,
    bounds: &mut Vec<String>,
)
    requires
        input_type_lists_end(*input, customs@),
    ensures
        texts(final(bounds)@) == texts(old(bounds)@) + input_type_bounds(
            *input,
            customs@,
            support@,
            return_type@,
        ),
{
    match input {
        FunctionInputType::Value(value) => {
            collect_function_input_bounds(value, customs, support, return_type, bounds);
        },
        FunctionInputType::List(list) => {
            push_list_bounds(list, customs, support, bounds);
        },
        _ => {
            assert(texts(bounds@) =~= texts(old(bounds)@) + Seq::<Seq<char>>::empty());
        },
    }
}

pub open spec fn arguments_bounds(
    arguments: Seq<FunctionArgumentType>,
    customs: Seq<CustomModel>,
    support: Seq<char>,
    return_type: Seq<char>,
) -> Seq<Seq<char>>
    decreases arguments.len(),
{
    if arguments.len() == 0 {
        Seq::empty()
    } else {
        arguments_bounds(arguments.drop_last(), customs, support, return_type) + argument_bounds(
            arguments.last(),
            customs,
            support,
            return_type,
        )
    }
}

/// Every List that an argument holds has items whose walk ends.
pub open spec fn argument_lists_end(argument: FunctionArgumentType, customs: Seq<CustomModel>) -> bool {
    match argument {
        FunctionArgumentType::Input(input) => input_type_lists_end(input, customs),
        FunctionArgumentType::Callback => true,
    }
}

/// The codec bounds of a provider function: those of its arguments in order,
/// then those of its return, each bound once.
pub fn function_codec_bounds(
    arguments: &Vec<FunctionArgumentType>,
    return_: &FunctionReturnType,
    customs: &[CustomModel],
    support: &str,
    return_type: &str,
) -> (bounds: Vec<String>)
    requires
        forall|i: int|
            0 <= i < arguments@.len() ==> argument_lists_end(#[trigger] arguments@[i], customs@),
        return_in_range(*return_, customs@.len()),
    ensures
        texts(bounds@) == first_occurrences(
            arguments_bounds(arguments@, customs@, support@, return_type@) + return_bounds(
                *return_,
                customs@,
                support@,
                return_type@,
            ),
        ),
{
    let mut bounds: Vec<String> = Vec::new();
    let mut i: usize = 0;
    assert(arguments@.take(0) =~= Seq::<FunctionArgumentType>::empty());
    assert(texts(bounds@) =~= arguments_bounds(arguments@.take(0), customs@, support@, return_type@));
    while i < arguments.len()
        invariant
            i <= arguments@.len(),
            forall|j: int|
                0 <= j < arguments@.len() ==> argument_lists_end(#[trigger] arguments@[j], customs@),
            texts(bounds@) == arguments_bounds(
                arguments@.take(i as int),
                customs@,
                support@,
                return_type@,
            ),
        decreases arguments.len() - i,
    {
        proof {
            assert(arguments@.take(i + 1).drop_last() =~= arguments@.take(i as int));
            assert(arguments@.take(i + 1).last() == arguments@[i as int]);
            assert(argument_lists_end(arguments@[i as int], customs@));
        }
        match &arguments[i] {
            FunctionArgumentType::Input(input) => {
                collect_function_input_type_bounds(input, customs, support, return_type, &mut bounds);
            },
            FunctionArgumentType::Callback => {
                assert(texts(bounds@) =~= texts(bounds@) + Seq::<Seq<char>>::empty());
            },
        }
        i = i + 1;
    }
    assert(arguments@.take(arguments.len() as int) =~= arguments@);
    collect_function_return_bounds(return_, customs, support, return_type, &mut bounds);
    deduplicate_bounds(bounds)
}

/// The input-value bounds that the declared and custom types of `value`
/// call for, as far as they are reached through `Option`, `Result` and
/// tuple wrappers: an owned declared type needs its input-value bound, a
/// borrowed external one its borrowed-input bound, and a custom type its
/// custom-input bound.
pub open spec fn wrapped_input_bound(
    value: ProviderValueType,
    bound: Seq<char>,
    support: Seq<char>,
    return_type: Seq<char>,
) -> bool
    decreases value,
{
    match value {
        ProviderValueType::Declared { type_, input: DeclaredInput::Owned } => bound == input_value_bound(
            type_@,
            support,
            return_type,
        ),
        ProviderValueType::Declared { type_, input: DeclaredInput::BorrowedExternal } => bound
            == borrowed_input_bound(type_@, support, return_type),
        ProviderValueType::Custom { rust, .. } => bound == custom_input_bound(rust@, support, return_type),
        ProviderValueType::Option { value } => wrapped_input_bound(*value, bound, support, return_type),
        ProviderValueType::Result { success, failure } => wrapped_input_bound(
            *success,
            bound,
            support,
            return_type,
        ) || wrapped_input_bound(*failure, bound, support, return_type),
        ProviderValueType::Tuple(elements) => wrapped_inputs_bound(elements@, bound, support, return_type),
        _ => false,
    }
}

pub open spec fn wrapped_inputs_bound(
    values: Seq<ProviderValueType>,
    bound: Seq<char>,
    support: Seq<char>,
    return_type: Seq<char>,
) -> bool
    decreases values,
{
    if values.len() == 0 {
        false
    } else {
        wrapped_inputs_bound(values.drop_last(), bound, support, return_type) || wrapped_input_bound(
            values.last(),
            bound,
            support,
            return_type,
        )
    }
}

/// Every declared or custom type reached through an input's `Option`,
/// `Result` or tuple wrappers contributes its input bound to the input's
/// bounds.
pub proof fn law_wrapped_inputs_contribute_their_bounds(
    value: ProviderValueType,
    bound: Seq<char>,
    customs: Seq<CustomModel>,
    support: Seq<char>,
    return_type: Seq<char>,
)
    requires
        wrapped_input_bound(value, bound, support, return_type),
    ensures
        input_bounds(value, customs, support, return_type).contains(bound),
    decreases value,
{
    match value {
        ProviderValueType::Declared { .. } => {
            assert(input_bounds(value, customs, support, return_type)[0] == bound);
        },
        ProviderValueType::Custom { .. } => {
            assert(input_bounds(value, customs, support, return_type)[0] == bound);
        },
        ProviderValueType::Option { value: inner } => {
            law_wrapped_inputs_contribute_their_bounds(*inner, bound, customs, support, return_type);
        },
        ProviderValueType::Result { success, failure } => {
            let first = input_bounds(*success, customs, support, return_type);
            let second = input_bounds(*failure, customs, support, return_type);
            if wrapped_input_bound(*success, bound, support, return_type) {
                law_wrapped_inputs_contribute_their_bounds(*success, bound, customs, support, return_type);
                let j = choose|j: int| 0 <= j < first.len() && first[j] == bound;
                assert((first + second)[j] == bound);
            } else {
                law_wrapped_inputs_contribute_their_bounds(*failure, bound, customs, support, return_type);
                let j = choose|j: int| 0 <= j < second.len() && second[j] == bound;
                assert((first + second)[first.len() + j] == bound);
            }
        },
        ProviderValueType::Tuple(elements) => {
            lemma_wrapped_elements_contribute(elements@, bound, customs, support, return_type);
        },
        _ => {},
    }
}

proof fn lemma_wrapped_elements_contribute(
    values: Seq<ProviderValueType>,
    bound: Seq<char>,
    customs: Seq<CustomModel>,
    support: Seq<char>,
    return_type: Seq<char>,
)
    requires
        wrapped_inputs_bound(values, bound, support, return_type),
    ensures
        inputs_bounds(values, customs, support, return_type).contains(bound),
    decreases values,
{
    let first = inputs_bounds(values.drop_last(), customs, support, return_type);
    let second = input_bounds(values.last(), customs, support, return_type);
    if wrapped_inputs_bound(values.drop_last(), bound, support, return_type) {
        lemma_wrapped_elements_contribute(values.drop_last(), bound, customs, support, return_type);
        let j = choose|j: int| 0 <= j < first.len() && first[j] == bound;
        assert((first + second)[j] == bound);
    } else {
        law_wrapped_inputs_contribute_their_bounds(values.last(), bound, customs, support, return_type);
        let j = choose|j: int| 0 <= j < second.len() && second[j] == bound;
        assert((first + second)[first.len() + j] == bound);
    }
}

/// An `Option` input calls for exactly the bounds of the value it wraps.
pub proof fn law_option_inputs_take_their_values_bounds(
    value: ProviderValueType,
    customs: Seq<CustomModel>,
    support: Seq<char>,
    return_type: Seq<char>,
)
    ensures
        input_bounds(ProviderValueType::Option { value: Box::new(value) }, customs, support, return_type)
            == input_bounds(value, customs, support, return_type),
{
}

/// The Lists that `value` holds through `Option`, `Result` and tuple
/// wrappers call for `bound`.
pub open spec fn wrapped_list_bound(
    value: ProviderValueType,
    bound: Seq<char>,
    customs: Seq<CustomModel>,
    support: Seq<char>,
) -> bool
    decreases value,
{
    match value {
        ProviderValueType::List(list) => list_bounds(*list, customs, support).contains(bound),
        ProviderValueType::Option { value } => wrapped_list_bound(*value, bound, customs, support),
        ProviderValueType::Result { success, failure } => wrapped_list_bound(
            *success,
            bound,
            customs,
            support,
        ) || wrapped_list_bound(*failure, bound, customs, support),
        ProviderValueType::Tuple(elements) => wrapped_lists_bound(elements@, bound, customs, support),
        _ => false,
    }
}

pub open spec fn wrapped_lists_bound(
    values: Seq<ProviderValueType>,
    bound: Seq<char>,
    customs: Seq<CustomModel>,
    support: Seq<char>,
) -> bool
    decreases values,
{
    if values.len() == 0 {
        false
    } else {
        wrapped_lists_bound(values.drop_last(), bound, customs, support) || wrapped_list_bound(
            values.last(),
            bound,
            customs,
            support,
        )
    }
}

/// An input calls for no bound beyond those of the declared, custom and
/// List values it holds through its wrappers.
pub proof fn law_input_bounds_come_from_wrapped_values(
    value: ProviderValueType,
    bound: Seq<char>,
    customs: Seq<CustomModel>,
    support: Seq<char>,
    return_type: Seq<char>,
)
    requires
        input_bounds(value, customs, support, return_type).contains(bound),
    ensures
        wrapped_input_bound(value, bound, support, return_type) || wrapped_list_bound(
            value,
            bound,
            customs,
            support,
        ),
    decreases value,
{
    let all = input_bounds(value, customs, support, return_type);
    match value {
        ProviderValueType::Declared { .. } => {
            let j = choose|j: int| 0 <= j < all.len() && all[j] == bound;
        },
        ProviderValueType::Custom { .. } => {
            let j = choose|j: int| 0 <= j < all.len() && all[j] == bound;
        },
        ProviderValueType::Option { value: inner } => {
            law_input_bounds_come_from_wrapped_values(*inner, bound, customs, support, return_type);
        },
        ProviderValueType::Result { success, failure } => {
            let first = input_bounds(*success, customs, support, return_type);
            let second = input_bounds(*failure, customs, support, return_type);
            let j = choose|j: int| 0 <= j < all.len() && all[j] == bound;
            if j < first.len() {
                assert(first[j] == bound);
                law_input_bounds_come_from_wrapped_values(*success, bound, customs, support, return_type);
            } else {
                assert(second[j - first.len()] == bound);
                law_input_bounds_come_from_wrapped_values(*failure, bound, customs, support, return_type);
            }
        },
        ProviderValueType::Tuple(elements) => {
            lemma_elements_bounds_come_from_wrapped_values(elements@, bound, customs, support, return_type);
        },
        ProviderValueType::List(_) => {},
        _ => {},
    }
}

proof fn lemma_elements_bounds_come_from_wrapped_values(
    values: Seq<ProviderValueType>,
    bound: Seq<char>,
    customs: Seq<CustomModel>,
    support: Seq<char>,
    return_type: Seq<char>,
)
    requires
        inputs_bounds(values, customs, support, return_type).contains(bound),
    ensures
        wrapped_inputs_bound(values, bound, support, return_type) || wrapped_lists_bound(
            values,
            bound,
            customs,
            support,
        ),
    decreases values,
{
    let first = inputs_bounds(values.drop_last(), customs, support, return_type);
    let second = input_bounds(values.last(), customs, support, return_type);
    let j = choose|j: int| 0 <= j < (first + second).len() && (first + second)[j] == bound;
    if j < first.len() {
        assert(first[j] == bound);
        lemma_elements_bounds_come_from_wrapped_values(values.drop_last(), bound, customs, support, return_type);
    } else {
        assert(second[j - first.len()] == bound);
        law_input_bounds_come_from_wrapped_values(values.last(), bound, customs, support, return_type);
    }
}

/// A `Result` input calls for the bounds of its success value, then those of
/// its failure value.
pub proof fn law_result_inputs_take_both_values_bounds(
    success: ProviderValueType,
    failure: ProviderValueType,
    customs: Seq<CustomModel>,
    support: Seq<char>,
    return_type: Seq<char>,
)
    ensures
        input_bounds(
            ProviderValueType::Result { success: Box::new(success), failure: Box::new(failure) },
            customs,
            support,
            return_type,
        ) == input_bounds(success, customs, support, return_type) + input_bounds(
            failure,
            customs,
            support,
            return_type,
        ),
{
}

} // verus!
