use crate::custom_arguments::{CustomArguments, custom_arguments, custom_arguments_of};
use crate::diagnostic::{Diagnostic, diagnostic};
use crate::tokens::{Token, text_is};
use vstd::prelude::*;

verus! {

/// The form of an attribute: a bare path, a path with delimited arguments
/// (their tokens), or a `path = value` pair.
pub enum AttributeMeta {
    Path,
    List(Vec<Token>),
    NameValue,
}

/// An attribute of a declaration, as far as marker handling reads it: the
/// last segment of its path and its form.
pub struct AttributeModel {
    pub last_segment: String,
    pub meta: AttributeMeta,
}

/// An attribute marks a declaration when its path ends in `name`
/// (`#[custom]`, `#[geam::custom]`, ...).
pub open spec fn is_marker(attribute: AttributeModel, name: Seq<char>) -> bool {
    attribute.last_segment@ == name
}

/// The attributes that are not `custom` markers, in order.
pub open spec fn non_markers(attributes: Seq<AttributeModel>) -> Seq<AttributeModel>
    decreases attributes.len(),
{
    if attributes.len() == 0 {
        Seq::empty()
    } else if is_marker(attributes.last(), "custom"@) {
        non_markers(attributes.drop_last())
    } else {
        non_markers(attributes.drop_last()).push(attributes.last())
    }
}

/// Reads the `custom` markers of `attributes[from..]`, with a marker already
/// read or not: at most one marker, given as a bare path or with
/// `(input = Type)` arguments. The result is the generated input name of the
/// marker (`None` inside for a marker without one), or the first rejection.
pub open spec fn custom_marker_from(
    attributes: Seq<AttributeModel>,
    from: int,
    found: Option<Option<Seq<char>>>,
) -> Result<Option<Option<Seq<char>>>, Seq<char>>
    decreases attributes.len() - from,
{
    if from < 0 || from >= attributes.len() {
        Ok(found)
    } else if !is_marker(attributes[from], "custom"@) {
        custom_marker_from(attributes, from + 1, found)
    } else if found is Some {
        Err("duplicate `#[geam::custom]` attribute"@)
    } else {
        match attributes[from].meta {
            AttributeMeta::List(tokens) => match custom_arguments_of(tokens@) {
                Err(message) => Err(message),
                Ok(input) => custom_marker_from(attributes, from + 1, Some(input)),
            },
            AttributeMeta::Path => custom_marker_from(attributes, from + 1, Some(None)),
            AttributeMeta::NameValue => Err(
                "`#[geam::custom]` accepts only `input = Type` arguments"@,
            ),
        }
    }
}

pub open spec fn custom_marker_of(attributes: Seq<AttributeModel>) -> Result<
    Option<Option<Seq<char>>>,
    Seq<char>,
> {
    custom_marker_from(attributes, 0, None)
}

pub open spec fn arguments_text(arguments: Option<CustomArguments>) -> Option<Option<Seq<char>>> {
    match arguments {
        None => None,
        Some(arguments) => Some(
            match arguments.input {
                Some(input) => Some(input@),
                None => None,
            },
        ),
    }
}

/// Removes the `custom` marker from `attributes` and returns its arguments.
/// On a rejected marker the attributes have already been taken out.
pub fn take_custom_marker(attributes: &mut Vec<AttributeModel>) -> (result: Result<
    Option<CustomArguments>,
    Diagnostic,
>)
    ensures
        match custom_marker_of(old(attributes)@) {
            Ok(found) => result matches Ok(arguments) && arguments_text(arguments) == found
                && final(attributes)@ == non_markers(old(attributes)@),
            Err(message) => result matches Err(error) && error.message@ == message
                && final(attributes)@.len() == 0,
        },
{
    let mut remaining: Vec<AttributeModel> = Vec::new();
    core::mem::swap(&mut remaining, attributes);
    let ghost all = remaining@;
    assert(all.len() == remaining.len());
    let mut retained: Vec<AttributeModel> = Vec::new();
    let mut found: Option<CustomArguments> = None;
    let mut i: usize = 0;
    while remaining.len() > 0
        invariant
            attributes@.len() == 0,
            all == old(attributes)@,
            all.len() <= usize::MAX,
            i + remaining@.len() == all.len(),
            remaining@ == all.subrange(i as int, all.len() as int),
            retained@ == non_markers(all.take(i as int)),
            custom_marker_of(all) == custom_marker_from(all, i as int, arguments_text(found)),
        decreases remaining.len(),
    {
        let attribute = remaining.remove(0);
        proof {
            assert(attribute == all[i as int]);
            assert(all.take(i + 1).drop_last() =~= all.take(i as int));
            assert(remaining@ =~= all.subrange(i + 1, all.len() as int));
        }
        if !text_is(&attribute.last_segment, "custom") {
            retained.push(attribute);
        } else {
            if found.is_some() {
                return Err(diagnostic("duplicate `#[geam::custom]` attribute"));
            }
            match &attribute.meta {
                AttributeMeta::List(tokens) => {
                    match custom_arguments(tokens) {
                        Ok(arguments) => {
                            found = Some(arguments);
                        },
                        Err(error) => {
                            return Err(error);
                        },
                    }
                },
                AttributeMeta::Path => {
                    found = Some(CustomArguments { input: None });
                },
                AttributeMeta::NameValue => {
                    return Err(
                        diagnostic("`#[geam::custom]` accepts only `input = Type` arguments"),
                    );
                },
            }
        }
        i = i + 1;
    }
    assert(all.take(all.len() as int) =~= all);
    *attributes = retained;
    Ok(found)
}

} // verus!
