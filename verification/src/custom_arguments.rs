use crate::diagnostic::Diagnostic;
use crate::tokens::{Token, ident_at, is_punct, parse_ident, punct_at, stream_tokens, text_is, token_trees};
use proc_macro2::TokenStream;
use vstd::prelude::*;

verus! {

/// The arguments of `#[geam::custom(...)]`: the name of the generated input
/// type, if the declaration has one.
pub struct CustomArguments {
    pub input: Option<String>,
}

/// The grammar `(input = Ident),*` with an optional trailing comma, read from
/// `position` with `input` already given or not. The result is the generated
/// input name, or the message of the first rejected token.
pub open spec fn custom_arguments_from(tokens: Seq<Token>, position: int, input: Option<Seq<char>>) -> Result<
    Option<Seq<char>>,
    Seq<char>,
>
    decreases tokens.len() - position,
{
    if position < 0 || position >= tokens.len() {
        Ok(input)
    } else {
        match ident_at(tokens, position) {
            Err(message) => Err(message),
            Ok(field) => if !punct_at(tokens, position + 1, '=') {
                Err("expected `=`"@)
            } else if field != "input"@ {
                Err("unknown custom argument `"@ + field + "`"@)
            } else {
                match ident_at(tokens, position + 2) {
                    Err(message) => Err(message),
                    Ok(value) => if input is Some {
                        Err("duplicate custom argument `input`"@)
                    } else if position + 3 >= tokens.len() {
                        Ok(Some(value))
                    } else if !punct_at(tokens, position + 3, ',') {
                        Err("expected `,`"@)
                    } else {
                        custom_arguments_from(tokens, position + 4, Some(value))
                    }
                }
            },
        }
    }
}

/// The arguments that `tokens` declare, or the message of the first
/// rejected token.
pub open spec fn custom_arguments_of(tokens: Seq<Token>) -> Result<Option<Seq<char>>, Seq<char>> {
    custom_arguments_from(tokens, 0, None)
}

fn parse_custom_from(tokens: &Vec<Token>, position: usize, input: Option<String>) -> (result: Result<
    CustomArguments,
    Diagnostic,
>)
    requires
        position <= tokens.len(),
    ensures
        match custom_arguments_from(
            tokens@,
            position as int,
            match input {
                Some(text) => Some(text@),
                None => None,
            },
        ) {
            Ok(Some(text)) => result matches Ok(arguments) && arguments.input matches Some(name)
                && name@ == text,
            Ok(None) => result matches Ok(arguments) && arguments.input is None,
            Err(message) => result matches Err(error) && error.message@ == message,
        },
    decreases tokens.len() - position,
{
    if position >= tokens.len() {
        return Ok(CustomArguments { input });
    }
    let field = match parse_ident(tokens, position) {
        Ok(field) => field,
        Err(message) => {
            return Err(Diagnostic { message });
        },
    };
    if !is_punct(tokens, position + 1, '=') {
        let mut message = String::new();
        message.append("expected `=`");
        return Err(Diagnostic { message });
    }
    if !text_is(&field, "input") {
        let mut message = String::new();
        message.append("unknown custom argument `");
        message.append(field.as_str());
        message.append("`");
        return Err(Diagnostic { message });
    }
    let value = match parse_ident(tokens, position + 2) {
        Ok(value) => value,
        Err(message) => {
            return Err(Diagnostic { message });
        },
    };
    if input.is_some() {
        let mut message = String::new();
        message.append("duplicate custom argument `input`");
        return Err(Diagnostic { message });
    }
    if position + 3 >= tokens.len() {
        return Ok(CustomArguments { input: Some(value) });
    }
    if !is_punct(tokens, position + 3, ',') {
        let mut message = String::new();
        message.append("expected `,`");
        return Err(Diagnostic { message });
    }
    parse_custom_from(tokens, position + 4, Some(value))
}

/// Parses the arguments of `#[geam::custom(...)]` from their tokens.
pub fn custom_arguments(tokens: &Vec<Token>) -> (result: Result<CustomArguments, Diagnostic>)
    ensures
        match custom_arguments_of(tokens@) {
            Ok(Some(text)) => result matches Ok(arguments) && arguments.input matches Some(name)
                && name@ == text,
            Ok(None) => result matches Ok(arguments) && arguments.input is None,
            Err(message) => result matches Err(error) && error.message@ == message,
        },
{
    parse_custom_from(tokens, 0, None)
}

/// Parses the arguments of `#[geam::custom(...)]`: the tokens inside the
/// parentheses.
pub fn parse_custom_arguments(input: TokenStream) -> (result: Result<CustomArguments, Diagnostic>)
    ensures
        match custom_arguments_of(stream_tokens(input)) {
            Ok(Some(text)) => result matches Ok(arguments) && arguments.input matches Some(name)
                && name@ == text,
            Ok(None) => result matches Ok(arguments) && arguments.input is None,
            Err(message) => result matches Err(error) && error.message@ == message,
        },
{
    let tokens = token_trees(input);
    custom_arguments(&tokens)
}

} // verus!
