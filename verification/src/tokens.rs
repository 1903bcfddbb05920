use proc_macro2::{TokenStream, TokenTree};
use vstd::prelude::*;

verus! {

#[verifier::external_type_specification]
#[verifier::external_body]
pub struct ExTokenStream(TokenStream);

/// One top-level token of an attribute's arguments, as far as the argument
/// grammars read it: identifiers, literals and delimited groups by their
/// token text, punctuation by its character.
pub enum Token {
    Ident(String),
    Punct(char),
    Literal(String),
    Group(String),
}

/// The top-level token trees that a stream holds, each as a [`Token`].
pub uninterp spec fn stream_tokens(stream: TokenStream) -> Seq<Token>;

/// The top-level token trees of `stream`, in order, each converted to a
/// [`Token`] (`proc_macro2::TokenStream::into_iter`, with the `Display` text
/// of identifiers, literals and groups and `Punct::as_char`). The contract claims only that the
/// result is what the stream holds, named `stream_tokens`.
#[verifier::external_body]
pub fn token_trees(stream: TokenStream) -> (tokens: Vec<Token>)
    ensures
        tokens@ == stream_tokens(stream),
{
    stream.into_iter().map(|tree| match tree {
        TokenTree::Ident(ident) => Token::Ident(ident.to_string()),
        TokenTree::Punct(punct) => Token::Punct(punct.as_char()),
        TokenTree::Literal(literal) => Token::Literal(literal.to_string()),
        TokenTree::Group(group) => Token::Group(group.to_string()),
    }).collect()
}

/// What `syn` makes of `text` read as one identifier: the identifier's text,
/// or the message of the error.
pub uninterp spec fn parsed_ident(text: Seq<char>) -> Result<Seq<char>, Seq<char>>;

/// Parses `text` as one identifier with `syn::parse_str::<syn::Ident>`,
/// giving the identifier's `Display` text or the error's. The contract
/// claims that the result is `syn`'s, named `parsed_ident`, and that empty
/// text holds no identifier.
#[verifier::external_body]
fn parse_ident_text(text: &String) -> (result: Result<String, String>)
    ensures
        text@.len() == 0 ==> result is Err,
        match result {
            Ok(ident) => parsed_ident(text@) == Ok::<Seq<char>, Seq<char>>(ident@),
            Err(message) => parsed_ident(text@) == Err::<Seq<char>, Seq<char>>(message@),
        },
{
    match syn::parse_str::<syn::Ident>(text) {
        Ok(ident) => Ok(ident.to_string()),
        Err(error) => Err(error.to_string()),
    }
}

/// Whether `text` equals `literal`.
pub fn text_is(text: &String, literal: &str) -> (equal: bool)
    ensures
        equal == (text@ == literal@),
{
    let mut expected = String::new();
    expected.append(literal);
    *text == expected
}

/// An identifier's name: its text without the raw-identifier prefix `r#`.
pub open spec fn unraw(text: Seq<char>) -> Seq<char> {
    if text.len() >= 2 && text[0] == 'r' && text[1] == '#' {
        text.skip(2)
    } else {
        text
    }
}

pub open spec fn option_unraw(text: Option<Seq<char>>) -> Option<Seq<char>> {
    match text {
        Some(text) => Some(unraw(text)),
        None => None,
    }
}

/// The name of the identifier written as `text`, as `syn::ext::IdentExt::unraw`
/// gives it: a leading `r#` is dropped.
pub fn unraw_text(text: &String) -> (name: String)
    ensures
        name@ == unraw(text@),
{
    let written = text.as_str();
    let length = written.unicode_len();
    if length >= 2 && written.get_char(0) == 'r' && written.get_char(1) == '#' {
        let mut name = String::new();
        name.append(written.substring_char(2, length));
        proof {
            assert(name@ =~= text@.skip(2));
        }
        name
    } else {
        text.clone()
    }
}

/// The token text at `position`, empty past the end and for punctuation.
pub open spec fn token_text(tokens: Seq<Token>, position: int) -> Seq<char> {
    if 0 <= position < tokens.len() {
        match tokens[position] {
            Token::Ident(text) => text@,
            Token::Punct(_) => Seq::empty(),
            Token::Literal(text) => text@,
            Token::Group(text) => text@,
        }
    } else {
        Seq::empty()
    }
}

/// What parsing an identifier at `position` yields: its text, or the message
/// `syn` reports. Punctuation is no identifier.
pub open spec fn ident_at(tokens: Seq<Token>, position: int) -> Result<Seq<char>, Seq<char>> {
    if 0 <= position < tokens.len() && tokens[position] is Punct {
        Err("expected identifier"@)
    } else {
        parsed_ident(token_text(tokens, position))
    }
}

/// Whether the token at `position` is the punctuation `ch`.
pub open spec fn punct_at(tokens: Seq<Token>, position: int, ch: char) -> bool {
    &&& 0 <= position < tokens.len()
    &&& tokens[position] == Token::Punct(ch)
}

pub fn parse_ident(tokens: &Vec<Token>, position: usize) -> (result: Result<String, String>)
    ensures
        position >= tokens@.len() ==> result is Err,
        match ident_at(tokens@, position as int) {
            Ok(text) => result matches Ok(ident) && ident@ == text,
            Err(message) => result matches Err(error) && error@ == message,
        },
{
    let text = if position < tokens.len() {
        match &tokens[position] {
            Token::Ident(text) => text.clone(),
            Token::Punct(_) => {
                let mut message = String::new();
                message.append("expected identifier");
                return Err(message);
            },
            Token::Literal(text) => text.clone(),
            Token::Group(text) => text.clone(),
        }
    } else {
        String::new()
    };
    parse_ident_text(&text)
}

pub fn is_punct(tokens: &Vec<Token>, position: usize, ch: char) -> (found: bool)
    ensures
        found == punct_at(tokens@, position as int, ch),
{
    if position < tokens.len() {
        match &tokens[position] {
            Token::Punct(found) => *found == ch,
            _ => false,
        }
    } else {
        false
    }
}

} // verus!
