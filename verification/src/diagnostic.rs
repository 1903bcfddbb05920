use vstd::prelude::*;

verus! {

/// A rejected declaration: the message that the macro reports. Only the
/// message is held, not the source position that a `syn::Error` carries.
#[derive(Debug)]
pub struct Diagnostic {
    pub message: String,
}

impl Diagnostic {
    /// The reported message, as `syn::Error`'s `Display` prints it.
    pub fn message(&self) -> (message: String)
        ensures
            message@ == self.message@,
    {
        self.message.clone()
    }
}

/// A diagnostic whose message is `text`.
pub fn diagnostic(text: &str) -> (error: Diagnostic)
    ensures
        error.message@ == text@,
{
    let mut message = String::new();
    message.append(text);
    Diagnostic { message }
}

} // verus!
