use crate::diagnostic::{Diagnostic, diagnostic};
use vstd::prelude::*;

verus! {

/// `#[geam::function]` is read by `#[geam::module]` only; standing on its
/// own it is rejected, and the function it marks is kept as written.
pub fn standalone_function_error() -> (error: Diagnostic)
    ensures
        error.message@ == "`#[geam::function]` must be inside a `#[geam::module]` inline module"@,
{
    diagnostic("`#[geam::function]` must be inside a `#[geam::module]` inline module")
}

/// The most source arguments that a provider function or callback takes.
pub open spec fn max_source_arguments() -> nat {
    7
}

/// A provider function takes at most seven source arguments, not counting
/// its call and capture parameters; a callback signature likewise. The
/// message names which of the two broke the limit.
pub fn check_source_arguments(count: usize, callback: bool) -> (result: Result<(), Diagnostic>)
    ensures
        if count <= max_source_arguments() {
            result is Ok
        } else {
            result matches Err(error) && error.message@ == if callback {
                "provider callbacks support at most seven source arguments"@
            } else {
                "provider functions support at most seven source arguments"@
            }
        },
{
    if count <= 7 {
        Ok(())
    } else if callback {
        Err(diagnostic("provider callbacks support at most seven source arguments"))
    } else {
        Err(diagnostic("provider functions support at most seven source arguments"))
    }
}

} // verus!
