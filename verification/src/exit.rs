//! The exit status by which a host reports how a script went.

use vstd::prelude::*;

verus! {

/// The status of a run without diagnostics.
pub const CLEAN: i32 = 0;

/// The status of a run with a parse diagnostic.
pub const PARSE_ERROR: i32 = 65;

/// The status of a run that a runtime error stopped.
pub const RUNTIME_ERROR: i32 = 70;

/// The exit status for a script: 65 where the parser reported anything, else
/// 70 where a runtime error stopped the program, else 0.
pub fn exit_code(had_error: bool, had_runtime_error: bool) -> (code: i32)
    ensures
        code == if had_error {
            PARSE_ERROR
        } else if had_runtime_error {
            RUNTIME_ERROR
        } else {
            CLEAN
        },
        code == CLEAN <==> !had_error && !had_runtime_error,
{
    if had_error {
        PARSE_ERROR
    } else if had_runtime_error {
        RUNTIME_ERROR
    } else {
        CLEAN
    }
}

} // verus!
