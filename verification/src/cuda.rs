//! CUDA status codes: which ones are errors, and the message an error
//! carries. The message text of a driver code comes from the CUDA library
//! itself, which is loaded at run time outside this library.

use vstd::prelude::*;
use crate::testrun::decimal_spec;
use crate::testrun::i32_to_decimal;

verus! {

/// The status a backend reports when no CUDA library could be loaded.
pub const CUDA_BACKEND_UNAVAILABLE: i32 = 20000;

/// The message of a CUDA status code when the library has none to give:
/// the unavailable backend is named, any other code shown as a number.
pub open spec fn fallback_message_spec(code: i32) -> Seq<char> {
    if code == CUDA_BACKEND_UNAVAILABLE {
        "CUDA backend unavailable"@
    } else {
        "CUDA error code "@ + decimal_spec(code as int)
    }
}

/// The message of `code` when the CUDA library gives none.
pub fn fallback_message(code: i32) -> (r: String)
    ensures
        r@ == fallback_message_spec(code),
{
    if code == CUDA_BACKEND_UNAVAILABLE {
        String::from_str("CUDA backend unavailable")
    } else {
        let mut m = String::from_str("CUDA error code ");
        m.append(i32_to_decimal(code).as_str());
        m
    }
}

/// The error of a failed CUDA call `what`, with the code's message.
pub open spec fn check_error_spec(code: i32, what: Seq<char>, message: Seq<char>) -> Seq<char> {
    what + ": "@ + message + " ("@ + decimal_spec(code as int) + ")"@
}

/// A CUDA call `what` succeeded when its status code is 0; any other code
/// is an error naming the call, the code's message and the code.
pub fn check(code: i32, what: &str, message: &str) -> (r: Result<(), String>)
    ensures
        code == 0 <==> r is Ok,
        r matches Err(e) ==> e@ == check_error_spec(code, what@, message@),
{
    if code == 0 {
        return Ok(());
    }
    let mut m = String::from_str(what);
    m.append(": ");
    m.append(message);
    m.append(" (");
    m.append(i32_to_decimal(code).as_str());
    m.append(")");
    Err(m)
}

} // verus!
