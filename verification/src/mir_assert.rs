//! Expectations on printed MIR: whether the text of lowered MIR contains (or does
//! not contain) an expected fragment, with the message reported when it fails.

use vstd::prelude::*;

use crate::text::{append_str, contains_sub, owned, str_contains};

verus! {

/// The message for a fragment that was expected and is missing.
pub open spec fn missing_message(expected: Seq<char>, output: Seq<char>) -> Seq<char> {
    "Expected MIR to contain:\n  "@ + expected + "\n\nActual MIR:\n"@ + output
}

/// The message for a fragment that was not expected and occurs.
pub open spec fn present_message(unexpected: Seq<char>, output: Seq<char>) -> Seq<char> {
    "Expected MIR to NOT contain:\n  "@ + unexpected + "\n\nActual MIR:\n"@ + output
}

/// Checks that the MIR text contains the expected fragment; otherwise the error
/// holds the fragment and the whole text.
pub fn assert_mir_contains(output: &str, expected: &str) -> (r: Result<(), String>)
    ensures
        r is Ok <==> contains_sub(output@, expected@),
        r matches Err(msg) ==> msg@ == missing_message(expected@, output@),
{
    if str_contains(output, expected) {
        Ok(())
    } else {
        let mut msg = owned("Expected MIR to contain:\n  ");
        append_str(&mut msg, expected);
        append_str(&mut msg, "\n\nActual MIR:\n");
        append_str(&mut msg, output);
        Err(msg)
    }
}

/// Checks that the MIR text does not contain the fragment; otherwise the error
/// holds the fragment and the whole text.
pub fn assert_mir_not_contains(output: &str, unexpected: &str) -> (r: Result<(), String>)
    ensures
        r is Ok <==> !contains_sub(output@, unexpected@),
        r matches Err(msg) ==> msg@ == present_message(unexpected@, output@),
{
    if !str_contains(output, unexpected) {
        Ok(())
    } else {
        let mut msg = owned("Expected MIR to NOT contain:\n  ");
        append_str(&mut msg, unexpected);
        append_str(&mut msg, "\n\nActual MIR:\n");
        append_str(&mut msg, output);
        Err(msg)
    }
}

} // verus!
