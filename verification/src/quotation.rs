//! `CALL`: run a quotation (a code block) taken from the stack. Choosing
//! what to run is decided here; running it is the executor's part, which
//! receives the tokens.
use crate::error::AjisaiError;
use crate::interpreter::Interpreter;
use crate::value::{tokens_view, DataView, Token, ValueData};
use vstd::prelude::*;

verus! {

/// `CALL ( quotation -> ... )`: take the top value; a code block answers
/// its tokens, to be executed by the caller; anything else is a type error.
/// The value is taken in either case.
pub fn op_call(interp: &mut Interpreter) -> (r: Result<Vec<Token>, AjisaiError>)
    ensures
        old(interp).stack@.len() == 0 ==> (r matches Err(AjisaiError::StackUnderflow))
            && final(interp).stack == old(interp).stack,
        old(interp).stack@.len() > 0 ==> {
            &&& final(interp).stack@ == old(interp).stack@.drop_last()
            &&& match old(interp).stack@.last()@.data {
                DataView::CodeBlock(t) => r matches Ok(tokens) && tokens_view(tokens@) == t,
                _ => r matches Err(AjisaiError::TypeError { expected: e, got: g }) && e
                    == "quotation" && g == "other type",
            }
        },
{
    if interp.stack.len() == 0 {
        return Err(AjisaiError::StackUnderflow);
    }
    let value = interp.stack.pop().unwrap();
    match value.data {
        ValueData::CodeBlock(tokens) => Ok(tokens),
        _ => Err(AjisaiError::TypeError { expected: "quotation", got: "other type" }),
    }
}

} // verus!
