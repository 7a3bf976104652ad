//! The token-shape quantization gate: a block is a candidate when it is
//! non-empty and holds neither a line break nor the safe-mode sentinel.
pub use crate::quantized_block::{
    GuardSignature, KernelKind, QuantizedArity, QuantizedBlock, QuantizedPurity,
};
use crate::value::Token;
use vstd::prelude::*;

verus! {

pub open spec fn shape_quantizable(tokens: Seq<Token>) -> bool {
    &&& tokens.len() > 0
    &&& forall|i: int|
        0 <= i < tokens.len() ==> !(#[trigger] tokens[i] is LineBreak) && !(tokens[i] is SafeMode)
}

pub fn is_quantizable_block(tokens: &[Token]) -> (r: bool)
    ensures
        r == shape_quantizable(tokens@),
{
    if tokens.len() == 0 {
        return false;
    }
    let mut i: usize = 0;
    while i < tokens.len()
        invariant
            0 <= i <= tokens@.len(),
            forall|k: int|
                0 <= k < i ==> !(#[trigger] tokens@[k] is LineBreak) && !(tokens@[k] is SafeMode),
        decreases tokens@.len() - i,
    {
        match tokens[i] {
            Token::LineBreak | Token::SafeMode => {
                return false;
            },
            _ => {},
        }
        i = i + 1;
    }
    true
}

} // verus!
