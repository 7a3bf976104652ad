//! The errors the words of this library raise.
use vstd::prelude::*;

verus! {

#[derive(Debug)]
pub enum AjisaiError {
    /// A word needed more operands than the stack holds.
    StackUnderflow,
    /// A register word ran with an empty register.
    RegisterEmpty,
    DivisionByZero,
    /// A rational result does not fit the library's 64-bit numerator and
    /// denominator.
    ArithmeticOverflow,
    VectorLengthMismatch { len1: usize, len2: usize },
    UnknownModule(String),
    ModeUnsupported { word: String, mode: String },
    /// A condition a word declares (`nonRecord`, `duplicateKey`,
    /// `nonNumeric`, `shapeMismatch`, ...), with a description.
    Declared { condition: &'static str, detail: String },
    StructureError { expected: &'static str, got: &'static str },
    TypeError { expected: &'static str, got: &'static str },
    Message(String),
}

impl AjisaiError {
    /// The declared condition `condition`, described by `detail`.
    pub open spec fn declares(&self, condition: &'static str, detail: Seq<char>) -> bool {
        self matches AjisaiError::Declared { condition: c, detail: d } && c == condition && d@ == detail
    }

    pub fn declared(condition: &'static str, detail: &str) -> (r: AjisaiError)
        ensures
            r matches AjisaiError::Declared { condition: c, detail: d } && c == condition && d@
                == detail@,
    {
        AjisaiError::Declared { condition, detail: String::from_str(detail) }
    }

    pub fn message(text: &str) -> (r: AjisaiError)
        ensures
            r matches AjisaiError::Message(m) && m@ == text@,
    {
        AjisaiError::Message(String::from_str(text))
    }
}

/// How two records whose key sequences differ are reported.
pub open spec fn key_mismatch() -> Seq<char> {
    "two Records combine only when their key sequences are equal"@
}

} // verus!
