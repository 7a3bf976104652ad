//! The verified core of a stack-language interpreter whose values are
//! 64-bit rationals, vectors, records and three-valued truth: its words, its
//! vocabulary and name resolution, its module imports, and the static
//! analyses of compiled code blocks.
use vstd::prelude::*;

pub mod error;
pub mod rational;
pub mod value;
pub mod kleene;
pub mod text;
pub mod naming;
pub mod order;
pub mod receipt;
pub mod interpreter;
pub mod plan;
pub mod quantized_block;
pub mod quantized_block_shape;
pub mod redundancy;
pub mod register_ops;
pub mod records;
pub mod record_ops;
pub mod ordering;
pub mod ordering_ops;
pub mod parallel;
pub mod in_place;
pub mod flow;
pub mod modules;
pub mod imports;
pub mod module_ops;
pub mod mass_conservation;
pub mod random;
pub mod quotation;
pub mod math_ops;
pub mod nil_diagnostics;
pub mod dictionary;
pub mod resolve;
pub mod vocabulary;
pub mod dependencies;
pub mod quantize;
pub mod unimport;
pub mod power_ops;
pub mod record_literal;

verus! {
} // verus!
