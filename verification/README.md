# ajisai

The verified core of a small stack language whose numbers are rationals
kept exactly while numerator and denominator fit in 64 bits; an operation
whose exact result would not fit reports an overflow instead of rounding. Every executable function in `src/` carries a `requires` /
`ensures` contract that Verus proves; the contracts speak of the views of the
values (`ValueView`, `Seq`, `Map`, `Set`) rather than of their storage.

## Layout

- `src/rational.rs`, `src/value.rs`, `src/records.rs`: exact fractions, values
  and records, with the views the contracts use.
- `src/kleene.rs`: three-valued logic and its laws.
- `src/interpreter.rs`: the interpreter state the words read and change.
- Words: `record_ops`, `record_literal`, `ordering_ops`, `math_ops`,
  `power_ops`, `quantize`, `register_ops`, `nil_diagnostics`, `random`,
  `quotation`.
- Vocabulary: `dictionary`, `resolve` (name resolution and its cache),
  `vocabulary`, `dependencies`, `modules`, `imports`, `module_ops`,
  `unimport`.
- Static analyses of compiled blocks: `plan`, `quantized_block`,
  `quantized_block_shape`, `mass_conservation`, `redundancy`, `flow`,
  `in_place`, `parallel`.
- `tests/`: ordinary Rust tests run against the compiled library.
- `app/`: the unverified shell around the library (thread scheduling for the
  parallel kernels).

The public proof functions named `law_*` state the properties that hold across
calls (record reads after writes, cache invalidation by epoch, the lattice laws
of the three-valued logic, the rounding law of `QUANTIZE`, ...).

## Trusted items

The few calls into outside code are wrappers marked
`#[verifier::external_body]`, each with a doc comment naming the function it
calls: `num_integer::Integer::gcd`, `getrandom::getrandom`, `Rc::clone`,
`Rc::strong_count` and `str::to_uppercase`.
