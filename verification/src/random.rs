//! `CSPRNG`: cryptographically secure random numbers as exact fractions.
//! `[ d ] [ n ] CSPRNG` gives `n` numbers `k/d` with `0 <= k < d`;
//! `[ n ] CSPRNG` uses the denominator `2^32`; a bare `CSPRNG` gives one.
use crate::error::AjisaiError;
use crate::interpreter::{ConsumptionMode, Interpreter, OperationTargetMode};
use crate::rational::{fits_i64_parts, lemma_reduced_parts, reduced_parts, Fraction};
use crate::value::{DataView, Value, ValueData, ValueView};
use vstd::prelude::*;

verus! {

#[verifier::external_type_specification]
#[verifier::external_body]
pub struct ExRandomError(getrandom::Error);

/// `getrandom::getrandom` on a fresh buffer of `n` bytes: the bytes the
/// system's random source wrote into it, or the source's failure. The bytes
/// themselves are chance; only their number is stated.
#[verifier::external_body]
fn fill_random(n: usize) -> (r: Result<Vec<u8>, getrandom::Error>)
    ensures
        r matches Ok(b) ==> b@.len() == n,
{
    let mut buf: Vec<u8> = vec![0u8; n];
    match getrandom::getrandom(buf.as_mut_slice()) {
        Ok(()) => Ok(buf),
        Err(e) => Err(e),
    }
}

/// The system's random source can answer a request for `n` bytes with
/// `bytes`.
pub closed spec fn from_random_source(n: usize, bytes: Seq<u8>) -> bool {
    exists|b: Vec<u8>| b@ == bytes && #[trigger] call_ensures(fill_random, (n,), Ok::<Vec<u8>, getrandom::Error>(b))
}

/// The default denominator, `2^32`.
pub const DEFAULT_DENOMINATOR: i64 = 4294967296;

/// The positive whole number a value denotes: a number, or a vector of
/// exactly one number.
pub open spec fn positive_int_of(v: ValueView) -> Option<int> {
    match v.data {
        DataView::Scalar(f) => if f.den() == 1 && f.num() > 0 {
            Some(f.num())
        } else {
            None
        },
        DataView::Vector(items) => if items.len() == 1 {
            match items[0].data {
                DataView::Scalar(f) => if f.den() == 1 && f.num() > 0 {
                    Some(f.num())
                } else {
                    None
                },
                _ => None,
            }
        } else {
            None
        },
        _ => None,
    }
}

fn positive_int_from(value: &Value) -> (r: Option<i64>)
    ensures
        match positive_int_of(value@) {
            Some(n) => r matches Some(x) && x as int == n,
            None => r is None,
        },
{
    match &value.data {
        ValueData::Scalar(f) => {
            f.bounds();
            if f.denominator() == 1 && f.numerator() > 0 {
                Some(f.numerator())
            } else {
                None
            }
        },
        ValueData::Vector(items) => {
            let elems = crate::value::copy_values(&**items);
            proof {
                crate::value::lemma_values_view(elems@);
            }
            if elems.len() == 1 {
                match &elems[0].data {
                    ValueData::Scalar(f) => {
                        f.bounds();
                        proof {
                            assert(elems@[0]@ == crate::value::values_view(elems@)[0]);
                        }
                        if f.denominator() == 1 && f.numerator() > 0 {
                            Some(f.numerator())
                        } else {
                            None
                        }
                    },
                    _ => {
                        proof {
                            assert(elems@[0]@ == crate::value::values_view(elems@)[0]);
                        }
                        None
                    },
                }
            } else {
                None
            }
        },
        _ => None,
    }
}

/// The denominator and count `CSPRNG` reads from a stack, and how many
/// values it takes off (under `KEEP`, none).
pub open spec fn csprng_args(s: Seq<Value>, keep: bool) -> (int, int, int) {
    if s.len() == 0 {
        (DEFAULT_DENOMINATOR as int, 1, 0)
    } else {
        match positive_int_of(s.last()@) {
            None => (DEFAULT_DENOMINATOR as int, 1, 0),
            Some(count) => if s.len() >= 2 && positive_int_of(s[s.len() - 2]@) is Some {
                (positive_int_of(s[s.len() - 2]@).unwrap(), count, if keep {
                    0
                } else {
                    2
                })
            } else {
                (DEFAULT_DENOMINATOR as int, count, if keep {
                    0
                } else {
                    1
                })
            },
        }
    }
}

/// Read the denominator and count, taking their operands off the stack
/// unless `keep`.
pub fn parse_csprng_args(stack: &mut Vec<Value>, keep: bool) -> (r: (i64, i64))
    ensures
        (r.0 as int, r.1 as int, old(stack)@.len() - final(stack)@.len()) == csprng_args(
            old(stack)@,
            keep,
        ),
        final(stack)@ == old(stack)@.subrange(0, final(stack)@.len() as int),
        r.0 > 0,
        r.1 > 0,
{
    let n = stack.len();
    let ghost s0 = stack@;
    if n == 0 {
        return (DEFAULT_DENOMINATOR, 1);
    }
    let count = match positive_int_from(&stack[n - 1]) {
        None => {
            proof {
                assert(stack@.subrange(0, n as int) =~= stack@);
            }
            return (DEFAULT_DENOMINATOR, 1);
        },
        Some(c) => c,
    };
    if n >= 2 {
        let second = positive_int_from(&stack[n - 2]);
        if let Some(d) = second {
            proof {
                assert(positive_int_of(s0[n - 2]@) == Some(d as int));
                assert(s0[s0.len() - 2] == s0[n - 2]);
            }
            if !keep {
                stack.truncate(n - 2);
            } else {
                proof {
                    assert(stack@.subrange(0, n as int) =~= stack@);
                }
            }
            return (d, count);
        }
    }
    if !keep {
        stack.truncate(n - 1);
    } else {
        proof {
            assert(stack@.subrange(0, n as int) =~= stack@);
        }
    }
    (DEFAULT_DENOMINATOR, count)
}

/// The number that `bytes` spell, least significant byte first.
pub open spec fn little_endian(bytes: Seq<u8>) -> nat
    decreases bytes.len(),
{
    if bytes.len() == 0 {
        0
    } else {
        bytes[0] as nat + 256 * little_endian(bytes.drop_first())
    }
}

proof fn lemma_mod_step(acc: int, x: int, b: int, d: int)
    requires
        d > 0,
        acc == x % d,
    ensures
        (acc * 256 + b) % d == (b + 256 * x) % d,
{
    vstd::arithmetic::div_mod::lemma_add_mod_noop_right(b, acc * 256, d);
    vstd::arithmetic::div_mod::lemma_mul_mod_noop_left(x, 256, d);
    vstd::arithmetic::div_mod::lemma_add_mod_noop_right(b, x * 256, d);
    assert(acc * 256 + b == b + acc * 256);
    assert(x * 256 == 256 * x);
}

/// `bytes`, read as a little-endian number, reduced modulo `d`.
pub fn uniform_below(bytes: &Vec<u8>, d: u64) -> (r: u64)
    requires
        d > 0,
    ensures
        r as nat == little_endian(bytes@) % (d as nat),
{
    let mut acc: u128 = 0;
    let mut i = bytes.len();
    proof {
        assert(bytes@.subrange(i as int, bytes@.len() as int).len() == 0);
        assert(little_endian(bytes@.subrange(i as int, bytes@.len() as int)) == 0);
        assert(0nat % (d as nat) == 0);
    }
    while i > 0
        invariant
            i <= bytes@.len(),
            acc < d,
            d > 0,
            acc as nat == little_endian(bytes@.subrange(i as int, bytes@.len() as int)) % (d as nat),
        decreases i,
    {
        let ghost tail = bytes@.subrange(i as int, bytes@.len() as int);
        i = i - 1;
        let ghost longer = bytes@.subrange(i as int, bytes@.len() as int);
        proof {
            assert(longer.drop_first() =~= tail);
            assert(longer[0] == bytes@[i as int]);
            lemma_mod_step(acc as int, little_endian(tail) as int, bytes@[i as int] as int, d as int);
        }
        acc = (acc * 256 + bytes[i] as u128) % (d as u128);
    }
    proof {
        assert(bytes@.subrange(0, bytes@.len() as int) =~= bytes@);
    }
    acc as u64
}

/// `f` is the fraction `k/d`.
#[verifier::opaque]
pub open spec fn is_fraction_of(f: Fraction, k: int, d: int) -> bool {
    f.num() * d == k * f.den()
}

/// A number `k/d` with `0 <= k < d`.
pub open spec fn is_draw(v: ValueView, d: int) -> bool {
    match v.data {
        DataView::Scalar(f) => exists|k: int| 0 <= k < d && #[trigger] is_fraction_of(f, k, d),
        _ => false,
    }
}

proof fn lemma_draw(v: ValueView, f: Fraction, k: int, d: int)
    requires
        v.data == DataView::Scalar(f),
        0 <= k < d,
        is_fraction_of(f, k, d),
    ensures
        is_draw(v, d),
{
    let g = v.data->Scalar_0;
    assert(g == f);
    assert(is_fraction_of(g, k, d));
}

/// A draw `k/d` with `0 <= k < d` always reduces to parts that fit.
proof fn lemma_draw_fits(k: int, d: int)
    requires
        0 <= k < d,
        d <= i64::MAX,
    ensures
        fits_i64_parts(reduced_parts(k, d)),
{
    lemma_reduced_parts(k, d);
    let (p0, p1) = reduced_parts(k, d);
    assert(0 <= p0 < p1) by (nonlinear_arith)
        requires
            p0 * d == k * p1,
            p1 > 0,
            0 <= k < d,
    ;
}

/// How many random bytes one draw reads.
pub const DRAW_BYTES: usize = 16;

/// `v` is the number `k/d` whose numerator `k` is `bytes`, read as a
/// little-endian number, reduced modulo `d`.
pub open spec fn drawn_from(v: ValueView, bytes: Seq<u8>, d: int) -> bool {
    v.data matches DataView::Scalar(f) && is_fraction_of(f, little_endian(bytes) as int % d, d)
}

/// Draws are read off their bytes: two draws below `d` that are equal came
/// from bytes with the same residue modulo `d`, so bytes with different
/// residues give different numbers.
pub proof fn law_draw_tracks_its_bytes(v: ValueView, w: ValueView, b: Seq<u8>, c: Seq<u8>, d: int)
    requires
        d > 0,
        drawn_from(v, b, d),
        drawn_from(w, c, d),
        v.data->Scalar_0.den() != 0,
        v == w,
    ensures
        little_endian(b) as int % d == little_endian(c) as int % d,
{
    reveal(is_fraction_of);
    let f = v.data->Scalar_0;
    let k1 = little_endian(b) as int % d;
    let k2 = little_endian(c) as int % d;
    assert(f.num() * d == k1 * f.den());
    assert(f.num() * d == k2 * f.den());
    assert(k1 == k2) by (nonlinear_arith)
        requires
            k1 * f.den() == k2 * f.den(),
            f.den() != 0,
    ;
}

/// `count` draws below `d`, each reading a fresh block of `DRAW_BYTES`
/// bytes from `source`: the `i`-th number is `k/d` with `k` the block,
/// read little-endian, modulo `d`. A failing source fails the whole draw.
pub fn draw_with<E, F: Fn(usize) -> Result<Vec<u8>, E>>(d: i64, count: i64, source: &F) -> (r: Result<Vec<Value>, AjisaiError>)
    requires
        d > 0,
        count > 0,
        forall|n: usize| call_requires(*source, (n,)),
    ensures
        r matches Ok(v) ==> v@.len() == count && forall|i: int|
            0 <= i < v@.len() ==> is_draw(#[trigger] v@[i]@, d as int) && exists|b: Vec<u8>|
                #[trigger] call_ensures(*source, (DRAW_BYTES,), Ok::<Vec<u8>, E>(b)) && drawn_from(v@[i]@, b@, d as int),
        r matches Err(e) ==> (e matches AjisaiError::Message(m) && m@ == "CSPRNG: failed to generate random bytes"@)
            && exists|x: E| #[trigger] call_ensures(*source, (DRAW_BYTES,), Err::<Vec<u8>, E>(x)),
{
    let mut out: Vec<Value> = Vec::new();
    let mut i: i64 = 0;
    while i < count
        invariant
            0 <= i <= count,
            d > 0,
            forall|n: usize| call_requires(*source, (n,)),
            out@.len() == i,
            forall|j: int|
                0 <= j < out@.len() ==> is_draw(#[trigger] out@[j]@, d as int) && exists|b: Vec<u8>|
                    #[trigger] call_ensures(*source, (DRAW_BYTES,), Ok::<Vec<u8>, E>(b)) && drawn_from(out@[j]@, b@, d as int),
        decreases count - i,
    {
        let got = source(DRAW_BYTES);
        let buf = match got {
            Ok(b) => b,
            Err(_) => {
                return Err(AjisaiError::message("CSPRNG: failed to generate random bytes"));
            },
        };
        let k = uniform_below(&buf, d as u64);
        assert(k < d);
        assert((k as i64) as int == k as int);
        proof {
            lemma_draw_fits(k as int, d as int);
        }
        let f = match Fraction::new(k as i64, d) {
            Some(f) => f,
            None => {
                return Err(AjisaiError::ArithmeticOverflow);
            },
        };
        let v = Value::from_fraction(f);
        proof {
            reveal(is_fraction_of);
            assert(is_fraction_of(f, k as int, d as int));
            assert(0 <= k as int && (k as int) < (d as int));
            assert(v@.data == DataView::Scalar(f));
            lemma_draw(v@, f, k as int, d as int);
            assert(drawn_from(v@, buf@, d as int));
        }
        out.push(v);
        proof {
            assert forall|j: int|
                0 <= j < out@.len() implies is_draw(#[trigger] out@[j]@, d as int) && exists|b: Vec<u8>|
                    #[trigger] call_ensures(*source, (DRAW_BYTES,), Ok::<Vec<u8>, E>(b)) && drawn_from(out@[j]@, b@, d as int) by {
                if j == out@.len() - 1 {
                    assert(out@[j] == v);
                    assert(call_ensures(*source, (DRAW_BYTES,), Ok::<Vec<u8>, E>(buf)));
                }
            }
        }
        i = i + 1;
    }
    Ok(out)
}

/// `count` draws below `d`, each from a fresh block of bytes of the
/// system's random source.
pub fn draw_fractions(d: i64, count: i64) -> (r: Result<Vec<Value>, AjisaiError>)
    requires
        d > 0,
        count > 0,
    ensures
        r matches Ok(v) ==> v@.len() == count && forall|i: int|
            0 <= i < v@.len() ==> is_draw(#[trigger] v@[i]@, d as int) && exists|b: Seq<u8>|
                #[trigger] from_random_source(DRAW_BYTES, b) && drawn_from(v@[i]@, b, d as int),
        r matches Err(e) ==> (e matches AjisaiError::Message(m) && m@ == "CSPRNG: failed to generate random bytes"@),
{
    let r = draw_with(d, count, &fill_random);
    proof {
        if r is Ok {
            let v = r->Ok_0;
            assert forall|i: int| 0 <= i < v@.len() implies is_draw(#[trigger] v@[i]@, d as int) && exists|b: Seq<u8>|
                #[trigger] from_random_source(DRAW_BYTES, b) && drawn_from(v@[i]@, b, d as int) by {
                let b = choose|b: Vec<u8>|
                    #[trigger] call_ensures(fill_random, (DRAW_BYTES,), Ok::<Vec<u8>, getrandom::Error>(b)) && drawn_from(v@[i]@, b@, d as int);
                assert(from_random_source(DRAW_BYTES, b@));
            }
        }
    }
    r
}

/// `CSPRNG`: push a vector of random fractions; the denominator and count
/// come off the stack as the module documentation says. The stack target
/// mode is refused.
pub fn op_csprng(interp: &mut Interpreter) -> (r: Result<(), AjisaiError>)
    ensures
        old(interp).operation_target_mode != OperationTargetMode::StackTop ==> (r matches Err(
            AjisaiError::ModeUnsupported { word, mode },
        ) && word@ == "CSPRNG"@ && mode@ == "Stack"@) && final(interp).stack == old(interp).stack,
        old(interp).operation_target_mode == OperationTargetMode::StackTop ==> {
            let (d, count, taken) = csprng_args(
                old(interp).stack@,
                old(interp).consumption_mode == ConsumptionMode::Keep,
            );
            let base = old(interp).stack@.subrange(0, old(interp).stack@.len() - taken);
            &&& r is Ok ==> final(interp).stack@.len() == base.len() + 1
                && final(interp).stack@.drop_last() == base
                && (final(interp).stack@.last()@.data matches DataView::Vector(items)
                && items.len() == count && forall|i: int| 0 <= i < items.len() ==> is_draw(#[trigger] items[i], d))
            &&& r is Err ==> final(interp).stack@ == base
            &&& r matches Err(e) ==> (e matches AjisaiError::Message(m) && m@ == "CSPRNG: failed to generate random bytes"@)
        },
{
    if interp.operation_target_mode != OperationTargetMode::StackTop {
        return Err(AjisaiError::ModeUnsupported { word: String::from_str("CSPRNG"), mode: String::from_str("Stack") });
    }
    let keep = interp.consumption_mode == ConsumptionMode::Keep;
    let (d, count) = parse_csprng_args(&mut interp.stack, keep);
    let values = match draw_fractions(d, count) {
        Ok(v) => v,
        Err(e) => return Err(e),
    };
    proof {
        crate::value::lemma_values_view(values@);
    }
    let ghost vs = values@;
    interp.stack.push(Value::from_vector(values));
    proof {
        let items = crate::value::values_view(vs);
        assert forall|i: int| 0 <= i < items.len() implies is_draw(#[trigger] items[i], d as int) by {
            assert(items[i] == vs[i]@);
        }
    }
    Ok(())
}

} // verus!
