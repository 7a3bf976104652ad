//! Exact rationals with a positive denominator, built in lowest terms, numerator
//! and denominator each within 64 bits (the numerator never `i64::MIN`, so
//! negation always fits); arithmetic whose result would leave that range,
//! or that divides by zero, answers `None`.
use num_integer::Integer;
use vstd::arithmetic::div_mod::{lemma_fundamental_div_mod, lemma_mod_multiples_basic, lemma_mod_pos_bound};
use vstd::prelude::*;

verus! {

/// Greatest common divisor of two naturals, by Euclid's recurrence.
pub open spec fn spec_gcd(a: nat, b: nat) -> nat
    decreases b,
{
    if b == 0 {
        a
    } else {
        spec_gcd(b, a % b)
    }
}

pub open spec fn abs_int(x: int) -> int {
    if x < 0 {
        -x
    } else {
        x
    }
}

/// `g` divides `a` (for a positive `g`).
pub open spec fn divides(g: int, a: int) -> bool {
    g > 0 && a % g == 0
}

proof fn lemma_divides_combination(g: int, b: int, q: int, r: int, a: int)
    requires
        divides(g, b),
        divides(g, r),
        a == b * q + r,
    ensures
        divides(g, a),
{
    lemma_fundamental_div_mod(b, g);
    lemma_fundamental_div_mod(r, g);
    let kb = b / g;
    let kr = r / g;
    assert(b == g * kb);
    assert(r == g * kr);
    assert(a == (kb * q + kr) * g) by (nonlinear_arith)
        requires
            a == b * q + r,
            b == g * kb,
            r == g * kr,
    ;
    lemma_mod_multiples_basic(kb * q + kr, g);
}

/// The gcd of two naturals (not both zero) is positive and divides both.
pub proof fn lemma_gcd_divides(a: nat, b: nat)
    requires
        a > 0 || b > 0,
    ensures
        spec_gcd(a, b) > 0,
        divides(spec_gcd(a, b) as int, a as int),
        divides(spec_gcd(a, b) as int, b as int),
    decreases b,
{
    if b == 0 {
        assert((a as int) % (a as int) == 0) by {
            lemma_mod_multiples_basic(1, a as int);
        }
        assert((0int) % (a as int) == 0) by {
            lemma_mod_multiples_basic(0, a as int);
        }
    } else {
        lemma_mod_pos_bound(a as int, b as int);
        let r = (a % b) as nat;
        lemma_gcd_divides(b, r);
        let g = spec_gcd(b, r);
        lemma_fundamental_div_mod(a as int, b as int);
        lemma_divides_combination(g as int, b as int, (a / b) as int, r as int, a as int);
    }
}

/// A rational number `numerator / denominator`, kept with a positive
/// denominator and reduced by the gcd of its parts when it is built.
#[derive(Clone, Copy, Debug, PartialEq, Eq, Structural)]
pub struct Fraction {
    numerator: i64,
    denominator: i64,
}

/// The sign-normalised, gcd-reduced parts of `n / d`.
pub open spec fn reduced_parts(n: int, d: int) -> (int, int) {
    let an = abs_int(n);
    let ad = abs_int(d);
    let g = spec_gcd(an as nat, ad as nat) as int;
    let nn = an / g;
    let dd = ad / g;
    let negative = (n < 0) != (d < 0);
    (if negative {
        -nn
    } else {
        nn
    }, dd)
}

pub open spec fn fits_i64_parts(p: (int, int)) -> bool {
    -(i64::MAX as int) <= p.0 <= i64::MAX && 0 < p.1 <= i64::MAX
}

impl Fraction {
    #[verifier::type_invariant]
    spec fn inv(self) -> bool {
        self.denominator > 0 && self.numerator > i64::MIN
    }

    pub closed spec fn num(self) -> int {
        self.numerator as int
    }

    pub closed spec fn den(self) -> int {
        self.denominator as int
    }

    /// Brings the representation bounds of this fraction into the proof
    /// context; it computes nothing.
    pub fn bounds(&self)
        ensures
            self.den() > 0,
            self.num() > i64::MIN,
            self.den() <= i64::MAX,
            self.num() <= i64::MAX,
    {
        proof {
            use_type_invariant(self);
        }
    }

    /// The two fractions denote the same rational number.
    pub open spec fn same_rational(self, other: Fraction) -> bool {
        self.num() * other.den() == other.num() * self.den()
    }

    /// `self < other` as rationals.
    pub open spec fn less_than(self, other: Fraction) -> bool {
        self.num() * other.den() < other.num() * self.den()
    }

    pub open spec fn is_zero_spec(self) -> bool {
        self.num() == 0
    }

    pub fn numerator(&self) -> (r: i64)
        ensures
            r == self.num(),
            r > i64::MIN,
    {
        proof {
            use_type_invariant(self);
        }
        self.numerator
    }

    pub fn denominator(&self) -> (r: i64)
        ensures
            r == self.den(),
            r > 0,
    {
        proof {
            use_type_invariant(self);
        }
        self.denominator
    }

    /// The integer `n` as a fraction `n / 1`.
    pub fn from_int(n: i64) -> (r: Option<Fraction>)
        ensures
            r matches Some(f) ==> f.num() == n && f.den() == 1,
            r is None <==> n == i64::MIN,
    {
        if n == i64::MIN {
            None
        } else {
            Some(Fraction { numerator: n, denominator: 1 })
        }
    }

    /// The fraction `n / d`, reduced and with a positive denominator; `None`
    /// when the reduced parts do not fit the library's 64-bit range.
    pub fn new(n: i64, d: i64) -> (r: Option<Fraction>)
        requires
            d != 0,
        ensures
            r is Some <==> fits_i64_parts(reduced_parts(n as int, d as int)),
            r matches Some(f) ==> (f.num(), f.den()) == reduced_parts(n as int, d as int),
            r matches Some(f) ==> f.num() * d == n * f.den(),
    {
        reduce(n as i128, d as i128)
    }

    pub fn is_zero(&self) -> (r: bool)
        ensures
            r == self.is_zero_spec(),
    {
        self.numerator == 0
    }

    pub fn is_integer(&self) -> (r: bool)
        ensures
            r == (self.den() == 1),
    {
        self.denominator == 1
    }

    /// Exact rational equality.
    pub fn eq_value(&self, other: &Fraction) -> (r: bool)
        ensures
            r == self.same_rational(*other),
    {
        proof {
            use_type_invariant(self);
            use_type_invariant(other);
            bound_product(self.numerator as int, other.denominator as int);
            bound_product(other.numerator as int, self.denominator as int);
        }
        (self.numerator as i128) * (other.denominator as i128) == (other.numerator as i128) * (
        self.denominator as i128)
    }

    /// Exact rational order: `self < other`.
    pub fn lt(&self, other: &Fraction) -> (r: bool)
        ensures
            r == self.less_than(*other),
    {
        proof {
            use_type_invariant(self);
            use_type_invariant(other);
            bound_product(self.numerator as int, other.denominator as int);
            bound_product(other.numerator as int, self.denominator as int);
        }
        (self.numerator as i128) * (other.denominator as i128) < (other.numerator as i128) * (
        self.denominator as i128)
    }

    /// The additive inverse, as a fraction.
    /// The fraction with these parts.
    pub closed spec fn from_parts(p: (int, int)) -> Fraction {
        Fraction { numerator: p.0 as i64, denominator: p.1 as i64 }
    }

    /// A fraction is the one its parts build.
    pub proof fn lemma_from_parts(f: Fraction)
        ensures
            Fraction::from_parts((f.num(), f.den())) == f,
    {
    }

    pub closed spec fn negated(self) -> Fraction {
        Fraction { numerator: (-self.numerator) as i64, denominator: self.denominator }
    }

    /// The additive inverse; always representable.
    pub fn neg(&self) -> (r: Fraction)
        ensures
            r.num() == -self.num(),
            r.den() == self.den(),
            r == self.negated(),
    {
        proof {
            use_type_invariant(self);
        }
        Fraction { numerator: -self.numerator, denominator: self.denominator }
    }

    pub fn add(&self, other: &Fraction) -> (r: Option<Fraction>)
        ensures
            ({
                let n = self.num() * other.den() + other.num() * self.den();
                let d = self.den() * other.den();
                &&& r is Some <==> fits_i64_parts(reduced_parts(n, d))
                &&& r matches Some(f) ==> (f.num(), f.den()) == reduced_parts(n, d)
                &&& r matches Some(f) ==> f.num() * d == n * f.den()
            }),
    {
        proof {
            use_type_invariant(self);
            use_type_invariant(other);
        }
        let a = self.numerator as i128;
        let b = self.denominator as i128;
        let c = other.numerator as i128;
        let e = other.denominator as i128;
        proof {
            bound_product(a as int, e as int);
            bound_product(c as int, b as int);
            bound_product(b as int, e as int);
            positive_product(b as int, e as int);
        }
        reduce(a * e + c * b, b * e)
    }

    pub fn sub(&self, other: &Fraction) -> (r: Option<Fraction>)
        ensures
            ({
                let n = self.num() * other.den() - other.num() * self.den();
                let d = self.den() * other.den();
                &&& r is Some <==> fits_i64_parts(reduced_parts(n, d))
                &&& r matches Some(f) ==> (f.num(), f.den()) == reduced_parts(n, d)
                &&& r matches Some(f) ==> f.num() * d == n * f.den()
            }),
    {
        proof {
            use_type_invariant(self);
            use_type_invariant(other);
        }
        let a = self.numerator as i128;
        let b = self.denominator as i128;
        let c = other.numerator as i128;
        let e = other.denominator as i128;
        proof {
            bound_product(a as int, e as int);
            bound_product(c as int, b as int);
            bound_product(b as int, e as int);
            positive_product(b as int, e as int);
        }
        reduce(a * e - c * b, b * e)
    }

    pub fn mul(&self, other: &Fraction) -> (r: Option<Fraction>)
        ensures
            ({
                let n = self.num() * other.num();
                let d = self.den() * other.den();
                &&& r is Some <==> fits_i64_parts(reduced_parts(n, d))
                &&& r matches Some(f) ==> (f.num(), f.den()) == reduced_parts(n, d)
                &&& r matches Some(f) ==> f.num() * d == n * f.den()
            }),
    {
        proof {
            use_type_invariant(self);
            use_type_invariant(other);
        }
        let a = self.numerator as i128;
        let b = self.denominator as i128;
        let c = other.numerator as i128;
        let e = other.denominator as i128;
        proof {
            bound_product(a as int, c as int);
            bound_product(b as int, e as int);
            positive_product(b as int, e as int);
        }
        reduce(a * c, b * e)
    }

    pub fn div(&self, other: &Fraction) -> (r: Option<Fraction>)
        requires
            !other.is_zero_spec(),
        ensures
            ({
                let n = self.num() * other.den();
                let d = self.den() * other.num();
                &&& r is Some <==> fits_i64_parts(reduced_parts(n, d))
                &&& r matches Some(f) ==> (f.num(), f.den()) == reduced_parts(n, d)
                &&& r matches Some(f) ==> f.num() * d == n * f.den()
            }),
    {
        proof {
            use_type_invariant(self);
            use_type_invariant(other);
        }
        let a = self.numerator as i128;
        let b = self.denominator as i128;
        let c = other.numerator as i128;
        let e = other.denominator as i128;
        proof {
            bound_product(a as int, e as int);
            bound_product(b as int, c as int);
            assert(b * c != 0) by (nonlinear_arith)
                requires
                    b > 0,
                    c != 0,
            ;
        }
        reduce(a * e, b * c)
    }
}

proof fn positive_product(x: int, y: int)
    requires
        x > 0,
        y > 0,
    ensures
        x * y > 0,
{
    assert(x * y > 0) by (nonlinear_arith)
        requires
            x > 0,
            y > 0,
    ;
}

proof fn bound_product(x: int, y: int)
    requires
        -0x7fff_ffff_ffff_ffff <= x <= 0x7fff_ffff_ffff_ffff,
        -0x7fff_ffff_ffff_ffff <= y <= 0x7fff_ffff_ffff_ffff,
    ensures
        -0x3fff_ffff_ffff_ffff_ffff_ffff_ffff_ffff <= x * y <= 0x3fff_ffff_ffff_ffff_ffff_ffff_ffff_ffff,
{
    assert(-0x3fff_ffff_ffff_ffff_ffff_ffff_ffff_ffff <= x * y <= 0x3fff_ffff_ffff_ffff_ffff_ffff_ffff_ffff)
        by (nonlinear_arith)
        requires
            -0x7fff_ffff_ffff_ffff <= x <= 0x7fff_ffff_ffff_ffff,
            -0x7fff_ffff_ffff_ffff <= y <= 0x7fff_ffff_ffff_ffff,
    ;
}

/// `Integer::gcd` of num-integer on `i128`: the non-negative greatest common
/// divisor of the absolute values of its operands.
#[verifier::external_body]
fn gcd_i128(a: i128, b: i128) -> (g: i128)
    requires
        a > i128::MIN,
        b > i128::MIN,
    ensures
        g == spec_gcd(abs_int(a as int) as nat, abs_int(b as int) as nat),
{
    a.gcd(&b)
}

proof fn lemma_reduce_parts(n: int, d: int, g: int, nn: int, dd: int)
    requires
        d != 0,
        g == spec_gcd(abs_int(n) as nat, abs_int(d) as nat) as int,
        nn == abs_int(n) / g,
        dd == abs_int(d) / g,
    ensures
        g > 0,
        nn * g == abs_int(n),
        dd * g == abs_int(d),
        dd > 0,
        nn >= 0,
        nn <= abs_int(n),
        dd <= abs_int(d),
{
    lemma_gcd_divides(abs_int(n) as nat, abs_int(d) as nat);
    lemma_fundamental_div_mod(abs_int(n) as int, g);
    lemma_fundamental_div_mod(abs_int(d) as int, g);
    assert(nn * g == abs_int(n)) by (nonlinear_arith)
        requires
            abs_int(n) as int == g * (abs_int(n) as int / g) + (abs_int(n) as int % g),
            abs_int(n) as int % g == 0,
            nn == abs_int(n) as int / g,
    ;
    assert(dd * g == abs_int(d)) by (nonlinear_arith)
        requires
            abs_int(d) as int == g * (abs_int(d) as int / g) + (abs_int(d) as int % g),
            abs_int(d) as int % g == 0,
            dd == abs_int(d) as int / g,
    ;
    assert(dd > 0 && nn >= 0 && nn <= abs_int(n) && dd <= abs_int(d)) by (nonlinear_arith)
        requires
            nn * g == abs_int(n),
            dd * g == abs_int(d),
            g > 0,
            abs_int(d) > 0,
    ;
}

/// Reduce `n / d` (with `d != 0`) to lowest terms with a positive denominator.
fn reduce(n: i128, d: i128) -> (r: Option<Fraction>)
    requires
        d != 0,
        -0x7fff_ffff_ffff_ffff_ffff_ffff_ffff_fffe <= n <= 0x7fff_ffff_ffff_ffff_ffff_ffff_ffff_fffe,
        -0x3fff_ffff_ffff_ffff_ffff_ffff_ffff_ffff <= d <= 0x3fff_ffff_ffff_ffff_ffff_ffff_ffff_ffff,
    ensures
        r is Some <==> fits_i64_parts(reduced_parts(n as int, d as int)),
        r matches Some(f) ==> (f.num(), f.den()) == reduced_parts(n as int, d as int),
        r matches Some(f) ==> f.num() * d == n * f.den(),
{
    let g = gcd_i128(n, d);
    let an: i128 = if n < 0 {
        -n
    } else {
        n
    };
    let ad: i128 = if d < 0 {
        -d
    } else {
        d
    };
    proof {
        lemma_reduce_parts(n as int, d as int, g as int, an as int / g as int, ad as int / g as int);
    }
    let nn = an / g;
    let dd = ad / g;
    let negative = (n < 0) != (d < 0);
    if nn > i64::MAX as i128 || dd > i64::MAX as i128 {
        return None;
    }
    let num: i64 = if negative {
        -(nn as i64)
    } else {
        nn as i64
    };
    let den: i64 = dd as i64;
    proof {
        let ni = n as int;
        let di = d as int;
        let gi = g as int;
        let nni = nn as int;
        let ddi = dd as int;
        let numi = num as int;
        assert(numi * di == ni * ddi) by (nonlinear_arith)
            requires
                nni * gi == abs_int(ni),
                ddi * gi == abs_int(di),
                gi > 0,
                numi == (if negative {
                    -nni
                } else {
                    nni
                }),
                negative == ((ni < 0) != (di < 0)),
                abs_int(ni) == (if ni < 0 {
                    -ni
                } else {
                    ni
                }),
                abs_int(di) == (if di < 0 {
                    -di
                } else {
                    di
                }),
        ;
    }
    Some(Fraction { numerator: num, denominator: den })
}

/// The four rational operations.
#[derive(Clone, Copy, Debug, PartialEq, Eq, Structural)]
pub enum ArithOp {
    Add,
    Sub,
    Mul,
    Div,
}

/// The unreduced numerator and denominator of `x op y`.
pub open spec fn arith_parts(op: ArithOp, x: Fraction, y: Fraction) -> (int, int) {
    match op {
        ArithOp::Add => (x.num() * y.den() + y.num() * x.den(), x.den() * y.den()),
        ArithOp::Sub => (x.num() * y.den() - y.num() * x.den(), x.den() * y.den()),
        ArithOp::Mul => (x.num() * y.num(), x.den() * y.den()),
        ArithOp::Div => (x.num() * y.den(), x.den() * y.num()),
    }
}

/// The reduced parts of `x op y` when they fit the 64-bit range.
pub open spec fn arith_result(op: ArithOp, x: Fraction, y: Fraction) -> Option<(int, int)> {
    let p = arith_parts(op, x, y);
    let q = reduced_parts(p.0, p.1);
    if fits_i64_parts(q) {
        Some(q)
    } else {
        None
    }
}

/// `x op y` as an exact rational; `None` when the reduced result does not
/// fit the 64-bit range.
pub fn apply_arith(op: ArithOp, x: &Fraction, y: &Fraction) -> (r: Option<Fraction>)
    requires
        op == ArithOp::Div ==> !y.is_zero_spec(),
    ensures
        r matches Some(f) ==> arith_result(op, *x, *y) == Some((f.num(), f.den())),
        r is None ==> arith_result(op, *x, *y) is None,
{
    match op {
        ArithOp::Add => x.add(y),
        ArithOp::Sub => x.sub(y),
        ArithOp::Mul => x.mul(y),
        ArithOp::Div => x.div(y),
    }
}

/// Fractions with the same parts are the same fraction.
/// A positive divisor of a positive number is no larger than it.
proof fn lemma_divisor_le(g: int, a: int)
    requires
        divides(g, a),
        a > 0,
    ensures
        g <= a,
{
    lemma_fundamental_div_mod(a, g);
    let k = a / g;
    assert(a == g * k);
    assert(g <= a) by (nonlinear_arith)
        requires
            a == g * k,
            g > 0,
            a > 0,
    ;
}

/// The greatest common divisor of two integers, non-negative (`0` for two
/// zeros).
pub fn gcd_int(a: i64, b: i64) -> (g: i64)
    requires
        a > i64::MIN,
        b > i64::MIN,
    ensures
        g as int == spec_gcd(abs_int(a as int) as nat, abs_int(b as int) as nat),
{
    let r = gcd_i128(a as i128, b as i128);
    proof {
        let aa = abs_int(a as int);
        let bb = abs_int(b as int);
        if aa > 0 || bb > 0 {
            lemma_gcd_divides(aa as nat, bb as nat);
            if aa > 0 {
                lemma_divisor_le(r as int, aa);
            } else {
                lemma_divisor_le(r as int, bb);
            }
        } else {
            assert(spec_gcd(0, 0) == 0);
        }
    }
    r as i64
}

/// The reduced parts of `n/d` denote `n/d`, with a positive denominator no
/// larger than `|d|`.
pub proof fn lemma_reduced_parts(n: int, d: int)
    requires
        d != 0,
    ensures
        reduced_parts(n, d).1 > 0,
        reduced_parts(n, d).1 <= abs_int(d),
        reduced_parts(n, d).0 * d == n * reduced_parts(n, d).1,
{
    let an = abs_int(n);
    let ad = abs_int(d);
    let g = spec_gcd(an as nat, ad as nat) as int;
    let nn = an / g;
    let dd = ad / g;
    lemma_reduce_parts(n, d, g, nn, dd);
    let p0 = reduced_parts(n, d).0;
    if (n < 0) != (d < 0) {
        assert(p0 == -nn);
        assert(p0 * d * g == n * dd * g) by (nonlinear_arith)
            requires
                p0 == -nn,
                nn * g == an,
                dd * g == ad,
                an == abs_int(n),
                ad == abs_int(d),
                (n < 0) != (d < 0),
        ;
    } else {
        assert(p0 == nn);
        assert(p0 * d * g == n * dd * g) by (nonlinear_arith)
            requires
                p0 == nn,
                nn * g == an,
                dd * g == ad,
                an == abs_int(n),
                ad == abs_int(d),
                (n < 0) == (d < 0),
        ;
    }
    assert(p0 * d == n * dd) by (nonlinear_arith)
        requires
            p0 * d * g == n * dd * g,
            g > 0,
    ;
}

impl Fraction {
    /// Parts that fit build a fraction with exactly those parts.
    pub proof fn lemma_from_parts_fits(p: (int, int))
        requires
            fits_i64_parts(p),
        ensures
            Fraction::from_parts(p).num() == p.0,
            Fraction::from_parts(p).den() == p.1,
    {
    }
}

} // verus!
