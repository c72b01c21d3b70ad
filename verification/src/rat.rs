use vstd::prelude::*;

verus! {

/// An exact rational number `num / den` with `den > 0`.
///
/// This is the one numeric type of the interpreter: literals, expression
/// values, headings and canvas positions are all `Rat`s.  The lexer builds a
/// literal `d.f` as `(d * 10^k + f) / 10^k`, so representations are kept as
/// written and are not reduced by the arithmetic operations.  An operation
/// whose exact result no longer fits the machine words reports `None`, which
/// the evaluator turns into a runtime error.
#[derive(Debug, Clone, Copy, PartialEq, Eq, Structural)]
pub struct Rat {
    pub num: i64,
    pub den: i64,
}

/// The mathematical value of a rational, as an unbounded numerator and
/// denominator.  Contracts speak of these pairs, never of machine words.
pub ghost struct Q {
    pub n: int,
    pub d: int,
}

impl Rat {
    /// Well-formed: the denominator is positive.
    pub open spec fn wf(self) -> bool {
        self.den > 0
    }

    /// The unbounded value of this rational.
    pub open spec fn q(self) -> Q {
        Q { n: self.num as int, d: self.den as int }
    }

    /// The rational `n / 1`.
    pub fn from_int(n: i64) -> (r: Rat)
        ensures
            r.wf(),
            r.num == n,
            r.den == 1,
    {
        Rat { num: n, den: 1 }
    }

    /// The rational `num / den`; the denominator must be positive.
    pub fn new(num: i64, den: i64) -> (r: Rat)
        requires
            den > 0,
        ensures
            r.wf(),
            r.num == num,
            r.den == den,
    {
        Rat { num, den }
    }
}

impl Q {
    pub open spec fn wf(self) -> bool {
        self.d > 0
    }
}

pub open spec fn q_add(a: Q, b: Q) -> Q {
    Q { n: a.n * b.d + b.n * a.d, d: a.d * b.d }
}

pub open spec fn q_sub(a: Q, b: Q) -> Q {
    Q { n: a.n * b.d - b.n * a.d, d: a.d * b.d }
}

pub open spec fn q_mul(a: Q, b: Q) -> Q {
    Q { n: a.n * b.n, d: a.d * b.d }
}

pub open spec fn q_neg(a: Q) -> Q {
    Q { n: -a.n, d: a.d }
}

/// Division, with the sign moved into the numerator so that the result is
/// well-formed whenever `b.n != 0`.
pub open spec fn q_div(a: Q, b: Q) -> Q {
    if b.n >= 0 {
        Q { n: a.n * b.d, d: a.d * b.n }
    } else {
        Q { n: -(a.n * b.d), d: -(a.d * b.n) }
    }
}

/// Equality of values: `a.n / a.d == b.n / b.d` by cross-multiplication.
pub open spec fn q_eqv(a: Q, b: Q) -> bool {
    a.n * b.d == b.n * a.d
}

/// Order of values (for well-formed operands): `a < b` by cross-multiplication.
pub open spec fn q_lt(a: Q, b: Q) -> bool {
    a.n * b.d < b.n * a.d
}

pub open spec fn fits_i64(x: int) -> bool {
    i64::MIN <= x <= i64::MAX
}

pub open spec fn q_fits(a: Q) -> bool {
    fits_i64(a.n) && fits_i64(a.d)
}

/// The floor of `a`, clamped below at zero.  This is the iteration count of
/// `repeat` and the bound taken by `random`.
pub open spec fn q_floor_clamped(a: Q) -> int {
    if a.n <= 0 {
        0
    } else {
        a.n / a.d
    }
}

/// `x * y` does not overflow an `i128` when both factors are `i64` values.
proof fn lemma_wide_mul_bounds(x: int, y: int)
    requires
        i64::MIN <= x <= i64::MAX,
        i64::MIN <= y <= i64::MAX,
    ensures
        -0x40000000000000000000000000000000 <= x * y <= 0x40000000000000000000000000000000,
{
    assert(-0x40000000000000000000000000000000 <= x * y <= 0x40000000000000000000000000000000)
        by (nonlinear_arith)
        requires
            -0x8000000000000000 <= x <= 0x7fffffffffffffff,
            -0x8000000000000000 <= y <= 0x7fffffffffffffff,
    ;
}

/// Tighter bounds when the second factor is positive: two such products can
/// be added or subtracted in an `i128` without overflow.
proof fn lemma_wide_mul_pos_bounds(x: int, y: int)
    requires
        i64::MIN <= x <= i64::MAX,
        1 <= y <= i64::MAX,
    ensures
        -0x3FFFFFFFFFFFFFFF8000000000000000 <= x * y
            <= 0x3FFFFFFFFFFFFFFF0000000000000001,
{
    assert(-0x3FFFFFFFFFFFFFFF8000000000000000 <= x * y
        <= 0x3FFFFFFFFFFFFFFF0000000000000001) by (nonlinear_arith)
        requires
            -0x8000000000000000 <= x <= 0x7fffffffffffffff,
            1 <= y <= 0x7fffffffffffffff,
    ;
}

/// The product of two `i64` factors, computed exactly in an `i128`.
fn wide_mul(x: i64, y: i64) -> (r: i128)
    ensures
        r == x * y,
{
    proof {
        lemma_wide_mul_bounds(x as int, y as int);
    }
    (x as i128) * (y as i128)
}

/// The product of two positive factors is positive.
proof fn lemma_pos_mul(x: int, y: int)
    requires
        x > 0,
        y > 0,
    ensures
        x * y > 0,
{
    assert(x * y > 0) by (nonlinear_arith)
        requires
            x > 0,
            y > 0,
    ;
}

/// Narrow an exactly computed value back to a rational if it fits.
fn narrow(n: i128, d: i128) -> (r: Option<Rat>)
    requires
        d > 0,
    ensures
        r matches Some(v) ==> v.wf() && v.num == n && v.den == d,
        r is Some <==> fits_i64(n as int) && fits_i64(d as int),
{
    if n >= i64::MIN as i128 && n <= i64::MAX as i128 && d <= i64::MAX as i128 {
        Some(Rat { num: n as i64, den: d as i64 })
    } else {
        None
    }
}

/// Exact sum.  `None` exactly when the exact result does not fit.
pub fn rat_add(a: Rat, b: Rat) -> (r: Option<Rat>)
    requires
        a.wf(),
        b.wf(),
    ensures
        r matches Some(v) ==> v.wf() && v.q() == q_add(a.q(), b.q()),
        r is Some <==> q_fits(q_add(a.q(), b.q())),
{
    proof {
        lemma_wide_mul_pos_bounds(a.num as int, b.den as int);
        lemma_wide_mul_pos_bounds(b.num as int, a.den as int);
        lemma_pos_mul(a.den as int, b.den as int);
    }
    let n: i128 = wide_mul(a.num, b.den) + wide_mul(b.num, a.den);
    let d: i128 = wide_mul(a.den, b.den);
    narrow(n, d)
}

/// Exact difference.  `None` exactly when the exact result does not fit.
pub fn rat_sub(a: Rat, b: Rat) -> (r: Option<Rat>)
    requires
        a.wf(),
        b.wf(),
    ensures
        r matches Some(v) ==> v.wf() && v.q() == q_sub(a.q(), b.q()),
        r is Some <==> q_fits(q_sub(a.q(), b.q())),
{
    proof {
        lemma_wide_mul_pos_bounds(a.num as int, b.den as int);
        lemma_wide_mul_pos_bounds(b.num as int, a.den as int);
        lemma_pos_mul(a.den as int, b.den as int);
    }
    let n: i128 = wide_mul(a.num, b.den) - wide_mul(b.num, a.den);
    let d: i128 = wide_mul(a.den, b.den);
    narrow(n, d)
}

/// Exact product.  `None` exactly when the exact result does not fit.
pub fn rat_mul(a: Rat, b: Rat) -> (r: Option<Rat>)
    requires
        a.wf(),
        b.wf(),
    ensures
        r matches Some(v) ==> v.wf() && v.q() == q_mul(a.q(), b.q()),
        r is Some <==> q_fits(q_mul(a.q(), b.q())),
{
    let n: i128 = wide_mul(a.num, b.num);
    let d: i128 = wide_mul(a.den, b.den);
    proof {
        lemma_pos_mul(a.den as int, b.den as int);
    }
    narrow(n, d)
}

/// Exact negation.  `None` only for the one unrepresentable numerator.
pub fn rat_neg(a: Rat) -> (r: Option<Rat>)
    requires
        a.wf(),
    ensures
        r matches Some(v) ==> v.wf() && v.q() == q_neg(a.q()),
        r is Some <==> a.num != i64::MIN,
{
    if a.num == i64::MIN {
        None
    } else {
        Some(Rat { num: -a.num, den: a.den })
    }
}

/// Exact quotient; the divisor must be nonzero (the evaluator reports
/// division by zero before calling this).  `None` exactly when the exact
/// result does not fit.
pub fn rat_div(a: Rat, b: Rat) -> (r: Option<Rat>)
    requires
        a.wf(),
        b.wf(),
        b.num != 0,
    ensures
        r matches Some(v) ==> v.wf() && v.q() == q_div(a.q(), b.q()),
        r is Some <==> q_fits(q_div(a.q(), b.q())),
{
    let n: i128 = wide_mul(a.num, b.den);
    let d: i128 = wide_mul(a.den, b.num);
    if b.num >= 0 {
        proof {
            lemma_pos_mul(a.den as int, b.num as int);
        }
        narrow(n, d)
    } else {
        proof {
            lemma_wide_mul_bounds(a.num as int, b.den as int);
            lemma_wide_mul_bounds(a.den as int, b.num as int);
            lemma_pos_mul(a.den as int, -(b.num as int));
            assert(a.den as int * b.num as int == -(a.den as int * -(b.num as int)))
                by (nonlinear_arith);
        }
        narrow(-n, -d)
    }
}

/// Strict order of values; total, by cross-multiplication in wide words.
pub fn rat_lt(a: Rat, b: Rat) -> (r: bool)
    requires
        a.wf(),
        b.wf(),
    ensures
        r == q_lt(a.q(), b.q()),
{
    wide_mul(a.num, b.den) < wide_mul(b.num, a.den)
}

/// Equality of values; total, by cross-multiplication in wide words.
pub fn rat_eq_val(a: Rat, b: Rat) -> (r: bool)
    requires
        a.wf(),
        b.wf(),
    ensures
        r == q_eqv(a.q(), b.q()),
{
    wide_mul(a.num, b.den) == wide_mul(b.num, a.den)
}

/// Whether the value is zero.
pub fn rat_is_zero(a: Rat) -> (r: bool)
    requires
        a.wf(),
    ensures
        r == (a.num == 0),
{
    a.num == 0
}

/// Euclid's greatest common divisor; the measure of the cancellation the
/// reduced operations perform.
pub open spec fn gcd_nat(a: nat, b: nat) -> nat
    decreases b,
{
    if b == 0 {
        a
    } else {
        gcd_nat(b, a % b)
    }
}

fn gcd_u128(x: u128, y: u128) -> (g: u128)
    requires
        x > 0 || y > 0,
    ensures
        g >= 1,
        g == gcd_nat(x as nat, y as nat),
{
    let mut a = x;
    let mut b = y;
    while b != 0
        invariant
            a > 0 || b > 0,
            gcd_nat(a as nat, b as nat) == gcd_nat(x as nat, y as nat),
        decreases b,
    {
        let t = a % b;
        a = b;
        b = t;
    }
    a
}

/// The exact result of [`reduce_pair`]: the pair with the greatest common
/// divisor cancelled when that lands it in the machine words, else the
/// pair itself when it fits, else nothing.  The divisibility tests mirror
/// the run-time ones; with the true divisor they always hold.
pub open spec fn spec_reduce(n: int, d: int) -> Option<Rat> {
    let mag = if n < 0 {
        -n
    } else {
        n
    };
    let g = if mag == 0 {
        d
    } else {
        gcd_nat(mag as nat, d as nat) as int
    };
    let magr = mag / g;
    let dr = d / g;
    if magr * g == mag && dr * g == d && dr >= 1 && magr <= i64::MAX && dr <= i64::MAX {
        if n < 0 {
            Some(Rat { num: (-magr) as i64, den: dr as i64 })
        } else {
            Some(Rat { num: magr as i64, den: dr as i64 })
        }
    } else if i64::MIN <= n <= i64::MAX && d <= i64::MAX {
        Some(Rat { num: n as i64, den: d as i64 })
    } else {
        None
    }
}

/// The exact result of [`rat_add_reduced`].
pub open spec fn spec_add_reduced(a: Rat, b: Rat) -> Option<Rat> {
    spec_reduce(a.num * b.den + b.num * a.den, a.den * b.den)
}

/// The exact result of [`rat_mul_reduced`].
pub open spec fn spec_mul_reduced(a: Rat, b: Rat) -> Option<Rat> {
    spec_reduce(a.num * b.num, a.den * b.den)
}

/// Bring an exactly computed pair back into machine words, cancelling a
/// common factor if that makes it fit.  The value is preserved exactly;
/// `None` only when even the cancelled pair does not fit.
fn reduce_pair(n: i128, d: i128) -> (r: Option<Rat>)
    requires
        d > 0,
        n > i128::MIN,
    ensures
        r == spec_reduce(n as int, d as int),
        r matches Some(v) ==> v.wf() && q_eqv(v.q(), Q { n: n as int, d: d as int }),
        fits_i64(n as int) && fits_i64(d as int) ==> r is Some,
{
    let neg = n < 0;
    let mag: u128 = if neg {
        (-n) as u128
    } else {
        n as u128
    };
    let du: u128 = d as u128;
    let g: u128 = if mag == 0 {
        du
    } else {
        gcd_u128(mag, du)
    };
    let magr = mag / g;
    let dr = du / g;
    proof {
        vstd::arithmetic::div_mod::lemma_fundamental_div_mod(mag as int, g as int);
        vstd::arithmetic::div_mod::lemma_fundamental_div_mod(du as int, g as int);
        assert(magr as int * g as int == g as int * magr as int) by (nonlinear_arith);
        assert(dr as int * g as int == g as int * dr as int) by (nonlinear_arith);
    }
    if magr * g == mag && dr * g == du && dr >= 1 && magr <= (i64::MAX as u128) && dr <= (
    i64::MAX as u128) {
        if neg {
            proof {
                assert((-(magr as int)) * (d as int) == (n as int) * (dr as int))
                    by (nonlinear_arith)
                    requires
                        magr as int * g as int == mag as int,
                        dr as int * g as int == d as int,
                        mag as int == -(n as int),
                ;
            }
            Some(Rat { num: -(magr as i64), den: dr as i64 })
        } else {
            proof {
                assert((magr as int) * (d as int) == (n as int) * (dr as int))
                    by (nonlinear_arith)
                    requires
                        magr as int * g as int == mag as int,
                        dr as int * g as int == d as int,
                        mag as int == n as int,
                ;
            }
            Some(Rat { num: magr as i64, den: dr as i64 })
        }
    } else {
        if n >= (i64::MIN as i128) && n <= (i64::MAX as i128) && d <= (i64::MAX as i128) {
            Some(Rat { num: n as i64, den: d as i64 })
        } else {
            None
        }
    }
}

/// Sum, equal in value to the exact sum, with common factors cancelled so
/// that long chains of position updates stay within machine words.  `Some`
/// is guaranteed at least whenever the uncancelled exact sum fits.
pub fn rat_add_reduced(a: Rat, b: Rat) -> (r: Option<Rat>)
    requires
        a.wf(),
        b.wf(),
    ensures
        r == spec_add_reduced(a, b),
        r matches Some(v) ==> v.wf() && q_eqv(v.q(), q_add(a.q(), b.q())),
        q_fits(q_add(a.q(), b.q())) ==> r is Some,
{
    proof {
        lemma_wide_mul_pos_bounds(a.num as int, b.den as int);
        lemma_wide_mul_pos_bounds(b.num as int, a.den as int);
        lemma_pos_mul(a.den as int, b.den as int);
    }
    let n: i128 = wide_mul(a.num, b.den) + wide_mul(b.num, a.den);
    let d: i128 = wide_mul(a.den, b.den);
    reduce_pair(n, d)
}

/// Product, equal in value to the exact product, with common factors
/// cancelled; `Some` at least whenever the uncancelled product fits.
pub fn rat_mul_reduced(a: Rat, b: Rat) -> (r: Option<Rat>)
    requires
        a.wf(),
        b.wf(),
    ensures
        r == spec_mul_reduced(a, b),
        r matches Some(v) ==> v.wf() && q_eqv(v.q(), q_mul(a.q(), b.q())),
        q_fits(q_mul(a.q(), b.q())) ==> r is Some,
{
    proof {
        lemma_wide_mul_bounds(a.num as int, b.num as int);
        lemma_pos_mul(a.den as int, b.den as int);
    }
    let n: i128 = wide_mul(a.num, b.num);
    let d: i128 = wide_mul(a.den, b.den);
    reduce_pair(n, d)
}

/// The floor of `a`, clamped below at zero.
pub fn rat_floor_clamped(a: Rat) -> (r: u64)
    requires
        a.wf(),
    ensures
        r == q_floor_clamped(a.q()),
{
    if a.num <= 0 {
        0
    } else {
        (a.num as u64) / (a.den as u64)
    }
}

} // verus!
