use vstd::prelude::*;
use crate::rat::Rat;
use vstd::arithmetic::div_mod::{
    lemma_div_is_ordered, lemma_div_multiples_vanish, lemma_fundamental_div_mod,
    lemma_fundamental_div_mod_converse, lemma_mod_pos_bound,
};

verus! {

// The turtle's heading is an exact rational in degrees; its cosine and sine
// are computed in fixed point.  The angle is reduced into one quadrant by
// the usual symmetries and the rest is a truncated Taylor polynomial over
// `[0, 45]` degrees, evaluated in units of `1/POLY_SCALE` and rounded down
// to units of `1/TRIG_SCALE`.  Multiples of ninety degrees reduce to the
// polynomial at zero and so come out exact: cos 0 = 1, sin 0 = 0.

/// Denominator of every cosine or sine this module returns.
pub const TRIG_SCALE: i64 = 1_000_000_000;

/// Internal fixed-point scale of the polynomial evaluation.
pub const POLY_SCALE: u128 = 1_000_000_000_000_000_000;

/// pi as the numerator over 10^15.
pub const PI_NUM: u128 = 3_141_592_653_589_793;

/// Dividing scaled degrees by this turns them into radians in `POLY_SCALE`
/// units: `180 * 10^15 * TRIG_SCALE / POLY_SCALE`.
pub const RAD_DIV: u128 = 180_000_000;

/// A polynomial argument never exceeds pi/4 radians, with headroom.
pub const POLY_ARG_MAX: u128 = 800_000_000_000_000_000;

/// `POLY_SCALE / TRIG_SCALE`: scales a polynomial value down to the result.
pub const TRIG_DOWN: u128 = 1_000_000_000;

/// `x * x / POLY_SCALE`: the squared argument of the polynomials.
pub open spec fn poly_u(x: int) -> int {
    (x * x) / (POLY_SCALE as int)
}

/// Truncated cosine series in `POLY_SCALE` units:
/// `1 - u/2 (1 - u/12 (1 - u/30 (1 - u/56 (1 - u/90))))`.
pub open spec fn cos_poly(x: int) -> int {
    let f = POLY_SCALE as int;
    let u = poly_u(x);
    let c5 = f - u / 90;
    let c4 = f - (u * c5 / f) / 56;
    let c3 = f - (u * c4 / f) / 30;
    let c2 = f - (u * c3 / f) / 12;
    f - (u * c2 / f) / 2
}

/// Truncated sine series in `POLY_SCALE` units:
/// `x (1 - u/6 (1 - u/20 (1 - u/42 (1 - u/72))))`.
pub open spec fn sin_poly(x: int) -> int {
    let f = POLY_SCALE as int;
    let u = poly_u(x);
    let s4 = f - u / 72;
    let s3 = f - (u * s4 / f) / 42;
    let s2 = f - (u * s3 / f) / 20;
    let s1 = f - (u * s2 / f) / 6;
    (x * s1) / f
}

/// Scaled degrees turned into a polynomial argument in radians.
pub open spec fn x_of_tf(tf: int) -> int {
    (tf * (PI_NUM as int)) / (RAD_DIV as int)
}

/// Cosine and sine numerators (over `TRIG_SCALE`) of `t / d` degrees, for
/// an angle within the first quadrant; both are nonnegative.
pub open spec fn quarter_cos_sin(t: int, d: int) -> (int, int) {
    let s = TRIG_SCALE as int;
    let down = TRIG_DOWN as int;
    let tf = (t * s) / d;
    if tf <= 45 * s {
        let x = x_of_tf(tf);
        (cos_poly(x) / down, sin_poly(x) / down)
    } else {
        let x = x_of_tf(90 * s - tf);
        (sin_poly(x) / down, cos_poly(x) / down)
    }
}

/// Cosine and sine numerators (over `TRIG_SCALE`) of the angle `n / d`
/// degrees: the angle is reduced modulo 360 and folded into the first
/// quadrant with its signs.
pub open spec fn cos_sin_nums(n: int, d: int) -> (int, int) {
    let m = 360 * d;
    let u = n % m;
    if u < 90 * d {
        quarter_cos_sin(u, d)
    } else if u < 180 * d {
        let cs = quarter_cos_sin(180 * d - u, d);
        (-cs.0, cs.1)
    } else if u < 270 * d {
        let cs = quarter_cos_sin(u - 180 * d, d);
        (-cs.0, -cs.1)
    } else {
        let cs = quarter_cos_sin(360 * d - u, d);
        (cs.0, -cs.1)
    }
}

/// `a * b / POLY_SCALE` on fixed-point operands; no larger than `a`.
fn mulf(a: u128, b: u128) -> (r: u128)
    requires
        a <= POLY_SCALE,
        b <= POLY_SCALE,
    ensures
        r == (a as int * b as int) / (POLY_SCALE as int),
        r <= a,
{
    proof {
        let f: int = POLY_SCALE as int;
        assert(a as int * b as int <= a as int * f) by (nonlinear_arith)
            requires
                0 <= a as int,
                b as int <= f,
        ;
        lemma_div_is_ordered(a as int * b as int, a as int * f, f);
        lemma_div_multiples_vanish(a as int, f);
        assert(f * (a as int) == (a as int) * f) by (nonlinear_arith);
    }
    (a * b) / POLY_SCALE
}

/// The cosine polynomial, in `POLY_SCALE` units.
fn cos_poly_exec(x: u128) -> (r: u128)
    requires
        x <= POLY_ARG_MAX,
    ensures
        r == cos_poly(x as int),
        r <= POLY_SCALE,
{
    proof {
        assert(x as int * x as int <= 640_000_000_000_000_000_000_000_000_000_000_000int)
            by (nonlinear_arith)
            requires
                0 <= x as int <= 800_000_000_000_000_000int,
        ;
        lemma_div_is_ordered(
            x as int * x as int,
            640_000_000_000_000_000_000_000_000_000_000_000int,
            POLY_SCALE as int,
        );
    }
    let u: u128 = (x * x) / POLY_SCALE;
    proof {
        lemma_div_is_ordered(0, x as int * x as int, POLY_SCALE as int);
        lemma_div_is_ordered(u as int, POLY_SCALE as int, 90);
        lemma_div_is_ordered(u as int, POLY_SCALE as int, 56);
        lemma_div_is_ordered(u as int, POLY_SCALE as int, 30);
        lemma_div_is_ordered(u as int, POLY_SCALE as int, 12);
        lemma_div_is_ordered(u as int, POLY_SCALE as int, 2);
    }
    let c5 = POLY_SCALE - u / 90;
    let c4 = POLY_SCALE - mulf(u, c5) / 56;
    let c3 = POLY_SCALE - mulf(u, c4) / 30;
    let c2 = POLY_SCALE - mulf(u, c3) / 12;
    POLY_SCALE - mulf(u, c2) / 2
}

/// The sine polynomial, in `POLY_SCALE` units.
fn sin_poly_exec(x: u128) -> (r: u128)
    requires
        x <= POLY_ARG_MAX,
    ensures
        r == sin_poly(x as int),
        r <= POLY_SCALE,
{
    proof {
        assert(x as int * x as int <= 640_000_000_000_000_000_000_000_000_000_000_000int)
            by (nonlinear_arith)
            requires
                0 <= x as int <= 800_000_000_000_000_000int,
        ;
        lemma_div_is_ordered(
            x as int * x as int,
            640_000_000_000_000_000_000_000_000_000_000_000int,
            POLY_SCALE as int,
        );
    }
    let u: u128 = (x * x) / POLY_SCALE;
    proof {
        lemma_div_is_ordered(0, x as int * x as int, POLY_SCALE as int);
        lemma_div_is_ordered(u as int, POLY_SCALE as int, 72);
        lemma_div_is_ordered(u as int, POLY_SCALE as int, 42);
        lemma_div_is_ordered(u as int, POLY_SCALE as int, 20);
        lemma_div_is_ordered(u as int, POLY_SCALE as int, 6);
    }
    let s4 = POLY_SCALE - u / 72;
    let s3 = POLY_SCALE - mulf(u, s4) / 42;
    let s2 = POLY_SCALE - mulf(u, s3) / 20;
    let s1 = POLY_SCALE - mulf(u, s2) / 6;
    proof {
        assert(x as int * s1 as int <= POLY_SCALE as int * POLY_SCALE as int)
            by (nonlinear_arith)
            requires
                0 <= x as int <= POLY_SCALE as int,
                0 <= s1 as int <= POLY_SCALE as int,
        ;
    }
    (x * s1) / POLY_SCALE
}

/// Cosine and sine of `t / d` degrees within the first quadrant, as
/// numerators over `TRIG_SCALE`.
fn quarter_exec(t: u128, d: u128) -> (r: (u64, u64))
    requires
        0 < d <= 0x7fffffffffffffff,
        t <= 90 * d,
    ensures
        (r.0 as int, r.1 as int) == quarter_cos_sin(t as int, d as int),
        r.0 <= 1_000_000_000,
        r.1 <= 1_000_000_000,
{
    let s: u128 = TRIG_SCALE as u128;
    proof {
        assert(t as int * s as int <= (90 * d as int) * s as int
            <= 900_000_000_000_000_000_000_000_000_000int) by (nonlinear_arith)
            requires
                0 <= t as int <= 90 * d as int,
                0 < d as int <= 0x7fffffffffffffffint,
                s as int == 1_000_000_000int,
        ;
        lemma_div_is_ordered(t as int * s as int, (90 * d as int) * s as int, d as int);
        lemma_div_multiples_vanish(90 * s as int, d as int);
        assert((90 * d as int) * s as int == d as int * (90 * s as int)) by (nonlinear_arith);
        lemma_div_is_ordered(0, t as int * s as int, d as int);
    }
    let tf: u128 = (t * s) / d;
    if tf <= 45 * s {
        proof {
            assert(tf as int * PI_NUM as int <= 45_000_000_000int * PI_NUM as int)
                by (nonlinear_arith)
                requires
                    0 <= tf as int <= 45_000_000_000int,
            ;
            lemma_div_is_ordered(
                tf as int * PI_NUM as int,
                45_000_000_000int * PI_NUM as int,
                RAD_DIV as int,
            );
            lemma_div_is_ordered(0, tf as int * PI_NUM as int, RAD_DIV as int);
        }
        let x: u128 = (tf * PI_NUM) / RAD_DIV;
        let c = cos_poly_exec(x);
        let sn = sin_poly_exec(x);
        proof {
            lemma_div_is_ordered(c as int, POLY_SCALE as int, TRIG_DOWN as int);
            lemma_div_is_ordered(sn as int, POLY_SCALE as int, TRIG_DOWN as int);
            lemma_div_is_ordered(0, c as int, TRIG_DOWN as int);
            lemma_div_is_ordered(0, sn as int, TRIG_DOWN as int);
        }
        ((c / TRIG_DOWN) as u64, (sn / TRIG_DOWN) as u64)
    } else {
        let tf2: u128 = 90 * s - tf;
        proof {
            assert(tf2 as int * PI_NUM as int <= 45_000_000_000int * PI_NUM as int)
                by (nonlinear_arith)
                requires
                    0 <= tf2 as int <= 45_000_000_000int,
            ;
            lemma_div_is_ordered(
                tf2 as int * PI_NUM as int,
                45_000_000_000int * PI_NUM as int,
                RAD_DIV as int,
            );
            lemma_div_is_ordered(0, tf2 as int * PI_NUM as int, RAD_DIV as int);
        }
        let x: u128 = (tf2 * PI_NUM) / RAD_DIV;
        let c = cos_poly_exec(x);
        let sn = sin_poly_exec(x);
        proof {
            lemma_div_is_ordered(c as int, POLY_SCALE as int, TRIG_DOWN as int);
            lemma_div_is_ordered(sn as int, POLY_SCALE as int, TRIG_DOWN as int);
            lemma_div_is_ordered(0, c as int, TRIG_DOWN as int);
            lemma_div_is_ordered(0, sn as int, TRIG_DOWN as int);
        }
        ((sn / TRIG_DOWN) as u64, (c / TRIG_DOWN) as u64)
    }
}

/// The angle `n / d` reduced modulo 360 degrees: the numerator `u` with
/// `0 <= u < 360 d` and `u / d` equivalent to `n / d`.
fn reduce_deg(num: i64, den: i64) -> (u: u128)
    requires
        den > 0,
    ensures
        u == (num as int) % (360 * den as int),
        u < 360 * den as u128,
{
    let m: u128 = 360 * (den as u128);
    let ghost mi = 360 * den as int;
    if num >= 0 {
        let u = (num as u128) % m;
        proof {
            lemma_fundamental_div_mod(num as int, mi);
        }
        u
    } else {
        let mag: u128 = (-(num as i128)) as u128;
        let k = mag % m;
        proof {
            lemma_fundamental_div_mod(mag as int, mi);
        }
        if k == 0 {
            proof {
                let q0 = mag as int / mi;
                assert((-q0) * mi == -(q0 * mi)) by (nonlinear_arith);
                lemma_fundamental_div_mod_converse(num as int, mi, -q0, 0);
            }
            0
        } else {
            proof {
                let q0 = mag as int / mi;
                lemma_mod_pos_bound(mag as int, mi);
                assert((-q0 - 1) * mi == -(q0 * mi) - mi) by (nonlinear_arith);
                lemma_fundamental_div_mod_converse(num as int, mi, -q0 - 1, mi - k as int);
            }
            m - k
        }
    }
}

/// At multiples of ninety degrees the fixed-point trigonometry is exact:
/// the quadrant reduction maps them to the polynomials at zero, which
/// yield one and zero with no rounding at all.
pub proof fn lemma_right_angles_exact()
    ensures
        cos_sin_nums(0, 1) == (TRIG_SCALE as int, 0int),
        cos_sin_nums(90, 1) == (0int, TRIG_SCALE as int),
        cos_sin_nums(180, 1) == (-TRIG_SCALE as int, 0int),
        cos_sin_nums(270, 1) == (0int, -TRIG_SCALE as int),
        cos_sin_nums(-90, 1) == (0int, -TRIG_SCALE as int),
{
    assert(0int % 360 == 0);
    assert(90int % 360 == 90);
    assert(180int % 360 == 180);
    assert(270int % 360 == 270);
    assert((-90int) % 360 == 270);
    lemma_poly_at_zero();
    assert(quarter_cos_sin(0, 1) == (TRIG_SCALE as int, 0int));
    assert(quarter_cos_sin(90, 1) == (0int, TRIG_SCALE as int));
}

/// Both polynomials are exact at a zero argument.
proof fn lemma_poly_at_zero()
    ensures
        cos_poly(0) == POLY_SCALE as int,
        sin_poly(0) == 0,
        x_of_tf(0) == 0,
{
    let f = POLY_SCALE as int;
    assert(poly_u(0) == 0);
    assert(0int / 90 == 0 && 0int / 72 == 0);
    assert(0int * f == 0);
    assert(0int * (f - 0int / 6) == 0);
    assert((0int * (f - 0int / 6)) / f == 0);
}

/// The cosine and sine of the angle `a` in degrees, as exact rationals over
/// `TRIG_SCALE`, equal to the fixed-point model [`cos_sin_nums`].
pub fn rat_cos_sin(a: Rat) -> (r: (Rat, Rat))
    requires
        a.wf(),
    ensures
        r.0.wf() && r.1.wf(),
        r.0.den == TRIG_SCALE && r.1.den == TRIG_SCALE,
        (r.0.num as int, r.1.num as int) == cos_sin_nums(a.num as int, a.den as int),
        -TRIG_SCALE <= r.0.num <= TRIG_SCALE,
        -TRIG_SCALE <= r.1.num <= TRIG_SCALE,
{
    let d: u128 = a.den as u128;
    let u: u128 = reduce_deg(a.num, a.den);
    let (cn, sn): (i64, i64) = if u < 90 * d {
        let cs = quarter_exec(u, d);
        (cs.0 as i64, cs.1 as i64)
    } else if u < 180 * d {
        let cs = quarter_exec(180 * d - u, d);
        (-(cs.0 as i64), cs.1 as i64)
    } else if u < 270 * d {
        let cs = quarter_exec(u - 180 * d, d);
        (-(cs.0 as i64), -(cs.1 as i64))
    } else {
        let cs = quarter_exec(360 * d - u, d);
        (cs.0 as i64, -(cs.1 as i64))
    };
    (Rat { num: cn, den: TRIG_SCALE }, Rat { num: sn, den: TRIG_SCALE })
}

} // verus!
