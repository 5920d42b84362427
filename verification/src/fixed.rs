//! Thousandths rendered with a fixed number of decimal places, as a double-precision division by a
//! thousand would round them.
use crate::text::dec;
use vstd::prelude::*;

verus! {

/// Two to the power of 52, the smallest significand of a normal double.
pub const SIG: u128 = 0x10_0000_0000_0000;

/// The integer nearest to `a / b`; of two equally near ones the even one.
pub open spec fn half_even(a: nat, b: nat) -> nat {
    let q = a / b;
    let r = a % b;
    if 2 * r < b {
        q
    } else if 2 * r > b {
        q + 1
    } else {
        q + q % 2
    }
}

/// The spacing of doubles around the integer `n`, at least one.
pub open spec fn spacing(n: nat) -> nat
    decreases n,
{
    if n < 2 * SIG {
        1
    } else {
        2 * spacing(n / 2)
    }
}

/// A thousand times the smallest significand.
pub const LOW: u128 = 0x10_0000_0000_0000 * 1000;

/// The power of two that lifts `num` to at least `LOW`, or one if it is there or zero.
pub open spec fn lift(num: nat) -> nat
    decreases
            (if num < LOW {
                LOW - num
            } else {
                0
            }),
{
    if num == 0 || num >= LOW {
        1
    } else {
        2 * lift(2 * num)
    }
}

/// The power of two that lowers a number below `2^65` to less than twice `LOW`, or one if it is
/// there.
pub open spec fn lower(num: nat) -> nat {
    if num < 2 * LOW {
        1
    } else if num < 4 * LOW {
        2
    } else if num < 8 * LOW {
        4
    } else {
        8
    }
}

/// The number `n` as a double.
pub open spec fn as_double(n: nat) -> nat {
    half_even(n, spacing(n)) * spacing(n)
}

/// `n` as a double, divided by a thousand in double precision, times `scale`, rounded to the nearest
/// integer with ties to even.
pub open spec fn scaled(n: nat, scale: nat) -> nat {
    let d = as_double(n);
    let up = lift(d);
    let down = lower(d);
    let significand = half_even(d * up, 1000 * down);
    half_even(significand * down * scale, up)
}

fn round_div(a: u128, b: u128) -> (r: u128)
    requires
        0 < b < 0x8000_0000_0000_0000_0000_0000_0000_0000,
    ensures
        r == half_even(a as nat, b as nat),
        r <= a / b + 1,
{
    let q: u128 = a / b;
    let m: u128 = a % b;
    if 2 * m < b {
        q
    } else if 2 * m > b {
        assert(q < u128::MAX) by (nonlinear_arith)
            requires
                q == a as int / b as int,
                2 * m > b,
                m == a as int % b as int,
                b > 0,
                a <= u128::MAX,
        ;
        q + 1
    } else {
        assert(q < u128::MAX) by (nonlinear_arith)
            requires
                q == a as int / b as int,
                2 * m == b,
                m == a as int % b as int,
                b > 0,
                a <= u128::MAX,
        ;
        q + q % 2
    }
}

/// The spacing lies between `n / 2^53` and `n / 2^52`.
proof fn lemma_spacing_tight(n: nat)
    ensures
        spacing(n) >= 1,
        n < 2 * SIG * spacing(n),
        spacing(n) > 1 ==> SIG * spacing(n) <= n,
    decreases n,
{
    if n >= 2 * SIG {
        lemma_spacing_tight(n / 2);
        let s = spacing(n / 2);
        assert(n < 2 * SIG * (2 * s)) by (nonlinear_arith)
            requires
                n / 2 < 2 * SIG * s,
        ;
        assert(SIG * (2 * s) <= n) by (nonlinear_arith)
            requires
                s > 1 ==> SIG * s <= n / 2,
                s >= 1,
                n >= 2 * SIG,
        ;
    }
}

/// The value of `n` as a double.
fn to_double(n: u64) -> (d: u128)
    ensures
        d == as_double(n as nat),
        d <= 2 * n,
{
    let mut unit: u128 = 1;
    let mut rest: u128 = n as u128;
    while rest >= 0x20_0000_0000_0000
        invariant
            spacing(n as nat) == unit * spacing(rest as nat),
            1 <= unit,
            unit == 1 || unit <= n,
            unit * rest <= n,
        decreases rest,
    {
        assert(unit * 2 * (rest as int / 2) <= n && unit * 2 <= n) by (nonlinear_arith)
            requires
                unit * rest <= n,
                rest >= 2,
                unit >= 1,
        ;
        assert(unit * (2 * spacing((rest / 2) as nat)) == unit * 2 * spacing((rest / 2) as nat))
            by (nonlinear_arith);
        unit = unit * 2;
        rest = rest / 2;
    }
    assert(unit * spacing(rest as nat) == unit) by (nonlinear_arith)
        requires
            spacing(rest as nat) == 1,
    ;
    let q = round_div(n as u128, unit);
    proof {
        assert(half_even(n as nat, 1) == n);
        lemma_spacing_tight(n as nat);
        assert(q * unit <= 2 * n) by (nonlinear_arith)
            requires
                q <= n as int / unit as int + 1,
                unit > 0,
                unit > 1 ==> SIG * unit <= n,
                unit == 1 ==> q == n as int,
        ;
    }
    q * unit
}

/// A number of thousandths divided by a thousand in double precision and scaled.
pub fn scale_thousandths(n: u64, scale: u64) -> (r: u128)
    requires
        1 <= scale <= 1000,
    ensures
        r == scaled(n as nat, scale as nat),
{
    let d = to_double(n);
    let ghost dd = d as nat;
    assert(dd <= 0x1_ffff_ffff_ffff_fffe);
    let mut up: u128 = 1;
    let mut num: u128 = d;
    while num != 0 && num < LOW
        invariant
            dd == d,
            dd <= 0x1_ffff_ffff_ffff_fffe,
            1 <= up,
            num == d * up,
            lift(dd) == up * lift(num as nat),
            up > 1 ==> num < 2 * LOW && num > 0,
            num <= 0x1_ffff_ffff_ffff_fffe,
        decreases
                (if num < LOW {
                    LOW - num
                } else {
                    0
                }),
    {
        assert(up <= num) by (nonlinear_arith)
            requires
                num == d * up,
                num != 0,
                d >= 0,
                up >= 1,
        ;
        assert(up * (2 * lift((2 * num) as nat)) == up * 2 * lift((2 * num) as nat))
            by (nonlinear_arith);
        assert(d * (up * 2) == 2 * num) by (nonlinear_arith)
            requires
                num == d * up,
        ;
        up = up * 2;
        num = num * 2;
    }
    assert(up * lift(num as nat) == up) by (nonlinear_arith)
        requires
            lift(num as nat) == 1,
    ;
    let down: u128 = if d < 2 * LOW {
        1
    } else if d < 4 * LOW {
        2
    } else if d < 8 * LOW {
        4
    } else {
        8
    };
    let significand = round_div(num, 1000 * down);
    assert(significand <= 0x1_ffff_ffff_ffff_ffff);
    assert(significand * down <= 0x1_ffff_ffff_ffff_ffff * 8) by (nonlinear_arith)
        requires
            significand <= 0x1_ffff_ffff_ffff_ffff,
            down <= 8,
    ;
    assert(significand * down * scale <= 0x1_ffff_ffff_ffff_ffff * 8 * 1000) by (nonlinear_arith)
        requires
            significand * down <= 0x1_ffff_ffff_ffff_ffff * 8,
            scale <= 1000,
    ;
    assert(up < 2 * LOW) by {
        if up > 1 {
            assert(up <= num) by (nonlinear_arith)
                requires
                    num == d * up,
                    num > 0,
                    up >= 1,
            ;
        }
    }
    round_div(significand * down * (scale as u128), up)
}

/// A number of tenths, as a decimal with one place.
pub open spec fn one_place(t: nat) -> Seq<char> {
    dec(t / 10) + "."@ + dec(t % 10)
}

/// A number of hundredths, as a decimal with two places.
pub open spec fn two_places(t: nat) -> Seq<char> {
    dec(t / 100) + "."@ + dec((t / 10) % 10) + dec(t % 10)
}

} // verus!
