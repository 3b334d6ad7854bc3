//! Integer arithmetic for the layout model.
//!
//! All geometry in this crate is measured in integer layout units.  Values
//! are kept inside `[-MAX_COORD, MAX_COORD]`; the arithmetic helpers clamp
//! into that range, so no layout computation can overflow.

use vstd::prelude::*;

verus! {

/// Largest magnitude a modelled coordinate or measure may take.
pub const MAX_COORD: i64 = 0x3fff_ffff_ffff_ffff;

/// The value fits in the modelled coordinate range.
pub open spec fn in_range(v: int) -> bool {
    -(MAX_COORD as int) <= v <= MAX_COORD as int
}

/// Clamp an unbounded value into the modelled coordinate range.
pub open spec fn clip(v: int) -> int {
    if v < -(MAX_COORD as int) {
        -(MAX_COORD as int)
    } else if v > MAX_COORD as int {
        MAX_COORD as int
    } else {
        v
    }
}

/// Truncating division (rounds toward zero), for a positive divisor.
pub open spec fn tdiv(a: int, b: int) -> int {
    if a >= 0 {
        a / b
    } else {
        -((-a) / b)
    }
}

/// Clamped addition.
pub fn cadd(a: i64, b: i64) -> (r: i64)
    requires
        in_range(a as int),
        in_range(b as int),
    ensures
        r as int == clip(a as int + b as int),
        in_range(r as int),
{
    let s: i64 = a + b;
    if s < -MAX_COORD {
        -MAX_COORD
    } else if s > MAX_COORD {
        MAX_COORD
    } else {
        s
    }
}

/// Clamped subtraction.
pub fn csub(a: i64, b: i64) -> (r: i64)
    requires
        in_range(a as int),
        in_range(b as int),
    ensures
        r as int == clip(a as int - b as int),
        in_range(r as int),
{
    let s: i64 = a - b;
    if s < -MAX_COORD {
        -MAX_COORD
    } else if s > MAX_COORD {
        MAX_COORD
    } else {
        s
    }
}

/// The product of two range-bounded values is bounded by the squared bound.
proof fn lemma_mul_bound(a: int, b: int, m: int)
    requires
        0 <= m,
        -m <= a <= m,
        -m <= b <= m,
    ensures
        -(m * m) <= a * b <= m * m,
{
    assert(-(m * m) <= a * b <= m * m) by (nonlinear_arith)
        requires
            0 <= m,
            -m <= a <= m,
            -m <= b <= m,
    ;
}

/// The squared coordinate bound still fits comfortably in an `i128`.
proof fn lemma_square_fits()
    ensures
        (MAX_COORD as int) * (MAX_COORD as int) < i128::MAX as int,
{
    assert((0x3fff_ffff_ffff_ffff as int) * (0x3fff_ffff_ffff_ffff as int) < i128::MAX as int)
        by (nonlinear_arith);
}

/// Clamped multiplication.
pub fn cmul(a: i64, b: i64) -> (r: i64)
    requires
        in_range(a as int),
        in_range(b as int),
    ensures
        r as int == clip(a as int * b as int),
        in_range(r as int),
{
    proof {
        lemma_mul_bound(a as int, b as int, MAX_COORD as int);
        lemma_square_fits();
    }
    let p: i128 = (a as i128) * (b as i128);
    if p < -(MAX_COORD as i128) {
        -MAX_COORD
    } else if p > MAX_COORD as i128 {
        MAX_COORD
    } else {
        p as i64
    }
}

/// Truncating division by a positive divisor.
pub fn div_pos(a: i64, b: i64) -> (r: i64)
    requires
        in_range(a as int),
        0 < b,
    ensures
        r as int == tdiv(a as int, b as int),
        in_range(r as int),
{
    if a >= 0 {
        let q: u64 = (a as u64) / (b as u64);
        proof {
            assert(q <= a as u64) by (nonlinear_arith)
                requires
                    q == (a as u64) / (b as u64),
                    0 < b as u64,
            ;
        }
        q as i64
    } else {
        let m: i64 = -a;
        let q: u64 = (m as u64) / (b as u64);
        proof {
            assert(q <= m as u64) by (nonlinear_arith)
                requires
                    q == (m as u64) / (b as u64),
                    0 < b as u64,
            ;
        }
        -(q as i64)
    }
}

/// Clamped multiply-then-divide: `clip(tdiv(v * n, d))` for a positive `d`.
pub fn cmuldiv(v: i64, n: i64, d: i64) -> (r: i64)
    requires
        in_range(v as int),
        in_range(n as int),
        0 < d,
    ensures
        r as int == clip(tdiv(v as int * n as int, d as int)),
        in_range(r as int),
{
    proof {
        lemma_mul_bound(v as int, n as int, MAX_COORD as int);
        lemma_square_fits();
    }
    let p: i128 = (v as i128) * (n as i128);
    let q: i128 = if p >= 0 {
        let u: u128 = (p as u128) / (d as u128);
        proof {
            assert(u <= p as u128) by (nonlinear_arith)
                requires
                    u == (p as u128) / (d as u128),
                    0 < d as u128,
            ;
        }
        u as i128
    } else {
        let m: i128 = -p;
        let u: u128 = (m as u128) / (d as u128);
        proof {
            assert(u <= m as u128) by (nonlinear_arith)
                requires
                    u == (m as u128) / (d as u128),
                    0 < d as u128,
            ;
        }
        -(u as i128)
    };
    if q < -(MAX_COORD as i128) {
        -MAX_COORD
    } else if q > MAX_COORD as i128 {
        MAX_COORD
    } else {
        q as i64
    }
}

/// The larger of two values.
pub fn imax(a: i64, b: i64) -> (r: i64)
    ensures
        r as int == if a as int >= b as int { a as int } else { b as int },
{
    if a >= b {
        a
    } else {
        b
    }
}

/// The smaller of two values.
pub fn imin(a: i64, b: i64) -> (r: i64)
    ensures
        r as int == if a as int <= b as int { a as int } else { b as int },
{
    if a <= b {
        a
    } else {
        b
    }
}

} // verus!
