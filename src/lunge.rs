use vstd::prelude::*;

use crate::components::{trunc_div, Velocity, COOLDOWN_SLOW_DEN, COOLDOWN_SLOW_NUM, LENGTH_SCALE, MELEE_SPEED};

verus! {

/// `r` is the integer square root of `n`.
pub open spec fn is_root(n: int, r: int) -> bool {
    0 <= r && r * r <= n < (r + 1) * (r + 1)
}

/// The integer square root of `n`.
pub open spec fn root(n: int) -> int {
    choose|r: int| is_root(n, r)
}

pub proof fn lemma_root_unique(n: int, a: int, b: int)
    requires
        is_root(n, a),
        is_root(n, b),
    ensures
        a == b,
{
    if a < b {
        assert((a + 1) * (a + 1) <= b * b) by (nonlinear_arith)
            requires
                0 <= a,
                a + 1 <= b,
        ;
    } else if b < a {
        assert((b + 1) * (b + 1) <= a * a) by (nonlinear_arith)
            requires
                0 <= b,
                b + 1 <= a,
        ;
    }
}

pub proof fn lemma_root_positive(n: int, r: int)
    requires
        is_root(n, r),
        n >= 1,
    ensures
        r > 0,
{
    if r == 0 {
        assert((r + 1) * (r + 1) == 1) by (nonlinear_arith)
            requires
                r == 0,
        ;
    }
}

/// Squared length of `v` at the fixed-point scale `LENGTH_SCALE`.
pub open spec fn scaled_norm_sq(v: Velocity) -> int {
    (v.dx * v.dx + v.dy * v.dy) * (LENGTH_SCALE * LENGTH_SCALE)
}

/// A lunge keeps the direction of `v` and has length `MELEE_SPEED`, up to the
/// rounding of the integer square root and of the division.
pub open spec fn lunge(v: Velocity) -> Velocity {
    let len = root(scaled_norm_sq(v));
    Velocity {
        dx: trunc_div(v.dx * LENGTH_SCALE * MELEE_SPEED, len) as i32,
        dy: trunc_div(v.dy * LENGTH_SCALE * MELEE_SPEED, len) as i32,
    }
}

/// A move command scaled down by the cooldown penalty.
pub open spec fn slowed(v: Velocity) -> Velocity {
    Velocity {
        dx: trunc_div(v.dx * COOLDOWN_SLOW_NUM, COOLDOWN_SLOW_DEN as int) as i32,
        dy: trunc_div(v.dy * COOLDOWN_SLOW_NUM, COOLDOWN_SLOW_DEN as int) as i32,
    }
}

/// Integer square root by bisection.
pub fn isqrt(n: u128) -> (r: u128)
    requires
        n < 0x40_0000_0000_0000_0000_0000,
    ensures
        is_root(n as int, r as int),
        r < 0x800_0000_0000,
{
    let mut lo: u128 = 0;
    let mut hi: u128 = 0x800_0000_0000;
    assert(hi * hi == 0x40_0000_0000_0000_0000_0000) by (nonlinear_arith)
        requires
            hi == 0x800_0000_0000,
    ;
    while hi - lo > 1
        invariant
            lo < hi <= 0x800_0000_0000,
            lo * lo <= n,
            n < hi * hi,
        decreases hi - lo,
    {
        let mid: u128 = lo + (hi - lo) / 2;
        assert(mid * mid <= 0x40_0000_0000_0000_0000_0000) by (nonlinear_arith)
            requires
                mid <= 0x800_0000_0000,
        ;
        if mid * mid <= n {
            lo = mid;
        } else {
            hi = mid;
        }
    }
    assert(hi == lo + 1);
    lo
}

proof fn lemma_component_fits(d: int, n: int, len: int)
    requires
        -0x8000_0000 <= d <= 0x7fff_ffff,
        d * d * (LENGTH_SCALE * LENGTH_SCALE) <= n,
        is_root(n, len),
        len > 0,
    ensures
        -MELEE_SPEED <= trunc_div(d * LENGTH_SCALE * MELEE_SPEED, len) <= MELEE_SPEED,
{
    let a = if d >= 0 { d * LENGTH_SCALE } else { -d * LENGTH_SCALE };
    assert(a * a == d * d * (LENGTH_SCALE * LENGTH_SCALE)) by (nonlinear_arith)
        requires
            a == d * LENGTH_SCALE || a == -d * LENGTH_SCALE,
    ;
    assert(0 <= a);
    assert(a <= len) by (nonlinear_arith)
        requires
            0 <= a,
            a * a <= n,
            n < (len + 1) * (len + 1),
            0 <= len,
    ;
    assert(a * MELEE_SPEED / len <= MELEE_SPEED) by (nonlinear_arith)
        requires
            0 <= a <= len,
            len > 0,
    ;
    assert(a * MELEE_SPEED / len >= 0) by (nonlinear_arith)
        requires
            0 <= a,
            len > 0,
    ;
    if d >= 0 {
        assert(d * LENGTH_SCALE * MELEE_SPEED == a * MELEE_SPEED) by (nonlinear_arith)
            requires
                a == d * LENGTH_SCALE,
        ;
    } else {
        assert(d * LENGTH_SCALE * MELEE_SPEED == -(a * MELEE_SPEED)) by (nonlinear_arith)
            requires
                a == -d * LENGTH_SCALE,
        ;
        assert(a * MELEE_SPEED >= 0) by (nonlinear_arith)
            requires
                a >= 0,
        ;
    }
}

/// The lunge velocity for a player moving with `v`, which is not zero.
pub fn lunge_velocity(v: Velocity) -> (r: Velocity)
    requires
        v.dx != 0 || v.dy != 0,
    ensures
        r == lunge(v),
        -MELEE_SPEED <= r.dx <= MELEE_SPEED,
        -MELEE_SPEED <= r.dy <= MELEE_SPEED,
{
    let dx: i128 = v.dx as i128;
    let dy: i128 = v.dy as i128;
    assert(0 <= dx * dx <= 0x4000_0000_0000_0000) by (nonlinear_arith)
        requires
            -0x8000_0000 <= dx <= 0x7fff_ffff,
    ;
    assert(0 <= dy * dy <= 0x4000_0000_0000_0000) by (nonlinear_arith)
        requires
            -0x8000_0000 <= dy <= 0x7fff_ffff,
    ;
    assert(dx * dx + dy * dy >= 1) by (nonlinear_arith)
        requires
            dx != 0 || dy != 0,
    ;
    let sq: i128 = dx * dx + dy * dy;
    let scale: i128 = (LENGTH_SCALE as i128) * (LENGTH_SCALE as i128);
    assert(1 <= sq * scale <= 0x8000_0000_0000_0000 * 0x10_0000) by (nonlinear_arith)
        requires
            1 <= sq <= 0x8000_0000_0000_0000,
            scale == 0x10_0000,
    ;
    let n: u128 = (sq * scale) as u128;
    let len: u128 = isqrt(n);
    proof {
        assert(n as int == scaled_norm_sq(v));
        lemma_root_unique(n as int, root(n as int), len as int);
        lemma_root_positive(n as int, len as int);
        assert(dx * LENGTH_SCALE * MELEE_SPEED == dx * (LENGTH_SCALE * MELEE_SPEED)) by (nonlinear_arith);
        assert(dy * LENGTH_SCALE * MELEE_SPEED == dy * (LENGTH_SCALE * MELEE_SPEED)) by (nonlinear_arith);
        assert(-0x8000_0000 * (LENGTH_SCALE * MELEE_SPEED) <= dx * (LENGTH_SCALE * MELEE_SPEED) <= 0x7fff_ffff * (LENGTH_SCALE * MELEE_SPEED)) by (nonlinear_arith)
            requires
                -0x8000_0000 <= dx <= 0x7fff_ffff,
        ;
        assert(-0x8000_0000 * (LENGTH_SCALE * MELEE_SPEED) <= dy * (LENGTH_SCALE * MELEE_SPEED) <= 0x7fff_ffff * (LENGTH_SCALE * MELEE_SPEED)) by (nonlinear_arith)
            requires
                -0x8000_0000 <= dy <= 0x7fff_ffff,
        ;
        assert(dx * dx * (LENGTH_SCALE * LENGTH_SCALE) <= n as int) by (nonlinear_arith)
            requires
                n as int == (dx * dx + dy * dy) * (LENGTH_SCALE * LENGTH_SCALE),
                dy * dy >= 0,
        ;
        assert(dy * dy * (LENGTH_SCALE * LENGTH_SCALE) <= n as int) by (nonlinear_arith)
            requires
                n as int == (dx * dx + dy * dy) * (LENGTH_SCALE * LENGTH_SCALE),
                dx * dx >= 0,
        ;
        lemma_component_fits(dx as int, n as int, len as int);
        lemma_component_fits(dy as int, n as int, len as int);
    }
    let l: i128 = len as i128;
    let rx: i128 = scaled_div(dx * (LENGTH_SCALE as i128) * (MELEE_SPEED as i128), l);
    let ry: i128 = scaled_div(dy * (LENGTH_SCALE as i128) * (MELEE_SPEED as i128), l);
    Velocity { dx: rx as i32, dy: ry as i32 }
}

/// Division rounding toward zero, on values that cannot overflow.
fn scaled_div(a: i128, b: i128) -> (r: i128)
    requires
        b > 0,
        -0x1000_0000_0000_0000_0000 < a < 0x1000_0000_0000_0000_0000,
    ensures
        r == trunc_div(a as int, b as int),
{
    if a >= 0 {
        a / b
    } else {
        let neg: i128 = -a;
        assert(neg / b <= neg) by (nonlinear_arith)
            requires
                neg >= 0,
                b > 0,
        ;
        -(neg / b)
    }
}

/// A move command scaled down by the cooldown penalty.
pub fn slowed_velocity(v: Velocity) -> (r: Velocity)
    ensures
        r == slowed(v),
{
    let dx: i64 = v.dx as i64 * COOLDOWN_SLOW_NUM;
    let dy: i64 = v.dy as i64 * COOLDOWN_SLOW_NUM;
    let rx: i64 = if dx >= 0 { dx / COOLDOWN_SLOW_DEN } else { -((-dx) / COOLDOWN_SLOW_DEN) };
    let ry: i64 = if dy >= 0 { dy / COOLDOWN_SLOW_DEN } else { -((-dy) / COOLDOWN_SLOW_DEN) };
    Velocity { dx: rx as i32, dy: ry as i32 }
}

} // verus!
