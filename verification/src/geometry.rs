//! Whole-pixel Euclidean distances and the integer square root under them.

use vstd::prelude::*;

verus! {

/// A position on the pixel grid: column, then row.
pub type Position = (u32, u32);

/// `r` is the square root of `n` rounded down.
pub open spec fn is_floor_sqrt(n: nat, r: nat) -> bool {
    r * r <= n < (r + 1) * (r + 1)
}

/// The square root of `n` rounded down to a whole number.
pub open spec fn floor_sqrt(n: nat) -> nat {
    choose|r: nat| is_floor_sqrt(n, r)
}

/// The squared Euclidean distance between two grid positions.
pub open spec fn squared_distance(p: Position, q: Position) -> nat {
    ((p.0 - q.0) * (p.0 - q.0) + (p.1 - q.1) * (p.1 - q.1)) as nat
}

/// The Euclidean distance between two grid positions, rounded down.
pub open spec fn floor_distance(p: Position, q: Position) -> nat {
    floor_sqrt(squared_distance(p, q))
}

proof fn lemma_floor_sqrt_exists(n: nat) -> (r: nat)
    ensures
        is_floor_sqrt(n, r),
    decreases n,
{
    if n == 0 {
        assert(is_floor_sqrt(0, 0)) by (nonlinear_arith);
        0
    } else {
        let below = lemma_floor_sqrt_exists((n - 1) as nat);
        let above = below + 1;
        if above * above <= n {
            assert(n < (above + 1) * (above + 1)) by (nonlinear_arith)
                requires
                    n - 1 < above * above,
            ;
            above
        } else {
            below
        }
    }
}

/// Every natural number has a rounded-down square root, and `floor_sqrt`
/// names it.
pub proof fn lemma_floor_sqrt_bounds(n: nat)
    ensures
        is_floor_sqrt(n, floor_sqrt(n)),
{
    let r = lemma_floor_sqrt_exists(n);
    assert(is_floor_sqrt(n, r));
}

/// The rounded-down square root is unique: whatever squares to at most `n`
/// while its successor squares to more is `floor_sqrt(n)`.
pub proof fn lemma_floor_sqrt_unique(n: nat, r: nat)
    requires
        is_floor_sqrt(n, r),
    ensures
        floor_sqrt(n) == r,
{
    lemma_floor_sqrt_bounds(n);
    let s = floor_sqrt(n);
    assert(s == r) by (nonlinear_arith)
        requires
            r * r <= n < (r + 1) * (r + 1),
            s * s <= n < (s + 1) * (s + 1),
    ;
}

/// A larger number never has a smaller rounded-down square root.
pub proof fn lemma_floor_sqrt_monotone(a: nat, b: nat)
    requires
        a <= b,
    ensures
        floor_sqrt(a) <= floor_sqrt(b),
{
    lemma_floor_sqrt_bounds(a);
    lemma_floor_sqrt_bounds(b);
    let ra = floor_sqrt(a);
    let rb = floor_sqrt(b);
    assert(ra <= rb) by (nonlinear_arith)
        requires
            a <= b,
            ra * ra <= a,
            b < (rb + 1) * (rb + 1),
    ;
}

/// The square root of `n` rounded down, found by bisection.
pub fn integer_sqrt(n: u128) -> (root: u64)
    ensures
        root as nat == floor_sqrt(n as nat),
{
    let limit: u128 = 0x1_0000_0000_0000_0000;
    let mut low: u128 = 0;
    let mut high: u128 = if n < limit {
        n + 1
    } else {
        limit
    };
    assert(n < high * high) by (nonlinear_arith)
        requires
            high == n + 1 || (high == 0x1_0000_0000_0000_0000u128 && n
                <= 0xffff_ffff_ffff_ffff_ffff_ffff_ffff_ffffu128),
    ;
    while high - low > 1
        invariant
            low < high <= 0x1_0000_0000_0000_0000u128,
            low * low <= n < high * high,
        decreases high - low,
    {
        let mid: u128 = low + (high - low) / 2;
        assert(mid * mid <= 0xffff_ffff_ffff_ffff_ffff_ffff_ffff_ffffu128) by (nonlinear_arith)
            requires
                mid <= 0xffff_ffff_ffff_ffffu128,
        ;
        if mid * mid <= n {
            low = mid;
        } else {
            high = mid;
        }
    }
    proof {
        assert(high == low + 1);
        lemma_floor_sqrt_unique(n as nat, low as nat);
    }
    low as u64
}

/// How far apart two coordinates are.
fn gap(a: u32, b: u32) -> (d: u32)
    ensures
        d == a - b || d == b - a,
        d * d == (a - b) * (a - b),
{
    let d: u32 = if a >= b {
        a - b
    } else {
        b - a
    };
    assert(d * d == (a - b) * (a - b)) by (nonlinear_arith)
        requires
            d == a - b || d == b - a,
    ;
    d
}

/// The squared Euclidean distance between two grid positions.
pub fn squared_dist(p: &Position, q: &Position) -> (sq: u128)
    ensures
        sq as nat == squared_distance(*p, *q),
{
    let dx: u64 = gap(p.0, q.0) as u64;
    let dy: u64 = gap(p.1, q.1) as u64;
    assert(dx * dx <= 0xffff_ffff_0000_0000u64 && dy * dy <= 0xffff_ffff_0000_0000u64)
        by (nonlinear_arith)
        requires
            dx <= 0xffff_ffffu64,
            dy <= 0xffff_ffffu64,
    ;
    (dx * dx) as u128 + (dy * dy) as u128
}

/// The Euclidean distance between two grid positions, rounded down to whole
/// pixels.
pub fn euclidean_dist(p: &Position, q: &Position) -> (dist: u64)
    ensures
        dist as nat == floor_distance(*p, *q),
{
    integer_sqrt(squared_dist(p, q))
}

} // verus!
