use vstd::prelude::*;

verus! {

/// A point or offset on the integer grid.
#[derive(Clone, Copy, PartialEq, Eq, Structural, Debug, Default)]
pub struct IVec2 {
    pub x: i32,
    pub y: i32,
}

/// An unsigned point on the integer grid (a position inside a chunk).
#[derive(Clone, Copy, PartialEq, Eq, Structural, Debug, Default)]
pub struct UVec2 {
    pub x: u32,
    pub y: u32,
}

/// A half-open rectangle `[min, max)` of cells.
#[derive(Clone, Copy, PartialEq, Eq, Structural, Debug, Default)]
pub struct URect {
    pub min: UVec2,
    pub max: UVec2,
}

/// Euclidean quotient by a positive divisor: the `q` with `a == q * b + r`, `0 <= r < b`.
pub open spec fn div_euclid(a: int, b: int) -> int
    recommends
        b > 0,
{
    a / b
}

/// Euclidean remainder by a positive divisor, always in `[0, b)`.
pub open spec fn rem_euclid(a: int, b: int) -> int
    recommends
        b > 0,
{
    a % b
}

/// Both coordinates fit in an `i32`.
pub open spec fn fits_i32(x: int, y: int) -> bool {
    i32::MIN <= x <= i32::MAX && i32::MIN <= y <= i32::MAX
}

/// Euclidean quotient and remainder pin each other down.
pub proof fn lemma_euclid(a: int, b: int)
    requires
        b > 0,
    ensures
        a == div_euclid(a, b) * b + rem_euclid(a, b),
        0 <= rem_euclid(a, b) < b,
{
    vstd::arithmetic::div_mod::lemma_fundamental_div_mod(a, b);
    vstd::arithmetic::mul::lemma_mul_is_commutative(b, a / b);
}

/// Any decomposition `a == q * b + r` with `0 <= r < b` is the Euclidean one.
pub proof fn lemma_euclid_unique(a: int, b: int, q: int, r: int)
    requires
        b > 0,
        a == q * b + r,
        0 <= r < b,
    ensures
        div_euclid(a, b) == q,
        rem_euclid(a, b) == r,
{
    vstd::arithmetic::mul::lemma_mul_is_commutative(q, b);
    vstd::arithmetic::div_mod::lemma_fundamental_div_mod_converse(a, b, q, r);
}

/// Euclidean division of an `i32` by a positive `i32`.
pub fn i32_div_euclid(a: i32, b: i32) -> (q: i32)
    requires
        b > 0,
    ensures
        q == div_euclid(a as int, b as int),
{
    proof {
        lemma_div_bounds_i32(a, b);
    }
    match a.checked_div_euclid(b) {
        Some(q) => q,
        None => 0,
    }
}

proof fn lemma_div_bounds_i32(a: i32, b: i32)
    requires
        b > 0,
    ensures
        i32::MIN <= (a as int) / (b as int) <= i32::MAX,
{
    lemma_euclid(a as int, b as int);
    let q = (a as int) / (b as int);
    let r = (a as int) % (b as int);
    if q > i32::MAX {
        assert(q * b >= q) by (nonlinear_arith) requires q > 0, b >= 1;
    }
    if q < i32::MIN {
        assert((q + 1) * b <= q + 1) by (nonlinear_arith) requires q + 1 <= 0, b >= 1;
        assert((q + 1) * b == q * b + b) by (nonlinear_arith);
    }
}

/// Euclidean remainder of an `i32` by a positive `i32`.
pub fn i32_rem_euclid(a: i32, b: i32) -> (r: i32)
    requires
        b > 0,
    ensures
        r == rem_euclid(a as int, b as int),
        0 <= r < b,
{
    proof {
        lemma_euclid(a as int, b as int);
    }
    match a.checked_rem_euclid(b) {
        Some(r) => r,
        None => 0,
    }
}

pub open spec fn spec_min(a: int, b: int) -> int {
    if a <= b { a } else { b }
}

pub open spec fn spec_max(a: int, b: int) -> int {
    if a >= b { a } else { b }
}

/// `v` raised to `lo`, then lowered to `hi`.
pub open spec fn spec_clamp(v: int, lo: int, hi: int) -> int {
    spec_min(spec_max(v, lo), hi)
}

/// `v` raised to `lo`, then lowered to `hi`.
pub fn clamp_u32(v: u32, lo: u32, hi: u32) -> (r: u32)
    requires
        lo <= hi,
    ensures
        r == spec_clamp(v as int, lo as int, hi as int),
{
    let raised = if v >= lo { v } else { lo };
    if raised <= hi { raised } else { hi }
}

impl UVec2 {
    /// Each coordinate raised to `lo` and lowered to `hi`.
    pub fn clamp(self, lo: u32, hi: u32) -> (r: UVec2)
        requires
            lo <= hi,
        ensures
            r.x == spec_clamp(self.x as int, lo as int, hi as int),
            r.y == spec_clamp(self.y as int, lo as int, hi as int),
    {
        UVec2 { x: clamp_u32(self.x, lo, hi), y: clamp_u32(self.y, lo, hi) }
    }

    /// Each coordinate plus `n`, stopping at `u32::MAX`.
    pub fn saturating_add(self, n: u32) -> (r: UVec2)
        ensures
            r.x == spec_min(self.x + n, u32::MAX as int),
            r.y == spec_min(self.y + n, u32::MAX as int),
    {
        UVec2 { x: self.x.saturating_add(n), y: self.y.saturating_add(n) }
    }

    /// Each coordinate minus `n`, stopping at 0.
    pub fn saturating_sub(self, n: u32) -> (r: UVec2)
        ensures
            r.x == spec_max(self.x - n, 0),
            r.y == spec_max(self.y - n, 0),
    {
        UVec2 { x: self.x.saturating_sub(n), y: self.y.saturating_sub(n) }
    }
}

/// The rectangle spanned by two corners.
pub open spec fn spec_from_corners(p0: UVec2, p1: UVec2) -> URect {
    URect {
        min: UVec2 { x: spec_min(p0.x as int, p1.x as int) as u32, y: spec_min(p0.y as int, p1.y as int) as u32 },
        max: UVec2 { x: spec_max(p0.x as int, p1.x as int) as u32, y: spec_max(p0.y as int, p1.y as int) as u32 },
    }
}

impl URect {
    /// The rectangle spanned by two corners, in either order.
    pub fn from_corners(p0: UVec2, p1: UVec2) -> (r: URect)
        ensures
            r == spec_from_corners(p0, p1),
    {
        URect {
            min: UVec2 { x: if p0.x <= p1.x { p0.x } else { p1.x }, y: if p0.y <= p1.y { p0.y } else { p1.y } },
            max: UVec2 { x: if p0.x >= p1.x { p0.x } else { p1.x }, y: if p0.y >= p1.y { p0.y } else { p1.y } },
        }
    }
}

} // verus!
