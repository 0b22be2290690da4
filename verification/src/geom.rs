//! Geometric primitives and the fixed-point scalar arithmetic they use.
//!
//! Every scalar is an `i64` in Q47.16 fixed point: the value it stands for
//! is the integer divided by `FX_ONE`. Products and quotients are computed
//! in `i128` and rounded toward zero, which the specification function
//! `tdiv` captures exactly.

use vstd::prelude::*;

verus! {

/// The fixed-point unit: the representation of the scalar one.
pub const FX_ONE: i64 = 65536;

/// The duration of one fixed simulation tick, about one sixtieth of a
/// second, in fixed-point seconds.
pub const DT: i64 = 1092;

/// The magnitude bound under which the collision functions accept
/// coordinates, radii, velocities and plane offsets. Inputs within this
/// bound keep every intermediate product inside `i64` after rescaling.
pub const FX_LIMIT: i64 = 0x4000_0000;

/// Division rounded toward zero, as the `/` of `i64` rounds.
pub open spec fn tdiv(a: int, b: int) -> int {
    if a >= 0 {
        a / b
    } else {
        -((-a) / b)
    }
}

/// The product of two fixed-point scalars: rescaled by the unit, rounded
/// toward zero.
pub open spec fn fx_mul_spec(a: int, b: int) -> int {
    tdiv(a * b, FX_ONE as int)
}

/// The quotient of two fixed-point scalars: rescaled by the unit, rounded
/// toward zero.
pub open spec fn fx_div_spec(a: int, b: int) -> int {
    tdiv(a * FX_ONE as int, b)
}

/// Rounding toward zero moves by less than the divisor and never past the
/// dividend.
pub proof fn lemma_tdiv(a: int, b: int)
    requires
        b > 0,
    ensures
        a >= 0 ==> tdiv(a, b) * b <= a < tdiv(a, b) * b + b,
        a <= 0 ==> tdiv(a, b) * b >= a > tdiv(a, b) * b - b,
        a >= 0 ==> tdiv(a, b) >= 0,
        a <= 0 ==> tdiv(a, b) <= 0,
{
    if a >= 0 {
        assert((a / b) * b <= a < (a / b) * b + b && a / b >= 0) by (nonlinear_arith)
            requires
                b > 0,
                a >= 0,
        ;
    } else {
        assert(-((-a) / b) * b >= a > -((-a) / b) * b - b && -((-a) / b) <= 0) by (nonlinear_arith)
            requires
                b > 0,
                a < 0,
        ;
    }
}

/// The magnitude of a quotient rounded toward zero is bounded by the
/// magnitude bound of the dividend.
pub proof fn lemma_tdiv_bound(a: int, b: int, m: int)
    requires
        b > 0,
        -m <= a <= m,
        0 <= m,
    ensures
        -m <= tdiv(a, b) * b <= m,
        -m <= tdiv(a, b) <= m,
{
    lemma_tdiv(a, b);
    let q = tdiv(a, b);
    assert(q <= q * b && (q >= 0 ==> 0 <= q * b) || q < 0) by (nonlinear_arith)
        requires
            b > 0,
    ;
    assert(q * b <= q && (q <= 0 ==> q * b <= 0) || q > 0) by (nonlinear_arith)
        requires
            b > 0,
    ;
}

/// A dividend bounded by a multiple of the divisor bounds the quotient by
/// that multiple.
pub proof fn lemma_tdiv_ratio(x: int, d: int, m: int)
    requires
        d > 0,
        m >= 0,
        -(m * d) <= x <= m * d,
    ensures
        -m <= tdiv(x, d) <= m,
{
    lemma_tdiv(x, d);
    let q = tdiv(x, d);
    assert(-m <= q <= m) by (nonlinear_arith)
        requires
            d > 0,
            m >= 0,
            -(m * d) <= x <= m * d,
            (x >= 0 ==> q * d <= x && q >= 0),
            (x <= 0 ==> q * d >= x && q <= 0),
    ;
}

/// A three-component vector of fixed-point scalars.
#[derive(PartialEq, Eq, Structural, Clone, Copy, Debug)]
pub struct Vec3 {
    pub x: i64,
    pub y: i64,
    pub z: i64,
}

/// A sphere: a fixed-point center and radius.
#[derive(PartialEq, Eq, Structural, Clone, Copy, Debug)]
pub struct Sphere {
    /// The center.
    pub c: Vec3,
    /// The radius.
    pub r: i64,
}

/// A half-space boundary: the points whose dot product with the unit normal
/// `n` equals the offset `d`. The normal points out of the half-space.
#[derive(PartialEq, Eq, Structural, Clone, Copy, Debug)]
pub struct Plane {
    /// The unit normal, in fixed point.
    pub n: Vec3,
    /// The offset along the normal, in fixed point.
    pub d: i64,
}

/// The dot product of two vectors as an unscaled integer sum of products.
pub open spec fn dot3(a: Vec3, b: Vec3) -> int {
    a.x * b.x + a.y * b.y + a.z * b.z
}

/// Whether every component of a vector is within the given magnitude.
pub open spec fn vec_within(v: Vec3, m: int) -> bool {
    &&& -m <= v.x <= m
    &&& -m <= v.y <= m
    &&& -m <= v.z <= m
}

/// The magnitude bound the contact resolvers keep every coordinate,
/// velocity and momentum under: a contact whose correction would carry a
/// component beyond it leaves the body untouched.
pub const FX_CAP: i64 = 0x4000_0000_0000;

/// The magnitudes of two factors bound the magnitude of their product.
pub proof fn lemma_abs_mul(x: int, y: int, mx: int, my: int)
    requires
        -mx <= x <= mx,
        -my <= y <= my,
        0 <= mx,
        0 <= my,
    ensures
        -(mx * my) <= x * y <= mx * my,
{
    assert(-(mx * my) <= x * y <= mx * my) by (nonlinear_arith)
        requires
            -mx <= x <= mx,
            -my <= y <= my,
            0 <= mx,
            0 <= my,
    ;
}

/// The integer square root: the greatest integer whose square does not
/// exceed the argument, zero for arguments at most zero.
pub open spec fn sqrt_floor(n: int) -> int
    decreases n,
{
    if n <= 0 {
        0
    } else if (sqrt_floor(n - 1) + 1) * (sqrt_floor(n - 1) + 1) <= n {
        sqrt_floor(n - 1) + 1
    } else {
        sqrt_floor(n - 1)
    }
}

/// The integer square root is the greatest integer whose square does not
/// exceed the argument.
pub proof fn lemma_sqrt_floor(n: int)
    requires
        n >= 0,
    ensures
        sqrt_floor(n) >= 0,
        sqrt_floor(n) * sqrt_floor(n) <= n,
        (sqrt_floor(n) + 1) * (sqrt_floor(n) + 1) > n,
    decreases n,
{
    if n == 0 {
    } else {
        lemma_sqrt_floor(n - 1);
        let t = sqrt_floor(n - 1);
        if (t + 1) * (t + 1) <= n {
            assert((t + 2) * (t + 2) > (t + 1) * (t + 1)) by (nonlinear_arith)
                requires
                    t >= 0,
            ;
        }
    }
}

/// Any integer between the same squares is the integer square root.
pub proof fn lemma_sqrt_floor_unique(n: int, r: int)
    requires
        n >= 0,
        r >= 0,
        r * r <= n,
        (r + 1) * (r + 1) > n,
    ensures
        r == sqrt_floor(n),
{
    lemma_sqrt_floor(n);
    let s = sqrt_floor(n);
    if r < s {
        assert((r + 1) * (r + 1) <= s * s) by (nonlinear_arith)
            requires
                0 <= r + 1 <= s,
        ;
        assert(false);
    }
    if r > s {
        assert((s + 1) * (s + 1) <= r * r) by (nonlinear_arith)
            requires
                0 <= s + 1 <= r,
        ;
        assert(false);
    }
}

/// The product of two fixed-point scalars.
pub fn fx_mul(a: i64, b: i64) -> (r: i64)
    requires
        -0x2000_0000_0000_0000 <= (a as int) * (b as int) <= 0x2000_0000_0000_0000,
    ensures
        r == fx_mul_spec(a as int, b as int),
{
    proof {
        lemma_tdiv_bound((a as int) * (b as int), FX_ONE as int, 0x2000_0000_0000_0000);
    }
    let p: i128 = (a as i128) * (b as i128);
    (p / (FX_ONE as i128)) as i64
}

/// The quotient of two fixed-point scalars. The divisor must be positive.
pub fn fx_div(a: i64, b: i64) -> (r: i64)
    requires
        b > 0,
        -0x4000_0000_0000 <= a <= 0x4000_0000_0000,
    ensures
        r == fx_div_spec(a as int, b as int),
{
    proof {
        lemma_abs_mul(a as int, FX_ONE as int, 0x4000_0000_0000, FX_ONE as int);
        lemma_tdiv_bound((a as int) * (FX_ONE as int), b as int, 0x4000_0000_0000 * FX_ONE as int);
    }
    let p: i128 = (a as i128) * (FX_ONE as i128);
    (p / (b as i128)) as i64
}

/// The integer square root of an unscaled 64-bit value.
pub fn isqrt(n: u64) -> (r: u64)
    ensures
        r == sqrt_floor(n as int),
{
    let mut lo: u64 = 0;
    let mut hi: u64 = 0x1_0000_0000;
    while hi - lo > 1
        invariant
            lo < hi,
            hi <= 0x1_0000_0000,
            (lo as int) * (lo as int) <= n as int,
            (hi as int) * (hi as int) > n as int,
        decreases hi - lo,
    {
        let mid = lo + (hi - lo) / 2;
        proof {
            lemma_abs_mul(mid as int, mid as int, 0x1_0000_0000, 0x1_0000_0000);
        }
        let sq: u128 = (mid as u128) * (mid as u128);
        if sq <= n as u128 {
            lo = mid;
        } else {
            hi = mid;
        }
    }
    proof {
        lemma_sqrt_floor_unique(n as int, lo as int);
    }
    lo
}

impl Vec3 {
    /// The componentwise sum.
    pub fn add(self, o: Vec3) -> (r: Vec3)
        requires
            i64::MIN <= self.x + o.x <= i64::MAX,
            i64::MIN <= self.y + o.y <= i64::MAX,
            i64::MIN <= self.z + o.z <= i64::MAX,
        ensures
            r.x == self.x + o.x,
            r.y == self.y + o.y,
            r.z == self.z + o.z,
    {
        Vec3 { x: self.x + o.x, y: self.y + o.y, z: self.z + o.z }
    }

    /// The componentwise difference.
    pub fn sub(self, o: Vec3) -> (r: Vec3)
        requires
            i64::MIN <= self.x - o.x <= i64::MAX,
            i64::MIN <= self.y - o.y <= i64::MAX,
            i64::MIN <= self.z - o.z <= i64::MAX,
        ensures
            r.x == self.x - o.x,
            r.y == self.y - o.y,
            r.z == self.z - o.z,
    {
        Vec3 { x: self.x - o.x, y: self.y - o.y, z: self.z - o.z }
    }

    /// The fixed-point dot product with a vector of near-unit magnitude.
    pub fn dot_fx(self, o: Vec3) -> (r: i64)
        requires
            vec_within(self, FX_CAP as int),
            vec_within(o, 2 * FX_ONE as int),
        ensures
            r == tdiv(dot3(self, o), FX_ONE as int),
    {
        proof {
            lemma_abs_mul(self.x as int, o.x as int, 0x4000_0000_0000, 0x20000);
            lemma_abs_mul(self.y as int, o.y as int, 0x4000_0000_0000, 0x20000);
            lemma_abs_mul(self.z as int, o.z as int, 0x4000_0000_0000, 0x20000);
            lemma_tdiv_bound(dot3(self, o), FX_ONE as int, 0x1_8000_0000_0000_0000);
        }
        let p: i128 = (self.x as i128) * (o.x as i128) + (self.y as i128) * (o.y as i128) + (
        self.z as i128) * (o.z as i128);
        (p / (FX_ONE as i128)) as i64
    }

    /// A near-unit vector scaled by a fixed-point factor, componentwise.
    pub fn scale_fx(self, s: i64) -> (r: Vec3)
        requires
            vec_within(self, 2 * FX_ONE as int),
            -0x40_0000_0000_0000 <= s <= 0x40_0000_0000_0000,
        ensures
            r.x == tdiv(self.x * s, FX_ONE as int),
            r.y == tdiv(self.y * s, FX_ONE as int),
            r.z == tdiv(self.z * s, FX_ONE as int),
    {
        proof {
            lemma_abs_mul(self.x as int, s as int, 0x20000, 0x40_0000_0000_0000);
            lemma_abs_mul(self.y as int, s as int, 0x20000, 0x40_0000_0000_0000);
            lemma_abs_mul(self.z as int, s as int, 0x20000, 0x40_0000_0000_0000);
            lemma_tdiv_bound((self.x as int) * (s as int), FX_ONE as int, 0x80_0000_0000_0000_0000);
            lemma_tdiv_bound((self.y as int) * (s as int), FX_ONE as int, 0x80_0000_0000_0000_0000);
            lemma_tdiv_bound((self.z as int) * (s as int), FX_ONE as int, 0x80_0000_0000_0000_0000);
        }
        Vec3 {
            x: ((self.x as i128) * (s as i128) / (FX_ONE as i128)) as i64,
            y: ((self.y as i128) * (s as i128) / (FX_ONE as i128)) as i64,
            z: ((self.z as i128) * (s as i128) / (FX_ONE as i128)) as i64,
        }
    }
}

} // verus!
