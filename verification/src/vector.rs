//! Plane vectors with fixed-point components.

use vstd::prelude::*;
use vstd::arithmetic::power2::{lemma2_to64, lemma_pow2_strictly_increases, lemma_pow2_unfold, pow2};
use crate::fixed::{
    fixed_mul, floor_div, floor_sqrt, is_floor_sqrt, isqrt, lemma_floor_sqrt_exists,
    lemma_product_bound, scale, HALF, ONE,
};

verus! {

/// The largest magnitude of a component that `Vec2::normalised` accepts.
pub const NORM_LIMIT: i64 = 0x8000_0000_0000;

/// The largest magnitude of a component that `Vec2::rotated` accepts.
pub const ROTATE_LIMIT: i64 = 0x100_0000_0000;

/// The largest magnitude of a component of a rotation that `Vec2::rotated`
/// accepts.
pub const ROTATION_LIMIT: i64 = 0x10_0000;

/// The mathematical model of a vector: a pair of integers that count
/// 65536ths.
pub struct Vector {
    pub x: int,
    pub y: int,
}

/// The quotient of `c` times 2^32 by the positive `len`, rounded toward zero.
pub open spec fn signed_quotient(c: int, len: int) -> int {
    if c >= 0 {
        (c * 0x1_0000_0000) / len
    } else {
        -(((-c) * 0x1_0000_0000) / len)
    }
}

impl Vector {
    /// The vector with both components zero.
    pub open spec fn zero() -> Vector {
        Vector { x: 0, y: 0 }
    }

    /// The unit vector along the first axis.
    pub open spec fn east() -> Vector {
        Vector { x: ONE as int, y: 0 }
    }

    /// Both components are zero.
    pub open spec fn is_zero(self) -> bool {
        self.x == 0 && self.y == 0
    }

    /// Neither component exceeds `m` in magnitude.
    pub open spec fn within(self, m: int) -> bool {
        -m <= self.x <= m && -m <= self.y <= m
    }

    /// The sum of two vectors.
    pub open spec fn plus(self, other: Vector) -> Vector {
        Vector { x: self.x + other.x, y: self.y + other.y }
    }

    /// The vector times the integer `n`.
    pub open spec fn times(self, n: int) -> Vector {
        Vector { x: self.x * n, y: self.y * n }
    }

    /// The vector times the fixed-point number `k`, each component rounded
    /// to the nearest 65536th.
    pub open spec fn scaled(self, k: int) -> Vector {
        Vector { x: fixed_mul(self.x, k), y: fixed_mul(self.y, k) }
    }

    /// The mirror image of the vector in the first axis.
    pub open spec fn conjugate(self) -> Vector {
        Vector { x: self.x, y: -self.y }
    }

    /// The vector turned by the rotation `r`, which holds the cosine and
    /// the sine of an angle: the product of the two as complex numbers,
    /// each component rounded to the nearest 65536th, a half upward.
    pub open spec fn rotated(self, r: Vector) -> Vector {
        Vector {
            x: (self.x * r.x - self.y * r.y + HALF) / (ONE as int),
            y: (self.x * r.y + self.y * r.x + HALF) / (ONE as int),
        }
    }

    /// The square of the vector's length, in units of 2^-32.
    pub open spec fn norm_sq(self) -> int {
        self.x * self.x + self.y * self.y
    }

    /// The vector's length is 1 to within three units in the last place.
    pub open spec fn is_unit(self) -> bool {
        (ONE - 3) * (ONE - 3) <= self.norm_sq() <= (ONE + 1) * (ONE + 1)
    }

    /// The vector of length 1 that points the way this one does; the zero
    /// vector is its own normalisation.  Each component is rounded toward
    /// zero.
    pub open spec fn normalised(self) -> Vector {
        if self.is_zero() {
            self
        } else {
            let len = floor_sqrt(self.norm_sq() * 0x1_0000_0000);
            Vector { x: signed_quotient(self.x, len), y: signed_quotient(self.y, len) }
        }
    }

    /// The rotation by 2^`i` 65536ths of a turn, for `i` from 0 to 15: the
    /// cosine and the sine of that angle, rounded to the nearest 65536th.
    pub open spec fn turn_step(i: int) -> Vector {
        if i == 0 {
            Vector { x: 65536, y: 6 }
        } else if i == 1 {
            Vector { x: 65536, y: 13 }
        } else if i == 2 {
            Vector { x: 65536, y: 25 }
        } else if i == 3 {
            Vector { x: 65536, y: 50 }
        } else if i == 4 {
            Vector { x: 65536, y: 101 }
        } else if i == 5 {
            Vector { x: 65536, y: 201 }
        } else if i == 6 {
            Vector { x: 65535, y: 402 }
        } else if i == 7 {
            Vector { x: 65531, y: 804 }
        } else if i == 8 {
            Vector { x: 65516, y: 1608 }
        } else if i == 9 {
            Vector { x: 65457, y: 3216 }
        } else if i == 10 {
            Vector { x: 65220, y: 6424 }
        } else if i == 11 {
            Vector { x: 64277, y: 12785 }
        } else if i == 12 {
            Vector { x: 60547, y: 25080 }
        } else if i == 13 {
            Vector { x: 46341, y: 46341 }
        } else if i == 14 {
            Vector { x: 0, y: 65536 }
        } else {
            Vector { x: -65536, y: 0 }
        }
    }

    /// `acc` turned by every step from `i` on whose bit is set in `rest`,
    /// where the lowest bit of `rest` stands for step `i`.
    pub open spec fn wound(acc: Vector, rest: int, i: int) -> Vector
        decreases 16 - i,
    {
        if i >= 16 {
            acc
        } else {
            let next = if rest % 2 == 1 {
                acc.rotated(Vector::turn_step(i))
            } else {
                acc
            };
            Vector::wound(next, rest / 2, i + 1)
        }
    }

    /// The unit vector at `turn` 65536ths of a turn from the first axis:
    /// the first axis turned by one step for each bit set in `turn`, then
    /// normalised.  Should the turning leave the zero vector, the result is
    /// the first axis itself.
    pub open spec fn from_turn(turn: int) -> Vector {
        let w = Vector::wound(Vector::east(), turn, 0);
        if w.is_zero() {
            Vector::east()
        } else {
            w.normalised()
        }
    }
}

/// The magnitude of one component of a normalised vector, with what is known
/// of it: `q` is `a * 2^32 / len` where `len` is the length of `(a, b)`
/// times 2^16.
proof fn lemma_quotient(a: int, n: int, len: int) -> (q: int)
    requires
        0 <= a,
        a * a * 0x1_0000_0000 <= n,
        0x1_0000 <= len,
        is_floor_sqrt(n, len),
    ensures
        q == (a * 0x1_0000_0000) / len,
        0 <= q <= 0x1_0000,
        q * q * (len * len) <= (a * a * 0x1_0000_0000) * 0x1_0000_0000,
        (a * a * 0x1_0000_0000) * 0x1_0000_0000 < (q + 1) * (q + 1) * (len * len),
{
    let t = a * 0x1_0000_0000;
    let q = t / len;
    assert(q * len <= t < (q + 1) * len && 0 <= q) by (nonlinear_arith)
        requires
            q == t / len,
            0 < len,
            0 <= t,
    ;
    // a * 2^16 <= len
    let u = a * 0x1_0000;
    assert(u * u == a * a * 0x1_0000_0000) by (nonlinear_arith)
        requires
            u == a * 0x1_0000,
    ;
    assert(u <= len) by (nonlinear_arith)
        requires
            u * u <= n,
            n < (len + 1) * (len + 1),
            0 <= u,
            0 <= len,
    ;
    assert(t == u * 0x1_0000);
    assert(q <= 0x1_0000) by (nonlinear_arith)
        requires
            q * len <= t,
            t == u * 0x1_0000,
            u <= len,
            0 < len,
            0 <= q,
    ;
    assert(t * t == (a * a * 0x1_0000_0000) * 0x1_0000_0000) by (nonlinear_arith)
        requires
            t == a * 0x1_0000_0000,
    ;
    let lo = q * len;
    let hi = (q + 1) * len;
    assert(lo * lo <= t * t) by (nonlinear_arith)
        requires
            0 <= lo <= t,
    ;
    assert(t * t < hi * hi) by (nonlinear_arith)
        requires
            0 <= t < hi,
    ;
    assert(lo * lo == q * q * (len * len)) by (nonlinear_arith)
        requires
            lo == q * len,
    ;
    assert(hi * hi == (q + 1) * (q + 1) * (len * len)) by (nonlinear_arith)
        requires
            hi == (q + 1) * len,
    ;
    q
}

/// What holds of the magnitudes `p`, `q` of the components of a normalised
/// vector.
proof fn lemma_quotients_are_unit(a: int, b: int, len: int, p: int, q: int)
    requires
        0 <= a,
        0 <= b,
        0x1_0000 <= len,
        is_floor_sqrt((a * a + b * b) * 0x1_0000_0000, len),
        0 <= p <= 0x1_0000,
        0 <= q <= 0x1_0000,
        p * p * (len * len) <= (a * a * 0x1_0000_0000) * 0x1_0000_0000,
        (a * a * 0x1_0000_0000) * 0x1_0000_0000 < (p + 1) * (p + 1) * (len * len),
        q * q * (len * len) <= (b * b * 0x1_0000_0000) * 0x1_0000_0000,
        (b * b * 0x1_0000_0000) * 0x1_0000_0000 < (q + 1) * (q + 1) * (len * len),
    ensures
        (ONE - 3) * (ONE - 3) <= p * p + q * q <= (ONE + 1) * (ONE + 1),
{
    let n = (a * a + b * b) * 0x1_0000_0000;
    let l2 = len * len;
    let s = p * p + q * q;
    let s1 = (p + 1) * (p + 1) + (q + 1) * (q + 1);
    let ta = (a * a * 0x1_0000_0000) * 0x1_0000_0000;
    let tb = (b * b * 0x1_0000_0000) * 0x1_0000_0000;
    assert(ta + tb == n * 0x1_0000_0000) by (nonlinear_arith)
        requires
            ta == (a * a * 0x1_0000_0000) * 0x1_0000_0000,
            tb == (b * b * 0x1_0000_0000) * 0x1_0000_0000,
            n == (a * a + b * b) * 0x1_0000_0000,
    ;
    assert(s * l2 == p * p * l2 + q * q * l2) by (nonlinear_arith)
        requires
            s == p * p + q * q,
    ;
    assert(s1 * l2 == (p + 1) * (p + 1) * l2 + (q + 1) * (q + 1) * l2) by (nonlinear_arith)
        requires
            s1 == (p + 1) * (p + 1) + (q + 1) * (q + 1),
    ;
    // s * l2 <= n * 2^32 < s1 * l2, and l2 <= n < (len + 1)^2.
    assert(0 < l2) by (nonlinear_arith)
        requires
            l2 == len * len,
            0 < len,
    ;
    // Upper bound.
    let up = len * 0x1_0001;
    assert((len + 1) * (len + 1) * 0x1_0000_0000 <= up * up) by (nonlinear_arith)
        requires
            up == len * 0x1_0001,
            0x1_0000 <= len,
    ;
    assert(up * up == 0x1_0001 * 0x1_0001 * l2) by (nonlinear_arith)
        requires
            up == len * 0x1_0001,
            l2 == len * len,
    ;
    assert(n * 0x1_0000_0000 < (len + 1) * (len + 1) * 0x1_0000_0000) by (nonlinear_arith)
        requires
            n < (len + 1) * (len + 1),
    ;
    assert(s < 0x1_0001 * 0x1_0001) by (nonlinear_arith)
        requires
            s * l2 < 0x1_0001 * 0x1_0001 * l2,
            0 < l2,
    ;
    // Lower bound.
    assert(l2 * 0x1_0000_0000 <= n * 0x1_0000_0000) by (nonlinear_arith)
        requires
            l2 <= n,
    ;
    assert(0x1_0000_0000 < s1) by (nonlinear_arith)
        requires
            l2 * 0x1_0000_0000 < s1 * l2,
            0 < l2,
    ;
    assert(s1 == s + 2 * p + 2 * q + 2) by (nonlinear_arith)
        requires
            s == p * p + q * q,
            s1 == (p + 1) * (p + 1) + (q + 1) * (q + 1),
    ;
}

/// Normalising a vector other than zero gives a unit vector, neither
/// component of which exceeds 1 in magnitude.
pub proof fn lemma_normalised_is_unit(v: Vector)
    requires
        !v.is_zero(),
    ensures
        v.normalised().is_unit(),
        v.normalised().within(ONE as int),
        0x1_0000 <= floor_sqrt(v.norm_sq() * 0x1_0000_0000),
{
    let a = if v.x >= 0 {
        v.x
    } else {
        -v.x
    };
    let b = if v.y >= 0 {
        v.y
    } else {
        -v.y
    };
    let n = v.norm_sq() * 0x1_0000_0000;
    assert(v.norm_sq() == a * a + b * b && a * a >= 0 && b * b >= 0 && a * a + b * b >= 1)
        by (nonlinear_arith)
        requires
            v.norm_sq() == v.x * v.x + v.y * v.y,
            a == v.x || a == -v.x,
            b == v.y || b == -v.y,
            a != 0 || b != 0,
    ;
    lemma_floor_sqrt_exists(n);
    let len = floor_sqrt(n);
    assert(0x1_0000 <= len) by (nonlinear_arith)
        requires
            0x1_0000_0000 <= n,
            n < (len + 1) * (len + 1),
            0 <= len,
    ;
    assert(a * a * 0x1_0000_0000 <= n && b * b * 0x1_0000_0000 <= n) by (nonlinear_arith)
        requires
            n == (a * a + b * b) * 0x1_0000_0000,
            a * a >= 0,
            b * b >= 0,
    ;
    let p = lemma_quotient(a, n, len);
    let q = lemma_quotient(b, n, len);
    lemma_quotients_are_unit(a, b, len, p, q);
    let h = v.normalised();
    assert(h.x == p || h.x == -p);
    assert(h.y == q || h.y == -q);
    assert(h.norm_sq() == p * p + q * q) by (nonlinear_arith)
        requires
            h.norm_sq() == h.x * h.x + h.y * h.y,
            h.x == p || h.x == -p,
            h.y == q || h.y == -q,
    ;
}

/// Neither component of a unit vector exceeds 1 by more than one unit in
/// the last place.
pub proof fn lemma_unit_within(v: Vector)
    requires
        v.is_unit(),
    ensures
        v.within(ONE + 1),
        !v.is_zero(),
{
    assert(-0x1_0001 <= v.x <= 0x1_0001 && -0x1_0001 <= v.y <= 0x1_0001) by (nonlinear_arith)
        requires
            v.x * v.x + v.y * v.y <= 0x1_0001 * 0x1_0001,
    ;
}

/// A plane vector with fixed-point components.
#[derive(Clone, Copy, Debug, PartialEq, Eq, Structural)]
pub struct Vec2 {
    pub x: i64,
    pub y: i64,
}

impl View for Vec2 {
    type V = Vector;

    open spec fn view(&self) -> Vector {
        Vector { x: self.x as int, y: self.y as int }
    }
}

/// The magnitude of `c`.
fn magnitude(c: i64) -> (m: u128)
    requires
        c > i64::MIN,
    ensures
        m == (if c >= 0 {
            c as int
        } else {
            -c
        }),
{
    if c >= 0 {
        c as u128
    } else {
        (-c) as u128
    }
}

impl Vec2 {
    /// Whether the vector's length is 1 to within three units in the last
    /// place.
    pub fn is_unit(&self) -> (unit: bool)
        ensures
            unit == self@.is_unit(),
    {
        if self.x < -0x1_0001 || self.x > 0x1_0001 || self.y < -0x1_0001 || self.y > 0x1_0001 {
            proof {
                if self@.is_unit() {
                    lemma_unit_within(self@);
                }
            }
            return false;
        }
        proof {
            lemma_product_bound(self.x as int, self.x as int, 0x1_0001, 0x1_0001);
            lemma_product_bound(self.y as int, self.y as int, 0x1_0001, 0x1_0001);
        }
        let n: i64 = self.x * self.x + self.y * self.y;
        (ONE - 3) * (ONE - 3) <= n && n <= (ONE + 1) * (ONE + 1)
    }

    /// The vector `(x, y)`.
    pub fn new(x: i64, y: i64) -> (v: Vec2)
        ensures
            v@ == (Vector { x: x as int, y: y as int }),
    {
        Vec2 { x, y }
    }

    /// The sum of two vectors.
    pub fn plus(self, other: Vec2) -> (v: Vec2)
        requires
            self@.within(0x2000_0000_0000_0000),
            other@.within(0x2000_0000_0000_0000),
        ensures
            v@ == self@.plus(other@),
    {
        Vec2 { x: self.x + other.x, y: self.y + other.y }
    }

    /// The vector times the integer `n`.
    pub fn times(self, n: i64) -> (v: Vec2)
        requires
            self@.within(0x4000_0000),
            -0x4000_0000 <= n <= 0x4000_0000,
        ensures
            v@ == self@.times(n as int),
    {
        proof {
            lemma_product_bound(self.x as int, n as int, 0x4000_0000, 0x4000_0000);
            lemma_product_bound(self.y as int, n as int, 0x4000_0000, 0x4000_0000);
        }
        Vec2 { x: self.x * n, y: self.y * n }
    }

    /// The vector times the fixed-point number `k`, each component rounded
    /// to the nearest 65536th.
    pub fn scaled(self, k: i64) -> (v: Vec2)
        requires
            i64::MIN <= self.x * k <= i64::MAX - HALF,
            i64::MIN <= self.y * k <= i64::MAX - HALF,
        ensures
            v@ == self@.scaled(k as int),
    {
        Vec2 { x: scale(self.x, k), y: scale(self.y, k) }
    }

    /// The mirror image of the vector in the first axis.
    pub fn conjugate(self) -> (v: Vec2)
        requires
            self.y > i64::MIN,
        ensures
            v@ == self@.conjugate(),
    {
        Vec2 { x: self.x, y: -self.y }
    }

    /// The vector turned by the rotation `r`.
    pub fn rotated(self, r: Vec2) -> (v: Vec2)
        requires
            self@.within(ROTATE_LIMIT as int),
            r@.within(ROTATION_LIMIT as int),
        ensures
            v@ == self@.rotated(r@),
    {
        proof {
            lemma_product_bound(self.x as int, r.x as int, 0x100_0000_0000, 0x10_0000);
            lemma_product_bound(self.y as int, r.y as int, 0x100_0000_0000, 0x10_0000);
            lemma_product_bound(self.x as int, r.y as int, 0x100_0000_0000, 0x10_0000);
            lemma_product_bound(self.y as int, r.x as int, 0x100_0000_0000, 0x10_0000);
        }
        let x: i64 = floor_div(self.x * r.x - self.y * r.y + HALF, ONE);
        let y: i64 = floor_div(self.x * r.y + self.y * r.x + HALF, ONE);
        Vec2 { x, y }
    }

    /// The vector of length 1 that points the way this one does; the zero
    /// vector is handed back as it is.
    pub fn normalised(self) -> (v: Vec2)
        requires
            self@.within(NORM_LIMIT as int),
        ensures
            v@ == self@.normalised(),
            !self@.is_zero() ==> v@.is_unit() && v@.within(ONE as int),
    {
        if self.x == 0 && self.y == 0 {
            return self;
        }
        let a: u128 = magnitude(self.x);
        let b: u128 = magnitude(self.y);
        proof {
            lemma_product_bound(a as int, a as int, 0x8000_0000_0000, 0x8000_0000_0000);
            lemma_product_bound(b as int, b as int, 0x8000_0000_0000, 0x8000_0000_0000);
            assert(self@.norm_sq() == a * a + b * b) by (nonlinear_arith)
                requires
                    self@.norm_sq() == self.x * self.x + self.y * self.y,
                    a == self.x || a == -self.x,
                    b == self.y || b == -self.y,
            ;
            lemma_normalised_is_unit(self@);
        }
        let n: u128 = (a * a + b * b) * 0x1_0000_0000;
        let len: u128 = isqrt(n);
        let p: u128 = a * 0x1_0000_0000 / len;
        let q: u128 = b * 0x1_0000_0000 / len;
        let x: i64 = if self.x >= 0 {
            p as i64
        } else {
            -(p as i64)
        };
        let y: i64 = if self.y >= 0 {
            q as i64
        } else {
            -(q as i64)
        };
        Vec2 { x, y }
    }
    /// The rotation by 2^`i` 65536ths of a turn.
    fn turn_step(i: u32) -> (r: Vec2)
        requires
            i < 16,
        ensures
            r@ == Vector::turn_step(i as int),
            r@.within(ONE as int),
    {
        if i == 0 {
            Vec2 { x: 65536, y: 6 }
        } else if i == 1 {
            Vec2 { x: 65536, y: 13 }
        } else if i == 2 {
            Vec2 { x: 65536, y: 25 }
        } else if i == 3 {
            Vec2 { x: 65536, y: 50 }
        } else if i == 4 {
            Vec2 { x: 65536, y: 101 }
        } else if i == 5 {
            Vec2 { x: 65536, y: 201 }
        } else if i == 6 {
            Vec2 { x: 65535, y: 402 }
        } else if i == 7 {
            Vec2 { x: 65531, y: 804 }
        } else if i == 8 {
            Vec2 { x: 65516, y: 1608 }
        } else if i == 9 {
            Vec2 { x: 65457, y: 3216 }
        } else if i == 10 {
            Vec2 { x: 65220, y: 6424 }
        } else if i == 11 {
            Vec2 { x: 64277, y: 12785 }
        } else if i == 12 {
            Vec2 { x: 60547, y: 25080 }
        } else if i == 13 {
            Vec2 { x: 46341, y: 46341 }
        } else if i == 14 {
            Vec2 { x: 0, y: 65536 }
        } else {
            Vec2 { x: -65536, y: 0 }
        }
    }

    /// The unit vector at `turn` 65536ths of a turn from the first axis.
    pub fn from_turn(turn: u16) -> (v: Vec2)
        ensures
            v@ == Vector::from_turn(turn as int),
            v@.is_unit(),
            v@.within(ONE as int),
    {
        let mut acc = Vec2 { x: ONE, y: 0 };
        let mut rest: u16 = turn;
        let mut limit: i64 = ONE;
        let mut i: u32 = 0;
        proof {
            lemma2_to64();
        }
        while i < 16
            invariant
                i <= 16,
                limit == ONE * pow2(i as nat),
                acc@.within(limit as int),
                Vector::wound(acc@, rest as int, i as int) == Vector::wound(
                    Vector::east(),
                    turn as int,
                    0,
                ),
            decreases 16 - i,
        {
            proof {
                lemma2_to64();
                lemma_pow2_strictly_increases(i as nat, 16);
                lemma_pow2_unfold((i + 1) as nat);
            }
            if rest % 2 == 1 {
                let r = Vec2::turn_step(i);
                proof {
                    lemma_product_bound(acc.x as int, r.x as int, limit as int, ONE as int);
                    lemma_product_bound(acc.y as int, r.y as int, limit as int, ONE as int);
                    lemma_product_bound(acc.x as int, r.y as int, limit as int, ONE as int);
                    lemma_product_bound(acc.y as int, r.x as int, limit as int, ONE as int);
                }
                acc = acc.rotated(r);
            }
            rest = rest / 2;
            limit = limit * 2;
            i += 1;
        }
        if acc.x == 0 && acc.y == 0 {
            let east = Vec2 { x: ONE, y: 0 };
            assert(east@.norm_sq() == ONE * ONE) by (nonlinear_arith)
                requires
                    east@.norm_sq() == east@.x * east@.x + east@.y * east@.y,
                    east@.x == ONE,
                    east@.y == 0,
            ;
            east
        } else {
            proof {
                lemma2_to64();
            }
            acc.normalised()
        }
    }
}

} // verus!
