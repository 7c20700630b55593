//! Two-dimensional fixed-point vectors.
use vstd::prelude::*;

use crate::fixed::{
    abs, ceil_sqrt, div_trunc, div_trunc_wide, floor_sqrt, in_range, isqrt,
    lemma_ceil_sqrt_bounds, lemma_div_trunc_bracket, UNIT,
};

verus! {

/// A point or a displacement, in `1 / UNIT` pixel steps on each axis.
#[derive(Clone, Copy, Debug, PartialEq, Eq, Structural)]
pub struct Vec2 {
    pub x: i64,
    pub y: i64,
}

impl Vec2 {
    pub open spec fn in_range(self) -> bool {
        in_range(self.x as int) && in_range(self.y as int)
    }

    pub open spec fn neg(self) -> Vec2 {
        Vec2 { x: (-self.x) as i64, y: (-self.y) as i64 }
    }

    pub fn new(x: i64, y: i64) -> (r: Vec2)
        ensures
            r == (Vec2 { x, y }),
    {
        Vec2 { x, y }
    }

    pub fn zero() -> (r: Vec2)
        ensures
            r == (Vec2 { x: 0, y: 0 }),
    {
        Vec2 { x: 0, y: 0 }
    }

    /// The opposite vector.
    pub fn negated(self) -> (r: Vec2)
        requires
            self.in_range(),
        ensures
            r == self.neg(),
            r.in_range(),
    {
        Vec2 { x: -self.x, y: -self.y }
    }

    /// The unit direction from `self` toward `target` (length `UNIT` up to
    /// rounding, see `unit_toward`); the zero vector when the two points
    /// coincide.
    pub fn direction_to(self, target: Vec2) -> (r: Vec2)
        requires
            self.in_range(),
            target.in_range(),
        ensures
            r == unit_toward(self, target),
            self == target ==> r == (Vec2 { x: 0, y: 0 }),
            self != target ==> is_direction(r) && abs(
                r.x * (target.y - self.y) - r.y * (target.x - self.x),
            ) < abs(target.x - self.x) + abs(target.y - self.y),
            -UNIT <= r.x <= UNIT && -UNIT <= r.y <= UNIT,
    {
        proof {
            lemma_unit_toward(self, target);
        }
        let dx: i128 = target.x as i128 - self.x as i128;
        let dy: i128 = target.y as i128 - self.y as i128;
        if dx == 0 && dy == 0 {
            return Vec2 { x: 0, y: 0 };
        }
        let ax: u128 = if dx >= 0 { dx as u128 } else { (-dx) as u128 };
        let ay: u128 = if dy >= 0 { dy as u128 } else { (-dy) as u128 };
        let m: u128 = if ax >= ay { ax } else { ay };
        let f: u128 = if m < 0x10_0000 {
            0x100_0000_0000
        } else if m < 0x100_0000_0000 {
            0x10_0000
        } else {
            1
        };
        assert(ax * f <= 0x8000_0000_0000_0000 && ay * f <= 0x8000_0000_0000_0000) by (
        nonlinear_arith)
            requires
                ax <= m,
                ay <= m,
                m <= 0x8000_0000_0000_0000u128,
                m < 0x10_0000 ==> f == 0x100_0000_0000,
                0x10_0000 <= m < 0x100_0000_0000 ==> f == 0x10_0000,
                m >= 0x100_0000_0000 ==> f == 1,
        ;
        let wx: u128 = ax * f;
        let wy: u128 = ay * f;
        assert(wx * wx <= 0x4000_0000_0000_0000_0000_0000_0000_0000) by (nonlinear_arith)
            requires
                wx <= 0x8000_0000_0000_0000u128,
        ;
        assert(wy * wy <= 0x4000_0000_0000_0000_0000_0000_0000_0000) by (nonlinear_arith)
            requires
                wy <= 0x8000_0000_0000_0000u128,
        ;
        let sq: u128 = wx * wx + wy * wy;
        let a: i128 = dx * (f as i128);
        let b: i128 = dy * (f as i128);
        assert(sq == a * a + b * b) by (nonlinear_arith)
            requires
                ax == abs(dx as int),
                ay == abs(dy as int),
                wx == ax * f,
                wy == ay * f,
                a == dx * f,
                b == dy * f,
                sq == wx * wx + wy * wy,
        ;
        assert(sq > 0) by (nonlinear_arith)
            requires
                sq == a * a + b * b,
                a == dx * f,
                b == dy * f,
                f >= 1,
                dx != 0 || dy != 0,
        ;
        assert(f == widening(m as int));
        let s: u128 = isqrt(sq);
        proof {
            lemma_ceil_sqrt_bounds(sq as nat);
            crate::fixed::lemma_floor_sqrt_bounds(sq as nat);
        }
        let len: u128 = if s * s == sq { s } else { s + 1 };
        assert(len > 0) by (nonlinear_arith)
            requires
                sq <= len * len,
                sq > 0,
        ;
        assert(len == ceil_sqrt(sq as nat));
        let ux = div_trunc_wide(a * (UNIT as i128), len);
        let uy = div_trunc_wide(b * (UNIT as i128), len);
        Vec2 { x: ux as i64, y: uy as i64 }
    }
}

/// Close to unit length: the squared length lies in `[(UNIT - 2)^2, UNIT^2]`.
pub open spec fn is_direction(v: Vec2) -> bool {
    (UNIT - 2) * (UNIT - 2) <= v.x * v.x + v.y * v.y <= UNIT * UNIT
}

/// The factor by which a displacement whose larger axis is `m` is widened
/// before it is normalised, so that its length is at least `2^40` and its
/// squared length still fits in 128 bits.
pub open spec fn widening(m: int) -> int {
    if m < 0x10_0000 {
        0x100_0000_0000
    } else if m < 0x100_0000_0000 {
        0x10_0000
    } else {
        1
    }
}

/// The direction from `from` toward `to`, of length `UNIT` up to rounding:
/// the displacement is widened, divided by its length rounded up, and each
/// axis is rounded toward zero. The zero vector when the points coincide.
pub open spec fn unit_toward(from: Vec2, to: Vec2) -> Vec2 {
    let dx = to.x - from.x;
    let dy = to.y - from.y;
    if dx == 0 && dy == 0 {
        Vec2 { x: 0, y: 0 }
    } else {
        let f = widening(if abs(dx) >= abs(dy) { abs(dx) } else { abs(dy) });
        let a = dx * f;
        let b = dy * f;
        let len = ceil_sqrt((a * a + b * b) as nat) as int;
        Vec2 { x: div_trunc(a * UNIT, len) as i64, y: div_trunc(b * UNIT, len) as i64 }
    }
}

/// Normalising a nonzero displacement `(a, b)` of length at least `2^40` by
/// its length rounded up.
proof fn lemma_normalise(a: int, b: int, len: int)
    requires
        a != 0 || b != 0,
        len >= 0x100_0000_0000,
        (len - 1) * (len - 1) < a * a + b * b <= len * len,
    ensures
        ({
            let qx = div_trunc(a * UNIT, len);
            let qy = div_trunc(b * UNIT, len);
            &&& (UNIT - 2) * (UNIT - 2) <= qx * qx + qy * qy <= UNIT * UNIT
            &&& -UNIT <= qx <= UNIT && -UNIT <= qy <= UNIT
            &&& abs(qx * b - qy * a) < abs(a) + abs(b)
            &&& (a >= 0 ==> qx >= 0) && (a <= 0 ==> qx <= 0)
            &&& (b >= 0 ==> qy >= 0) && (b <= 0 ==> qy <= 0)
        }),
{
    let u = UNIT as int;
    let qx = div_trunc(a * u, len);
    let qy = div_trunc(b * u, len);
    lemma_div_trunc_bracket(a * u, len);
    lemma_div_trunc_bracket(b * u, len);
    let (ea, eb) = (abs(a), abs(b));
    let (x, y) = (abs(qx), abs(qy));
    assert(abs(a * u) == ea * u && abs(b * u) == eb * u) by (nonlinear_arith)
        requires
            ea == abs(a),
            eb == abs(b),
            u > 0,
    ;
    assert(ea * ea + eb * eb == a * a + b * b) by (nonlinear_arith)
        requires
            ea == abs(a),
            eb == abs(b),
    ;
    assert(x * x == qx * qx && y * y == qy * qy) by (nonlinear_arith)
        requires
            x == abs(qx),
            y == abs(qy),
    ;
    let n = a * a + b * b;
    // upper bound
    assert(x * x * (len * len) <= ea * ea * (u * u)) by (nonlinear_arith)
        requires
            0 <= x * len <= ea * u,
            x >= 0,
            len > 0,
    ;
    assert(y * y * (len * len) <= eb * eb * (u * u)) by (nonlinear_arith)
        requires
            0 <= y * len <= eb * u,
            y >= 0,
            len > 0,
    ;
    assert(x * x + y * y <= u * u) by (nonlinear_arith)
        requires
            x * x * (len * len) <= ea * ea * (u * u),
            y * y * (len * len) <= eb * eb * (u * u),
            ea * ea + eb * eb == n,
            n <= len * len,
            len > 0,
    ;
    assert(x <= u && y <= u) by (nonlinear_arith)
        requires
            x * x + y * y <= u * u,
            x >= 0,
            y >= 0,
            u > 0,
    ;
    // lower bound
    assert((x + 1) * (x + 1) * (len * len) >= ea * ea * (u * u)) by (nonlinear_arith)
        requires
            ea * u < (x + 1) * len,
            ea >= 0,
            u > 0,
            len > 0,
    ;
    assert((y + 1) * (y + 1) * (len * len) >= eb * eb * (u * u)) by (nonlinear_arith)
        requires
            eb * u < (y + 1) * len,
            eb >= 0,
            u > 0,
            len > 0,
    ;
    assert(2 * (x + y) <= 3 * u) by (nonlinear_arith)
        requires
            x * x + y * y <= u * u,
            x >= 0,
            y >= 0,
            u > 0,
    ;
    let q = x * x + y * y;
    let sum = (x + 1) * (x + 1) + (y + 1) * (y + 1);
    assert(len * len * sum >= n * (u * u)) by (nonlinear_arith)
        requires
            (x + 1) * (x + 1) * (len * len) >= ea * ea * (u * u),
            (y + 1) * (y + 1) * (len * len) >= eb * eb * (u * u),
            ea * ea + eb * eb == n,
            sum == (x + 1) * (x + 1) + (y + 1) * (y + 1),
    ;
    assert(sum <= q + 3 * u + 2) by (nonlinear_arith)
        requires
            sum == (x + 1) * (x + 1) + (y + 1) * (y + 1),
            q == x * x + y * y,
            2 * (x + y) <= 3 * u,
    ;
    assert(n * (u * u) >= (len - 1) * (len - 1) * (u * u)) by (nonlinear_arith)
        requires
            (len - 1) * (len - 1) < n,
    ;
    assert(len * len * (q + 3 * u + 2) >= len * len * sum) by (nonlinear_arith)
        requires
            sum <= q + 3 * u + 2,
    ;
    assert(q >= u * u - 3 * u - 2) by (nonlinear_arith)
        requires
            len * len * (q + 3 * u + 2) >= (len - 1) * (len - 1) * (u * u),
            len >= 0x100_0000_0000,
            u == 65536,
            q >= 0,
    ;
    // direction
    let ex = a * u - qx * len;
    let ey = b * u - qy * len;
    assert(abs(ex) < len && abs(ey) < len) by (nonlinear_arith)
        requires
            ex == a * u - qx * len,
            ey == b * u - qy * len,
            x * len <= ea * u < (x + 1) * len,
            y * len <= eb * u < (y + 1) * len,
            a >= 0 ==> qx >= 0,
            a <= 0 ==> qx <= 0,
            b >= 0 ==> qy >= 0,
            b <= 0 ==> qy <= 0,
            x == abs(qx),
            y == abs(qy),
            ea == abs(a),
            eb == abs(b),
            u > 0,
    ;
    let c = qx * b - qy * a;
    assert(len * c == ey * a - ex * b) by (nonlinear_arith)
        requires
            ex == a * u - qx * len,
            ey == b * u - qy * len,
            c == qx * b - qy * a,
    ;
    assert(abs(ey * a - ex * b) < len * (ea + eb)) by (nonlinear_arith)
        requires
            abs(ex) < len,
            abs(ey) < len,
            ea == abs(a),
            eb == abs(b),
            ea > 0 || eb > 0,
    ;
    assert(abs(c) < ea + eb) by (nonlinear_arith)
        requires
            len * c == ey * a - ex * b,
            abs(ey * a - ex * b) < len * (ea + eb),
            len > 0,
    ;
}

/// The direction between two points is zero exactly when they coincide;
/// otherwise it is close to unit length and parallel to the displacement up
/// to rounding. Each axis lies within `[-UNIT, UNIT]` and has the sign of the
/// displacement on that axis.
pub proof fn lemma_unit_toward(from: Vec2, to: Vec2)
    ensures
        ({
            let r = unit_toward(from, to);
            let dx = to.x - from.x;
            let dy = to.y - from.y;
            &&& -UNIT <= r.x <= UNIT && -UNIT <= r.y <= UNIT
            &&& (r == Vec2 { x: 0, y: 0 }) <==> from == to
            &&& from != to ==> is_direction(r) && abs(r.x * dy - r.y * dx) < abs(dx) + abs(dy)
            &&& dx >= 0 ==> r.x >= 0
            &&& dx <= 0 ==> r.x <= 0
            &&& dy >= 0 ==> r.y >= 0
            &&& dy <= 0 ==> r.y <= 0
        }),
{
    let dx = to.x - from.x;
    let dy = to.y - from.y;
    if from != to {
        let m = if abs(dx) >= abs(dy) { abs(dx) } else { abs(dy) };
        let f = widening(m);
        let a = dx * f;
        let b = dy * f;
        let n = a * a + b * b;
        assert(n >= 0) by (nonlinear_arith)
            requires
                n == a * a + b * b,
        ;
        let len = ceil_sqrt(n as nat) as int;
        assert(f >= 1 && (a != 0 || b != 0)) by (nonlinear_arith)
            requires
                dx != 0 || dy != 0,
                f >= 1,
                a == dx * f,
                b == dy * f,
        ;
        assert(m * f >= 0x100_0000_0000) by (nonlinear_arith)
            requires
                m >= 1,
                m < 0x10_0000 ==> f == 0x100_0000_0000,
                0x10_0000 <= m < 0x100_0000_0000 ==> f == 0x10_0000,
                m >= 0x100_0000_0000 ==> f == 1,
        ;
        lemma_ceil_sqrt_bounds(n as nat);
        assert(len >= 0x100_0000_0000) by (nonlinear_arith)
            requires
                n <= len * len,
                n == a * a + b * b,
                a == dx * f,
                b == dy * f,
                m == abs(dx) || m == abs(dy),
                m * f >= 0x100_0000_0000,
                f >= 1,
                len >= 0,
        ;
        lemma_normalise(a, b, len);
        let r = unit_toward(from, to);
        let qx = div_trunc(a * UNIT, len);
        let qy = div_trunc(b * UNIT, len);
        assert(r.x == qx && r.y == qy);
        assert(abs(qx * dy - qy * dx) < abs(dx) + abs(dy)) by (nonlinear_arith)
            requires
                abs(qx * b - qy * a) < abs(a) + abs(b),
                a == dx * f,
                b == dy * f,
                f >= 1,
        ;
        assert(dx >= 0 ==> a >= 0) by (nonlinear_arith)
            requires
                a == dx * f,
                f >= 1,
        ;
        assert(dx <= 0 ==> a <= 0) by (nonlinear_arith)
            requires
                a == dx * f,
                f >= 1,
        ;
        assert(dy >= 0 ==> b >= 0) by (nonlinear_arith)
            requires
                b == dy * f,
                f >= 1,
        ;
        assert(dy <= 0 ==> b <= 0) by (nonlinear_arith)
            requires
                b == dy * f,
                f >= 1,
        ;
        assert(r != Vec2 { x: 0, y: 0 }) by (nonlinear_arith)
            requires
                (UNIT - 2) * (UNIT - 2) <= r.x * r.x + r.y * r.y,
        ;
    }
}

} // verus!
