//! Integer 2D vectors and the arithmetic helpers the simulation core is built
//! on: grid snapping, squared distances, integer square roots and scaled
//! steps along a direction.
use vstd::prelude::*;

verus! {

use crate::COORD_LIMIT;

/// A position or displacement in world units. Entity positions are
/// continuous (not grid-snapped); grid cells are addressed by snapped
/// vectors whose components are multiples of 32.
#[derive(Clone, Copy, PartialEq, Eq, Structural, Debug)]
pub struct Vec2i {
    pub x: i32,
    pub y: i32,
}

impl Vec2i {
    pub fn new(x: i32, y: i32) -> (v: Vec2i)
        ensures
            v.x == x,
            v.y == y,
    {
        Vec2i { x, y }
    }

    pub open spec fn spec_in_range(self) -> bool {
        -COORD_LIMIT <= self.x <= COORD_LIMIT && -COORD_LIMIT <= self.y <= COORD_LIMIT
    }

}

/// Quotient of `x / 32` with truncation toward zero, the rule Rust's integer
/// division follows; Verus's spec-level `/` is Euclidean, so the negative
/// case is spelled out.
pub open spec fn trunc_div_32(x: int) -> int {
    if x >= 0 {
        x / 32
    } else {
        -((-x) / 32)
    }
}

/// A world coordinate snapped down to the origin of its grid cell.
pub open spec fn spec_snap(x: int) -> int {
    32 * trunc_div_32(x)
}

/// Snaps one coordinate to its cell origin by integer-dividing by 32.
pub fn snap_coord(x: i32) -> (r: i32)
    requires
        -COORD_LIMIT - 128 <= x <= COORD_LIMIT + 128,
    ensures
        r == spec_snap(x as int),
        -COORD_LIMIT - 128 <= r <= COORD_LIMIT + 128,
{
    if x >= 0 {
        (x / 32) * 32
    } else {
        let m: i32 = -x;
        -((m / 32) * 32)
    }
}

/// Whether a coordinate is already a cell origin.
pub open spec fn spec_snapped_coord(x: int) -> bool {
    x == spec_snap(x)
}

/// Whether both components of `c` are cell origins.
pub open spec fn spec_snapped(c: Vec2i) -> bool {
    spec_snapped_coord(c.x as int) && spec_snapped_coord(c.y as int)
}

pub proof fn lemma_snap_multiple(k: int)
    ensures
        spec_snap(32 * k) == 32 * k,
{
    if k >= 0 {
        vstd::arithmetic::div_mod::lemma_fundamental_div_mod_converse(32 * k, 32, k, 0);
    } else {
        vstd::arithmetic::div_mod::lemma_fundamental_div_mod_converse(-(32 * k), 32, -k, 0);
    }
}

/// Snapping is idempotent: every snapped value is a cell origin.
pub proof fn lemma_snap_idempotent(x: int)
    ensures
        spec_snapped_coord(spec_snap(x)),
{
    lemma_snap_multiple(trunc_div_32(x));
}

/// A cell origin shifted by whole cells is still a cell origin.
pub proof fn lemma_snap_shift(x: int, m: int)
    requires
        spec_snapped_coord(x),
    ensures
        spec_snap(x + 32 * m) == x + 32 * m,
{
    let t = trunc_div_32(x);
    assert(x == 32 * t);
    assert(x + 32 * m == 32 * (t + m));
    lemma_snap_multiple(t + m);
}

/// Snapping truncates toward zero, so it never grows a coordinate's
/// magnitude.
pub proof fn lemma_snap_toward_zero(x: int)
    ensures
        x >= 0 ==> 0 <= spec_snap(x) <= x,
        x <= 0 ==> x <= spec_snap(x) <= 0,
{
    if x >= 0 {
        vstd::arithmetic::div_mod::lemma_fundamental_div_mod(x, 32);
        vstd::arithmetic::div_mod::lemma_mod_bound(x, 32);
        if x / 32 < 0 {
            assert(32 * (x / 32) <= -32) by (nonlinear_arith)
                requires
                    x / 32 <= -1,
            ;
        }
        assert(32 * (x / 32) <= x);
    } else {
        vstd::arithmetic::div_mod::lemma_fundamental_div_mod(-x, 32);
        vstd::arithmetic::div_mod::lemma_mod_bound(-x, 32);
        if (-x) / 32 < 0 {
            assert(32 * ((-x) / 32) <= -32) by (nonlinear_arith)
                requires
                    (-x) / 32 <= -1,
            ;
        }
        assert(32 * ((-x) / 32) <= -x);
    }
}

/// On nonnegative cell origins the +15 collision probe stays in its cell.
pub proof fn lemma_probe_nonneg_snapped(x: int)
    requires
        spec_snapped_coord(x),
        x >= 0,
    ensures
        spec_snap(x + 15) == x,
{
    let t = trunc_div_32(x);
    assert(x == 32 * t);
    assert(t >= 0) by (nonlinear_arith)
        requires
            x == 32 * t,
            x >= 0,
    ;
    vstd::arithmetic::div_mod::lemma_fundamental_div_mod_converse(x + 15, 32, t, 15);
}

/// Quotient of `a / b` with truncation toward zero (`b > 0`).
pub open spec fn trunc_div(a: int, b: int) -> int {
    if a >= 0 {
        a / b
    } else {
        -((-a) / b)
    }
}

/// Squared Euclidean distance between two points, as a mathematical integer.
pub open spec fn spec_dist_sq(a: Vec2i, b: Vec2i) -> int {
    (a.x - b.x) * (a.x - b.x) + (a.y - b.y) * (a.y - b.y)
}

/// The integer square root: the largest `r` with `r * r <= n`.
pub open spec fn spec_isqrt(n: nat) -> nat
    decreases n,
{
    if n == 0 {
        0
    } else {
        let p = spec_isqrt((n - 1) as nat);
        if (p + 1) * (p + 1) <= n {
            p + 1
        } else {
            p
        }
    }
}

pub proof fn lemma_isqrt_bounds(n: nat)
    ensures
        spec_isqrt(n) * spec_isqrt(n) <= n,
        n < (spec_isqrt(n) + 1) * (spec_isqrt(n) + 1),
    decreases n,
{
    if n == 0 {
        assert(spec_isqrt(0) == 0);
        assert(n < (spec_isqrt(n) + 1) * (spec_isqrt(n) + 1)) by (nonlinear_arith)
            requires
                n == 0,
                spec_isqrt(n) == 0,
        ;
    } else {
        lemma_isqrt_bounds((n - 1) as nat);
        let p = spec_isqrt((n - 1) as nat);
        if (p + 1) * (p + 1) <= n {
            // isqrt grows to p + 1; n == (p + 1)^2 here, since n - 1 < (p + 1)^2.
            assert(spec_isqrt(n) == p + 1);
            assert(n <= (p + 1) * (p + 1));
            assert(n < (spec_isqrt(n) + 1) * (spec_isqrt(n) + 1)) by (nonlinear_arith)
                requires
                    p >= 0,
                    n <= (p + 1) * (p + 1),
                    spec_isqrt(n) == p + 1,
            ;
        } else {
            assert(spec_isqrt(n) == p);
            assert(p * p <= n);
            assert(n < (p + 1) * (p + 1));
        }
    }
}

pub proof fn lemma_isqrt_unique(n: nat, r: nat)
    requires
        r * r <= n,
        n < (r + 1) * (r + 1),
    ensures
        r == spec_isqrt(n),
{
    lemma_isqrt_bounds(n);
    let s = spec_isqrt(n);
    if r < s {
        assert((r + 1) * (r + 1) <= s * s) by (nonlinear_arith)
            requires
                r + 1 <= s,
        ;
    }
    if s < r {
        assert((s + 1) * (s + 1) <= r * r) by (nonlinear_arith)
            requires
                s + 1 <= r,
        ;
    }
}

/// Computes the integer square root by bisection.
pub fn isqrt(n: u64) -> (r: u64)
    requires
        n < 0x4000_0000_0000_0000,
    ensures
        r == spec_isqrt(n as nat),
        r * r <= n,
        n < (r + 1) * (r + 1),
{
    let mut lo: u64 = 0;
    let mut hi: u64 = 0x8000_0000;
    // Invariant: lo * lo <= n < hi * hi.
    assert(0x8000_0000u64 * 0x8000_0000u64 == 0x4000_0000_0000_0000) by (nonlinear_arith);
    while lo + 1 < hi
        invariant
            lo < hi <= 0x8000_0000,
            lo * lo <= n,
            n < hi * hi,
        decreases hi - lo,
    {
        let mid: u64 = lo + (hi - lo) / 2;
        proof {
            assert(mid * mid <= 0x8000_0000u64 * 0x8000_0000u64) by (nonlinear_arith)
                requires
                    0 <= mid <= 0x8000_0000u64,
            ;
        }
        if mid * mid <= n {
            lo = mid;
        } else {
            hi = mid;
        }
    }
    proof {
        lemma_isqrt_unique(n as nat, lo as nat);
    }
    lo
}

/// The distance between `delta`'s endpoints, truncated to an integer:
/// `isqrt(dx^2 + dy^2)`.
pub open spec fn spec_len(delta: Vec2i) -> int {
    spec_isqrt((delta.x * delta.x + delta.y * delta.y) as nat) as int
}

/// A displacement of (truncated) magnitude `mag` in the direction of
/// `delta`; the zero vector when `delta` is zero. This is the integer
/// counterpart of normalizing `delta` and scaling by `mag`.
pub open spec fn spec_scale_toward(delta: Vec2i, mag: int) -> Vec2i {
    let len = spec_len(delta);
    if len == 0 {
        Vec2i { x: 0, y: 0 }
    } else {
        Vec2i {
            x: trunc_div(delta.x * mag, len) as i32,
            y: trunc_div(delta.y * mag, len) as i32,
        }
    }
}

/// Each component of the scaled displacement is bounded by `mag`, because
/// `|delta.x| <= spec_len(delta)` whenever the length is nonzero.
proof fn lemma_axis_le_len(delta: Vec2i)
    requires
        -4 * COORD_LIMIT <= delta.x <= 4 * COORD_LIMIT,
        -4 * COORD_LIMIT <= delta.y <= 4 * COORD_LIMIT,
        spec_len(delta) != 0 || (delta.x == 0 && delta.y == 0),
    ensures
        -spec_len(delta) <= delta.x <= spec_len(delta),
        -spec_len(delta) <= delta.y <= spec_len(delta),
{
    let n = (delta.x * delta.x + delta.y * delta.y) as nat;
    lemma_isqrt_bounds(n);
    let len = spec_isqrt(n) as int;
    assert(delta.x * delta.x >= 0) by (nonlinear_arith);
    assert(delta.y * delta.y >= 0) by (nonlinear_arith);
    if delta.x > len || delta.x < -len {
        assert(delta.x * delta.x >= (len + 1) * (len + 1)) by (nonlinear_arith)
            requires
                delta.x > len || delta.x < -len,
                len >= 0,
        ;
    }
    if delta.y > len || delta.y < -len {
        assert(delta.y * delta.y >= (len + 1) * (len + 1)) by (nonlinear_arith)
            requires
                delta.y > len || delta.y < -len,
                len >= 0,
        ;
    }
}

/// Division of a bounded nonnegative product by the length keeps the
/// quotient below `mag`.
proof fn lemma_trunc_div_mag(a: int, mag: int, len: int)
    requires
        0 <= a <= len,
        0 <= mag,
        0 < len,
    ensures
        0 <= a * mag / len <= mag,
{
    assert(a * mag >= 0) by (nonlinear_arith)
        requires
            a >= 0,
            mag >= 0,
    ;
    assert(a * mag <= len * mag) by (nonlinear_arith)
        requires
            a <= len,
            mag >= 0,
    ;
    assert(a * mag / len >= 0) by (nonlinear_arith)
        requires
            a * mag >= 0,
            len > 0,
    ;
    assert(a * mag / len <= len * mag / len) by (nonlinear_arith)
        requires
            a * mag <= len * mag,
            len > 0,
    ;
    assert(len * mag / len == mag) by (nonlinear_arith)
        requires
            len > 0,
    ;
}

/// Signed version: the truncated quotient of `a * mag / len` lies in
/// `[-mag, mag]` when `|a| <= len`.
proof fn lemma_trunc_div_mag_signed(a: int, mag: int, len: int)
    requires
        -len <= a <= len,
        0 <= mag,
        0 < len,
    ensures
        -mag <= trunc_div(a * mag, len) <= mag,
{
    if a >= 0 {
        assert(a * mag >= 0) by (nonlinear_arith)
            requires
                a >= 0,
                mag >= 0,
        ;
        lemma_trunc_div_mag(a, mag, len);
    } else {
        assert(a * mag <= 0) by (nonlinear_arith)
            requires
                a <= 0,
                mag >= 0,
        ;
        assert((-a) * mag == -(a * mag)) by (nonlinear_arith);
        lemma_trunc_div_mag(-a, mag, len);
        if a * mag >= 0 {
            assert(a * mag == 0);
            assert(0int / len == 0) by (nonlinear_arith)
                requires
                    len > 0,
            ;
        }
    }
}

pub proof fn lemma_scale_toward_bounded(delta: Vec2i, mag: int)
    requires
        -4 * COORD_LIMIT <= delta.x <= 4 * COORD_LIMIT,
        -4 * COORD_LIMIT <= delta.y <= 4 * COORD_LIMIT,
        0 <= mag,
    ensures
        -mag <= spec_scale_toward(delta, mag).x <= mag,
        -mag <= spec_scale_toward(delta, mag).y <= mag,
{
    let len = spec_len(delta);
    let n = (delta.x * delta.x + delta.y * delta.y) as nat;
    lemma_isqrt_bounds(n);
    assert(delta.x * delta.x >= 0) by (nonlinear_arith);
    assert(delta.y * delta.y >= 0) by (nonlinear_arith);
    if len != 0 {
        lemma_axis_le_len(delta);
        lemma_trunc_div_mag_signed(delta.x as int, mag, len);
        lemma_trunc_div_mag_signed(delta.y as int, mag, len);
    }
}

/// Computes `spec_dist_sq(a, b)` on machine integers.
pub fn dist_sq(a: Vec2i, b: Vec2i) -> (r: u64)
    requires
        -4 * COORD_LIMIT <= a.x <= 4 * COORD_LIMIT,
        -4 * COORD_LIMIT <= a.y <= 4 * COORD_LIMIT,
        -4 * COORD_LIMIT <= b.x <= 4 * COORD_LIMIT,
        -4 * COORD_LIMIT <= b.y <= 4 * COORD_LIMIT,
    ensures
        r == spec_dist_sq(a, b),
{
    let dx: i64 = a.x as i64 - b.x as i64;
    let dy: i64 = a.y as i64 - b.y as i64;
    proof {
        assert(dx * dx <= 640000000000000000 && dx * dx >= 0) by (nonlinear_arith)
            requires
                -800000000 <= dx <= 800000000,
        ;
        assert(dy * dy <= 640000000000000000 && dy * dy >= 0) by (nonlinear_arith)
            requires
                -800000000 <= dy <= 800000000,
        ;
    }
    (dx * dx + dy * dy) as u64
}

/// One interpolation step of `num / den` of the way from `from` toward `to`
/// on a single axis, truncated toward zero but always advancing by at least
/// one unit while any gap remains, so that repeated steps reach the target.
pub open spec fn spec_step_axis(from: int, to: int, num: int, den: int) -> int {
    let d = to - from;
    let s = trunc_div(d * num, den);
    let s2 = if d != 0 && s == 0 {
        if d > 0 {
            1int
        } else {
            -1int
        }
    } else {
        s
    };
    from + s2
}

pub proof fn lemma_step_axis_bounds(from: int, to: int, num: int, den: int)
    requires
        1 <= num <= den,
    ensures
        from <= to ==> from <= spec_step_axis(from, to, num, den) <= to,
        to <= from ==> to <= spec_step_axis(from, to, num, den) <= from,
{
    let d = to - from;
    assert(d * num == num * d) by (nonlinear_arith);
    if d >= 0 {
        lemma_trunc_div_mag_signed(num, d, den);
    } else {
        assert(d * num == -((-d) * num)) by (nonlinear_arith);
        assert((-d) * num == num * (-d)) by (nonlinear_arith);
        lemma_trunc_div_mag_signed(num, -d, den);
    }
}

/// Computes `spec_step_axis` on machine integers.
pub fn step_axis(from: i32, to: i32, num: i32, den: i32) -> (r: i32)
    requires
        -4 * COORD_LIMIT <= from <= 4 * COORD_LIMIT,
        -4 * COORD_LIMIT <= to <= 4 * COORD_LIMIT,
        1 <= num <= den <= 1000,
    ensures
        r == spec_step_axis(from as int, to as int, num as int, den as int),
        from <= to ==> from <= r <= to,
        to <= from ==> to <= r <= from,
{
    proof {
        lemma_step_axis_bounds(from as int, to as int, num as int, den as int);
    }
    let d: i64 = to as i64 - from as i64;
    proof {
        assert(d * (num as i64) <= 800000000000 && d * (num as i64) >= -800000000000)
            by (nonlinear_arith)
            requires
                -800000000 <= d <= 800000000,
                0 <= num <= 1000,
        ;
    }
    let p: i64 = d * (num as i64);
    let s: i64 = if p >= 0 {
        ((p as u64) / (den as u64)) as i64
    } else {
        -((((-p) as u64) / (den as u64)) as i64)
    };
    proof {
        assert(s == trunc_div(d as int * num as int, den as int));
    }
    let s2: i64 = if d != 0 && s == 0 {
        if d > 0 {
            1
        } else {
            -1
        }
    } else {
        s
    };
    (from as i64 + s2) as i32
}

/// One interpolation step toward `to` on both axes.
pub open spec fn spec_step_toward(from: Vec2i, to: Vec2i, num: int, den: int) -> Vec2i {
    Vec2i {
        x: spec_step_axis(from.x as int, to.x as int, num, den) as i32,
        y: spec_step_axis(from.y as int, to.y as int, num, den) as i32,
    }
}

pub fn step_toward(from: Vec2i, to: Vec2i, num: i32, den: i32) -> (r: Vec2i)
    requires
        -4 * COORD_LIMIT <= from.x <= 4 * COORD_LIMIT,
        -4 * COORD_LIMIT <= from.y <= 4 * COORD_LIMIT,
        -4 * COORD_LIMIT <= to.x <= 4 * COORD_LIMIT,
        -4 * COORD_LIMIT <= to.y <= 4 * COORD_LIMIT,
        1 <= num <= den <= 1000,
    ensures
        r == spec_step_toward(from, to, num as int, den as int),
        -4 * COORD_LIMIT <= r.x <= 4 * COORD_LIMIT,
        -4 * COORD_LIMIT <= r.y <= 4 * COORD_LIMIT,
{
    Vec2i { x: step_axis(from.x, to.x, num, den), y: step_axis(from.y, to.y, num, den) }
}

/// Computes `spec_scale_toward(delta, mag)` on machine integers.
pub fn scale_toward(delta: Vec2i, mag: i32) -> (r: Vec2i)
    requires
        -4 * COORD_LIMIT <= delta.x <= 4 * COORD_LIMIT,
        -4 * COORD_LIMIT <= delta.y <= 4 * COORD_LIMIT,
        0 <= mag <= 100000,
    ensures
        r == spec_scale_toward(delta, mag as int),
        -mag <= r.x <= mag,
        -mag <= r.y <= mag,
{
    proof {
        lemma_scale_toward_bounded(delta, mag as int);
    }
    let dx: i64 = delta.x as i64;
    let dy: i64 = delta.y as i64;
    proof {
        assert(dx * dx <= 160000000000000000 && dx * dx >= 0) by (nonlinear_arith)
            requires
                -400000000 <= dx <= 400000000,
        ;
        assert(dy * dy <= 160000000000000000 && dy * dy >= 0) by (nonlinear_arith)
            requires
                -400000000 <= dy <= 400000000,
        ;
    }
    let n: u64 = (dx * dx + dy * dy) as u64;
    let len: u64 = isqrt(n);
    if len == 0 {
        Vec2i { x: 0, y: 0 }
    } else {
        proof {
            assert(dx * (mag as i64) <= 40000000000000 && dx * (mag as i64)
                >= -40000000000000) by (nonlinear_arith)
                requires
                    -400000000 <= dx <= 400000000,
                    0 <= mag <= 100000,
            ;
            assert(dy * (mag as i64) <= 40000000000000 && dy * (mag as i64)
                >= -40000000000000) by (nonlinear_arith)
                requires
                    -400000000 <= dy <= 400000000,
                    0 <= mag <= 100000,
            ;
        }
        let sx: i64 = dx * (mag as i64);
        let sy: i64 = dy * (mag as i64);
        proof {
            assert(forall|a: u64| len > 0 ==> #[trigger] (a / len) <= a) by (nonlinear_arith);
        }
        let qx: i64 = if sx >= 0 {
            ((sx as u64) / len) as i64
        } else {
            -((((-sx) as u64) / len) as i64)
        };
        let qy: i64 = if sy >= 0 {
            ((sy as u64) / len) as i64
        } else {
            -((((-sy) as u64) / len) as i64)
        };
        proof {
            assert(qx == trunc_div(delta.x * mag, len as int));
            assert(qy == trunc_div(delta.y * mag, len as int));
        }
        Vec2i { x: qx as i32, y: qy as i32 }
    }
}

} // verus!
