use vstd::prelude::*;

verus! {

/// Positions are fixed-point: one unit of the plane is this many steps.
pub const MILLI: i64 = 1000;

/// Largest coordinate magnitude that any stored vector may have.
pub const COORD_LIMIT: i64 = 1_000_000_000_000;

/// Headings are scaled by this before their length is taken, so that
/// rounding the square root up costs a negligible fraction of a step.
pub const UNIT_SCALE: i64 = 1_000_000;

/// An upper bound on the square root of the squared length of any scaled
/// difference of two vectors within `COORD_LIMIT`.
pub const ROOT_BOUND: u128 = 4_000_000_000_000_000_000;

/// A vector of the plane (z is carried along and stays zero in practice).
#[derive(Clone, Copy, Debug, PartialEq, Eq, Structural)]
pub struct Vector3 {
    pub x: i64,
    pub y: i64,
    pub z: i64,
}

pub open spec fn bounded(v: Vector3, b: int) -> bool {
    -b <= v.x <= b && -b <= v.y <= b && -b <= v.z <= b
}

pub open spec fn in_limits(v: Vector3) -> bool {
    bounded(v, COORD_LIMIT as int)
}

pub open spec fn spec_zero() -> Vector3 {
    Vector3 { x: 0, y: 0, z: 0 }
}

pub open spec fn is_zero(v: Vector3) -> bool {
    v.x == 0 && v.y == 0 && v.z == 0
}

pub open spec fn spec_sub(a: Vector3, b: Vector3) -> Vector3 {
    Vector3 { x: (a.x - b.x) as i64, y: (a.y - b.y) as i64, z: (a.z - b.z) as i64 }
}

pub open spec fn spec_add(a: Vector3, b: Vector3) -> Vector3 {
    Vector3 { x: (a.x + b.x) as i64, y: (a.y + b.y) as i64, z: (a.z + b.z) as i64 }
}

pub open spec fn spec_neg(a: Vector3) -> Vector3 {
    Vector3 { x: -a.x as i64, y: -a.y as i64, z: -a.z as i64 }
}

/// Squared Euclidean length.
pub open spec fn norm2(v: Vector3) -> int {
    v.x * v.x + v.y * v.y + v.z * v.z
}

/// `|v| < r`, decided exactly on squares.
pub open spec fn shorter_than(v: Vector3, r: int) -> bool {
    norm2(v) < r * r
}

/// The smallest `r` with `n <= r * r`.
pub open spec fn is_ceil_sqrt(n: int, r: int) -> bool {
    0 <= r && n <= r * r && (r == 0 || (r - 1) * (r - 1) < n)
}

/// The ceiling of the square root of `n`.
pub open spec fn ceil_root(n: int) -> int {
    choose|r: int| is_ceil_sqrt(n, r)
}

/// `a * step / len`, rounded toward zero.
pub open spec fn scale_component(a: int, step: int, len: int) -> int {
    if a >= 0 {
        (a * step) / len
    } else {
        -(((-a) * step) / len)
    }
}

/// The displacement `unit(h) * step`, where `unit(h)` is the unit vector along
/// `h` (the zero vector when `h` is zero). The length of `h * UNIT_SCALE` is
/// taken as the ceiling of its square root, so the result never overshoots
/// `step` and falls short of it by only a few steps (`lemma_unit_heading`).
pub open spec fn displacement(h: Vector3, step: int) -> Vector3 {
    let sc = UNIT_SCALE as int;
    let len = ceil_root(norm2(h) * (sc * sc));
    if is_zero(h) {
        spec_zero()
    } else {
        Vector3 {
            x: scale_component(h.x * sc, step, len) as i64,
            y: scale_component(h.y * sc, step, len) as i64,
            z: scale_component(h.z * sc, step, len) as i64,
        }
    }
}

impl Vector3 {
    pub fn new(x: i64, y: i64, z: i64) -> (r: Vector3)
        ensures
            r == (Vector3 { x, y, z }),
    {
        Vector3 { x, y, z }
    }

    pub fn zero() -> (r: Vector3)
        ensures
            r == spec_zero(),
    {
        Vector3 { x: 0, y: 0, z: 0 }
    }

    pub fn is_zero(&self) -> (r: bool)
        ensures
            r == is_zero(*self),
    {
        self.x == 0 && self.y == 0 && self.z == 0
    }

    pub fn sub(&self, o: &Vector3) -> (r: Vector3)
        requires
            in_limits(*self),
            in_limits(*o),
        ensures
            r == spec_sub(*self, *o),
            bounded(r, 2 * COORD_LIMIT),
    {
        Vector3 { x: self.x - o.x, y: self.y - o.y, z: self.z - o.z }
    }

    pub fn add(&self, o: &Vector3) -> (r: Vector3)
        requires
            bounded(*self, COORD_LIMIT as int),
            bounded(*o, COORD_LIMIT as int),
        ensures
            r == spec_add(*self, *o),
    {
        Vector3 { x: self.x + o.x, y: self.y + o.y, z: self.z + o.z }
    }

    pub fn neg(&self) -> (r: Vector3)
        requires
            bounded(*self, 2 * COORD_LIMIT),
        ensures
            r == spec_neg(*self),
    {
        Vector3 { x: -self.x, y: -self.y, z: -self.z }
    }

    /// Squared length, exact.
    pub fn length_squared(&self) -> (r: u128)
        requires
            bounded(*self, 2 * COORD_LIMIT),
        ensures
            r == norm2(*self),
            r <= 12_000_000_000_000_000_000_000_000,
    {
        let x = self.x as i128;
        let y = self.y as i128;
        let z = self.z as i128;
        proof {
            lemma_square_below(x as int);
            lemma_square_below(y as int);
            lemma_square_below(z as int);
        }
        (x * x + y * y + z * z) as u128
    }

    /// Whether `|self| < r`.
    pub fn shorter_than(&self, r: i64) -> (b: bool)
        requires
            bounded(*self, 2 * COORD_LIMIT),
            0 <= r <= COORD_LIMIT,
        ensures
            b == shorter_than(*self, r as int),
    {
        assert(0 <= (r as int) * (r as int) <= (COORD_LIMIT as int) * (COORD_LIMIT as int))
            by (nonlinear_arith)
            requires 0 <= r <= COORD_LIMIT;
        let rr = r as u128;
        self.length_squared() < rr * rr
    }
}

proof fn lemma_square_below(x: int)
    requires
        -2 * COORD_LIMIT <= x <= 2 * COORD_LIMIT,
    ensures
        0 <= x * x <= 4_000_000_000_000_000_000_000_000,
{
    assert(0 <= x * x <= 4_000_000_000_000_000_000_000_000) by (nonlinear_arith)
        requires -2_000_000_000_000 <= x <= 2_000_000_000_000;
}

/// The ceiling of the square root, by bisection.
pub fn ceil_sqrt(n: u128) -> (r: u128)
    requires
        n <= ROOT_BOUND * ROOT_BOUND,
    ensures
        is_ceil_sqrt(n as int, r as int),
        r == ceil_root(n as int),
        r <= ROOT_BOUND,
{
    if n == 0 {
        return 0;
    }
    let mut lo: u128 = 0;
    let mut hi: u128 = ROOT_BOUND;
    while lo + 1 < hi
        invariant
            lo < hi <= ROOT_BOUND,
            lo * lo < n,
            n <= hi * hi,
        decreases hi - lo,
    {
        let mid = lo + (hi - lo) / 2;
        assert(mid * mid <= ROOT_BOUND * ROOT_BOUND) by (nonlinear_arith)
            requires mid <= ROOT_BOUND;
        if mid * mid < n {
            lo = mid;
        } else {
            hi = mid;
        }
    }
    proof {
        lemma_ceil_root_unique(n as int, hi as int);
    }
    hi
}

proof fn lemma_ceil_root_unique(n: int, r: int)
    requires
        is_ceil_sqrt(n, r),
    ensures
        ceil_root(n) == r,
{
    let c = ceil_root(n);
    assert(is_ceil_sqrt(n, c));
    if c < r {
        assert((c as int) * (c as int) <= (r - 1) * (r - 1)) by (nonlinear_arith)
            requires 0 <= c <= r - 1;
    } else if r < c {
        assert((r as int) * (r as int) <= (c - 1) * (c - 1)) by (nonlinear_arith)
            requires 0 <= r <= c - 1;
    }
}

/// `a * UNIT_SCALE * step / len` rounded toward zero, on machine integers.
fn scale(a: i64, step: u64, len: u128) -> (r: i64)
    requires
        -2 * COORD_LIMIT <= a <= 2 * COORD_LIMIT,
        step <= COORD_LIMIT,
        len > 0,
        -len <= a * UNIT_SCALE <= len,
    ensures
        r == scale_component(a * UNIT_SCALE, step as int, len as int),
        -(step as int) <= r <= step,
{
    let m0: u128 = if a >= 0 { a as u128 } else { (-(a as i128)) as u128 };
    let m: u128 = m0 * (UNIT_SCALE as u128);
    assert(m * (step as u128) <= 2_000_000_000_000_000_000 * COORD_LIMIT) by (nonlinear_arith)
        requires m == m0 * 1_000_000, m0 <= 2 * COORD_LIMIT, 0 <= step <= COORD_LIMIT;
    let q = m * (step as u128) / len;
    assert(q <= step) by (nonlinear_arith)
        requires q == (m as int * step as int) / (len as int), m <= len, len > 0, step >= 0;
    if a >= 0 {
        q as i64
    } else {
        assert(-(a * UNIT_SCALE) == m);
        -(q as i64)
    }
}

/// `unit(h) * step`, see `displacement`.
pub fn displacement_of(h: &Vector3, step: u64) -> (r: Vector3)
    requires
        bounded(*h, 2 * COORD_LIMIT),
        step <= COORD_LIMIT,
    ensures
        r == displacement(*h, step as int),
        bounded(r, step as int),
{
    if h.is_zero() {
        return Vector3::zero();
    }
    let n0 = h.length_squared();
    let sc = UNIT_SCALE as u128;
    let n = n0 * (sc * sc);
    assert(n <= ROOT_BOUND * ROOT_BOUND) by (nonlinear_arith)
        requires n == n0 * (sc * sc), sc == 1_000_000, n0 <= 12_000_000_000_000_000_000_000_000;
    let len = ceil_sqrt(n);
    proof {
        let si = UNIT_SCALE as int;
        let (x, y, z) = (h.x * si, h.y * si, h.z * si);
        lemma_scaled_norm(*h);
        assert(n == x * x + y * y + z * z);
        assert(x * x <= n && y * y <= n && z * z <= n) by (nonlinear_arith)
            requires n == x * x + y * y + z * z;
        assert(n > 0) by (nonlinear_arith)
            requires
                n == x * x + y * y + z * z,
                !(h.x == 0 && h.y == 0 && h.z == 0),
                x == h.x * si,
                y == h.y * si,
                z == h.z * si,
                si == 1_000_000;
        lemma_component_below_len(x, n as int, len as int);
        lemma_component_below_len(y, n as int, len as int);
        lemma_component_below_len(z, n as int, len as int);
    }
    let r = Vector3 { x: scale(h.x, step, len), y: scale(h.y, step, len), z: scale(h.z, step, len) };
    assert(r == displacement(*h, step as int));
    r
}

proof fn lemma_component_below_len(a: int, n: int, len: int)
    requires
        a * a <= n,
        n <= len * len,
        0 <= len,
        n > 0,
    ensures
        -len <= a <= len,
        len > 0,
{
    assert(len > 0) by (nonlinear_arith)
        requires n <= len * len, n > 0, 0 <= len;
    assert(-len <= a <= len) by (nonlinear_arith)
        requires a * a <= len * len, 0 < len;
}

/// Dot product.
pub open spec fn dot(a: Vector3, b: Vector3) -> int {
    a.x * b.x + a.y * b.y + a.z * b.z
}

proof fn lemma_scale_square(a: int, step: int, len: int)
    requires
        0 <= step,
        0 < len,
    ensures
        scale_component(a, step, len) * scale_component(a, step, len) * (len * len) <= a * a * (
        step * step),
{
    let m = if a >= 0 { a } else { -a };
    let t = (m * step) / len;
    assert(0 <= m * step) by (nonlinear_arith)
        requires 0 <= m, 0 <= step;
    assert(t * len <= m * step) by (nonlinear_arith)
        requires t == (m * step) / len, 0 < len, 0 <= m * step;
    assert(0 <= t) by (nonlinear_arith)
        requires t == (m * step) / len, 0 < len, 0 <= m * step;
    assert(t * t * (len * len) <= m * m * (step * step)) by (nonlinear_arith)
        requires 0 <= t * len <= m * step, 0 <= t, 0 < len;
    assert(m * m == a * a) by (nonlinear_arith)
        requires m == a || m == -a;
    let q = scale_component(a, step, len);
    assert(q * q == t * t) by (nonlinear_arith)
        requires q == t || q == -t;
}

proof fn lemma_scaled_norm(h: Vector3)
    ensures
        ({
            let si = UNIT_SCALE as int;
            (h.x * si) * (h.x * si) + (h.y * si) * (h.y * si) + (h.z * si) * (h.z * si) == norm2(h)
                * (si * si)
        }),
{
    let si = UNIT_SCALE as int;
    assert((h.x * si) * (h.x * si) == (h.x * h.x) * (si * si)) by (nonlinear_arith);
    assert((h.y * si) * (h.y * si) == (h.y * h.y) * (si * si)) by (nonlinear_arith);
    assert((h.z * si) * (h.z * si) == (h.z * h.z) * (si * si)) by (nonlinear_arith);
    assert(norm2(h) * (si * si) == (h.x * h.x) * (si * si) + (h.y * h.y) * (si * si) + (h.z
        * h.z) * (si * si)) by (nonlinear_arith);
}

proof fn lemma_scale_square_low(a: int, step: int, len: int)
    requires
        0 <= step,
        0 < len,
        -len <= a <= len,
    ensures
        ({
            let q = scale_component(a, step, len);
            let m = if a >= 0 { a } else { -a };
            q * q * (len * len) >= a * a * (step * step) - 2 * m * step * len
        }),
{
    let m = if a >= 0 { a } else { -a };
    let t = (m * step) / len;
    assert(0 <= m * step) by (nonlinear_arith)
        requires 0 <= m, 0 <= step;
    assert(t * len + len > m * step) by (nonlinear_arith)
        requires t == (m * step) / len, 0 < len, 0 <= m * step;
    assert(0 <= t) by (nonlinear_arith)
        requires t == (m * step) / len, 0 < len, 0 <= m * step;
    assert(t * t * (len * len) >= m * m * (step * step) - 2 * m * step * len) by (nonlinear_arith)
        requires t * len + len > m * step, 0 <= t, 0 < len, 0 <= m, 0 <= step;
    assert(m * m == a * a) by (nonlinear_arith)
        requires m == a || m == -a;
    let q = scale_component(a, step, len);
    assert(q * q == t * t) by (nonlinear_arith)
        requires q == t || q == -t;
}

/// A heading is used as a unit vector: moving along it for a distance of
/// `step` covers at most `step`, at least `step - 8` for the steps that a
/// tick takes, exactly `step` along an axis, and nothing along the zero
/// heading.
pub proof fn lemma_unit_heading(h: Vector3, step: int)
    requires
        bounded(h, 2 * COORD_LIMIT),
        0 <= step <= COORD_LIMIT,
    ensures
        norm2(displacement(h, step)) <= step * step,
        !is_zero(h) && step <= UNIT_SCALE ==> norm2(displacement(h, step)) >= step * step - 8
            * step,
        !is_zero(h) && 8 <= step <= UNIT_SCALE ==> norm2(displacement(h, step)) >= (step - 8) * (
        step - 8),
        is_zero(h) ==> is_zero(displacement(h, step)),
        h.x > 0 && h.y == 0 && h.z == 0 ==> displacement(h, step) == (Vector3 {
            x: step as i64,
            y: 0,
            z: 0,
        }),
{
    if !is_zero(h) {
        let si = UNIT_SCALE as int;
        let (x, y, z) = (h.x * si, h.y * si, h.z * si);
        let n0 = norm2(h);
        lemma_scaled_norm(h);
        let n = n0 * (si * si);
        assert(n == x * x + y * y + z * z);
        assert(n0 >= 1) by (nonlinear_arith)
            requires n0 == h.x * h.x + h.y * h.y + h.z * h.z, !(h.x == 0 && h.y == 0 && h.z == 0);
        assert(n0 <= 12_000_000_000_000_000_000_000_000) by (nonlinear_arith)
            requires
                n0 == h.x * h.x + h.y * h.y + h.z * h.z,
                -2_000_000_000_000 <= h.x <= 2_000_000_000_000,
                -2_000_000_000_000 <= h.y <= 2_000_000_000_000,
                -2_000_000_000_000 <= h.z <= 2_000_000_000_000;
        assert(si * si <= n && n <= ROOT_BOUND * ROOT_BOUND) by (nonlinear_arith)
            requires n == n0 * (si * si), 1 <= n0 <= 12_000_000_000_000_000_000_000_000, si == 1_000_000;
        let len = ceil_root(n);
        lemma_ceil_root_exists(n);
        assert(is_ceil_sqrt(n, len));
        assert(len >= si) by (nonlinear_arith)
            requires si * si <= n, n <= len * len, 0 <= len, si > 0;
        assert(x * x <= n && y * y <= n && z * z <= n) by (nonlinear_arith)
            requires n == x * x + y * y + z * z;
        lemma_component_below_len(x, n, len);
        lemma_component_below_len(y, n, len);
        lemma_component_below_len(z, n, len);
        let qx = scale_component(x, step, len);
        let qy = scale_component(y, step, len);
        let qz = scale_component(z, step, len);
        lemma_scale_bounded(x, step, len);
        lemma_scale_bounded(y, step, len);
        lemma_scale_bounded(z, step, len);
        lemma_scale_square(x, step, len);
        lemma_scale_square(y, step, len);
        lemma_scale_square(z, step, len);
        let d = displacement(h, step);
        assert(d.x == qx && d.y == qy && d.z == qz);
        let sum = qx * qx + qy * qy + qz * qz;
        assert(norm2(d) == sum);
        let ll = len * len;
        let ss = step * step;
        assert(sum * ll <= n * ss) by (nonlinear_arith)
            requires
                qx * qx * ll <= x * x * ss,
                qy * qy * ll <= y * y * ss,
                qz * qz * ll <= z * z * ss,
                sum == qx * qx + qy * qy + qz * qz,
                n == x * x + y * y + z * z;
        assert(n * ss <= ll * ss) by (nonlinear_arith)
            requires n <= ll, 0 <= ss;
        assert(0 <= step * step);
        assert(sum <= ss) by (nonlinear_arith)
            requires sum * ll <= ll * ss, 0 < ll;
        if step <= UNIT_SCALE {
            lemma_scale_square_low(x, step, len);
            lemma_scale_square_low(y, step, len);
            lemma_scale_square_low(z, step, len);
            let mx = if x >= 0 { x } else { -x };
            let my = if y >= 0 { y } else { -y };
            let mz = if z >= 0 { z } else { -z };
            assert(sum * ll == qx * qx * ll + qy * qy * ll + qz * qz * ll) by (nonlinear_arith)
                requires sum == qx * qx + qy * qy + qz * qz;
            assert(n * ss == x * x * ss + y * y * ss + z * z * ss) by (nonlinear_arith)
                requires n == x * x + y * y + z * z;
            assert(2 * (mx + my + mz) * step * len == 2 * mx * step * len + 2 * my * step * len + 2
                * mz * step * len) by (nonlinear_arith);
            assert(sum * ll >= n * ss - 2 * (mx + my + mz) * step * len);
            assert(2 * (mx + my + mz) * step * len <= 6 * step * ll) by (nonlinear_arith)
                requires
                    0 <= mx <= len,
                    0 <= my <= len,
                    0 <= mz <= len,
                    0 <= step,
                    0 < len,
                    ll == len * len;
            assert(n >= ll - 2 * len) by (nonlinear_arith)
                requires (len - 1) * (len - 1) < n, ll == len * len;
            assert(n * ss >= (ll - 2 * len) * ss) by (nonlinear_arith)
                requires n >= ll - 2 * len, 0 <= ss;
            assert(2 * len * ss <= 2 * step * ll) by (nonlinear_arith)
                requires 0 <= step <= len, ss == step * step, ll == len * len;
            assert(sum * ll >= (ss - 8 * step) * ll) by (nonlinear_arith)
                requires
                    sum * ll >= n * ss - 2 * (mx + my + mz) * step * len,
                    2 * (mx + my + mz) * step * len <= 6 * step * ll,
                    n * ss >= (ll - 2 * len) * ss,
                    2 * len * ss <= 2 * step * ll;
            assert(sum >= ss - 8 * step) by (nonlinear_arith)
                requires sum * ll >= (ss - 8 * step) * ll, 0 < ll;
            if 8 <= step {
                assert((step - 8) * (step - 8) <= ss - 8 * step) by (nonlinear_arith)
                    requires 8 <= step, ss == step * step;
            }
        }
        if h.x > 0 && h.y == 0 && h.z == 0 {
            assert(is_ceil_sqrt(n, x)) by (nonlinear_arith)
                requires n == x * x + y * y + z * z, y == 0, z == 0, x > 0;
            lemma_ceil_root_unique(n, x);
            assert((x * step) / x == step) by (nonlinear_arith)
                requires x > 0;
            assert((0 * step) / x == 0) by (nonlinear_arith)
                requires x > 0;
            assert(len == x);
            assert(qx == step && qy == 0 && qz == 0);
        }
    }
}

proof fn lemma_scale_bounded(a: int, step: int, len: int)
    requires
        0 <= step <= COORD_LIMIT,
        0 < len,
        -len <= a <= len,
    ensures
        -step <= scale_component(a, step, len) <= step,
{
    let m = if a >= 0 { a } else { -a };
    assert(0 <= (m * step) / len <= step) by (nonlinear_arith)
        requires 0 <= m <= len, 0 <= step, 0 < len;
}

proof fn lemma_ceil_root_exists(n: int)
    requires
        0 < n <= ROOT_BOUND * ROOT_BOUND,
    ensures
        is_ceil_sqrt(n, ceil_root(n)),
{
    let r = ceil_sqrt_witness(n, ROOT_BOUND as int);
    lemma_ceil_root_unique(n, r);
}

proof fn ceil_sqrt_witness(n: int, hi: int) -> (r: int)
    requires
        0 < n <= hi * hi,
        0 <= hi,
    ensures
        is_ceil_sqrt(n, r),
    decreases hi,
{
    if hi == 0 {
        assert(false) by (nonlinear_arith)
            requires 0 < n <= hi * hi, hi == 0;
        0
    } else if n <= (hi - 1) * (hi - 1) {
        ceil_sqrt_witness(n, hi - 1)
    } else {
        hi
    }
}

} // verus!
