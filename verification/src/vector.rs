use vstd::prelude::*;
use crate::fixed::{
    bounded, ceil_sqrt, clamp_coord, div_toward_zero, div_trunc, isqrt_ceil, lemma_ceil_sqrt,
    lemma_ceil_sqrt_least, lemma_magnitude_square, lemma_scaled_magnitude, lemma_square_monotone,
    magnitude, magnitude_of, LIMIT, ONE, SQRT_DOMAIN,
};

verus! {

/// Largest magnitude of a component of a sum whose direction is taken as it
/// is: three million million units. A longer sum is first brought down to it.
pub const WIDE_LIMIT: i128 = 3_000_000_000_000_000;

/// Largest magnitude of a component of a sum whose direction can be taken.
pub const SUM_LIMIT: i128 = 100_000_000_000_000_000_000_000_000_000;

/// A point or displacement of the plane with integer components: the
/// mathematical value of a [`Vec2`], and of the sums that outgrow one.
pub struct V2 {
    pub x: int,
    pub y: int,
}

impl V2 {
    /// The vector without length.
    pub open spec fn zero() -> V2 {
        V2 { x: 0, y: 0 }
    }

    /// The sum, component by component.
    pub open spec fn plus(self, o: V2) -> V2 {
        V2 { x: self.x + o.x, y: self.y + o.y }
    }

    /// The difference, component by component.
    pub open spec fn minus(self, o: V2) -> V2 {
        V2 { x: self.x - o.x, y: self.y - o.y }
    }

    /// The squared Euclidean length.
    pub open spec fn len_sq(self) -> int {
        self.x * self.x + self.y * self.y
    }

    /// Both components lie in the coordinate range.
    pub open spec fn in_range(self) -> bool {
        -LIMIT <= self.x <= LIMIT && -LIMIT <= self.y <= LIMIT
    }

    /// Each component held to the coordinate range.
    pub open spec fn bounded(self) -> V2 {
        V2 { x: bounded(self.x), y: bounded(self.y) }
    }

    /// Each component divided by `n`, rounded toward zero.
    pub open spec fn divided(self, n: int) -> V2 {
        V2 { x: div_trunc(self.x, n), y: div_trunc(self.y, n) }
    }

    /// Each component multiplied by `n`.
    pub open spec fn times(self, n: int) -> V2 {
        V2 { x: self.x * n, y: self.y * n }
    }

    /// The larger of the two components' magnitudes.
    pub open spec fn reach(self) -> int {
        if magnitude(self.x) >= magnitude(self.y) {
            magnitude(self.x)
        } else {
            magnitude(self.y)
        }
    }

    /// The vector itself where neither component exceeds `WIDE_LIMIT`; else
    /// each component divided, and rounded toward zero, by one more than the
    /// number of times that `WIDE_LIMIT` goes into the longer one, which
    /// brings the vector there.
    pub open spec fn fitted(self) -> V2 {
        if self.reach() <= WIDE_LIMIT {
            self
        } else {
            self.divided(self.reach() / (WIDE_LIMIT as int) + 1)
        }
    }

    /// The unit vector of the same direction; zero for the zero vector and
    /// for no other. Up to `WIDE_LIMIT` it is `with_length(ONE)` of the
    /// vector itself.
    pub open spec fn direction(self) -> V2 {
        self.fitted().with_length(ONE as int)
    }

    /// The fixed-point product with the scalar `m`, rounded toward zero.
    pub open spec fn scaled(self, m: int) -> V2 {
        V2 { x: div_trunc(self.x * m, ONE as int), y: div_trunc(self.y * m, ONE as int) }
    }

    /// The vector of the same direction whose length is `t`: each component
    /// is multiplied by `t` and divided by the length, the length rounded up
    /// and the quotient toward zero, so that the result is never longer than
    /// `t`. The zero vector has no direction and stays zero.
    pub open spec fn with_length(self, t: int) -> V2 {
        if t <= 0 || self.len_sq() == 0 {
            V2::zero()
        } else {
            let len = ceil_sqrt((self.len_sq() * (t * t)) as nat) as int;
            V2 { x: div_trunc(self.x * (t * t), len), y: div_trunc(self.y * (t * t), len) }
        }
    }

    /// The vector itself where it is no longer than `m`, else shortened to `m`.
    pub open spec fn clamped_max(self, m: int) -> V2 {
        if self.len_sq() > m * m {
            self.with_length(m)
        } else {
            self
        }
    }

    /// The vector with its length brought into `[lo, hi]`. The zero vector,
    /// which has no direction to keep, becomes `(lo, 0)`.
    pub open spec fn clamped(self, lo: int, hi: int) -> V2 {
        if self.len_sq() < lo * lo {
            if self.len_sq() == 0 {
                V2 { x: lo, y: 0 }
            } else {
                self.with_length(lo)
            }
        } else if self.len_sq() > hi * hi {
            self.with_length(hi)
        } else {
            self
        }
    }
}

/// A vector of the plane in fixed point, each component a count of
/// thousandths.
#[derive(Clone, Copy, Debug, PartialEq, Eq, Structural)]
pub struct Vec2 {
    pub x: i64,
    pub y: i64,
}

impl View for Vec2 {
    type V = V2;

    open spec fn view(&self) -> V2 {
        V2 { x: self.x as int, y: self.y as int }
    }
}

impl Vec2 {
    /// Both components lie in the coordinate range.
    pub open spec fn wf(self) -> bool {
        self@.in_range()
    }

    /// Whether both components lie in the coordinate range.
    pub fn is_wf(&self) -> (r: bool)
        ensures
            r == self.wf(),
    {
        -LIMIT <= self.x && self.x <= LIMIT && -LIMIT <= self.y && self.y <= LIMIT
    }

    /// The vector with the given components.
    pub fn new(x: i64, y: i64) -> (r: Vec2)
        ensures
            r.x == x,
            r.y == y,
    {
        Vec2 { x, y }
    }

    /// The vector without length.
    pub fn zero() -> (r: Vec2)
        ensures
            r@ == V2::zero(),
            r.wf(),
    {
        Vec2 { x: 0, y: 0 }
    }

    /// The sum, held to the coordinate range.
    pub fn add(self, o: Vec2) -> (r: Vec2)
        requires
            self.wf(),
            o.wf(),
        ensures
            r@ == self@.plus(o@).bounded(),
            r.wf(),
    {
        Vec2 {
            x: clamp_coord(self.x as i128 + o.x as i128),
            y: clamp_coord(self.y as i128 + o.y as i128),
        }
    }

    /// The difference, held to the coordinate range.
    pub fn sub(self, o: Vec2) -> (r: Vec2)
        requires
            self.wf(),
            o.wf(),
        ensures
            r@ == self@.minus(o@).bounded(),
            r.wf(),
    {
        Vec2 {
            x: clamp_coord(self.x as i128 - o.x as i128),
            y: clamp_coord(self.y as i128 - o.y as i128),
        }
    }

    /// The fixed-point product with the scalar `m`, held to the coordinate range.
    pub fn scale(self, m: i64) -> (r: Vec2)
        requires
            self.wf(),
            -LIMIT <= m <= LIMIT,
        ensures
            r@ == self@.scaled(m as int).bounded(),
            r.wf(),
    {
        assert(-1_000_000_000_000_000_000 <= self.x * m <= 1_000_000_000_000_000_000
            && -1_000_000_000_000_000_000 <= self.y * m <= 1_000_000_000_000_000_000)
            by (nonlinear_arith)
            requires
                -1_000_000_000 <= self.x <= 1_000_000_000,
                -1_000_000_000 <= self.y <= 1_000_000_000,
                -1_000_000_000 <= m <= 1_000_000_000,
        ;
        let px: i128 = self.x as i128 * m as i128;
        let py: i128 = self.y as i128 * m as i128;
        Vec2 {
            x: clamp_coord(div_toward_zero(px, ONE as i128)),
            y: clamp_coord(div_toward_zero(py, ONE as i128)),
        }
    }

    /// The squared length.
    pub fn len_sq(self) -> (r: u64)
        requires
            self.wf(),
        ensures
            r == self@.len_sq(),
            r <= 2_000_000_000_000_000_000,
    {
        let ax: u128 = magnitude_of(self.x as i128);
        let ay: u128 = magnitude_of(self.y as i128);
        proof {
            lemma_magnitude_square(self.x as int);
            lemma_magnitude_square(self.y as int);
            lemma_len_sq_in_range(self@);
        }
        (ax * ax + ay * ay) as u64
    }

    /// The squared distance to `o`, exact.
    pub fn dist_sq(self, o: Vec2) -> (r: u64)
        requires
            self.wf(),
            o.wf(),
        ensures
            r == self@.minus(o@).len_sq(),
            r <= 8_000_000_000_000_000_000,
    {
        let dx: i128 = self.x as i128 - o.x as i128;
        let dy: i128 = self.y as i128 - o.y as i128;
        assert(0 <= dx * dx <= 4_000_000_000_000_000_000 && 0 <= dy * dy
            <= 4_000_000_000_000_000_000) by (nonlinear_arith)
            requires
                -2_000_000_000 <= dx <= 2_000_000_000,
                -2_000_000_000 <= dy <= 2_000_000_000,
        ;
        (dx * dx + dy * dy) as u64
    }

    /// The vector of the same direction and of length `t`, never longer.
    pub fn with_length(self, t: i64) -> (r: Vec2)
        requires
            self.wf(),
            t <= LIMIT,
        ensures
            r@ == self@.with_length(t as int),
            r.wf(),
    {
        if t <= 0 {
            return Vec2 { x: 0, y: 0 };
        }
        proof {
            lemma_len_sq_in_range(self@);
            assert(self@.len_sq() * (t * t) <= 2_000_000_000_000_000_000_000_000_000_000_000_000)
                by (nonlinear_arith)
                requires
                    0 <= self@.len_sq() <= 2_000_000_000_000_000_000,
                    0 < t <= 1_000_000_000,
            ;
        }
        rescale(self.x as i128, self.y as i128, t)
    }

    /// The unit vector of the same direction; zero for the zero vector.
    pub fn normalize_or_zero(self) -> (r: Vec2)
        requires
            self.wf(),
        ensures
            r@ == self@.with_length(ONE as int),
            r.wf(),
    {
        self.with_length(ONE)
    }

    /// The unit vector in the direction of the sum `(x, y)`; zero for the
    /// zero sum and for no other.
    pub fn direction(x: i128, y: i128) -> (r: Vec2)
        requires
            -SUM_LIMIT <= x <= SUM_LIMIT,
            -SUM_LIMIT <= y <= SUM_LIMIT,
        ensures
            r@ == (V2 { x: x as int, y: y as int }).direction(),
            r.wf(),
    {
        let ax: u128 = magnitude_of(x);
        let ay: u128 = magnitude_of(y);
        let reach: u128 = if ax >= ay {
            ax
        } else {
            ay
        };
        proof {
            lemma_fitted(V2 { x: x as int, y: y as int });
        }
        if reach <= WIDE_LIMIT as u128 {
            rescale(x, y, ONE)
        } else {
            let k: i128 = (reach / (WIDE_LIMIT as u128) + 1) as i128;
            rescale(div_toward_zero(x, k), div_toward_zero(y, k), ONE)
        }
    }

    /// The vector itself where it is no longer than `m`, else shortened to `m`.
    pub fn clamp_length_max(self, m: i64) -> (r: Vec2)
        requires
            self.wf(),
            0 <= m <= LIMIT,
        ensures
            r@ == self@.clamped_max(m as int),
            r.wf(),
    {
        assert(0 <= m * m <= 1_000_000_000_000_000_000) by (nonlinear_arith)
            requires
                0 <= m <= 1_000_000_000,
        ;
        if self.len_sq() as u128 > (m as u128) * (m as u128) {
            self.with_length(m)
        } else {
            self
        }
    }

    /// The vector with its length brought into `[lo, hi]`; `(lo, 0)` for the
    /// zero vector.
    pub fn clamp_length(self, lo: i64, hi: i64) -> (r: Vec2)
        requires
            self.wf(),
            0 <= lo <= hi <= LIMIT,
        ensures
            r@ == self@.clamped(lo as int, hi as int),
            r.wf(),
    {
        assert(0 <= lo * lo <= 1_000_000_000_000_000_000 && 0 <= hi * hi
            <= 1_000_000_000_000_000_000) by (nonlinear_arith)
            requires
                0 <= lo <= 1_000_000_000,
                0 <= hi <= 1_000_000_000,
        ;
        let n: u128 = self.len_sq() as u128;
        if n < (lo as u128) * (lo as u128) {
            if n == 0 {
                Vec2 { x: lo, y: 0 }
            } else {
                self.with_length(lo)
            }
        } else if n > (hi as u128) * (hi as u128) {
            self.with_length(hi)
        } else {
            self
        }
    }
}

/// The vector `(x, y)` brought to the length `t`, for any size that the
/// square root can take.
fn rescale(x: i128, y: i128, t: i64) -> (r: Vec2)
    requires
        0 < t <= LIMIT,
        x > i128::MIN,
        y > i128::MIN,
        (x * x + y * y) * (t * t) <= SQRT_DOMAIN,
    ensures
        r@ == (V2 { x: x as int, y: y as int }).with_length(t as int),
        r.wf(),
{
    if x == 0 && y == 0 {
        assert(0int * 0int + 0int * 0int == 0) by (nonlinear_arith);
        return Vec2 { x: 0, y: 0 };
    }
    let ghost v = V2 { x: x as int, y: y as int };
    let ax: u128 = magnitude_of(x);
    let ay: u128 = magnitude_of(y);
    let tu: u128 = t as u128;
    proof {
        lemma_magnitude_square(x as int);
        lemma_magnitude_square(y as int);
        lemma_rescale_sizes(ax as int, ay as int, t as int);
        lemma_rescaled(v, t as int);
    }
    let tt: u128 = tu * tu;
    let n: u128 = ax * ax + ay * ay;
    let len: u128 = isqrt_ceil(n * tt);
    let qx: u128 = (ax * tt) / len;
    let qy: u128 = (ay * tt) / len;
    Vec2 {
        x: if x >= 0 {
            qx as i64
        } else {
            -(qx as i64)
        },
        y: if y >= 0 {
            qy as i64
        } else {
            -(qy as i64)
        },
    }
}

/// The squared length of a vector of the coordinate range.
proof fn lemma_len_sq_in_range(v: V2)
    requires
        v.in_range(),
    ensures
        0 <= v.len_sq() <= 2_000_000_000_000_000_000,
        v.len_sq() == 0 <==> v == V2::zero(),
{
    assert(0 <= v.x * v.x <= 1_000_000_000_000_000_000 && 0 <= v.y * v.y
        <= 1_000_000_000_000_000_000) by (nonlinear_arith)
        requires
            -1_000_000_000 <= v.x <= 1_000_000_000,
            -1_000_000_000 <= v.y <= 1_000_000_000,
    ;
    lemma_len_sq_zero(v);
}

/// Only the zero vector has no length.
pub proof fn lemma_len_sq_zero(v: V2)
    ensures
        v.len_sq() >= 0,
        v.len_sq() == 0 <==> v == V2::zero(),
{
    assert(v.x * v.x + v.y * v.y >= 0 && (v.x * v.x + v.y * v.y == 0 <==> v.x == 0 && v.y == 0))
        by (nonlinear_arith);
}

/// The sizes met while a vector with the magnitudes `ax` and `ay` is given
/// the length `t`: every product is at most the square root's argument, the
/// rounded-up length is positive, and neither quotient exceeds `t`.
proof fn lemma_rescale_sizes(ax: int, ay: int, t: int)
    requires
        0 <= ax,
        0 <= ay,
        0 < t,
        ax > 0 || ay > 0,
    ensures
        1 <= t * t <= (ax * ax + ay * ay) * (t * t),
        1 <= ax * ax + ay * ay <= (ax * ax + ay * ay) * (t * t),
        0 <= ax * ax,
        0 <= ay * ay,
        0 <= ax * (t * t) <= (ax * ax + ay * ay) * (t * t),
        0 <= ay * (t * t) <= (ax * ax + ay * ay) * (t * t),
        ceil_sqrt(((ax * ax + ay * ay) * (t * t)) as nat) >= 1,
        0 <= (ax * (t * t)) / (ceil_sqrt(((ax * ax + ay * ay) * (t * t)) as nat) as int) <= t,
        0 <= (ay * (t * t)) / (ceil_sqrt(((ax * ax + ay * ay) * (t * t)) as nat) as int) <= t,
{
    let tt = t * t;
    let n = ax * ax + ay * ay;
    assert(1 <= tt) by (nonlinear_arith)
        requires
            0 < t,
            tt == t * t,
    ;
    assert(0 <= ax <= ax * ax <= n && 0 <= ay <= ay * ay <= n && 1 <= n) by (nonlinear_arith)
        requires
            0 <= ax,
            0 <= ay,
            ax > 0 || ay > 0,
            n == ax * ax + ay * ay,
    ;
    assert(tt <= n * tt && n <= n * tt && 0 <= ax * tt <= n * tt && 0 <= ay * tt <= n * tt)
        by (nonlinear_arith)
        requires
            1 <= tt,
            1 <= n,
            0 <= ax <= n,
            0 <= ay <= n,
    ;
    let m = (n * tt) as nat;
    let len = ceil_sqrt(m) as int;
    lemma_ceil_sqrt(m);
    // the rounded-up length is at least either magnitude times t
    assert((ax * t) * (ax * t) <= n * tt && (ay * t) * (ay * t) <= n * tt) by (nonlinear_arith)
        requires
            n == ax * ax + ay * ay,
            tt == t * t,
    ;
    assert(0 <= ax * t && 0 <= ay * t) by (nonlinear_arith)
        requires
            0 <= ax,
            0 <= ay,
            0 < t,
    ;
    lemma_square_monotone((ax * t) as nat, len as nat);
    lemma_square_monotone((ay * t) as nat, len as nat);
    assert(0 <= (ax * tt) / len <= t) by (nonlinear_arith)
        requires
            0 <= ax * t <= len,
            len >= 1,
            tt == t * t,
            t > 0,
    ;
    assert(0 <= (ay * tt) / len <= t) by (nonlinear_arith)
        requires
            0 <= ay * t <= len,
            len >= 1,
            tt == t * t,
            t > 0,
    ;
}

/// What rounding leaves of a vector with a direction that is brought to the
/// length `t`: the rounded-up length is the least number whose square
/// reaches the squared length times `t * t`, and each component keeps its
/// sign while its magnitude is the exact quotient rounded down.
proof fn lemma_rescaled(v: V2, t: int)
    requires
        t > 0,
        v.len_sq() != 0,
    ensures
        ({
            let w = v.with_length(t);
            let len = ceil_sqrt((v.len_sq() * (t * t)) as nat) as int;
            &&& len >= 1
            &&& v.len_sq() * (t * t) >= t * t >= 1
            &&& len * len >= v.len_sq() * (t * t)
            &&& (len - 1) * (len - 1) < v.len_sq() * (t * t)
            &&& magnitude(w.x) == (magnitude(v.x) * (t * t)) / len
            &&& magnitude(w.y) == (magnitude(v.y) * (t * t)) / len
            &&& magnitude(w.x) * len <= magnitude(v.x) * (t * t) < (magnitude(w.x) + 1) * len
            &&& magnitude(w.y) * len <= magnitude(v.y) * (t * t) < (magnitude(w.y) + 1) * len
            &&& v.x >= 0 ==> w.x >= 0
            &&& v.x <= 0 ==> w.x <= 0
            &&& v.y >= 0 ==> w.y >= 0
            &&& v.y <= 0 ==> w.y <= 0
        }),
{
    let tt = t * t;
    let n = v.len_sq();
    lemma_len_sq_zero(v);
    assert(tt >= 1 && n * tt >= tt) by (nonlinear_arith)
        requires
            n >= 1,
            tt == t * t,
            t > 0,
    ;
    let len = ceil_sqrt((n * tt) as nat) as int;
    lemma_ceil_sqrt((n * tt) as nat);
    lemma_scaled_magnitude(v.x, tt, len);
    lemma_scaled_magnitude(v.y, tt, len);
}

/// A vector brought to the length `t` is no longer than `t`, component by
/// component and as a whole, and each component keeps its sign.
pub proof fn lemma_with_length_at_most(v: V2, t: int)
    requires
        t >= 0,
    ensures
        v.with_length(t).len_sq() <= t * t,
        -t <= v.with_length(t).x <= t,
        -t <= v.with_length(t).y <= t,
        v.x >= 0 ==> v.with_length(t).x >= 0,
        v.x <= 0 ==> v.with_length(t).x <= 0,
        v.y >= 0 ==> v.with_length(t).y >= 0,
        v.y <= 0 ==> v.with_length(t).y <= 0,
{
    let w = v.with_length(t);
    if t <= 0 || v.len_sq() == 0 {
        assert(0 <= t * t && 0int * 0int + 0int * 0int == 0) by (nonlinear_arith);
    } else {
        let len = ceil_sqrt((v.len_sq() * (t * t)) as nat) as int;
        lemma_rescaled(v, t);
        lemma_magnitude_square(v.x);
        lemma_magnitude_square(v.y);
        lemma_magnitude_square(w.x);
        lemma_magnitude_square(w.y);
        lemma_shorter(
            magnitude(w.x),
            magnitude(w.y),
            magnitude(v.x),
            magnitude(v.y),
            t,
            len,
        );
    }
}

/// Where `a·len ≤ ax·t²`, `b·len ≤ ay·t²` and `len² ≥ (ax² + ay²)·t²`, the
/// vector `(a, b)` is no longer than `t`.
proof fn lemma_shorter(a: int, b: int, ax: int, ay: int, t: int, len: int)
    requires
        a >= 0,
        b >= 0,
        ax >= 0,
        ay >= 0,
        t > 0,
        len >= 1,
        a * len <= ax * (t * t),
        b * len <= ay * (t * t),
        len * len >= (ax * ax + ay * ay) * (t * t),
    ensures
        a * a + b * b <= t * t,
        a <= t,
        b <= t,
{
    let tt = t * t;
    assert((a * len) * (a * len) <= (ax * tt) * (ax * tt)) by (nonlinear_arith)
        requires
            0 <= a * len <= ax * tt,
    ;
    assert(0 <= a * len && 0 <= b * len) by (nonlinear_arith)
        requires
            a >= 0,
            b >= 0,
            len >= 1,
    ;
    assert((b * len) * (b * len) <= (ay * tt) * (ay * tt)) by (nonlinear_arith)
        requires
            0 <= b * len <= ay * tt,
    ;
    assert((a * a + b * b) * (len * len) == (a * len) * (a * len) + (b * len) * (b * len))
        by (nonlinear_arith);
    assert((ax * tt) * (ax * tt) + (ay * tt) * (ay * tt) == ((ax * ax + ay * ay) * tt) * tt)
        by (nonlinear_arith);
    let s = a * a + b * b;
    let l2 = len * len;
    let m = (ax * ax + ay * ay) * tt;
    assert(s * l2 <= m * tt);
    assert(m * tt <= l2 * tt) by (nonlinear_arith)
        requires
            m <= l2,
            tt >= 0,
    ;
    assert(l2 >= 1) by (nonlinear_arith)
        requires
            l2 == len * len,
            len >= 1,
    ;
    assert(s <= tt) by (nonlinear_arith)
        requires
            s * l2 <= l2 * tt,
            l2 >= 1,
    ;
    assert(a * a <= t * t && b * b <= t * t) by (nonlinear_arith)
        requires
            a * a + b * b <= t * t,
    ;
    lemma_square_monotone(a as nat, t as nat);
    lemma_square_monotone(b as nat, t as nat);
}

/// A vector with a direction, brought to the length `t`, falls short of `t`
/// by less than three thousandths.
pub proof fn lemma_with_length_at_least(v: V2, t: int)
    requires
        t >= 3,
        v.len_sq() != 0,
    ensures
        v.with_length(t).len_sq() > (t - 3) * (t - 3),
{
    let w = v.with_length(t);
    let len = ceil_sqrt((v.len_sq() * (t * t)) as nat) as int;
    lemma_rescaled(v, t);
    lemma_square_monotone(t as nat, len as nat);
    lemma_magnitude_square(v.x);
    lemma_magnitude_square(v.y);
    lemma_magnitude_square(w.x);
    lemma_magnitude_square(w.y);
    lemma_longer(magnitude(w.x), magnitude(w.y), magnitude(v.x), magnitude(v.y), t, len);
}

/// Where `ax·t² < (a+1)·len`, `ay·t² < (b+1)·len`, `(len−1)² < (ax² + ay²)·t²`
/// and `len ≥ t`, the vector `(a, b)` is longer than `t − 3`.
proof fn lemma_longer(a: int, b: int, ax: int, ay: int, t: int, len: int)
    requires
        a >= 0,
        b >= 0,
        ax >= 0,
        ay >= 0,
        t >= 3,
        len >= t,
        ax * (t * t) < (a + 1) * len,
        ay * (t * t) < (b + 1) * len,
        (len - 1) * (len - 1) < (ax * ax + ay * ay) * (t * t),
    ensures
        a * a + b * b > (t - 3) * (t - 3),
{
    let tt = t * t;
    let u = t - 3;
    let s = a * a + b * b;
    if s <= u * u {
        let p = (a + 1) * (a + 1) + (b + 1) * (b + 1);
        let m = (ax * ax + ay * ay) * tt;
        let l2 = len * len;
        // the rounded-down components, each raised by one, reach past the target
        assert(0 <= ax * tt && 0 <= ay * tt) by (nonlinear_arith)
            requires
                ax >= 0,
                ay >= 0,
                tt == t * t,
        ;
        assert((ax * tt) * (ax * tt) < ((a + 1) * len) * ((a + 1) * len)) by (nonlinear_arith)
            requires
                0 <= ax * tt < (a + 1) * len,
        ;
        assert((ay * tt) * (ay * tt) < ((b + 1) * len) * ((b + 1) * len)) by (nonlinear_arith)
            requires
                0 <= ay * tt < (b + 1) * len,
        ;
        assert(p * l2 == ((a + 1) * len) * ((a + 1) * len) + ((b + 1) * len) * ((b + 1) * len))
            by (nonlinear_arith)
            requires
                p == (a + 1) * (a + 1) + (b + 1) * (b + 1),
                l2 == len * len,
        ;
        assert((ax * tt) * (ax * tt) + (ay * tt) * (ay * tt) == m * tt) by (nonlinear_arith)
            requires
                m == (ax * ax + ay * ay) * tt,
        ;
        assert(m * tt < p * l2);
        assert((len - 1) * (len - 1) * tt <= m * tt) by (nonlinear_arith)
            requires
                (len - 1) * (len - 1) < m,
                tt >= 0,
        ;
        // while their squares stay under (t - 1)^2
        assert((2 * (a + b)) * (2 * (a + b)) <= 8 * s) by (nonlinear_arith)
            requires
                s == a * a + b * b,
        ;
        assert((2 * (a + b)) * (2 * (a + b)) <= (3 * u) * (3 * u)) by (nonlinear_arith)
            requires
                (2 * (a + b)) * (2 * (a + b)) <= 8 * s,
                s <= u * u,
        ;
        lemma_square_monotone((2 * (a + b)) as nat, (3 * u) as nat);
        assert(p == s + 2 * (a + b) + 2) by (nonlinear_arith)
            requires
                p == (a + 1) * (a + 1) + (b + 1) * (b + 1),
                s == a * a + b * b,
        ;
        assert(u * u + 3 * u + 2 < (t - 1) * (t - 1)) by (nonlinear_arith)
            requires
                u == t - 3,
                t >= 3,
        ;
        assert(p < (t - 1) * (t - 1));
        assert(p * l2 <= (t - 1) * (t - 1) * l2) by (nonlinear_arith)
            requires
                p < (t - 1) * (t - 1),
                l2 >= 0,
                l2 == len * len,
        ;
        assert(((len - 1) * t) * ((len - 1) * t) == (len - 1) * (len - 1) * tt)
            by (nonlinear_arith)
            requires
                tt == t * t,
        ;
        assert(((t - 1) * len) * ((t - 1) * len) == (t - 1) * (t - 1) * l2) by (nonlinear_arith)
            requires
                l2 == len * len,
        ;
        assert(0 <= (len - 1) * t && 0 <= (t - 1) * len) by (nonlinear_arith)
            requires
                len >= t,
                t >= 3,
        ;
        lemma_square_monotone(((len - 1) * t) as nat, ((t - 1) * len) as nat);
        assert((len - 1) * t < (t - 1) * len);
        assert((len - 1) * t == len * t - t && (t - 1) * len == len * t - len)
            by (nonlinear_arith);
        assert(false);
    }
}

/// A vector clamped to `m` is no longer than `m`.
pub proof fn lemma_clamped_max(v: V2, m: int)
    requires
        m >= 0,
    ensures
        v.clamped_max(m).len_sq() <= m * m,
        v.len_sq() <= m * m ==> v.clamped_max(m) == v,
{
    lemma_with_length_at_most(v, m);
}

/// A vector clamped to the band `[lo, hi]` is no longer than `hi`, and falls
/// short of `lo` by less than three thousandths.
pub proof fn lemma_clamped_band(v: V2, lo: int, hi: int)
    requires
        0 <= lo <= hi,
    ensures
        v.clamped(lo, hi).len_sq() <= hi * hi,
        lo >= 3 ==> v.clamped(lo, hi).len_sq() > (lo - 3) * (lo - 3),
{
    lemma_with_length_at_most(v, lo);
    lemma_with_length_at_most(v, hi);
    lemma_square_monotone(lo as nat, hi as nat);
    lemma_square_monotone((lo - 3) as nat, lo as nat);
    lemma_square_monotone((lo - 3) as nat, hi as nat);
    if lo >= 3 {
        if v.len_sq() < lo * lo {
            if v.len_sq() != 0 {
                lemma_with_length_at_least(v, lo);
            }
        } else if v.len_sq() > hi * hi {
            lemma_with_length_at_least(v, hi);
            lemma_square_monotone((lo - 3) as nat, (hi - 3) as nat);
        }
    }
}

/// A fitted vector has no component beyond `WIDE_LIMIT`, keeps the sign of
/// each component, and is zero only if the vector is.
pub proof fn lemma_fitted(v: V2)
    ensures
        v.fitted().reach() <= WIDE_LIMIT,
        v.fitted() == V2::zero() <==> v == V2::zero(),
        v.x >= 0 ==> v.fitted().x >= 0,
        v.x <= 0 ==> v.fitted().x <= 0,
        v.y >= 0 ==> v.fitted().y >= 0,
        v.y <= 0 ==> v.fitted().y <= 0,
        v.fitted().len_sq() * (ONE * ONE) <= SQRT_DOMAIN,
{
    let f = v.fitted();
    let wide = WIDE_LIMIT as int;
    if v.reach() > wide {
        let k = v.reach() / wide + 1;
        assert(1 <= v.reach() / wide && (v.reach() / wide) * wide <= v.reach() < k * wide && k
            <= v.reach()) by (nonlinear_arith)
            requires
                v.reach() > wide,
                wide == 3_000_000_000_000_000,
                k == v.reach() / wide + 1,
        ;
        lemma_scaled_magnitude(v.x, 1, k);
        lemma_scaled_magnitude(v.y, 1, k);
        assert(v.x * 1 == v.x && v.y * 1 == v.y && magnitude(v.x) * 1 == magnitude(v.x)
            && magnitude(v.y) * 1 == magnitude(v.y));
        let r = v.reach();
        assert(1 <= r / k) by (nonlinear_arith)
            requires
                1 <= k <= r,
        ;
        assert(magnitude(f.x) <= wide) by (nonlinear_arith)
            requires
                magnitude(f.x) * k <= magnitude(v.x),
                magnitude(v.x) < k * wide,
                k >= 1,
        ;
        assert(magnitude(f.y) <= wide) by (nonlinear_arith)
            requires
                magnitude(f.y) * k <= magnitude(v.y),
                magnitude(v.y) < k * wide,
                k >= 1,
        ;
    }
    assert(f.len_sq() * (ONE * ONE) <= SQRT_DOMAIN) by (nonlinear_arith)
        requires
            -3_000_000_000_000_000 <= f.x <= 3_000_000_000_000_000,
            -3_000_000_000_000_000 <= f.y <= 3_000_000_000_000_000,
            f.len_sq() == f.x * f.x + f.y * f.y,
            ONE == 1000,
            SQRT_DOMAIN == 0x0fff_ffff_ffff_ffff_ffff_ffff_ffff_ffff,
    ;
}

/// The direction of a vector is zero for the zero vector and for no other.
/// Else it is a unit vector to within three thousandths, never longer than
/// one, and each of its components has the sign of the vector's.
pub proof fn lemma_direction(v: V2)
    ensures
        v.direction() == V2::zero() <==> v == V2::zero(),
        v.direction().len_sq() <= ONE * ONE,
        v != V2::zero() ==> v.direction().len_sq() > (ONE - 3) * (ONE - 3),
        v.x >= 0 ==> v.direction().x >= 0,
        v.x <= 0 ==> v.direction().x <= 0,
        v.y >= 0 ==> v.direction().y >= 0,
        v.y <= 0 ==> v.direction().y <= 0,
        v.reach() <= WIDE_LIMIT ==> v.direction() == v.with_length(ONE as int),
{
    let f = v.fitted();
    lemma_fitted(v);
    lemma_len_sq_zero(f);
    lemma_len_sq_zero(f.with_length(ONE as int));
    lemma_with_length_at_most(f, ONE as int);
    if v != V2::zero() {
        lemma_with_length_at_least(f, ONE as int);
        assert((ONE - 3) * (ONE - 3) >= 0) by (nonlinear_arith);
    }
}

/// Turning a vector to full speed along one axis never slows it down along
/// that axis: where `(a, b)` is no longer than `m`, the vector `(m, b)`
/// brought to the length `m` has a first component of `a` or more.
pub proof fn lemma_full_speed_ahead(m: int, a: int, b: int)
    requires
        m >= 0,
        a * a + b * b <= m * m,
    ensures
        (V2 { x: m, y: b }).with_length(m).x >= a,
        (V2 { x: -m, y: b }).with_length(m).x <= -a,
        (V2 { x: b, y: m }).with_length(m).y >= a,
        (V2 { x: b, y: -m }).with_length(m).y <= -a,
{
    assert(b * b >= 0 && a * a >= 0) by (nonlinear_arith);
    if m == 0 {
        assert(a == 0) by (nonlinear_arith)
            requires
                a * a <= 0,
        ;
    } else if a > 0 {
        let tt = m * m;
        let n = m * m + b * b;
        let len = ceil_sqrt((n * tt) as nat) as int;
        lemma_full_speed_root(m, a, b);
        let east = V2 { x: m, y: b };
        let west = V2 { x: -m, y: b };
        let north = V2 { x: b, y: m };
        let south = V2 { x: b, y: -m };
        assert(east.len_sq() == n && west.len_sq() == n && north.len_sq() == n && south.len_sq()
            == n) by (nonlinear_arith)
            requires
                east.len_sq() == m * m + b * b,
                west.len_sq() == (-m) * (-m) + b * b,
                north.len_sq() == b * b + m * m,
                south.len_sq() == b * b + (-m) * (-m),
                n == m * m + b * b,
        ;
        assert(n >= 1) by (nonlinear_arith)
            requires
                n == m * m + b * b,
                m >= 1,
        ;
        lemma_rescaled(east, m);
        lemma_rescaled(west, m);
        lemma_rescaled(north, m);
        lemma_rescaled(south, m);
        assert((m * tt) / len >= a) by (nonlinear_arith)
            requires
                a * len <= m * tt,
                len >= 1,
        ;
    } else {
        lemma_with_length_at_most(V2 { x: m, y: b }, m);
        lemma_with_length_at_most(V2 { x: -m, y: b }, m);
        lemma_with_length_at_most(V2 { x: b, y: m }, m);
        lemma_with_length_at_most(V2 { x: b, y: -m }, m);
    }
}

/// Where `(a, b)` is no longer than `m` and `a` is positive, `a` times the
/// rounded-up length of `(m, b)` times `m` is at most the cube of `m`.
proof fn lemma_full_speed_root(m: int, a: int, b: int)
    requires
        m >= 1,
        a >= 1,
        a * a + b * b <= m * m,
    ensures
        a * ceil_sqrt(((m * m + b * b) * (m * m)) as nat) <= m * (m * m),
{
    let p = m * m;
    let c = m * p;
    let bb = b * b;
    let aa = a * a;
    let n = (p + bb) * p;
    assert(bb >= 0 && aa >= 1 && p >= 1 && c >= 1 && n >= 0) by (nonlinear_arith)
        requires
            m >= 1,
            a >= 1,
            p == m * m,
            c == m * p,
            bb == b * b,
            aa == a * a,
            n == (p + bb) * p,
    ;
    lemma_square_monotone(a as nat, m as nat);
    assert(a <= m);
    let len = ceil_sqrt(n as nat) as int;
    if a == m {
        assert(bb == 0);
        lemma_ceil_sqrt_least(n as nat, p as nat);
        assert(a * len <= c) by (nonlinear_arith)
            requires
                a == m,
                0 <= len <= p,
                c == m * p,
                m >= 1,
        ;
    } else {
        let k = c / a;
        assert(a * k <= c && c - a + 1 <= a * k && k >= 0) by (nonlinear_arith)
            requires
                k == c / a,
                a >= 1,
                c >= 1,
        ;
        // the square of a * k reaches a * a * n
        let g = p - aa;
        assert(g >= 2 * m - 1 && g >= 0) by (nonlinear_arith)
            requires
                g == m * m - a * a,
                1 <= a <= m - 1,
        ;
        assert(aa * (p + bb) <= aa * (2 * p - aa)) by (nonlinear_arith)
            requires
                aa + bb <= p,
                aa >= 0,
        ;
        assert(aa * (2 * p - aa) == p * p - g * g) by (nonlinear_arith)
            requires
                g == p - aa,
        ;
        assert(g * g >= (2 * m - 1) * (2 * m - 1)) by (nonlinear_arith)
            requires
                g >= 2 * m - 1,
                2 * m - 1 >= 0,
        ;
        let low = c - m + 2;
        assert(low * low >= p * (p * p) - p * ((2 * m - 1) * (2 * m - 1))) by (nonlinear_arith)
            requires
                low == c - m + 2,
                c == m * p,
                p == m * m,
                m >= 1,
        ;
        assert(aa * n <= p * (p * p) - p * ((2 * m - 1) * (2 * m - 1))) by (nonlinear_arith)
            requires
                n == (p + bb) * p,
                aa * (p + bb) <= p * p - g * g,
                g * g >= (2 * m - 1) * (2 * m - 1),
                p >= 1,
        ;
        assert(low >= 0) by (nonlinear_arith)
            requires
                low == c - m + 2,
                c == m * p,
                p == m * m,
                m >= 1,
        ;
        assert((a * k) * (a * k) >= low * low) by (nonlinear_arith)
            requires
                a * k >= c - a + 1,
                c - a + 1 >= low,
                low >= 0,
        ;
        assert((a * k) * (a * k) == aa * (k * k)) by (nonlinear_arith)
            requires
                aa == a * a,
        ;
        assert(k * k >= n) by (nonlinear_arith)
            requires
                aa * (k * k) >= aa * n,
                aa >= 1,
        ;
        lemma_ceil_sqrt_least(n as nat, k as nat);
        assert(a * len <= c) by (nonlinear_arith)
            requires
                0 <= len <= k,
                a * k <= c,
                a >= 1,
        ;
    }
}

} // verus!
