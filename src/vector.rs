//! Two-dimensional vectors of fixed-point quantities.
use crate::fixed::{
    div_toward_zero, fadd, fmul, floor_sqrt, fsub, fx_add, fx_mul, fx_sub, in_range, is_root, root,
    sat, saturate, tdiv, EPSILON, LIMIT, SCALE,
};
use vstd::prelude::*;

verus! {

/// Vectors with `x² + y²` up to this are normalized through their length
/// in millionths of a millionth; longer ones through their length in
/// millionths, which is then exact to better than one part in ten million.
pub const FINE_NORM_SQ: i128 = 100_000_000_000_000_000_000_000_000;

/// How many parts of a millionth the length of a vector with `x² + y² = n`
/// is counted in when it is normalized.
pub open spec fn unit_scale(n: int) -> int {
    if n <= FINE_NORM_SQ {
        SCALE as int
    } else {
        1
    }
}

#[derive(Clone, Copy, Debug, PartialEq, Eq, Structural)]
pub struct Vec2 {
    pub x: i64,
    pub y: i64,
}

impl Vec2 {
    pub open spec fn wf(self) -> bool {
        in_range(self.x as int) && in_range(self.y as int)
    }

    pub open spec fn zero() -> Vec2 {
        Vec2 { x: 0, y: 0 }
    }

    /// `x² + y²`.
    pub open spec fn norm_sq(self) -> int {
        self.x * self.x + self.y * self.y
    }

    /// Euclidean length, rounded down and saturated at `LIMIT`.
    pub open spec fn len(self) -> int {
        let r = root(self.norm_sq());
        if r > LIMIT {
            LIMIT as int
        } else {
            r
        }
    }

    pub open spec fn plus(self, o: Vec2) -> Vec2 {
        Vec2 { x: fadd(self.x as int, o.x as int) as i64, y: fadd(self.y as int, o.y as int) as i64 }
    }

    pub open spec fn minus(self, o: Vec2) -> Vec2 {
        Vec2 { x: fsub(self.x as int, o.x as int) as i64, y: fsub(self.y as int, o.y as int) as i64 }
    }

    pub open spec fn times(self, k: int) -> Vec2 {
        Vec2 { x: fmul(self.x as int, k) as i64, y: fmul(self.y as int, k) as i64 }
    }

    /// Whether the vector is longer than `m`, compared exactly.
    pub open spec fn longer(self, m: int) -> bool {
        m < 0 || self.norm_sq() > m * m
    }

    /// The vector divided by its length, or zero where the length is at
    /// most `EPSILON`. The length divided by is `root(n * k * k) / k`
    /// millionths, `k` being `unit_scale(n)`.
    pub open spec fn unit(self) -> Vec2 {
        let n = self.norm_sq();
        let k = unit_scale(n);
        let r = root(n * k * k);
        if self.longer(EPSILON as int) {
            Vec2 {
                x: sat(tdiv(self.x * k * SCALE, r)) as i64,
                y: sat(tdiv(self.y * k * SCALE, r)) as i64,
            }
        } else {
            Vec2::zero()
        }
    }

    pub fn new(x: i64, y: i64) -> (r: Vec2)
        ensures
            r == (Vec2 { x, y }),
    {
        Vec2 { x, y }
    }

    pub fn length(&self) -> (r: i64)
        requires
            self.wf(),
        ensures
            r == self.len(),
            0 <= r <= LIMIT,
    {
        let x = self.x as i128;
        let y = self.y as i128;
        proof {
            assert(0 <= x * x <= LIMIT * LIMIT) by (nonlinear_arith)
                requires
                    in_range(x as int),
            ;
            assert(0 <= y * y <= LIMIT * LIMIT) by (nonlinear_arith)
                requires
                    in_range(y as int),
            ;
        }
        let n: u128 = (x * x + y * y) as u128;
        let r = floor_sqrt(n);
        if r > LIMIT as u64 {
            LIMIT
        } else {
            r as i64
        }
    }

    fn norm_sq_exec(&self) -> (n: i128)
        requires
            self.wf(),
        ensures
            n == self.norm_sq(),
            0 <= n <= 2 * LIMIT * LIMIT,
    {
        let x = self.x as i128;
        let y = self.y as i128;
        proof {
            assert(0 <= x * x <= LIMIT * LIMIT) by (nonlinear_arith)
                requires
                    in_range(x as int),
            ;
            assert(0 <= y * y <= LIMIT * LIMIT) by (nonlinear_arith)
                requires
                    in_range(y as int),
            ;
        }
        x * x + y * y
    }

    /// Whether the vector is longer than `m`.
    pub fn longer_than(&self, m: i64) -> (r: bool)
        requires
            self.wf(),
            in_range(m as int),
        ensures
            r == self.longer(m as int),
    {
        let n = self.norm_sq_exec();
        let mm = m as i128;
        proof {
            assert(0 <= mm * mm <= LIMIT * LIMIT) by (nonlinear_arith)
                requires
                    in_range(mm as int),
            ;
        }
        m < 0 || n > mm * mm
    }

    pub fn normalize(&self) -> (r: Vec2)
        requires
            self.wf(),
        ensures
            r == self.unit(),
            r.wf(),
    {
        let n = self.norm_sq_exec();
        let eps_sq: i128 = 1_000_000;
        assert(eps_sq == EPSILON * EPSILON);
        if n <= eps_sq {
            return Vec2::new(0, 0);
        }
        let k: i128 = if n <= FINE_NORM_SQ {
            SCALE as i128
        } else {
            1
        };
        proof {
            assert(0 < n * k <= n * k * k <= 100_000_000_000_000_000_000_000_000_000_000_000_000int) by (nonlinear_arith)
                requires
                    0 < n <= 2 * LIMIT * LIMIT,
                    k == 1 || (k == SCALE && n <= FINE_NORM_SQ),
            ;
        }
        let r = floor_sqrt((n * k * k) as u128);
        proof {
            let nk = n * k * k;
            assert(is_root(r as int, nk));
            assert(r >= 1) by (nonlinear_arith)
                requires
                    nk < (r + 1) * (r + 1),
                    nk > 0,
                    r >= 0,
            ;
        }
        let x = self.x as i128;
        let y = self.y as i128;
        proof {
            assert(-LIMIT * SCALE * SCALE <= x * k * SCALE <= LIMIT * SCALE * SCALE) by (nonlinear_arith)
                requires
                    in_range(x as int),
                    1 <= k <= SCALE,
            ;
            assert(-LIMIT * SCALE * SCALE <= y * k * SCALE <= LIMIT * SCALE * SCALE) by (nonlinear_arith)
                requires
                    in_range(y as int),
                    1 <= k <= SCALE,
            ;
        }
        let ux = saturate(div_toward_zero(x * k * (SCALE as i128), r as i128));
        let uy = saturate(div_toward_zero(y * k * (SCALE as i128), r as i128));
        Vec2::new(ux, uy)
    }

    pub fn normalize_or_zero(&self) -> (r: Vec2)
        requires
            self.wf(),
        ensures
            r == self.unit(),
            r.wf(),
    {
        self.normalize()
    }

    pub fn add(self, o: Vec2) -> (r: Vec2)
        requires
            self.wf(),
            o.wf(),
        ensures
            r == self.plus(o),
            r.wf(),
    {
        Vec2::new(fx_add(self.x, o.x), fx_add(self.y, o.y))
    }

    pub fn add_assign(&mut self, o: Vec2)
        requires
            old(self).wf(),
            o.wf(),
        ensures
            *final(self) == old(self).plus(o),
            final(self).wf(),
    {
        self.x = fx_add(self.x, o.x);
        self.y = fx_add(self.y, o.y);
    }

    pub fn sub(self, o: Vec2) -> (r: Vec2)
        requires
            self.wf(),
            o.wf(),
        ensures
            r == self.minus(o),
            r.wf(),
    {
        Vec2::new(fx_sub(self.x, o.x), fx_sub(self.y, o.y))
    }

    pub fn mul(self, k: i64) -> (r: Vec2)
        requires
            self.wf(),
            in_range(k as int),
        ensures
            r == self.times(k as int),
            r.wf(),
    {
        Vec2::new(fx_mul(self.x, k), fx_mul(self.y, k))
    }
}

proof fn lemma_square_le(u: int, w: int)
    requires
        0 <= u <= w,
    ensures
        u * u <= w * w,
{
    assert(u * u <= w * w) by (nonlinear_arith)
        requires
            0 <= u <= w,
    ;
}

/// For `0 <= a <= l`, the quotient `q = a * SCALE / l` lies in
/// `[0, SCALE]` and brackets `a * SCALE` between `q * l` and `(q + 1) * l`,
/// squared.
proof fn lemma_scaled_quotient(a: int, l: int)
    requires
        0 <= a <= l,
        1 <= l,
    ensures
        0 <= (a * SCALE) / l <= SCALE,
        ((a * SCALE) / l) * l <= a * SCALE < ((a * SCALE) / l + 1) * l,
        ((a * SCALE) / l) * ((a * SCALE) / l) * (l * l) <= (a * a) * (SCALE * SCALE),
        (a * a) * (SCALE * SCALE) < ((a * SCALE) / l + 1) * ((a * SCALE) / l + 1) * (l * l),
{
    let q = (a * SCALE) / l;
    let m = a * SCALE;
    assert(0 <= m <= l * SCALE) by (nonlinear_arith)
        requires
            0 <= a <= l,
            m == a * SCALE,
    ;
    vstd::arithmetic::div_mod::lemma_fundamental_div_mod(m, l);
    vstd::arithmetic::div_mod::lemma_mod_bound(m, l);
    vstd::arithmetic::div_mod::lemma_div_pos_is_pos(m, l);
    assert(q * l <= m < (q + 1) * l) by (nonlinear_arith)
        requires
            m == l * q + m % l,
            0 <= m % l < l,
    ;
    assert(q <= SCALE) by (nonlinear_arith)
        requires
            q * l <= m,
            m <= l * SCALE,
            l >= 1,
    ;
    assert(0 <= q * l);
    lemma_square_le(q * l, m);
    lemma_square_le(m, (q + 1) * l);
    assert(m * m < ((q + 1) * l) * ((q + 1) * l)) by (nonlinear_arith)
        requires
            0 <= m < (q + 1) * l,
    ;
    assert((q * l) * (q * l) == q * q * (l * l)) by (nonlinear_arith);
    assert(m * m == (a * a) * (SCALE * SCALE)) by (nonlinear_arith)
        requires
            m == a * SCALE,
    ;
    assert(((q + 1) * l) * ((q + 1) * l) == (q + 1) * (q + 1) * (l * l)) by (nonlinear_arith);
}

/// A component `x` of a vector with `x * x <= n`, normalized through the
/// root `r` of `n * k * k`: its size `q`, its sign, and the square of `q`
/// bracketing `x² * SCALE²`.
proof fn lemma_unit_component(x: int, n: int, k: int, r: int)
    requires
        in_range(x),
        x * x <= n,
        1 <= k,
        1 <= r,
        is_root(r, n * k * k),
    ensures
        ({
            let q = ((abs(x) * k) * SCALE) / r;
            &&& 0 <= q <= SCALE
            &&& q * r <= (abs(x) * k) * SCALE < (q + 1) * r
            &&& abs(sat(tdiv(x * k * SCALE, r))) == q
            &&& x >= 0 ==> sat(tdiv(x * k * SCALE, r)) >= 0
            &&& x <= 0 ==> sat(tdiv(x * k * SCALE, r)) <= 0
            &&& q * q * (r * r) <= (x * x) * (k * k) * (SCALE * SCALE)
            &&& (x * x) * (k * k) * (SCALE * SCALE) < (q + 1) * (q + 1) * (r * r)
        }),
{
    let a = abs(x);
    let ak = a * k;
    assert(a * a == x * x) by (nonlinear_arith)
        requires
            a == abs(x),
    ;
    assert(ak * ak == (x * x) * (k * k)) by (nonlinear_arith)
        requires
            a * a == x * x,
            ak == a * k,
    ;
    assert(0 <= ak) by (nonlinear_arith)
        requires
            a >= 0,
            k >= 1,
            ak == a * k,
    ;
    assert(ak * ak <= n * k * k) by (nonlinear_arith)
        requires
            ak * ak == (x * x) * (k * k),
            x * x <= n,
    ;
    if ak > r {
        lemma_square_le(r + 1, ak);
    }
    lemma_scaled_quotient(ak, r);
    let q = (ak * SCALE) / r;
    assert((ak * ak) * (SCALE * SCALE) == (x * x) * (k * k) * (SCALE * SCALE)) by (nonlinear_arith)
        requires
            ak * ak == (x * x) * (k * k),
    ;
    assert(q == ((abs(x) * k) * SCALE) / r);
    let t = tdiv(x * k * SCALE, r);
    if x < 0 {
        assert(x * k * SCALE < 0 && -(x * k * SCALE) == ak * SCALE) by (nonlinear_arith)
            requires
                a == -x,
                x < 0,
                k >= 1,
                ak == a * k,
        ;
        assert(t == -q);
    } else {
        assert(x * k * SCALE >= 0 && x * k * SCALE == ak * SCALE) by (nonlinear_arith)
            requires
                x >= 0,
                a == x,
                k >= 1,
                ak == a * k,
        ;
        assert(t == q);
        if x == 0 {
            assert(ak == 0) by (nonlinear_arith)
                requires
                    a == x,
                    x == 0,
                    ak == a * k,
            ;
            assert(q == 0);
        }
    }
    assert(sat(t) == t);
    assert(0 <= q <= SCALE);
    assert(abs(sat(t)) == q);
    assert(q * q * (r * r) <= (x * x) * (k * k) * (SCALE * SCALE));
    assert((x * x) * (k * k) * (SCALE * SCALE) < (q + 1) * (q + 1) * (r * r));
}

pub open spec fn abs(x: int) -> int {
    if x < 0 {
        -x
    } else {
        x
    }
}

/// The root that a vector longer than `EPSILON` is normalized through is
/// at least `10⁹`.
proof fn lemma_unit_root(v: Vec2) -> (r: int)
    requires
        v.wf(),
        v.longer(EPSILON as int),
    ensures
        r == root(v.norm_sq() * unit_scale(v.norm_sq()) * unit_scale(v.norm_sq())),
        is_root(r, v.norm_sq() * unit_scale(v.norm_sq()) * unit_scale(v.norm_sq())),
        r >= 1_000_000_000,
{
    let n = v.norm_sq();
    let k = unit_scale(n);
    let nk = n * k * k;
    assert(nk > 1_000_000_000_000_000_000) by (nonlinear_arith)
        requires
            n > 1_000_000,
            k == 1 || k == 1_000_000,
            k == 1 ==> n > 100_000_000_000_000_000_000_000_000int,
            nk == n * k * k,
    ;
    let w = floor_root_witness(nk);
    let r = root(nk);
    assert(is_root(r, nk));
    if r < 1_000_000_000 {
        lemma_square_le(r + 1, 1_000_000_000);
    }
    r
}

/// Normalizing a vector no longer than `EPSILON` gives zero; normalizing a
/// longer one gives one unit of length, up to rounding: its squared length
/// is at least `SCALE² - 5 * SCALE` and at most `SCALE² + 3000`, so its
/// length, rounded down, is between `SCALE - 3` and `SCALE`. Each
/// component keeps the sign of the original.
pub proof fn normalize_gives_unit_or_zero(v: Vec2)
    requires
        v.wf(),
    ensures
        !v.longer(EPSILON as int) ==> v.unit() == Vec2::zero(),
        v.longer(EPSILON as int) ==> SCALE * SCALE - 5 * SCALE <= v.unit().norm_sq() <= SCALE * SCALE + 3000,
        abs(v.unit().x as int) <= SCALE,
        abs(v.unit().y as int) <= SCALE,
        v.x >= 0 ==> v.unit().x >= 0,
        v.x <= 0 ==> v.unit().x <= 0,
        v.y >= 0 ==> v.unit().y >= 0,
        v.y <= 0 ==> v.unit().y <= 0,
{
    if v.longer(EPSILON as int) {
        let n = v.norm_sq();
        let x = v.x as int;
        let y = v.y as int;
        let k = unit_scale(n);
        assert(x * x >= 0 && y * y >= 0) by (nonlinear_arith);
        let r = lemma_unit_root(v);
        lemma_unit_component(x, n, k, r);
        lemma_unit_component(y, n, k, r);
        let qa = ((abs(x) * k) * SCALE) / r;
        let qb = ((abs(y) * k) * SCALE) / r;
        let q = qa * qa + qb * qb;
        let ux = sat(tdiv(x * k * SCALE, r));
        let uy = sat(tdiv(y * k * SCALE, r));
        assert(ux * ux == qa * qa && uy * uy == qb * qb) by (nonlinear_arith)
            requires
                abs(ux) == qa,
                abs(uy) == qb,
        ;
        assert(v.unit().norm_sq() == q);
        let s2 = SCALE * SCALE;
        let kk = k * k;
        assert(q * (r * r) <= n * kk * s2) by (nonlinear_arith)
            requires
                qa * qa * (r * r) <= (x * x) * kk * s2,
                qb * qb * (r * r) <= (y * y) * kk * s2,
                q == qa * qa + qb * qb,
                n == x * x + y * y,
        ;
        assert(n * kk * s2 < (r + 1) * (r + 1) * s2) by (nonlinear_arith)
            requires
                n * k * k < (r + 1) * (r + 1),
                kk == k * k,
                s2 > 0,
        ;
        assert(3000 * r * r >= 3_000_000_000_000 * r) by (nonlinear_arith)
            requires
                r >= 1_000_000_000,
        ;
        assert(q <= s2 + 3000) by (nonlinear_arith)
            requires
                q * (r * r) < (r + 1) * (r + 1) * s2,
                3000 * r * r >= 3_000_000_000_000 * r,
                r >= 1_000_000_000,
                s2 == 1_000_000_000_000int,
        ;
        let p = (qa + 1) * (qa + 1) + (qb + 1) * (qb + 1);
        assert(n * kk * s2 < p * (r * r)) by (nonlinear_arith)
            requires
                (x * x) * kk * s2 < (qa + 1) * (qa + 1) * (r * r),
                (y * y) * kk * s2 < (qb + 1) * (qb + 1) * (r * r),
                p == (qa + 1) * (qa + 1) + (qb + 1) * (qb + 1),
                n == x * x + y * y,
        ;
        assert(r * r * s2 <= n * kk * s2) by (nonlinear_arith)
            requires
                r * r <= n * k * k,
                kk == k * k,
                s2 > 0,
        ;
        assert(s2 < p) by (nonlinear_arith)
            requires
                r * r * s2 < p * (r * r),
                r >= 1,
        ;
        assert(q >= s2 - 5 * SCALE) by (nonlinear_arith)
            requires
                s2 < p,
                p == (qa + 1) * (qa + 1) + (qb + 1) * (qb + 1),
                q == qa * qa + qb * qb,
                0 <= qa <= SCALE,
                0 <= qb <= SCALE,
                s2 == 1_000_000_000_000int,
        ;
    }
}

/// Some integer is the rounded-down square root of `n`.
proof fn floor_root_witness(n: int) -> (r: int)
    requires
        n >= 0,
    ensures
        is_root(r, n),
    decreases n,
{
    if n == 0 {
        assert(is_root(0, 0));
        0
    } else {
        let s = floor_root_witness(n - 1);
        assert(is_root(s, n - 1));
        if (s + 1) * (s + 1) <= n {
            assert((s + 1) * (s + 1) == n) by (nonlinear_arith)
                requires
                    (s + 1) * (s + 1) <= n,
                    n - 1 < (s + 1) * (s + 1),
            ;
            assert(n < (s + 2) * (s + 2)) by (nonlinear_arith)
                requires
                    (s + 1) * (s + 1) == n,
                    s >= 0,
            ;
            assert(is_root(s + 1, n));
            s + 1
        } else {
            assert(n < (s + 1) * (s + 1));
            s
        }
    }
}

/// A component `w` of a unit vector scaled by `m`: the result keeps the sign
/// of `w`, is at most `m` in size, and its square brackets `w² * m²`.
pub(crate) proof fn lemma_times_component(w: int, m: int)
    requires
        abs(w) <= SCALE,
        0 <= m <= LIMIT,
    ensures
        abs(fmul(w, m)) <= m,
        abs(fmul(w, m)) * SCALE <= abs(w) * m < (abs(fmul(w, m)) + 1) * SCALE,
        w >= 0 ==> fmul(w, m) >= 0,
        w <= 0 ==> fmul(w, m) <= 0,
        fmul(w, m) * fmul(w, m) * (SCALE * SCALE) <= (w * w) * (m * m),
        (w * w) * (m * m) < (abs(fmul(w, m)) + 1) * (abs(fmul(w, m)) + 1) * (SCALE * SCALE),
{
    let a = abs(w);
    let p = a * m;
    let sc = SCALE as int;
    assert(0 <= p <= sc * m) by (nonlinear_arith)
        requires
            0 <= a <= sc,
            0 <= m,
            p == a * m,
    ;
    let cu = p / sc;
    vstd::arithmetic::div_mod::lemma_fundamental_div_mod(p, sc);
    vstd::arithmetic::div_mod::lemma_mod_bound(p, sc);
    vstd::arithmetic::div_mod::lemma_div_pos_is_pos(p, sc);
    assert(cu * sc <= p < (cu + 1) * sc) by (nonlinear_arith)
        requires
            p == sc * cu + p % sc,
            0 <= p % sc < sc,
    ;
    assert(cu <= m) by (nonlinear_arith)
        requires
            cu * sc <= p,
            p <= sc * m,
            sc >= 1,
    ;
    let t = tdiv(w * m, sc);
    if w < 0 {
        assert(w * m <= 0 && -(w * m) == p) by (nonlinear_arith)
            requires
                a == -w,
                w < 0,
                0 <= m,
                p == a * m,
        ;
        if w * m < 0 {
            assert(t == -cu);
        } else {
            assert(p == 0);
            assert(t == 0 && cu == 0);
        }
    } else {
        assert(w * m >= 0 && w * m == p) by (nonlinear_arith)
            requires
                w >= 0,
                a == w,
                0 <= m,
                p == a * m,
        ;
        assert(t == cu);
        if w == 0 {
            assert(p == 0) by (nonlinear_arith)
                requires
                    w == 0,
                    a == w,
                    p == a * m,
            ;
            assert(cu == 0);
        }
    }
    assert(fmul(w, m) == t);
    assert(t * t == cu * cu) by (nonlinear_arith)
        requires
            t == cu || t == -cu,
    ;
    assert(0 <= cu * sc);
    lemma_square_le(cu * sc, p);
    assert(p * p < ((cu + 1) * sc) * ((cu + 1) * sc)) by (nonlinear_arith)
        requires
            0 <= p < (cu + 1) * sc,
    ;
    assert((cu * sc) * (cu * sc) == cu * cu * (sc * sc)) by (nonlinear_arith);
    assert(p * p == (w * w) * (m * m)) by (nonlinear_arith)
        requires
            p == a * m,
            a == w || a == -w,
    ;
    assert(((cu + 1) * sc) * ((cu + 1) * sc) == (cu + 1) * (cu + 1) * (sc * sc)) by (nonlinear_arith);
}

/// A vector longer than `EPSILON`, normalized and scaled by `m >= 0`, has
/// length `m` up to rounding: its squared length is at most
/// `m² * (1 + 3000 / SCALE²)` and more than `m² * (1 - 5 / SCALE) - 4 * m - 2`.
/// Each component keeps the sign of the original.
pub proof fn scaled_unit_length(v: Vec2, m: int)
    requires
        v.wf(),
        v.longer(EPSILON as int),
        0 <= m <= LIMIT,
    ensures
        v.unit().times(m).norm_sq() * (SCALE * SCALE) <= (SCALE * SCALE + 3000) * (m * m),
        (SCALE * SCALE - 5 * SCALE) * (m * m) - (4 * m + 2) * (SCALE * SCALE) < v.unit().times(m).norm_sq()
            * (SCALE * SCALE),
        v.x >= 0 ==> v.unit().times(m).x >= 0,
        v.x <= 0 ==> v.unit().times(m).x <= 0,
        v.y >= 0 ==> v.unit().times(m).y >= 0,
        v.y <= 0 ==> v.unit().times(m).y <= 0,
        along(v.x as int, v.unit().times(m).x as int, v, m),
        along(v.y as int, v.unit().times(m).y as int, v, m),
{
    normalize_gives_unit_or_zero(v);
    let n = v.norm_sq();
    let k = unit_scale(n);
    assert(v.x * v.x >= 0 && v.y * v.y >= 0) by (nonlinear_arith);
    let r = lemma_unit_root(v);
    lemma_unit_component(v.x as int, n, k, r);
    lemma_unit_component(v.y as int, n, k, r);
    let u = v.unit();
    let wx = u.x as int;
    let wy = u.y as int;
    lemma_times_component(wx, m);
    lemma_times_component(wy, m);
    let cx = fmul(wx, m);
    let cy = fmul(wy, m);
    let c = u.times(m);
    assert(c.x == cx && c.y == cy);
    lemma_component_along(abs(v.x as int), k, r, abs(wx), abs(cx), m);
    lemma_component_along(abs(v.y as int), k, r, abs(wy), abs(cy), m);
    let q = u.norm_sq();
    let s2 = SCALE * SCALE;
    let mm = m * m;
    assert(q == wx * wx + wy * wy);
    assert(c.norm_sq() == cx * cx + cy * cy);
    assert((cx * cx + cy * cy) * s2 <= q * mm) by (nonlinear_arith)
        requires
            cx * cx * s2 <= (wx * wx) * mm,
            cy * cy * s2 <= (wy * wy) * mm,
            q == wx * wx + wy * wy,
    ;
    assert(q * mm <= (s2 + 3000) * mm) by (nonlinear_arith)
        requires
            q <= s2 + 3000,
            mm >= 0,
    ;
    let ax = abs(cx);
    let ay = abs(cy);
    assert(cx * cx == ax * ax && cy * cy == ay * ay) by (nonlinear_arith)
        requires
            ax == cx || ax == -cx,
            ay == cy || ay == -cy,
    ;
    assert(q * mm < ((ax + 1) * (ax + 1) + (ay + 1) * (ay + 1)) * s2) by (nonlinear_arith)
        requires
            (wx * wx) * mm < (ax + 1) * (ax + 1) * s2,
            (wy * wy) * mm < (ay + 1) * (ay + 1) * s2,
            q == wx * wx + wy * wy,
    ;
    assert((s2 - 5 * SCALE) * mm <= q * mm) by (nonlinear_arith)
        requires
            s2 - 5 * SCALE <= q,
            mm >= 0,
    ;
    assert((s2 - 5 * SCALE) * mm - (4 * m + 2) * s2 < (cx * cx + cy * cy) * s2) by (nonlinear_arith)
        requires
            (s2 - 5 * SCALE) * mm <= q * mm,
            q * mm < ((ax + 1) * (ax + 1) + (ay + 1) * (ay + 1)) * s2,
            cx * cx == ax * ax,
            cy * cy == ay * ay,
            0 <= ax <= m,
            0 <= ay <= m,
            s2 > 0,
    ;
}

/// The length of a vector, rounded down, lies in `[0, LIMIT]`, and is at
/// least `EPSILON` where the vector is longer than `EPSILON`.
pub proof fn length_bounds(v: Vec2)
    requires
        v.wf(),
    ensures
        0 <= v.len() <= LIMIT,
        v.longer(EPSILON as int) ==> v.len() >= EPSILON,
{
    let n = v.norm_sq();
    assert(n >= 0) by (nonlinear_arith)
        requires
            n == v.x * v.x + v.y * v.y,
    ;
    let w = floor_root_witness(n);
    assert(is_root(root(n), n));
    if v.longer(EPSILON as int) && root(n) < EPSILON {
        lemma_square_le(root(n) + 1, EPSILON as int);
    }
}

/// `c` is the component `x` of `v` scaled to length `m`, up to rounding:
/// in size, `|x| * m / |v|` rounded down, or at most `m / SCALE + 1` less,
/// where `|v|` is `r / k` millionths, the length that `unit` divides by.
pub open spec fn along(x: int, c: int, v: Vec2, m: int) -> bool {
    let n = v.norm_sq();
    let k = unit_scale(n);
    let r = root(n * k * k);
    &&& abs(c) * r <= abs(x) * k * m
    &&& abs(x) * k * m * SCALE < (abs(c) * SCALE + SCALE + m) * r
}

proof fn lemma_component_along(a: int, k: int, r: int, q: int, c: int, m: int)
    requires
        0 <= a,
        1 <= k,
        1 <= r,
        0 <= q,
        0 <= c,
        0 <= m,
        q * r <= (a * k) * SCALE < (q + 1) * r,
        c * SCALE <= q * m < (c + 1) * SCALE,
    ensures
        c * r <= a * k * m,
        a * k * m * SCALE < (c * SCALE + SCALE + m) * r,
{
    let s = SCALE as int;
    assert(c * s * r <= q * m * r) by (nonlinear_arith)
        requires
            c * s <= q * m,
            r >= 1,
    ;
    assert(q * r * m <= (a * k) * s * m) by (nonlinear_arith)
        requires
            q * r <= (a * k) * s,
            m >= 0,
    ;
    assert(c * r <= a * k * m) by (nonlinear_arith)
        requires
            c * s * r <= q * m * r,
            q * r * m <= (a * k) * s * m,
            s > 0,
    ;
    assert((a * k) * s * m <= (q + 1) * r * m) by (nonlinear_arith)
        requires
            (a * k) * s < (q + 1) * r,
            m >= 0,
    ;
    assert(q * m * r < (c + 1) * s * r) by (nonlinear_arith)
        requires
            q * m < (c + 1) * s,
            r >= 1,
    ;
    assert((q + 1) * r * m == q * m * r + r * m) by (nonlinear_arith);
    assert((c + 1) * s * r + r * m == (c * s + s + m) * r) by (nonlinear_arith);
    assert(a * k * m * s == (a * k) * s * m) by (nonlinear_arith);
}

} // verus!
