use vstd::prelude::*;

verus! {

/// Fixed-point units in one pixel: a length of `SCALE` is one pixel.
pub const SCALE: i64 = 1_000_000;

/// Largest magnitude of a vector component that the vector helpers accept.
pub const COMPONENT_LIMIT: i64 = 0x10_0000_0000_0000;

/// A 2D vector in fixed-point units.
#[derive(Clone, Copy, Debug, PartialEq, Eq, Structural)]
pub struct Vector {
    pub x: i64,
    pub y: i64,
}

impl View for Vector {
    type V = (int, int);

    open spec fn view(&self) -> (int, int) {
        (self.x as int, self.y as int)
    }
}

impl Vector {
    pub fn new(x: i64, y: i64) -> (r: Vector)
        ensures
            r.x == x,
            r.y == y,
    {
        Vector { x, y }
    }
}

pub open spec fn abs(a: int) -> int {
    if a < 0 {
        -a
    } else {
        a
    }
}

/// Squared Euclidean length.
pub open spec fn norm_sq(v: (int, int)) -> int {
    v.0 * v.0 + v.1 * v.1
}

/// `r` is the least natural number whose square is at least `n`.
pub open spec fn is_ceil_sqrt(n: int, r: int) -> bool {
    0 <= r && n <= r * r && (r == 0 || (r - 1) * (r - 1) < n)
}

/// The rounded-up square root of `n`.
pub open spec fn ceil_sqrt(n: int) -> int {
    choose|r: int| is_ceil_sqrt(n, r)
}

/// Division rounded toward zero, as Rust's `/` does.
pub open spec fn tdiv(a: int, b: int) -> int {
    if a >= 0 {
        a / b
    } else {
        -((-a) / b)
    }
}

/// `v` scaled by `l / |v|` when it is longer than `l`, otherwise `v` itself.
pub open spec fn truncated(v: (int, int), l: int) -> (int, int) {
    if norm_sq(v) <= l * l {
        v
    } else {
        let len = ceil_sqrt(norm_sq(v));
        (tdiv(v.0 * l, len), tdiv(v.1 * l, len))
    }
}

/// `v` scaled to length `l`; the zero vector stays zero.
pub open spec fn scaled_to(v: (int, int), l: int) -> (int, int) {
    let len = ceil_sqrt(norm_sq(v));
    if len == 0 {
        (0, 0)
    } else {
        (tdiv(v.0 * l, len), tdiv(v.1 * l, len))
    }
}

pub proof fn lemma_ceil_sqrt_unique(n: int, r: int, s: int)
    requires
        is_ceil_sqrt(n, r),
        is_ceil_sqrt(n, s),
    ensures
        r == s,
{
    if r < s {
        assert((s - 1) * (s - 1) >= r * r) by (nonlinear_arith)
            requires
                0 <= r <= s - 1,
        ;
    } else if s < r {
        assert((r - 1) * (r - 1) >= s * s) by (nonlinear_arith)
            requires
                0 <= s <= r - 1,
        ;
    }
}

pub proof fn lemma_ceil_sqrt_is(n: int, r: int)
    requires
        is_ceil_sqrt(n, r),
    ensures
        ceil_sqrt(n) == r,
{
    let c = ceil_sqrt(n);
    assert(is_ceil_sqrt(n, c));
    lemma_ceil_sqrt_unique(n, r, c);
}

/// The rounded-up square root of `n`.
pub fn ceil_sqrt_u128(n: u128) -> (r: u128)
    requires
        n <= 0x100_0000_0000_0000_0000_0000_0000_0000,
    ensures
        is_ceil_sqrt(n as int, r as int),
        r as int == ceil_sqrt(n as int),
        r <= 0x1000_0000_0000_0000,
{
    if n == 0 {
        proof {
            lemma_ceil_sqrt_is(0, 0);
        }
        return 0;
    }
    let mut lo: u128 = 0;
    let mut hi: u128 = 0x1000_0000_0000_0000;
    assert(hi * hi == 0x100_0000_0000_0000_0000_0000_0000_0000) by (nonlinear_arith)
        requires
            hi == 0x1000_0000_0000_0000u128,
    ;
    while hi - lo > 1
        invariant
            lo < hi <= 0x1000_0000_0000_0000,
            lo * lo < n,
            n <= hi * hi,
        decreases hi - lo,
    {
        let mid: u128 = lo + (hi - lo) / 2;
        assert(mid * mid <= 0x100_0000_0000_0000_0000_0000_0000_0000) by (nonlinear_arith)
            requires
                mid <= 0x1000_0000_0000_0000u128,
        ;
        if mid * mid < n {
            lo = mid;
        } else {
            hi = mid;
        }
    }
    proof {
        lemma_ceil_sqrt_is(n as int, hi as int);
    }
    hi
}

/// Division of `a` by a positive `b`, rounded toward zero.
pub fn div_toward_zero(a: i128, b: i128) -> (r: i128)
    requires
        b > 0,
        a > i128::MIN,
    ensures
        r as int == tdiv(a as int, b as int),
        abs(r as int) <= abs(a as int),
{
    if a >= 0 {
        a / b
    } else {
        let q = (-a) / b;
        -q
    }
}

pub proof fn lemma_tdiv_scaled(a: int, l: int, len: int)
    requires
        l >= 0,
        len > 0,
    ensures
        abs(tdiv(a * l, len)) * len <= abs(a) * l,
        abs(tdiv(a * l, len)) == abs(a) * l / len,
{
    let q = abs(a) * l / len;
    assert(abs(a) * l >= 0) by (nonlinear_arith)
        requires
            l >= 0,
    ;
    assert(abs(a * l) == abs(a) * l) by (nonlinear_arith)
        requires
            l >= 0,
    ;
    assert(q * len <= abs(a) * l) by (nonlinear_arith)
        requires
            len > 0,
            q == abs(a) * l / len,
    ;
}

/// The truncated vector is no longer than `l`.
pub proof fn lemma_truncated_len(v: (int, int), l: int)
    requires
        l >= 0,
    ensures
        norm_sq(truncated(v, l)) <= l * l,
{
    if norm_sq(v) > l * l {
        let n = norm_sq(v);
        let len = ceil_sqrt(n);
        assert(exists|r: int| is_ceil_sqrt(n, r)) by {
            assert(n >= 0) by (nonlinear_arith)
                requires
                    n == v.0 * v.0 + v.1 * v.1,
            ;
            lemma_ceil_sqrt_exists(n);
        }
        assert(is_ceil_sqrt(n, len));
        assert(len > 0) by (nonlinear_arith)
            requires
                n <= len * len,
                n > l * l,
                l * l >= 0,
                len >= 0,
        ;
        lemma_scaled_len(v, l, len);
    }
}

pub proof fn lemma_scaled_len(v: (int, int), l: int, len: int)
    requires
        l >= 0,
        len > 0,
        norm_sq(v) <= len * len,
    ensures
        norm_sq((tdiv(v.0 * l, len), tdiv(v.1 * l, len))) <= l * l,
        abs(tdiv(v.0 * l, len)) <= abs(v.0) * l / len,
        abs(tdiv(v.1 * l, len)) <= abs(v.1) * l / len,
{
    let a = tdiv(v.0 * l, len);
    let b = tdiv(v.1 * l, len);
    lemma_tdiv_scaled(v.0, l, len);
    lemma_tdiv_scaled(v.1, l, len);
    let aa = abs(a);
    let bb = abs(b);
    let x = abs(v.0);
    let y = abs(v.1);
    lemma_abs_sq(a);
    lemma_abs_sq(b);
    lemma_abs_sq(v.0);
    lemma_abs_sq(v.1);
    lemma_sq_mono(aa * len, x * l);
    lemma_sq_mono(bb * len, y * l);
    assert((aa * len) * (aa * len) == (aa * aa) * (len * len)) by (nonlinear_arith);
    assert((bb * len) * (bb * len) == (bb * bb) * (len * len)) by (nonlinear_arith);
    assert((x * l) * (x * l) == (x * x) * (l * l)) by (nonlinear_arith);
    assert((y * l) * (y * l) == (y * y) * (l * l)) by (nonlinear_arith);
    assert((x * x + y * y) * (l * l) <= (len * len) * (l * l)) by (nonlinear_arith)
        requires
            x * x + y * y <= len * len,
    ;
    assert((aa * aa + bb * bb) * (len * len) == (aa * aa) * (len * len) + (bb * bb) * (len
        * len)) by (nonlinear_arith);
    assert((x * x + y * y) * (l * l) == (x * x) * (l * l) + (y * y) * (l * l)) by (nonlinear_arith);
    assert(aa * aa + bb * bb <= l * l) by (nonlinear_arith)
        requires
            (aa * aa + bb * bb) * (len * len) <= (len * len) * (l * l),
            len > 0,
    ;
}

pub proof fn lemma_abs_sq(a: int)
    ensures
        abs(a) * abs(a) == a * a,
        abs(a) >= 0,
{
    if a < 0 {
        assert((-a) * (-a) == a * a) by (nonlinear_arith);
    }
}

pub proof fn lemma_sq_mono(p: int, q: int)
    requires
        0 <= p <= q,
    ensures
        p * p <= q * q,
{
    assert(p * p <= q * q) by (nonlinear_arith)
        requires
            0 <= p <= q,
    ;
}

/// Every natural number has a rounded-up square root.
pub proof fn lemma_ceil_sqrt_exists(n: int)
    requires
        n >= 0,
    ensures
        is_ceil_sqrt(n, ceil_sqrt(n)),
    decreases n,
{
    if n == 0 {
        assert(is_ceil_sqrt(0, 0));
    } else {
        lemma_ceil_sqrt_exists(n - 1);
        let r = ceil_sqrt(n - 1);
        if n <= r * r {
            assert(is_ceil_sqrt(n, r));
        } else {
            assert(is_ceil_sqrt(n, r + 1)) by (nonlinear_arith)
                requires
                    n - 1 <= r * r,
                    n > r * r,
                    r >= 0,
            ;
        }
    }
}

pub proof fn lemma_mul_bound(a: int, l: int)
    requires
        abs(a) <= COMPONENT_LIMIT,
        0 <= l <= COMPONENT_LIMIT,
    ensures
        abs(a * l) <= COMPONENT_LIMIT * COMPONENT_LIMIT,
{
    assert(abs(a) * l <= COMPONENT_LIMIT * COMPONENT_LIMIT) by (nonlinear_arith)
        requires
            0 <= abs(a) <= COMPONENT_LIMIT,
            0 <= l <= COMPONENT_LIMIT,
    ;
    assert(abs(a * l) == abs(a) * l) by (nonlinear_arith)
        requires
            l >= 0,
    ;
}

proof fn lemma_shrink(a: int, l: int, len: int, n: int)
    requires
        0 <= l,
        l * l < n,
        n <= len * len,
        0 < len,
    ensures
        abs(tdiv(a * l, len)) <= abs(a),
{
    lemma_tdiv_scaled(a, l, len);
    if l > len {
        lemma_sq_mono(len, l);
    }
    assert(abs(a) * l <= abs(a) * len) by (nonlinear_arith)
        requires
            l <= len,
            abs(a) >= 0,
    ;
    assert(abs(tdiv(a * l, len)) <= abs(a)) by (nonlinear_arith)
        requires
            abs(tdiv(a * l, len)) * len <= abs(a) * len,
            0 < len,
    ;
}

/// Shortens `vec` to `max_length` when it is longer, keeping its direction.
pub fn truncate(vec: &mut Vector, max_length: i64)
    requires
        0 <= max_length <= COMPONENT_LIMIT,
        abs(old(vec).x as int) <= COMPONENT_LIMIT,
        abs(old(vec).y as int) <= COMPONENT_LIMIT,
    ensures
        final(vec)@ == truncated(old(vec)@, max_length as int),
        norm_sq(final(vec)@) <= max_length * max_length,
{
    let x = vec.x as i128;
    let y = vec.y as i128;
    let l = max_length as i128;
    proof {
        lemma_truncated_len(old(vec)@, l as int);
    }
    proof {
        lemma_abs_sq(x as int);
        lemma_abs_sq(y as int);
        lemma_sq_mono(abs(x as int), COMPONENT_LIMIT as int);
        lemma_sq_mono(abs(y as int), COMPONENT_LIMIT as int);
        lemma_sq_mono(l as int, COMPONENT_LIMIT as int);
    }
    let n = x * x + y * y;
    if n > l * l {
        let len = ceil_sqrt_u128(n as u128) as i128;
        assert(len > 0) by (nonlinear_arith)
            requires
                n <= len * len,
                n > l * l,
                l * l >= 0,
                len >= 0,
        ;
        proof {
            lemma_mul_bound(x as int, l as int);
            lemma_mul_bound(y as int, l as int);
        }
        let nx = div_toward_zero(x * l, len);
        let ny = div_toward_zero(y * l, len);
        proof {
            lemma_scaled_len(old(vec)@, l as int, len as int);
            lemma_shrink(x as int, l as int, len as int, n as int);
            lemma_shrink(y as int, l as int, len as int, n as int);
        }
        vec.x = nx as i64;
        vec.y = ny as i64;
    }
}

/// Componentwise sum.
pub open spec fn plus(a: (int, int), b: (int, int)) -> (int, int) {
    (a.0 + b.0, a.1 + b.1)
}

/// Componentwise difference.
pub open spec fn minus(a: (int, int), b: (int, int)) -> (int, int) {
    (a.0 - b.0, a.1 - b.1)
}

/// A quotient `a * k / m` with `|a| <= m` is at most `k` in magnitude.
pub proof fn lemma_quot_le(a: int, k: int, m: int)
    requires
        k >= 0,
        m > 0,
        abs(a) <= m,
    ensures
        abs(tdiv(a * k, m)) <= k,
{
    lemma_tdiv_scaled(a, k, m);
    assert(abs(a) * k <= m * k) by (nonlinear_arith)
        requires
            abs(a) <= m,
            k >= 0,
    ;
    assert(abs(tdiv(a * k, m)) <= k) by (nonlinear_arith)
        requires
            abs(tdiv(a * k, m)) * m <= m * k,
            m > 0,
    ;
}

/// Scaling `a` by `k / m` with `0 <= k <= m` lands between zero and `a`.
pub proof fn lemma_between(a: int, k: int, m: int)
    requires
        0 <= k <= m,
        m > 0,
    ensures
        a >= 0 ==> 0 <= tdiv(a * k, m) <= a,
        a < 0 ==> a <= tdiv(a * k, m) <= 0,
{
    lemma_tdiv_scaled(a, k, m);
    assert(abs(a) * k <= abs(a) * m) by (nonlinear_arith)
        requires
            0 <= k <= m,
            abs(a) >= 0,
    ;
    assert(abs(tdiv(a * k, m)) <= abs(a)) by (nonlinear_arith)
        requires
            abs(tdiv(a * k, m)) * m <= abs(a) * m,
            m > 0,
    ;
    if a >= 0 {
        assert(a * k >= 0) by (nonlinear_arith)
            requires
                a >= 0,
                k >= 0,
        ;
        assert((a * k) / m >= 0) by (nonlinear_arith)
            requires
                a * k >= 0,
                m > 0,
        ;
    } else {
        assert(a * k <= 0) by (nonlinear_arith)
            requires
                a < 0,
                k >= 0,
        ;
        if a * k < 0 {
            assert((-(a * k)) / m >= 0) by (nonlinear_arith)
                requires
                    -(a * k) > 0,
                    m > 0,
            ;
        } else {
            assert(tdiv(a * k, m) == 0);
        }
    }
}

/// A component is no larger in magnitude than a bound on the vector's length.
pub proof fn lemma_component_le(v: (int, int), len: int)
    requires
        len >= 0,
        norm_sq(v) <= len * len,
    ensures
        abs(v.0) <= len,
        abs(v.1) <= len,
{
    lemma_abs_sq(v.0);
    lemma_abs_sq(v.1);
    if abs(v.0) > len {
        lemma_sq_mono(len, abs(v.0));
        assert(abs(v.0) * abs(v.0) > len * len) by (nonlinear_arith)
            requires
                abs(v.0) > len,
                len >= 0,
        ;
    }
    if abs(v.1) > len {
        assert(abs(v.1) * abs(v.1) > len * len) by (nonlinear_arith)
            requires
                abs(v.1) > len,
                len >= 0,
        ;
    }
}

pub proof fn lemma_norm_nonneg(v: (int, int))
    ensures
        norm_sq(v) >= 0,
{
    lemma_abs_sq(v.0);
    lemma_abs_sq(v.1);
    assert(abs(v.0) * abs(v.0) >= 0 && abs(v.1) * abs(v.1) >= 0) by (nonlinear_arith);
}

/// Each component of a scaled vector is at most `l` in magnitude.
pub proof fn lemma_scaled_to_bound(v: (int, int), l: int)
    requires
        l >= 0,
    ensures
        abs(scaled_to(v, l).0) <= l,
        abs(scaled_to(v, l).1) <= l,
{
    let n = norm_sq(v);
    lemma_norm_nonneg(v);
    lemma_ceil_sqrt_exists(n);
    let len = ceil_sqrt(n);
    if len != 0 {
        lemma_component_le(v, len);
        lemma_quot_le(v.0, l, len);
        lemma_quot_le(v.1, l, len);
    }
}

/// `v` scaled to length `length`, rounded toward zero; the zero vector stays zero.
pub fn scale_to(v: Vector, length: i64) -> (r: Vector)
    requires
        0 <= length <= COMPONENT_LIMIT,
        abs(v.x as int) <= COMPONENT_LIMIT,
        abs(v.y as int) <= COMPONENT_LIMIT,
    ensures
        r@ == scaled_to(v@, length as int),
        abs(r.x as int) <= length,
        abs(r.y as int) <= length,
{
    let x = v.x as i128;
    let y = v.y as i128;
    let l = length as i128;
    proof {
        lemma_abs_sq(x as int);
        lemma_abs_sq(y as int);
        lemma_sq_mono(abs(x as int), COMPONENT_LIMIT as int);
        lemma_sq_mono(abs(y as int), COMPONENT_LIMIT as int);
        lemma_scaled_to_bound(v@, length as int);
    }
    let n = x * x + y * y;
    let len = ceil_sqrt_u128(n as u128) as i128;
    if len == 0 {
        Vector { x: 0, y: 0 }
    } else {
        proof {
            lemma_mul_bound(x as int, l as int);
            lemma_mul_bound(y as int, l as int);
        }
        let nx = div_toward_zero(x * l, len);
        let ny = div_toward_zero(y * l, len);
        Vector { x: nx as i64, y: ny as i64 }
    }
}

pub proof fn lemma_sq_sum(a: int, b: int)
    ensures
        (a + b) * (a + b) == a * a + 2 * (a * b) + b * b,
{
    assert((a + b) * (a + b) == a * a + 2 * (a * b) + b * b) by (nonlinear_arith);
}

/// Triangle inequality on squared lengths: `|v + s| <= a + b` when `|v| <= a` and `|s| <= b`.
pub proof fn lemma_triangle(v: (int, int), s: (int, int), a: int, b: int)
    requires
        a >= 0,
        b >= 0,
        norm_sq(v) <= a * a,
        norm_sq(s) <= b * b,
    ensures
        norm_sq(plus(v, s)) <= (a + b) * (a + b),
{
    let dot = v.0 * s.0 + v.1 * s.1;
    let cross = v.0 * s.1 - v.1 * s.0;
    let (p, q, x, y) = (v.0, v.1, s.0, s.1);
    lemma_sq_sum(p * x, q * y);
    lemma_sq_sum(p * y, -(q * x));
    assert((p * x) * (p * x) == (p * p) * (x * x)) by (nonlinear_arith);
    assert((q * y) * (q * y) == (q * q) * (y * y)) by (nonlinear_arith);
    assert((p * y) * (p * y) == (p * p) * (y * y)) by (nonlinear_arith);
    assert((q * x) * (q * x) == (q * q) * (x * x)) by (nonlinear_arith);
    assert((-(q * x)) * (-(q * x)) == (q * x) * (q * x)) by (nonlinear_arith);
    assert((p * x) * (q * y) == (p * y) * (q * x)) by (nonlinear_arith);
    assert((p * y) * (-(q * x)) == -((p * y) * (q * x))) by (nonlinear_arith);
    assert((p * p + q * q) * (x * x + y * y) == (p * p) * (x * x) + (p * p) * (y * y) + (q * q) * (
    x * x) + (q * q) * (y * y)) by (nonlinear_arith);
    assert(dot * dot + cross * cross == norm_sq(v) * norm_sq(s));
    lemma_norm_nonneg(v);
    lemma_norm_nonneg(s);
    assert(norm_sq(v) * norm_sq(s) <= (a * a) * (b * b)) by (nonlinear_arith)
        requires
            0 <= norm_sq(v) <= a * a,
            0 <= norm_sq(s) <= b * b,
    ;
    assert(cross * cross >= 0) by (nonlinear_arith);
    assert((a * a) * (b * b) == (a * b) * (a * b)) by (nonlinear_arith);
    assert(a * b >= 0) by (nonlinear_arith)
        requires
            a >= 0,
            b >= 0,
    ;
    if dot > a * b {
        assert(dot * dot > (a * b) * (a * b)) by (nonlinear_arith)
            requires
                dot > a * b,
                a * b >= 0,
        ;
    }
    lemma_sq_sum(p, x);
    lemma_sq_sum(q, y);
    lemma_sq_sum(a, b);
    assert(norm_sq(plus(v, s)) == norm_sq(v) + 2 * dot + norm_sq(s));
}

} // verus!
