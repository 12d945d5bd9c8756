//! Laws of elliptic-curve point addition modulo a prime.
use vstd::prelude::*;

use vstd::arithmetic::div_mod::{
    lemma_add_mod_noop, lemma_fundamental_div_mod, lemma_mul_mod_noop_left,
};
use crate::crypto::util::{ec_add, inverse_spec, mod_floor_spec, scalar_mult_spec};

verus! {

/// `a` and `b` are congruent modulo `m`.
pub open spec fn cong(a: int, b: int, m: int) -> bool {
    (a - b) % m == 0
}

/// Every nonzero residue modulo `m` is inverted by Fermat's formula
/// `inverse_spec`: by Fermat's little theorem, true of every prime `m`.
pub open spec fn fermat_inverts(m: int) -> bool {
    forall|d: int| 0 < d < m ==> #[trigger] cong(d * inverse_spec(d, m), 1, m)
}

/// A point with coordinates reduced modulo `m`, or the point at infinity.
pub open spec fn reduced_point(p: Option<(int, int)>, m: int) -> bool {
    match p {
        Some((x, y)) => 0 <= x < m && 0 <= y < m,
        None => true,
    }
}

proof fn lemma_cong_mod(a: int, m: int)
    requires
        m > 0,
    ensures
        cong(a % m, a, m),
        cong(a, a % m, m),
{
    lemma_fundamental_div_mod(a, m);
    lemma_mod_of_multiple(-(a / m), m);
    assert(a % m - a == (-(a / m)) * m) by (nonlinear_arith)
        requires
            a == m * (a / m) + a % m,
    ;
    lemma_mod_of_multiple(a / m, m);
    assert(a - a % m == (a / m) * m) by (nonlinear_arith)
        requires
            a == m * (a / m) + a % m,
    ;
}

proof fn lemma_mod_of_multiple(k: int, m: int)
    requires
        m > 0,
    ensures
        (k * m) % m == 0,
{
    vstd::arithmetic::div_mod::lemma_mod_multiples_basic(k, m);
}

proof fn lemma_cong_mul(a: int, b: int, c: int, m: int)
    requires
        m > 0,
        cong(a, b, m),
    ensures
        cong(a * c, b * c, m),
{
    lemma_mul_mod_noop_left(a - b, c, m);
    assert(((a - b) % m) * c == 0);
    assert(0int % m == 0);
    assert(a * c - b * c == (a - b) * c) by (nonlinear_arith);
}

proof fn lemma_cong_add(a: int, b: int, c: int, d: int, m: int)
    requires
        m > 0,
        cong(a, b, m),
        cong(c, d, m),
    ensures
        cong(a + c, b + d, m),
{
    lemma_add_mod_noop(a - b, c - d, m);
    assert(0int % m == 0);
    assert(a + c - (b + d) == (a - b) + (c - d));
}

proof fn lemma_cong_neg(a: int, b: int, m: int)
    requires
        m > 0,
        cong(a, b, m),
    ensures
        cong(b, a, m),
        cong(-a, -b, m),
{
    lemma_cong_mul(a, b, -1, m);
    assert(a * -1 == -a && b * -1 == -b) by (nonlinear_arith);
    assert(b - a == -a - (-b));
}

proof fn lemma_cong_trans(a: int, b: int, c: int, m: int)
    requires
        m > 0,
        cong(a, b, m),
        cong(b, c, m),
    ensures
        cong(a, c, m),
{
    lemma_cong_add(a, b, b, c, m);
    assert(a + b - (b + c) == a - c);
}

proof fn lemma_cong_unique(a: int, b: int, m: int)
    requires
        m > 0,
        0 <= a < m,
        0 <= b < m,
        cong(a, b, m),
    ensures
        a == b,
{
    lemma_fundamental_div_mod(a - b, m);
    let q = (a - b) / m;
    assert(a - b == m * q);
    assert(q == 0) by (nonlinear_arith)
        requires
            a - b == m * q,
            -m < a - b < m,
            m > 0,
    ;
}

/// A nonzero difference of two residues is a nonzero residue.
proof fn lemma_nonzero_residue(a: int, m: int)
    requires
        m > 0,
        -m < a < m,
        a != 0,
    ensures
        0 < a % m < m,
{
    vstd::arithmetic::div_mod::lemma_mod_bound(a, m);
    lemma_fundamental_div_mod(a, m);
    let q = a / m;
    if a % m == 0 {
        assert(a == m * q);
        assert(false) by (nonlinear_arith)
            requires
                a == m * q,
                -m < a < m,
                a != 0,
                m > 0,
        ;
    }
}

/// `((a % m) - b) % m - c` reduced again is `a - b - c` reduced.
proof fn lemma_nested_sub(a: int, b: int, c: int, m: int)
    requires
        m > 0,
    ensures
        cong((((a % m) - b) % m - c) % m, a - b - c, m),
{
    lemma_cong_mod(a, m);
    lemma_cong_mod((a % m) - b, m);
    lemma_cong_mod(((a % m) - b) % m - c, m);
    assert(cong(-b, -b, m)) by {
        assert(-b - -b == 0);
        assert(0int % m == 0);
    }
    lemma_cong_add(a % m, a, -b, -b, m);
    lemma_cong_trans(((a % m) - b) % m, (a % m) - b, a - b, m);
    assert(cong(-c, -c, m)) by {
        assert(-c - -c == 0);
        assert(0int % m == 0);
    }
    lemma_cong_add(((a % m) - b) % m, a - b, -c, -c, m);
    lemma_cong_trans((((a % m) - b) % m - c) % m, ((a % m) - b) % m - c, a - b - c, m);
}

/// The slope through two points with different `x`, computed either way, is
/// the same, and it solves `s (x2 - x1) = y2 - y1`.
proof fn lemma_slope_symmetric(x1: int, y1: int, x2: int, y2: int, m: int)
    requires
        m > 1,
        fermat_inverts(m),
        0 <= x1 < m,
        0 <= x2 < m,
        x1 != x2,
    ensures
        ({
            let s = mod_floor_spec(
                mod_floor_spec(y2 - y1, m) * inverse_spec(mod_floor_spec(x2 - x1, m), m),
                m,
            );
            let t = mod_floor_spec(
                mod_floor_spec(y1 - y2, m) * inverse_spec(mod_floor_spec(x1 - x2, m), m),
                m,
            );
            s == t && cong(s * (x1 - x2), y1 - y2, m)
        }),
{
    let d = (x2 - x1) % m;
    let e = (x1 - x2) % m;
    let n = (y2 - y1) % m;
    let n2 = (y1 - y2) % m;
    let i = inverse_spec(d, m);
    let j = inverse_spec(e, m);
    let s = (n * i) % m;
    let t = (n2 * j) % m;
    lemma_cong_mod(x2 - x1, m);
    lemma_cong_mod(x1 - x2, m);
    lemma_cong_mod(y2 - y1, m);
    lemma_cong_mod(y1 - y2, m);
    lemma_nonzero_residue(x2 - x1, m);
    lemma_nonzero_residue(x1 - x2, m);
    assert(cong(d * i, 1, m));
    assert(cong(e * j, 1, m));
    // s d = n, t e = n2
    lemma_cong_mod(n * i, m);
    lemma_cong_mul(s, n * i, d, m);
    lemma_cong_mul(d * i, 1, n, m);
    assert(n * i * d == d * i * n) by (nonlinear_arith);
    lemma_cong_trans(s * d, n * i * d, n, m);
    lemma_cong_mod(n2 * j, m);
    lemma_cong_mul(t, n2 * j, e, m);
    lemma_cong_mul(e * j, 1, n2, m);
    assert(n2 * j * e == e * j * n2) by (nonlinear_arith);
    lemma_cong_trans(t * e, n2 * j * e, n2, m);
    // e = -d and n2 = -n
    lemma_cong_neg(x2 - x1, d, m);
    assert(x1 - x2 == -(x2 - x1));
    lemma_cong_trans(e, x1 - x2, -d, m);
    lemma_cong_neg(y2 - y1, n, m);
    assert(y1 - y2 == -(y2 - y1));
    lemma_cong_trans(n2, y1 - y2, -n, m);
    // t d = n
    lemma_cong_mul(e, -d, t, m);
    assert(e * t == t * e && -d * t == -(t * d)) by (nonlinear_arith);
    lemma_cong_neg(e * t, -(t * d), m);
    lemma_cong_trans(-(t * d), t * e, n2, m);
    lemma_cong_trans(-(t * d), n2, -n, m);
    lemma_cong_neg(-(t * d), -n, m);
    assert(-(-(t * d)) == t * d && -(-n) == n);
    // s = t
    lemma_cong_neg(t * d, n, m);
    lemma_cong_trans(s * d, n, t * d, m);
    lemma_cong_mul(s * d, t * d, i, m);
    lemma_cong_mul(d * i, 1, s, m);
    lemma_cong_mul(d * i, 1, t, m);
    assert(s * d * i == d * i * s && t * d * i == d * i * t && 1 * s == s && 1 * t == t)
        by (nonlinear_arith);
    lemma_cong_neg(d * i * s, s, m);
    lemma_cong_trans(s, s * d * i, t * d * i, m);
    lemma_cong_trans(s, t * d * i, t, m);
    lemma_cong_unique(s, t, m);
    // s (x1 - x2) = y1 - y2
    lemma_cong_neg(x2 - x1, d, m);
    lemma_cong_mul(d, x2 - x1, s, m);
    assert(d * s == s * d && (x2 - x1) * s == -(s * (x1 - x2))) by (nonlinear_arith);
    lemma_cong_neg(d * s, (x2 - x1) * s, m);
    lemma_cong_trans(-(s * (x1 - x2)), s * d, n, m);
    lemma_cong_trans(-(s * (x1 - x2)), n, y2 - y1, m);
    lemma_cong_neg(-(s * (x1 - x2)), y2 - y1, m);
    assert(-(-(s * (x1 - x2))) == s * (x1 - x2) && -(y2 - y1) == y1 - y2);
}

/// `((s * (u % m)) % m - y) % m` is `s * u - y` reduced.
proof fn lemma_nested_mul_sub(s: int, u: int, y: int, m: int)
    requires
        m > 0,
    ensures
        cong(((s * (u % m)) % m - y) % m, s * u - y, m),
{
    lemma_cong_mod(u, m);
    lemma_cong_mul(u % m, u, s, m);
    assert((u % m) * s == s * (u % m) && u * s == s * u) by (nonlinear_arith);
    lemma_cong_mod(s * (u % m), m);
    lemma_cong_trans((s * (u % m)) % m, s * (u % m), s * u, m);
    assert(cong(-y, -y, m)) by {
        assert(-y - -y == 0);
        assert(0int % m == 0);
    }
    lemma_cong_add((s * (u % m)) % m, s * u, -y, -y, m);
    lemma_cong_mod((s * (u % m)) % m - y, m);
    lemma_cong_trans(((s * (u % m)) % m - y) % m, (s * (u % m)) % m - y, s * u - y, m);
}

/// Adding two points gives the same point in either order, on reduced points
/// modulo a modulus whose nonzero residues Fermat's formula inverts (every
/// prime, by Fermat's little theorem).
pub proof fn lemma_point_add_symmetric(p: Option<(int, int)>, q: Option<(int, int)>, a: int, m: int)
    requires
        m > 1,
        fermat_inverts(m),
        reduced_point(p, m),
        reduced_point(q, m),
    ensures
        ec_add(p, q, a, m) == ec_add(q, p, a, m),
{
    if let (Some((x1, y1)), Some((x2, y2))) = (p, q) {
        if x1 != x2 {
            lemma_slope_symmetric(x1, y1, x2, y2, m);
            let s = mod_floor_spec(
                mod_floor_spec(y2 - y1, m) * inverse_spec(mod_floor_spec(x2 - x1, m), m),
                m,
            );
            let ss = (s * s) % m;
            let x3 = ((ss - x1) % m - x2) % m;
            let x3b = ((ss - x2) % m - x1) % m;
            lemma_nested_sub(s * s, x1, x2, m);
            lemma_nested_sub(s * s, x2, x1, m);
            lemma_cong_neg(x3b, s * s - x2 - x1, m);
            assert(s * s - x2 - x1 == s * s - x1 - x2);
            lemma_cong_trans(x3, s * s - x1 - x2, x3b, m);
            vstd::arithmetic::div_mod::lemma_mod_bound(((ss - x1) % m - x2), m);
            vstd::arithmetic::div_mod::lemma_mod_bound(((ss - x2) % m - x1), m);
            lemma_cong_unique(x3, x3b, m);
            let y3 = ((s * ((x1 - x3) % m)) % m - y1) % m;
            let y3b = ((s * ((x2 - x3) % m)) % m - y2) % m;
            lemma_nested_mul_sub(s, x1 - x3, y1, m);
            lemma_nested_mul_sub(s, x2 - x3, y2, m);
            // s (x1 - x3) - y1 and s (x2 - x3) - y2 differ by s (x1 - x2) - (y1 - y2)
            assert(s * (x1 - x3) - y1 - (s * (x2 - x3) - y2) == s * (x1 - x2) - (y1 - y2))
                by (nonlinear_arith);
            assert(cong(s * (x1 - x3) - y1, s * (x2 - x3) - y2, m));
            lemma_cong_trans(y3, s * (x1 - x3) - y1, s * (x2 - x3) - y2, m);
            lemma_cong_neg(y3b, s * (x2 - x3) - y2, m);
            lemma_cong_trans(y3, s * (x2 - x3) - y2, y3b, m);
            vstd::arithmetic::div_mod::lemma_mod_bound((s * ((x1 - x3) % m)) % m - y1, m);
            vstd::arithmetic::div_mod::lemma_mod_bound((s * ((x2 - x3) % m)) % m - y2, m);
            lemma_cong_unique(y3, y3b, m);
        }
    }
}

/// Adding the point at infinity changes nothing, and two points with the
/// same `x` add to the point at infinity exactly when their `y` differ or
/// are zero.
pub proof fn lemma_point_add_infinity(p: Option<(int, int)>, q: Option<(int, int)>, a: int, m: int)
    ensures
        ec_add(None, q, a, m) == q,
        ec_add(p, None, a, m) == p,
        (p matches Some((x1, y1)) && q matches Some((x2, y2))) ==> (ec_add(p, q, a, m) is None
            <==> p->Some_0.0 == q->Some_0.0 && (p->Some_0.1 != q->Some_0.1 || p->Some_0.1 == 0)),
{
}

/// The sum of two points modulo a positive `m` has reduced coordinates.
pub proof fn lemma_point_add_reduced(p: Option<(int, int)>, q: Option<(int, int)>, a: int, m: int)
    requires
        m > 0,
        reduced_point(p, m),
        reduced_point(q, m),
    ensures
        reduced_point(ec_add(p, q, a, m), m),
{
    if let (Some((x1, y1)), Some((x2, y2))) = (p, q) {
        if let Some((x3, y3)) = ec_add(p, q, a, m) {
            if !(x1 == x2 && (y1 != y2 || y1 == 0)) {
                let slope = if x1 == x2 && y1 == y2 {
                    mod_floor_spec(
                        mod_floor_spec(
                            mod_floor_spec(mod_floor_spec(x1 * x1, m) * 3, m) + a,
                            m,
                        ) * inverse_spec(mod_floor_spec(y1 * 2, m), m),
                        m,
                    )
                } else {
                    mod_floor_spec(
                        mod_floor_spec(y2 - y1, m) * inverse_spec(mod_floor_spec(x2 - x1, m), m),
                        m,
                    )
                };
                let xs = mod_floor_spec(mod_floor_spec(slope * slope, m) - x1, m) - x2;
                vstd::arithmetic::div_mod::lemma_mod_bound(xs, m);
                let ys = mod_floor_spec(slope * mod_floor_spec(x1 - x3, m), m) - y1;
                vstd::arithmetic::div_mod::lemma_mod_bound(ys, m);
            }
        }
    }
}

/// Multiplying by zero gives the point at infinity, and by one the point.
pub proof fn lemma_scalar_mult_small(point: (int, int), a: int, m: int)
    ensures
        scalar_mult_spec(0, None, Some(point), a, m) is None,
        scalar_mult_spec(1, None, Some(point), a, m) == Some(point),
{
    assert(scalar_mult_spec(0, None, Some(point), a, m) is None);
    let doubled = ec_add(Some(point), Some(point), a, m);
    assert(1int % 2 == 1 && 1int / 2 == 0);
    assert(scalar_mult_spec(0, Some(point), doubled, a, m) == Some(point));
}

} // verus!
