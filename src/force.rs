//! The pairwise gravity model: Newton's inverse-square law, evaluated exactly
//! on integers and truncated toward zero in units of `1 / FORCE_ONE`.
use vstd::prelude::*;
use crate::vector::{Force, TomlVector};
use vstd::arithmetic::div_mod::{lemma_fundamental_div_mod, lemma_hoist_over_denominator, lemma_mod_bound};

verus! {

/// `r` is the integer square root of `n`.
pub open spec fn is_isqrt(n: int, r: int) -> bool {
    0 <= r && r * r <= n && n < (r + 1) * (r + 1)
}

/// The integer square root of a non-negative `n`: the largest `r` with `r * r <= n`.
pub open spec fn isqrt(n: int) -> int {
    choose|r: int| is_isqrt(n, r)
}

/// At most one integer is the square root of `n`.
pub proof fn lemma_isqrt_unique(n: int, a: int, b: int)
    requires
        is_isqrt(n, a),
        is_isqrt(n, b),
    ensures
        a == b,
{
    if a < b {
        assert((a + 1) * (a + 1) <= b * b) by (nonlinear_arith)
            requires
                0 <= a,
                a + 1 <= b,
        ;
    } else if b < a {
        assert((b + 1) * (b + 1) <= a * a) by (nonlinear_arith)
            requires
                0 <= b,
                b + 1 <= a,
        ;
    }
}

/// A witness fixes `isqrt`.
pub proof fn lemma_isqrt_is(n: int, r: int)
    requires
        is_isqrt(n, r),
    ensures
        isqrt(n) == r,
{
    assert(is_isqrt(n, isqrt(n)));
    lemma_isqrt_unique(n, r, isqrt(n));
}

/// Every non-negative integer has an integer square root.
pub proof fn lemma_isqrt_exists(n: int)
    requires
        n >= 0,
    ensures
        is_isqrt(n, isqrt(n)),
        n > 0 ==> isqrt(n) >= 1,
    decreases n,
{
    if n == 0 {
        assert(is_isqrt(0, 0));
    } else {
        lemma_isqrt_exists(n - 1);
        let r = isqrt(n - 1);
        if (r + 1) * (r + 1) <= n {
            assert(is_isqrt(n, r + 1)) by (nonlinear_arith)
                requires
                    0 <= r,
                    (r + 1) * (r + 1) <= n,
                    n - 1 < (r + 1) * (r + 1),
            ;
        } else {
            assert(is_isqrt(n, r));
        }
    }
    let s = isqrt(n);
    if n > 0 && s == 0 {
        assert(false);
    }
}

/// Integer square root by bisection.
pub fn integer_sqrt(n: u128) -> (r: u128)
    ensures
        is_isqrt(n as int, r as int),
        r as int == isqrt(n as int),
{
    let mut lo: u128 = 0;
    let mut hi: u128 = 0xFFFF_FFFF_FFFF_FFFF;
    if n >= hi * hi {
        lo = hi;
        assert(n < (hi + 1) * (hi + 1));
        proof {
            lemma_isqrt_is(n as int, lo as int);
        }
        return lo;
    }
    while hi - lo > 1
        invariant
            lo < hi <= 0xFFFF_FFFF_FFFF_FFFFu128,
            lo * lo <= n,
            n < hi * hi,
        decreases hi - lo,
    {
        let mid: u128 = lo + (hi - lo) / 2;
        assert(mid * mid <= 0xFFFF_FFFF_FFFF_FFFFu128 * 0xFFFF_FFFF_FFFF_FFFFu128) by (nonlinear_arith)
            requires
                mid <= 0xFFFF_FFFF_FFFF_FFFFu128,
        ;
        if mid * mid <= n {
            lo = mid;
        } else {
            hi = mid;
        }
    }
    assert(hi == lo + 1);
    proof {
        lemma_isqrt_is(n as int, lo as int);
    }
    lo
}

/// One force unit: forces are counted in steps of `1 / FORCE_ONE`.
pub const FORCE_ONE: u128 = 0x1_0000;

/// The largest value of `g * m1 * m2 * FORCE_ONE` for 16-bit factors.
pub const MAX_PAIR_FORCE: u128 = 0xFFFD_0002_FFFF_0000u128;

/// Absolute value.
pub open spec fn abs(x: int) -> int {
    if x >= 0 { x } else { -x }
}

/// Division that truncates toward zero, as signed machine division does.
pub open spec fn trunc_div(n: int, d: int) -> int {
    if n >= 0 { n / d } else { -((-n) / d) }
}

/// `q` is the integer part of `sqrt(n / d)`: the largest `q` with `q * q * d <= n`.
pub open spec fn is_root_quotient(n: int, d: int, q: int) -> bool {
    0 <= q && q * q * d <= n && n < (q + 1) * (q + 1) * d
}

/// The integer part of `sqrt(n / d)`.
pub open spec fn root_quotient(n: int, d: int) -> int {
    choose|q: int| is_root_quotient(n, d, q)
}

/// `u / d2^(3/2)`, truncated toward zero: the integer `q` with the sign of `u`
/// and `q^2 * d2^3 <= u^2 < (|q| + 1)^2 * d2^3`.
pub open spec fn inverse_cube(u: int, d2: int) -> int {
    if u >= 0 {
        root_quotient(u * u, d2 * d2 * d2)
    } else {
        -root_quotient(u * u, d2 * d2 * d2)
    }
}

/// One component of the force, in units of `1 / FORCE_ONE`:
/// `g * m1 * m2 * r / d^3` with `d2 = d^2` the squared distance, truncated
/// toward zero; zero at distance zero.
pub open spec fn force_component(g: int, m1: int, m2: int, r: int, d2: int) -> int {
    if d2 == 0 { 0 } else { inverse_cube(g * m1 * m2 * FORCE_ONE * r, d2) }
}

/// Squared distance between two positions.
pub open spec fn squared_distance(p1: TomlVector, p2: TomlVector) -> int {
    let rx = p2.x - p1.x;
    let ry = p2.y - p1.y;
    rx * rx + ry * ry
}

/// The force that a body of mass `m2` at `p2` exerts on a body of mass `m1`
/// at `p1`: magnitude `g * m1 * m2 / d^2`, directed from `p1` toward `p2`.
pub open spec fn force_spec(g: int, m1: int, m2: int, p1: TomlVector, p2: TomlVector) -> (int, int) {
    let d2 = squared_distance(p1, p2);
    (force_component(g, m1, m2, p2.x - p1.x, d2), force_component(g, m1, m2, p2.y - p1.y, d2))
}

proof fn lemma_root_quotient_unique(n: int, d: int, a: int, b: int)
    requires
        d > 0,
        is_root_quotient(n, d, a),
        is_root_quotient(n, d, b),
    ensures
        a == b,
{
    if a < b {
        lemma_square_times_monotone(a + 1, b, d);
    } else if b < a {
        lemma_square_times_monotone(b + 1, a, d);
    }
}

proof fn lemma_square_times_monotone(x: int, y: int, d: int)
    requires
        0 <= x <= y,
        d >= 0,
    ensures
        x * x * d <= y * y * d,
{
    assert(x * x <= y * y) by (nonlinear_arith)
        requires
            0 <= x <= y,
    ;
    assert(x * x * d <= y * y * d) by (nonlinear_arith)
        requires
            x * x <= y * y,
            d >= 0,
    ;
}

/// A witness fixes `root_quotient`.
pub proof fn lemma_root_quotient_is(n: int, d: int, q: int)
    requires
        d > 0,
        is_root_quotient(n, d, q),
    ensures
        root_quotient(n, d) == q,
{
    assert(is_root_quotient(n, d, root_quotient(n, d)));
    lemma_root_quotient_unique(n, d, q, root_quotient(n, d));
}

/// `root_quotient` is defined for every non-negative `n` and positive `d`.
pub proof fn lemma_root_quotient_exists(n: int, d: int)
    requires
        n >= 0,
        d > 0,
    ensures
        is_root_quotient(n, d, root_quotient(n, d)),
{
    let w = n / d;
    lemma_fundamental_div_mod(n, d);
    lemma_mod_bound(n, d);
    assert(w >= 0) by (nonlinear_arith)
        requires
            n == d * w + n % d,
            n % d < d,
            n >= 0,
            d > 0,
    ;
    lemma_isqrt_exists(w);
    let s = isqrt(w);
    assert(is_root_quotient(n, d, s)) by (nonlinear_arith)
        requires
            n == d * w + n % d,
            0 <= n % d < d,
            s >= 0,
            s * s <= w,
            w < (s + 1) * (s + 1),
            d > 0,
    {
        assert(s * s * d <= w * d);
        assert(w + 1 <= (s + 1) * (s + 1));
        assert((w + 1) * d <= (s + 1) * (s + 1) * d);
    }
    lemma_root_quotient_is(n, d, s);
}

/// The root quotient of `0` is `0`.
proof fn lemma_root_quotient_zero(d: int)
    requires
        d > 0,
    ensures
        root_quotient(0, d) == 0,
{
    assert(0int * 0 * d == 0 && (0int + 1) * (0 + 1) * d == d) by (nonlinear_arith);
    lemma_root_quotient_is(0, d, 0);
}

/// The integer part of `c * a / d2^(3/2)` for `c * a >= 0`, where `a * a <= d2`.
fn inverse_cube_magnitude(c: u128, a: u128, d2: u128) -> (q: u128)
    requires
        c <= MAX_PAIR_FORCE,
        a * a <= d2,
        0 < d2 < 0x4_0000_0000u128,
    ensures
        is_root_quotient((c * a) * (c * a), d2 * d2 * d2, q as int),
        q <= c,
{
    assert(a <= 0x4_0000_0000u128) by (nonlinear_arith)
        requires
            a * a <= d2,
            d2 < 0x4_0000_0000u128,
    ;
    assert(c * a <= MAX_PAIR_FORCE * 0x4_0000_0000u128) by (nonlinear_arith)
        requires
            c <= MAX_PAIR_FORCE,
            a <= 0x4_0000_0000u128,
    ;
    let u: u128 = c * a;
    let k: u128 = u / d2;
    let b: u128 = u % d2;
    let ghost uu: int = u as int * u as int;
    let ghost w: int = uu / (d2 as int);
    proof {
        lemma_fundamental_div_mod(u as int, d2 as int);
        lemma_fundamental_div_mod(uu, d2 as int);
        lemma_mod_bound(uu, d2 as int);
        let kk = k as int;
        let bb = b as int;
        let dd = d2 as int;
        assert(uu == (kk * kk * dd + 2 * kk * bb) * dd + bb * bb) by (nonlinear_arith)
            requires
                uu == (u as int) * (u as int),
                u as int == dd * kk + bb,
        ;
        lemma_hoist_over_denominator(bb * bb, kk * kk * dd + 2 * kk * bb, d2 as nat);
        assert(w == kk * kk * dd + 2 * kk * bb + (bb * bb) / dd);
        assert(uu <= (c as int) * (c as int) * dd) by (nonlinear_arith)
            requires
                uu == (u as int) * (u as int),
                u as int == (c as int) * (a as int),
                (a as int) * (a as int) <= dd,
                c >= 0,
        ;
        assert(w <= (c as int) * (c as int)) by (nonlinear_arith)
            requires
                uu == dd * w + uu % dd,
                0 <= uu % dd,
                uu <= (c as int) * (c as int) * dd,
                dd > 0,
        ;
        assert((c as int) * (c as int) <= 0xFFFF_FFFF_FFFF_FFFF_FFFF_FFFF_FFFF_FFFFu128) by (nonlinear_arith)
            requires
                c <= MAX_PAIR_FORCE,
        ;
        assert(0 <= (bb * bb) / dd) by (nonlinear_arith)
            requires
                dd > 0,
        ;
        assert(kk * kk <= kk * kk * dd && 0 <= kk * kk && 0 <= 2 * kk * bb) by (nonlinear_arith)
            requires
                dd >= 1,
                kk >= 0,
                bb >= 0,
        ;
        assert(bb * bb < 0x10_0000_0000_0000_0000u128) by (nonlinear_arith)
            requires
                0 <= bb < 0x4_0000_0000u128,
        ;
    }
    let w_exec: u128 = k * k * d2 + 2 * k * b + b * b / d2;
    let s: u128 = integer_sqrt(w_exec);
    let q: u128 = s / d2;
    proof {
        let qq = q as int;
        let ss = s as int;
        let dd = d2 as int;
        lemma_fundamental_div_mod(ss, dd);
        lemma_mod_bound(ss, dd);
        let x = qq * dd;
        assert(x <= ss && ss < x + dd && qq >= 0) by (nonlinear_arith)
            requires
                ss == dd * qq + ss % dd,
                0 <= ss % dd < dd,
                x == qq * dd,
                ss >= 0,
                dd > 0,
        ;
        // q * d2 <= s, so (q * d2)^2 * d2 <= w * d2 <= u^2
        lemma_square_times_monotone(x, ss, 1);
        assert(qq * qq * (dd * dd * dd) <= uu) by (nonlinear_arith)
            requires
                x * x * 1 <= ss * ss,
                ss * ss <= w,
                uu == dd * w + uu % dd,
                0 <= uu % dd,
                x == qq * dd,
                dd > 0,
        {
            assert(x * x * dd <= w * dd);
        }
        // (q + 1) * d2 > s, so ((q + 1) * d2)^2 * d2 > w * d2 + rest = u^2
        let y = (qq + 1) * dd;
        assert(y >= ss + 1) by (nonlinear_arith)
            requires
                ss < x + dd,
                x == qq * dd,
                y == (qq + 1) * dd,
        ;
        lemma_square_times_monotone(ss + 1, y, 1);
        assert(uu < (qq + 1) * (qq + 1) * (dd * dd * dd)) by (nonlinear_arith)
            requires
                (ss + 1) * (ss + 1) * 1 <= y * y * 1,
                w < (ss + 1) * (ss + 1),
                uu == dd * w + uu % dd,
                uu % dd < dd,
                y == (qq + 1) * dd,
                dd > 0,
        {
            assert((w + 1) * dd <= y * y * dd);
        }
        assert(ss <= c) by (nonlinear_arith)
            requires
                ss * ss <= w,
                w <= (c as int) * (c as int),
                ss >= 0,
                c >= 0,
        ;
        assert(qq <= ss) by (nonlinear_arith)
            requires
                x <= ss,
                x == qq * dd,
                dd >= 1,
                qq >= 0,
        ;
        assert((c * a) * (c * a) == uu);
    }
    q
}

/// The gravitational force that body 2 exerts on body 1, with gravitational
/// constant `g`, in units of `1 / FORCE_ONE`. Coincident bodies exert no force
/// on each other.
pub fn gravitational_force(mass1: u16, mass2: u16, position1: TomlVector, position2: TomlVector, g: u16) -> (f: Force)
    ensures
        f@ == force_spec(g as int, mass1 as int, mass2 as int, position1, position2),
        abs(f.x as int) <= g * mass1 * mass2 * FORCE_ONE,
        abs(f.y as int) <= g * mass1 * mass2 * FORCE_ONE,
{
    let rx: i64 = position2.x as i64 - position1.x as i64;
    let ry: i64 = position2.y as i64 - position1.y as i64;
    assert(rx * rx <= 0xFFFF_FFFF && ry * ry <= 0xFFFF_FFFF && rx * rx >= 0 && ry * ry >= 0) by (nonlinear_arith)
        requires
            -0xFFFF <= rx <= 0xFFFF,
            -0xFFFF <= ry <= 0xFFFF,
    ;
    let d2: u128 = (rx * rx + ry * ry) as u128;
    assert(d2 == squared_distance(position1, position2));
    if d2 == 0 {
        return Force::zero();
    }
    assert((g as u128) * (mass1 as u128) <= 0xFFFE_0001u128) by (nonlinear_arith)
        requires
            g <= 0xFFFFu16,
            mass1 <= 0xFFFFu16,
    ;
    assert((g as u128) * (mass1 as u128) * (mass2 as u128) <= 0xFFFD_0002_FFFFu128) by (nonlinear_arith)
        requires
            (g as u128) * (mass1 as u128) <= 0xFFFE_0001u128,
            mass2 <= 0xFFFFu16,
    ;
    let c: u128 = g as u128 * mass1 as u128 * mass2 as u128 * FORCE_ONE;
    let ax: u128 = if rx >= 0 { rx as u128 } else { (-rx) as u128 };
    let ay: u128 = if ry >= 0 { ry as u128 } else { (-ry) as u128 };
    assert(ax * ax == rx * rx && ay * ay == ry * ry) by (nonlinear_arith)
        requires
            ax == rx || ax == -rx,
            ay == ry || ay == -ry,
    ;
    let qx: u128 = inverse_cube_magnitude(c, ax, d2);
    let qy: u128 = inverse_cube_magnitude(c, ay, d2);
    proof {
        let dd = d2 as int;
        assert(dd * dd * dd > 0) by (nonlinear_arith)
            requires
                dd > 0,
        ;
        lemma_root_quotient_is((c * ax) * (c * ax), dd * dd * dd, qx as int);
        lemma_root_quotient_is((c * ay) * (c * ay), dd * dd * dd, qy as int);
        signed_component(c as int, rx as int, ax as int, dd, qx as int);
        signed_component(c as int, ry as int, ay as int, dd, qy as int);
    }
    let fx: i128 = if rx >= 0 { qx as i128 } else { -(qx as i128) };
    let fy: i128 = if ry >= 0 { qy as i128 } else { -(qy as i128) };
    Force { x: fx, y: fy }
}

/// Puts the sign of `r` on the magnitude of `c * r / d2^(3/2)`.
proof fn signed_component(c: int, r: int, a: int, d2: int, q: int)
    requires
        c >= 0,
        d2 > 0,
        a == abs(r),
        q == root_quotient((c * a) * (c * a), d2 * d2 * d2),
        q <= c,
        c == 0 ==> q == 0,
    ensures
        inverse_cube(c * r, d2) == (if r >= 0 { q } else { -q }),
{
    assert((c * r) * (c * r) == (c * a) * (c * a)) by (nonlinear_arith)
        requires
            a == r || a == -r,
    ;
    assert(r >= 0 ==> c * r >= 0) by (nonlinear_arith)
        requires
            c >= 0,
    ;
    assert(r < 0 && c > 0 ==> c * r < 0) by (nonlinear_arith);
    if r < 0 && c == 0 {
        assert(c * r == 0);
    }
}

/// Each force component is at most `g * m1 * m2 * FORCE_ONE` in size.
pub proof fn lemma_force_bound(g: int, m1: int, m2: int, p1: TomlVector, p2: TomlVector)
    requires
        g >= 0,
        m1 >= 0,
        m2 >= 0,
    ensures
        abs(force_spec(g, m1, m2, p1, p2).0) <= g * m1 * m2 * FORCE_ONE,
        abs(force_spec(g, m1, m2, p1, p2).1) <= g * m1 * m2 * FORCE_ONE,
{
    let rx = p2.x - p1.x;
    let ry = p2.y - p1.y;
    let d2 = squared_distance(p1, p2);
    let c = g * m1 * m2 * FORCE_ONE;
    assert(c >= 0) by (nonlinear_arith)
        requires
            g >= 0,
            m1 >= 0,
            m2 >= 0,
            c == g * m1 * m2 * FORCE_ONE,
    ;
    if d2 != 0 {
        assert(d2 > 0 && rx * rx <= d2 && ry * ry <= d2) by (nonlinear_arith)
            requires
                d2 == rx * rx + ry * ry,
                d2 != 0,
        ;
        component_bound(c, rx, d2);
        component_bound(c, ry, d2);
    }
}

proof fn component_bound(c: int, r: int, d2: int)
    requires
        c >= 0,
        r * r <= d2,
        d2 > 0,
    ensures
        abs(inverse_cube(c * r, d2)) <= c,
{
    let n = (c * r) * (c * r);
    let d = d2 * d2 * d2;
    assert(n >= 0 && d > 0) by (nonlinear_arith)
        requires
            n == (c * r) * (c * r),
            d == d2 * d2 * d2,
            d2 > 0,
    ;
    lemma_root_quotient_exists(n, d);
    let q = root_quotient(n, d);
    // q^2 * d2^3 <= c^2 * r^2 <= c^2 * d2, so q * d2 <= c
    assert(q <= c) by (nonlinear_arith)
        requires
            q >= 0,
            q * q * d <= n,
            n == (c * r) * (c * r),
            d == d2 * d2 * d2,
            r * r <= d2,
            d2 > 0,
            c >= 0,
    {
        assert(n <= c * c * d2);
        assert((q * d2) * (q * d2) * d2 <= c * c * d2);
        assert((q * d2) * (q * d2) <= c * c);
        if q * d2 > c {
            assert((q * d2) * (q * d2) > c * c);
        }
        assert(q <= q * d2);
    }
}

/// Newton's third law: the force of body 1 on body 2 is exactly the
/// negation of the force of body 2 on body 1, for any masses and positions.
pub proof fn lemma_newton_third_law(g: int, m1: int, m2: int, p1: TomlVector, p2: TomlVector)
    ensures
        force_spec(g, m2, m1, p2, p1).0 == -force_spec(g, m1, m2, p1, p2).0,
        force_spec(g, m2, m1, p2, p1).1 == -force_spec(g, m1, m2, p1, p2).1,
{
    let rx = p2.x - p1.x;
    let ry = p2.y - p1.y;
    let d2 = squared_distance(p1, p2);
    assert(squared_distance(p2, p1) == d2) by (nonlinear_arith)
        requires
            d2 == rx * rx + ry * ry,
            squared_distance(p2, p1) == (-rx) * (-rx) + (-ry) * (-ry),
    ;
    if d2 != 0 {
        assert(d2 > 0 && d2 * d2 * d2 > 0) by (nonlinear_arith)
            requires
                d2 == rx * rx + ry * ry,
                d2 != 0,
        ;
        lemma_root_quotient_zero(d2 * d2 * d2);
        assert(g * m2 * m1 * FORCE_ONE * (-rx) == -(g * m1 * m2 * FORCE_ONE * rx)) by (nonlinear_arith);
        assert(g * m2 * m1 * FORCE_ONE * (-ry) == -(g * m1 * m2 * FORCE_ONE * ry)) by (nonlinear_arith);
        negate_component(g * m1 * m2 * FORCE_ONE * rx, g * m2 * m1 * FORCE_ONE * (-rx), d2);
        negate_component(g * m1 * m2 * FORCE_ONE * ry, g * m2 * m1 * FORCE_ONE * (-ry), d2);
    }
}

proof fn negate_component(u: int, v: int, d2: int)
    requires
        v == -u,
        root_quotient(0, d2 * d2 * d2) == 0,
    ensures
        inverse_cube(v, d2) == -inverse_cube(u, d2),
{
    assert(v * v == u * u) by (nonlinear_arith)
        requires
            v == -u,
    ;
}

/// Coincident bodies exert no force: the result is the zero vector.
pub proof fn lemma_coincident_no_force(g: int, m1: int, m2: int, p: TomlVector)
    ensures
        force_spec(g, m1, m2, p, p) == (0int, 0int),
{
}

/// A body of mass zero neither exerts nor feels any force.
pub proof fn lemma_massless_no_force(g: int, m1: int, m2: int, p1: TomlVector, p2: TomlVector)
    requires
        m1 == 0 || m2 == 0,
    ensures
        force_spec(g, m1, m2, p1, p2) == (0int, 0int),
{
    let rx = p2.x - p1.x;
    let ry = p2.y - p1.y;
    let d2 = squared_distance(p1, p2);
    if d2 != 0 {
        assert(d2 > 0 && d2 * d2 * d2 > 0) by (nonlinear_arith)
            requires
                d2 == rx * rx + ry * ry,
                d2 != 0,
        ;
        lemma_root_quotient_zero(d2 * d2 * d2);
        assert(g * m1 * m2 * FORCE_ONE * rx == 0 && g * m1 * m2 * FORCE_ONE * ry == 0) by (nonlinear_arith)
            requires
                m1 == 0 || m2 == 0,
        ;
    }
}

proof fn lemma_root_quotient_at_least(n: int, d: int, q: int, x: int)
    requires
        d > 0,
        is_root_quotient(n, d, q),
        x >= 0,
        x * x * d <= n,
    ensures
        x <= q,
{
    if x > q {
        lemma_square_times_monotone(q + 1, x, d);
    }
}

proof fn lemma_root_quotient_below(n: int, d: int, q: int, x: int)
    requires
        d > 0,
        is_root_quotient(n, d, q),
        x >= 0,
        n < x * x * d,
    ensures
        q < x,
{
    if q >= x {
        lemma_square_times_monotone(x, q, d);
    }
}

/// Doubling one mass doubles the size of each force component, up to the
/// one unit that truncation may add.
pub proof fn lemma_double_mass(g: int, m1: int, m2: int, p1: TomlVector, p2: TomlVector)
    ensures
        2 * abs(force_spec(g, m1, m2, p1, p2).0) <= abs(force_spec(g, 2 * m1, m2, p1, p2).0),
        abs(force_spec(g, 2 * m1, m2, p1, p2).0) <= 2 * abs(force_spec(g, m1, m2, p1, p2).0) + 1,
        2 * abs(force_spec(g, m1, m2, p1, p2).1) <= abs(force_spec(g, 2 * m1, m2, p1, p2).1),
        abs(force_spec(g, 2 * m1, m2, p1, p2).1) <= 2 * abs(force_spec(g, m1, m2, p1, p2).1) + 1,
{
    let rx = p2.x - p1.x;
    let ry = p2.y - p1.y;
    let d2 = squared_distance(p1, p2);
    if d2 != 0 {
        assert(d2 > 0 && d2 * d2 * d2 > 0) by (nonlinear_arith)
            requires
                d2 == rx * rx + ry * ry,
                d2 != 0,
        ;
        assert(g * (2 * m1) * m2 * FORCE_ONE * rx == 2 * (g * m1 * m2 * FORCE_ONE * rx)) by (nonlinear_arith);
        assert(g * (2 * m1) * m2 * FORCE_ONE * ry == 2 * (g * m1 * m2 * FORCE_ONE * ry)) by (nonlinear_arith);
        double_numerator(g * m1 * m2 * FORCE_ONE * rx, d2);
        double_numerator(g * m1 * m2 * FORCE_ONE * ry, d2);
    }
}

proof fn double_numerator(u: int, d2: int)
    requires
        d2 * d2 * d2 > 0,
    ensures
        2 * abs(inverse_cube(u, d2)) <= abs(inverse_cube(2 * u, d2)),
        abs(inverse_cube(2 * u, d2)) <= 2 * abs(inverse_cube(u, d2)) + 1,
{
    let d = d2 * d2 * d2;
    let n = u * u;
    let n2 = (2 * u) * (2 * u);
    assert(n >= 0 && n2 == 4 * n) by (nonlinear_arith)
        requires
            n == u * u,
            n2 == (2 * u) * (2 * u),
    ;
    lemma_root_quotient_exists(n, d);
    lemma_root_quotient_exists(n2, d);
    let q = root_quotient(n, d);
    let q2 = root_quotient(n2, d);
    assert((2 * q) * (2 * q) * d == 4 * (q * q * d)) by (nonlinear_arith);
    assert((2 * q + 2) * (2 * q + 2) * d == 4 * ((q + 1) * (q + 1) * d)) by (nonlinear_arith);
    lemma_root_quotient_at_least(n2, d, q2, 2 * q);
    lemma_root_quotient_below(n2, d, q2, 2 * q + 2);
}

/// Doubling the distance between two bodies, in the same direction, quarters
/// each force component: the new component is the old one divided by four,
/// truncated toward zero.
pub proof fn lemma_double_distance(
    g: int,
    m1: int,
    m2: int,
    p1: TomlVector,
    p2: TomlVector,
    q1: TomlVector,
    q2: TomlVector,
)
    requires
        q2.x - q1.x == 2 * (p2.x - p1.x),
        q2.y - q1.y == 2 * (p2.y - p1.y),
    ensures
        force_spec(g, m1, m2, q1, q2).0 == trunc_div(force_spec(g, m1, m2, p1, p2).0, 4),
        force_spec(g, m1, m2, q1, q2).1 == trunc_div(force_spec(g, m1, m2, p1, p2).1, 4),
{
    let rx = p2.x - p1.x;
    let ry = p2.y - p1.y;
    let d2 = squared_distance(p1, p2);
    assert(squared_distance(q1, q2) == 4 * d2) by (nonlinear_arith)
        requires
            d2 == rx * rx + ry * ry,
            squared_distance(q1, q2) == (2 * rx) * (2 * rx) + (2 * ry) * (2 * ry),
    ;
    if d2 == 0 {
        assert(0int / 4 == 0);
    } else {
        assert(d2 > 0 && d2 * d2 * d2 > 0) by (nonlinear_arith)
            requires
                d2 == rx * rx + ry * ry,
                d2 != 0,
        ;
        assert(g * m1 * m2 * FORCE_ONE * (2 * rx) == 2 * (g * m1 * m2 * FORCE_ONE * rx)) by (nonlinear_arith);
        assert(g * m1 * m2 * FORCE_ONE * (2 * ry) == 2 * (g * m1 * m2 * FORCE_ONE * ry)) by (nonlinear_arith);
        double_distance_component(g * m1 * m2 * FORCE_ONE * rx, d2);
        double_distance_component(g * m1 * m2 * FORCE_ONE * ry, d2);
    }
}

proof fn double_distance_component(u: int, d2: int)
    requires
        d2 > 0,
        d2 * d2 * d2 > 0,
    ensures
        inverse_cube(2 * u, 4 * d2) == trunc_div(inverse_cube(u, d2), 4),
{
    let d = d2 * d2 * d2;
    let n = u * u;
    let d4 = (4 * d2) * (4 * d2) * (4 * d2);
    let n2 = (2 * u) * (2 * u);
    assert(n >= 0 && n2 == 4 * n && d4 == 64 * d) by (nonlinear_arith)
        requires
            n == u * u,
            n2 == (2 * u) * (2 * u),
            d == d2 * d2 * d2,
            d4 == (4 * d2) * (4 * d2) * (4 * d2),
    ;
    lemma_root_quotient_exists(n, d);
    let q = root_quotient(n, d);
    let t = q / 4;
    assert(0 <= t && 4 * t <= q && q + 1 <= 4 * t + 4) by (nonlinear_arith)
        requires
            t == q / 4,
            q >= 0,
    {
        lemma_fundamental_div_mod(q, 4);
        lemma_mod_bound(q, 4);
    }
    lemma_square_times_monotone(4 * t, q, d);
    lemma_square_times_monotone(q + 1, 4 * t + 4, d);
    assert(t * t * d4 == 4 * ((4 * t) * (4 * t) * d)) by (nonlinear_arith)
        requires
            d4 == 64 * d,
    ;
    assert((t + 1) * (t + 1) * d4 == 4 * ((4 * t + 4) * (4 * t + 4) * d)) by (nonlinear_arith)
        requires
            d4 == 64 * d,
    ;
    assert(is_root_quotient(n2, d4, t));
    lemma_root_quotient_is(n2, d4, t);
    assert(u >= 0 <==> 2 * u >= 0);
    if q == 0 {
        assert(0int / 4 == 0);
    }
}

} // verus!
