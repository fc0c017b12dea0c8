//! What the steps of the pairing give, part by part.

use crate::math::curve::{
    ate_digits, coeff_b2, ell, ell_all, line_add, line_count, line_double, line_walk, miller,
    miller_walk, pairing_lines, reduced_jac2, twist_x, twist_y, Jac1, Jac2,
};
use crate::math::field::{
    fmul, lemma_constants, lemma_fadd_zero, lemma_fmul_reduced, lemma_fmul_zero, modulus,
};
use crate::math::lines::lemma_mixed_term;
use crate::math::product::miller_single;
use crate::math::ring::{
    lemma_mul2_neg, lemma_stands_add2, lemma_stands_neg2, lemma_stands_same2, lemma_stands_sub2,
};
use crate::math::roots::lemma_half_twice;
use crate::math::tower::{
    add2, conj12, cyclotomic_sqr12, dbl2, ext2, half2, mul12, mul2, neg2, neg6, one12, reduced2,
    scale2, sqr2, sub2, three_minus_two, three_plus_two, triple2, xi, zero2, Ext12, Ext2, Ext6,
};
use vstd::prelude::*;

verus! {

/// A line's value at a point multiplies what there is: it has the line's first
/// coefficient times the ordinate, the second times the abscissa and the third as
/// they are at their places, and zeros elsewhere.
pub proof fn lemma_line_value(f: Ext12, line: Ext6, p: Jac1, e: Ext12)
    requires
        e.c0.c0 == ext2(fmul(line.c0.c0, p.y), fmul(line.c0.c1, p.y)),
        e.c0.c1 == zero2(),
        e.c0.c2 == zero2(),
        e.c1.c0 == ext2(fmul(line.c1.c0, p.x), fmul(line.c1.c1, p.x)),
        e.c1.c1 == line.c2,
        e.c1.c2 == zero2(),
    ensures
        ell(f, line, p) == mul12(f, e),
{
    reveal(ell);
    reveal(scale2);
}

/// What is taken away and added again changes nothing.
proof fn lemma_back(a: Ext2, b: Ext2)
    requires
        reduced2(a),
    ensures
        add2(sub2(a, b), b) == a,
        add2(neg2(sub2(a, b)), a) == add2(b, zero2()),
{
    let (a0, a1, b0, b1) = (a.c0 as int, a.c1 as int, b.c0 as int, b.c1 as int);
    let d = sub2(a, b);
    lemma_stands_sub2(a, a0, a1, b, b0, b1);
    lemma_stands_add2(d, a0 - b0, a1 - b1, b, b0, b1);
    lemma_stands_same2(add2(d, b), a, a0, a1);
    lemma_stands_neg2(d, a0 - b0, a1 - b1);
    lemma_stands_add2(neg2(d), b0 - a0, b1 - a1, a, a0, a1);
    lemma_stands_add2(b, b0, b1, zero2(), 0, 0);
    lemma_stands_same2(add2(neg2(d), a), add2(b, zero2()), b0, b1);
}

/// The line of an addition has the differences of the coordinates as coefficients,
/// and the new running point is made of them.
pub proof fn lemma_line_add_parts(r: Jac2, x: Ext2, y: Ext2)
    requires
        reduced_jac2(r),
    ensures
        ({
            let (s, l) = line_add(r, x, y);
            let cube = mul2(l.c0, sqr2(l.c0));
            let h = sub2(
                add2(cube, mul2(r.z, sqr2(l.c1))),
                dbl2(mul2(r.x, sqr2(l.c0))),
            );
            &&& add2(l.c0, mul2(x, r.z)) == r.x
            &&& add2(l.c1, r.y) == add2(mul2(y, r.z), zero2())
            &&& s.z == mul2(r.z, cube)
            &&& s.x == mul2(l.c0, h)
            &&& s.y == sub2(
                mul2(neg2(l.c1), sub2(mul2(r.x, sqr2(l.c0)), h)),
                mul2(cube, r.y),
            )
        }),
{
    broadcast use crate::math::tower::group_reduced2;

    reveal(line_add);
    let theta = sub2(r.y, mul2(y, r.z));
    lemma_back(r.x, mul2(x, r.z));
    lemma_back(r.y, mul2(y, r.z));
    lemma_mul2_neg(theta, neg2(theta));
    lemma_mul2_neg(theta, theta);
    lemma_negated_twice(theta);
    lemma_negated_twice(sqr2(theta));
}

proof fn lemma_negated_twice(a: Ext2)
    requires
        reduced2(a),
    ensures
        neg2(neg2(a)) == a,
{
    let (a0, a1) = (a.c0 as int, a.c1 as int);
    lemma_stands_neg2(a, a0, a1);
    lemma_stands_neg2(neg2(a), 0 - a0, 0 - a1);
    lemma_stands_same2(neg2(neg2(a)), a, a0, a1);
}

/// The tangent of a doubling has `-2 y z`, `3 x^2` and `3 b z^2 - y^2` as
/// coefficients, and the new running point is made of the same terms.
pub proof fn lemma_line_double_parts(r: Jac2, e: Ext2)
    requires
        e == mul2(triple2(sqr2(r.z)), coeff_b2()),
    ensures
        ({
            let (s, l) = line_double(r);
            &&& l.c0 == neg2(dbl2(mul2(r.y, r.z)))
            &&& l.c1 == triple2(sqr2(r.x))
            &&& l.c2 == sub2(e, sqr2(r.y))
            &&& s.x == mul2(half2(mul2(r.x, r.y)), sub2(sqr2(r.y), triple2(e)))
            &&& s.y == sub2(sqr2(half2(add2(sqr2(r.y), triple2(e)))), triple2(sqr2(e)))
            &&& s.z == mul2(sqr2(r.y), dbl2(mul2(r.y, r.z)))
        }),
{
    reveal(line_double);
    lemma_mixed_term(r.y, r.z);
}

/// Twice the half of an element is the element.
pub proof fn lemma_half(a: Ext2)
    requires
        reduced2(a),
    ensures
        dbl2(half2(a)) == a,
{
    reveal(scale2);
    reveal(add2);
    lemma_half_twice(a.c0);
    lemma_half_twice(a.c1);
}

/// The first line of the pairing is the tangent at the point that the walk starts
/// at.
pub proof fn lemma_first_line(r: Jac2, x: Ext2, y: Ext2)
    ensures
        pairing_lines(r, x, y).len() >= 3,
        pairing_lines(r, x, y)[0] == line_double(r).1,
{
    reveal(pairing_lines);
    lemma_walk_start(r, x, y, 0);
}

proof fn lemma_walk_start(r: Jac2, x: Ext2, y: Ext2, k: int)
    requires
        k <= 63,
    ensures
        line_walk(r, x, y, k).1.len() >= 1,
        line_walk(r, x, y, k).1[0] == line_double(r).1,
    decreases 64 - k,
{
    if k < 63 {
        lemma_walk_start(r, x, y, k + 1);
    } else {
        assert(line_walk(r, x, y, 64) == (r, Seq::<Ext6>::empty()));
    }
}

/// The walk goes one digit at a time, from the last but one down: it doubles, and
/// then adds the point for a digit of one, its negative for one of minus one, and
/// nothing for zero.
pub proof fn lemma_walk_step(r: Jac2, x: Ext2, y: Ext2, k: int)
    requires
        0 <= k < 64,
    ensures
        ({
            let (before, lines) = line_walk(r, x, y, k + 1);
            let (after, more) = line_walk(r, x, y, k);
            let (twice, tangent) = line_double(before);
            let d = ate_digits()[k];
            &&& line_walk(r, x, y, 64).0 == r
            &&& more.len() >= lines.len() + 1
            &&& more.take(lines.len() as int) == lines
            &&& more[lines.len() as int] == tangent
            &&& d == 0 ==> after == twice && more.len() == lines.len() + 1
            &&& d == 1 ==> (after, more.last()) == line_add(twice, x, y) && more.len()
                == lines.len() + 2
            &&& d == -1 ==> (after, more.last()) == line_add(twice, x, neg2(y)) && more.len()
                == lines.len() + 2
        }),
{
    let lines = line_walk(r, x, y, k + 1).1;
    let more = line_walk(r, x, y, k).1;
    assert(more.take(lines.len() as int) =~= lines);
}

/// Three times a term and twice another, taken apart again.
proof fn lemma_three(t: Ext2, z: Ext2)
    ensures
        add2(three_minus_two(t, z), dbl2(z)) == triple2(t),
        sub2(three_plus_two(t, z), dbl2(z)) == triple2(t),
{
    let (t0, t1, z0, z1) = (t.c0 as int, t.c1 as int, z.c0 as int, z.c1 as int);
    let (d, s) = (sub2(t, z), add2(t, z));
    lemma_stands_sub2(t, t0, t1, z, z0, z1);
    lemma_stands_add2(t, t0, t1, z, z0, z1);
    lemma_stands_add2(d, t0 - z0, t1 - z1, d, t0 - z0, t1 - z1);
    lemma_stands_add2(s, t0 + z0, t1 + z1, s, t0 + z0, t1 + z1);
    let (d0, d1) = (t0 - z0 + (t0 - z0), t1 - z1 + (t1 - z1));
    let (s0, s1) = (t0 + z0 + (t0 + z0), t1 + z1 + (t1 + z1));
    lemma_stands_add2(dbl2(d), d0, d1, t, t0, t1);
    lemma_stands_add2(dbl2(s), s0, s1, t, t0, t1);
    lemma_stands_add2(z, z0, z1, z, z0, z1);
    lemma_stands_add2(three_minus_two(t, z), d0 + t0, d1 + t1, dbl2(z), z0 + z0, z1 + z1);
    lemma_stands_sub2(three_plus_two(t, z), s0 + t0, s1 + t1, dbl2(z), z0 + z0, z1 + z1);
    lemma_stands_add2(t, t0, t1, t, t0, t1);
    lemma_stands_add2(dbl2(t), t0 + t0, t1 + t1, t, t0, t1);
    let (three0, three1) = (t0 + t0 + t0, t1 + t1 + t1);
    lemma_stands_same2(add2(three_minus_two(t, z), dbl2(z)), triple2(t), three0, three1);
    lemma_stands_same2(sub2(three_plus_two(t, z), dbl2(z)), triple2(t), three0, three1);
}

/// The squaring of the cyclotomic subgroup, on any element: each part is three times
/// a part of the square of one of three elements `a + b y` with `y^2 = xi`, less or
/// more twice what it was.
pub proof fn lemma_cyclotomic_parts(a: Ext12)
    ensures
        ({
            let r = cyclotomic_sqr12(a);
            &&& add2(r.c0.c0, dbl2(a.c0.c0)) == triple2(
                add2(sqr2(a.c0.c0), mul2(sqr2(a.c1.c1), xi())),
            )
            &&& add2(r.c0.c1, dbl2(a.c0.c1)) == triple2(
                add2(sqr2(a.c1.c0), mul2(sqr2(a.c0.c2), xi())),
            )
            &&& add2(r.c0.c2, dbl2(a.c0.c2)) == triple2(
                add2(sqr2(a.c0.c1), mul2(sqr2(a.c1.c2), xi())),
            )
            &&& sub2(r.c1.c0, dbl2(a.c1.c0)) == triple2(
                mul2(dbl2(mul2(a.c0.c1, a.c1.c2)), xi()),
            )
            &&& sub2(r.c1.c1, dbl2(a.c1.c1)) == triple2(dbl2(mul2(a.c0.c0, a.c1.c1)))
            &&& sub2(r.c1.c2, dbl2(a.c1.c2)) == triple2(dbl2(mul2(a.c1.c0, a.c0.c2)))
        }),
{
    reveal(cyclotomic_sqr12);
    lemma_three(add2(sqr2(a.c0.c0), mul2(sqr2(a.c1.c1), xi())), a.c0.c0);
    lemma_three(add2(sqr2(a.c1.c0), mul2(sqr2(a.c0.c2), xi())), a.c0.c1);
    lemma_three(add2(sqr2(a.c0.c1), mul2(sqr2(a.c1.c2), xi())), a.c0.c2);
    lemma_three(mul2(dbl2(mul2(a.c0.c1, a.c1.c2)), xi()), a.c1.c0);
    lemma_three(dbl2(mul2(a.c0.c0, a.c1.c1)), a.c1.c1);
    lemma_three(dbl2(mul2(a.c1.c0, a.c0.c2)), a.c1.c2);
}

/// An element and its negative cancel, conjugation negates the second half, and a
/// number multiplies both parts.
pub proof fn lemma_negatives(a: Ext2, k: nat, c: Ext12)
    requires
        k < modulus(),
    ensures
        add2(neg2(a), a) == zero2(),
        scale2(a, k) == mul2(a, ext2(k, 0)),
        conj12(c).c0 == c.c0,
        conj12(c).c1.c0 == neg2(c.c1.c0),
        conj12(c).c1.c1 == neg2(c.c1.c1),
        conj12(c).c1.c2 == neg2(c.c1.c2),
{
    let (a0, a1) = (a.c0 as int, a.c1 as int);
    lemma_constants();
    lemma_stands_neg2(a, a0, a1);
    lemma_stands_add2(neg2(a), 0 - a0, 0 - a1, a, a0, a1);
    lemma_stands_same2(add2(neg2(a), a), zero2(), 0, 0);
    reveal(conj12);
    reveal(neg6);
    reveal(scale2);
    reveal(mul2);
    lemma_fmul_zero(a.c0);
    lemma_fmul_zero(a.c1);
    lemma_fmul_reduced(a.c0, k);
    lemma_fmul_reduced(a.c1, k);
    lemma_fadd_zero(fmul(a.c0, k));
    lemma_fadd_zero(fmul(a.c1, k));
}

/// The last two lines of the pairing are those of adding, to where the walk ends, the
/// Frobenius image of the point and the negative of its twofold image.
pub proof fn lemma_last_lines(r: Jac2, x: Ext2, y: Ext2)
    ensures
        ({
            let (end, lines) = line_walk(r, x, y, 0);
            let n = lines.len() as int;
            let (x1, y1) = (twist_x(x), twist_y(y));
            let (next, first) = line_add(end, x1, y1);
            &&& pairing_lines(r, x, y).len() == n + 2
            &&& pairing_lines(r, x, y).take(n) == lines
            &&& pairing_lines(r, x, y)[n] == first
            &&& pairing_lines(r, x, y)[n + 1] == line_add(next, twist_x(x1), neg2(twist_y(y1))).1
        }),
{
    reveal(pairing_lines);
    let lines = line_walk(r, x, y, 0).1;
    assert(pairing_lines(r, x, y).take(lines.len() as int) =~= lines);
}

/// The Miller loop over one point goes one digit at a time, from the last but one
/// down: it starts at one, squares, and takes in the next line, and one more line
/// for a digit of one or minus one. At the end it takes in the last two lines.
pub proof fn lemma_miller_step(lines: Seq<Ext6>, p: Jac1, k: int)
    requires
        0 <= k < 64,
    ensures
        ({
            let (ls, ps) = (seq![lines], seq![p]);
            let f = miller_walk(ls, ps, 1, k + 1);
            let i = line_count(k + 1) as int;
            let g = ell(if k == 63 {
                one12()
            } else {
                mul12(f, f)
            }, lines[i], p);
            let d = ate_digits()[k];
            &&& line_count(64) == 0
            &&& d == 0 ==> miller_walk(ls, ps, 1, k) == g && line_count(k) == i + 1
            &&& d == 1 || d == -1 ==> miller_walk(ls, ps, 1, k) == ell(g, lines[i + 1], p)
                && line_count(k) == i + 2
        }),
        ({
            let n = line_count(0) as int;
            miller_single(lines, p) == ell(
                ell(miller_walk(seq![lines], seq![p], 1, 0), lines[n], p),
                lines[n + 1],
                p,
            )
        }),
{
    reveal(miller);
    reveal_with_fuel(ell_all, 2);
    if k == 63 {
        assert(miller_walk(seq![lines], seq![p], 1, 64) == one12());
    }
}

} // verus!
