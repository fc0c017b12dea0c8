//! The Miller loop over several pairs of points is the product of the loops
//! over each of them.

use crate::math::automorphism::lemma_reduced12;
use crate::math::curve::{
    affine1, affine_lines, ate_digits, ell, ell_all, final_exp, is_signed_one, lemma_miller_empty,
    lemma_sqr12_one, line_count, miller, miller_walk, Aff2, Jac1,
};
use crate::math::exponent::lemma_final_exp_product;
use crate::math::field::lemma_constants;
use crate::math::inverse::lemma_unit12;
use crate::math::ring::{lemma_mul12_associates, lemma_mul12_commutes, lemma_sqr12_product};
use crate::math::tower::{mul12, one12, reduced12, scale2, sparse034, sqr12, Ext12, Ext6};
use vstd::prelude::*;

verus! {

/// The Miller loop over one pair.
pub open spec fn miller_single(lines: Seq<Ext6>, p: Jac1) -> Ext12 {
    miller(seq![lines], seq![p], 1)
}

/// A line multiplies either factor.
proof fn lemma_ell_product(f: Ext12, g: Ext12, line: Ext6, p: Jac1)
    ensures
        ell(mul12(f, g), line, p) == mul12(f, ell(g, line, p)),
        ell(mul12(f, g), line, p) == mul12(ell(f, line, p), g),
{
    reveal(ell);
    let s = sparse034(scale2(line.c0, p.y), scale2(line.c1, p.x), line.c2);
    lemma_mul12_associates(f, g, s);
    lemma_mul12_commutes(g, s);
    lemma_mul12_associates(f, s, g);
}

proof fn lemma_ell_all_factor(
    f: Ext12,
    g: Ext12,
    lines: Seq<Seq<Ext6>>,
    ps: Seq<Jac1>,
    i: int,
    n: nat,
)
    ensures
        ell_all(mul12(f, g), lines, ps, i, n) == mul12(ell_all(f, lines, ps, i, n), g),
    decreases n,
{
    if n > 0 {
        let m = (n - 1) as nat;
        lemma_ell_all_factor(f, g, lines, ps, i, m);
        lemma_ell_product(ell_all(f, lines, ps, i, m), g, lines[n - 1][i], ps[n - 1]);
    }
}

/// The lines of one pair more multiply a factor of their own.
proof fn lemma_ell_all_product(
    f: Ext12,
    g: Ext12,
    lines: Seq<Seq<Ext6>>,
    ps: Seq<Jac1>,
    i: int,
    n: nat,
)
    ensures
        ell_all(mul12(f, g), lines, ps, i, n + 1) == mul12(
            ell_all(f, lines, ps, i, n),
            ell_all(g, seq![lines[n as int]], seq![ps[n as int]], i, 1),
        ),
{
    let l = lines[n as int];
    let p = ps[n as int];
    lemma_ell_all_factor(f, g, lines, ps, i, n);
    lemma_ell_product(ell_all(f, lines, ps, i, n), g, l[i], p);
    assert(ell_all(g, seq![l], seq![p], i, 0) == g);
    assert(ell_all(g, seq![l], seq![p], i, 1) == ell(g, l[i], p));
}

proof fn lemma_miller_walk_product(lines: Seq<Seq<Ext6>>, ps: Seq<Jac1>, n: nat, k: int)
    ensures
        miller_walk(lines, ps, n + 1, k) == mul12(
            miller_walk(lines, ps, n, k),
            miller_walk(seq![lines[n as int]], seq![ps[n as int]], 1, k),
        ),
    decreases 64 - k,
{
    let l = seq![lines[n as int]];
    let p = seq![ps[n as int]];
    if k >= 64 {
        lemma_sqr12_one();
    } else {
        lemma_miller_walk_product(lines, ps, n, k + 1);
        let a = miller_walk(lines, ps, n, k + 1);
        let b = miller_walk(l, p, 1, k + 1);
        lemma_sqr12_product(a, b);
        let (sa, sb) = if k == 63 {
            (a, b)
        } else {
            (sqr12(a), sqr12(b))
        };
        let i = line_count(k + 1) as int;
        lemma_ell_all_product(sa, sb, lines, ps, i, n);
        if is_signed_one(ate_digits()[k]) {
            lemma_ell_all_product(
                ell_all(sa, lines, ps, i, n),
                ell_all(sb, l, p, i, 1),
                lines,
                ps,
                i + 1,
                n,
            );
        }
    }
}

/// The Miller loop over one pair more is the product of the loop over the
/// others and the loop over that pair.
pub proof fn lemma_miller_product(lines: Seq<Seq<Ext6>>, ps: Seq<Jac1>, n: nat)
    ensures
        miller(lines, ps, n + 1) == mul12(
            miller(lines, ps, n),
            miller_single(lines[n as int], ps[n as int]),
        ),
{
    reveal(miller);
    let l = seq![lines[n as int]];
    let p = seq![ps[n as int]];
    let i = line_count(0) as int;
    let a = miller_walk(lines, ps, n, 0);
    let b = miller_walk(l, p, 1, 0);
    lemma_miller_walk_product(lines, ps, n, 0);
    lemma_ell_all_product(a, b, lines, ps, i, n);
    lemma_ell_all_product(
        ell_all(a, lines, ps, i, n),
        ell_all(b, l, p, i, 1),
        lines,
        ps,
        i + 1,
        n,
    );
}

/// The product of the Miller loops over each of the first `n` pairs.
pub open spec fn miller_singles(lines: Seq<Seq<Ext6>>, ps: Seq<Jac1>, n: nat) -> Ext12
    decreases n,
{
    if n == 0 {
        one12()
    } else {
        mul12(
            miller_singles(lines, ps, (n - 1) as nat),
            miller_single(lines[n - 1], ps[n - 1]),
        )
    }
}

/// The Miller loop over several pairs is the product of the loops over each of
/// them.
pub proof fn lemma_miller_singles(lines: Seq<Seq<Ext6>>, ps: Seq<Jac1>, n: nat)
    ensures
        miller(lines, ps, n) == miller_singles(lines, ps, n),
    decreases n,
{
    if n == 0 {
        lemma_miller_empty(lines, ps);
    } else {
        lemma_miller_singles(lines, ps, (n - 1) as nat);
        lemma_miller_product(lines, ps, (n - 1) as nat);
    }
}

/// The pairing by the lines of one point and the other point.
pub open spec fn pairing(lines: Seq<Ext6>, p: Jac1) -> Ext12 {
    final_exp(miller_single(lines, p))
}

/// The product of the pairings of the first `n` pairs, where there is one.
pub open spec fn pairings(lines: Seq<Seq<Ext6>>, ps: Seq<Jac1>, n: nat) -> Ext12
    decreases n,
{
    if n <= 1 {
        pairing(lines[0], ps[0])
    } else {
        mul12(pairings(lines, ps, (n - 1) as nat), pairing(lines[n - 1], ps[n - 1]))
    }
}

/// The Miller loop over a pair is reduced.
pub proof fn lemma_miller_single_reduced(lines: Seq<Ext6>, p: Jac1)
    ensures
        reduced12(miller_single(lines, p)),
{
    let (l, q) = (seq![lines], seq![p]);
    lemma_miller_product(l, q, 0);
    lemma_reduced12(miller(l, q, 0), miller_single(lines, p));
}

/// The final exponentiation of the Miller loop over several pairs is the
/// product of the pairings.
pub proof fn lemma_pairings(lines: Seq<Seq<Ext6>>, ps: Seq<Jac1>, n: nat)
    requires
        n >= 1,
    ensures
        final_exp(miller(lines, ps, n)) == pairings(lines, ps, n),
        reduced12(miller(lines, ps, n)),
    decreases n,
{
    let m = (n - 1) as nat;
    let last = miller_single(lines[n - 1], ps[n - 1]);
    lemma_miller_product(lines, ps, m);
    lemma_miller_single_reduced(lines[n - 1], ps[n - 1]);
    lemma_reduced12(miller(lines, ps, m), last);
    if m == 0 {
        lemma_miller_empty(lines, ps);
        lemma_unit12(last);
    } else {
        lemma_pairings(lines, ps, m);
        lemma_final_exp_product(miller(lines, ps, m), last);
    }
}

/// The pairs of the first `n` lists of lines and points.
pub open spec fn pairs(lines: Seq<Seq<Ext6>>, ps: Seq<Jac1>, n: nat) -> Seq<(Seq<Ext6>, Jac1)> {
    Seq::new(n, |i: int| (lines[i], ps[i]))
}

/// The product of the Miller loops over each of the pairs.
spec fn product_of(s: Seq<(Seq<Ext6>, Jac1)>) -> Ext12
    decreases s.len(),
{
    if s.len() == 0 {
        one12()
    } else {
        mul12(product_of(s.drop_last()), miller_single(s.last().0, s.last().1))
    }
}

proof fn lemma_miller_pairs(lines: Seq<Seq<Ext6>>, ps: Seq<Jac1>, n: nat)
    ensures
        miller(lines, ps, n) == product_of(pairs(lines, ps, n)),
    decreases n,
{
    if n == 0 {
        lemma_miller_empty(lines, ps);
    } else {
        let m = (n - 1) as nat;
        lemma_miller_pairs(lines, ps, m);
        lemma_miller_product(lines, ps, m);
        assert(pairs(lines, ps, n).drop_last() =~= pairs(lines, ps, m));
    }
}

/// Any pair can be taken out of the product.
proof fn lemma_product_of_removed(s: Seq<(Seq<Ext6>, Jac1)>, j: int)
    requires
        0 <= j < s.len(),
    ensures
        product_of(s) == mul12(product_of(s.remove(j)), miller_single(s[j].0, s[j].1)),
    decreases s.len(),
{
    let t = s.drop_last();
    if j == s.len() - 1 {
        assert(s.remove(j) =~= t);
    } else {
        let (a, b) = (miller_single(s[j].0, s[j].1), miller_single(s.last().0, s.last().1));
        let rest = product_of(t.remove(j));
        lemma_product_of_removed(t, j);
        assert(s.remove(j).drop_last() =~= t.remove(j));
        assert(s.remove(j).last() == s.last());
        lemma_mul12_associates(rest, a, b);
        lemma_mul12_commutes(a, b);
        lemma_mul12_associates(rest, b, a);
    }
}

proof fn lemma_product_of_permuted(s: Seq<(Seq<Ext6>, Jac1)>, t: Seq<(Seq<Ext6>, Jac1)>)
    requires
        s.to_multiset() == t.to_multiset(),
    ensures
        product_of(s) == product_of(t),
    decreases s.len(),
{
    broadcast use vstd::seq_lib::group_to_multiset_ensures;

    assert(s.len() == s.to_multiset().len());
    assert(t.len() == t.to_multiset().len());
    if s.len() > 0 {
        let e = s.last();
        assert(s.contains(e));
        assert(t.to_multiset().count(e) > 0);
        assert(t.contains(e));
        let j = choose|j: int| 0 <= j < t.len() && t[j] == e;
        assert(s.remove(s.len() - 1) =~= s.drop_last());
        lemma_product_of_removed(t, j);
        lemma_product_of_permuted(s.drop_last(), t.remove(j));
    }
}

/// The order of the pairs does not matter to the Miller loop over them.
pub proof fn lemma_miller_permuted(
    lines: Seq<Seq<Ext6>>,
    ps: Seq<Jac1>,
    other_lines: Seq<Seq<Ext6>>,
    other_ps: Seq<Jac1>,
    n: nat,
)
    requires
        pairs(lines, ps, n).to_multiset() == pairs(other_lines, other_ps, n).to_multiset(),
    ensures
        miller(lines, ps, n) == miller(other_lines, other_ps, n),
{
    lemma_miller_pairs(lines, ps, n);
    lemma_miller_pairs(other_lines, other_ps, n);
    lemma_product_of_permuted(pairs(lines, ps, n), pairs(other_lines, other_ps, n));
}

/// The Miller loop over a point, which need not be affine, and an affine point
/// of the twist: one where either is at infinity.
pub open spec fn miller_of(p: Jac1, q: Aff2) -> Ext12 {
    if p.z == 0 || q.infinity {
        one12()
    } else {
        miller_single(affine_lines(q), affine1(p))
    }
}

pub proof fn lemma_miller_of_reduced(p: Jac1, q: Aff2)
    ensures
        reduced12(miller_of(p, q)),
{
    lemma_constants();
    lemma_miller_single_reduced(affine_lines(q), affine1(p));
}

} // verus!
