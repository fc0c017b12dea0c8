//! What the verifier decides, in terms of the key's points and of single wires.

use crate::bits::{
    bits_value, digits, lemma_digit, lemma_digits_value, lemma_modulus_bits, lemma_radix,
};
use crate::circuit::{element, is_element, values, wire_value};
use crate::gadgets::bn254::fq::Fq;
use crate::gadgets::bn254::g1::{point_values, scalar_values};
use crate::gadgets::bn254::pairing::{
    affine1_all, affine_line_lists, coeff_values, frobenius_affine2, g1_values, g2_values,
    line_values, own_line_lists, own_lines, EllCoeff,
};
use crate::gadgets::bn254::wires::{Fq12, Fq2, Fq6, Fr, G1Projective, G2Projective};
use crate::gadgets::groth16::{
    all_shaped, compressed1_digits, compressed2_digits, decompressed1, decompressed2,
    lemma_decompress1, lemma_decompress2, lemma_public_len, lemma_public_point, normal1, normal2,
    pairing_of, pairing_product, public_count, public_digits, public_ids, public_numbers,
    public_point, root_flag1, root_flag2, CompressedG1Wires, CompressedG2Wires,
    Groth16VerifyCompressedInput, Groth16VerifyCompressedInputWires, Groth16VerifyInput,
    Groth16VerifyInputWires, VerifyingKey,
};
use crate::gadgets::input::{fq2_digits, fq_digits, g1_digits, g2_digits};
use crate::math::addition::{
    combination1, infinity1, lemma_into_group1, lemma_multiples, multiple1, reduced_aff1, sum1,
};
use crate::math::curve::{
    affine1, affine_lines, coeff_b2, decompress1, decompress2, jac1, jac2, line_double, to_affine1,
    to_affine2, twist_x, twist_y, Aff1, Aff2, Jac1, Jac2,
};
use crate::math::exponent::lemma_final_exp_one;
use crate::math::field::{
    decode, encode, fadd, fmul, fneg, fpow, fsub, lemma_constants, lemma_decode_reduced,
    lemma_encode_decode, modulus,
};
use crate::math::laws::lemma_first_line;
use crate::math::product::pairing;
use crate::math::roots::sqrt2;
use crate::math::tower::{add2, ext2, mul2, neg2, one12, one2, reduced2, sqr2, Ext2};
use crate::native::fq::FqValue;
use crate::native::points::{
    scalar_modulus, FrValue, G1AffineValue, G1ProjectiveValue, G2AffineValue, G2ProjectiveValue,
};
use crate::native::tower::from_coeffs;
use vstd::arithmetic::div_mod::lemma_mul_mod_noop_right;
use vstd::arithmetic::power2::pow2;
use vstd::prelude::*;

verus! {

/// The key's points as they are used: the coordinates that the key holds and a
/// third one, in the key's order.
pub proof fn lemma_key_points(vk: VerifyingKey, i: int)
    requires
        vk.valid(),
        0 <= i < vk.gamma_abc_g1@.len(),
    ensures
        vk.bases().len() == vk.gamma_abc_g1@.len(),
        vk.points().len() == vk.gamma_abc_g1@.len(),
        vk.gamma_abc_g1@[i].infinity ==> vk.bases()[i] == jac1(1, 1, 0) && vk.points()[i]
            == infinity1(),
        !vk.gamma_abc_g1@[i].infinity ==> vk.bases()[i] == jac1(
            vk.gamma_abc_g1@[i].x@,
            vk.gamma_abc_g1@[i].y@,
            1,
        ) && vk.points()[i] == (Aff1 {
            x: vk.gamma_abc_g1@[i].x@,
            y: vk.gamma_abc_g1@[i].y@,
            infinity: false,
        }),
{
    assert(vk.gamma_abc_g1@[i].valid());
    lemma_into_group1(vk.gamma_abc_g1@[i]@);
}

proof fn lemma_partial_sums(
    public: Seq<nat>,
    points: Seq<Aff1>,
    acc: Seq<Aff1>,
    n: nat,
)
    requires
        n < acc.len(),
        n < points.len(),
        acc[0] == infinity1(),
        forall|i: int|
            0 <= i < n ==> #[trigger] acc[i + 1] == sum1(
                acc[i],
                multiple1(points[i + 1], public[i]),
            ),
    ensures
        acc[n as int] == combination1(public, points.skip(1), n),
    decreases n,
{
    if n > 0 {
        let m = n - 1;
        lemma_partial_sums(public, points, acc, m as nat);
        assert(acc[m + 1] == sum1(acc[m], multiple1(points[m + 1], public[m])));
        assert(points.skip(1)[m] == points[m + 1]);
    }
}

/// The public point is `gamma_abc[0] + sum_i(public[i] * gamma_abc[i + 1])`: each
/// public input multiplies the key's point one place further, as many as there are
/// both inputs and points, the products are added one after the other, and the
/// key's first point is added last.
pub proof fn lemma_public_sum(
    public: Seq<nat>,
    vk: VerifyingKey,
    points: Seq<Aff1>,
    acc: Seq<Aff1>,
)
    requires
        vk.valid(),
        points.len() == vk.gamma_abc_g1@.len(),
        forall|i: int|
            0 <= i < points.len() ==> {
                &&& (#[trigger] points[i]).infinity == vk.gamma_abc_g1@[i].infinity
                &&& !points[i].infinity ==> points[i].x == vk.gamma_abc_g1@[i].x@ && points[i].y
                    == vk.gamma_abc_g1@[i].y@
                &&& points[i].infinity ==> points[i].x == 0 && points[i].y == 0
            },
        acc.len() >= 1,
        acc.len() == public.len() + 1 && acc.len() <= points.len() || acc.len() == points.len()
            && acc.len() <= public.len() + 1,
        acc[0] == infinity1(),
        forall|i: int|
            0 <= i < acc.len() - 1 ==> #[trigger] acc[i + 1] == sum1(
                acc[i],
                multiple1(points[i + 1], public[i]),
            ),
    ensures
        to_affine1(public_point(public, vk)) == sum1(acc[acc.len() - 1], points[0]),
{
    assert forall|i: int| 0 <= i < points.len() implies points[i] == vk.points()[i] by {
        lemma_key_points(vk, i);
        assert(points[i].infinity == vk.gamma_abc_g1@[i].infinity);
    }
    lemma_key_points(vk, 0);
    assert(points =~= vk.points());
    lemma_public_point(public, vk);
    lemma_partial_sums(public, points, acc, (acc.len() - 1) as nat);
}

/// Where all public inputs but one are zero, the public point is that input times
/// the key's point one place further, and the key's first point added.
pub proof fn lemma_one_input(public: Seq<nat>, vk: VerifyingKey, i: int, p: Aff1, first: Aff1)
    requires
        vk.valid(),
        0 <= i < public.len(),
        i + 1 < vk.gamma_abc_g1@.len(),
        forall|j: int| 0 <= j < public.len() && j != i ==> public[j] == 0,
        p.infinity == vk.gamma_abc_g1@[i + 1].infinity,
        !p.infinity ==> p.x == vk.gamma_abc_g1@[i + 1].x@ && p.y == vk.gamma_abc_g1@[i + 1].y@,
        p.infinity ==> p.x == 0 && p.y == 0,
        first.infinity == vk.gamma_abc_g1@[0].infinity,
        !first.infinity ==> first.x == vk.gamma_abc_g1@[0].x@ && first.y == vk.gamma_abc_g1@[0].y@,
        first.infinity ==> first.x == 0 && first.y == 0,
        public[i] != 0,
    ensures
        to_affine1(public_point(public, vk)) == sum1(multiple1(p, public[i]), first),
{
    let points = vk.points().skip(1);
    let n = if public.len() < vk.points().len() {
        public.len()
    } else {
        (vk.points().len() - 1) as nat
    };
    lemma_key_points(vk, i + 1);
    lemma_key_points(vk, 0);
    lemma_public_point(public, vk);
    lemma_one_term(public, points, n, i);
    assert(points[i] == vk.points()[i + 1]);
}

proof fn lemma_one_term(public: Seq<nat>, points: Seq<Aff1>, n: nat, i: int)
    requires
        n <= public.len(),
        n <= points.len(),
        0 <= i,
        forall|j: int| 0 <= j < public.len() && j != i ==> public[j] == 0,
        i < n ==> (points[i].infinity ==> points[i] == infinity1()),
    ensures
        combination1(public, points, n) == (if i < n {
            multiple1(points[i], public[i])
        } else {
            infinity1()
        }),
    decreases n,
{
    if n > 0 {
        lemma_one_term(public, points, (n - 1) as nat, i);
        lemma_multiples(points[n - 1], 0);
        if i < n - 1 {
            lemma_multiple_at_infinity(points[i], public[i]);
        }
    }
}

/// There is one point at infinity.
proof fn lemma_multiple_at_infinity(p: Aff1, n: nat)
    requires
        p.infinity ==> p == infinity1(),
    ensures
        multiple1(p, n).infinity ==> multiple1(p, n) == infinity1(),
    decreases n,
{
    if n > 0 {
        lemma_multiple_at_infinity(p, n / 2);
    }
}

/// The left side of the verification equation for scalars and points on wires is
/// that for the numbers and points that they carry, each input in its place.
pub proof fn lemma_wires_product(w: Groth16VerifyInputWires, s: Seq<bool>, public: Seq<nat>)
    requires
        public.len() == w.public@.len(),
        forall|i: int| 0 <= i < public.len() ==> #[trigger] public[i] == w.public@[i].val(s),
    ensures
        w.product(s) == pairing_product(public, w.a.val(s), w.b.val(s), w.c.val(s), w.vk),
{
    assert(scalar_values(s, w.public@) =~= public);
}

/// The same for compressed points on wires.
pub proof fn lemma_compressed_wires_product(
    w: Groth16VerifyCompressedInputWires,
    s: Seq<bool>,
    public: Seq<nat>,
)
    requires
        public.len() == w.public@.len(),
        forall|i: int| 0 <= i < public.len() ==> #[trigger] public[i] == w.public@[i].val(s),
    ensures
        w.product(s) == pairing_product(
            public,
            decompress1(w.a.x_m.val(s), wire_value(s, w.a.y_flag)),
            decompress2(w.b.p.val(s), wire_value(s, w.b.y_flag)),
            decompress1(w.c.x_m.val(s), wire_value(s, w.c.y_flag)),
            w.vk,
        ),
{
    assert(scalar_values(s, w.public@) =~= public);
}

/// The public inputs are taken as the numbers that they are, in their order.
pub proof fn lemma_public_numbers(v: Seq<FrValue>, i: int)
    requires
        0 <= i < v.len(),
    ensures
        public_numbers(v).len() == v.len(),
        public_numbers(v)[i] == v[i].0@,
{
}

/// Scalars on wires and points are taken in their order.
pub proof fn lemma_listed_values(
    s: Seq<bool>,
    scalars: Seq<Fr>,
    points: Seq<G1ProjectiveValue>,
    i: int,
)
    ensures
        scalar_values(s, scalars).len() == scalars.len(),
        point_values(points).len() == points.len(),
        0 <= i < scalars.len() ==> scalar_values(s, scalars)[i] == scalars[i].val(s),
        0 <= i < points.len() ==> point_values(points)[i] == jac1(
            points[i].x@,
            points[i].y@,
            points[i].z@,
        ),
{
}

/// The pairing of two points is one where either is at infinity, and else that of
/// the first point's affine form with the lines of the second.
pub proof fn lemma_pairing_of(p: Jac1, q: Aff2)
    ensures
        p.z == 0 || q.infinity ==> pairing_of(p, q) == one12(),
        p.z != 0 && !q.infinity ==> pairing_of(p, q) == pairing(affine_lines(q), affine1(p)),
{
    if p.z == 0 || q.infinity {
        lemma_final_exp_one();
    }
}

/// A decompressed point keeps its abscissa, and its ordinate is the power
/// `(p + 1) / 4` of `x^3 + 3` with the flag set, and the negative of that without.
pub proof fn lemma_decompressed1(x: nat, n: nat)
    requires
        4 * n == modulus() + 1,
    ensures
        decompress1(x, true) == jac1(x, fpow(fadd(fmul(fmul(x, x), x), 3), n), 1),
        decompress1(x, false) == jac1(x, fneg(fpow(fadd(fmul(fmul(x, x), x), 3), n)), 1),
{
    reveal(decompress1);
    lemma_constants();
}

/// A decompressed point of the twist keeps its abscissa, and its ordinate is the
/// root of `x^3 + b` with the flag set, and the negative of that without.
pub proof fn lemma_decompressed2(x: Ext2)
    ensures
        decompress2(x, true) == jac2(x, sqrt2(add2(mul2(sqr2(x), x), coeff_b2())), one2()),
        decompress2(x, false) == jac2(x, neg2(sqrt2(add2(mul2(sqr2(x), x), coeff_b2()))), one2()),
{
    reveal(decompress2);
}

/// What is compressed and decompressed again is the same point, on the curve and on
/// the twist.
pub proof fn lemma_compressed_back(p: Aff1, q: Aff2)
    requires
        reduced_aff1(p),
        fmul(p.y, p.y) == fadd(fmul(fmul(p.x, p.x), p.x), 3),
        reduced2(q.y),
        sqr2(q.y) == add2(mul2(sqr2(q.x), q.x), coeff_b2()),
    ensures
        decompressed1(p) == jac1(p.x, p.y, 1),
        decompressed2(q) == jac2(q.x, q.y, one2()),
        normal1(jac1(p.x, p.y, 1)),
        normal2(jac2(q.x, q.y, one2())),
{
    lemma_decompress1(p);
    lemma_decompress2(q);
}

/// The flag of a point says whether its ordinate is the power `(p + 1) / 4` of its
/// own square.
pub proof fn lemma_root_flags(y: nat, n: nat, z: Ext2)
    requires
        4 * n == modulus() + 1,
    ensures
        root_flag1(y) <==> fpow(fmul(y, y), n) == y,
        root_flag2(z) <==> sqrt2(sqr2(z)) == z,
{
    lemma_constants();
}

/// The wires of an element carry the digits of its product with `2^254`, reduced,
/// lowest first.
pub proof fn lemma_element_wires(s: Seq<bool>, w: Fq, i: int)
    requires
        w.ok(s),
        0 <= i < 254,
    ensures
        w.0@.len() == 254,
        w.wire_ids() == w.0@,
        w.0@[i].0 < s.len(),
        w.val(s) < modulus(),
        s[w.0@[i].0 as int] <==> (((w.val(s) * pow2(254)) % modulus()) / pow2(i as nat)) % 2 == 1,
{
    reveal(is_element);
    reveal(element);
    let b = values(s, w.0@);
    lemma_digit(b, i);
    lemma_encode_decode(bits_value(b));
    lemma_encoded(decode(bits_value(b)));
    lemma_decode_reduced(bits_value(b));
}

/// A Montgomery representation is the product with `2^254`, reduced.
pub proof fn lemma_encoded(v: nat)
    ensures
        encode(v) == (v * pow2(254)) % modulus(),
{
    reveal(encode);
    reveal(fmul);
    lemma_radix();
    lemma_constants();
    lemma_mul_mod_noop_right(v as int, pow2(254) as int, modulus() as int);
}

/// The wires of a scalar carry its digits, lowest first.
pub proof fn lemma_scalar_wires(s: Seq<bool>, w: Fr, i: int)
    requires
        w.ok(s),
        0 <= i < 254,
    ensures
        w.0@.len() == 254,
        w.wire_ids() == w.0@,
        w.0@[i].0 < s.len(),
        s[w.0@[i].0 as int] <==> (w.val(s) / pow2(i as nat)) % 2 == 1,
{
    reveal(Fr::ok);
    reveal(Fr::val);
    lemma_digit(values(s, w.0@), i);
}

/// The wires of extension field elements are those of their components, one after
/// the other.
pub proof fn lemma_tower_wires(a: Fq2, b: Fq6, c: Fq12, i: int)
    requires
        a.shaped(),
        b.shaped(),
        c.shaped(),
    ensures
        a.wire_ids().len() == 508,
        0 <= i < 254 ==> a.wire_ids()[i] == a.c0.0@[i] && a.wire_ids()[254 + i] == a.c1.0@[i],
        b.wire_ids().len() == 1524,
        0 <= i < 508 ==> {
            &&& b.wire_ids()[i] == b.c0.wire_ids()[i]
            &&& b.wire_ids()[508 + i] == b.c1.wire_ids()[i]
            &&& b.wire_ids()[1016 + i] == b.c2.wire_ids()[i]
        },
        c.wire_ids().len() == 3048,
        0 <= i < 1524 ==> {
            &&& c.wire_ids()[i] == c.c0.wire_ids()[i]
            &&& c.wire_ids()[1524 + i] == c.c1.wire_ids()[i]
        },
{
}

/// What the wires of extension field elements carry are the components.
pub proof fn lemma_tower_values(s: Seq<bool>, a: Fq2, b: Fq6, c: Fq12)
    ensures
        a.val(s).c0 == a.c0.val(s),
        a.val(s).c1 == a.c1.val(s),
        b.val(s).c0 == b.c0.val(s),
        b.val(s).c1 == b.c1.val(s),
        b.val(s).c2 == b.c2.val(s),
        c.val(s).c0 == c.c0.val(s),
        c.val(s).c1 == c.c1.val(s),
        a.ok(s) <==> a.c0.ok(s) && a.c1.ok(s),
        b.ok(s) <==> b.c0.ok(s) && b.c1.ok(s) && b.c2.ok(s),
        c.ok(s) <==> c.c0.ok(s) && c.c1.ok(s),
{
    reveal(Fq2::ok);
    reveal(Fq2::val);
    reveal(Fq6::ok);
    reveal(Fq6::val);
    reveal(Fq12::ok);
    reveal(Fq12::val);
}

/// The wires of points are those of their coordinates, one after the other.
pub proof fn lemma_point_wires(p: G1Projective, q: G2Projective, i: int)
    requires
        p.shaped(),
        q.shaped(),
    ensures
        p.wire_ids().len() == 762,
        0 <= i < 254 ==> {
            &&& p.wire_ids()[i] == p.x.0@[i]
            &&& p.wire_ids()[254 + i] == p.y.0@[i]
            &&& p.wire_ids()[508 + i] == p.z.0@[i]
        },
        q.wire_ids().len() == 1524,
        0 <= i < 508 ==> {
            &&& q.wire_ids()[i] == q.x.wire_ids()[i]
            &&& q.wire_ids()[508 + i] == q.y.wire_ids()[i]
            &&& q.wire_ids()[1016 + i] == q.z.wire_ids()[i]
        },
{
}

/// What the wires of points carry are the coordinates.
pub proof fn lemma_point_values(s: Seq<bool>, p: G1Projective, q: G2Projective)
    ensures
        p.val(s) == jac1(p.x.val(s), p.y.val(s), p.z.val(s)),
        q.val(s) == jac2(q.x.val(s), q.y.val(s), q.z.val(s)),
        p.ok(s) <==> p.x.ok(s) && p.y.ok(s) && p.z.ok(s),
        q.ok(s) <==> q.x.ok(s) && q.y.ok(s) && q.z.ok(s),
{
    reveal(G1Projective::ok);
    reveal(G1Projective::val);
    reveal(G2Projective::ok);
    reveal(G2Projective::val);
}

/// The wires of compressed points are those of the abscissa, and last that of the
/// flag.
pub proof fn lemma_compressed_wires(p: CompressedG1Wires, q: CompressedG2Wires, i: int)
    requires
        p.shaped(),
        q.shaped(),
    ensures
        p.wire_ids().len() == 255,
        0 <= i < 254 ==> p.wire_ids()[i] == p.x_m.0@[i],
        p.wire_ids()[254] == p.y_flag,
        q.wire_ids().len() == 509,
        0 <= i < 508 ==> q.wire_ids()[i] == q.p.wire_ids()[i],
        q.wire_ids()[508] == q.y_flag,
{
}

/// The points that compressed points on wires are.
pub proof fn lemma_compressed_values(s: Seq<bool>, p: CompressedG1Wires, q: CompressedG2Wires)
    ensures
        p.point(s) == decompress1(p.x_m.val(s), wire_value(s, p.y_flag)),
        q.point(s) == decompress2(q.p.val(s), wire_value(s, q.y_flag)),
        wire_value(s, p.y_flag) == s[p.y_flag.0 as int],
        wire_value(s, q.y_flag) == s[q.y_flag.0 as int],
{
    reveal(wire_value);
}

/// The wires of scalars are those of each, one after the other, and so are the
/// digits that they are fed.
pub proof fn lemma_public_wires(w: Seq<Fr>, v: Seq<FrValue>, m: nat, k: int, i: int)
    requires
        all_shaped(w),
        m <= w.len(),
        0 <= k < m,
        0 <= i < 254,
    ensures
        public_ids(w, m).len() == 254 * m,
        public_ids(w, m)[254 * k + i] == w[k].0@[i],
        public_digits(v, m).len() == 254 * m,
        public_digits(v, m)[254 * k + i] <==> (v[k].0@ / pow2(i as nat)) % 2 == 1,
    decreases m,
{
    assert(w[m - 1].shaped());
    if m > 1 {
        lemma_public_wires(w, v, (m - 1) as nat, if k < m - 1 {
            k
        } else {
            0
        }, i);
    } else {
        assert(public_ids(w, 0).len() == 0);
        assert(public_digits(v, 0).len() == 0);
    }
}

/// As many scalars are fed as there are both wires and numbers for.
pub proof fn lemma_public_count(w: Seq<Fr>, v: Seq<FrValue>)
    ensures
        public_count(w, v) <= w.len(),
        public_count(w, v) <= v.len(),
        public_count(w, v) == w.len() || public_count(w, v) == v.len(),
{
}

/// The digits that elements and points are fed: those of the product of each
/// coordinate with `2^254`, reduced, one coordinate after the other.
pub proof fn lemma_fed_digits(x: nat, a: Ext2, p: Jac1, q: Jac2, i: int)
    ensures
        fq_digits(x).len() == 254,
        0 <= i < 254 ==> (fq_digits(x)[i] <==> (((x * pow2(254)) % modulus()) / pow2(i as nat)) % 2
            == 1),
        fq2_digits(a).len() == 508,
        0 <= i < 254 ==> fq2_digits(a)[i] == fq_digits(a.c0)[i] && fq2_digits(a)[254 + i]
            == fq_digits(a.c1)[i],
        g1_digits(p).len() == 762,
        0 <= i < 254 ==> {
            &&& g1_digits(p)[i] == fq_digits(p.x)[i]
            &&& g1_digits(p)[254 + i] == fq_digits(p.y)[i]
            &&& g1_digits(p)[508 + i] == fq_digits(p.z)[i]
        },
        g2_digits(q).len() == 1524,
        0 <= i < 508 ==> {
            &&& g2_digits(q)[i] == fq2_digits(q.x)[i]
            &&& g2_digits(q)[508 + i] == fq2_digits(q.y)[i]
            &&& g2_digits(q)[1016 + i] == fq2_digits(q.z)[i]
        },
{
    lemma_encoded(x);
}

/// The digits that compressed points are fed: those of the abscissa, and last the
/// flag.
pub proof fn lemma_fed_compressed(p: Aff1, q: Aff2, i: int)
    ensures
        compressed1_digits(p).len() == 255,
        0 <= i < 254 ==> compressed1_digits(p)[i] == fq_digits(p.x)[i],
        compressed1_digits(p)[254] == root_flag1(p.y),
        compressed2_digits(q).len() == 509,
        0 <= i < 508 ==> compressed2_digits(q)[i] == fq2_digits(q.x)[i],
        compressed2_digits(q)[508] == root_flag2(q.y),
{
}

/// The wires of a proof are those of its public inputs, of `A`, of `B` and of `C`, in
/// this order, and the digits that they are fed are in the same order.
pub proof fn lemma_proof_wires(
    w: Groth16VerifyInputWires,
    v: Groth16VerifyInput,
    m: nat,
    i: int,
)
    requires
        w.shaped(),
        m <= w.public@.len(),
    ensures
        w.wire_ids(m).len() == 254 * m + 3048,
        v.digits(m).len() == 254 * m + 3048,
        0 <= i < 254 * m ==> w.wire_ids(m)[i] == public_ids(w.public@, m)[i] && v.digits(m)[i]
            == public_digits(v.public@, m)[i],
        0 <= i < 762 ==> {
            &&& w.wire_ids(m)[254 * m + i] == w.a.wire_ids()[i]
            &&& v.digits(m)[254 * m + i] == g1_digits(v.a@)[i]
            &&& w.wire_ids(m)[254 * m + 2286 + i] == w.c.wire_ids()[i]
            &&& v.digits(m)[254 * m + 2286 + i] == g1_digits(v.c@)[i]
        },
        0 <= i < 1524 ==> {
            &&& w.wire_ids(m)[254 * m + 762 + i] == w.b.wire_ids()[i]
            &&& v.digits(m)[254 * m + 762 + i] == g2_digits(v.b@)[i]
        },
{
    lemma_public_len(w.public@, v.public@, m);
}

/// The same for a compressed proof: its points are the affine forms, compressed.
pub proof fn lemma_compressed_proof_wires(
    w: Groth16VerifyCompressedInputWires,
    v: Groth16VerifyCompressedInput,
    m: nat,
    i: int,
)
    requires
        w.shaped(),
        m <= w.public@.len(),
    ensures
        w.wire_ids(m).len() == 254 * m + 1019,
        v.digits(m).len() == 254 * m + 1019,
        0 <= i < 254 * m ==> w.wire_ids(m)[i] == public_ids(w.public@, m)[i] && v.digits(m)[i]
            == public_digits(v.0.public@, m)[i],
        0 <= i < 255 ==> {
            &&& w.wire_ids(m)[254 * m + i] == w.a.wire_ids()[i]
            &&& v.digits(m)[254 * m + i] == compressed1_digits(to_affine1(v.0.a@))[i]
            &&& w.wire_ids(m)[254 * m + 764 + i] == w.c.wire_ids()[i]
            &&& v.digits(m)[254 * m + 764 + i] == compressed1_digits(to_affine1(v.0.c@))[i]
        },
        0 <= i < 509 ==> {
            &&& w.wire_ids(m)[254 * m + 255 + i] == w.b.wire_ids()[i]
            &&& v.digits(m)[254 * m + 255 + i] == compressed2_digits(to_affine2(v.0.b@))[i]
        },
{
    lemma_public_len(w.public@, v.0.public@, m);
}

/// Lists of points, lines and coefficients are taken in their order.
pub proof fn lemma_lists(
    s: Seq<bool>,
    ps: Seq<G1Projective>,
    qs: Seq<G2Projective>,
    constants: Seq<G2AffineValue>,
    lines: Seq<Fq6>,
    coeffs: Seq<EllCoeff>,
    i: int,
)
    ensures
        g1_values(s, ps).len() == ps.len(),
        0 <= i < ps.len() ==> g1_values(s, ps)[i] == ps[i].val(s),
        affine1_all(g1_values(s, ps)).len() == ps.len(),
        0 <= i < ps.len() ==> affine1_all(g1_values(s, ps))[i] == affine1(ps[i].val(s)),
        g2_values(s, qs).len() == qs.len(),
        0 <= i < qs.len() ==> g2_values(s, qs)[i] == qs[i].val(s),
        own_line_lists(g2_values(s, qs)).len() == qs.len(),
        0 <= i < qs.len() ==> own_line_lists(g2_values(s, qs))[i] == own_lines(qs[i].val(s)),
        affine_line_lists(constants).len() == constants.len(),
        0 <= i < constants.len() ==> affine_line_lists(constants)[i] == affine_lines(
            constants[i]@,
        ),
        line_values(s, lines).len() == lines.len(),
        0 <= i < lines.len() ==> line_values(s, lines)[i] == lines[i].val(s),
        coeff_values(coeffs).len() == coeffs.len(),
        0 <= i < coeffs.len() ==> coeff_values(coeffs)[i] == coeffs[i]@,
{
}

/// The Frobenius image of an affine point, not at all, once and twice: the twofold
/// image is that of the image, with its sign changed.
pub proof fn lemma_frobenius_images(q: Jac2)
    ensures
        frobenius_affine2(q, 0) == jac2(q.x, q.y, one2()),
        frobenius_affine2(q, 1) == jac2(twist_x(q.x), twist_y(q.y), one2()),
        frobenius_affine2(q, 2) == ({
            let twice = frobenius_affine2(frobenius_affine2(q, 1), 1);
            jac2(twice.x, neg2(twice.y), one2())
        }),
{
}

/// The twelve coefficients of an element, lowest first at each level.
pub proof fn lemma_coefficients(c: Seq<FqValue>)
    ensures
        ({
            let v = from_coeffs(c)@;
            &&& v.c0.c0 == ext2(c[0]@, c[1]@)
            &&& v.c0.c1 == ext2(c[2]@, c[3]@)
            &&& v.c0.c2 == ext2(c[4]@, c[5]@)
            &&& v.c1.c0 == ext2(c[6]@, c[7]@)
            &&& v.c1.c1 == ext2(c[8]@, c[9]@)
            &&& v.c1.c2 == ext2(c[10]@, c[11]@)
        }),
{
}

/// Points and elements outside circuits are their coordinates and components.
pub proof fn lemma_native_values(
    p: G1AffineValue,
    q: G2AffineValue,
    r: G1ProjectiveValue,
    s: G2ProjectiveValue,
)
    ensures
        p@ == (Aff1 { x: p.x@, y: p.y@, infinity: p.infinity }),
        q@.x == ext2(q.x.c0@, q.x.c1@) && q@.y == ext2(q.y.c0@, q.y.c1@),
        q@.infinity == q.infinity,
        r@ == jac1(r.x@, r.y@, r.z@),
        s@ == jac2(
            ext2(s.x.c0@, s.x.c1@),
            ext2(s.y.c0@, s.y.c1@),
            ext2(s.z.c0@, s.z.c1@),
        ),
{
}

/// A key is valid where its coordinates are below the modulus and it has a first
/// point.
pub proof fn lemma_valid_key(vk: VerifyingKey)
    requires
        vk.alpha_g1.x@ < modulus() && vk.alpha_g1.y@ < modulus(),
        vk.beta_g2.x.c0@ < modulus() && vk.beta_g2.x.c1@ < modulus(),
        vk.beta_g2.y.c0@ < modulus() && vk.beta_g2.y.c1@ < modulus(),
        vk.gamma_g2.x.c0@ < modulus() && vk.gamma_g2.x.c1@ < modulus(),
        vk.gamma_g2.y.c0@ < modulus() && vk.gamma_g2.y.c1@ < modulus(),
        vk.delta_g2.x.c0@ < modulus() && vk.delta_g2.x.c1@ < modulus(),
        vk.delta_g2.y.c0@ < modulus() && vk.delta_g2.y.c1@ < modulus(),
        vk.gamma_abc_g1@.len() >= 1,
        forall|i: int|
            0 <= i < vk.gamma_abc_g1@.len() ==> (#[trigger] vk.gamma_abc_g1@[i]).x@ < modulus()
                && vk.gamma_abc_g1@[i].y@ < modulus(),
    ensures
        vk.valid(),
{
}

/// A proof is valid where its coordinates are below the modulus and its public
/// inputs below the order of the group.
pub proof fn lemma_valid_proof(v: Groth16VerifyInput)
    requires
        v.a.x@ < modulus() && v.a.y@ < modulus() && v.a.z@ < modulus(),
        v.c.x@ < modulus() && v.c.y@ < modulus() && v.c.z@ < modulus(),
        v.b.x.c0@ < modulus() && v.b.x.c1@ < modulus(),
        v.b.y.c0@ < modulus() && v.b.y.c1@ < modulus(),
        v.b.z.c0@ < modulus() && v.b.z.c1@ < modulus(),
        forall|i: int| 0 <= i < v.public@.len() ==> (#[trigger] v.public@[i]).0@ < scalar_modulus(),
    ensures
        v.valid(),
{
}

/// The twist's constant is three, divided by `9 + u`.
pub proof fn lemma_twist_constant()
    ensures
        mul2(coeff_b2(), ext2(9, 1)) == ext2(3, 0),
{
    reveal(mul2);
    reveal(fmul);
    reveal(fadd);
    reveal(fsub);
    reveal(modulus);
}

/// Any 254 wires can be those of a scalar, and those of an element where they carry
/// a number below the modulus.
pub proof fn lemma_enough_wires(s: Seq<bool>, w: Fq, f: Fr, n: nat)
    requires
        w.0@.len() == 254,
        f.0@.len() == 254,
        forall|i: int| 0 <= i < 254 ==> (#[trigger] w.0@[i]).0 < s.len(),
        forall|i: int| 0 <= i < 254 ==> (#[trigger] f.0@[i]).0 < s.len(),
        n < modulus(),
        forall|i: int|
            0 <= i < 254 ==> (s[(#[trigger] w.0@[i]).0 as int] <==> (n / pow2(i as nat)) % 2 == 1),
    ensures
        w.shaped(),
        w.ok(s),
        (w.val(s) * pow2(254)) % modulus() == n,
        f.shaped(),
        f.ok(s),
{
    reveal(Fr::ok);
    reveal(is_element);
    reveal(element);
    let b = values(s, w.0@);
    assert(b =~= digits(n, 254));
    lemma_modulus_bits();
    lemma_digits_value(n, 254);
    lemma_encode_decode(n);
    lemma_encoded(decode(n));
}

/// The lines of a point on wires start with the tangent at the point as it is, with
/// whatever third coordinate it has.
pub proof fn lemma_own_lines_start(q: Jac2)
    ensures
        own_lines(q).len() >= 3,
        own_lines(q)[0] == line_double(q).1,
{
    lemma_first_line(q, q.x, q.y);
}

} // verus!
