//! Points of the two groups of BLS12-381, and the group and pairing
//! operations, which the `bls12_381` crate computes.
//!
//! A point is held as its canonical uncompressed encoding: the coordinates as
//! big-endian numbers of 48 bytes each, or, for the point at infinity, the
//! byte `0x40` followed by zeros. In $\mathbb{G}_2$ a coordinate is a pair
//! `c0 + c1 * u`, written with `c1` first.

use vstd::prelude::*;
use bls12_381::{multi_miller_loop, G1Affine, G1Projective, G2Affine, G2Prepared, Gt, Scalar};
use crate::bignum::{
    be_value, copy_bytes, lemma_be_value_concat, lemma_be_value_injective,
    lemma_be_value_single, pow256,
};
use crate::field::{base_modulus, scalar_modulus};

verus! {

/// A point of the first curve: affine coordinates in the base field, or the point at infinity.
pub ghost struct G1 {
    pub x: nat,
    pub y: nat,
    pub infinity: bool,
}

/// A point of the second curve: affine coordinates `x0 + x1 * u` and `y0 + y1 * u`, or the point at infinity.
pub ghost struct G2 {
    pub x0: nat,
    pub x1: nat,
    pub y0: nat,
    pub y1: nat,
    pub infinity: bool,
}

/// The identity of the first group.
pub open spec fn g1_identity() -> G1 {
    G1 { x: 0, y: 0, infinity: true }
}

/// The identity of the second group.
pub open spec fn g2_identity() -> G2 {
    G2 { x0: 0, x1: 0, y0: 0, y1: 0, infinity: true }
}

/// The curve equation of the first group: `y^2 = x^3 + 4` in the base field.
pub open spec fn g1_on_curve(p: G1) -> bool {
    p.infinity || (p.y * p.y) % base_modulus() == (p.x * p.x * p.x + 4) % base_modulus()
}

/// The curve equation of the second group: `y^2 = x^3 + 4 * (1 + u)` where `u^2 = -1`,
/// written out for the two parts of each side.
pub open spec fn g2_on_curve(p: G2) -> bool {
    let y_sq_0 = p.y0 * p.y0 - p.y1 * p.y1;
    let y_sq_1 = 2 * p.y0 * p.y1;
    let x_cu_0 = p.x0 * p.x0 * p.x0 - 3 * p.x0 * p.x1 * p.x1;
    let x_cu_1 = 3 * p.x0 * p.x0 * p.x1 - p.x1 * p.x1 * p.x1;
    p.infinity || ((y_sq_0 - x_cu_0 - 4) % (base_modulus() as int) == 0 && (y_sq_1 - x_cu_1 - 4) % (
    base_modulus() as int) == 0)
}

/// The inverse of a point of the first group: the same `x`, and `y` negated in the base field.
pub open spec fn g1_negation(p: G1) -> G1 {
    G1 { x: p.x, y: ((base_modulus() - p.y) % (base_modulus() as int)) as nat, infinity: p.infinity }
}

/// The inverse of a point of the second group: the same `x`, and both parts of `y` negated.
pub open spec fn g2_negation(p: G2) -> G2 {
    G2 {
        x0: p.x0,
        x1: p.x1,
        y0: ((base_modulus() - p.y0) % (base_modulus() as int)) as nat,
        y1: ((base_modulus() - p.y1) % (base_modulus() as int)) as nat,
        infinity: p.infinity,
    }
}

/// Whether a point of the first curve lies in the subgroup of prime order,
/// as `G1Affine::is_torsion_free` finds it.
pub uninterp spec fn g1_torsion_free(p: G1) -> bool;

/// Whether a point of the second curve lies in the subgroup of prime order,
/// as `G2Affine::is_torsion_free` finds it.
pub uninterp spec fn g2_torsion_free(p: G2) -> bool;

/// The sum of two points of the first curve, as the addition of `G1Projective` gives it.
pub uninterp spec fn g1_sum(p: G1, q: G1) -> G1;

/// The point `p` of the first curve taken `k` times, as the multiplication of
/// `G1Affine` by a `Scalar` gives it.
pub uninterp spec fn g1_scaled(p: G1, k: nat) -> G1;

/// Whether the product of the pairings of the given pairs is the identity of
/// the target group, as `multi_miller_loop` and the final exponentiation find it.
pub uninterp spec fn pairing_product_is_one(terms: Seq<(G1, G2)>) -> bool;

/// Whether `p` is a member of the first group, with coordinates in canonical form.
pub open spec fn g1_valid(p: G1) -> bool {
    if p.infinity {
        p.x == 0 && p.y == 0
    } else {
        p.x < base_modulus() && p.y < base_modulus() && g1_on_curve(p) && g1_torsion_free(p)
    }
}

/// Whether `p` is a member of the second group, with coordinates in canonical form.
pub open spec fn g2_valid(p: G2) -> bool {
    if p.infinity {
        p.x0 == 0 && p.x1 == 0 && p.y0 == 0 && p.y1 == 0
    } else {
        p.x0 < base_modulus() && p.x1 < base_modulus() && p.y0 < base_modulus() && p.y1
            < base_modulus() && g2_on_curve(p) && g2_torsion_free(p)
    }
}

/// Whether `e` is the encoding of the point at infinity: the mark `0x40`, then zeros.
pub open spec fn is_identity_encoding(e: Seq<u8>) -> bool {
    e.len() > 0 && e[0] == 0x40 && forall|i: int| 1 <= i < e.len() ==> e[i] == 0
}

/// Whether the 48 bytes of `e` from `at` on are a coordinate: a number below the base modulus.
pub open spec fn is_coordinate(e: Seq<u8>, at: int) -> bool {
    be_value(e.subrange(at, at + 48)) < base_modulus()
}

/// Whether `e` is the uncompressed encoding of some pair of coordinates, or of the point at infinity.
pub open spec fn g1_canonical(e: Seq<u8>) -> bool {
    e.len() == 96 && (is_identity_encoding(e) || (e[0] < 0x20 && is_coordinate(e, 0)
        && is_coordinate(e, 48)))
}

/// Whether `e` is the uncompressed encoding of some pair of coordinates, or of the point at infinity.
pub open spec fn g2_canonical(e: Seq<u8>) -> bool {
    e.len() == 192 && (is_identity_encoding(e) || (e[0] < 0x20 && is_coordinate(e, 0)
        && is_coordinate(e, 48) && is_coordinate(e, 96) && is_coordinate(e, 144)))
}

/// The point that a canonical encoding stands for.
pub open spec fn g1_decoded(e: Seq<u8>) -> G1 {
    if e[0] == 0x40 {
        g1_identity()
    } else {
        G1 { x: be_value(e.subrange(0, 48)), y: be_value(e.subrange(48, 96)), infinity: false }
    }
}

/// The point that a canonical encoding stands for.
pub open spec fn g2_decoded(e: Seq<u8>) -> G2 {
    if e[0] == 0x40 {
        g2_identity()
    } else {
        G2 {
            x0: be_value(e.subrange(48, 96)),
            x1: be_value(e.subrange(0, 48)),
            y0: be_value(e.subrange(144, 192)),
            y1: be_value(e.subrange(96, 144)),
            infinity: false,
        }
    }
}

/// A point of the first curve, not necessarily in the group.
#[derive(Clone, Debug, PartialEq, Eq)]
pub struct G1Point {
    /// The uncompressed encoding, 96 bytes.
    pub encoding: Vec<u8>,
}

/// A point of the second curve, not necessarily in the group.
#[derive(Clone, Debug, PartialEq, Eq)]
pub struct G2Point {
    /// The uncompressed encoding, 192 bytes.
    pub encoding: Vec<u8>,
}

impl View for G1Point {
    type V = G1;

    open spec fn view(&self) -> G1 {
        g1_decoded(self.encoding@)
    }
}

impl View for G2Point {
    type V = G2;

    open spec fn view(&self) -> G2 {
        g2_decoded(self.encoding@)
    }
}

impl G1Point {
    /// The encoding is canonical.
    pub open spec fn is_canonical(&self) -> bool {
        g1_canonical(self.encoding@)
    }

    /// The point is a member of the first group: the identity, or on the
    /// curve and in the subgroup of prime order.
    pub open spec fn wf(&self) -> bool {
        self.is_canonical() && g1_valid(self@)
    }

    /// Whether the point is the identity.
    pub fn is_identity(&self) -> (r: bool)
        requires
            self.is_canonical(),
        ensures
            r == self@.infinity,
    {
        self.encoding[0] == 0x40
    }

    /// The uncompressed encoding of the point.
    pub fn to_uncompressed(&self) -> (r: Vec<u8>)
        ensures
            r@ == self.encoding@,
    {
        copy_bytes(self.encoding.as_slice())
    }
}

impl G2Point {
    /// The encoding is canonical.
    pub open spec fn is_canonical(&self) -> bool {
        g2_canonical(self.encoding@)
    }

    /// The point is a member of the second group: the identity, or on the
    /// curve and in the subgroup of prime order.
    pub open spec fn wf(&self) -> bool {
        self.is_canonical() && g2_valid(self@)
    }

    /// Whether the point is the identity.
    pub fn is_identity(&self) -> (r: bool)
        requires
            self.is_canonical(),
        ensures
            r == self@.infinity,
    {
        self.encoding[0] == 0x40
    }

    /// The uncompressed encoding of the point.
    pub fn to_uncompressed(&self) -> (r: Vec<u8>)
        ensures
            r@ == self.encoding@,
    {
        copy_bytes(self.encoding.as_slice())
    }
}

/// Calls `G1Affine::is_on_curve` on the point that the encoding stands for.
/// The contract is the equation that the method tests, `y^2 - x^3 = 4`, and
/// that it lets the point at infinity pass.
#[verifier::external_body]
pub(crate) fn g1_is_on_curve(p: &G1Point) -> (r: bool)
    requires
        p.is_canonical(),
    ensures
        r == g1_on_curve(p@),
{
    let bytes: &[u8; 96] = p.encoding.as_slice().try_into().unwrap();
    bool::from(G1Affine::from_uncompressed_unchecked(bytes).unwrap().is_on_curve())
}

/// Calls `G1Affine::is_torsion_free` on the point that the encoding stands
/// for. The contract only gives the answer its name.
#[verifier::external_body]
pub(crate) fn g1_is_torsion_free(p: &G1Point) -> (r: bool)
    requires
        p.is_canonical(),
    ensures
        r == g1_torsion_free(p@),
{
    let bytes: &[u8; 96] = p.encoding.as_slice().try_into().unwrap();
    bool::from(G1Affine::from_uncompressed_unchecked(bytes).unwrap().is_torsion_free())
}

/// Calls `G2Affine::is_on_curve` on the point that the encoding stands for.
/// The contract is the equation that the method tests, `y^2 - x^3 = 4 + 4u`,
/// and that it lets the point at infinity pass.
#[verifier::external_body]
pub(crate) fn g2_is_on_curve(p: &G2Point) -> (r: bool)
    requires
        p.is_canonical(),
    ensures
        r == g2_on_curve(p@),
{
    let bytes: &[u8; 192] = p.encoding.as_slice().try_into().unwrap();
    bool::from(G2Affine::from_uncompressed_unchecked(bytes).unwrap().is_on_curve())
}

/// Calls `G2Affine::is_torsion_free` on the point that the encoding stands
/// for. The contract only gives the answer its name.
#[verifier::external_body]
pub(crate) fn g2_is_torsion_free(p: &G2Point) -> (r: bool)
    requires
        p.is_canonical(),
    ensures
        r == g2_torsion_free(p@),
{
    let bytes: &[u8; 192] = p.encoding.as_slice().try_into().unwrap();
    bool::from(G2Affine::from_uncompressed_unchecked(bytes).unwrap().is_torsion_free())
}

/// Negates a point with the `Neg` of `G1Affine`, which keeps `x` and the
/// infinity mark and negates `y` in the base field. The encoding that
/// `to_uncompressed` writes of the result is canonical. The inverse of a
/// member of the group is a member: `G1Affine` documents that its values
/// stay in the subgroup unless other bytes were let in unchecked.
#[verifier::external_body]
pub(crate) fn g1_neg(p: &G1Point) -> (r: G1Point)
    requires
        p.is_canonical(),
    ensures
        r.is_canonical(),
        r@ == g1_negation(p@),
        g1_valid(p@) ==> g1_valid(r@),
{
    let bytes: &[u8; 96] = p.encoding.as_slice().try_into().unwrap();
    let negated = -G1Affine::from_uncompressed_unchecked(bytes).unwrap();
    G1Point { encoding: negated.to_uncompressed().to_vec() }
}

/// Negates a point with the `Neg` of `G2Affine`, which keeps `x` and the
/// infinity mark and negates both parts of `y` in the base field. The
/// encoding that `to_uncompressed` writes of the result is canonical. The
/// inverse of a member of the group is a member: `G2Affine` documents that
/// its values stay in the subgroup unless other bytes were let in unchecked.
#[verifier::external_body]
pub(crate) fn g2_neg(p: &G2Point) -> (r: G2Point)
    requires
        p.is_canonical(),
    ensures
        r.is_canonical(),
        r@ == g2_negation(p@),
        g2_valid(p@) ==> g2_valid(r@),
{
    let bytes: &[u8; 192] = p.encoding.as_slice().try_into().unwrap();
    let negated = -G2Affine::from_uncompressed_unchecked(bytes).unwrap();
    G2Point { encoding: negated.to_uncompressed().to_vec() }
}

/// Adds two points with the mixed addition of `G1Projective`. The contract
/// gives the sum its name, says that the encoding which `to_uncompressed`
/// writes of it is canonical, and that the sum of two members of the group
/// is a member, as `G1Affine` documents of its values.
#[verifier::external_body]
pub(crate) fn g1_add(p: &G1Point, q: &G1Point) -> (r: G1Point)
    requires
        p.is_canonical(),
        q.is_canonical(),
    ensures
        r.is_canonical(),
        r@ == g1_sum(p@, q@),
        g1_valid(p@) && g1_valid(q@) ==> g1_valid(r@),
{
    let a: &[u8; 96] = p.encoding.as_slice().try_into().unwrap();
    let b: &[u8; 96] = q.encoding.as_slice().try_into().unwrap();
    let lhs = G1Projective::from(G1Affine::from_uncompressed_unchecked(a).unwrap());
    let sum = lhs.add_mixed(&G1Affine::from_uncompressed_unchecked(b).unwrap());
    G1Point { encoding: G1Affine::from(sum).to_uncompressed().to_vec() }
}

/// Multiplies a point by a scalar with the `Mul` of `G1Affine` and `Scalar`.
/// The scalar comes as the 32 bytes that `Scalar::from_bytes` reads, least
/// significant first, and is below the scalar modulus. The contract gives the
/// product its name, says that the encoding which `to_uncompressed` writes
/// of it is canonical, and that a multiple of a member of the group is a
/// member, as `G1Affine` documents of its values.
#[verifier::external_body]
pub(crate) fn g1_mul(p: &G1Point, scalar: &Vec<u8>) -> (r: G1Point)
    requires
        p.is_canonical(),
        scalar@.len() == 32,
        be_value(scalar@.reverse()) < scalar_modulus(),
    ensures
        r.is_canonical(),
        r@ == g1_scaled(p@, be_value(scalar@.reverse())),
        g1_valid(p@) ==> g1_valid(r@),
{
    let bytes: &[u8; 96] = p.encoding.as_slice().try_into().unwrap();
    let k: &[u8; 32] = scalar.as_slice().try_into().unwrap();
    let product = G1Affine::from_uncompressed_unchecked(bytes).unwrap() * Scalar::from_bytes(k).unwrap();
    G1Point { encoding: G1Affine::from(product).to_uncompressed().to_vec() }
}

/// Runs `multi_miller_loop` on four pairs of points and tests whether
/// `final_exponentiation` of the result is `Gt::identity()`. The contract only
/// gives the answer its name. Every point must be a member of its group:
/// the final exponentiation inverts the result of the loop, which is
/// nonzero for members and may be zero for other points.
#[verifier::external_body]
pub(crate) fn pairing_product_check(
    p: [&G1Point; 4],
    q: [&G2Point; 4],
) -> (r: bool)
    requires
        forall|i: int| 0 <= i < 4 ==> (#[trigger] p[i]).wf(),
        forall|i: int| 0 <= i < 4 ==> (#[trigger] q[i]).wf(),
    ensures
        r == pairing_product_is_one(Seq::new(4, |i: int| (p[i]@, q[i]@))),
{
    let g1 = p.map(|a| G1Affine::from_uncompressed_unchecked(a.encoding.as_slice().try_into().unwrap()).unwrap());
    let g2 = q.map(|b| G2Affine::from_uncompressed_unchecked(b.encoding.as_slice().try_into().unwrap()).unwrap());
    let prepared = g2.map(G2Prepared::from);
    let terms: Vec<(&G1Affine, &G2Prepared)> = g1.iter().zip(prepared.iter()).collect();
    multi_miller_loop(&terms).final_exponentiation() == Gt::identity()
}

/// A number below the base modulus has its three highest bits clear in 48 bytes.
pub proof fn lemma_coordinate_top_byte(s: Seq<u8>)
    requires
        s.len() == 48,
        be_value(s) < base_modulus(),
    ensures
        s[0] < 0x20,
{
    let tail = s.skip(1);
    assert(s =~= seq![s[0]] + tail);
    lemma_be_value_concat(seq![s[0]], tail);
    lemma_be_value_single(s[0]);
    assert(pow256(47) == 0x1_0000000000_0000000000_0000000000_0000000000_0000000000_0000000000_0000000000_0000000000_0000000000_0000_nat)
        by {
        reveal_with_fuel(pow256, 48);
    }
    let p = pow256(47) as int;
    let b = s[0] as int;
    if b >= 0x20 {
        assert(b * p >= 0x20 * p) by (nonlinear_arith)
            requires
                b >= 0x20,
                p >= 0,
        ;
    }
}

/// A point of the first curve has one canonical encoding only.
pub proof fn lemma_g1_encoding_unique(a: Seq<u8>, b: Seq<u8>)
    requires
        g1_canonical(a),
        g1_canonical(b),
        g1_decoded(a) == g1_decoded(b),
    ensures
        a == b,
{
    if a[0] != 0x40 {
        lemma_be_value_injective(a.subrange(0, 48), b.subrange(0, 48));
        lemma_be_value_injective(a.subrange(48, 96), b.subrange(48, 96));
        assert(a =~= a.subrange(0, 48) + a.subrange(48, 96));
        assert(b =~= b.subrange(0, 48) + b.subrange(48, 96));
    } else {
        assert(a =~= b);
    }
}

/// A point of the second curve has one canonical encoding only.
pub proof fn lemma_g2_encoding_unique(a: Seq<u8>, b: Seq<u8>)
    requires
        g2_canonical(a),
        g2_canonical(b),
        g2_decoded(a) == g2_decoded(b),
    ensures
        a == b,
{
    if a[0] != 0x40 {
        lemma_be_value_injective(a.subrange(0, 48), b.subrange(0, 48));
        lemma_be_value_injective(a.subrange(48, 96), b.subrange(48, 96));
        lemma_be_value_injective(a.subrange(96, 144), b.subrange(96, 144));
        lemma_be_value_injective(a.subrange(144, 192), b.subrange(144, 192));
        assert(a =~= a.subrange(0, 48) + a.subrange(48, 96) + a.subrange(96, 144) + a.subrange(
            144,
            192,
        ));
        assert(b =~= b.subrange(0, 48) + b.subrange(48, 96) + b.subrange(96, 144) + b.subrange(
            144,
            192,
        ));
    } else {
        assert(a =~= b);
    }
}

} // verus!
