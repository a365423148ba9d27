//! Decoding of curve points from the decimal text of their coordinates.
//!
//! Coordinates that are all zero stand for the point at infinity, which lies
//! on neither curve equation and is accepted without testing it. Any other
//! coordinates must satisfy the curve equation and lie in the subgroup of
//! prime order.

use vstd::prelude::*;
use crate::bignum::{append, be_value, copy_bytes, zeros};
use crate::curve::{
    g1_identity, g1_is_on_curve, g1_is_torsion_free, g1_on_curve, g1_torsion_free, g1_valid,
    g2_identity, g2_is_on_curve, g2_is_torsion_free, g2_on_curve, g2_torsion_free, g2_valid,
    is_identity_encoding, lemma_coordinate_top_byte, G1Point, G2Point, G1, G2,
};
use crate::error::VerificationError;
use crate::field::{base_modulus, decode_spec, Field, FieldElement};
use crate::field::{decimal_digits, lemma_encode_then_decode};

verus! {

/// The point of the first group that the numbers `x` and `y` stand for, if any.
pub open spec fn g1_from_coordinates(x: nat, y: nat) -> Result<G1, VerificationError> {
    let p = G1 { x, y, infinity: false };
    if x == 0 && y == 0 {
        Ok(g1_identity())
    } else if g1_on_curve(p) && g1_torsion_free(p) {
        Ok(p)
    } else {
        Err(VerificationError::InvalidPointError)
    }
}

/// The point of the second group that the four numbers stand for, if any.
pub open spec fn g2_from_coordinates(x0: nat, x1: nat, y0: nat, y1: nat) -> Result<
    G2,
    VerificationError,
> {
    let p = G2 { x0, x1, y0, y1, infinity: false };
    if x0 == 0 && x1 == 0 && y0 == 0 && y1 == 0 {
        Ok(g2_identity())
    } else if g2_on_curve(p) && g2_torsion_free(p) {
        Ok(p)
    } else {
        Err(VerificationError::InvalidPointError)
    }
}

/// What decoding the texts `x` and `y` gives: the first coordinate that fails
/// to decode decides the error; then the point is tested.
pub open spec fn decode_g1_spec(x: Seq<u8>, y: Seq<u8>) -> Result<G1, VerificationError> {
    match decode_spec(x, Field::Base) {
        Err(e) => Err(e),
        Ok(xv) => match decode_spec(y, Field::Base) {
            Err(e) => Err(e),
            Ok(yv) => g1_from_coordinates(xv, yv),
        },
    }
}

/// What decoding the four texts gives: the first coordinate that fails to
/// decode, in the order `x0`, `x1`, `y0`, `y1`, decides the error; then the
/// point is tested.
pub open spec fn decode_g2_spec(x0: Seq<u8>, x1: Seq<u8>, y0: Seq<u8>, y1: Seq<u8>) -> Result<
    G2,
    VerificationError,
> {
    match decode_spec(x0, Field::Base) {
        Err(e) => Err(e),
        Ok(a) => match decode_spec(x1, Field::Base) {
            Err(e) => Err(e),
            Ok(b) => match decode_spec(y0, Field::Base) {
                Err(e) => Err(e),
                Ok(c) => match decode_spec(y1, Field::Base) {
                    Err(e) => Err(e),
                    Ok(d) => g2_from_coordinates(a, b, c, d),
                },
            },
        },
    }
}

/// The encoding of the point at infinity in `len` bytes.
fn identity_encoding(len: usize) -> (r: Vec<u8>)
    requires
        len > 0,
    ensures
        r@.len() == len,
        is_identity_encoding(r@),
{
    let mut r: Vec<u8> = Vec::new();
    r.push(0x40u8);
    let mut i: usize = 1;
    while i < len
        invariant
            1 <= i <= len,
            r@.len() == i,
            r@[0] == 0x40,
            forall|j: int| 1 <= j < i ==> r@[j] == 0,
        decreases len - i,
    {
        r.push(0u8);
        i += 1;
    }
    r
}

/// The coordinate that stands in the 48 bytes of `encoding` from `at` on.
fn coordinate_at(encoding: &Vec<u8>, at: usize) -> (r: FieldElement)
    requires
        at + 48 <= encoding@.len(),
        encoding@[0] != 0x40,
        be_value(encoding@.subrange(at as int, at + 48)) < base_modulus(),
    ensures
        r.wf(),
        r.field == Field::Base,
        r@ == be_value(encoding@.subrange(at as int, at + 48)),
{
    let mut bytes: Vec<u8> = Vec::new();
    let mut i: usize = 0;
    while i < 48
        invariant
            i <= 48,
            at + 48 <= encoding.len(),
            bytes@ == encoding@.subrange(at as int, at + i),
        decreases 48 - i,
    {
        bytes.push(encoding[at + i]);
        assert(encoding@.subrange(at as int, at + i + 1) =~= encoding@.subrange(
            at as int,
            at + i,
        ).push(encoding@[at + i]));
        i += 1;
    }
    FieldElement { field: Field::Base, bytes }
}

/// The zero of the base field.
fn base_zero() -> (r: FieldElement)
    ensures
        r.wf(),
        r.field == Field::Base,
        r@ == 0,
{
    FieldElement { field: Field::Base, bytes: zeros(48) }
}

impl G1Point {
    /// The identity of the first group.
    pub fn identity() -> (r: G1Point)
        ensures
            r.wf(),
            r@ == g1_identity(),
    {
        G1Point { encoding: identity_encoding(96) }
    }

    /// The point with the given affine coordinates, which need not lie on the curve.
    pub fn from_coordinates(x: &FieldElement, y: &FieldElement) -> (r: G1Point)
        requires
            x.wf(),
            y.wf(),
            x.field == Field::Base,
            y.field == Field::Base,
        ensures
            r.is_canonical(),
            r@ == (G1 { x: x@, y: y@, infinity: false }),
    {
        let mut encoding = copy_bytes(x.bytes.as_slice());
        append(&mut encoding, &y.bytes);
        proof {
            assert(encoding@.subrange(0, 48) =~= x.bytes@);
            assert(encoding@.subrange(48, 96) =~= y.bytes@);
            lemma_coordinate_top_byte(x.bytes@);
        }
        G1Point { encoding }
    }

    /// The affine coordinates of the point; those of the identity are both zero.
    pub fn coordinates(&self) -> (r: (FieldElement, FieldElement))
        requires
            self.is_canonical(),
        ensures
            r.0.wf(),
            r.1.wf(),
            r.0.field == Field::Base,
            r.1.field == Field::Base,
            r.0@ == self@.x,
            r.1@ == self@.y,
    {
        if self.encoding[0] == 0x40 {
            (base_zero(), base_zero())
        } else {
            (coordinate_at(&self.encoding, 0), coordinate_at(&self.encoding, 48))
        }
    }

    /// Decodes a point of the first group from the decimal texts of its
    /// coordinates.
    ///
    /// Two zeros give the identity. Any other pair must satisfy the curve
    /// equation and lie in the subgroup of prime order, or the result is an
    /// `InvalidPointError`.
    pub fn decode(x: &[u8], y: &[u8]) -> (r: Result<G1Point, VerificationError>)
        ensures
            match r {
                Ok(p) => p.wf() && decode_g1_spec(x@, y@) == Ok::<
                    G1,
                    VerificationError,
                >(p@),
                Err(e) => decode_g1_spec(x@, y@) == Err::<G1, VerificationError>(e),
            },
    {
        let xe = match FieldElement::decode(x, Field::Base) {
            Ok(e) => e,
            Err(e) => {
                return Err(e);
            },
        };
        let ye = match FieldElement::decode(y, Field::Base) {
            Ok(e) => e,
            Err(e) => {
                return Err(e);
            },
        };
        if xe.is_zero() && ye.is_zero() {
            return Ok(G1Point::identity());
        }
        let point = G1Point::from_coordinates(&xe, &ye);
        if g1_is_on_curve(&point) && g1_is_torsion_free(&point) {
            Ok(point)
        } else {
            Err(VerificationError::InvalidPointError)
        }
    }
}

impl G2Point {
    /// The identity of the second group.
    pub fn identity() -> (r: G2Point)
        ensures
            r.wf(),
            r@ == g2_identity(),
    {
        G2Point { encoding: identity_encoding(192) }
    }

    /// The point with the given affine coordinates `x0 + x1 * u` and
    /// `y0 + y1 * u`, which need not lie on the curve.
    pub fn from_coordinates(
        x0: &FieldElement,
        x1: &FieldElement,
        y0: &FieldElement,
        y1: &FieldElement,
    ) -> (r: G2Point)
        requires
            x0.wf() && x0.field == Field::Base,
            x1.wf() && x1.field == Field::Base,
            y0.wf() && y0.field == Field::Base,
            y1.wf() && y1.field == Field::Base,
        ensures
            r.is_canonical(),
            r@ == (G2 { x0: x0@, x1: x1@, y0: y0@, y1: y1@, infinity: false }),
    {
        let mut encoding = copy_bytes(x1.bytes.as_slice());
        append(&mut encoding, &x0.bytes);
        append(&mut encoding, &y1.bytes);
        append(&mut encoding, &y0.bytes);
        proof {
            assert(encoding@.subrange(0, 48) =~= x1.bytes@);
            assert(encoding@.subrange(48, 96) =~= x0.bytes@);
            assert(encoding@.subrange(96, 144) =~= y1.bytes@);
            assert(encoding@.subrange(144, 192) =~= y0.bytes@);
            lemma_coordinate_top_byte(x1.bytes@);
        }
        G2Point { encoding }
    }

    /// The affine coordinates of the point in the order `x0`, `x1`, `y0`,
    /// `y1`; those of the identity are all zero.
    pub fn coordinates(&self) -> (r: (FieldElement, FieldElement, FieldElement, FieldElement))
        requires
            self.is_canonical(),
        ensures
            r.0.wf() && r.0.field == Field::Base && r.0@ == self@.x0,
            r.1.wf() && r.1.field == Field::Base && r.1@ == self@.x1,
            r.2.wf() && r.2.field == Field::Base && r.2@ == self@.y0,
            r.3.wf() && r.3.field == Field::Base && r.3@ == self@.y1,
    {
        if self.encoding[0] == 0x40 {
            (base_zero(), base_zero(), base_zero(), base_zero())
        } else {
            (
                coordinate_at(&self.encoding, 48),
                coordinate_at(&self.encoding, 0),
                coordinate_at(&self.encoding, 144),
                coordinate_at(&self.encoding, 96),
            )
        }
    }

    /// Decodes a point of the second group from the decimal texts of its
    /// coordinates `x0 + x1 * u` and `y0 + y1 * u`.
    ///
    /// Four zeros give the identity. Any other coordinates must satisfy the
    /// curve equation and, beyond that, lie in the subgroup of prime order,
    /// or the result is an `InvalidPointError`.
    pub fn decode(x0: &[u8], x1: &[u8], y0: &[u8], y1: &[u8]) -> (r: Result<
        G2Point,
        VerificationError,
    >)
        ensures
            match r {
                Ok(p) => p.wf() && decode_g2_spec(x0@, x1@, y0@, y1@) == Ok::<
                    G2,
                    VerificationError,
                >(p@),
                Err(e) => decode_g2_spec(x0@, x1@, y0@, y1@) == Err::<G2, VerificationError>(e),
            },
    {
        let a = match FieldElement::decode(x0, Field::Base) {
            Ok(e) => e,
            Err(e) => {
                return Err(e);
            },
        };
        let b = match FieldElement::decode(x1, Field::Base) {
            Ok(e) => e,
            Err(e) => {
                return Err(e);
            },
        };
        let c = match FieldElement::decode(y0, Field::Base) {
            Ok(e) => e,
            Err(e) => {
                return Err(e);
            },
        };
        let d = match FieldElement::decode(y1, Field::Base) {
            Ok(e) => e,
            Err(e) => {
                return Err(e);
            },
        };
        if a.is_zero() && b.is_zero() && c.is_zero() && d.is_zero() {
            return Ok(G2Point::identity());
        }
        let point = G2Point::from_coordinates(&a, &b, &c, &d);
        if g2_is_on_curve(&point) && g2_is_torsion_free(&point) {
            Ok(point)
        } else {
            Err(VerificationError::InvalidPointError)
        }
    }
}

/// Writing the coordinates of a member of the first group as decimal text and
/// decoding the two texts gives the same point, coordinate for coordinate.
pub proof fn lemma_g1_round_trip(p: G1)
    requires
        g1_valid(p),
    ensures
        decode_g1_spec(decimal_digits(p.x), decimal_digits(p.y)) == Ok::<G1, VerificationError>(p),
{
    lemma_encode_then_decode(p.x, Field::Base);
    lemma_encode_then_decode(p.y, Field::Base);
    if !p.infinity && p.x == 0 && p.y == 0 {
        assert((0nat * 0nat) % base_modulus() == 0);
        assert((0nat * 0nat * 0nat + 4) % base_modulus() == 4);
        assert(false);
    }
}

/// Writing the coordinates of a member of the second group as decimal text
/// and decoding the four texts gives the same point, coordinate for
/// coordinate.
pub proof fn lemma_g2_round_trip(p: G2)
    requires
        g2_valid(p),
    ensures
        decode_g2_spec(
            decimal_digits(p.x0),
            decimal_digits(p.x1),
            decimal_digits(p.y0),
            decimal_digits(p.y1),
        ) == Ok::<G2, VerificationError>(p),
{
    lemma_encode_then_decode(p.x0, Field::Base);
    lemma_encode_then_decode(p.x1, Field::Base);
    lemma_encode_then_decode(p.y0, Field::Base);
    lemma_encode_then_decode(p.y1, Field::Base);
    if !p.infinity && p.x0 == 0 && p.x1 == 0 && p.y0 == 0 && p.y1 == 0 {
        assert((0int - 0int - 4) % (base_modulus() as int) != 0);
        assert(false);
    }
}

/// The texts of zero coordinates decode to the identity, whatever the curve
/// equation and the subgroup test say of the point `(0, 0)`.
pub proof fn lemma_identity_convention(x: Seq<u8>, y: Seq<u8>)
    requires
        decode_spec(x, Field::Base) == Ok::<nat, VerificationError>(0),
        decode_spec(y, Field::Base) == Ok::<nat, VerificationError>(0),
    ensures
        decode_g1_spec(x, y) == Ok::<G1, VerificationError>(g1_identity()),
        decode_g2_spec(x, y, x, y) == Ok::<G2, VerificationError>(g2_identity()),
{
}

/// Coordinates that satisfy the equation of the second curve and fail the
/// subgroup test are turned down.
pub proof fn lemma_g2_outside_subgroup(x0: Seq<u8>, x1: Seq<u8>, y0: Seq<u8>, y1: Seq<u8>, p: G2)
    requires
        decode_spec(x0, Field::Base) == Ok::<nat, VerificationError>(p.x0),
        decode_spec(x1, Field::Base) == Ok::<nat, VerificationError>(p.x1),
        decode_spec(y0, Field::Base) == Ok::<nat, VerificationError>(p.y0),
        decode_spec(y1, Field::Base) == Ok::<nat, VerificationError>(p.y1),
        !p.infinity,
        g2_on_curve(p),
        !g2_torsion_free(p),
    ensures
        decode_g2_spec(x0, x1, y0, y1) == Err::<G2, VerificationError>(
            VerificationError::InvalidPointError,
        ),
{
    if p.x0 == 0 && p.x1 == 0 && p.y0 == 0 && p.y1 == 0 {
        assert((0int - 0int - 4) % (base_modulus() as int) != 0);
        assert(false);
    }
}

} // verus!
