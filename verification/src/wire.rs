//! The framing of buffers: format 1.
//!
//! A buffer holds decimal numbers separated by single commas (`0x2C`), with
//! nothing before the first number or after the last and no white space. A
//! point of the first group is `x,y`. A point of the second group is
//! `x0,x1,y0,y1`, for the coordinates `x0 + x1 * u` and `y0 + y1 * u`. The
//! point at infinity of either group is written with all coordinates zero.
//! A public signal is the list of its scalars in the order of the inputs; the
//! empty buffer is the signal of a circuit without public inputs.

use vstd::prelude::*;
use crate::bignum::append;
use crate::curve::{g1_valid, g2_valid, G1Point, G2Point, G1, G2};
use crate::error::VerificationError;
use crate::field::{
    decimal_digits, decode_spec, is_decimal, is_digit, lemma_decimal_round_trip, Field,
    FieldElement,
};
use crate::point::{decode_g1_spec, decode_g2_spec, lemma_g1_round_trip, lemma_g2_round_trip};

verus! {

/// The byte that separates the numbers of a buffer.
pub const SEPARATOR: u8 = 0x2c;

/// The fields of a buffer: the runs of bytes between its separators. A
/// buffer with `n` separators has `n + 1` fields, some of which may be empty.
pub open spec fn fields(s: Seq<u8>) -> Seq<Seq<u8>>
    decreases s.len(),
{
    if s.len() == 0 {
        seq![Seq::<u8>::empty()]
    } else {
        let before = fields(s.drop_last());
        if s.last() == SEPARATOR {
            before.push(Seq::<u8>::empty())
        } else {
            before.drop_last().push(before.last().push(s.last()))
        }
    }
}

/// The byte strings that the vectors of `v` hold.
pub open spec fn texts(v: Seq<Vec<u8>>) -> Seq<Seq<u8>> {
    Seq::new(v.len(), |i: int| v[i]@)
}

/// The numbers that the elements of `v` stand for.
pub open spec fn values(v: Seq<FieldElement>) -> Seq<nat> {
    Seq::new(v.len(), |i: int| v[i]@)
}

/// What decoding a buffer as a point of the first group gives.
pub open spec fn g1_component_spec(s: Seq<u8>) -> Result<G1, VerificationError> {
    let f = fields(s);
    if f.len() != 2 {
        Err(VerificationError::EncodingError)
    } else {
        decode_g1_spec(f[0], f[1])
    }
}

/// What decoding a buffer as a point of the second group gives.
pub open spec fn g2_component_spec(s: Seq<u8>) -> Result<G2, VerificationError> {
    let f = fields(s);
    if f.len() != 4 {
        Err(VerificationError::EncodingError)
    } else {
        decode_g2_spec(f[0], f[1], f[2], f[3])
    }
}

/// What decoding each of the texts `f` as a scalar gives: all the numbers,
/// or the error of the first text that fails.
pub open spec fn scalars_spec(f: Seq<Seq<u8>>) -> Result<Seq<nat>, VerificationError>
    decreases f.len(),
{
    if f.len() == 0 {
        Ok(Seq::<nat>::empty())
    } else {
        match scalars_spec(f.drop_last()) {
            Err(e) => Err(e),
            Ok(v) => match decode_spec(f.last(), Field::Scalar) {
                Err(e) => Err(e),
                Ok(x) => Ok(v.push(x)),
            },
        }
    }
}

/// What decoding a buffer as a public signal gives. The empty buffer holds no scalar.
pub open spec fn public_signal_spec(s: Seq<u8>) -> Result<Seq<nat>, VerificationError> {
    if s.len() == 0 {
        Ok(Seq::<nat>::empty())
    } else {
        scalars_spec(fields(s))
    }
}

/// Splits a buffer into its fields.
pub fn split_fields(buffer: &[u8]) -> (r: Vec<Vec<u8>>)
    ensures
        texts(r@) == fields(buffer@),
{
    let mut done: Vec<Vec<u8>> = Vec::new();
    let mut current: Vec<u8> = Vec::new();
    let mut i: usize = 0;
    proof {
        assert(buffer@.take(0) =~= Seq::<u8>::empty());
        assert(texts(done@).push(current@) =~= seq![Seq::<u8>::empty()]);
    }
    while i < buffer.len()
        invariant
            i <= buffer.len(),
            fields(buffer@.take(i as int)) == texts(done@).push(current@),
        decreases buffer.len() - i,
    {
        let ghost before = fields(buffer@.take(i as int));
        let ghost done_before = done@;
        let ghost current_before = current@;
        let byte: u8 = buffer[i];
        proof {
            assert(buffer@.take(i + 1).drop_last() =~= buffer@.take(i as int));
            assert(buffer@.take(i + 1).last() == byte);
        }
        if byte == SEPARATOR {
            done.push(current);
            current = Vec::new();
            proof {
                assert(texts(done@) =~= texts(done_before).push(current_before));
            }
        } else {
            current.push(byte);
            proof {
                assert(before.drop_last() =~= texts(done_before));
                assert(before.last() == current_before);
            }
        }
        i += 1;
    }
    proof {
        assert(buffer@.take(buffer@.len() as int) =~= buffer@);
    }
    let ghost done_before = done@;
    let ghost last = current@;
    done.push(current);
    proof {
        assert(texts(done@) =~= texts(done_before).push(last));
    }
    done
}

impl G1Point {
    /// Decodes a buffer `x,y` as a point of the first group.
    ///
    /// A buffer that does not hold exactly two fields is an `EncodingError`.
    pub fn from_buffer(buffer: &[u8]) -> (r: Result<G1Point, VerificationError>)
        ensures
            match r {
                Ok(p) => p.wf() && g1_component_spec(buffer@) == Ok::<
                    G1,
                    VerificationError,
                >(p@),
                Err(e) => g1_component_spec(buffer@) == Err::<G1, VerificationError>(e),
            },
    {
        let parts = split_fields(buffer);
        if parts.len() != 2 {
            return Err(VerificationError::EncodingError);
        }
        assert(texts(parts@)[0] == parts@[0]@ && texts(parts@)[1] == parts@[1]@);
        G1Point::decode(parts[0].as_slice(), parts[1].as_slice())
    }
}

impl G2Point {
    /// Decodes a buffer `x0,x1,y0,y1` as a point of the second group.
    ///
    /// A buffer that does not hold exactly four fields is an `EncodingError`.
    pub fn from_buffer(buffer: &[u8]) -> (r: Result<G2Point, VerificationError>)
        ensures
            match r {
                Ok(p) => p.wf() && g2_component_spec(buffer@) == Ok::<
                    G2,
                    VerificationError,
                >(p@),
                Err(e) => g2_component_spec(buffer@) == Err::<G2, VerificationError>(e),
            },
    {
        let parts = split_fields(buffer);
        if parts.len() != 4 {
            return Err(VerificationError::EncodingError);
        }
        assert(texts(parts@)[0] == parts@[0]@ && texts(parts@)[1] == parts@[1]@ && texts(
            parts@,
        )[2] == parts@[2]@ && texts(parts@)[3] == parts@[3]@);
        G2Point::decode(
            parts[0].as_slice(),
            parts[1].as_slice(),
            parts[2].as_slice(),
            parts[3].as_slice(),
        )
    }
}

/// Decodes a buffer as a public signal: no scalar for the empty buffer, and
/// otherwise one for each field.
///
/// The first field that is not the decimal text of a number below the scalar
/// modulus decides the error.
pub fn decode_public_signal(buffer: &[u8]) -> (r: Result<Vec<FieldElement>, VerificationError>)
    ensures
        match r {
            Ok(v) => public_signal_spec(buffer@) == Ok::<Seq<nat>, VerificationError>(values(v@))
                && forall|i: int|
                0 <= i < v@.len() ==> (#[trigger] v@[i]).wf() && v@[i].field == Field::Scalar,
            Err(e) => public_signal_spec(buffer@) == Err::<Seq<nat>, VerificationError>(e),
        },
{
    let mut out: Vec<FieldElement> = Vec::new();
    if buffer.len() == 0 {
        assert(values(out@) =~= Seq::<nat>::empty());
        return Ok(out);
    }
    let parts = split_fields(buffer);
    let mut i: usize = 0;
    proof {
        assert(texts(parts@).take(0) =~= Seq::<Seq<u8>>::empty());
        assert(values(out@) =~= Seq::<nat>::empty());
    }
    while i < parts.len()
        invariant
            i <= parts.len(),
            buffer@.len() > 0,
            texts(parts@) == fields(buffer@),
            scalars_spec(texts(parts@).take(i as int)) == Ok::<Seq<nat>, VerificationError>(
                values(out@),
            ),
            forall|j: int|
                0 <= j < out@.len() ==> (#[trigger] out@[j]).wf() && out@[j].field == Field::Scalar,
        decreases parts.len() - i,
    {
        let ghost all = texts(parts@);
        let ghost out_before = out@;
        proof {
            assert(all.take(i + 1).drop_last() =~= all.take(i as int));
            assert(all.take(i + 1).last() == parts@[i as int]@);
        }
        match FieldElement::decode(parts[i].as_slice(), Field::Scalar) {
            Ok(e) => {
                out.push(e);
                proof {
                    assert(values(out@) =~= values(out_before).push(e@));
                }
            },
            Err(e) => {
                proof {
                    lemma_scalars_error_stays(all, i + 1);
                }
                return Err(e);
            },
        }
        i += 1;
    }
    proof {
        assert(texts(parts@).take(parts@.len() as int) =~= texts(parts@));
    }
    Ok(out)
}

/// An error among the first `k` texts is the error of the whole list.
pub proof fn lemma_scalars_error_stays(f: Seq<Seq<u8>>, k: int)
    requires
        0 <= k <= f.len(),
        scalars_spec(f.take(k)) is Err,
    ensures
        scalars_spec(f) == scalars_spec(f.take(k)),
    decreases f.len() - k,
{
    if k == f.len() {
        assert(f.take(k) =~= f);
    } else {
        assert(f.take(k + 1).drop_last() =~= f.take(k));
        lemma_scalars_error_stays(f, k + 1);
    }
}

/// The buffer that holds a point of the first group: `x,y`.
pub open spec fn g1_text(p: G1) -> Seq<u8> {
    decimal_digits(p.x) + seq![SEPARATOR] + decimal_digits(p.y)
}

/// The buffer that holds a point of the second group: `x0,x1,y0,y1`.
pub open spec fn g2_text(p: G2) -> Seq<u8> {
    decimal_digits(p.x0) + seq![SEPARATOR] + decimal_digits(p.x1) + seq![SEPARATOR]
        + decimal_digits(p.y0) + seq![SEPARATOR] + decimal_digits(p.y1)
}

/// Whether the separator occurs nowhere in `s`.
pub open spec fn no_separator(s: Seq<u8>) -> bool {
    forall|i: int| 0 <= i < s.len() ==> s[i] != SEPARATOR
}

/// A buffer without a separator is its own single field.
pub proof fn lemma_fields_single(s: Seq<u8>)
    requires
        no_separator(s),
    ensures
        fields(s) == seq![s],
    decreases s.len(),
{
    if s.len() == 0 {
        assert(s =~= Seq::<u8>::empty());
    } else {
        lemma_fields_single(s.drop_last());
        assert(s.drop_last().push(s.last()) =~= s);
        assert(seq![s.drop_last()].last() == s.drop_last());
        assert(seq![s.drop_last()].drop_last().push(s) =~= seq![s]);
    }
}

/// A separator and a run without separators add one field to a buffer.
pub proof fn lemma_fields_append(a: Seq<u8>, b: Seq<u8>)
    requires
        no_separator(b),
    ensures
        fields(a + seq![SEPARATOR] + b) == fields(a).push(b),
    decreases b.len(),
{
    let whole = a + seq![SEPARATOR] + b;
    if b.len() == 0 {
        assert(whole.drop_last() =~= a);
        assert(b =~= Seq::<u8>::empty());
    } else {
        lemma_fields_append(a, b.drop_last());
        assert(whole.drop_last() =~= a + seq![SEPARATOR] + b.drop_last());
        assert(whole.last() == b.last());
        assert(fields(a).push(b.drop_last()).drop_last() =~= fields(a));
        assert(b.drop_last().push(b.last()) =~= b);
    }
}

/// Decimal text holds no separator.
pub proof fn lemma_digits_hold_no_separator(n: nat)
    ensures
        no_separator(decimal_digits(n)),
{
    lemma_decimal_round_trip(n);
    let s = decimal_digits(n);
    assert forall|i: int| 0 <= i < s.len() implies s[i] != SEPARATOR by {
        assert(is_digit(s[i]));
    }
}

/// Writing a member of the first group into a buffer and decoding the
/// buffer gives the same point, coordinate for coordinate.
pub proof fn lemma_g1_buffer_round_trip(p: G1)
    requires
        g1_valid(p),
    ensures
        g1_component_spec(g1_text(p)) == Ok::<G1, VerificationError>(p),
{
    lemma_digits_hold_no_separator(p.x);
    lemma_digits_hold_no_separator(p.y);
    lemma_fields_single(decimal_digits(p.x));
    lemma_fields_append(decimal_digits(p.x), decimal_digits(p.y));
    lemma_g1_round_trip(p);
}

/// Writing a member of the second group into a buffer and decoding the
/// buffer gives the same point, coordinate for coordinate.
pub proof fn lemma_g2_buffer_round_trip(p: G2)
    requires
        g2_valid(p),
    ensures
        g2_component_spec(g2_text(p)) == Ok::<G2, VerificationError>(p),
{
    let a = decimal_digits(p.x0);
    let b = decimal_digits(p.x1);
    let c = decimal_digits(p.y0);
    let d = decimal_digits(p.y1);
    lemma_digits_hold_no_separator(p.x0);
    lemma_digits_hold_no_separator(p.x1);
    lemma_digits_hold_no_separator(p.y0);
    lemma_digits_hold_no_separator(p.y1);
    lemma_fields_single(a);
    lemma_fields_append(a, b);
    lemma_fields_append(a + seq![SEPARATOR] + b, c);
    lemma_fields_append(a + seq![SEPARATOR] + b + seq![SEPARATOR] + c, d);
    lemma_g2_round_trip(p);
}

impl G1Point {
    /// Writes the point into a buffer `x,y`, in decimal text without
    /// leading zeros. The identity is written `0,0`.
    pub fn to_buffer(&self) -> (r: Vec<u8>)
        requires
            self.is_canonical(),
        ensures
            r@ == g1_text(self@),
    {
        let (x, y) = self.coordinates();
        let mut buffer = x.encode();
        buffer.push(SEPARATOR);
        let text = y.encode();
        append(&mut buffer, &text);
        buffer
    }
}

impl G2Point {
    /// Writes the point into a buffer `x0,x1,y0,y1`, in decimal text
    /// without leading zeros. The identity is written `0,0,0,0`.
    pub fn to_buffer(&self) -> (r: Vec<u8>)
        requires
            self.is_canonical(),
        ensures
            r@ == g2_text(self@),
    {
        let (x0, x1, y0, y1) = self.coordinates();
        let mut buffer = x0.encode();
        buffer.push(SEPARATOR);
        let text = x1.encode();
        append(&mut buffer, &text);
        buffer.push(SEPARATOR);
        let text = y0.encode();
        append(&mut buffer, &text);
        buffer.push(SEPARATOR);
        let text = y1.encode();
        append(&mut buffer, &text);
        buffer
    }
}

/// Whether `s` holds a byte that is neither a digit nor the separator.
pub open spec fn holds_foreign_byte(s: Seq<u8>) -> bool {
    exists|i: int| 0 <= i < s.len() && !is_digit(#[trigger] s[i]) && s[i] != SEPARATOR
}

/// A buffer has at least one field.
pub proof fn lemma_fields_nonempty(s: Seq<u8>)
    ensures
        fields(s).len() >= 1,
    decreases s.len(),
{
    if s.len() > 0 {
        lemma_fields_nonempty(s.drop_last());
    }
}

/// Every byte of a buffer but the separators stands in one of its fields.
pub proof fn lemma_field_holds_byte(s: Seq<u8>, i: int) -> (at: (int, int))
    requires
        0 <= i < s.len(),
        s[i] != SEPARATOR,
    ensures
        0 <= at.0 < fields(s).len(),
        0 <= at.1 < fields(s)[at.0].len(),
        fields(s)[at.0][at.1] == s[i],
    decreases s.len(),
{
    let before = fields(s.drop_last());
    lemma_fields_nonempty(s.drop_last());
    if i == s.len() - 1 {
        (before.len() - 1, before.last().len() as int)
    } else {
        let inner = lemma_field_holds_byte(s.drop_last(), i);
        assert(s.drop_last()[i] == s[i]);
        inner
    }
}

/// A buffer with a byte that is neither a digit nor the separator decodes
/// to no point of the first group.
pub proof fn lemma_foreign_byte_g1(s: Seq<u8>)
    requires
        holds_foreign_byte(s),
    ensures
        g1_component_spec(s) is Err,
{
    let i = choose|i: int| 0 <= i < s.len() && !is_digit(#[trigger] s[i]) && s[i] != SEPARATOR;
    let at = lemma_field_holds_byte(s, i);
    let f = fields(s);
    assert(!is_digit(f[at.0][at.1]));
    assert(!is_decimal(f[at.0]));
}

/// A buffer with a byte that is neither a digit nor the separator decodes
/// to no point of the second group.
pub proof fn lemma_foreign_byte_g2(s: Seq<u8>)
    requires
        holds_foreign_byte(s),
    ensures
        g2_component_spec(s) is Err,
{
    let i = choose|i: int| 0 <= i < s.len() && !is_digit(#[trigger] s[i]) && s[i] != SEPARATOR;
    let at = lemma_field_holds_byte(s, i);
    let f = fields(s);
    assert(!is_digit(f[at.0][at.1]));
    assert(!is_decimal(f[at.0]));
}

/// Turning a byte that is no separator into the separator adds one field.
pub proof fn lemma_separator_adds_field(s: Seq<u8>, i: int)
    requires
        0 <= i < s.len(),
        s[i] != SEPARATOR,
    ensures
        fields(s.update(i, SEPARATOR)).len() == fields(s).len() + 1,
    decreases s.len(),
{
    let changed = s.update(i, SEPARATOR);
    lemma_fields_nonempty(s.drop_last());
    lemma_fields_nonempty(changed.drop_last());
    if i == s.len() - 1 {
        assert(changed.drop_last() =~= s.drop_last());
    } else {
        lemma_separator_adds_field(s.drop_last(), i);
        assert(changed.drop_last() =~= s.drop_last().update(i, SEPARATOR));
        assert(changed.last() == s.last());
    }
}

/// A buffer that decodes to a point of the first group decodes to none once
/// one of its digits is replaced by a byte that is no digit.
pub proof fn lemma_non_digit_in_g1(s: Seq<u8>, i: int, b: u8)
    requires
        g1_component_spec(s) is Ok,
        0 <= i < s.len(),
        is_digit(s[i]),
        !is_digit(b),
    ensures
        g1_component_spec(s.update(i, b)) is Err,
{
    if b == SEPARATOR {
        lemma_separator_adds_field(s, i);
    } else {
        assert(s.update(i, b)[i] == b);
        lemma_foreign_byte_g1(s.update(i, b));
    }
}

/// A buffer that decodes to a point of the second group decodes to none
/// once one of its digits is replaced by a byte that is no digit.
pub proof fn lemma_non_digit_in_g2(s: Seq<u8>, i: int, b: u8)
    requires
        g2_component_spec(s) is Ok,
        0 <= i < s.len(),
        is_digit(s[i]),
        !is_digit(b),
    ensures
        g2_component_spec(s.update(i, b)) is Err,
{
    if b == SEPARATOR {
        lemma_separator_adds_field(s, i);
    } else {
        assert(s.update(i, b)[i] == b);
        lemma_foreign_byte_g2(s.update(i, b));
    }
}

} // verus!
