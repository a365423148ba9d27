//! Prime-field elements and their decimal text form.
//!
//! A field element travels as ASCII decimal digits: no sign, no white space,
//! at least one digit. A number that is not below the field's modulus is
//! rejected, never reduced.

use vstd::prelude::*;
use crate::bignum::{be_value, copy_bytes, div10, is_zero, less_than, mul10_add, pow256, zeros};
use crate::bignum::{lemma_be_value_bound, lemma_be_value_injective, lemma_pow256_positive};
use crate::error::VerificationError;

verus! {

/// The two prime fields of BLS12-381.
#[derive(Clone, Copy, Debug, PartialEq, Eq, Structural)]
pub enum Field {
    /// The field over which the curves are defined, of about 381 bits.
    Base,
    /// The field of scalars, whose size is the order of the groups, of about 255 bits.
    Scalar,
}

/// The modulus of the base field.
pub open spec fn base_modulus() -> nat {
    0x1a0111ea397fe69a4b1ba7b6434bacd764774b84f38512bf6730d2a0f6b0f6241eabfffeb153ffffb9feffffffffaaab_nat
}

/// The modulus of the scalar field.
pub open spec fn scalar_modulus() -> nat {
    0x73eda753299d7d483339d80809a1d80553bda402fffe5bfeffffffff00000001_nat
}

/// The base field's modulus as 48 bytes, most significant first.
pub open spec fn base_modulus_bytes() -> Seq<u8> {
    seq![
            0x1au8, 0x01u8, 0x11u8, 0xeau8, 0x39u8, 0x7fu8, 0xe6u8, 0x9au8,
            0x4bu8, 0x1bu8, 0xa7u8, 0xb6u8, 0x43u8, 0x4bu8, 0xacu8, 0xd7u8,
            0x64u8, 0x77u8, 0x4bu8, 0x84u8, 0xf3u8, 0x85u8, 0x12u8, 0xbfu8,
            0x67u8, 0x30u8, 0xd2u8, 0xa0u8, 0xf6u8, 0xb0u8, 0xf6u8, 0x24u8,
            0x1eu8, 0xabu8, 0xffu8, 0xfeu8, 0xb1u8, 0x53u8, 0xffu8, 0xffu8,
            0xb9u8, 0xfeu8, 0xffu8, 0xffu8, 0xffu8, 0xffu8, 0xaau8, 0xabu8,
    ]
}

/// The scalar field's modulus as 32 bytes, most significant first.
pub open spec fn scalar_modulus_bytes() -> Seq<u8> {
    seq![
            0x73u8, 0xedu8, 0xa7u8, 0x53u8, 0x29u8, 0x9du8, 0x7du8, 0x48u8,
            0x33u8, 0x39u8, 0xd8u8, 0x08u8, 0x09u8, 0xa1u8, 0xd8u8, 0x05u8,
            0x53u8, 0xbdu8, 0xa4u8, 0x02u8, 0xffu8, 0xfeu8, 0x5bu8, 0xfeu8,
            0xffu8, 0xffu8, 0xffu8, 0xffu8, 0x00u8, 0x00u8, 0x00u8, 0x01u8,
    ]
}

impl Field {
    /// The prime that the field counts modulo.
    pub open spec fn modulus(self) -> nat {
        match self {
            Field::Base => base_modulus(),
            Field::Scalar => scalar_modulus(),
        }
    }

    /// The number of bytes that hold an element.
    pub open spec fn width(self) -> nat {
        match self {
            Field::Base => 48,
            Field::Scalar => 32,
        }
    }

    /// The number of bytes that hold an element.
    pub fn byte_width(self) -> (r: usize)
        ensures
            r == self.width(),
    {
        match self {
            Field::Base => 48,
            Field::Scalar => 32,
        }
    }

    /// The modulus as a byte string of the field's width.
    pub fn modulus_bytes(self) -> (r: Vec<u8>)
        ensures
            r@.len() == self.width(),
            be_value(r@) == self.modulus(),
    {
        match self {
            Field::Base => {
                let r = vec![
            0x1au8, 0x01u8, 0x11u8, 0xeau8, 0x39u8, 0x7fu8, 0xe6u8, 0x9au8,
            0x4bu8, 0x1bu8, 0xa7u8, 0xb6u8, 0x43u8, 0x4bu8, 0xacu8, 0xd7u8,
            0x64u8, 0x77u8, 0x4bu8, 0x84u8, 0xf3u8, 0x85u8, 0x12u8, 0xbfu8,
            0x67u8, 0x30u8, 0xd2u8, 0xa0u8, 0xf6u8, 0xb0u8, 0xf6u8, 0x24u8,
            0x1eu8, 0xabu8, 0xffu8, 0xfeu8, 0xb1u8, 0x53u8, 0xffu8, 0xffu8,
            0xb9u8, 0xfeu8, 0xffu8, 0xffu8, 0xffu8, 0xffu8, 0xaau8, 0xabu8,
                ];
                proof {
                    assert(r@ =~= base_modulus_bytes());
                    lemma_base_modulus_bytes();
                }
                r
            },
            Field::Scalar => {
                let r = vec![
            0x73u8, 0xedu8, 0xa7u8, 0x53u8, 0x29u8, 0x9du8, 0x7du8, 0x48u8,
            0x33u8, 0x39u8, 0xd8u8, 0x08u8, 0x09u8, 0xa1u8, 0xd8u8, 0x05u8,
            0x53u8, 0xbdu8, 0xa4u8, 0x02u8, 0xffu8, 0xfeu8, 0x5bu8, 0xfeu8,
            0xffu8, 0xffu8, 0xffu8, 0xffu8, 0x00u8, 0x00u8, 0x00u8, 0x01u8,
                ];
                proof {
                    assert(r@ =~= scalar_modulus_bytes());
                    lemma_scalar_modulus_bytes();
                }
                r
            },
        }
    }
}

/// The 48 bytes of the base modulus spell the base modulus.
pub proof fn lemma_base_modulus_bytes()
    ensures
        base_modulus_bytes().len() == 48,
        be_value(base_modulus_bytes()) == base_modulus(),
{
    reveal_with_fuel(be_value, 50);
}

/// The 32 bytes of the scalar modulus spell the scalar modulus.
pub proof fn lemma_scalar_modulus_bytes()
    ensures
        scalar_modulus_bytes().len() == 32,
        be_value(scalar_modulus_bytes()) == scalar_modulus(),
{
    reveal_with_fuel(be_value, 34);
}

/// Whether `b` is an ASCII decimal digit.
pub open spec fn is_digit(b: u8) -> bool {
    0x30 <= b <= 0x39
}

/// Whether `s` is decimal text: one digit or more, and nothing else.
pub open spec fn is_decimal(s: Seq<u8>) -> bool {
    s.len() > 0 && forall|i: int| 0 <= i < s.len() ==> is_digit(#[trigger] s[i])
}

/// The number that the decimal text `s` spells.
pub open spec fn decimal_value(s: Seq<u8>) -> nat
    decreases s.len(),
{
    if s.len() == 0 {
        0
    } else {
        decimal_value(s.drop_last()) * 10 + (s.last() - 0x30) as nat
    }
}

/// The decimal text of `n`, without leading zeros.
pub open spec fn decimal_digits(n: nat) -> Seq<u8>
    decreases n,
{
    if n < 10 {
        seq![(0x30 + n) as u8]
    } else {
        decimal_digits(n / 10).push((0x30 + n % 10) as u8)
    }
}

/// What decoding `s` as an element of `field` gives: its number, or the reason for turning it down.
pub open spec fn decode_spec(s: Seq<u8>, field: Field) -> Result<nat, VerificationError> {
    if !is_decimal(s) {
        Err(VerificationError::EncodingError)
    } else if decimal_value(s) >= field.modulus() {
        Err(VerificationError::FieldRangeError)
    } else {
        Ok(decimal_value(s))
    }
}

/// An element of one of the two prime fields, as the canonical number below the modulus.
#[derive(Clone, Debug, PartialEq, Eq)]
pub struct FieldElement {
    /// The field that the element belongs to.
    pub field: Field,
    /// The number, most significant byte first, in the field's width.
    pub bytes: Vec<u8>,
}

impl View for FieldElement {
    type V = nat;

    open spec fn view(&self) -> nat {
        be_value(self.bytes@)
    }
}

/// A prefix of decimal text spells no more than the whole.
pub proof fn lemma_decimal_value_prefix(s: Seq<u8>, k: int)
    requires
        0 <= k <= s.len(),
        forall|i: int| 0 <= i < s.len() ==> is_digit(#[trigger] s[i]),
    ensures
        decimal_value(s.take(k)) <= decimal_value(s),
    decreases s.len() - k,
{
    if k == s.len() {
        assert(s.take(k) =~= s);
    } else {
        lemma_decimal_value_prefix(s, k + 1);
        assert(s.take(k + 1).drop_last() =~= s.take(k));
        assert(is_digit(s[k]));
    }
}

/// The decimal text of a number is decimal text, and spells that number.
pub proof fn lemma_decimal_round_trip(n: nat)
    ensures
        is_decimal(decimal_digits(n)),
        decimal_value(decimal_digits(n)) == n,
    decreases n,
{
    if n < 10 {
        let s = decimal_digits(n);
        assert(s.drop_last() =~= Seq::<u8>::empty());
        assert(decimal_value(s.drop_last()) == 0);
    } else {
        lemma_decimal_round_trip(n / 10);
        let t = decimal_digits(n / 10);
        let s = decimal_digits(n);
        assert(s.drop_last() =~= t);
        assert forall|i: int| 0 <= i < s.len() implies is_digit(#[trigger] s[i]) by {
            if i < t.len() {
                assert(s[i] == t[i]);
            }
        }
    }
}

/// Decoding the decimal text of a number below the modulus gives that number back.
pub proof fn lemma_encode_then_decode(n: nat, field: Field)
    requires
        n < field.modulus(),
    ensures
        decode_spec(decimal_digits(n), field) == Ok::<nat, VerificationError>(n),
{
    lemma_decimal_round_trip(n);
}

/// Two elements of one field that stand for one number are the same bytes:
/// an element has one form only.
pub proof fn lemma_element_unique(a: FieldElement, b: FieldElement)
    requires
        a.wf(),
        b.wf(),
        a.field == b.field,
        a@ == b@,
    ensures
        a.bytes@ == b.bytes@,
{
    lemma_be_value_injective(a.bytes@, b.bytes@);
}

impl FieldElement {
    /// The element is the canonical form of a member of its field.
    pub open spec fn wf(&self) -> bool {
        self.bytes@.len() == self.field.width() && be_value(self.bytes@) < self.field.modulus()
    }

    /// Decodes decimal text into an element of `field`.
    ///
    /// Text that is empty or holds anything but digits is an `EncodingError`;
    /// a number that is not below the modulus is a `FieldRangeError`. Leading
    /// zeros are read as digits.
    pub fn decode(text: &[u8], field: Field) -> (r: Result<FieldElement, VerificationError>)
        ensures
            match r {
                Ok(e) => e.wf() && e.field == field && decode_spec(text@, field) == Ok::<
                    nat,
                    VerificationError,
                >(e@),
                Err(err) => decode_spec(text@, field) == Err::<nat, VerificationError>(err),
            },
    {
        if text.len() == 0 {
            return Err(VerificationError::EncodingError);
        }
        let mut i: usize = 0;
        while i < text.len()
            invariant
                i <= text.len(),
                forall|j: int| 0 <= j < i ==> is_digit(#[trigger] text@[j]),
            decreases text.len() - i,
        {
            if text[i] < 0x30 || text[i] > 0x39 {
                assert(!is_digit(text@[i as int]));
                return Err(VerificationError::EncodingError);
            }
            i += 1;
        }
        assert(is_decimal(text@));
        let modulus = field.modulus_bytes();
        let mut acc = zeros(field.byte_width());
        proof {
            lemma_be_value_bound(modulus@);
            assert(text@.take(0) =~= Seq::<u8>::empty());
        }
        let mut k: usize = 0;
        while k < text.len()
            invariant
                k <= text.len(),
                is_decimal(text@),
                acc@.len() == field.width(),
                be_value(acc@) == decimal_value(text@.take(k as int)),
                field.modulus() < pow256(field.width()),
            decreases text.len() - k,
        {
            assert(is_digit(text@[k as int]));
            let digit: u8 = text[k] - 0x30;
            let carry: u8 = mul10_add(&mut acc, digit);
            proof {
                assert(text@.take(k + 1).drop_last() =~= text@.take(k as int));
                let unit = pow256(field.width()) as int;
                if carry != 0 {
                    lemma_pow256_positive(field.width());
                    assert(carry * unit >= unit) by (nonlinear_arith)
                        requires
                            carry >= 1,
                            unit >= 1,
                    ;
                    lemma_decimal_value_prefix(text@, k + 1);
                } else {
                    assert(carry * unit == 0);
                }
            }
            if carry != 0 {
                return Err(VerificationError::FieldRangeError);
            }
            k += 1;
        }
        assert(text@.take(text@.len() as int) =~= text@);
        if less_than(&acc, &modulus) {
            Ok(FieldElement { field, bytes: acc })
        } else {
            Err(VerificationError::FieldRangeError)
        }
    }

    /// The decimal text of the element, without leading zeros.
    pub fn encode(&self) -> (r: Vec<u8>)
        ensures
            r@ == decimal_digits(self@),
    {
        let mut acc = copy_bytes(self.bytes.as_slice());
        let ghost n = self@;
        let first: u8 = div10(&mut acc);
        let mut low_first: Vec<u8> = Vec::new();
        low_first.push(0x30 + first);
        proof {
            assert(low_first@.reverse() =~= seq![(0x30 + first) as u8]);
            assert(first as nat == n % 10 && be_value(acc@) == n / 10) by (nonlinear_arith)
                requires
                    n == be_value(acc@) * 10 + first,
                    first <= 9,
            ;
            if be_value(acc@) > 0 {
                assert(decimal_digits(be_value(acc@)) + low_first@.reverse() =~= decimal_digits(n));
            }
        }
        while !is_zero(&acc)
            invariant
                low_first@.len() >= 1,
                be_value(acc@) > 0 ==> decimal_digits(n) == decimal_digits(be_value(acc@))
                    + low_first@.reverse(),
                be_value(acc@) == 0 ==> decimal_digits(n) == low_first@.reverse(),
            decreases be_value(acc@),
        {
            let ghost cur = be_value(acc@);
            let ghost before = low_first@;
            let d: u8 = div10(&mut acc);
            low_first.push(0x30 + d);
            proof {
                let next = be_value(acc@);
                assert(d as nat == cur % 10 && next == cur / 10) by (nonlinear_arith)
                    requires
                        cur == next * 10 + d,
                        d <= 9,
                ;
                let digit = (0x30 + d) as u8;
                assert(low_first@.reverse() =~= seq![digit] + before.reverse());
                if next > 0 {
                    assert(decimal_digits(cur) == decimal_digits(next).push(digit));
                    assert(decimal_digits(next).push(digit) + before.reverse() =~= decimal_digits(
                        next,
                    ) + (seq![digit] + before.reverse()));
                } else {
                    assert(decimal_digits(cur) =~= seq![digit]);
                }
            }
        }
        let ghost collected = low_first@;
        let mut out: Vec<u8> = Vec::new();
        let mut j: usize = low_first.len();
        while j > 0
            invariant
                j <= low_first@.len(),
                low_first@ == collected,
                out@.len() == collected.len() - j,
                forall|t: int| 0 <= t < out@.len() ==> out@[t] == collected[collected.len() - 1 - t],
            decreases j,
        {
            j -= 1;
            out.push(low_first[j]);
        }
        assert(out@ =~= collected.reverse());
        out
    }

    /// The bytes of the element in the opposite order, least significant first.
    pub fn to_le_bytes(&self) -> (r: Vec<u8>)
        ensures
            r@ == self.bytes@.reverse(),
    {
        let mut r: Vec<u8> = Vec::new();
        let mut j: usize = self.bytes.len();
        while j > 0
            invariant
                j <= self.bytes@.len(),
                r@.len() == self.bytes@.len() - j,
                forall|t: int| 0 <= t < r@.len() ==> r@[t] == self.bytes@[self.bytes@.len() - 1 - t],
            decreases j,
        {
            j -= 1;
            r.push(self.bytes[j]);
        }
        assert(r@ =~= self.bytes@.reverse());
        r
    }

    /// Whether the element is the zero of its field.
    pub fn is_zero(&self) -> (r: bool)
        ensures
            r == (self@ == 0),
    {
        is_zero(&self.bytes)
    }
}

} // verus!
