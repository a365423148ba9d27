//! Groth16 proofs.

use vstd::prelude::*;
use crate::curve::{G1Point, G2Point, G1, G2};
use crate::error::VerificationError;
use crate::field::is_digit;
use crate::wire::{
    g1_component_spec, g2_component_spec, holds_foreign_byte, lemma_foreign_byte_g1,
    lemma_foreign_byte_g2, lemma_non_digit_in_g1, lemma_non_digit_in_g2,
};

verus! {

/// A Groth16 proof.
#[derive(Clone, Debug, PartialEq, Eq)]
pub struct Proof {
    pub pi_a: G1Point,
    pub pi_b: G2Point,
    pub pi_c: G1Point,
}

/// What a proof stands for.
pub ghost struct ProofView {
    pub pi_a: G1,
    pub pi_b: G2,
    pub pi_c: G1,
}

impl View for Proof {
    type V = ProofView;

    open spec fn view(&self) -> ProofView {
        ProofView { pi_a: self.pi_a@, pi_b: self.pi_b@, pi_c: self.pi_c@ }
    }
}

/// What decoding the buffers of a proof gives.
pub open spec fn proof_spec(pi_a: Seq<u8>, pi_b: Seq<u8>, pi_c: Seq<u8>) -> Result<
    ProofView,
    VerificationError,
> {
    match g1_component_spec(pi_a) {
        Err(e) => Err(e),
        Ok(a) => match g2_component_spec(pi_b) {
            Err(e) => Err(e),
            Ok(b) => match g1_component_spec(pi_c) {
                Err(e) => Err(e),
                Ok(c) => Ok(ProofView { pi_a: a, pi_b: b, pi_c: c }),
            },
        },
    }
}

impl Proof {
    /// Every point of the proof is a member of its group.
    pub open spec fn wf(&self) -> bool {
        self.pi_a.wf() && self.pi_b.wf() && self.pi_c.wf()
    }

    /// Decodes a proof from its buffers, in the order `pi_a`, `pi_b`, `pi_c`.
    /// The first buffer that fails decides the error.
    pub fn decode(pi_a: &[u8], pi_b: &[u8], pi_c: &[u8]) -> (r: Result<Proof, VerificationError>)
        ensures
            match r {
                Ok(p) => p.wf() && proof_spec(pi_a@, pi_b@, pi_c@) == Ok::<
                    ProofView,
                    VerificationError,
                >(p@),
                Err(e) => proof_spec(pi_a@, pi_b@, pi_c@) == Err::<ProofView, VerificationError>(e),
            },
    {
        let a = match G1Point::from_buffer(pi_a) {
            Ok(p) => p,
            Err(e) => {
                return Err(e);
            },
        };
        let b = match G2Point::from_buffer(pi_b) {
            Ok(p) => p,
            Err(e) => {
                return Err(e);
            },
        };
        let c = match G1Point::from_buffer(pi_c) {
            Ok(p) => p,
            Err(e) => {
                return Err(e);
            },
        };
        Ok(Proof { pi_a: a, pi_b: b, pi_c: c })
    }
}

/// Buffers of which one holds a byte that is neither a digit nor the
/// separator decode to no proof.
pub proof fn lemma_foreign_byte_in_proof(pi_a: Seq<u8>, pi_b: Seq<u8>, pi_c: Seq<u8>)
    requires
        holds_foreign_byte(pi_a) || holds_foreign_byte(pi_b) || holds_foreign_byte(pi_c),
    ensures
        proof_spec(pi_a, pi_b, pi_c) is Err,
{
    if holds_foreign_byte(pi_a) {
        lemma_foreign_byte_g1(pi_a);
    }
    if holds_foreign_byte(pi_b) {
        lemma_foreign_byte_g2(pi_b);
    }
    if holds_foreign_byte(pi_c) {
        lemma_foreign_byte_g1(pi_c);
    }
}

/// Buffers that decode to a proof decode to none once a digit of one of
/// them is replaced by a byte that is no digit.
pub proof fn lemma_non_digit_in_proof(pi_a: Seq<u8>, pi_b: Seq<u8>, pi_c: Seq<u8>, i: int, b: u8)
    requires
        proof_spec(pi_a, pi_b, pi_c) is Ok,
        !is_digit(b),
    ensures
        0 <= i < pi_a.len() && is_digit(pi_a[i]) ==> proof_spec(pi_a.update(i, b), pi_b, pi_c) is Err,
        0 <= i < pi_b.len() && is_digit(pi_b[i]) ==> proof_spec(pi_a, pi_b.update(i, b), pi_c) is Err,
        0 <= i < pi_c.len() && is_digit(pi_c[i]) ==> proof_spec(pi_a, pi_b, pi_c.update(i, b)) is Err,
{
    if 0 <= i < pi_a.len() && is_digit(pi_a[i]) {
        lemma_non_digit_in_g1(pi_a, i, b);
    }
    if 0 <= i < pi_b.len() && is_digit(pi_b[i]) {
        lemma_non_digit_in_g2(pi_b, i, b);
    }
    if 0 <= i < pi_c.len() && is_digit(pi_c[i]) {
        lemma_non_digit_in_g1(pi_c, i, b);
    }
}

} // verus!
