//! The Groth16 verification equation.

use vstd::prelude::*;
use crate::bignum::copy_bytes;
use crate::curve::{
    g1_add, g1_mul, g1_negation, g1_scaled, g1_sum, g2_negation, pairing_product_check,
    pairing_product_is_one, G1Point, G1, G2,
};
use crate::error::VerificationError;
use crate::field::{Field, FieldElement};
use crate::key::{g1_views, verifying_key_spec, PreparedVerifyingKey, VerifyingKey, VerifyingKeyView};
use crate::wire::{decode_public_signal, public_signal_spec, texts, values};
use crate::zkproof::{proof_spec, Proof, ProofView};

verus! {

/// The point `ic[0] + signal[0] * ic[1] + ... + signal[n - 1] * ic[n]`.
pub open spec fn accumulated_inputs(ic: Seq<G1>, signal: Seq<nat>, n: nat) -> G1
    decreases n,
{
    if n == 0 {
        ic[0]
    } else {
        g1_sum(
            accumulated_inputs(ic, signal, (n - 1) as nat),
            g1_scaled(ic[n as int], signal[n - 1]),
        )
    }
}

/// Whether the pairing equation holds:
/// `e(pi_a, pi_b) = e(alpha1, beta2) * e(vk_x, gamma2) * e(pi_c, delta2)`,
/// where `vk_x` accumulates the public inputs. It is tested as one product
/// with three of the factors inverted.
pub open spec fn equation_holds(key: VerifyingKeyView, prf: ProofView, signal: Seq<nat>) -> bool {
    pairing_product_is_one(
        seq![
            (prf.pi_a, prf.pi_b),
            (g1_negation(key.alpha1), key.beta2),
            (accumulated_inputs(key.ic, signal, signal.len()), g2_negation(key.gamma2)),
            (prf.pi_c, g2_negation(key.delta2)),
        ],
    )
}

/// What verification gives: a mismatch of lengths is an error, and otherwise
/// the verdict is that of the pairing equation.
pub open spec fn verify_spec(key: VerifyingKeyView, prf: ProofView, signal: Seq<nat>) -> Result<
    bool,
    VerificationError,
> {
    if signal.len() + 1 != key.ic.len() {
        Err(VerificationError::PublicSignalLengthMismatch)
    } else {
        Ok(equation_holds(key, prf, signal))
    }
}

/// The verdict on buffers: what decoding them gives, in the order key,
/// public signal, proof; then the length test; then the equation. Only an
/// equation that holds is a success.
pub open spec fn verify_encoded_spec(
    alpha1: Seq<u8>,
    beta2: Seq<u8>,
    gamma2: Seq<u8>,
    delta2: Seq<u8>,
    ic: Seq<Seq<u8>>,
    public_signal: Seq<u8>,
    pi_a: Seq<u8>,
    pi_b: Seq<u8>,
    pi_c: Seq<u8>,
) -> Result<(), VerificationError> {
    match verifying_key_spec(alpha1, beta2, gamma2, delta2, ic) {
        Err(e) => Err(e),
        Ok(key) => match public_signal_spec(public_signal) {
            Err(e) => Err(e),
            Ok(signal) => match proof_spec(pi_a, pi_b, pi_c) {
                Err(e) => Err(e),
                Ok(prf) => match verify_spec(key, prf, signal) {
                    Err(e) => Err(e),
                    Ok(holds) => if holds {
                        Ok(())
                    } else {
                        Err(VerificationError::VerificationFailed)
                    },
                },
            },
        },
    }
}

/// Accumulates the public inputs into one point of the first group:
/// `ic[0] + signal[0] * ic[1] + ... + signal[n - 1] * ic[n]`. The result is
/// a member of the group, as the points of the key are.
pub fn prepare_inputs(pvk: &PreparedVerifyingKey, public_signal: &Vec<FieldElement>) -> (r: G1Point)
    requires
        pvk.wf(),
        public_signal@.len() + 1 == pvk.key.ic@.len(),
        forall|i: int|
            0 <= i < public_signal@.len() ==> (#[trigger] public_signal@[i]).wf()
                && public_signal@[i].field == Field::Scalar,
    ensures
        r.wf(),
        r@ == accumulated_inputs(pvk@.ic, values(public_signal@), public_signal@.len()),
{
    let n: usize = public_signal.len();
    let ghost ic = g1_views(pvk.key.ic@);
    let ghost signal = values(public_signal@);
    let mut vk_x = G1Point { encoding: copy_bytes(pvk.key.ic[0].encoding.as_slice()) };
    let mut i: usize = 0;
    proof {
        assert(pvk.key.ic@[0].wf());
    }
    while i < n
        invariant
            i <= n,
            n == public_signal@.len(),
            pvk.key.ic@.len() == n + 1,
            pvk.wf(),
            ic == g1_views(pvk.key.ic@),
            signal == values(public_signal@),
            forall|j: int|
                0 <= j < public_signal@.len() ==> (#[trigger] public_signal@[j]).wf()
                    && public_signal@[j].field == Field::Scalar,
            vk_x.wf(),
            vk_x@ == accumulated_inputs(ic, signal, i as nat),
        decreases n - i,
    {
        let scalar = public_signal[i].to_le_bytes();
        proof {
            assert(public_signal@[i as int].wf());
            assert(scalar@.reverse() =~= public_signal@[i as int].bytes@);
            assert(pvk.key.ic@[i + 1].wf());
        }
        let term = g1_mul(&pvk.key.ic[i + 1], &scalar);
        vk_x = g1_add(&vk_x, &term);
        i += 1;
    }
    vk_x
}

/// Verifies a proof against a prepared key and a public signal.
///
/// The length of the signal is tested before any work on the curve. The
/// result is `Ok(true)` exactly when the pairing equation holds.
pub fn verify(pvk: &PreparedVerifyingKey, prf: &Proof, public_signal: &Vec<FieldElement>) -> (r:
    Result<bool, VerificationError>)
    requires
        pvk.wf(),
        prf.wf(),
        forall|i: int|
            0 <= i < public_signal@.len() ==> (#[trigger] public_signal@[i]).wf()
                && public_signal@[i].field == Field::Scalar,
    ensures
        r == verify_spec(pvk@, prf@, values(public_signal@)),
{
    if pvk.key.ic.len() == 0 || pvk.key.ic.len() - 1 != public_signal.len() {
        return Err(VerificationError::PublicSignalLengthMismatch);
    }
    let vk_x = prepare_inputs(pvk, public_signal);
    let holds = pairing_product_check(
        [&prf.pi_a, &pvk.neg_alpha1, &vk_x, &prf.pi_c],
        [&prf.pi_b, &pvk.key.beta2, &pvk.neg_gamma2, &pvk.neg_delta2],
    );
    proof {
        let p = [&prf.pi_a, &pvk.neg_alpha1, &vk_x, &prf.pi_c];
        let q = [&prf.pi_b, &pvk.key.beta2, &pvk.neg_gamma2, &pvk.neg_delta2];
        assert(Seq::new(4, |i: int| (p[i]@, q[i]@)) =~= seq![
            (prf@.pi_a, prf@.pi_b),
            (g1_negation(pvk@.alpha1), pvk@.beta2),
            (
                accumulated_inputs(pvk@.ic, values(public_signal@), public_signal@.len()),
                g2_negation(pvk@.gamma2),
            ),
            (prf@.pi_c, g2_negation(pvk@.delta2)),
        ]);
    }
    Ok(holds)
}

/// Decodes a verifying key, a public signal and a proof from their buffers
/// and verifies the proof.
///
/// Every buffer is decoded, and the length of the signal tested, before any
/// pairing is computed. A proof that does not verify is a
/// `VerificationFailed`.
pub fn verify_encoded(
    alpha1: &[u8],
    beta2: &[u8],
    gamma2: &[u8],
    delta2: &[u8],
    ic: &Vec<Vec<u8>>,
    public_signal: &[u8],
    pi_a: &[u8],
    pi_b: &[u8],
    pi_c: &[u8],
) -> (r: Result<(), VerificationError>)
    ensures
        r == verify_encoded_spec(
            alpha1@,
            beta2@,
            gamma2@,
            delta2@,
            texts(ic@),
            public_signal@,
            pi_a@,
            pi_b@,
            pi_c@,
        ),
{
    let key = match VerifyingKey::decode(alpha1, beta2, gamma2, delta2, ic) {
        Ok(key) => key,
        Err(e) => {
            return Err(e);
        },
    };
    let signal = match decode_public_signal(public_signal) {
        Ok(s) => s,
        Err(e) => {
            return Err(e);
        },
    };
    let prf = match Proof::decode(pi_a, pi_b, pi_c) {
        Ok(p) => p,
        Err(e) => {
            return Err(e);
        },
    };
    let pvk = key.prepare();
    match verify(&pvk, &prf, &signal) {
        Err(e) => Err(e),
        Ok(true) => Ok(()),
        Ok(false) => Err(VerificationError::VerificationFailed),
    }
}

/// A signal whose length is not one less than that of `ic` is a mismatch,
/// whatever the points of the key and of the proof are.
pub proof fn lemma_length_mismatch(key: VerifyingKeyView, prf: ProofView, signal: Seq<nat>)
    requires
        signal.len() != key.ic.len() - 1,
    ensures
        verify_spec(key, prf, signal) == Err::<bool, VerificationError>(
            VerificationError::PublicSignalLengthMismatch,
        ),
{
}

/// Buffers pass only where they decode to a key, a signal and a proof of
/// fitting lengths for which the pairing equation holds.
pub proof fn lemma_pass_means_equation(
    alpha1: Seq<u8>,
    beta2: Seq<u8>,
    gamma2: Seq<u8>,
    delta2: Seq<u8>,
    ic: Seq<Seq<u8>>,
    public_signal: Seq<u8>,
    pi_a: Seq<u8>,
    pi_b: Seq<u8>,
    pi_c: Seq<u8>,
)
    requires
        verify_encoded_spec(alpha1, beta2, gamma2, delta2, ic, public_signal, pi_a, pi_b, pi_c)
            == Ok::<(), VerificationError>(()),
    ensures
        verifying_key_spec(alpha1, beta2, gamma2, delta2, ic) is Ok,
        public_signal_spec(public_signal) is Ok,
        proof_spec(pi_a, pi_b, pi_c) is Ok,
        public_signal_spec(public_signal)->Ok_0.len() + 1 == verifying_key_spec(
            alpha1,
            beta2,
            gamma2,
            delta2,
            ic,
        )->Ok_0.ic.len(),
        equation_holds(
            verifying_key_spec(alpha1, beta2, gamma2, delta2, ic)->Ok_0,
            proof_spec(pi_a, pi_b, pi_c)->Ok_0,
            public_signal_spec(public_signal)->Ok_0,
        ),
{
}

} // verus!
