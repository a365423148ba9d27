//! The state that a ledger keeps for the verifier, and the two calls that it
//! offers: one to set the verifying key and the public signal, one to verify
//! a proof against them.
//!
//! The ledger authenticates the caller, persists the state and publishes the
//! events; what is decided here is which call succeeds, with which error it
//! fails, and what is stored and announced.

use vstd::prelude::*;
use crate::bignum::copy_bytes;
use crate::curve::{lemma_g1_encoding_unique, lemma_g2_encoding_unique};
use crate::error::VerificationError;
use crate::field::is_digit;
use crate::groth16::{equation_holds, verify, verify_spec};
use crate::key::{
    lemma_g1_list_length, verifying_key_spec, PreparedVerifyingKey, VerifyingKey,
    VerifyingKeyView,
};
use crate::wire::{decode_public_signal, holds_foreign_byte, public_signal_spec, texts, values};
use crate::zkproof::{lemma_foreign_byte_in_proof, lemma_non_digit_in_proof, proof_spec, Proof};

verus! {

/// The buffers of a verifying key for a circuit with one public input.
#[derive(Clone, Debug, PartialEq, Eq)]
pub struct VkeyStr {
    pub alpha_1: Vec<u8>,
    pub beta_2: Vec<u8>,
    pub gamma_2: Vec<u8>,
    pub delta_2: Vec<u8>,
    pub ic0: Vec<u8>,
    pub ic1: Vec<u8>,
}

/// The buffers of a proof.
#[derive(Clone, Debug, PartialEq, Eq)]
pub struct ProofStr {
    pub pi_a: Vec<u8>,
    pub pi_b: Vec<u8>,
    pub pi_c: Vec<u8>,
}

/// The bytes of the buffers of a verifying key.
pub ghost struct VkeyText {
    pub alpha_1: Seq<u8>,
    pub beta_2: Seq<u8>,
    pub gamma_2: Seq<u8>,
    pub delta_2: Seq<u8>,
    pub ic0: Seq<u8>,
    pub ic1: Seq<u8>,
}

/// The bytes of the buffers of a proof.
pub ghost struct ProofText {
    pub pi_a: Seq<u8>,
    pub pi_b: Seq<u8>,
    pub pi_c: Seq<u8>,
}

impl View for VkeyStr {
    type V = VkeyText;

    open spec fn view(&self) -> VkeyText {
        VkeyText {
            alpha_1: self.alpha_1@,
            beta_2: self.beta_2@,
            gamma_2: self.gamma_2@,
            delta_2: self.delta_2@,
            ic0: self.ic0@,
            ic1: self.ic1@,
        }
    }
}

impl View for ProofStr {
    type V = ProofText;

    open spec fn view(&self) -> ProofText {
        ProofText { pi_a: self.pi_a@, pi_b: self.pi_b@, pi_c: self.pi_c@ }
    }
}

impl VkeyStr {
    /// A copy of the buffers.
    pub fn duplicate(&self) -> (r: VkeyStr)
        ensures
            r@ == self@,
    {
        VkeyStr {
            alpha_1: copy_bytes(self.alpha_1.as_slice()),
            beta_2: copy_bytes(self.beta_2.as_slice()),
            gamma_2: copy_bytes(self.gamma_2.as_slice()),
            delta_2: copy_bytes(self.delta_2.as_slice()),
            ic0: copy_bytes(self.ic0.as_slice()),
            ic1: copy_bytes(self.ic1.as_slice()),
        }
    }

    /// Decodes the key that the buffers hold.
    pub fn decode(&self) -> (r: Result<VerifyingKey, VerificationError>)
        ensures
            match r {
                Ok(key) => key.wf() && vkey_spec(self@) == Ok::<
                    VerifyingKeyView,
                    VerificationError,
                >(key@),
                Err(e) => vkey_spec(self@) == Err::<VerifyingKeyView, VerificationError>(e),
            },
    {
        let mut ic: Vec<Vec<u8>> = Vec::new();
        ic.push(copy_bytes(self.ic0.as_slice()));
        ic.push(copy_bytes(self.ic1.as_slice()));
        proof {
            assert(texts(ic@) =~= seq![self.ic0@, self.ic1@]);
        }
        VerifyingKey::decode(
            self.alpha_1.as_slice(),
            self.beta_2.as_slice(),
            self.gamma_2.as_slice(),
            self.delta_2.as_slice(),
            &ic,
        )
    }
}

/// What decoding the buffers of a stored key gives.
pub open spec fn vkey_spec(v: VkeyText) -> Result<VerifyingKeyView, VerificationError> {
    verifying_key_spec(v.alpha_1, v.beta_2, v.gamma_2, v.delta_2, seq![v.ic0, v.ic1])
}

/// Why a call was turned down.
#[derive(Clone, Copy, Debug, PartialEq, Eq, Structural)]
pub enum Error {
    /// The buffers do not hold a verifying key.
    ErrorVerificationKey,
    /// The buffers do not hold a proof.
    ErrorProof,
    /// The buffer does not hold the one scalar of the public signal.
    ErrorPublicSignal,
    /// There is no verifying key to verify against.
    NoVerificationKey,
    /// There is no public signal to verify against.
    NoPublicSignal,
    /// The stored public signal does not hold scalars.
    ParsePulbicSignalError,
    /// The proof does not verify against the key and the public signal.
    InvalidProof,
}

/// What a call that succeeded announces.
#[derive(Clone, Debug, PartialEq, Eq)]
pub enum Event {
    VerificationKeyStored(VkeyStr),
    PublicSignalStored(Vec<u8>),
    ProofStored(ProofStr),
    VerificationPassed,
}

/// What an event stands for.
pub ghost enum EventView {
    VerificationKeyStored(VkeyText),
    PublicSignalStored(Seq<u8>),
    ProofStored(ProofText),
    VerificationPassed,
}

impl View for Event {
    type V = EventView;

    open spec fn view(&self) -> EventView {
        match self {
            Event::VerificationKeyStored(k) => EventView::VerificationKeyStored(k@),
            Event::PublicSignalStored(s) => EventView::PublicSignalStored(s@),
            Event::ProofStored(p) => EventView::ProofStored(p@),
            Event::VerificationPassed => EventView::VerificationPassed,
        }
    }
}

/// What the events of `v` stand for.
pub open spec fn event_views(v: Seq<Event>) -> Seq<EventView> {
    Seq::new(v.len(), |i: int| v[i]@)
}

/// Whether a buffer holds the public signal of a circuit with one public
/// input: exactly one scalar.
pub open spec fn is_single_scalar(public_signal: Seq<u8>) -> bool {
    match public_signal_spec(public_signal) {
        Ok(signal) => signal.len() == 1,
        Err(_) => false,
    }
}

/// What setting the key and the signal gives: the error, or the two
/// announcements. The signal is judged first, then the key.
pub open spec fn set_zk_keys_spec(public_signal: Seq<u8>, vkey: VkeyText) -> Result<
    Seq<EventView>,
    Error,
> {
    if !is_single_scalar(public_signal) {
        Err(Error::ErrorPublicSignal)
    } else if vkey_spec(vkey) is Err {
        Err(Error::ErrorVerificationKey)
    } else {
        Ok(seq![EventView::PublicSignalStored(public_signal), EventView::VerificationKeyStored(vkey)])
    }
}

/// What verifying the proof in `pof` against a stored key and signal gives:
/// the error, or the two announcements. The proof is decoded first, then the
/// key, then the signal; a signal of the wrong length and an equation that
/// does not hold are both an `InvalidProof`.
pub open spec fn pallet_verify_spec(vkey: VkeyText, public_signal: Seq<u8>, pof: ProofText) -> Result<
    Seq<EventView>,
    Error,
> {
    match proof_spec(pof.pi_a, pof.pi_b, pof.pi_c) {
        Err(_) => Err(Error::ErrorProof),
        Ok(p) => match vkey_spec(vkey) {
            Err(_) => Err(Error::ErrorVerificationKey),
            Ok(key) => match public_signal_spec(public_signal) {
                Err(_) => Err(Error::ParsePulbicSignalError),
                Ok(signal) => if verify_spec(key, p, signal) == Ok::<bool, VerificationError>(true) {
                    Ok(seq![EventView::VerificationPassed, EventView::ProofStored(pof)])
                } else {
                    Err(Error::InvalidProof)
                },
            },
        },
    }
}

/// The verifier's state: the buffers last accepted, and the prepared form of
/// the key that they hold.
#[derive(Clone, Debug, PartialEq, Eq)]
pub struct Pallet {
    pub vkey: VkeyStr,
    pub public_signal: Vec<u8>,
    pub prepared: Option<PreparedVerifyingKey>,
}

impl Pallet {
    /// The prepared key is the one that the stored buffers decode to, and
    /// there is none exactly when they do not decode.
    pub open spec fn wf(&self) -> bool {
        match self.prepared {
            Some(pvk) => pvk.wf() && vkey_spec(self.vkey@) == Ok::<
                VerifyingKeyView,
                VerificationError,
            >(pvk@),
            None => vkey_spec(self.vkey@) is Err,
        }
    }

    /// The state before any key was set: every buffer is empty.
    pub fn new() -> (r: Pallet)
        ensures
            r.wf(),
            r.public_signal@.len() == 0,
            r.vkey@ == (VkeyText {
                alpha_1: Seq::<u8>::empty(),
                beta_2: Seq::<u8>::empty(),
                gamma_2: Seq::<u8>::empty(),
                delta_2: Seq::<u8>::empty(),
                ic0: Seq::<u8>::empty(),
                ic1: Seq::<u8>::empty(),
            }),
            r.prepared is None,
    {
        let vkey = VkeyStr {
            alpha_1: Vec::new(),
            beta_2: Vec::new(),
            gamma_2: Vec::new(),
            delta_2: Vec::new(),
            ic0: Vec::new(),
            ic1: Vec::new(),
        };
        proof {
            assert(crate::wire::fields(Seq::<u8>::empty()).len() == 1);
        }
        Pallet { vkey, public_signal: Vec::new(), prepared: None }
    }

    /// The state that holds the given buffers, as a ledger has persisted
    /// them: the key is prepared where the buffers hold one.
    pub fn restore(vkey: VkeyStr, public_signal: Vec<u8>) -> (r: Pallet)
        ensures
            r.wf(),
            r.vkey == vkey,
            r.public_signal == public_signal,
    {
        let prepared = match vkey.decode() {
            Ok(key) => Some(key.prepare()),
            Err(_) => None,
        };
        Pallet { vkey, public_signal, prepared }
    }

    /// Replaces the stored key and public signal.
    ///
    /// A signal that is not exactly one scalar (the empty buffer among them)
    /// is an `ErrorPublicSignal`; buffers that do not decode to a verifying
    /// key are an `ErrorVerificationKey`. On an error the state stays as it
    /// was. On success the key is prepared once, here, and the prepared form
    /// of the key before is gone.
    pub fn set_zk_keys(
        &mut self,
        public_signal: Vec<u8>,
        vk_alpha1: Vec<u8>,
        vk_beta_2: Vec<u8>,
        vk_gamma_2: Vec<u8>,
        vk_delta_2: Vec<u8>,
        vk_ic0: Vec<u8>,
        vk_ic1: Vec<u8>,
    ) -> (r: Result<Vec<Event>, Error>)
        requires
            old(self).wf(),
        ensures
            final(self).wf(),
            match r {
                Ok(events) => {
                    &&& set_zk_keys_spec(public_signal@, final(self).vkey@) == Ok::<
                        Seq<EventView>,
                        Error,
                    >(event_views(events@))
                    &&& final(self).public_signal@ == public_signal@
                    &&& final(self).vkey@ == (VkeyText {
                        alpha_1: vk_alpha1@,
                        beta_2: vk_beta_2@,
                        gamma_2: vk_gamma_2@,
                        delta_2: vk_delta_2@,
                        ic0: vk_ic0@,
                        ic1: vk_ic1@,
                    })
                },
                Err(e) => {
                    &&& *final(self) == *old(self)
                    &&& set_zk_keys_spec(
                        public_signal@,
                        VkeyText {
                            alpha_1: vk_alpha1@,
                            beta_2: vk_beta_2@,
                            gamma_2: vk_gamma_2@,
                            delta_2: vk_delta_2@,
                            ic0: vk_ic0@,
                            ic1: vk_ic1@,
                        },
                    ) == Err::<Seq<EventView>, Error>(e)
                },
            },
    {
        let vkey = VkeyStr {
            alpha_1: vk_alpha1,
            beta_2: vk_beta_2,
            gamma_2: vk_gamma_2,
            delta_2: vk_delta_2,
            ic0: vk_ic0,
            ic1: vk_ic1,
        };
        match decode_public_signal(public_signal.as_slice()) {
            Ok(signal) => {
                assert(values(signal@).len() == signal@.len());
                if signal.len() != 1 {
                    return Err(Error::ErrorPublicSignal);
                }
            },
            Err(_) => {
                return Err(Error::ErrorPublicSignal);
            },
        }
        let key = match vkey.decode() {
            Ok(key) => key,
            Err(_) => {
                return Err(Error::ErrorVerificationKey);
            },
        };
        let mut events: Vec<Event> = Vec::new();
        events.push(Event::PublicSignalStored(copy_bytes(public_signal.as_slice())));
        events.push(Event::VerificationKeyStored(vkey.duplicate()));
        proof {
            assert(event_views(events@) =~= seq![
                EventView::PublicSignalStored(public_signal@),
                EventView::VerificationKeyStored(vkey@),
            ]);
        }
        self.prepared = Some(key.prepare());
        self.public_signal = public_signal;
        self.vkey = vkey;
        Ok(events)
    }

    /// Verifies a proof against the stored key and public signal.
    ///
    /// The proof is decoded first (`ErrorProof`), then the key is looked up
    /// (`ErrorVerificationKey` where the stored buffers hold none), then the
    /// signal is decoded (`ParsePulbicSignalError`). A proof that does not
    /// verify is an `InvalidProof`.
    pub fn verify(&self, proof_a: Vec<u8>, proof_b: Vec<u8>, proof_c: Vec<u8>) -> (r: Result<
        Vec<Event>,
        Error,
    >)
        requires
            self.wf(),
        ensures
            match r {
                Ok(events) => pallet_verify_spec(
                    self.vkey@,
                    self.public_signal@,
                    ProofText { pi_a: proof_a@, pi_b: proof_b@, pi_c: proof_c@ },
                ) == Ok::<Seq<EventView>, Error>(event_views(events@)),
                Err(e) => pallet_verify_spec(
                    self.vkey@,
                    self.public_signal@,
                    ProofText { pi_a: proof_a@, pi_b: proof_b@, pi_c: proof_c@ },
                ) == Err::<Seq<EventView>, Error>(e),
            },
    {
        let pof = ProofStr { pi_a: proof_a, pi_b: proof_b, pi_c: proof_c };
        let decoded = match Proof::decode(
            pof.pi_a.as_slice(),
            pof.pi_b.as_slice(),
            pof.pi_c.as_slice(),
        ) {
            Ok(p) => p,
            Err(_) => {
                return Err(Error::ErrorProof);
            },
        };
        let pvk = match &self.prepared {
            Some(pvk) => pvk,
            None => {
                return Err(Error::ErrorVerificationKey);
            },
        };
        let signal = match decode_public_signal(self.public_signal.as_slice()) {
            Ok(s) => s,
            Err(_) => {
                return Err(Error::ParsePulbicSignalError);
            },
        };
        match verify(pvk, &decoded, &signal) {
            Ok(true) => {
                let mut events: Vec<Event> = Vec::new();
                events.push(Event::VerificationPassed);
                events.push(Event::ProofStored(pof));
                proof {
                    assert(event_views(events@) =~= seq![
                        EventView::VerificationPassed,
                        EventView::ProofStored(pof@),
                    ]);
                }
                Ok(events)
            },
            _ => Err(Error::InvalidProof),
        }
    }
}

/// The prepared key of a state is a function of the stored buffers: two
/// states that store the same key hold the same prepared key, or both hold
/// none. A key that was replaced leaves nothing behind.
pub proof fn lemma_prepared_key_follows_buffers(a: Pallet, b: Pallet)
    requires
        a.wf(),
        b.wf(),
        a.vkey@ == b.vkey@,
    ensures
        a.prepared is Some <==> b.prepared is Some,
        a.prepared is Some ==> {
            let p = a.prepared->Some_0;
            let q = b.prepared->Some_0;
            &&& p@ == q@
            &&& p.neg_alpha1.encoding@ == q.neg_alpha1.encoding@
            &&& p.neg_gamma2.encoding@ == q.neg_gamma2.encoding@
            &&& p.neg_delta2.encoding@ == q.neg_delta2.encoding@
        },
{
    if a.prepared is Some {
        let p = a.prepared->Some_0;
        let q = b.prepared->Some_0;
        lemma_g1_encoding_unique(p.neg_alpha1.encoding@, q.neg_alpha1.encoding@);
        lemma_g2_encoding_unique(p.neg_gamma2.encoding@, q.neg_gamma2.encoding@);
        lemma_g2_encoding_unique(p.neg_delta2.encoding@, q.neg_delta2.encoding@);
    }
}

/// With a stored key that decodes and a stored signal of one scalar, a
/// verification ends in one of three ways. Buffers that decode to no proof
/// are an `ErrorProof`. A proof for which the pairing equation holds passes.
/// Any other proof is an `InvalidProof`. No other error comes.
pub proof fn lemma_verify_outcomes(vkey: VkeyText, public_signal: Seq<u8>, pof: ProofText)
    requires
        vkey_spec(vkey) is Ok,
        is_single_scalar(public_signal),
    ensures
        pallet_verify_spec(vkey, public_signal, pof) == (match proof_spec(
            pof.pi_a,
            pof.pi_b,
            pof.pi_c,
        ) {
            Err(_) => Err::<Seq<EventView>, Error>(Error::ErrorProof),
            Ok(p) => if equation_holds(
                vkey_spec(vkey)->Ok_0,
                p,
                public_signal_spec(public_signal)->Ok_0,
            ) {
                Ok(seq![EventView::VerificationPassed, EventView::ProofStored(pof)])
            } else {
                Err(Error::InvalidProof)
            },
        }),
{
    lemma_g1_list_length(seq![vkey.ic0, vkey.ic1]);
}

/// A proof with a byte that is neither a digit nor the separator in one of
/// its buffers is turned down as an `ErrorProof`, whatever is stored.
pub proof fn lemma_foreign_byte_is_error_proof(
    vkey: VkeyText,
    public_signal: Seq<u8>,
    pof: ProofText,
)
    requires
        holds_foreign_byte(pof.pi_a) || holds_foreign_byte(pof.pi_b) || holds_foreign_byte(
            pof.pi_c,
        ),
    ensures
        pallet_verify_spec(vkey, public_signal, pof) == Err::<Seq<EventView>, Error>(
            Error::ErrorProof,
        ),
{
    lemma_foreign_byte_in_proof(pof.pi_a, pof.pi_b, pof.pi_c);
}

/// A proof that decodes is turned down as an `ErrorProof` once a digit of
/// one of its buffers is replaced by a byte that is no digit, whatever is
/// stored.
pub proof fn lemma_non_digit_is_error_proof(
    vkey: VkeyText,
    public_signal: Seq<u8>,
    pof: ProofText,
    i: int,
    b: u8,
)
    requires
        proof_spec(pof.pi_a, pof.pi_b, pof.pi_c) is Ok,
        !is_digit(b),
    ensures
        0 <= i < pof.pi_a.len() && is_digit(pof.pi_a[i]) ==> pallet_verify_spec(
            vkey,
            public_signal,
            ProofText { pi_a: pof.pi_a.update(i, b), ..pof },
        ) == Err::<Seq<EventView>, Error>(Error::ErrorProof),
        0 <= i < pof.pi_b.len() && is_digit(pof.pi_b[i]) ==> pallet_verify_spec(
            vkey,
            public_signal,
            ProofText { pi_b: pof.pi_b.update(i, b), ..pof },
        ) == Err::<Seq<EventView>, Error>(Error::ErrorProof),
        0 <= i < pof.pi_c.len() && is_digit(pof.pi_c[i]) ==> pallet_verify_spec(
            vkey,
            public_signal,
            ProofText { pi_c: pof.pi_c.update(i, b), ..pof },
        ) == Err::<Seq<EventView>, Error>(Error::ErrorProof),
{
    lemma_non_digit_in_proof(pof.pi_a, pof.pi_b, pof.pi_c, i, b);
}

} // verus!
