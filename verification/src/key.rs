//! Verifying keys, and the prepared form in which a key is used.

use vstd::prelude::*;
use crate::curve::{g1_neg, g1_negation, g2_neg, g2_negation, G1Point, G2Point, G1, G2};
use crate::error::VerificationError;
use crate::wire::{g1_component_spec, g2_component_spec, texts};

verus! {

/// The points of the first group that the points of `v` stand for.
pub open spec fn g1_views(v: Seq<G1Point>) -> Seq<G1> {
    Seq::new(v.len(), |i: int| v[i]@)
}

/// A Groth16 verifying key. `ic` holds one point more than the circuit has public inputs.
#[derive(Clone, Debug, PartialEq, Eq)]
pub struct VerifyingKey {
    pub alpha1: G1Point,
    pub beta2: G2Point,
    pub gamma2: G2Point,
    pub delta2: G2Point,
    pub ic: Vec<G1Point>,
}

/// What a verifying key stands for.
pub ghost struct VerifyingKeyView {
    pub alpha1: G1,
    pub beta2: G2,
    pub gamma2: G2,
    pub delta2: G2,
    pub ic: Seq<G1>,
}

impl View for VerifyingKey {
    type V = VerifyingKeyView;

    open spec fn view(&self) -> VerifyingKeyView {
        VerifyingKeyView {
            alpha1: self.alpha1@,
            beta2: self.beta2@,
            gamma2: self.gamma2@,
            delta2: self.delta2@,
            ic: g1_views(self.ic@),
        }
    }
}

impl VerifyingKey {
    /// Every point of the key is a member of its group.
    pub open spec fn wf(&self) -> bool {
        &&& self.alpha1.wf()
        &&& self.beta2.wf()
        &&& self.gamma2.wf()
        &&& self.delta2.wf()
        &&& forall|i: int| 0 <= i < self.ic@.len() ==> (#[trigger] self.ic@[i]).wf()
    }

    /// Decodes a verifying key from its buffers, in the order `alpha1`,
    /// `beta2`, `gamma2`, `delta2`, then the entries of `ic`. The first
    /// buffer that fails decides the error.
    pub fn decode(
        alpha1: &[u8],
        beta2: &[u8],
        gamma2: &[u8],
        delta2: &[u8],
        ic: &Vec<Vec<u8>>,
    ) -> (r: Result<VerifyingKey, VerificationError>)
        ensures
            match r {
                Ok(key) => key.wf() && verifying_key_spec(
                    alpha1@,
                    beta2@,
                    gamma2@,
                    delta2@,
                    texts(ic@),
                ) == Ok::<VerifyingKeyView, VerificationError>(key@),
                Err(e) => verifying_key_spec(alpha1@, beta2@, gamma2@, delta2@, texts(ic@)) == Err::<
                    VerifyingKeyView,
                    VerificationError,
                >(e),
            },
    {
        let a = match G1Point::from_buffer(alpha1) {
            Ok(p) => p,
            Err(e) => {
                return Err(e);
            },
        };
        let b = match G2Point::from_buffer(beta2) {
            Ok(p) => p,
            Err(e) => {
                return Err(e);
            },
        };
        let c = match G2Point::from_buffer(gamma2) {
            Ok(p) => p,
            Err(e) => {
                return Err(e);
            },
        };
        let d = match G2Point::from_buffer(delta2) {
            Ok(p) => p,
            Err(e) => {
                return Err(e);
            },
        };
        let mut points: Vec<G1Point> = Vec::new();
        let mut i: usize = 0;
        proof {
            assert(texts(ic@).take(0) =~= Seq::<Seq<u8>>::empty());
            assert(g1_views(points@) =~= Seq::<G1>::empty());
        }
        while i < ic.len()
            invariant
                i <= ic.len(),
                g1_component_spec(alpha1@) == Ok::<G1, VerificationError>(a@),
                g2_component_spec(beta2@) == Ok::<G2, VerificationError>(b@),
                g2_component_spec(gamma2@) == Ok::<G2, VerificationError>(c@),
                g2_component_spec(delta2@) == Ok::<G2, VerificationError>(d@),
                g1_list_spec(texts(ic@).take(i as int)) == Ok::<Seq<G1>, VerificationError>(
                    g1_views(points@),
                ),
                forall|j: int| 0 <= j < points@.len() ==> (#[trigger] points@[j]).wf(),
            decreases ic.len() - i,
        {
            let ghost all = texts(ic@);
            let ghost before = points@;
            proof {
                assert(all.take(i + 1).drop_last() =~= all.take(i as int));
                assert(all.take(i + 1).last() == ic@[i as int]@);
            }
            match G1Point::from_buffer(ic[i].as_slice()) {
                Ok(p) => {
                    points.push(p);
                    proof {
                        assert(g1_views(points@) =~= g1_views(before).push(p@));
                    }
                },
                Err(e) => {
                    proof {
                        lemma_g1_list_error_stays(all, i + 1);
                    }
                    return Err(e);
                },
            }
            i += 1;
        }
        proof {
            assert(texts(ic@).take(ic@.len() as int) =~= texts(ic@));
        }
        Ok(VerifyingKey { alpha1: a, beta2: b, gamma2: c, delta2: d, ic: points })
    }

    /// Derives the prepared form of the key.
    pub fn prepare(self) -> (r: PreparedVerifyingKey)
        requires
            self.wf(),
        ensures
            r.wf(),
            r.key == self,
    {
        let neg_alpha1 = g1_neg(&self.alpha1);
        let neg_gamma2 = g2_neg(&self.gamma2);
        let neg_delta2 = g2_neg(&self.delta2);
        PreparedVerifyingKey { key: self, neg_alpha1, neg_gamma2, neg_delta2 }
    }
}

/// What decoding each of the buffers `f` as a point of the first group
/// gives: all the points, or the error of the first buffer that fails.
pub open spec fn g1_list_spec(f: Seq<Seq<u8>>) -> Result<Seq<G1>, VerificationError>
    decreases f.len(),
{
    if f.len() == 0 {
        Ok(Seq::<G1>::empty())
    } else {
        match g1_list_spec(f.drop_last()) {
            Err(e) => Err(e),
            Ok(v) => match g1_component_spec(f.last()) {
                Err(e) => Err(e),
                Ok(p) => Ok(v.push(p)),
            },
        }
    }
}

/// What decoding the buffers of a verifying key gives.
pub open spec fn verifying_key_spec(
    alpha1: Seq<u8>,
    beta2: Seq<u8>,
    gamma2: Seq<u8>,
    delta2: Seq<u8>,
    ic: Seq<Seq<u8>>,
) -> Result<VerifyingKeyView, VerificationError> {
    match g1_component_spec(alpha1) {
        Err(e) => Err(e),
        Ok(a) => match g2_component_spec(beta2) {
            Err(e) => Err(e),
            Ok(b) => match g2_component_spec(gamma2) {
                Err(e) => Err(e),
                Ok(c) => match g2_component_spec(delta2) {
                    Err(e) => Err(e),
                    Ok(d) => match g1_list_spec(ic) {
                        Err(e) => Err(e),
                        Ok(points) => Ok(
                            VerifyingKeyView { alpha1: a, beta2: b, gamma2: c, delta2: d, ic: points },
                        ),
                    },
                },
            },
        },
    }
}

/// A list of buffers that decodes gives one point for each buffer.
pub proof fn lemma_g1_list_length(f: Seq<Seq<u8>>)
    requires
        g1_list_spec(f) is Ok,
    ensures
        g1_list_spec(f)->Ok_0.len() == f.len(),
    decreases f.len(),
{
    if f.len() > 0 {
        lemma_g1_list_length(f.drop_last());
    }
}

/// An error among the first `k` buffers is the error of the whole list.
pub proof fn lemma_g1_list_error_stays(f: Seq<Seq<u8>>, k: int)
    requires
        0 <= k <= f.len(),
        g1_list_spec(f.take(k)) is Err,
    ensures
        g1_list_spec(f) == g1_list_spec(f.take(k)),
    decreases f.len() - k,
{
    if k == f.len() {
        assert(f.take(k) =~= f);
    } else {
        assert(f.take(k + 1).drop_last() =~= f.take(k));
        lemma_g1_list_error_stays(f, k + 1);
    }
}

/// A verifying key together with what every verification against it needs:
/// the inverses of `alpha1`, `gamma2` and `delta2`. It is a function of the
/// key alone.
#[derive(Clone, Debug, PartialEq, Eq)]
pub struct PreparedVerifyingKey {
    pub key: VerifyingKey,
    pub neg_alpha1: G1Point,
    pub neg_gamma2: G2Point,
    pub neg_delta2: G2Point,
}

impl View for PreparedVerifyingKey {
    type V = VerifyingKeyView;

    open spec fn view(&self) -> VerifyingKeyView {
        self.key@
    }
}

impl PreparedVerifyingKey {
    /// The key is well formed, and the three inverses are members of their
    /// groups and are those of its points.
    pub open spec fn wf(&self) -> bool {
        &&& self.key.wf()
        &&& self.neg_alpha1.wf()
        &&& self.neg_gamma2.wf()
        &&& self.neg_delta2.wf()
        &&& self.neg_alpha1@ == g1_negation(self.key.alpha1@)
        &&& self.neg_gamma2@ == g2_negation(self.key.gamma2@)
        &&& self.neg_delta2@ == g2_negation(self.key.delta2@)
    }
}

} // verus!
