//! Signature shares.
use vstd::prelude::*;

use crate::error::{outcome, Error, ErrorView};
use crate::group::{order, value, Field, Group, Scalar};
use crate::identifier::{values, Identifier};
use crate::keys::{KeyPackage, KeyPackageView, VerifyingShare};
use crate::residue::{lemma_congruent_add, lemma_congruent_mul, lemma_in_range, lemma_residue};
use crate::round1::{BindingFactor, GroupCommitmentShare, NoncesView, SigningNonces};
use crate::signature::Challenge;

verus! {

/// One signer's share of a signature.
pub struct SignatureShare<G: Group>(pub Scalar<G>);

impl<G: Group> View for SignatureShare<G> {
    type V = int;

    open spec fn view(&self) -> int {
        value::<G>(self.0)
    }
}

impl<G: Group> Clone for SignatureShare<G> {
    fn clone(&self) -> (r: Self)
        ensures
            r == *self,
    {
        *self
    }
}

impl<G: Group> Copy for SignatureShare<G> {

}

/// The share `hiding + binding * factor + lambda * signing_share * c`.
pub open spec fn schnorr_share<G: Group>(
    nonces: NoncesView,
    factor: int,
    lambda: int,
    key: KeyPackageView,
    c: int,
) -> int {
    (nonces.hiding + nonces.binding * factor + lambda * key.signing_share * c) % order::<G>()
}

/// Computes a signature share from a signer's nonces and key material.
pub fn compute_signature_share<G: Group>(
    signer_nonces: &SigningNonces<G>,
    binding_factor: BindingFactor<G>,
    lambda_i: Scalar<G>,
    key_package: &KeyPackage<G>,
    challenge: Challenge<G>,
) -> (r: SignatureShare<G>)
    ensures
        r@ == schnorr_share::<G>(
            signer_nonces@,
            binding_factor@,
            value::<G>(lambda_i),
            key_package@,
            challenge@,
        ),
{
    let bound = G::Field::product(signer_nonces.binding, binding_factor.0);
    let weighted = G::Field::product(lambda_i, key_package.signing_share);
    let keyed = G::Field::product(weighted, challenge.0);
    let nonce = G::Field::sum(signer_nonces.hiding, bound);
    proof {
        let m = order::<G>();
        G::Field::lemma_order();
        let (d, e, f) = (signer_nonces@.hiding, signer_nonces@.binding, binding_factor@);
        let (l, s, c) = (value::<G>(lambda_i), key_package@.signing_share, challenge@);
        lemma_residue(e * f, m);
        lemma_congruent_add(d, d, (e * f) % m, e * f, m);
        lemma_residue(d + (e * f) % m, m);
        lemma_residue(l * s, m);
        lemma_congruent_mul((l * s) % m, l * s, c, c, m);
        lemma_residue(((l * s) % m) * c, m);
        lemma_congruent_add(value::<G>(nonce), d + e * f, value::<G>(keyed), l * s * c, m);
    }
    SignatureShare(G::Field::sum(nonce, keyed))
}

/// Whether a share answers the challenge `c` for a signer with the given share
/// of the group commitment and verifying share.
pub open spec fn share_answers<G: Group>(
    share: int,
    commitment_share: int,
    verifying_share: int,
    lambda: int,
    c: int,
) -> bool {
    share == (commitment_share + verifying_share * c * lambda) % order::<G>()
}

impl<G: Group> SignatureShare<G> {
    /// Verifies that this is the share of the signer `identifier`, who is to
    /// blame if it is not.
    pub fn verify(
        &self,
        identifier: Identifier<G>,
        group_commitment_share: &GroupCommitmentShare<G>,
        verifying_share: &VerifyingShare<G>,
        lambda_i: Scalar<G>,
        challenge: Challenge<G>,
    ) -> (r: Result<(), Error<G>>)
        ensures
            outcome(r) == if share_answers::<G>(
                self@,
                group_commitment_share@,
                verifying_share@,
                value::<G>(lambda_i),
                challenge@,
            ) {
                Ok(())
            } else {
                Err(ErrorView::InvalidSignatureShare { culprits: seq![identifier@] })
            },
    {
        let response = G::scale(G::generator(), self.0);
        let challenged = G::scale(verifying_share.0, challenge.0);
        let keyed = G::scale(challenged, lambda_i);
        proof {
            let m = order::<G>();
            G::Field::lemma_order();
            G::Field::lemma_value_range(self.0);
            lemma_in_range(self@, m);
            let (v, c, l) = (verifying_share@, challenge@, value::<G>(lambda_i));
            lemma_residue(v * c, m);
            lemma_congruent_mul((v * c) % m, v * c, l, l, m);
            lemma_residue(((v * c) % m) * l, m);
            lemma_congruent_add(
                group_commitment_share@,
                group_commitment_share@,
                G::exponent(keyed),
                v * c * l,
                m,
            );
        }
        if G::same(response, G::sum(group_commitment_share.0, keyed)) {
            Ok(())
        } else {
            let mut culprits: Vec<Identifier<G>> = Vec::new();
            culprits.push(identifier);
            assert(values(culprits@) =~= seq![identifier@]);
            Err(Error::InvalidSignatureShare { culprits })
        }
    }
}

} // verus!
