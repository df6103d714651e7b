//! Nonces and the commitments to them.
use vstd::prelude::*;

use crate::group::{is_residue, order, value, Element, Field, Group, Scalar};
use crate::residue::{lemma_congruent_add, lemma_in_range, lemma_residue};

verus! {

/// The binding factor of one signer.
pub struct BindingFactor<G: Group>(pub Scalar<G>);

impl<G: Group> Clone for BindingFactor<G> {
    fn clone(&self) -> (r: Self)
        ensures
            r == *self,
    {
        *self
    }
}

impl<G: Group> Copy for BindingFactor<G> {

}

impl<G: Group> View for BindingFactor<G> {
    type V = int;

    open spec fn view(&self) -> int {
        value::<G>(self.0)
    }
}

/// One signer's commitments to its nonces.
pub struct SigningCommitments<G: Group> {
    /// The commitment to the hiding nonce.
    pub hiding: Element<G>,
    /// The commitment to the binding nonce.
    pub binding: Element<G>,
}

/// The exponents of one signer's commitments.
pub struct CommitmentsView {
    pub hiding: int,
    pub binding: int,
}

/// Whether these are commitments of elements of the group.
pub open spec fn in_group<G: Group>(c: CommitmentsView) -> bool {
    is_residue::<G>(c.hiding) && is_residue::<G>(c.binding)
}

impl<G: Group> View for SigningCommitments<G> {
    type V = CommitmentsView;

    open spec fn view(&self) -> CommitmentsView {
        CommitmentsView { hiding: G::exponent(self.hiding), binding: G::exponent(self.binding) }
    }
}

impl<G: Group> Clone for SigningCommitments<G> {
    fn clone(&self) -> (r: Self)
        ensures
            r == *self,
    {
        *self
    }
}

impl<G: Group> Copy for SigningCommitments<G> {

}

impl<G: Group> PartialEq for SigningCommitments<G> {
    fn eq(&self, other: &Self) -> (r: bool) {
        G::same(self.hiding, other.hiding) && G::same(self.binding, other.binding)
    }
}

impl<G: Group> vstd::std_specs::cmp::PartialEqSpecImpl for SigningCommitments<G> {
    open spec fn obeys_eq_spec() -> bool {
        true
    }

    open spec fn eq_spec(&self, other: &Self) -> bool {
        self@ == other@
    }
}

impl<G: Group> Eq for SigningCommitments<G> {

}

/// The share of the group commitment that is due to commitments, under a
/// binding factor.
pub open spec fn commitment_share<G: Group>(commitments: CommitmentsView, factor: int) -> int {
    (commitments.hiding + factor * commitments.binding) % order::<G>()
}

impl<G: Group> SigningCommitments<G> {
    /// This signer's share of the group commitment.
    pub fn to_group_commitment_share(
        &self,
        binding_factor: &BindingFactor<G>,
    ) -> (r: GroupCommitmentShare<G>)
        ensures
            r@ == commitment_share::<G>(self@, binding_factor@),
    {
        let bound = G::scale(self.binding, binding_factor.0);
        proof {
            let m = order::<G>();
            G::Field::lemma_order();
            let x = self@.binding * binding_factor@;
            assert(x == binding_factor@ * self@.binding) by (nonlinear_arith)
                requires
                    x == self@.binding * binding_factor@,
            ;
            lemma_residue(x, m);
            lemma_congruent_add(self@.hiding, self@.hiding, x % m, x, m);
        }
        GroupCommitmentShare(G::sum(self.hiding, bound))
    }
}

/// One signer's share of the group commitment.
pub struct GroupCommitmentShare<G: Group>(pub Element<G>);

impl<G: Group> View for GroupCommitmentShare<G> {
    type V = int;

    open spec fn view(&self) -> int {
        G::exponent(self.0)
    }
}

/// The group commitment of a signing run.
pub struct GroupCommitment<G: Group>(pub Element<G>);

impl<G: Group> View for GroupCommitment<G> {
    type V = int;

    open spec fn view(&self) -> int {
        G::exponent(self.0)
    }
}

/// One signer's nonces for one signing run.
pub struct SigningNonces<G: Group> {
    /// The hiding nonce.
    pub hiding: Scalar<G>,
    /// The binding nonce.
    pub binding: Scalar<G>,
    /// The commitments to the nonces.
    pub commitments: SigningCommitments<G>,
}

/// The values of one signer's nonces, and its commitments.
pub struct NoncesView {
    pub hiding: int,
    pub binding: int,
    pub commitments: CommitmentsView,
}

/// Whether these are the values of nonces and commitments of the group.
pub open spec fn are_nonces<G: Group>(n: NoncesView) -> bool {
    is_residue::<G>(n.hiding) && is_residue::<G>(n.binding) && in_group::<G>(n.commitments)
}

impl<G: Group> View for SigningNonces<G> {
    type V = NoncesView;

    open spec fn view(&self) -> NoncesView {
        NoncesView {
            hiding: value::<G>(self.hiding),
            binding: value::<G>(self.binding),
            commitments: self.commitments@,
        }
    }
}

impl<G: Group> Clone for SigningNonces<G> {
    fn clone(&self) -> (r: Self)
        ensures
            r == *self,
    {
        *self
    }
}

impl<G: Group> Copy for SigningNonces<G> {

}

/// The nonces of given values, with the commitments to them.
pub open spec fn nonces_of(hiding: int, binding: int) -> NoncesView {
    NoncesView { hiding, binding, commitments: CommitmentsView { hiding, binding } }
}

impl<G: Group> SigningNonces<G> {
    /// The nonces of given values, with the commitments to them.
    pub fn from_nonces(hiding: Scalar<G>, binding: Scalar<G>) -> (r: Self)
        ensures
            r@ == nonces_of(value::<G>(hiding), value::<G>(binding)),
    {
        proof {
            G::Field::lemma_value_range(hiding);
            G::Field::lemma_value_range(binding);
            lemma_in_range(value::<G>(hiding), order::<G>());
            lemma_in_range(value::<G>(binding), order::<G>());
        }
        SigningNonces {
            hiding,
            binding,
            commitments: SigningCommitments {
                hiding: G::scale(G::generator(), hiding),
                binding: G::scale(G::generator(), binding),
            },
        }
    }
}

} // verus!
