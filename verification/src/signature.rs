//! Schnorr signatures and the keys that verify them.
use vstd::prelude::*;

use crate::error::{outcome, Error, ErrorView};
use crate::group::{order, value, Element, Field, Group, Scalar};
use crate::residue::{lemma_congruent_add, lemma_in_range, lemma_residue};

verus! {

/// A Schnorr signature.
#[allow(non_snake_case)]
pub struct Signature<G: Group> {
    /// The commitment to the nonce.
    pub R: Element<G>,
    /// The response to the challenge.
    pub z: Scalar<G>,
}

/// The exponent of the commitment and the value of the response of a
/// signature.
#[allow(non_snake_case)]
pub struct SignatureView {
    pub R: int,
    pub z: int,
}

impl<G: Group> View for Signature<G> {
    type V = SignatureView;

    open spec fn view(&self) -> SignatureView {
        SignatureView { R: G::exponent(self.R), z: value::<G>(self.z) }
    }
}

/// The challenge that a signature answers.
pub struct Challenge<G: Group>(pub Scalar<G>);

impl<G: Group> View for Challenge<G> {
    type V = int;

    open spec fn view(&self) -> int {
        value::<G>(self.0)
    }
}

impl<G: Group> Clone for Challenge<G> {
    fn clone(&self) -> (r: Self)
        ensures
            r == *self,
    {
        *self
    }
}

impl<G: Group> Copy for Challenge<G> {

}

/// A key that verifies signatures.
pub struct VerifyingKey<G: Group>(pub Element<G>);

impl<G: Group> View for VerifyingKey<G> {
    type V = int;

    open spec fn view(&self) -> int {
        G::exponent(self.0)
    }
}

impl<G: Group> Clone for VerifyingKey<G> {
    fn clone(&self) -> (r: Self)
        ensures
            r == *self,
    {
        *self
    }
}

impl<G: Group> Copy for VerifyingKey<G> {

}

/// The bytes of the element with the exponent `x`, with the error of the group
/// as one of the scheme.
pub open spec fn element_encoding<G: Group>(x: int) -> Result<Seq<u8>, ErrorView> {
    match G::encoding(x) {
        Ok(bytes) => Ok(bytes),
        Err(e) => Err(ErrorView::GroupError(e)),
    }
}

/// The bytes of an element, with the error of the group as one of the scheme.
pub fn serialize_element<G: Group>(e: Element<G>) -> (r: Result<Vec<u8>, Error<G>>)
    ensures
        outcome(r) == element_encoding::<G>(G::exponent(e)),
{
    match G::serialize(e) {
        Ok(bytes) => Ok(bytes),
        Err(e) => Err(Error::GroupError(e)),
    }
}

/// Whether a signature answers the challenge `c` under the key `key`.
pub open spec fn answers<G: Group>(signature: SignatureView, key: int, c: int) -> bool {
    signature.z == (signature.R + c * key) % order::<G>()
}

impl<G: Group> VerifyingKey<G> {
    /// The bytes of the key.
    pub fn serialize(&self) -> (r: Result<Vec<u8>, Error<G>>)
        ensures
            outcome(r) == element_encoding::<G>(self@),
    {
        serialize_element::<G>(self.0)
    }

    /// Verifies a signature against a challenge that has been computed.
    pub fn verify_prehashed(&self, challenge: Challenge<G>, signature: &Signature<G>) -> (r: Result<
        (),
        Error<G>,
    >)
        ensures
            outcome(r) == if answers::<G>(signature@, self@, challenge@) {
                Ok(())
            } else {
                Err(ErrorView::InvalidSignature)
            },
    {
        let response = G::scale(G::generator(), signature.z);
        let keyed = G::scale(self.0, challenge.0);
        proof {
            let m = order::<G>();
            G::Field::lemma_order();
            G::Field::lemma_value_range(signature.z);
            lemma_in_range(signature@.z, m);
            let x = self@ * challenge@;
            assert(x == challenge@ * self@) by (nonlinear_arith)
                requires
                    x == self@ * challenge@,
            ;
            lemma_residue(x, m);
            lemma_congruent_add(signature@.R, signature@.R, x % m, x, m);
        }
        if G::same(response, G::sum(signature.R, keyed)) {
            Ok(())
        } else {
            Err(Error::InvalidSignature)
        }
    }
}

} // verus!
