//! Identifiers of signers.
use vstd::prelude::*;

use crate::error::{outcome, Error, ErrorView, FieldError};
use crate::group::{order, value, Field, Group, Scalar};

verus! {

/// The identifier of a signer within its group: a nonzero scalar.
pub struct Identifier<G: Group> {
    scalar: Scalar<G>,
}

impl<G: Group> Clone for Identifier<G> {
    fn clone(&self) -> (r: Self)
        ensures
            r == *self,
    {
        *self
    }
}

impl<G: Group> Copy for Identifier<G> {

}

impl<G: Group> View for Identifier<G> {
    type V = int;

    /// The value of the identifier.
    closed spec fn view(&self) -> int {
        value::<G>(self.scalar)
    }
}

impl<G: Group> PartialEq for Identifier<G> {
    fn eq(&self, other: &Self) -> (r: bool) {
        G::Field::same(self.scalar, other.scalar)
    }
}

impl<G: Group> vstd::std_specs::cmp::PartialEqSpecImpl for Identifier<G> {
    open spec fn obeys_eq_spec() -> bool {
        true
    }

    open spec fn eq_spec(&self, other: &Self) -> bool {
        self@ == other@
    }
}

impl<G: Group> Eq for Identifier<G> {

}

/// The values of identifiers.
pub open spec fn values<G: Group>(ids: Seq<Identifier<G>>) -> Seq<int> {
    ids.map_values(|id: Identifier<G>| id@)
}

/// Whether an integer is the value of an identifier.
pub open spec fn is_identifier<G: Group>(x: int) -> bool {
    0 < x < order::<G>()
}

impl<G: Group> Identifier<G> {
    /// An identifier is never zero: the polynomial behind the shares of a group
    /// holds the secret there.
    #[verifier::type_invariant]
    pub closed spec fn nonzero(self) -> bool {
        self@ != 0
    }

    /// The value of an identifier is a nonzero residue.
    pub proof fn lemma_is_identifier(self)
        requires
            self.nonzero(),
        ensures
            is_identifier::<G>(self@),
    {
        G::Field::lemma_value_range(self.scalar);
    }

    /// The identifier with the value of `scalar`, which must not be zero.
    pub fn new(scalar: Scalar<G>) -> (r: Result<Self, Error<G>>)
        ensures
            outcome(r) == if value::<G>(scalar) == 0 {
                Err(ErrorView::FieldError(FieldError::InvalidZeroScalar))
            } else {
                Ok(value::<G>(scalar))
            },
    {
        if G::Field::same(scalar, G::Field::zero()) {
            Err(Error::FieldError(FieldError::InvalidZeroScalar))
        } else {
            Ok(Identifier { scalar })
        }
    }

    /// The identifier as a scalar.
    pub fn to_scalar(&self) -> (r: Scalar<G>)
        ensures
            value::<G>(r) == self@,
            is_identifier::<G>(self@),
    {
        proof {
            use_type_invariant(self);
            self.lemma_is_identifier();
        }
        self.scalar
    }

    /// The bytes of the identifier.
    pub fn serialize(&self) -> (r: Vec<u8>)
        ensures
            r@ == G::Field::encoding(self@),
    {
        G::Field::serialize(self.scalar)
    }

    /// Whether this identifier comes before `other`.
    pub fn precedes(&self, other: &Self) -> (r: bool)
        ensures
            r == (self@ < other@),
    {
        G::Field::precedes(self.scalar, other.scalar)
    }
}

} // verus!
