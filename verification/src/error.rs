//! Errors of the signing scheme.
use vstd::prelude::*;

use crate::group::Group;
use crate::identifier::{values, Identifier};

verus! {

/// An error of a scalar field.
#[derive(Clone, Copy, Debug, PartialEq, Eq, Structural)]
pub enum FieldError {
    /// The encoding of a scalar was malformed.
    MalformedScalar,
    /// Zero where a nonzero scalar is needed.
    InvalidZeroScalar,
}

/// An error of a group.
#[derive(Clone, Copy, Debug, PartialEq, Eq, Structural)]
pub enum GroupError {
    /// The encoding of an element was malformed.
    MalformedElement,
    /// The identity where another element is needed.
    InvalidIdentityElement,
    /// An element outside of the prime-order group.
    InvalidNonPrimeOrderElement,
}

/// An error of the signing scheme.
pub enum Error<G: Group> {
    /// An identifier occurs twice.
    DuplicatedIdentifier,
    /// A signer is not known, or has not taken part.
    UnknownIdentifier,
    /// A set of identifiers has the wrong size.
    IncorrectNumberOfIdentifiers,
    /// The signature does not verify, and nobody is to blame.
    InvalidSignature,
    /// There are fewer signature shares than the threshold.
    IncorrectNumberOfShares,
    /// A commitment is the identity.
    IdentityCommitment,
    /// The package lacks the signer's commitment.
    MissingCommitment,
    /// The package holds another commitment than the signer's.
    IncorrectCommitment,
    /// There are fewer commitments than the threshold, or none.
    IncorrectNumberOfCommitments,
    /// The signature shares of these signers are invalid.
    InvalidSignatureShare {
        /// The signers whose shares do not verify.
        culprits: Vec<Identifier<G>>,
    },
    /// An error of the scalar field.
    FieldError(FieldError),
    /// An error of the group.
    GroupError(GroupError),
}

/// What an [`Error`] says: signers are given by the values of their
/// identifiers.
pub enum ErrorView {
    DuplicatedIdentifier,
    UnknownIdentifier,
    IncorrectNumberOfIdentifiers,
    InvalidSignature,
    IncorrectNumberOfShares,
    IdentityCommitment,
    MissingCommitment,
    IncorrectCommitment,
    IncorrectNumberOfCommitments,
    InvalidSignatureShare { culprits: Seq<int> },
    FieldError(FieldError),
    GroupError(GroupError),
}

impl<G: Group> View for Error<G> {
    type V = ErrorView;

    open spec fn view(&self) -> ErrorView {
        match self {
            Error::DuplicatedIdentifier => ErrorView::DuplicatedIdentifier,
            Error::UnknownIdentifier => ErrorView::UnknownIdentifier,
            Error::IncorrectNumberOfIdentifiers => ErrorView::IncorrectNumberOfIdentifiers,
            Error::InvalidSignature => ErrorView::InvalidSignature,
            Error::IncorrectNumberOfShares => ErrorView::IncorrectNumberOfShares,
            Error::IdentityCommitment => ErrorView::IdentityCommitment,
            Error::MissingCommitment => ErrorView::MissingCommitment,
            Error::IncorrectCommitment => ErrorView::IncorrectCommitment,
            Error::IncorrectNumberOfCommitments => ErrorView::IncorrectNumberOfCommitments,
            Error::InvalidSignatureShare { culprits } => ErrorView::InvalidSignatureShare {
                culprits: values(culprits@),
            },
            Error::FieldError(e) => ErrorView::FieldError(*e),
            Error::GroupError(e) => ErrorView::GroupError(*e),
        }
    }
}

/// What a fallible call came to, over the views of its result and its error.
pub open spec fn outcome<T: View, G: Group>(r: Result<T, Error<G>>) -> Result<T::V, ErrorView> {
    match r {
        Ok(t) => Ok(t@),
        Err(e) => Err(e@),
    }
}

} // verus!
