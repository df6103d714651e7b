//! Ciphersuites: a group, its hash functions, and the hooks in which suites
//! differ.
use vstd::prelude::*;

use crate::error::{outcome, Error, ErrorView};
use crate::group::{value, Element, Group, Scalar};
use crate::identifier::Identifier;
use crate::keys::{
    KeyPackage, KeyPackageView, PublicKeyPackage, PublicKeyPackageView, VerifyingShare,
};
use crate::map::IdentifierMap;
use crate::round1::{
    BindingFactor, CommitmentsView, GroupCommitment, GroupCommitmentShare, NoncesView,
    SigningCommitments, SigningNonces,
};
use crate::round2::SignatureShare;
use crate::signature::{Challenge, Signature, SignatureView, VerifyingKey};

verus! {

/// The commitments of one group of signers, and the message.
pub struct SigningPackage<G: Group> {
    /// The commitments of the signers.
    pub signing_commitments: IdentifierMap<G, SigningCommitments<G>>,
    /// The message to be signed.
    pub message: Vec<u8>,
}

/// The contents of a [`SigningPackage`].
pub struct SigningPackageView {
    pub signing_commitments: Seq<(int, CommitmentsView)>,
    pub message: Seq<u8>,
}

impl<G: Group> View for SigningPackage<G> {
    type V = SigningPackageView;

    open spec fn view(&self) -> SigningPackageView {
        SigningPackageView {
            signing_commitments: self.signing_commitments@,
            message: self.message@,
        }
    }
}

impl<G: Group> SigningPackage<G> {
    /// The package of these commitments and this message.
    pub fn new(
        signing_commitments: IdentifierMap<G, SigningCommitments<G>>,
        message: &[u8],
    ) -> (r: Self)
        ensures
            r@ == (SigningPackageView {
                signing_commitments: signing_commitments@,
                message: message@,
            }),
    {
        SigningPackage { signing_commitments, message: vstd::slice::slice_to_vec(message) }
    }
}

/// The signature shares of specifications, by signer, under a name that
/// implementations of [`Ciphersuite`] in plain Rust can write.
pub type SpecShares = Seq<(int, int)>;

/// A ciphersuite.
///
/// The result of each function is fixed by the values of its arguments; the
/// specification function next to it names that result.
#[allow(non_snake_case)]
pub trait Ciphersuite: Sized {
    /// The group that signatures are made in.
    type Group: Group;

    /// The value of [`Ciphersuite::H1`].
    spec fn h1(m: Seq<u8>) -> int;

    /// The bytes of [`Ciphersuite::H4`].
    spec fn h4(m: Seq<u8>) -> Seq<u8>;

    /// The bytes of [`Ciphersuite::H5`].
    spec fn h5(m: Seq<u8>) -> Seq<u8>;

    /// What [`Ciphersuite::pre_sign`] comes to.
    spec fn pre_sign_outcome(
        package: SigningPackageView,
        nonces: NoncesView,
        key: KeyPackageView,
    ) -> Result<(NoncesView, KeyPackageView), ErrorView>;

    /// What [`Ciphersuite::pre_aggregate`] comes to.
    spec fn pre_aggregate_outcome(
        package: SigningPackageView,
        shares: Seq<(int, int)>,
        pubkeys: PublicKeyPackageView,
    ) -> Result<(Seq<(int, int)>, PublicKeyPackageView), ErrorView>;

    /// What [`Ciphersuite::challenge`] comes to.
    spec fn challenge_outcome(R: int, key: int, message: Seq<u8>) -> Result<int, ErrorView>;

    /// The share of [`Ciphersuite::compute_signature_share`].
    spec fn signature_share(
        R: int,
        nonces: NoncesView,
        factor: int,
        lambda: int,
        key: KeyPackageView,
        c: int,
    ) -> int;

    /// What [`Ciphersuite::verify_share`] comes to.
    spec fn share_verdict(
        R: int,
        share: int,
        identifier: int,
        commitment_share: int,
        verifying_share: int,
        lambda: int,
        c: int,
    ) -> Result<(), ErrorView>;

    /// What [`Ciphersuite::verify_signature`] comes to.
    spec fn signature_verdict(message: Seq<u8>, signature: SignatureView, key: int) -> Result<
        (),
        ErrorView,
    >;

    /// The hash from which binding factors are made.
    fn H1(m: &[u8]) -> (r: Scalar<Self::Group>)
        ensures
            value::<Self::Group>(r) == Self::h1(m@),
    ;

    /// The hash of the message in the preimage of a binding factor.
    fn H4(m: &[u8]) -> (r: Vec<u8>)
        ensures
            r@ == Self::h4(m@),
    ;

    /// The hash of the commitments in the preimage of a binding factor.
    fn H5(m: &[u8]) -> (r: Vec<u8>)
        ensures
            r@ == Self::h5(m@),
    ;

    /// Pre-processing of a signer's nonces and key material before it signs.
    fn pre_sign(
        signing_package: &SigningPackage<Self::Group>,
        signer_nonces: &SigningNonces<Self::Group>,
        key_package: &KeyPackage<Self::Group>,
    ) -> (r: Result<
        (SigningNonces<Self::Group>, KeyPackage<Self::Group>),
        Error<Self::Group>,
    >)
        ensures
            outcome(r) == Self::pre_sign_outcome(signing_package@, signer_nonces@, key_package@),
    ;

    /// Pre-processing of signature shares and public key material before the
    /// shares are aggregated.
    fn pre_aggregate(
        signing_package: &SigningPackage<Self::Group>,
        signature_shares: &IdentifierMap<Self::Group, SignatureShare<Self::Group>>,
        public_key_package: &PublicKeyPackage<Self::Group>,
    ) -> (r: Result<
        (
            IdentifierMap<Self::Group, SignatureShare<Self::Group>>,
            PublicKeyPackage<Self::Group>,
        ),
        Error<Self::Group>,
    >)
        ensures
            outcome(r) == Self::pre_aggregate_outcome(
                signing_package@,
                signature_shares@,
                public_key_package@,
            ),
    ;

    /// The challenge of a signature on `message` with the commitment `R`.
    fn challenge(
        R: &Element<Self::Group>,
        verifying_key: &VerifyingKey<Self::Group>,
        message: &[u8],
    ) -> (r: Result<Challenge<Self::Group>, Error<Self::Group>>)
        ensures
            outcome(r) == Self::challenge_outcome(
                Self::Group::exponent(*R),
                verifying_key@,
                message@,
            ),
    ;

    /// One signer's share of the signature.
    fn compute_signature_share(
        group_commitment: &GroupCommitment<Self::Group>,
        signer_nonces: &SigningNonces<Self::Group>,
        binding_factor: BindingFactor<Self::Group>,
        lambda_i: Scalar<Self::Group>,
        key_package: &KeyPackage<Self::Group>,
        challenge: Challenge<Self::Group>,
    ) -> (r: SignatureShare<Self::Group>)
        ensures
            r@ == Self::signature_share(
                group_commitment@,
                signer_nonces@,
                binding_factor@,
                value::<Self::Group>(lambda_i),
                key_package@,
                challenge@,
            ),
    ;

    /// Verifies one signer's share of the signature.
    fn verify_share(
        group_commitment: &GroupCommitment<Self::Group>,
        signature_share: &SignatureShare<Self::Group>,
        identifier: Identifier<Self::Group>,
        group_commitment_share: &GroupCommitmentShare<Self::Group>,
        verifying_share: &VerifyingShare<Self::Group>,
        lambda_i: Scalar<Self::Group>,
        challenge: &Challenge<Self::Group>,
    ) -> (r: Result<(), Error<Self::Group>>)
        ensures
            outcome(r) == Self::share_verdict(
                group_commitment@,
                signature_share@,
                identifier@,
                group_commitment_share@,
                verifying_share@,
                value::<Self::Group>(lambda_i),
                challenge@,
            ),
    ;

    /// Verifies a signature.
    fn verify_signature(
        message: &[u8],
        signature: &Signature<Self::Group>,
        public_key: &VerifyingKey<Self::Group>,
    ) -> (r: Result<(), Error<Self::Group>>)
        ensures
            outcome(r) == Self::signature_verdict(message@, signature@, public_key@),
    ;
}

} // verus!
