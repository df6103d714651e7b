//! Tests of two-group signing with a ciphersuite that encodes the identity and
//! whose hooks can fail.

use frost_core::ciphersuite::{SigningPackageView, SpecShares};
use frost_core::error::ErrorView;
use frost_core::group::{SpecBytes, SpecInteger};
use frost_core::keys::{
    KeyPackage, KeyPackageView, PublicKeyPackage, PublicKeyPackageView, VerifyingShare,
};
use frost_core::residues::{EvenResidues, Residue, ResidueGroup, Residues};
use frost_core::round1::{NoncesView, SigningCommitments, SigningNonces};
use frost_core::round2::{compute_signature_share, SignatureShare};
use frost_core::signature::SignatureView;
use frost_core::two_group::{aggregate, sign, SignerGroup, TwoGroupSigningPackage};
use frost_core::{
    BindingFactor, Challenge, Ciphersuite, Error, Field, FieldError, Group, GroupCommitment,
    GroupCommitmentShare, GroupError, Identifier, IdentifierMap, Signature, SigningPackage,
    VerifyingKey,
};

/// Residues under addition, all of which can be encoded.
struct PlainGroup;

// Specification functions and lemmas are erased from compiled code: the bodies
// that stand for them in the impls below never run.

impl Group for PlainGroup {
    type Field = Residues;
    type Element = Residue;

    fn exponent(_: Residue) -> SpecInteger {
        unreachable!()
    }

    fn encoding(_: SpecInteger) -> Result<SpecBytes, GroupError> {
        unreachable!()
    }

    fn lemma_exponent_range(_: Residue) {}

    fn lemma_encoding(_: SpecInteger, _: SpecInteger) {}

    fn identity() -> Residue {
        ResidueGroup::identity()
    }

    fn generator() -> Residue {
        ResidueGroup::generator()
    }

    fn sum(a: Residue, b: Residue) -> Residue {
        ResidueGroup::sum(a, b)
    }

    fn scale(a: Residue, s: Residue) -> Residue {
        ResidueGroup::scale(a, s)
    }

    fn same(a: Residue, b: Residue) -> bool {
        ResidueGroup::same(a, b)
    }

    fn serialize(a: Residue) -> Result<Vec<u8>, GroupError> {
        Ok(vec![a.get()])
    }
}

/// Plain Schnorr signatures, with hooks that fail on some messages.
struct Plain;

fn failure() -> Error<PlainGroup> {
    Error::FieldError(FieldError::MalformedScalar)
}

#[allow(non_snake_case)]
impl Ciphersuite for Plain {
    type Group = PlainGroup;

    fn h1(_: SpecBytes) -> SpecInteger {
        unreachable!()
    }

    fn h4(_: SpecBytes) -> SpecBytes {
        unreachable!()
    }

    fn h5(_: SpecBytes) -> SpecBytes {
        unreachable!()
    }

    fn pre_sign_outcome(
        _: SigningPackageView,
        _: NoncesView,
        _: KeyPackageView,
    ) -> Result<(NoncesView, KeyPackageView), ErrorView> {
        unreachable!()
    }

    fn pre_aggregate_outcome(
        _: SigningPackageView,
        _: SpecShares,
        _: PublicKeyPackageView,
    ) -> Result<(SpecShares, PublicKeyPackageView), ErrorView> {
        unreachable!()
    }

    fn challenge_outcome(
        _: SpecInteger,
        _: SpecInteger,
        _: SpecBytes,
    ) -> Result<SpecInteger, ErrorView> {
        unreachable!()
    }

    fn signature_share(
        _: SpecInteger,
        _: NoncesView,
        _: SpecInteger,
        _: SpecInteger,
        _: KeyPackageView,
        _: SpecInteger,
    ) -> SpecInteger {
        unreachable!()
    }

    fn share_verdict(
        _: SpecInteger,
        _: SpecInteger,
        _: SpecInteger,
        _: SpecInteger,
        _: SpecInteger,
        _: SpecInteger,
        _: SpecInteger,
    ) -> Result<(), ErrorView> {
        unreachable!()
    }

    fn signature_verdict(
        _: SpecBytes,
        _: SignatureView,
        _: SpecInteger,
    ) -> Result<(), ErrorView> {
        unreachable!()
    }

    fn H1(m: &[u8]) -> Residue {
        EvenResidues::H1(m)
    }

    fn H4(m: &[u8]) -> Vec<u8> {
        EvenResidues::H4(m)
    }

    fn H5(m: &[u8]) -> Vec<u8> {
        EvenResidues::H5(m)
    }

    /// On "renamed", the signer becomes signer 2. On "synthetic", the hook
    /// insists on a package of two signers of the group that signs.
    fn pre_sign(
        signing_package: &SigningPackage<PlainGroup>,
        signer_nonces: &SigningNonces<PlainGroup>,
        key_package: &KeyPackage<PlainGroup>,
    ) -> Result<(SigningNonces<PlainGroup>, KeyPackage<PlainGroup>), Error<PlainGroup>> {
        let mut key_package = *key_package;
        match signing_package.message.as_slice() {
            b"no signing" => return Err(failure()),
            b"renamed" => key_package.identifier = id(2),
            b"synthetic" => {
                let commitments = &signing_package.signing_commitments;
                let own = commitments.get(&key_package.identifier).unwrap();
                assert_eq!(commitments.len(), 2);
                assert!(*own == signer_nonces.commitments);
            }
            _ => {}
        }
        Ok((*signer_nonces, key_package))
    }

    fn pre_aggregate(
        signing_package: &SigningPackage<PlainGroup>,
        signature_shares: &IdentifierMap<PlainGroup, SignatureShare<PlainGroup>>,
        public_key_package: &PublicKeyPackage<PlainGroup>,
    ) -> Result<
        (
            IdentifierMap<PlainGroup, SignatureShare<PlainGroup>>,
            PublicKeyPackage<PlainGroup>,
        ),
        Error<PlainGroup>,
    > {
        if signing_package.message.as_slice() == b"no aggregation" {
            return Err(failure());
        }
        // The package is that of the primary signers.
        assert!(signing_package
            .signing_commitments
            .keys_within(signature_shares));
        Ok((
            signature_shares.clone(),
            PublicKeyPackage {
                verifying_shares: public_key_package.verifying_shares.clone(),
                verifying_key: public_key_package.verifying_key,
                min_signers: public_key_package.min_signers,
            },
        ))
    }

    fn challenge(
        R: &Residue,
        verifying_key: &VerifyingKey<PlainGroup>,
        message: &[u8],
    ) -> Result<Challenge<PlainGroup>, Error<PlainGroup>> {
        if message == b"no challenge" {
            return Err(failure());
        }
        let mut input = vec![R.get(), verifying_key.0.get()];
        input.extend_from_slice(message);
        Ok(Challenge(EvenResidues::H1(&input)))
    }

    fn compute_signature_share(
        _: &GroupCommitment<PlainGroup>,
        signer_nonces: &SigningNonces<PlainGroup>,
        binding_factor: BindingFactor<PlainGroup>,
        lambda_i: Residue,
        key_package: &KeyPackage<PlainGroup>,
        challenge: Challenge<PlainGroup>,
    ) -> SignatureShare<PlainGroup> {
        compute_signature_share(
            signer_nonces,
            binding_factor,
            lambda_i,
            key_package,
            challenge,
        )
    }

    fn verify_share(
        _: &GroupCommitment<PlainGroup>,
        signature_share: &SignatureShare<PlainGroup>,
        identifier: Identifier<PlainGroup>,
        group_commitment_share: &GroupCommitmentShare<PlainGroup>,
        verifying_share: &VerifyingShare<PlainGroup>,
        lambda_i: Residue,
        challenge: &Challenge<PlainGroup>,
    ) -> Result<(), Error<PlainGroup>> {
        signature_share.verify(
            identifier,
            group_commitment_share,
            verifying_share,
            lambda_i,
            *challenge,
        )
    }

    fn verify_signature(
        message: &[u8],
        signature: &Signature<PlainGroup>,
        public_key: &VerifyingKey<PlainGroup>,
    ) -> Result<(), Error<PlainGroup>> {
        let challenge = Self::challenge(&signature.R, public_key, message)?;
        public_key.verify_prehashed(challenge, signature)
    }
}

type Package = TwoGroupSigningPackage<Plain>;
type Commitments = IdentifierMap<PlainGroup, SigningCommitments<PlainGroup>>;
type Shares = IdentifierMap<PlainGroup, SignatureShare<PlainGroup>>;

fn id(n: u8) -> Identifier<PlainGroup> {
    match Identifier::new(Residue::new(n)) {
        Ok(id) => id,
        Err(_) => panic!("nonzero identifier"),
    }
}

fn nonces(hiding: u8, binding: u8) -> SigningNonces<PlainGroup> {
    SigningNonces::from_nonces(Residue::new(hiding), Residue::new(binding))
}

fn commitments(entries: &[(u8, u8, u8)]) -> Commitments {
    let mut map = Commitments::new();
    for (i, hiding, binding) in entries {
        map.insert(id(*i), nonces(*hiding, *binding).commitments);
    }
    map
}

const PRIMARY: [(u8, u8, u8); 2] = [(1, 4, 9), (3, 6, 2)];
const SECONDARY: [(u8, u8, u8); 2] = [(1, 10, 3), (2, 5, 7)];

fn package(primary: &[(u8, u8, u8)], secondary: &[(u8, u8, u8)], message: &[u8]) -> Package {
    match Package::new(commitments(primary), commitments(secondary), message) {
        Ok(package) => package,
        Err(_) => panic!("both groups take part"),
    }
}

/// The key package of a primary signer, on 5 + 3 x, or of a secondary signer, on
/// 7 + 2 x.
fn key_package(group: SignerGroup, i: u8) -> KeyPackage<PlainGroup> {
    let share = match group {
        SignerGroup::Primary => 5 + 3 * i,
        SignerGroup::Secondary => 7 + 2 * i,
    };
    KeyPackage {
        identifier: id(i),
        signing_share: Residue::new(share),
        verifying_share: VerifyingShare(Residue::new(share)),
        verifying_key: VerifyingKey(Residue::new(12)),
        min_signers: 2,
    }
}

fn public_keys() -> PublicKeyPackage<PlainGroup> {
    let mut verifying_shares = IdentifierMap::new();
    for i in [1, 2, 3] {
        let kp = key_package(SignerGroup::Primary, i);
        verifying_shares.insert(id(i), kp.verifying_share);
    }
    PublicKeyPackage {
        verifying_shares,
        verifying_key: VerifyingKey(Residue::new(12)),
        min_signers: Some(2),
    }
}

fn sign_group(
    package: &Package,
    group: SignerGroup,
    signers: &[(u8, u8, u8)],
) -> Result<Shares, Error<PlainGroup>> {
    let mut shares = Shares::new();
    for (i, hiding, binding) in signers {
        let kp = key_package(group, *i);
        shares.insert(id(*i), sign(package, &nonces(*hiding, *binding), &kp, group)?);
    }
    Ok(shares)
}

fn run(package: &Package) -> Result<Signature<PlainGroup>, Error<PlainGroup>> {
    let primary = sign_group(package, SignerGroup::Primary, &PRIMARY)?;
    let secondary = sign_group(package, SignerGroup::Secondary, &SECONDARY)?;
    aggregate(package, &primary, &secondary, &public_keys())
}

fn zero_shares(signers: &[(u8, u8, u8)]) -> Shares {
    let mut shares = Shares::new();
    for (i, _, _) in signers {
        shares.insert(id(*i), SignatureShare(Residue::new(0)));
    }
    shares
}

#[test]
fn plain_signatures_verify() {
    for message in [b"plain" as &[u8], b"synthetic", b""] {
        let package = package(&PRIMARY, &SECONDARY, message);
        match run(&package) {
            Ok(signature) => {
                let key = VerifyingKey(Residue::new(12));
                assert!(Plain::verify_signature(message, &signature, &key).is_ok());
            }
            Err(_) => panic!("must succeed"),
        }
    }
}

#[test]
fn commitments_to_the_identity_are_refused() {
    let bad: [[(u8, u8, u8); 2]; 4] = [
        [(1, 0, 9), (3, 6, 2)],
        [(1, 4, 0), (3, 6, 2)],
        [(1, 4, 9), (3, 0, 2)],
        [(1, 4, 9), (3, 6, 0)],
    ];
    for primary in bad {
        let package = package(&primary, &SECONDARY, b"plain");
        let kp = key_package(SignerGroup::Secondary, 2);
        assert!(matches!(
            sign(&package, &nonces(5, 7), &kp, SignerGroup::Secondary),
            Err(Error::IdentityCommitment)
        ));
        let result = aggregate(
            &package,
            &zero_shares(&primary),
            &zero_shares(&SECONDARY),
            &public_keys(),
        );
        assert!(matches!(result, Err(Error::IdentityCommitment)));
    }
    // A signer refuses its own commitments to the identity too.
    let package = package(&PRIMARY, &[(1, 10, 3), (2, 5, 0)], b"plain");
    let kp = key_package(SignerGroup::Secondary, 2);
    assert!(matches!(
        sign(&package, &nonces(5, 0), &kp, SignerGroup::Secondary),
        Err(Error::IdentityCommitment)
    ));
}

#[test]
fn errors_of_hooks_are_passed_on() {
    let kp = key_package(SignerGroup::Primary, 1);
    for message in [b"no signing" as &[u8], b"no challenge"] {
        let package = package(&PRIMARY, &SECONDARY, message);
        assert!(matches!(
            sign(&package, &nonces(4, 9), &kp, SignerGroup::Primary),
            Err(Error::FieldError(FieldError::MalformedScalar))
        ));
    }
    for message in [b"no aggregation" as &[u8], b"no challenge"] {
        let package = package(&PRIMARY, &SECONDARY, message);
        let result = aggregate(
            &package,
            &zero_shares(&PRIMARY),
            &zero_shares(&SECONDARY),
            &public_keys(),
        );
        assert!(matches!(
            result,
            Err(Error::FieldError(FieldError::MalformedScalar))
        ));
    }
}

#[test]
fn signer_that_a_hook_renames_must_take_part() {
    let primary = package(&PRIMARY, &SECONDARY, b"renamed");
    let kp = key_package(SignerGroup::Primary, 1);
    assert!(matches!(
        sign(&primary, &nonces(4, 9), &kp, SignerGroup::Primary),
        Err(Error::UnknownIdentifier)
    ));
    let kp = key_package(SignerGroup::Secondary, 1);
    assert!(sign(&primary, &nonces(10, 3), &kp, SignerGroup::Secondary).is_ok());
}

#[test]
fn threshold_and_commitments_are_checked_before_hooks() {
    let package = package(&PRIMARY, &SECONDARY, b"no signing");
    let mut kp = key_package(SignerGroup::Primary, 1);
    assert!(matches!(
        sign(&package, &nonces(4, 8), &kp, SignerGroup::Primary),
        Err(Error::IncorrectCommitment)
    ));
    kp.min_signers = 3;
    assert!(matches!(
        sign(&package, &nonces(4, 9), &kp, SignerGroup::Primary),
        Err(Error::IncorrectNumberOfCommitments)
    ));
}
