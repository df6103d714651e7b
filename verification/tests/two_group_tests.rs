//! Tests for two-group signing with group-tagged binding factors over
//! secp256k1 with signatures in the style of taproot.

use frost_core::ciphersuite::{SigningPackageView, SpecShares};
use frost_core::error::ErrorView;
use frost_core::group::{SpecBytes, SpecInteger};
use frost_core::keys::{
    KeyPackage, KeyPackageView, PublicKeyPackage, PublicKeyPackageView, VerifyingShare,
};
use frost_core::round1::{NoncesView, SigningCommitments, SigningNonces};
use frost_core::round2::{compute_signature_share, SignatureShare};
use frost_core::signature::SignatureView;
use frost_core::two_group::{self, SignerGroup, TwoGroupSigningPackage};
use frost_core::{
    compute_lagrange_coefficient, BindingFactor, Challenge, Ciphersuite, Error, Field, FieldError,
    Group, GroupCommitment, GroupCommitmentShare, GroupError, Identifier, IdentifierMap, Signature,
    SigningPackage, VerifyingKey,
};

use k256::elliptic_curve::bigint::U256;
use k256::elliptic_curve::group::GroupEncoding;
use k256::elliptic_curve::hash2curve::{hash_to_field, ExpandMsgXmd};
use k256::elliptic_curve::ops::Reduce;
use k256::elliptic_curve::point::AffineCoordinates;
use k256::elliptic_curve::Field as _;
use k256::{ProjectivePoint, Scalar};
use sha2::{Digest, Sha256};

const CONTEXT_STRING: &[u8] = b"FROST-secp256k1-SHA256-TR-v1";

struct SecpField;

// Specification functions and lemmas are erased from compiled code: the bodies
// that stand for them in the impls below never run.

impl Field for SecpField {
    type Scalar = Scalar;

    fn order() -> SpecInteger {
        unreachable!()
    }

    fn value(_: Scalar) -> SpecInteger {
        unreachable!()
    }

    fn inverse(_: SpecInteger) -> SpecInteger {
        unreachable!()
    }

    fn encoding(_: SpecInteger) -> SpecBytes {
        unreachable!()
    }

    fn lemma_order() {}

    fn lemma_value_range(_: Scalar) {}

    fn lemma_inverse(_: SpecInteger) {}

    fn lemma_encoding(_: SpecInteger, _: SpecInteger) {}

    fn zero() -> Scalar {
        Scalar::ZERO
    }

    fn one() -> Scalar {
        Scalar::ONE
    }

    fn sum(a: Scalar, b: Scalar) -> Scalar {
        a + b
    }

    fn difference(a: Scalar, b: Scalar) -> Scalar {
        a - b
    }

    fn product(a: Scalar, b: Scalar) -> Scalar {
        a * b
    }

    fn invert(a: Scalar) -> Result<Scalar, FieldError> {
        if a == Scalar::ZERO {
            Err(FieldError::InvalidZeroScalar)
        } else {
            Ok(a.invert().unwrap())
        }
    }

    fn same(a: Scalar, b: Scalar) -> bool {
        a == b
    }

    fn precedes(a: Scalar, b: Scalar) -> bool {
        a.to_bytes() < b.to_bytes()
    }

    fn serialize(a: Scalar) -> Vec<u8> {
        a.to_bytes().to_vec()
    }
}

struct SecpGroup;

impl Group for SecpGroup {
    type Field = SecpField;
    type Element = ProjectivePoint;

    fn exponent(_: ProjectivePoint) -> SpecInteger {
        unreachable!()
    }

    fn encoding(_: SpecInteger) -> Result<SpecBytes, GroupError> {
        unreachable!()
    }

    fn lemma_exponent_range(_: ProjectivePoint) {}

    fn lemma_encoding(_: SpecInteger, _: SpecInteger) {}

    fn identity() -> ProjectivePoint {
        ProjectivePoint::IDENTITY
    }

    fn generator() -> ProjectivePoint {
        ProjectivePoint::GENERATOR
    }

    fn sum(a: ProjectivePoint, b: ProjectivePoint) -> ProjectivePoint {
        a + b
    }

    fn scale(a: ProjectivePoint, s: Scalar) -> ProjectivePoint {
        a * s
    }

    fn same(a: ProjectivePoint, b: ProjectivePoint) -> bool {
        a == b
    }

    fn serialize(a: ProjectivePoint) -> Result<Vec<u8>, GroupError> {
        if a == ProjectivePoint::IDENTITY {
            Err(GroupError::InvalidIdentityElement)
        } else {
            Ok(a.to_affine().to_bytes().to_vec())
        }
    }
}

fn hash_to_scalar(domain: &[u8], m: &[u8]) -> Scalar {
    let mut u = [Scalar::ZERO];
    hash_to_field::<ExpandMsgXmd<Sha256>, Scalar>(&[m], &[CONTEXT_STRING, domain], &mut u)
        .unwrap();
    u[0]
}

fn hash_to_bytes(domain: &[u8], m: &[u8]) -> Vec<u8> {
    let mut hasher = Sha256::new();
    hasher.update(CONTEXT_STRING);
    hasher.update(domain);
    hasher.update(m);
    hasher.finalize().to_vec()
}

fn tagged_hash_to_scalar(tag: &str, parts: &[&[u8]]) -> Scalar {
    let tag_hash = Sha256::digest(tag.as_bytes());
    let mut hasher = Sha256::new();
    hasher.update(tag_hash);
    hasher.update(tag_hash);
    for part in parts {
        hasher.update(part);
    }
    <Scalar as Reduce<U256>>::reduce_bytes(&hasher.finalize())
}

fn x_bytes(p: &ProjectivePoint) -> Vec<u8> {
    p.to_affine().x().to_vec()
}

fn has_even_y(p: &ProjectivePoint) -> bool {
    !bool::from(p.to_affine().y_is_odd())
}

fn into_even_y(p: ProjectivePoint) -> ProjectivePoint {
    if has_even_y(&p) {
        p
    } else {
        -p
    }
}

/// The key package for an even key, where `is_even` says whether it is even.
fn key_package_into_even_y(kp: &KeyPackage<SecpGroup>, is_even: bool) -> KeyPackage<SecpGroup> {
    if is_even {
        *kp
    } else {
        KeyPackage {
            identifier: kp.identifier,
            signing_share: -kp.signing_share,
            verifying_share: VerifyingShare(-kp.verifying_share.0),
            verifying_key: VerifyingKey(-kp.verifying_key.0),
            min_signers: kp.min_signers,
        }
    }
}

fn taptweak(p: &ProjectivePoint, merkle_root: &[u8]) -> Scalar {
    tagged_hash_to_scalar("TapTweak", &[&x_bytes(p), merkle_root])
}

fn tweak_key_package(kp: &KeyPackage<SecpGroup>, merkle_root: &[u8]) -> KeyPackage<SecpGroup> {
    let t = taptweak(&kp.verifying_key.0, merkle_root);
    let tp = ProjectivePoint::GENERATOR * t;
    let kp = key_package_into_even_y(kp, has_even_y(&kp.verifying_key.0));
    KeyPackage {
        identifier: kp.identifier,
        signing_share: kp.signing_share + t,
        verifying_share: VerifyingShare(kp.verifying_share.0 + tp),
        verifying_key: VerifyingKey(kp.verifying_key.0 + tp),
        min_signers: kp.min_signers,
    }
}

struct Secp256K1Sha256TR;

#[allow(non_snake_case)]
impl Ciphersuite for Secp256K1Sha256TR {
    type Group = SecpGroup;

    fn h1(_: SpecBytes) -> SpecInteger {
        unreachable!()
    }

    fn h4(_: SpecBytes) -> SpecBytes {
        unreachable!()
    }

    fn h5(_: SpecBytes) -> SpecBytes {
        unreachable!()
    }

    fn pre_sign_outcome(
        _: SigningPackageView,
        _: NoncesView,
        _: KeyPackageView,
    ) -> Result<(NoncesView, KeyPackageView), ErrorView> {
        unreachable!()
    }

    fn pre_aggregate_outcome(
        _: SigningPackageView,
        _: SpecShares,
        _: PublicKeyPackageView,
    ) -> Result<(SpecShares, PublicKeyPackageView), ErrorView> {
        unreachable!()
    }

    fn challenge_outcome(
        _: SpecInteger,
        _: SpecInteger,
        _: SpecBytes,
    ) -> Result<SpecInteger, ErrorView> {
        unreachable!()
    }

    fn signature_share(
        _: SpecInteger,
        _: NoncesView,
        _: SpecInteger,
        _: SpecInteger,
        _: KeyPackageView,
        _: SpecInteger,
    ) -> SpecInteger {
        unreachable!()
    }

    fn share_verdict(
        _: SpecInteger,
        _: SpecInteger,
        _: SpecInteger,
        _: SpecInteger,
        _: SpecInteger,
        _: SpecInteger,
        _: SpecInteger,
    ) -> Result<(), ErrorView> {
        unreachable!()
    }

    fn signature_verdict(
        _: SpecBytes,
        _: SignatureView,
        _: SpecInteger,
    ) -> Result<(), ErrorView> {
        unreachable!()
    }

    fn H1(m: &[u8]) -> Scalar {
        hash_to_scalar(b"rho", m)
    }

    fn H4(m: &[u8]) -> Vec<u8> {
        hash_to_bytes(b"msg", m)
    }

    fn H5(m: &[u8]) -> Vec<u8> {
        hash_to_bytes(b"com", m)
    }

    fn pre_sign(
        _signing_package: &SigningPackage<SecpGroup>,
        signer_nonces: &SigningNonces<SecpGroup>,
        key_package: &KeyPackage<SecpGroup>,
    ) -> Result<(SigningNonces<SecpGroup>, KeyPackage<SecpGroup>), Error<SecpGroup>> {
        let is_even = has_even_y(&key_package.verifying_key.0);
        Ok((*signer_nonces, key_package_into_even_y(key_package, is_even)))
    }

    fn pre_aggregate(
        _signing_package: &SigningPackage<SecpGroup>,
        signature_shares: &IdentifierMap<SecpGroup, SignatureShare<SecpGroup>>,
        public_key_package: &PublicKeyPackage<SecpGroup>,
    ) -> Result<
        (
            IdentifierMap<SecpGroup, SignatureShare<SecpGroup>>,
            PublicKeyPackage<SecpGroup>,
        ),
        Error<SecpGroup>,
    > {
        let is_even = has_even_y(&public_key_package.verifying_key.0);
        let shares = &public_key_package.verifying_shares;
        let mut verifying_shares = IdentifierMap::new();
        for i in 0..shares.len() {
            let share = shares.value_at(i).0;
            verifying_shares.insert(
                shares.key_at(i),
                VerifyingShare(if is_even { share } else { -share }),
            );
        }
        let pubkeys = PublicKeyPackage {
            verifying_shares,
            verifying_key: VerifyingKey(into_even_y(public_key_package.verifying_key.0)),
            min_signers: public_key_package.min_signers,
        };
        Ok((signature_shares.clone(), pubkeys))
    }

    fn challenge(
        R: &ProjectivePoint,
        verifying_key: &VerifyingKey<SecpGroup>,
        message: &[u8],
    ) -> Result<Challenge<SecpGroup>, Error<SecpGroup>> {
        Ok(Challenge(tagged_hash_to_scalar(
            "BIP0340/challenge",
            &[&x_bytes(R), &x_bytes(&verifying_key.0), message],
        )))
    }

    fn compute_signature_share(
        group_commitment: &GroupCommitment<SecpGroup>,
        signer_nonces: &SigningNonces<SecpGroup>,
        binding_factor: BindingFactor<SecpGroup>,
        lambda_i: Scalar,
        key_package: &KeyPackage<SecpGroup>,
        challenge: Challenge<SecpGroup>,
    ) -> SignatureShare<SecpGroup> {
        let nonces = if has_even_y(&group_commitment.0) {
            *signer_nonces
        } else {
            SigningNonces::from_nonces(-signer_nonces.hiding, -signer_nonces.binding)
        };
        compute_signature_share(&nonces, binding_factor, lambda_i, key_package, challenge)
    }

    fn verify_share(
        group_commitment: &GroupCommitment<SecpGroup>,
        signature_share: &SignatureShare<SecpGroup>,
        identifier: Identifier<SecpGroup>,
        group_commitment_share: &GroupCommitmentShare<SecpGroup>,
        verifying_share: &VerifyingShare<SecpGroup>,
        lambda_i: Scalar,
        challenge: &Challenge<SecpGroup>,
    ) -> Result<(), Error<SecpGroup>> {
        let share = if has_even_y(&group_commitment.0) {
            group_commitment_share.0
        } else {
            -group_commitment_share.0
        };
        signature_share.verify(
            identifier,
            &GroupCommitmentShare(share),
            verifying_share,
            lambda_i,
            *challenge,
        )
    }

    fn verify_signature(
        message: &[u8],
        signature: &Signature<SecpGroup>,
        public_key: &VerifyingKey<SecpGroup>,
    ) -> Result<(), Error<SecpGroup>> {
        let signature = Signature {
            R: into_even_y(signature.R),
            z: signature.z,
        };
        let public_key = VerifyingKey(into_even_y(public_key.0));
        let challenge = Self::challenge(&signature.R, &public_key, message)?;
        public_key.verify_prehashed(challenge, &signature)
    }
}

type Package = TwoGroupSigningPackage<Secp256K1Sha256TR>;
type KeyPackages = IdentifierMap<SecpGroup, KeyPackage<SecpGroup>>;
type Shares = IdentifierMap<SecpGroup, SignatureShare<SecpGroup>>;
type Nonces = IdentifierMap<SecpGroup, SigningNonces<SecpGroup>>;
type Commitments = IdentifierMap<SecpGroup, SigningCommitments<SecpGroup>>;

fn ok<T>(r: Result<T, Error<SecpGroup>>) -> T {
    match r {
        Ok(t) => t,
        Err(_) => panic!("must succeed"),
    }
}

fn verifies(vk: &VerifyingKey<SecpGroup>, message: &[u8], s: &Signature<SecpGroup>) -> bool {
    Secp256K1Sha256TR::verify_signature(message, s, vk).is_ok()
}

fn id(i: u64) -> Identifier<SecpGroup> {
    ok(Identifier::new(Scalar::from(i)))
}

fn ids(range: std::ops::RangeInclusive<u64>) -> Vec<Identifier<SecpGroup>> {
    range.map(id).collect()
}

struct Groups {
    primary_kps: KeyPackages,
    secondary_kps: KeyPackages,
    /// Primary verifying shares under the combined key, for aggregation.
    pubkeys: PublicKeyPackage<SecpGroup>,
    combined_vk: VerifyingKey<SecpGroup>,
}

/// Shares a random secret among the signers `ids`, any `min` of which hold it.
fn deal(ids: &[Identifier<SecpGroup>], min: u16) -> (Vec<Scalar>, ProjectivePoint) {
    let mut rng = rand::rngs::OsRng;
    let coefficients: Vec<Scalar> = (0..min).map(|_| Scalar::random(&mut rng)).collect();
    let shares = ids
        .iter()
        .map(|id| {
            coefficients
                .iter()
                .rev()
                .fold(Scalar::ZERO, |acc, c| acc * id.to_scalar() + c)
        })
        .collect();
    (shares, ProjectivePoint::GENERATOR * coefficients[0])
}

/// Generates two independent dealer groups whose secrets add up to the key
/// behind `combined_vk`, with every key package carrying the combined
/// verifying key (the key both groups jointly sign under).
fn make_groups(
    primary: (u64, u16),
    secondary: (u64, u16),
    primary_ids: Option<&[Identifier<SecpGroup>]>,
    secondary_ids: Option<&[Identifier<SecpGroup>]>,
) -> Groups {
    let p_ids = primary_ids.map_or_else(|| ids(1..=primary.0), |ids| ids.to_vec());
    let s_ids = secondary_ids.map_or_else(|| ids(1..=secondary.0), |ids| ids.to_vec());
    let (p_shares, p_pub) = deal(&p_ids, primary.1);
    let (s_shares, s_pub) = deal(&s_ids, secondary.1);
    let combined_vk = VerifyingKey(p_pub + s_pub);

    let build = |ids: &[Identifier<SecpGroup>], shares: &[Scalar], min: u16| {
        let mut kps = KeyPackages::new();
        for (id, share) in ids.iter().zip(shares) {
            kps.insert(
                *id,
                KeyPackage {
                    identifier: *id,
                    signing_share: *share,
                    verifying_share: VerifyingShare(ProjectivePoint::GENERATOR * share),
                    verifying_key: combined_vk,
                    min_signers: min,
                },
            );
        }
        kps
    };
    let primary_kps = build(&p_ids, &p_shares, primary.1);
    let secondary_kps = build(&s_ids, &s_shares, secondary.1);
    let mut verifying_shares = IdentifierMap::new();
    for i in 0..primary_kps.len() {
        verifying_shares.insert(primary_kps.key_at(i), primary_kps.value_at(i).verifying_share);
    }
    Groups {
        primary_kps,
        secondary_kps,
        pubkeys: PublicKeyPackage {
            verifying_shares,
            verifying_key: combined_vk,
            min_signers: Some(primary.1),
        },
        combined_vk,
    }
}

fn commit() -> SigningNonces<SecpGroup> {
    let mut rng = rand::rngs::OsRng;
    SigningNonces::from_nonces(Scalar::random(&mut rng), Scalar::random(&mut rng))
}

fn commit_round(signers: &[Identifier<SecpGroup>]) -> (Nonces, Commitments) {
    let mut nonces_map = Nonces::new();
    let mut commitments_map = Commitments::new();
    for id in signers {
        let nonces = commit();
        nonces_map.insert(*id, nonces);
        commitments_map.insert(*id, nonces.commitments);
    }
    (nonces_map, commitments_map)
}

fn sign_group(package: &Package, kps: &KeyPackages, nonces: &Nonces, group: SignerGroup) -> Shares {
    let mut shares = Shares::new();
    for i in 0..nonces.len() {
        let id = nonces.key_at(i);
        let kp = kps.get(&id).unwrap();
        shares.insert(id, ok(two_group::sign(package, nonces.value_at(i), kp, group)));
    }
    shares
}

/// Returns a share whose scalar differs from the input's.
fn corrupt(share: &SignatureShare<SecpGroup>) -> SignatureShare<SecpGroup> {
    SignatureShare(share.0 + Scalar::ONE)
}

#[test]
fn sign_and_aggregate_verifies() {
    // Default identifier lists give BOTH groups identifiers 1..=n, so every
    // run of this test also exercises cross-group identifier collisions.
    // Iterate so both parities of the aggregate nonce R occur.
    for _ in 0..8 {
        let groups = make_groups((5, 3), (3, 2), None, None);
        let message = b"two-group message";

        let (p_nonces, p_commitments) = commit_round(&ids(1..=3));
        let (s_nonces, s_commitments) = commit_round(&ids(1..=2));
        let package = ok(Package::new(p_commitments, s_commitments, message));

        let p_shares = sign_group(&package, &groups.primary_kps, &p_nonces, SignerGroup::Primary);
        let s_shares = sign_group(
            &package,
            &groups.secondary_kps,
            &s_nonces,
            SignerGroup::Secondary,
        );

        let signature = ok(two_group::aggregate(
            &package,
            &p_shares,
            &s_shares,
            &groups.pubkeys,
        ));
        assert!(verifies(&groups.combined_vk, message, &signature));
    }
}

#[test]
fn colliding_identifiers_get_distinct_tagged_binding_factors() {
    let groups = make_groups((3, 2), (3, 2), None, None);
    let message = b"collision message";

    let (_, p_commitments) = commit_round(&ids(1..=2));
    let (_, s_commitments) = commit_round(&ids(1..=2));
    let package = ok(Package::new(p_commitments, s_commitments, message));

    let preimages = ok(package.binding_factor_preimages(&groups.combined_vk));
    let id1 = id(1);
    let find = |group: SignerGroup| {
        preimages
            .iter()
            .find(|(key, _)| key.0 == group && key.1 == id1)
            .map(|(_, preimage)| preimage)
            .unwrap()
    };
    let primary = find(SignerGroup::Primary);
    let secondary = find(SignerGroup::Secondary);

    assert_eq!(primary.first(), Some(&0x00));
    assert_eq!(secondary.first(), Some(&0x01));
    // Same identifier, same commitment set: only the tag distinguishes them.
    assert_eq!(primary[1..], secondary[1..]);
    assert_ne!(primary, secondary);
}

#[test]
fn tampered_primary_shares_are_blamed() {
    let groups = make_groups((5, 3), (3, 2), None, None);
    let message = b"blame message";

    let (p_nonces, p_commitments) = commit_round(&ids(1..=3));
    let (s_nonces, s_commitments) = commit_round(&ids(1..=2));
    let package = ok(Package::new(p_commitments, s_commitments, message));

    let mut p_shares = sign_group(&package, &groups.primary_kps, &p_nonces, SignerGroup::Primary);
    let s_shares = sign_group(
        &package,
        &groups.secondary_kps,
        &s_nonces,
        SignerGroup::Secondary,
    );

    let id1 = id(1);
    let corrupted = corrupt(p_shares.get(&id1).unwrap());
    p_shares.insert(id1, corrupted);

    match two_group::aggregate(&package, &p_shares, &s_shares, &groups.pubkeys) {
        Err(Error::InvalidSignatureShare { culprits }) => {
            assert!(culprits == vec![id1]);
        }
        Err(_) => panic!("expected InvalidSignatureShare"),
        Ok(_) => panic!("tampered primary share must not aggregate"),
    }
}

#[test]
fn bad_secondary_share_fails_without_blame() {
    let groups = make_groups((5, 3), (3, 2), None, None);
    let message = b"secondary failure message";

    let (p_nonces, p_commitments) = commit_round(&ids(1..=3));
    let (s_nonces, s_commitments) = commit_round(&ids(1..=2));
    let package = ok(Package::new(p_commitments, s_commitments, message));

    let p_shares = sign_group(&package, &groups.primary_kps, &p_nonces, SignerGroup::Primary);
    let mut s_shares = sign_group(
        &package,
        &groups.secondary_kps,
        &s_nonces,
        SignerGroup::Secondary,
    );

    let id1 = id(1);
    let corrupted = corrupt(s_shares.get(&id1).unwrap());
    s_shares.insert(id1, corrupted);

    // No per-signer verification material exists for the secondary group, so
    // the failure is reported without blame.
    let result = two_group::aggregate(&package, &p_shares, &s_shares, &groups.pubkeys);
    assert!(matches!(result, Err(Error::InvalidSignature)));
}

#[test]
fn divergent_primary_commitment_view_fails_loudly() {
    let groups = make_groups((5, 3), (3, 2), None, None);
    let message = b"divergent view message";

    let (p_nonces, p_commitments) = commit_round(&ids(1..=3));
    let (s_nonces, s_commitments) = commit_round(&ids(1..=2));
    let package = ok(Package::new(p_commitments.clone(), s_commitments.clone(), message));

    let p_shares = sign_group(&package, &groups.primary_kps, &p_nonces, SignerGroup::Primary);

    // One secondary signer binds a different primary commitment set (its own
    // freshly resampled commitment for primary signer 1).
    let id1 = id(1);
    let id2 = id(2);
    let mut divergent_p_commitments = p_commitments;
    divergent_p_commitments.insert(id1, commit().commitments);
    let divergent_package = ok(Package::new(divergent_p_commitments, s_commitments, message));

    let mut s_shares = Shares::new();
    s_shares.insert(
        id1,
        ok(two_group::sign(
            &divergent_package,
            s_nonces.get(&id1).unwrap(),
            groups.secondary_kps.get(&id1).unwrap(),
            SignerGroup::Secondary,
        )),
    );
    s_shares.insert(
        id2,
        ok(two_group::sign(
            &package,
            s_nonces.get(&id2).unwrap(),
            groups.secondary_kps.get(&id2).unwrap(),
            SignerGroup::Secondary,
        )),
    );

    // All primary shares verify against the true package, so the divergence
    // is detected by the aggregate check and reported without blame.
    let result = two_group::aggregate(&package, &p_shares, &s_shares, &groups.pubkeys);
    assert!(matches!(result, Err(Error::InvalidSignature)));
}

#[test]
fn tweaked_two_group_sign_and_aggregate_verifies() {
    // The taptweak scalar enters the key sum exactly once, on the secondary
    // (user) side, which tweaks at signing time a key package carrying the
    // untweaked combined key. Primary (operator) key packages are
    // pre-normalized to the untweaked combined key's parity and carry the
    // tweaked combined key, and sign without further tweaking. The aggregation
    // public-key package holds the tweaked combined key and the primary
    // verifying shares exactly as the primary signers signed (pre-normalized,
    // no tweak).
    let merkle_root: Vec<u8> = vec![];
    for _ in 0..4 {
        let groups = make_groups((5, 3), (3, 2), None, None);
        let message = b"tweaked two-group message";

        let untweaked_vk = groups.combined_vk;
        let t = taptweak(&untweaked_vk.0, &merkle_root);
        let tweaked_vk =
            VerifyingKey(into_even_y(untweaked_vk.0) + ProjectivePoint::GENERATOR * t);

        let mut primary_kps = KeyPackages::new();
        let mut primary_verifying_shares = IdentifierMap::new();
        for i in 0..groups.primary_kps.len() {
            let kp = groups.primary_kps.value_at(i);
            let mut normalized = key_package_into_even_y(kp, has_even_y(&untweaked_vk.0));
            normalized.verifying_key = tweaked_vk;
            primary_verifying_shares.insert(kp.identifier, normalized.verifying_share);
            primary_kps.insert(kp.identifier, normalized);
        }

        let (p_nonces, p_commitments) = commit_round(&ids(1..=3));
        let (s_nonces, s_commitments) = commit_round(&ids(1..=2));
        let package = ok(Package::new(p_commitments, s_commitments, message));

        let p_shares = sign_group(&package, &primary_kps, &p_nonces, SignerGroup::Primary);
        let mut tweaked_secondary_kps = KeyPackages::new();
        for i in 0..groups.secondary_kps.len() {
            let kp = groups.secondary_kps.value_at(i);
            tweaked_secondary_kps.insert(kp.identifier, tweak_key_package(kp, &merkle_root));
        }
        let s_shares = sign_group(
            &package,
            &tweaked_secondary_kps,
            &s_nonces,
            SignerGroup::Secondary,
        );

        let pubkeys = PublicKeyPackage {
            verifying_shares: primary_verifying_shares,
            verifying_key: tweaked_vk,
            min_signers: Some(3),
        };
        let signature = ok(two_group::aggregate(&package, &p_shares, &s_shares, &pubkeys));
        assert!(verifies(&tweaked_vk, message, &signature));
        assert!(
            !verifies(&untweaked_vk, message, &signature),
            "signature must not verify under the untweaked key"
        );
    }
}

/// Signs in one flat commitment set, with Lagrange coefficients within the
/// group of each signer and with binding factors that carry no tag.
fn flat_signature(
    groups: &Groups,
    rounds: &[(&Nonces, &KeyPackages)],
    message: &[u8],
) -> Signature<SecpGroup> {
    let vk = VerifyingKey(into_even_y(groups.combined_vk.0));
    let mut list = Vec::new();
    for (nonces, _) in rounds {
        for i in 0..nonces.len() {
            let commitments = nonces.value_at(i).commitments;
            list.extend(nonces.key_at(i).serialize());
            list.extend(SecpGroup::serialize(commitments.hiding).unwrap());
            list.extend(SecpGroup::serialize(commitments.binding).unwrap());
        }
    }
    let mut prefix = ok(vk.serialize());
    prefix.extend(Secp256K1Sha256TR::H4(message));
    prefix.extend(Secp256K1Sha256TR::H5(&list));
    let factor = |id: &Identifier<SecpGroup>| {
        let mut preimage = prefix.clone();
        preimage.extend(id.serialize());
        BindingFactor(Secp256K1Sha256TR::H1(&preimage))
    };

    let mut r = ProjectivePoint::IDENTITY;
    for (nonces, _) in rounds {
        for i in 0..nonces.len() {
            let commitments = nonces.value_at(i).commitments;
            r += commitments
                .to_group_commitment_share(&factor(&nonces.key_at(i)))
                .0;
        }
    }
    let challenge = ok(Secp256K1Sha256TR::challenge(&r, &vk, message));
    let mut z = Scalar::ZERO;
    for (nonces, kps) in rounds {
        for i in 0..nonces.len() {
            let id = nonces.key_at(i);
            let kp = key_package_into_even_y(
                kps.get(&id).unwrap(),
                has_even_y(&groups.combined_vk.0),
            );
            z += Secp256K1Sha256TR::compute_signature_share(
                &GroupCommitment(r),
                nonces.value_at(i),
                factor(&id),
                ok(compute_lagrange_coefficient(&nonces.keys(), id)),
                &kp,
                challenge,
            )
            .0;
        }
    }
    Signature { R: r, z }
}

#[test]
fn tagged_scheme_differs_from_flat_participant_groups() {
    // With collision-free identifiers the flat participant-groups scheme can
    // sign the same message with the same nonces; the group tag must still
    // change the binding factors, so the two schemes must produce different
    // signatures (both valid).
    let secondary_ids = ids(101..=103);
    let groups = make_groups((3, 2), (3, 2), None, Some(&secondary_ids));
    let message = b"scheme divergence message";

    let p_signers = ids(1..=2);
    let s_signers = ids(101..=102);
    let (p_nonces, p_commitments) = commit_round(&p_signers);
    let (s_nonces, s_commitments) = commit_round(&s_signers);

    // Tagged two-group signature.
    let package = ok(Package::new(p_commitments, s_commitments, message));
    let p_shares = sign_group(&package, &groups.primary_kps, &p_nonces, SignerGroup::Primary);
    let s_shares = sign_group(
        &package,
        &groups.secondary_kps,
        &s_nonces,
        SignerGroup::Secondary,
    );
    let tagged_signature = ok(two_group::aggregate(
        &package,
        &p_shares,
        &s_shares,
        &groups.pubkeys,
    ));

    // Flat participant-groups signature over the same commitments and nonces.
    let flat_signature = flat_signature(
        &groups,
        &[
            (&p_nonces, &groups.primary_kps),
            (&s_nonces, &groups.secondary_kps),
        ],
        message,
    );

    let serialize = |s: &Signature<SecpGroup>| {
        let mut bytes = x_bytes(&s.R);
        bytes.extend(s.z.to_bytes());
        bytes
    };
    assert_ne!(
        serialize(&tagged_signature),
        serialize(&flat_signature),
        "the group tag must change the binding factors and hence the signature"
    );
    assert!(verifies(&groups.combined_vk, message, &tagged_signature));
    assert!(verifies(&groups.combined_vk, message, &flat_signature));
}
