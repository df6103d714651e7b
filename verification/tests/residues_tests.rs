//! Tests of two-group signing over residues, where every value can be worked
//! out by hand.

use frost_core::keys::{KeyPackage, PublicKeyPackage, VerifyingShare};
use frost_core::residues::{EvenResidues, Residue, ResidueGroup, Residues};
use frost_core::round1::{SigningCommitments, SigningNonces};
use frost_core::round2::SignatureShare;
use frost_core::scalar_mul::vartime_multiscalar_mul;
use frost_core::two_group::{
    aggregate, aggregate_prepared, sign, sign_prepared, SignerGroup, TwoGroupSigningPackage,
};
use frost_core::{
    compute_lagrange_coefficient, BindingFactor, Challenge, Ciphersuite, Error, Field, FieldError,
    Group, GroupError, Identifier, IdentifierMap, Signature, VerifyingKey,
};

type Package = TwoGroupSigningPackage<EvenResidues>;
type Commitments = IdentifierMap<ResidueGroup, SigningCommitments<ResidueGroup>>;
type Shares = IdentifierMap<ResidueGroup, SignatureShare<ResidueGroup>>;
type Outcome<T> = Result<T, Error<ResidueGroup>>;

fn ok<T>(r: Outcome<T>) -> T {
    match r {
        Ok(t) => t,
        Err(_) => panic!("must succeed"),
    }
}

fn residue(n: u8) -> Residue {
    Residue::new(n)
}

fn id(n: u8) -> Identifier<ResidueGroup> {
    ok(Identifier::new(residue(n)))
}

fn nonces(hiding: u8, binding: u8) -> SigningNonces<ResidueGroup> {
    SigningNonces::from_nonces(residue(hiding), residue(binding))
}

fn commitments(entries: &[(u8, u8, u8)]) -> Commitments {
    let mut map = Commitments::new();
    for (i, hiding, binding) in entries {
        map.insert(id(*i), nonces(*hiding, *binding).commitments);
    }
    map
}

fn shares(entries: &[(u8, u8)]) -> Shares {
    let mut map = Shares::new();
    for (i, z) in entries {
        map.insert(id(*i), SignatureShare(residue(*z)));
    }
    map
}

fn key_package(i: u8, share: u8, key: u8, min_signers: u16) -> KeyPackage<ResidueGroup> {
    KeyPackage {
        identifier: id(i),
        signing_share: residue(share),
        verifying_share: VerifyingShare(residue(share)),
        verifying_key: VerifyingKey(residue(key)),
        min_signers,
    }
}

fn public_keys(
    entries: &[(u8, u8)],
    key: u8,
    min_signers: Option<u16>,
) -> PublicKeyPackage<ResidueGroup> {
    let mut verifying_shares = IdentifierMap::new();
    for (i, share) in entries {
        verifying_shares.insert(id(*i), VerifyingShare(residue(*share)));
    }
    PublicKeyPackage {
        verifying_shares,
        verifying_key: VerifyingKey(residue(key)),
        min_signers,
    }
}

const PRIMARY_NONCES: [(u8, u8, u8); 2] = [(1, 4, 9), (3, 6, 2)];
const SECONDARY_NONCES: [(u8, u8, u8); 2] = [(1, 10, 3), (2, 5, 7)];

/// Primary signers 1, 2 and 3 hold points of 5 + 3 x. Two of them sign.
const PRIMARY_SHARES: [(u8, u8); 3] = [(1, 8), (2, 11), (3, 14)];

fn package(message: &[u8]) -> Package {
    ok(Package::new(
        commitments(&PRIMARY_NONCES),
        commitments(&SECONDARY_NONCES),
        message,
    ))
}

/// The secondary signers 1 and 2 hold points of `secret + 2 x`.
fn secondary_share(secret: u8, i: u8) -> u8 {
    secret + 2 * i
}

/// The shares of all signers of both groups.
fn sign_all(p: &Package, secret: u8) -> (Shares, Shares) {
    let key = 5 + secret;
    let mut primary = Shares::new();
    for (i, hiding, binding) in PRIMARY_NONCES {
        let kp = key_package(i, 5 + 3 * i, key, 2);
        primary.insert(
            id(i),
            ok(sign(p, &nonces(hiding, binding), &kp, SignerGroup::Primary)),
        );
    }
    let mut secondary = Shares::new();
    for (i, hiding, binding) in SECONDARY_NONCES {
        let kp = key_package(i, secondary_share(secret, i), key, 2);
        secondary.insert(
            id(i),
            ok(sign(p, &nonces(hiding, binding), &kp, SignerGroup::Secondary)),
        );
    }
    (primary, secondary)
}

fn listed(shares: &Shares) -> Vec<(u8, u8)> {
    (0..shares.len())
        .map(|i| (shares.key_at(i).to_scalar().get(), shares.value_at(i).0.get()))
        .collect()
}

fn culprits(r: Outcome<Signature<ResidueGroup>>) -> Vec<u8> {
    match r {
        Err(Error::InvalidSignatureShare { culprits }) => {
            culprits.iter().map(|id| id.to_scalar().get()).collect()
        }
        _ => panic!("expected InvalidSignatureShare"),
    }
}

#[test]
fn tag_bytes() {
    assert_eq!(SignerGroup::Primary.tag(), 0x00);
    assert_eq!(SignerGroup::Secondary.tag(), 0x01);
    assert!(SignerGroup::Primary < SignerGroup::Secondary);
    for a in [SignerGroup::Primary, SignerGroup::Secondary] {
        for b in [SignerGroup::Primary, SignerGroup::Secondary] {
            assert_eq!(a < b, a.tag() < b.tag());
            assert_eq!(a <= b, a.tag() <= b.tag());
            assert_eq!(a == b, a.tag() == b.tag());
            assert_eq!(a.partial_cmp(&b), Some(a.cmp(&b)));
        }
    }
}

#[test]
fn package_needs_signers_of_both_groups() {
    let some = || commitments(&PRIMARY_NONCES);
    for (primary, secondary) in [
        (Commitments::new(), some()),
        (some(), Commitments::new()),
        (Commitments::new(), Commitments::new()),
    ] {
        assert!(matches!(
            Package::new(primary, secondary, b"m"),
            Err(Error::IncorrectNumberOfCommitments)
        ));
    }
    assert!(Package::new(some(), some(), b"").is_ok());
}

#[test]
fn package_gives_back_what_it_was_made_of() {
    let p = package(b"hello");
    assert_eq!(p.message(), b"hello");
    let primary = p.signing_commitments(SignerGroup::Primary);
    let secondary = p.signing_commitments(SignerGroup::Secondary);
    assert_eq!(primary.len(), 2);
    assert_eq!(primary.get(&id(3)).unwrap().hiding.get(), 6);
    assert_eq!(primary.get(&id(3)).unwrap().binding.get(), 2);
    assert!(primary.get(&id(2)).is_none());
    assert_eq!(secondary.get(&id(2)).unwrap().hiding.get(), 5);
}

#[test]
fn packages_are_equal_if_all_parts_are() {
    let p = package(b"hello");
    assert!(p == p.clone());
    assert!(p != package(b"hellp"));
    assert!(p != package(b"hell"));
    let swapped = ok(Package::new(
        commitments(&SECONDARY_NONCES),
        commitments(&PRIMARY_NONCES),
        b"hello",
    ));
    assert!(p != swapped);
    let other_nonce = ok(Package::new(
        commitments(&PRIMARY_NONCES),
        commitments(&[(1, 10, 3), (2, 5, 8)]),
        b"hello",
    ));
    assert!(p != other_nonce);
    let fewer = ok(Package::new(
        commitments(&PRIMARY_NONCES),
        commitments(&[(1, 10, 3)]),
        b"hello",
    ));
    assert!(p != fewer);
}

#[test]
fn preimages_in_order_of_tag_and_identifier() {
    // H4("hello") is 4, and H5 is 18 of the commitment list
    // 0 1 4 9, 0 3 6 2, 1 1 10 3, 1 2 5 7.
    assert_eq!(EvenResidues::H4(b"hello"), vec![4]);
    assert_eq!(
        EvenResidues::H5(&[0, 1, 4, 9, 0, 3, 6, 2, 1, 1, 10, 3, 1, 2, 5, 7]),
        vec![18]
    );
    let preimages = ok(package(b"hello").binding_factor_preimages(&VerifyingKey(residue(12))));
    let listed: Vec<(SignerGroup, u8, Vec<u8>)> = preimages
        .into_iter()
        .map(|((group, id), bytes)| (group, id.to_scalar().get(), bytes))
        .collect();
    assert_eq!(
        listed,
        vec![
            (SignerGroup::Primary, 1, vec![0, 12, 4, 18, 1]),
            (SignerGroup::Primary, 3, vec![0, 12, 4, 18, 3]),
            (SignerGroup::Secondary, 1, vec![1, 12, 4, 18, 1]),
            (SignerGroup::Secondary, 2, vec![1, 12, 4, 18, 2]),
        ]
    );
}

#[test]
fn order_of_insertion_does_not_matter() {
    let p = ok(Package::new(
        commitments(&[(3, 6, 2), (1, 4, 9)]),
        commitments(&[(2, 5, 7), (1, 10, 3)]),
        b"hello",
    ));
    assert!(p == package(b"hello"));
    let key = VerifyingKey(residue(12));
    let bytes = |p: &Package| -> Vec<Vec<u8>> {
        ok(p.binding_factor_preimages(&key))
            .into_iter()
            .map(|(_, bytes)| bytes)
            .collect()
    };
    assert_eq!(bytes(&p), bytes(&package(b"hello")));
}

#[test]
fn preimages_bind_key_message_and_group_of_commitments() {
    let first = |p: &Package, key: u8| -> Vec<u8> {
        ok(p.binding_factor_preimages(&VerifyingKey(residue(key))))[0].1.clone()
    };
    let p = package(b"hello");
    assert_ne!(first(&p, 12), first(&p, 13));
    assert_ne!(first(&p, 12), first(&package(b"abc"), 12));
    let swapped = ok(Package::new(
        commitments(&SECONDARY_NONCES),
        commitments(&PRIMARY_NONCES),
        b"hello",
    ));
    assert_ne!(first(&p, 12), first(&swapped, 12));
}

#[test]
fn signer_that_moves_to_the_other_group_changes_the_preimages() {
    let common = |primary: &[(u8, u8, u8)], secondary: &[(u8, u8, u8)]| -> Vec<u8> {
        let p = ok(Package::new(commitments(primary), commitments(secondary), b"hello"));
        let preimages = ok(p.binding_factor_preimages(&VerifyingKey(residue(12))));
        preimages[0].1[1..4].to_vec()
    };
    let moved = [(1, 10, 3), (2, 5, 7), (3, 6, 2)];
    assert_eq!(common(&PRIMARY_NONCES, &SECONDARY_NONCES), vec![12, 4, 18]);
    assert_ne!(common(&[(1, 4, 9)], &moved), vec![12, 4, 18]);
}

/// The sum of the shares of the group commitment, under given factors.
fn sum_of_shares(parts: &[(u8, u8, u8)]) -> u8 {
    let mut sum = ResidueGroup::identity();
    for (hiding, binding, factor) in parts {
        let share = nonces(*hiding, *binding)
            .commitments
            .to_group_commitment_share(&BindingFactor(residue(*factor)));
        sum = ResidueGroup::sum(sum, share.0);
    }
    sum.get()
}

#[test]
fn group_commitment_from_its_parts() {
    let p = package(b"abc");
    let factors: Vec<u8> = ok(p.binding_factor_preimages(&VerifyingKey(residue(12))))
        .iter()
        .map(|(_, preimage)| EvenResidues::H1(preimage).get())
        .collect();
    assert_eq!(factors, vec![8, 10, 27, 28]);
    let (primary, secondary) = sign_all(&p, 7);
    let pubkeys = public_keys(&PRIMARY_SHARES, 12, Some(2));
    let signature = ok(aggregate(&p, &primary, &secondary, &pubkeys));
    let parts = [(4, 9, 8), (6, 2, 10), (10, 3, 27), (5, 7, 28)];
    assert_eq!(signature.R.get(), 22);
    assert_eq!(sum_of_shares(&parts), 22);
    // 4 more as the factor of a signer with the binding commitment 3.
    let moved = [(4, 9, 8), (6, 2, 10), (10, 3, 31), (5, 7, 28)];
    assert_eq!(sum_of_shares(&moved), (22 + 4 * 3) % 31);
    // The secondary signers first.
    let exchanged = [(10, 3, 27), (5, 7, 28), (4, 9, 8), (6, 2, 10)];
    assert_eq!(sum_of_shares(&exchanged), 22);
}

#[test]
fn what_cannot_be_encoded_has_no_preimages() {
    let p = package(b"hello");
    assert!(matches!(
        p.binding_factor_preimages(&VerifyingKey(residue(0))),
        Err(Error::GroupError(GroupError::InvalidIdentityElement))
    ));
    for secondary in [[(1, 0, 3), (2, 5, 7)], [(1, 10, 3), (2, 5, 0)]] {
        let p = ok(Package::new(
            commitments(&PRIMARY_NONCES),
            commitments(&secondary),
            b"hello",
        ));
        assert!(matches!(
            p.binding_factor_preimages(&VerifyingKey(residue(12))),
            Err(Error::GroupError(GroupError::InvalidIdentityElement))
        ));
    }
}

#[test]
fn signature_shares_under_even_key() {
    // The group commitment is 22, which is even; the challenge is 6.
    let (primary, secondary) = sign_all(&package(b"abc"), 7);
    assert_eq!(listed(&primary), vec![(1, 24), (3, 15)]);
    assert_eq!(listed(&secondary), vec![(1, 13), (2, 11)]);
    // The group commitment is 13, which is odd; the challenge is 24.
    let (primary, secondary) = sign_all(&package(b"hello"), 7);
    assert_eq!(listed(&primary), vec![(1, 21), (3, 15)]);
    assert_eq!(listed(&secondary), vec![(1, 19), (2, 3)]);
}

#[test]
fn signature_shares_under_odd_key() {
    // The group commitment is 14, which is even; the challenge is 15.
    let (primary, secondary) = sign_all(&package(b"abc"), 8);
    assert_eq!(listed(&primary), vec![(1, 21), (3, 21)]);
    assert_eq!(listed(&secondary), vec![(1, 29), (2, 27)]);
    // The group commitment is 5, which is odd; the challenge is 30.
    let (primary, secondary) = sign_all(&package(b"hello"), 8);
    assert_eq!(listed(&primary), vec![(1, 23), (3, 7)]);
    assert_eq!(listed(&secondary), vec![(1, 20), (2, 20)]);
}

#[test]
fn signatures_of_both_groups_verify() {
    for (secret, message, r, z) in [
        (7, b"abc" as &[u8], 22, 1),
        (7, b"hello", 13, 27),
        (8, b"abc", 14, 5),
        (8, b"hello", 5, 8),
    ] {
        let p = package(message);
        let key = 5 + secret;
        let (primary, secondary) = sign_all(&p, secret);
        let pubkeys = public_keys(&PRIMARY_SHARES, key, Some(2));
        let signature = ok(aggregate(&p, &primary, &secondary, &pubkeys));
        assert_eq!((signature.R.get(), signature.z.get()), (r, z));
        let verify = |key: u8, message: &[u8]| {
            EvenResidues::verify_signature(message, &signature, &VerifyingKey(residue(key)))
        };
        assert!(verify(key, message).is_ok());
        assert!(verify(31 - key, message).is_ok());
        assert!(matches!(verify(key + 2, message), Err(Error::InvalidSignature)));
    }
}

#[test]
fn challenge_value() {
    let challenge = ok(EvenResidues::challenge(
        &residue(13),
        &VerifyingKey(residue(12)),
        b"hello",
    ));
    assert_eq!(challenge.0.get(), 24);
}

#[test]
fn any_signers_of_a_group_above_the_threshold_sign() {
    // All three primary signers take part, though two are enough.
    let primary_nonces = [(1, 4, 9), (2, 1, 1), (3, 6, 2)];
    for message in [b"abc" as &[u8], b"hello", b"", b"b"] {
        let p = ok(Package::new(
            commitments(&primary_nonces),
            commitments(&SECONDARY_NONCES),
            message,
        ));
        let mut primary = Shares::new();
        for (i, hiding, binding) in primary_nonces {
            let kp = key_package(i, 5 + 3 * i, 12, 2);
            primary.insert(
                id(i),
                ok(sign(&p, &nonces(hiding, binding), &kp, SignerGroup::Primary)),
            );
        }
        let mut secondary = Shares::new();
        for (i, hiding, binding) in SECONDARY_NONCES {
            let kp = key_package(i, secondary_share(7, i), 12, 2);
            secondary.insert(
                id(i),
                ok(sign(&p, &nonces(hiding, binding), &kp, SignerGroup::Secondary)),
            );
        }
        let pubkeys = public_keys(&PRIMARY_SHARES, 12, Some(2));
        let signature = ok(aggregate(&p, &primary, &secondary, &pubkeys));
        let key = VerifyingKey(residue(12));
        assert!(EvenResidues::verify_signature(message, &signature, &key).is_ok());
    }
}

#[test]
fn signing_below_the_threshold_fails() {
    let p = package(b"hello");
    let kp = key_package(1, 8, 12, 3);
    assert!(matches!(
        sign(&p, &nonces(4, 9), &kp, SignerGroup::Primary),
        Err(Error::IncorrectNumberOfCommitments)
    ));
    // The threshold comes before the commitment of the signer.
    let kp = key_package(2, 11, 12, 3);
    assert!(matches!(
        sign(&p, &nonces(4, 9), &kp, SignerGroup::Primary),
        Err(Error::IncorrectNumberOfCommitments)
    ));
}

#[test]
fn signing_without_commitment_fails() {
    let p = package(b"hello");
    // The secondary group has a signer 2, the primary group has none.
    let kp = key_package(2, 11, 12, 2);
    assert!(matches!(
        sign(&p, &nonces(5, 7), &kp, SignerGroup::Primary),
        Err(Error::MissingCommitment)
    ));
    assert!(sign(&p, &nonces(5, 7), &kp, SignerGroup::Secondary).is_ok());
}

#[test]
fn signing_with_nonces_of_another_commitment_fails() {
    let p = package(b"hello");
    let kp = key_package(1, 8, 12, 2);
    // These are the nonces of the signer 1 of the secondary group.
    assert!(matches!(
        sign(&p, &nonces(10, 3), &kp, SignerGroup::Primary),
        Err(Error::IncorrectCommitment)
    ));
    assert!(matches!(
        sign(&p, &nonces(4, 10), &kp, SignerGroup::Primary),
        Err(Error::IncorrectCommitment)
    ));
}

#[test]
fn signing_under_the_identity_fails() {
    let p = package(b"hello");
    let kp = key_package(1, 8, 0, 2);
    assert!(matches!(
        sign(&p, &nonces(4, 9), &kp, SignerGroup::Primary),
        Err(Error::GroupError(GroupError::InvalidIdentityElement))
    ));
}

#[test]
fn signing_as_a_stranger_fails() {
    let p = package(b"hello");
    let kp = key_package(2, 11, 12, 2);
    assert!(matches!(
        sign_prepared(&p, &nonces(4, 9), &kp, SignerGroup::Primary),
        Err(Error::UnknownIdentifier)
    ));
}

#[test]
fn prepared_material_is_not_normalized_again() {
    // 18 is the opposite of 13, and 23 is that of 8.
    let p = package(b"hello");
    let kp = key_package(1, 23, 18, 2);
    let share = ok(sign_prepared(&p, &nonces(4, 9), &kp, SignerGroup::Primary));
    assert_eq!(share.0.get(), 23);
}

#[test]
fn aggregation_needs_the_shares_of_exactly_the_signers() {
    let p = package(b"hello");
    let pubkeys = public_keys(&PRIMARY_SHARES, 12, Some(2));
    for (primary, secondary) in [
        (shares(&[(1, 21)]), shares(&[(1, 19), (2, 3)])),
        (shares(&[(1, 21), (2, 15)]), shares(&[(1, 19), (2, 3)])),
        (
            shares(&[(1, 21), (2, 0), (3, 15)]),
            shares(&[(1, 19), (2, 3)]),
        ),
        (shares(&[(1, 21), (3, 15)]), shares(&[(1, 19)])),
        (shares(&[(1, 21), (3, 15)]), shares(&[(1, 19), (3, 3)])),
        (shares(&[]), shares(&[])),
    ] {
        assert!(matches!(
            aggregate(&p, &primary, &secondary, &pubkeys),
            Err(Error::UnknownIdentifier)
        ));
    }
}

#[test]
fn aggregation_needs_verifying_shares_of_primary_signers() {
    let p = package(b"hello");
    let (primary, secondary) = sign_all(&p, 7);
    let pubkeys = public_keys(&[(1, 8), (2, 11)], 12, Some(2));
    assert!(matches!(
        aggregate(&p, &primary, &secondary, &pubkeys),
        Err(Error::UnknownIdentifier)
    ));
    let pubkeys = public_keys(&[(1, 8), (3, 14)], 12, Some(2));
    assert!(aggregate(&p, &primary, &secondary, &pubkeys).is_ok());
}

#[test]
fn aggregation_below_the_threshold_fails() {
    let p = package(b"hello");
    let (primary, secondary) = sign_all(&p, 7);
    let pubkeys = public_keys(&PRIMARY_SHARES, 12, Some(3));
    assert!(matches!(
        aggregate(&p, &primary, &secondary, &pubkeys),
        Err(Error::IncorrectNumberOfShares)
    ));
    let pubkeys = public_keys(&PRIMARY_SHARES, 12, None);
    assert!(aggregate(&p, &primary, &secondary, &pubkeys).is_ok());
}

#[test]
fn aggregation_under_the_identity_fails() {
    let p = package(b"hello");
    let (primary, secondary) = sign_all(&p, 7);
    let pubkeys = public_keys(&PRIMARY_SHARES, 0, Some(2));
    assert!(matches!(
        aggregate(&p, &primary, &secondary, &pubkeys),
        Err(Error::GroupError(GroupError::InvalidIdentityElement))
    ));
}

#[test]
fn tampered_shares_are_found_out() {
    for (secret, message) in [(7, b"abc" as &[u8]), (7, b"hello"), (8, b"abc"), (8, b"hello")] {
        let p = package(message);
        let (primary, secondary) = sign_all(&p, secret);
        let pubkeys = public_keys(&PRIMARY_SHARES, 5 + secret, Some(2));
        let with = |shares: &Shares, i: u8, by: u8| {
            let mut shares = shares.clone();
            let share = shares.get(&id(i)).unwrap().0;
            shares.insert(id(i), SignatureShare(Residues::sum(share, residue(by))));
            shares
        };
        let one = with(&primary, 1, 1);
        let other = with(&primary, 3, 5);
        let both = with(&one, 3, 5);
        assert_eq!(culprits(aggregate(&p, &one, &secondary, &pubkeys)), vec![1]);
        assert_eq!(culprits(aggregate(&p, &other, &secondary, &pubkeys)), vec![3]);
        assert_eq!(culprits(aggregate(&p, &both, &secondary, &pubkeys)), vec![1, 3]);
        // Only the primary signer is blamed where both groups have failed.
        let bad = with(&secondary, 2, 1);
        assert_eq!(culprits(aggregate(&p, &one, &bad, &pubkeys)), vec![1]);
        assert!(matches!(
            aggregate(&p, &primary, &bad, &pubkeys),
            Err(Error::InvalidSignature)
        ));
        // Shares that are wrong add up all the same.
        let balanced = with(&one, 3, 30);
        assert!(aggregate(&p, &balanced, &secondary, &pubkeys).is_ok());
    }
}

#[test]
fn prepared_aggregation_needs_to_know_the_signers_it_blames() {
    let p = package(b"hello");
    let (primary, secondary) = sign_all(&p, 7);
    let unknown = public_keys(&[(1, 8)], 12, Some(2));
    // Nobody is to be blamed for a signature that verifies.
    assert!(aggregate_prepared(&p, &primary, &secondary, &unknown).is_ok());
    let tampered = shares(&[(1, 22), (3, 15)]);
    assert!(matches!(
        aggregate_prepared(&p, &tampered, &secondary, &unknown),
        Err(Error::UnknownIdentifier)
    ));
    let stranger = shares(&[(1, 22), (2, 15)]);
    let pubkeys = public_keys(&PRIMARY_SHARES, 12, Some(2));
    assert!(matches!(
        aggregate_prepared(&p, &stranger, &secondary, &pubkeys),
        Err(Error::UnknownIdentifier)
    ));
}

#[test]
fn lagrange_coefficients() {
    let among = |ids: &[u8], i: u8| {
        let ids: Vec<Identifier<ResidueGroup>> = ids.iter().map(|i| id(*i)).collect();
        compute_lagrange_coefficient(&ids, id(i))
    };
    assert_eq!(ok(among(&[1, 3], 1)).get(), 17);
    assert_eq!(ok(among(&[1, 3], 3)).get(), 15);
    assert_eq!(ok(among(&[1, 2, 3], 2)).get(), 28);
    assert_eq!(ok(among(&[1, 2, 30], 30)).get(), 21);
    assert_eq!(ok(among(&[5], 5)).get(), 1);
    assert!(matches!(among(&[1, 3], 2), Err(Error::UnknownIdentifier)));
    assert!(matches!(among(&[], 2), Err(Error::IncorrectNumberOfIdentifiers)));
}

#[test]
fn interpolation_at_zero() {
    // 5 + 3 x at 1, 2 and 3, from two points and from all three.
    let ids: Vec<Identifier<ResidueGroup>> = vec![id(1), id(2), id(3)];
    for chosen in [vec![0, 1], vec![0, 2], vec![1, 2], vec![0, 1, 2]] {
        let points: Vec<Identifier<ResidueGroup>> = chosen.iter().map(|k| ids[*k]).collect();
        let mut sum = Residues::zero();
        for k in &chosen {
            let lambda = ok(compute_lagrange_coefficient(&points, ids[*k]));
            let share = residue(PRIMARY_SHARES[*k].1);
            sum = Residues::sum(sum, Residues::product(lambda, share));
        }
        assert_eq!(sum.get(), 5);
    }
}

#[test]
fn identifiers_are_nonzero() {
    assert!(matches!(
        Identifier::<ResidueGroup>::new(residue(0)),
        Err(Error::FieldError(FieldError::InvalidZeroScalar))
    ));
    assert!(Identifier::<ResidueGroup>::new(residue(31)).is_err());
    assert_eq!(id(33).to_scalar().get(), 2);
    assert_eq!(id(7).serialize(), vec![7]);
    assert!(id(33) == id(2));
    assert!(id(2) != id(3));
    assert!(id(2).precedes(&id(3)));
    assert!(!id(2).precedes(&id(2)));
}

#[test]
fn map_keeps_identifiers_in_order() {
    let mut map = Shares::new();
    assert!(map.is_empty());
    for i in [5, 2, 9, 1] {
        assert!(map.insert(id(i), SignatureShare(residue(i + 10))).is_none());
    }
    assert_eq!(listed(&map), vec![(1, 11), (2, 12), (5, 15), (9, 19)]);
    let previous = map.insert(id(5), SignatureShare(residue(0)));
    assert_eq!(previous.unwrap().0.get(), 15);
    assert_eq!(listed(&map), vec![(1, 11), (2, 12), (5, 0), (9, 19)]);
    assert!(map.contains_key(&id(9)));
    assert!(!map.contains_key(&id(3)));
    assert_eq!(map.get(&id(2)).unwrap().0.get(), 12);
    assert!(map.get(&id(4)).is_none());
    let keys: Vec<u8> = map.keys().iter().map(|id| id.to_scalar().get()).collect();
    assert_eq!(keys, vec![1, 2, 5, 9]);
    assert!(map.keys_within(&map.clone()));
    assert!(!map.keys_within(&shares(&[(1, 0), (2, 0), (5, 0)])));
    assert!(shares(&[(1, 0), (5, 0)]).keys_within(&map));
    assert_eq!(listed(&map.clone()), listed(&map));
}

#[test]
fn arithmetic_of_residues() {
    assert_eq!(Residues::sum(residue(20), residue(15)).get(), 4);
    assert_eq!(Residues::difference(residue(3), residue(5)).get(), 29);
    assert_eq!(Residues::product(residue(30), residue(30)).get(), 1);
    for n in 1..31 {
        let inverse = Residues::invert(residue(n)).unwrap();
        assert_eq!(Residues::product(residue(n), inverse).get(), 1);
    }
    assert_eq!(
        Residues::invert(residue(31)).map(|r| r.get()),
        Err(FieldError::InvalidZeroScalar)
    );
    assert_eq!(
        ResidueGroup::serialize(residue(0)),
        Err(GroupError::InvalidIdentityElement)
    );
    assert_eq!(ResidueGroup::serialize(residue(30)), Ok(vec![30]));
}

#[test]
fn shares_of_the_group_commitment() {
    let factor = BindingFactor(residue(12));
    let share = nonces(4, 9).commitments.to_group_commitment_share(&factor);
    assert_eq!(share.0.get(), (4 + 9 * 12) % 31);
    let sum = vartime_multiscalar_mul::<ResidueGroup>(
        &vec![residue(12), residue(14)],
        &vec![residue(9), residue(2)],
    );
    assert_eq!(sum.get(), ((12u16 * 9 + 14 * 2) % 31) as u8);
}

#[test]
fn responses_to_challenges() {
    let key = VerifyingKey::<ResidueGroup>(residue(12));
    let answer = |z: u8| {
        let signature = Signature {
            R: residue(10),
            z: residue(z),
        };
        key.verify_prehashed(Challenge(residue(7)), &signature)
    };
    // 10 + 7 * 12 leaves 1.
    assert!(answer(1).is_ok());
    assert!(matches!(answer(2), Err(Error::InvalidSignature)));
    assert_eq!(ok(key.serialize()), vec![12]);
}
