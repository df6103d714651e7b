//! When a signer signs, and what its share is.
use vstd::prelude::*;

use crate::ciphersuite::{Ciphersuite, SigningPackageView};
use crate::error::ErrorView;
use crate::group::{Field, Group};
use crate::keys::KeyPackageView;
use crate::lagrange::{lagrange, lagrange_outcome};
use crate::laws::aggregation::lemma_keys_contain;
use crate::laws::binding::{law_run_has_group_commitment, lemma_identity_is_some_signers};
use crate::map::{has_key, keys, lemma_lookup, lookup};
use crate::round1::{CommitmentsView, NoncesView};
use crate::scheme::{
    commitment_list, factors_of, group_commitment_outcome, is_package, prepared_sign_outcome,
    sign_outcome, PackageView,
};
use crate::two_group::SignerGroup;

verus! {

/// A signer of either group signs only where its own group takes part with as
/// many signers as its threshold asks for. Where there are fewer, it refuses for
/// that reason, whatever else may be wrong.
pub proof fn law_signing_needs_threshold<C: Ciphersuite>(
    p: PackageView,
    nonces: NoncesView,
    key: KeyPackageView,
    group: SignerGroup,
)
    ensures
        ({
            let signers = match group {
                SignerGroup::Primary => p.primary.len(),
                SignerGroup::Secondary => p.secondary.len(),
            };
            let result = sign_outcome::<C>(p, nonces, key, group);
            &&& result is Ok ==> signers >= key.min_signers
            &&& signers < key.min_signers ==> result == Err::<int, ErrorView>(
                ErrorView::IncorrectNumberOfCommitments,
            )
        }),
{
}

/// A signer of either group signs only with the nonces that it has committed to
/// in its own group of the package. Where it has not committed there, or to
/// other nonces, it refuses for that reason.
pub proof fn law_signing_needs_own_commitments<C: Ciphersuite>(
    p: PackageView,
    nonces: NoncesView,
    key: KeyPackageView,
    group: SignerGroup,
)
    requires
        is_package::<C::Group>(p),
    ensures
        ({
            let own = match group {
                SignerGroup::Primary => p.primary,
                SignerGroup::Secondary => p.secondary,
            };
            let committed = own.map_values(|e: (int, CommitmentsView)| e.0);
            let result = sign_outcome::<C>(p, nonces, key, group);
            &&& result is Ok ==> own.contains((key.identifier, nonces.commitments))
            &&& own.len() >= key.min_signers && !committed.contains(key.identifier) ==> result
                == Err::<int, ErrorView>(ErrorView::MissingCommitment)
            &&& own.len() >= key.min_signers && committed.contains(key.identifier)
                && !own.contains((key.identifier, nonces.commitments)) ==> result == Err::<
                int,
                ErrorView,
            >(ErrorView::IncorrectCommitment)
        }),
{
    let own = match group {
        SignerGroup::Primary => p.primary,
        SignerGroup::Secondary => p.secondary,
    };
    let id = key.identifier;
    lemma_keys_contain(own, id);
    if has_key(own, id) {
        let i = choose|i: int| 0 <= i < own.len() && #[trigger] own[i].0 == id;
        lemma_lookup(own, i);
        assert(own[i] == (id, lookup(own, id)->0));
    }
}

/// A signer that has passed these checks does as the pre-processing of the
/// ciphersuite says, which has seen the commitments of the signer's own group and
/// the message: it fails with its error, or signs with what it has made of the
/// nonces and the key material.
pub proof fn law_signing_follows_pre_processing<C: Ciphersuite>(
    p: PackageView,
    nonces: NoncesView,
    key: KeyPackageView,
    group: SignerGroup,
)
    requires
        is_package::<C::Group>(p),
        ({
            let own = match group {
                SignerGroup::Primary => p.primary,
                SignerGroup::Secondary => p.secondary,
            };
            own.len() >= key.min_signers && own.contains((key.identifier, nonces.commitments))
        }),
    ensures
        ({
            let own = match group {
                SignerGroup::Primary => p.primary,
                SignerGroup::Secondary => p.secondary,
            };
            sign_outcome::<C>(p, nonces, key, group) == match C::pre_sign_outcome(
                SigningPackageView { signing_commitments: own, message: p.message },
                nonces,
                key,
            ) {
                Err(e) => Err(e),
                Ok(made) => prepared_sign_outcome::<C>(p, made.0, made.1, group),
            }
        }),
{
    let own = match group {
        SignerGroup::Primary => p.primary,
        SignerGroup::Secondary => p.secondary,
    };
    let i = choose|i: int|
        0 <= i < own.len() && own[i] == (key.identifier, nonces.commitments);
    assert(own[i].0 == key.identifier);
    lemma_lookup(own, i);
}

/// A share is that of the ciphersuite for the one group commitment over both
/// groups, the signer's nonces, the hash of the signer's whole preimage, its
/// Lagrange coefficient among the signers of its own group, its key material, and
/// the challenge for the commitment, the key and the message. Signing fails,
/// with the first reason of these, where the key or a commitment has no encoding,
/// where the signer does not take part, where there is no group commitment, and
/// where there is no challenge.
pub proof fn law_share_of_prepared_signer<C: Ciphersuite>(
    p: PackageView,
    nonces: NoncesView,
    key: KeyPackageView,
    group: SignerGroup,
)
    requires
        is_package::<C::Group>(p),
    ensures
        ({
            let own = match group {
                SignerGroup::Primary => p.primary,
                SignerGroup::Secondary => p.secondary,
            };
            let tag = match group {
                SignerGroup::Primary => 0x00u8,
                SignerGroup::Secondary => 0x01u8,
            };
            let result = prepared_sign_outcome::<C>(p, nonces, key, group);
            match (
                C::Group::encoding(key.verifying_key),
                commitment_list::<C::Group>(p.signers()),
            ) {
                (Err(e), _) => result == Err::<int, ErrorView>(ErrorView::GroupError(e)),
                (Ok(_), Err(e)) => result == Err::<int, ErrorView>(e),
                (Ok(vk), Ok(list)) => {
                    let suffix = vk + C::h4(p.message) + C::h5(list);
                    if !Seq::new(own.len(), |i: int| own[i].0).contains(key.identifier) {
                        result == Err::<int, ErrorView>(ErrorView::UnknownIdentifier)
                    } else {
                        match group_commitment_outcome::<C::Group>(
                            p.signers(),
                            factors_of::<C>(suffix, p.signers()),
                        ) {
                            Err(e) => result == Err::<int, ErrorView>(e),
                            Ok(r) => match C::challenge_outcome(r, key.verifying_key, p.message) {
                                Err(e) => result == Err::<int, ErrorView>(e),
                                Ok(c) => result == Ok::<int, ErrorView>(
                                    C::signature_share(
                                        r,
                                        nonces,
                                        C::h1(
                                            seq![tag] + suffix
                                                + <C::Group as Group>::Field::encoding(
                                                key.identifier,
                                            ),
                                        ),
                                        lagrange::<<C::Group as Group>::Field>(
                                            Seq::new(own.len(), |i: int| own[i].0),
                                            key.identifier,
                                        ),
                                        key,
                                        c,
                                    ),
                                ),
                            },
                        }
                    }
                },
            }
        }),
{
    let own = match group {
        SignerGroup::Primary => p.primary,
        SignerGroup::Secondary => p.secondary,
    };
    assert(keys(own) =~= Seq::new(own.len(), |i: int| own[i].0));
    lemma_keys_contain(own, key.identifier);
    if C::Group::encoding(key.verifying_key) is Ok && commitment_list::<C::Group>(
        p.signers(),
    ) is Ok {
        let suffix = C::Group::encoding(key.verifying_key)->Ok_0 + C::h4(p.message) + C::h5(
            commitment_list::<C::Group>(p.signers())->Ok_0,
        );
        law_run_has_group_commitment::<C>(p, suffix);
        lemma_identity_is_some_signers(p);
    }
}

/// Nobody signs where anybody, of either group, has committed to the identity.
pub proof fn law_nobody_signs_with_identity<C: Ciphersuite>(
    p: PackageView,
    nonces: NoncesView,
    key: KeyPackageView,
    group: SignerGroup,
)
    requires
        is_package::<C::Group>(p),
        sign_outcome::<C>(p, nonces, key, group) is Ok,
    ensures
        forall|i: int|
            0 <= i < p.primary.len() ==> (#[trigger] p.primary[i]).1.hiding != 0
                && p.primary[i].1.binding != 0,
        forall|i: int|
            0 <= i < p.secondary.len() ==> (#[trigger] p.secondary[i]).1.hiding != 0
                && p.secondary[i].1.binding != 0,
{
    lemma_identity_is_some_signers(p);
}

/// There is a Lagrange coefficient among given points for each of them and for
/// nothing else.
pub proof fn law_lagrange_coefficients_of_points<F: Field>(xs: Seq<int>, x: int)
    ensures
        lagrange_outcome::<F>(xs, x) == if xs.len() == 0 {
            Err(ErrorView::IncorrectNumberOfIdentifiers)
        } else if forall|i: int| 0 <= i < xs.len() ==> #[trigger] xs[i] != x {
            Err(ErrorView::UnknownIdentifier)
        } else {
            Ok(lagrange::<F>(xs, x))
        },
{
}

} // verus!
