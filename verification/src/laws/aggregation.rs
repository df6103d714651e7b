//! When shares aggregate, to what, and who is to blame if they do not.
use vstd::prelude::*;

use crate::ciphersuite::{Ciphersuite, SigningPackageView};
use crate::error::ErrorView;
use crate::group::{order, Field, Group};
use crate::keys::PublicKeyPackageView;
use crate::lagrange::lagrange;
use crate::laws::binding::{law_run_has_group_commitment, lemma_identity_is_some_signers};
use crate::laws::law_culprits_are_those_that_fail;
use crate::map::{ascending, distinct, has_key, keys, lemma_lookup};
use crate::round1::CommitmentsView;
use crate::scheme::{
    aggregate_outcome, all_verifiable, blame, commitment_list, culprits_of, factors_of,
    group_commitment_outcome, is_culprit, is_package, prepared_aggregate_outcome, share_sum,
    PackageView,
};
use crate::signature::SignatureView;

verus! {

/// Whether entries are held by the same signers, in the same order.
pub open spec fn same_signers<T, U>(a: Seq<(int, T)>, b: Seq<(int, U)>) -> bool {
    a.len() == b.len() && forall|i: int| 0 <= i < a.len() ==> (#[trigger] a[i]).0 == b[i].0
}

proof fn lemma_same_signers<T, U>(a: Seq<(int, T)>, b: Seq<(int, U)>)
    ensures
        same_signers(a, b) <==> keys(a) == keys(b),
{
    assert(keys(a).len() == a.len() && keys(b).len() == b.len());
    if same_signers(a, b) {
        assert forall|i: int| 0 <= i < a.len() implies keys(a)[i] == keys(b)[i] by {
            assert(a[i].0 == b[i].0);
        }
        assert(keys(a) =~= keys(b));
    }
    if keys(a) == keys(b) {
        assert forall|i: int| 0 <= i < a.len() implies (#[trigger] a[i]).0 == b[i].0 by {
            assert(keys(a)[i] == keys(b)[i]);
        }
    }
}

/// Shares aggregate only if, in each of the groups, they are those of exactly the
/// signers that have committed. Where they are not, a signer is unknown.
pub proof fn law_aggregation_needs_complete_shares<C: Ciphersuite>(
    p: PackageView,
    primary_shares: Seq<(int, int)>,
    secondary_shares: Seq<(int, int)>,
    pubkeys: PublicKeyPackageView,
)
    ensures
        ({
            let result = aggregate_outcome::<C>(p, primary_shares, secondary_shares, pubkeys);
            &&& result is Ok ==> same_signers(primary_shares, p.primary) && same_signers(
                secondary_shares,
                p.secondary,
            )
            &&& !same_signers(primary_shares, p.primary) || !same_signers(
                secondary_shares,
                p.secondary,
            ) ==> result == Err::<SignatureView, ErrorView>(ErrorView::UnknownIdentifier)
        }),
{
    lemma_same_signers(primary_shares, p.primary);
    lemma_same_signers(secondary_shares, p.secondary);
}

/// Shares aggregate only if every primary signer has a verifying share. Where one
/// has none, a signer is unknown.
pub proof fn law_aggregation_needs_verifying_shares<C: Ciphersuite>(
    p: PackageView,
    primary_shares: Seq<(int, int)>,
    secondary_shares: Seq<(int, int)>,
    pubkeys: PublicKeyPackageView,
)
    ensures
        ({
            let given = pubkeys.verifying_shares.map_values(|e: (int, int)| e.0);
            let all_given = forall|i: int|
                0 <= i < p.primary.len() ==> given.contains((#[trigger] p.primary[i]).0);
            let result = aggregate_outcome::<C>(p, primary_shares, secondary_shares, pubkeys);
            &&& result is Ok ==> all_given
            &&& !all_given ==> result == Err::<SignatureView, ErrorView>(
                ErrorView::UnknownIdentifier,
            )
        }),
{
    lemma_all_verifiable(p, pubkeys);
}

proof fn lemma_all_verifiable(p: PackageView, pubkeys: PublicKeyPackageView)
    ensures
        ({
            let given = pubkeys.verifying_shares.map_values(|e: (int, int)| e.0);
            all_verifiable(p, pubkeys) <==> forall|i: int|
                0 <= i < p.primary.len() ==> given.contains((#[trigger] p.primary[i]).0)
        }),
{
    let given = pubkeys.verifying_shares;
    assert forall|i: int| 0 <= i < p.primary.len() implies has_key(
        given,
        (#[trigger] p.primary[i]).0,
    ) == given.map_values(|e: (int, int)| e.0).contains(p.primary[i].0) by {
        lemma_keys_contain(given, p.primary[i].0);
    }
}

/// Shares aggregate only if the primary shares alone are as many as the threshold
/// of the primary group asks for, where it is known. Where the shares are those
/// of the signers, and these can be verified, too few of them are refused for
/// that reason.
pub proof fn law_aggregation_needs_threshold<C: Ciphersuite>(
    p: PackageView,
    primary_shares: Seq<(int, int)>,
    secondary_shares: Seq<(int, int)>,
    pubkeys: PublicKeyPackageView,
)
    ensures
        ({
            let result = aggregate_outcome::<C>(p, primary_shares, secondary_shares, pubkeys);
            match pubkeys.min_signers {
                None => true,
                Some(min) => {
                    &&& result is Ok ==> primary_shares.len() >= min
                    &&& primary_shares.len() < min && same_signers(primary_shares, p.primary)
                        && same_signers(secondary_shares, p.secondary) && (forall|i: int|
                        0 <= i < p.primary.len() ==> pubkeys.verifying_shares.map_values(
                            |e: (int, int)| e.0,
                        ).contains((#[trigger] p.primary[i]).0)) ==> result == Err::<
                        SignatureView,
                        ErrorView,
                    >(ErrorView::IncorrectNumberOfShares)
                },
            }
        }),
{
    lemma_same_signers(primary_shares, p.primary);
    lemma_same_signers(secondary_shares, p.secondary);
    lemma_all_verifiable(p, pubkeys);
}

/// Aggregation that has passed these checks does as the pre-processing of the
/// ciphersuite says, which has seen the commitments of the primary group and the
/// message: it fails with its error, or aggregates what it has made of the
/// primary shares and the public key material, with the secondary shares as they
/// are.
pub proof fn law_aggregation_follows_pre_processing<C: Ciphersuite>(
    p: PackageView,
    primary_shares: Seq<(int, int)>,
    secondary_shares: Seq<(int, int)>,
    pubkeys: PublicKeyPackageView,
)
    requires
        same_signers(primary_shares, p.primary),
        same_signers(secondary_shares, p.secondary),
        forall|i: int|
            0 <= i < p.primary.len() ==> pubkeys.verifying_shares.map_values(
                |e: (int, int)| e.0,
            ).contains((#[trigger] p.primary[i]).0),
        pubkeys.min_signers matches Some(min) ==> primary_shares.len() >= min,
    ensures
        aggregate_outcome::<C>(p, primary_shares, secondary_shares, pubkeys)
            == match C::pre_aggregate_outcome(
            SigningPackageView { signing_commitments: p.primary, message: p.message },
            primary_shares,
            pubkeys,
        ) {
            Err(e) => Err(e),
            Ok(made) => prepared_aggregate_outcome::<C>(p, made.0, secondary_shares, made.1),
        },
{
    lemma_same_signers(primary_shares, p.primary);
    lemma_same_signers(secondary_shares, p.secondary);
    lemma_all_verifiable(p, pubkeys);
}

/// Shares of signers, and then of others, add up to the sum of both, and one
/// share to itself.
pub proof fn law_shares_add_up(a: Seq<(int, int)>, b: Seq<(int, int)>, id: int, share: int)
    ensures
        share_sum(a + b) == share_sum(a) + share_sum(b),
        share_sum(Seq::empty()) == 0,
        share_sum(seq![(id, share)]) == share,
    decreases b.len(),
{
    assert(seq![(id, share)].drop_last() =~= Seq::<(int, int)>::empty());
    assert(seq![(id, share)].last() == (id, share));
    if b.len() == 0 {
        assert(a + b =~= a);
    } else {
        assert((a + b).drop_last() =~= a + b.drop_last());
        assert((a + b).last() == b.last());
        law_shares_add_up(a, b.drop_last(), id, share);
    }
}

/// The signature is the group commitment over both groups with the sum of the
/// shares of both groups. It is returned exactly if it verifies for the message
/// under the key. If it does not, aggregation fails for want of a challenge, or
/// with whoever is to blame for it. Before that it fails, with the first reason
/// of these, where the key or a commitment has no encoding and where there is no
/// group commitment.
pub proof fn law_signature_of_prepared_shares<C: Ciphersuite>(
    p: PackageView,
    primary_shares: Seq<(int, int)>,
    secondary_shares: Seq<(int, int)>,
    pubkeys: PublicKeyPackageView,
)
    requires
        is_package::<C::Group>(p),
    ensures
        ({
            let result = prepared_aggregate_outcome::<C>(
                p,
                primary_shares,
                secondary_shares,
                pubkeys,
            );
            match (
                C::Group::encoding(pubkeys.verifying_key),
                commitment_list::<C::Group>(p.signers()),
            ) {
                (Err(e), _) => result == Err::<SignatureView, ErrorView>(ErrorView::GroupError(e)),
                (Ok(_), Err(e)) => result == Err::<SignatureView, ErrorView>(e),
                (Ok(vk), Ok(list)) => {
                    let suffix = vk + C::h4(p.message) + C::h5(list);
                    match group_commitment_outcome::<C::Group>(
                        p.signers(),
                        factors_of::<C>(suffix, p.signers()),
                    ) {
                        Err(e) => result == Err::<SignatureView, ErrorView>(e),
                        Ok(r) => {
                            let signature = SignatureView {
                                R: r,
                                z: (share_sum(primary_shares) + share_sum(secondary_shares))
                                    % order::<C::Group>(),
                            };
                            if C::signature_verdict(
                                p.message,
                                signature,
                                pubkeys.verifying_key,
                            ) is Ok {
                                result == Ok::<SignatureView, ErrorView>(signature)
                            } else {
                                match C::challenge_outcome(
                                    r,
                                    pubkeys.verifying_key,
                                    p.message,
                                ) {
                                    Err(e) => result == Err::<SignatureView, ErrorView>(e),
                                    Ok(c) => result == Err::<SignatureView, ErrorView>(
                                        blame::<C>(p, suffix, primary_shares, pubkeys, c),
                                    ),
                                }
                            }
                        },
                    }
                },
            }
        }),
{
    if C::Group::encoding(pubkeys.verifying_key) is Ok && commitment_list::<C::Group>(
        p.signers(),
    ) is Ok {
        let suffix = C::Group::encoding(pubkeys.verifying_key)->Ok_0 + C::h4(p.message) + C::h5(
            commitment_list::<C::Group>(p.signers())->Ok_0,
        );
        law_run_has_group_commitment::<C>(p, suffix);
        lemma_identity_is_some_signers(p);
    }
}

/// Nothing aggregates where anybody, of either group, has committed to the
/// identity.
pub proof fn law_nothing_aggregates_with_identity<C: Ciphersuite>(
    p: PackageView,
    primary_shares: Seq<(int, int)>,
    secondary_shares: Seq<(int, int)>,
    pubkeys: PublicKeyPackageView,
)
    requires
        is_package::<C::Group>(p),
        aggregate_outcome::<C>(p, primary_shares, secondary_shares, pubkeys) is Ok,
    ensures
        forall|i: int|
            0 <= i < p.primary.len() ==> (#[trigger] p.primary[i]).1.hiding != 0
                && p.primary[i].1.binding != 0,
        forall|i: int|
            0 <= i < p.secondary.len() ==> (#[trigger] p.secondary[i]).1.hiding != 0
                && p.secondary[i].1.binding != 0,
{
    lemma_identity_is_some_signers(p);
}

/// The share of one primary signer fails exactly if the ciphersuite refuses it,
/// for the group commitment, the signer's part in it under the hash of its whole
/// preimage, its verifying share, its Lagrange coefficient among the primary
/// signers, and the challenge.
pub proof fn law_culprit_is_refused_by_ciphersuite<C: Ciphersuite>(
    p: PackageView,
    suffix: Seq<u8>,
    pubkeys: PublicKeyPackageView,
    c: int,
    id: int,
    share: int,
    commitments: CommitmentsView,
    verifying_share: int,
)
    requires
        is_package::<C::Group>(p),
        distinct(pubkeys.verifying_shares),
        p.primary.contains((id, commitments)),
        pubkeys.verifying_shares.contains((id, verifying_share)),
        group_commitment_outcome::<C::Group>(
            p.signers(),
            factors_of::<C>(suffix, p.signers()),
        ) is Ok,
    ensures
        is_culprit::<C>(p, suffix, pubkeys, c, id, share) <==> C::share_verdict(
            group_commitment_outcome::<C::Group>(
                p.signers(),
                factors_of::<C>(suffix, p.signers()),
            )->Ok_0,
            share,
            id,
            (commitments.hiding + C::h1(
                seq![0x00u8] + suffix + <C::Group as Group>::Field::encoding(id),
            ) * commitments.binding) % order::<C::Group>(),
            verifying_share,
            lagrange::<<C::Group as Group>::Field>(
                Seq::new(p.primary.len(), |i: int| p.primary[i].0),
                id,
            ),
            c,
        ) is Err,
{
    let i = choose|i: int| 0 <= i < p.primary.len() && p.primary[i] == (id, commitments);
    let given = pubkeys.verifying_shares;
    let j = choose|j: int| 0 <= j < given.len() && given[j] == (id, verifying_share);
    lemma_lookup(p.primary, i);
    lemma_lookup(given, j);
    assert(keys(p.primary) =~= Seq::new(p.primary.len(), |i: int| p.primary[i].0));
    law_run_has_group_commitment::<C>(p, suffix);
}

/// The culprits among shares, and then among others, are those among the ones
/// followed by those among the others; one share has its signer as the culprit
/// or nobody.
pub proof fn law_culprits_of_both<C: Ciphersuite>(
    p: PackageView,
    suffix: Seq<u8>,
    a: Seq<(int, int)>,
    b: Seq<(int, int)>,
    pubkeys: PublicKeyPackageView,
    c: int,
    id: int,
    share: int,
)
    ensures
        culprits_of::<C>(p, suffix, a + b, pubkeys, c) == culprits_of::<C>(
            p,
            suffix,
            a,
            pubkeys,
            c,
        ) + culprits_of::<C>(p, suffix, b, pubkeys, c),
        culprits_of::<C>(p, suffix, Seq::empty(), pubkeys, c) == Seq::<int>::empty(),
        culprits_of::<C>(p, suffix, seq![(id, share)], pubkeys, c) == if is_culprit::<C>(
            p,
            suffix,
            pubkeys,
            c,
            id,
            share,
        ) {
            seq![id]
        } else {
            Seq::<int>::empty()
        },
    decreases b.len(),
{
    let one = seq![(id, share)];
    assert(one.drop_last() =~= Seq::<(int, int)>::empty());
    assert(one.last() == (id, share));
    assert(Seq::<int>::empty().push(id) =~= seq![id]);
    assert(culprits_of::<C>(p, suffix, Seq::empty(), pubkeys, c) =~= Seq::<int>::empty());
    assert(culprits_of::<C>(p, suffix, one.drop_last(), pubkeys, c) =~= Seq::<int>::empty());
    let before = culprits_of::<C>(p, suffix, a, pubkeys, c);
    if b.len() == 0 {
        assert(a + b =~= a);
        assert(before + Seq::<int>::empty() =~= before);
    } else {
        let rest = culprits_of::<C>(p, suffix, b.drop_last(), pubkeys, c);
        assert((a + b).drop_last() =~= a + b.drop_last());
        assert((a + b).last() == b.last());
        law_culprits_of_both::<C>(p, suffix, a, b.drop_last(), pubkeys, c, id, share);
        assert((before + rest).push(b.last().0) =~= before + rest.push(b.last().0));
    }
}

/// No signer is blamed twice, and they are blamed in the order of their
/// identifiers, as the shares of a group are.
pub proof fn law_culprits_in_order<C: Ciphersuite>(
    p: PackageView,
    suffix: Seq<u8>,
    shares: Seq<(int, int)>,
    pubkeys: PublicKeyPackageView,
    c: int,
)
    requires
        ascending(shares),
    ensures
        ({
            let found = culprits_of::<C>(p, suffix, shares, pubkeys, c);
            forall|i: int, j: int|
                0 <= i < j < found.len() ==> #[trigger] found[i] < #[trigger] found[j]
        }),
    decreases shares.len(),
{
    if shares.len() > 0 {
        let rest = shares.drop_last();
        let before = culprits_of::<C>(p, suffix, rest, pubkeys, c);
        let found = culprits_of::<C>(p, suffix, shares, pubkeys, c);
        let last = shares.len() - 1;
        assert forall|i: int, j: int| 0 <= i < j < rest.len() implies #[trigger] rest[i].0
            < #[trigger] rest[j].0 by {
            assert(shares[i].0 < shares[j].0);
        }
        law_culprits_in_order::<C>(p, suffix, rest, pubkeys, c);
        assert forall|i: int, j: int| 0 <= i < j < found.len() implies #[trigger] found[i]
            < #[trigger] found[j] by {
            if j < before.len() {
                assert(before[i] < before[j]);
            } else {
                assert(before.contains(before[i]));
                law_culprits_are_those_that_fail::<C>(p, suffix, rest, pubkeys, c, before[i]);
                let k = choose|k: int|
                    0 <= k < rest.len() && (#[trigger] rest[k]).0 == before[i] && is_culprit::<C>(
                        p,
                        suffix,
                        pubkeys,
                        c,
                        before[i],
                        rest[k].1,
                    );
                assert(shares[k].0 < shares[last].0);
            }
        }
    }
}

/// Where the signature does not verify, all culprits are named, or nobody if
/// there is none. A primary share of a signer that has not committed, or that
/// has no verifying share, is that of an unknown signer.
pub proof fn law_blame_names_culprits<C: Ciphersuite>(
    p: PackageView,
    suffix: Seq<u8>,
    shares: Seq<(int, int)>,
    pubkeys: PublicKeyPackageView,
    c: int,
)
    ensures
        ({
            let committed = p.primary.map_values(|e: (int, CommitmentsView)| e.0);
            let given = pubkeys.verifying_shares.map_values(|e: (int, int)| e.0);
            let found = culprits_of::<C>(p, suffix, shares, pubkeys, c);
            blame::<C>(p, suffix, shares, pubkeys, c) == if exists|i: int|
                0 <= i < shares.len() && (!committed.contains((#[trigger] shares[i]).0)
                    || !given.contains(shares[i].0)) {
                ErrorView::UnknownIdentifier
            } else if found.len() == 0 {
                ErrorView::InvalidSignature
            } else {
                ErrorView::InvalidSignatureShare { culprits: found }
            }
        }),
{
    let committed = p.primary.map_values(|e: (int, CommitmentsView)| e.0);
    let given = pubkeys.verifying_shares.map_values(|e: (int, int)| e.0);
    assert forall|i: int| 0 <= i < shares.len() implies has_key(p.primary, (#[trigger] shares[i]).0)
        == committed.contains(shares[i].0) && has_key(pubkeys.verifying_shares, shares[i].0)
        == given.contains(shares[i].0) by {
        lemma_keys_contain(p.primary, shares[i].0);
        lemma_keys_contain(pubkeys.verifying_shares, shares[i].0);
    }
}

/// An identifier is a key of entries exactly if it is among their identifiers.
pub proof fn lemma_keys_contain<T>(entries: Seq<(int, T)>, id: int)
    ensures
        has_key(entries, id) == entries.map_values(|e: (int, T)| e.0).contains(id),
{
    let ids = entries.map_values(|e: (int, T)| e.0);
    if has_key(entries, id) {
        let i = choose|i: int| 0 <= i < entries.len() && #[trigger] entries[i].0 == id;
        assert(ids[i] == id);
    }
    if ids.contains(id) {
        let i = choose|i: int| 0 <= i < ids.len() && ids[i] == id;
        assert(entries[i].0 == id);
    }
}

} // verus!
