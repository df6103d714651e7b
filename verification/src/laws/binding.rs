//! What binding factors and the group commitment are made of.
use vstd::prelude::*;

use crate::ciphersuite::Ciphersuite;
use crate::error::ErrorView;
use crate::group::{is_residue, order, Field, Group};
use crate::identifier::is_identifier;
use crate::laws::{law_preimage_binds_inputs, lemma_commitment_sum_concat};
use crate::map::lookup;
use crate::residue::{lemma_congruent_add, lemma_in_range, lemma_residue};
use crate::round1::{commitment_share, CommitmentsView};
use crate::scheme::{
    commitment_list, commitment_of, commitment_sum, commits_to_identity, common_suffix,
    entry_encoding, factor_of, factors_of, first_defect, group_commitment_outcome, is_package,
    preimages, PackageView, Signer,
};
use crate::two_group::{lemma_group_commitment, SignerGroup};

verus! {

/// The signers of a package are all those of the first group followed by all
/// those of the second, each under the identifier and with the commitments that
/// the package holds for it.
pub proof fn law_signers_are_those_of_both_groups(p: PackageView)
    ensures
        p.commitments(SignerGroup::Primary) == p.primary,
        p.commitments(SignerGroup::Secondary) == p.secondary,
        p.signers().len() == p.primary.len() + p.secondary.len(),
        forall|i: int|
            0 <= i < p.primary.len() ==> #[trigger] p.signers()[i] == (Signer {
                group: SignerGroup::Primary,
                identifier: p.primary[i].0,
                commitments: p.primary[i].1,
            }),
        forall|i: int|
            p.primary.len() <= i < p.signers().len() ==> #[trigger] p.signers()[i] == (Signer {
                group: SignerGroup::Secondary,
                identifier: p.secondary[i - p.primary.len()].0,
                commitments: p.secondary[i - p.primary.len()].1,
            }),
{
}

/// The list of commitments of signers, and then of others, is the one list
/// followed by the other. It fails as the first of them that fails.
pub proof fn law_commitment_list_concatenates<G: Group>(a: Seq<Signer>, b: Seq<Signer>)
    ensures
        commitment_list::<G>(a + b) == match commitment_list::<G>(a) {
            Err(e) => Err(e),
            Ok(x) => match commitment_list::<G>(b) {
                Err(e) => Err(e),
                Ok(y) => Ok(x + y),
            },
        },
    decreases b.len(),
{
    if b.len() == 0 {
        assert(a + b =~= a);
        if commitment_list::<G>(a) is Ok {
            let x = commitment_list::<G>(a)->Ok_0;
            assert(x + Seq::<u8>::empty() =~= x);
        }
    } else {
        assert((a + b).drop_last() =~= a + b.drop_last());
        assert((a + b).last() == b.last());
        law_commitment_list_concatenates::<G>(a, b.drop_last());
        if commitment_list::<G>(a) is Ok && commitment_list::<G>(b) is Ok {
            let (x, y) = (
                commitment_list::<G>(a)->Ok_0,
                commitment_list::<G>(b.drop_last())->Ok_0,
            );
            let z = entry_encoding::<G>(b.last())->Ok_0;
            assert(x + y + z =~= x + (y + z));
        }
    }
}

/// One signer stands in the list with the tag byte of its group, all the bytes of
/// its identifier, of its hiding and of its binding commitment, in this order.
pub proof fn law_commitment_list_of_one<G: Group>(s: Signer)
    ensures
        commitment_list::<G>(Seq::<Signer>::empty()) == Ok::<Seq<u8>, ErrorView>(Seq::empty()),
        commitment_list::<G>(seq![s]) == match (
            G::encoding(s.commitments.hiding),
            G::encoding(s.commitments.binding),
        ) {
            (Err(e), _) => Err(ErrorView::GroupError(e)),
            (Ok(_), Err(e)) => Err(ErrorView::GroupError(e)),
            (Ok(hiding), Ok(binding)) => Ok(
                seq![
                    match s.group {
                        SignerGroup::Primary => 0x00u8,
                        SignerGroup::Secondary => 0x01u8,
                    },
                ] + G::Field::encoding(s.identifier) + hiding + binding,
            ),
        },
{
    let one = seq![s];
    assert(one.drop_last() =~= Seq::<Signer>::empty());
    assert(one.last() == s);
    if commitment_list::<G>(one) is Ok {
        let e = entry_encoding::<G>(s)->Ok_0;
        assert(Seq::<u8>::empty() + e =~= e);
    }
}

/// What the preimages of a run have in common is the whole key, the digest of
/// the message and the digest of the whole list of commitments. There is nothing
/// exactly if the key or a commitment has no encoding, and the key comes first.
pub proof fn law_suffix_holds_key_and_digests<C: Ciphersuite>(p: PackageView, key: int)
    ensures
        common_suffix::<C>(p, key) == match (
            C::Group::encoding(key),
            commitment_list::<C::Group>(p.signers()),
        ) {
            (Err(e), _) => Err(ErrorView::GroupError(e)),
            (Ok(_), Err(e)) => Err(e),
            (Ok(vk), Ok(list)) => Ok(vk + C::h4(p.message) + C::h5(list)),
        },
{
}

/// There is one preimage for every signer of the package, in the order of the
/// signers. It starts with the tag byte of the signer's group and ends with the
/// bytes of its identifier. Between them stand the key, the digest of the message
/// and the digest of the list of commitments. The preimages fail only where the
/// key or a commitment has no encoding.
pub proof fn law_every_signer_has_its_preimage<C: Ciphersuite>(p: PackageView, key: int)
    ensures
        match (C::Group::encoding(key), commitment_list::<C::Group>(p.signers())) {
            (Err(e), _) => preimages::<C>(p, key) == Err::<
                Seq<((SignerGroup, int), Seq<u8>)>,
                ErrorView,
            >(ErrorView::GroupError(e)),
            (Ok(_), Err(e)) => preimages::<C>(p, key) == Err::<
                Seq<((SignerGroup, int), Seq<u8>)>,
                ErrorView,
            >(e),
            (Ok(vk), Ok(list)) => {
                let found = preimages::<C>(p, key)->Ok_0;
                let n = p.primary.len();
                &&& preimages::<C>(p, key) is Ok
                &&& found.len() == n + p.secondary.len()
                &&& forall|i: int|
                    0 <= i < n ==> #[trigger] found[i] == (
                        (SignerGroup::Primary, p.primary[i].0),
                        seq![0x00u8] + vk + C::h4(p.message) + C::h5(list)
                            + <C::Group as Group>::Field::encoding(p.primary[i].0),
                    )
                &&& forall|i: int|
                    n <= i < n + p.secondary.len() ==> #[trigger] found[i] == (
                        (SignerGroup::Secondary, p.secondary[i - n].0),
                        seq![0x01u8] + vk + C::h4(p.message) + C::h5(list)
                            + <C::Group as Group>::Field::encoding(p.secondary[i - n].0),
                    )
            },
        },
{
    if C::Group::encoding(key) is Ok && commitment_list::<C::Group>(p.signers()) is Ok {
        let vk = C::Group::encoding(key)->Ok_0;
        let (a, b) = (C::h4(p.message), C::h5(commitment_list::<C::Group>(p.signers())->Ok_0));
        let found = preimages::<C>(p, key)->Ok_0;
        let n = p.primary.len();
        assert forall|i: int| 0 <= i < n implies #[trigger] found[i] == (
            (SignerGroup::Primary, p.primary[i].0),
            seq![0x00u8] + vk + a + b + <C::Group as Group>::Field::encoding(p.primary[i].0),
        ) by {
            let x = <C::Group as Group>::Field::encoding(p.primary[i].0);
            assert(p.signers()[i].identifier == p.primary[i].0);
            assert(seq![0x00u8] + (vk + a + b) + x =~= seq![0x00u8] + vk + a + b + x);
        }
        assert forall|i: int| n <= i < n + p.secondary.len() implies #[trigger] found[i] == (
            (SignerGroup::Secondary, p.secondary[i - n].0),
            seq![0x01u8] + vk + a + b + <C::Group as Group>::Field::encoding(
                p.secondary[i - n].0,
            ),
        ) by {
            let x = <C::Group as Group>::Field::encoding(p.secondary[i - n].0);
            assert(p.signers()[i].identifier == p.secondary[i - n].0);
            assert(seq![0x01u8] + (vk + a + b) + x =~= seq![0x01u8] + vk + a + b + x);
        }
    }
}

/// The binding factor of a signer is the hash of its whole preimage, from the tag
/// to the last byte of the identifier.
pub proof fn law_factor_hashes_whole_preimage<C: Ciphersuite>(
    suffix: Seq<u8>,
    group: SignerGroup,
    id: int,
)
    ensures
        factor_of::<C>(suffix, group, id) == C::h1(
            seq![
                match group {
                    SignerGroup::Primary => 0x00u8,
                    SignerGroup::Secondary => 0x01u8,
                },
            ] + suffix + <C::Group as Group>::Field::encoding(id),
        ),
{
}

/// Every signer has a binding factor of its own, under its group and identifier:
/// the hash of its whole preimage.
pub proof fn law_every_signer_has_its_factor<C: Ciphersuite>(
    suffix: Seq<u8>,
    signers: Seq<Signer>,
)
    ensures
        factors_of::<C>(suffix, signers).len() == signers.len(),
        forall|i: int|
            0 <= i < signers.len() ==> #[trigger] factors_of::<C>(suffix, signers)[i] == (
                (signers[i].group, signers[i].identifier),
                C::h1(
                    seq![
                        match signers[i].group {
                            SignerGroup::Primary => 0x00u8,
                            SignerGroup::Secondary => 0x01u8,
                        },
                    ] + suffix + <C::Group as Group>::Field::encoding(signers[i].identifier),
                ),
            ),
{
}

/// The binding factors are the hashes of the preimages, one for one.
pub proof fn law_factors_hash_preimages<C: Ciphersuite>(p: PackageView, key: int)
    requires
        common_suffix::<C>(p, key) is Ok,
    ensures
        ({
            let inputs = preimages::<C>(p, key)->Ok_0;
            let factors = factors_of::<C>(common_suffix::<C>(p, key)->Ok_0, p.signers());
            &&& preimages::<C>(p, key) is Ok
            &&& factors.len() == inputs.len()
            &&& forall|i: int|
                0 <= i < inputs.len() ==> #[trigger] factors[i] == (
                    inputs[i].0,
                    C::h1(inputs[i].1),
                )
        }),
{
}

/// A binding factor binds every input to a signature share: where the hash does
/// not collide on the two preimages, signers with the same factor are the same
/// signer of the same group, under the same key, with the same digests of the
/// message and of the commitments. Where the digests do not collide either, the
/// message and the commitments of both groups are the same.
pub proof fn law_factors_bind_inputs<C: Ciphersuite>(
    p: PackageView,
    key: int,
    g: SignerGroup,
    id: int,
    q: PackageView,
    other_key: int,
    h: SignerGroup,
    other: int,
)
    requires
        is_package::<C::Group>(p),
        is_package::<C::Group>(q),
        is_identifier::<C::Group>(id),
        is_identifier::<C::Group>(other),
        is_residue::<C::Group>(key),
        is_residue::<C::Group>(other_key),
        C::Group::encoding(key) is Ok,
        C::Group::encoding(other_key) is Ok,
        commitment_list::<C::Group>(p.signers()) is Ok,
        commitment_list::<C::Group>(q.signers()) is Ok,
        C::h4(p.message).len() == C::h4(q.message).len(),
        C::h5(commitment_list::<C::Group>(p.signers())->Ok_0).len() == C::h5(
            commitment_list::<C::Group>(q.signers())->Ok_0,
        ).len(),
        ({
            let x = seq![
                match g {
                    SignerGroup::Primary => 0x00u8,
                    SignerGroup::Secondary => 0x01u8,
                },
            ] + C::Group::encoding(key)->Ok_0 + C::h4(p.message) + C::h5(
                commitment_list::<C::Group>(p.signers())->Ok_0,
            ) + <C::Group as Group>::Field::encoding(id);
            let y = seq![
                match h {
                    SignerGroup::Primary => 0x00u8,
                    SignerGroup::Secondary => 0x01u8,
                },
            ] + C::Group::encoding(other_key)->Ok_0 + C::h4(q.message) + C::h5(
                commitment_list::<C::Group>(q.signers())->Ok_0,
            ) + <C::Group as Group>::Field::encoding(other);
            C::h1(x) == C::h1(y) ==> x == y
        }),
        factor_of::<C>(common_suffix::<C>(p, key)->Ok_0, g, id) == factor_of::<C>(
            common_suffix::<C>(q, other_key)->Ok_0,
            h,
            other,
        ),
    ensures
        g == h,
        id == other,
        key == other_key,
        C::h4(p.message) == C::h4(q.message),
        C::h5(commitment_list::<C::Group>(p.signers())->Ok_0) == C::h5(
            commitment_list::<C::Group>(q.signers())->Ok_0,
        ),
        ({
            let a = commitment_list::<C::Group>(p.signers())->Ok_0;
            let b = commitment_list::<C::Group>(q.signers())->Ok_0;
            &&& (C::h4(p.message) == C::h4(q.message) ==> p.message == q.message)
            &&& (C::h5(a) == C::h5(b) ==> a == b)
        }) ==> p.primary == q.primary && p.secondary == q.secondary && p.message == q.message,
{
    let a = commitment_list::<C::Group>(p.signers())->Ok_0;
    let b = commitment_list::<C::Group>(q.signers())->Ok_0;
    let (v, w) = (C::Group::encoding(key)->Ok_0, C::Group::encoding(other_key)->Ok_0);
    let (s, t) = (seq![g.tag_byte()], seq![h.tag_byte()]);
    let x = <C::Group as Group>::Field::encoding(id);
    let y = <C::Group as Group>::Field::encoding(other);
    assert(s + v + C::h4(p.message) + C::h5(a) + x =~= s + (v + C::h4(p.message) + C::h5(a)) + x);
    assert(t + w + C::h4(q.message) + C::h5(b) + y =~= t + (w + C::h4(q.message) + C::h5(b)) + y);
    law_preimage_binds_inputs::<C>(p, key, g, id, q, other_key, h, other);
}

/// The group commitment over signers, and then over others, is the sum of both.
/// It fails as the first of them that fails.
pub proof fn law_group_commitments_add_up<G: Group>(
    a: Seq<Signer>,
    b: Seq<Signer>,
    factors: Seq<((SignerGroup, int), int)>,
)
    ensures
        group_commitment_outcome::<G>(a + b, factors) == match group_commitment_outcome::<G>(
            a,
            factors,
        ) {
            Err(e) => Err(e),
            Ok(x) => match group_commitment_outcome::<G>(b, factors) {
                Err(e) => Err(e),
                Ok(y) => Ok((x + y) % order::<G>()),
            },
        },
{
    let m = order::<G>();
    G::Field::lemma_order();
    lemma_commitment_sum_concat(a, b, factors);
    lemma_first_defect_concat(a, b, factors);
    let (x, y) = (commitment_sum(a, factors), commitment_sum(b, factors));
    lemma_residue(x, m);
    lemma_residue(y, m);
    lemma_congruent_add(x % m, x, y % m, y, m);
}

proof fn lemma_first_defect_concat(
    a: Seq<Signer>,
    b: Seq<Signer>,
    factors: Seq<((SignerGroup, int), int)>,
)
    ensures
        first_defect(a + b, factors) == match first_defect(a, factors) {
            Some(e) => Some(e),
            None => first_defect(b, factors),
        },
    decreases b.len(),
{
    if b.len() == 0 {
        assert(a + b =~= a);
    } else {
        assert((a + b).drop_last() =~= a + b.drop_last());
        assert((a + b).last() == b.last());
        lemma_first_defect_concat(a, b.drop_last(), factors);
    }
}

/// One signer's part in the group commitment is its hiding commitment and its
/// binding commitment as many times as its own factor says. A commitment to the
/// identity is refused, and so is a signer without a factor.
pub proof fn law_group_commitment_of_one<G: Group>(
    s: Signer,
    factors: Seq<((SignerGroup, int), int)>,
)
    ensures
        group_commitment_outcome::<G>(Seq::<Signer>::empty(), factors) == Ok::<int, ErrorView>(0),
        group_commitment_outcome::<G>(seq![s], factors) == if s.commitments.hiding == 0
            || s.commitments.binding == 0 {
            Err(ErrorView::IdentityCommitment)
        } else {
            match lookup(factors, (s.group, s.identifier)) {
                None => Err(ErrorView::UnknownIdentifier),
                Some(factor) => Ok(
                    (s.commitments.hiding + factor * s.commitments.binding) % order::<G>(),
                ),
            }
        },
{
    let one = seq![s];
    G::Field::lemma_order();
    lemma_in_range(0, order::<G>());
    assert(one.drop_last() =~= Seq::<Signer>::empty());
    assert(one.last() == s);
}

/// A signer's share of the group commitment is its hiding commitment and its
/// binding commitment as many times as the factor says: with `d` more as the
/// factor, it is `d` times the binding commitment more.
pub proof fn law_commitment_share_moves_with_factor<G: Group>(
    c: CommitmentsView,
    factor: int,
    d: int,
)
    ensures
        commitment_share::<G>(c, factor) == (c.hiding + factor * c.binding) % order::<G>(),
        commitment_share::<G>(c, factor + d) == (commitment_share::<G>(c, factor) + d * c.binding)
            % order::<G>(),
        commitment_share::<G>(c, 0) == c.hiding % order::<G>(),
{
    let m = order::<G>();
    let (x, y) = (c.hiding + factor * c.binding, d * c.binding);
    G::Field::lemma_order();
    assert((factor + d) * c.binding == factor * c.binding + d * c.binding) by (nonlinear_arith);
    lemma_residue(x, m);
    lemma_congruent_add(x % m, x, y, y, m);
}

/// The group commitment of a run is the one over the signers of both groups, each
/// with the hash of its own preimage as its factor. There is none exactly if
/// some signer of either group has committed to the identity.
pub proof fn law_run_has_group_commitment<C: Ciphersuite>(p: PackageView, suffix: Seq<u8>)
    requires
        is_package::<C::Group>(p),
    ensures
        group_commitment_outcome::<C::Group>(
            p.signers(),
            factors_of::<C>(suffix, p.signers()),
        ) == if (exists|i: int|
            0 <= i < p.primary.len() && ((#[trigger] p.primary[i]).1.hiding == 0
                || p.primary[i].1.binding == 0)) || (exists|i: int|
            0 <= i < p.secondary.len() && ((#[trigger] p.secondary[i]).1.hiding == 0
                || p.secondary[i].1.binding == 0)) {
            Err(ErrorView::IdentityCommitment)
        } else {
            Ok(commitment_of::<C>(p, suffix))
        },
{
    lemma_group_commitment::<C>(p, suffix);
    lemma_identity_is_some_signers(p);
}

/// Some signer of a package has committed to the identity exactly if one of the
/// one group or one of the other has.
pub proof fn lemma_identity_is_some_signers(p: PackageView)
    ensures
        p.has_identity() <==> (exists|i: int|
            0 <= i < p.primary.len() && ((#[trigger] p.primary[i]).1.hiding == 0
                || p.primary[i].1.binding == 0)) || (exists|i: int|
            0 <= i < p.secondary.len() && ((#[trigger] p.secondary[i]).1.hiding == 0
                || p.secondary[i].1.binding == 0)),
{
    let all = p.signers();
    let n = p.primary.len();
    if p.has_identity() {
        let i = choose|i: int|
            0 <= i < all.len() && commits_to_identity(#[trigger] all[i]);
        if i < n {
            assert(p.primary[i].1 == all[i].commitments);
        } else {
            assert(p.secondary[i - n].1 == all[i].commitments);
        }
    }
    if exists|i: int|
        0 <= i < n && ((#[trigger] p.primary[i]).1.hiding == 0 || p.primary[i].1.binding == 0) {
        let i = choose|i: int|
            0 <= i < n && ((#[trigger] p.primary[i]).1.hiding == 0 || p.primary[i].1.binding == 0);
        assert(commits_to_identity(all[i]));
    }
    if exists|i: int|
        0 <= i < p.secondary.len() && ((#[trigger] p.secondary[i]).1.hiding == 0
            || p.secondary[i].1.binding == 0) {
        let i = choose|i: int|
            0 <= i < p.secondary.len() && ((#[trigger] p.secondary[i]).1.hiding == 0
                || p.secondary[i].1.binding == 0);
        assert(commits_to_identity(all[n + i]));
    }
}

} // verus!
