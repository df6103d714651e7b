//! What holds of every two-group signing run.
pub mod aggregation;
pub mod binding;
pub mod signing;
pub mod views;

use vstd::prelude::*;
use vstd::std_specs::cmp::PartialOrdIs;

use crate::ciphersuite::Ciphersuite;
use crate::error::ErrorView;
use crate::group::{is_residue, order, Field, Group};
use crate::identifier::is_identifier;
use crate::keys::{KeyPackageView, PublicKeyPackageView};
use crate::map::{has_key, keys, lemma_lookup, lookup};
use crate::residue::{congruent, lemma_congruent_add, lemma_congruent_mul, lemma_residue};
use crate::round1::{in_group, CommitmentsView, NoncesView};
use crate::scheme::{
    aggregate_outcome, all_known, blame, commitment_list, commitment_of, commitment_sum,
    common_suffix, culprits_of, defect, entry_encoding, factor_of, first_defect,
    group_commitment_outcome, is_culprit, is_package, lambda, members, preimage,
    prepared_sign_outcome, PackageView, Signer,
};
use crate::two_group::SignerGroup;

verus! {

/// The tag bytes tell the groups apart, the groups are ordered as their tag
/// bytes are, and the first group has the lower one.
pub proof fn law_tags_separate_groups(g: SignerGroup, h: SignerGroup)
    ensures
        g.tag_byte() == h.tag_byte() <==> g == h,
        g.is_lt(&h) <==> g.tag_byte() < h.tag_byte(),
        g.is_le(&h) <==> g.tag_byte() <= h.tag_byte(),
        g.is_gt(&h) <==> g.tag_byte() > h.tag_byte(),
        g.is_ge(&h) <==> g.tag_byte() >= h.tag_byte(),
        SignerGroup::Primary.tag_byte() < SignerGroup::Secondary.tag_byte(),
        SignerGroup::Primary.tag_byte() == 0x00,
        SignerGroup::Secondary.tag_byte() == 0x01,
{
}

/// Whether one signer comes before another in `(tag, identifier)` order.
pub open spec fn comes_before(s: Signer, t: Signer) -> bool {
    ||| s.group.tag_byte() < t.group.tag_byte()
    ||| s.group.tag_byte() == t.group.tag_byte() && s.identifier < t.identifier
}

/// The signers of both groups are listed in `(tag, identifier)` order, each of
/// them once.
pub proof fn law_signers_in_order<G: Group>(p: PackageView)
    requires
        is_package::<G>(p),
    ensures
        p.signers().len() == p.primary.len() + p.secondary.len(),
        forall|i: int, j: int|
            0 <= i < j < p.signers().len() ==> comes_before(
                #[trigger] p.signers()[i],
                #[trigger] p.signers()[j],
            ),
        forall|s: Signer| #[trigger]
            p.signers().contains(s) <==> has_key(p.commitments(s.group), s.identifier) && lookup(
                p.commitments(s.group),
                s.identifier,
            ) == Some(s.commitments),
{
    let all = p.signers();
    let n = p.primary.len();
    assert forall|i: int, j: int| 0 <= i < j < all.len() implies comes_before(
        #[trigger] all[i],
        #[trigger] all[j],
    ) by {
        if j < n {
            assert(p.primary[i].0 < p.primary[j].0);
        } else if i >= n {
            assert(p.secondary[i - n].0 < p.secondary[j - n].0);
        }
    }
    assert forall|s: Signer| #[trigger] all.contains(s) <==> has_key(
        p.commitments(s.group),
        s.identifier,
    ) && lookup(p.commitments(s.group), s.identifier) == Some(s.commitments) by {
        let own = p.commitments(s.group);
        let start = match s.group {
            SignerGroup::Primary => 0int,
            SignerGroup::Secondary => n as int,
        };
        if all.contains(s) {
            let i = choose|i: int| 0 <= i < all.len() && all[i] == s;
            assert(own[i - start] == (s.identifier, s.commitments));
            lemma_lookup(own, i - start);
        }
        if has_key(own, s.identifier) && lookup(own, s.identifier) == Some(s.commitments) {
            let i = choose|i: int| 0 <= i < own.len() && #[trigger] own[i].0 == s.identifier;
            assert(all[start + i] == s);
        }
    }
}

/// Signers of the two groups whose identifiers collide have preimages that
/// differ in the tag, their first byte, and in nothing else.
pub proof fn law_colliding_identifiers_differ_in_tag<G: Group>(suffix: Seq<u8>, id: int)
    ensures
        ({
            let primary = preimage::<G>(suffix, SignerGroup::Primary, id);
            let secondary = preimage::<G>(suffix, SignerGroup::Secondary, id);
            &&& primary[0] == 0x00
            &&& secondary[0] == 0x01
            &&& primary.skip(1) == secondary.skip(1)
            &&& primary != secondary
        }),
{
    let primary = preimage::<G>(suffix, SignerGroup::Primary, id);
    let secondary = preimage::<G>(suffix, SignerGroup::Secondary, id);
    assert(primary.skip(1) =~= suffix + G::Field::encoding(id));
    assert(secondary.skip(1) =~= suffix + G::Field::encoding(id));
}

/// Byte strings that agree, and that are cut at the same place, agree in both
/// parts.
proof fn lemma_cut(a: Seq<u8>, b: Seq<u8>, c: Seq<u8>, d: Seq<u8>)
    requires
        a + b == c + d,
        a.len() == c.len(),
    ensures
        a == c,
        b == d,
{
    assert((a + b).take(a.len() as int) =~= a);
    assert((c + d).take(c.len() as int) =~= c);
    assert((a + b).skip(a.len() as int) =~= b);
    assert((c + d).skip(c.len() as int) =~= d);
}

/// Different signers of a run have different preimages.
pub proof fn law_signers_have_distinct_preimages<G: Group>(
    suffix: Seq<u8>,
    g: SignerGroup,
    id: int,
    h: SignerGroup,
    other: int,
)
    requires
        is_identifier::<G>(id),
        is_identifier::<G>(other),
        preimage::<G>(suffix, g, id) == preimage::<G>(suffix, h, other),
    ensures
        g == h,
        id == other,
{
    G::Field::lemma_encoding(id, other);
    lemma_cut(
        seq![g.tag_byte()] + suffix,
        G::Field::encoding(id),
        seq![h.tag_byte()] + suffix,
        G::Field::encoding(other),
    );
    lemma_cut(seq![g.tag_byte()], suffix, seq![h.tag_byte()], suffix);
    assert(seq![g.tag_byte()][0] == seq![h.tag_byte()][0]);
}

/// Whether the signers have identifiers and commitments of the group.
pub open spec fn are_signers<G: Group>(signers: Seq<Signer>) -> bool {
    forall|i: int|
        0 <= i < signers.len() ==> is_identifier::<G>((#[trigger] signers[i]).identifier)
            && in_group::<G>(signers[i].commitments)
}

proof fn lemma_entries_agree<G: Group>(s: Signer, t: Signer)
    requires
        is_identifier::<G>(s.identifier),
        is_identifier::<G>(t.identifier),
        in_group::<G>(s.commitments),
        in_group::<G>(t.commitments),
        entry_encoding::<G>(s) is Ok,
        entry_encoding::<G>(t) is Ok,
    ensures
        entry_encoding::<G>(s)->Ok_0.len() == entry_encoding::<G>(t)->Ok_0.len(),
        entry_encoding::<G>(s)->Ok_0.len() > 0,
        entry_encoding::<G>(s)->Ok_0 == entry_encoding::<G>(t)->Ok_0 ==> s == t,
{
    let (a, b) = (s.commitments, t.commitments);
    G::Field::lemma_encoding(s.identifier, t.identifier);
    G::lemma_encoding(a.hiding, b.hiding);
    G::lemma_encoding(a.binding, b.binding);
    let (x, y) = (G::Field::encoding(s.identifier), G::Field::encoding(t.identifier));
    let (ah, bh) = (G::encoding(a.hiding)->Ok_0, G::encoding(b.hiding)->Ok_0);
    let (ab, bb) = (G::encoding(a.binding)->Ok_0, G::encoding(b.binding)->Ok_0);
    let (u, v) = (seq![s.group.tag_byte()], seq![t.group.tag_byte()]);
    if entry_encoding::<G>(s)->Ok_0 == entry_encoding::<G>(t)->Ok_0 {
        lemma_cut(u + x + ah, ab, v + y + bh, bb);
        lemma_cut(u + x, ah, v + y, bh);
        lemma_cut(u, x, v, y);
        assert(u[0] == v[0]);
    }
}

/// A list of commitments is as long as its entries are together.
proof fn lemma_list_length<G: Group>(signers: Seq<Signer>, e: Signer)
    requires
        are_signers::<G>(signers),
        is_identifier::<G>(e.identifier),
        in_group::<G>(e.commitments),
        entry_encoding::<G>(e) is Ok,
        commitment_list::<G>(signers) is Ok,
    ensures
        commitment_list::<G>(signers)->Ok_0.len() == signers.len() * entry_encoding::<G>(
            e,
        )->Ok_0.len(),
    decreases signers.len(),
{
    let k = entry_encoding::<G>(e)->Ok_0.len();
    if signers.len() == 0 {
        assert(0 * k == 0) by (nonlinear_arith);
    } else {
        let rest = signers.drop_last();
        assert forall|i: int| 0 <= i < rest.len() implies is_identifier::<G>(
            (#[trigger] rest[i]).identifier,
        ) && in_group::<G>(rest[i].commitments) by {
            assert(rest[i] == signers[i]);
        }
        lemma_list_length::<G>(rest, e);
        lemma_entries_agree::<G>(signers.last(), e);
        let n = signers.len();
        assert((n - 1) * k + k == n * k) by (nonlinear_arith);
    }
}

/// The list of commitments determines the signers, of which group each of them
/// is, and their commitments: no two lists of signers have the same encoding.
pub proof fn law_commitment_list_is_injective<G: Group>(a: Seq<Signer>, b: Seq<Signer>)
    requires
        are_signers::<G>(a),
        are_signers::<G>(b),
        commitment_list::<G>(a) is Ok,
        commitment_list::<G>(a) == commitment_list::<G>(b),
    ensures
        a == b,
    decreases a.len(),
{
    let (x, y) = (commitment_list::<G>(a)->Ok_0, commitment_list::<G>(b)->Ok_0);
    if a.len() == 0 && b.len() == 0 {
        assert(a =~= b);
    } else if a.len() == 0 {
        lemma_list_length::<G>(b, b.last());
        lemma_entries_agree::<G>(b.last(), b.last());
        let (n, k) = (b.len(), entry_encoding::<G>(b.last())->Ok_0.len());
        assert(n * k > 0) by (nonlinear_arith)
            requires
                n > 0,
                k > 0,
        ;
    } else if b.len() == 0 {
        lemma_list_length::<G>(a, a.last());
        lemma_entries_agree::<G>(a.last(), a.last());
        let (n, k) = (a.len(), entry_encoding::<G>(a.last())->Ok_0.len());
        assert(n * k > 0) by (nonlinear_arith)
            requires
                n > 0,
                k > 0,
        ;
    } else {
        let (c, d) = (a.drop_last(), b.drop_last());
        lemma_entries_agree::<G>(a.last(), b.last());
        assert forall|i: int| 0 <= i < c.len() implies is_identifier::<G>(
            (#[trigger] c[i]).identifier,
        ) && in_group::<G>(c[i].commitments) by {
            assert(c[i] == a[i]);
        }
        assert forall|i: int| 0 <= i < d.len() implies is_identifier::<G>(
            (#[trigger] d[i]).identifier,
        ) && in_group::<G>(d[i].commitments) by {
            assert(d[i] == b[i]);
        }
        assert(x == commitment_list::<G>(c)->Ok_0 + entry_encoding::<G>(a.last())->Ok_0);
        assert(y == commitment_list::<G>(d)->Ok_0 + entry_encoding::<G>(b.last())->Ok_0);
        lemma_cut(
            commitment_list::<G>(c)->Ok_0,
            entry_encoding::<G>(a.last())->Ok_0,
            commitment_list::<G>(d)->Ok_0,
            entry_encoding::<G>(b.last())->Ok_0,
        );
        law_commitment_list_is_injective::<G>(c, d);
        assert(a =~= c.push(a.last()));
        assert(b =~= d.push(b.last()));
    }
}

/// The signers of a package determine its commitments.
proof fn lemma_signers_determine_commitments(p: PackageView, q: PackageView)
    requires
        p.signers() == q.signers(),
    ensures
        p.primary == q.primary,
        p.secondary == q.secondary,
{
    let (a, b) = (p.signers(), q.signers());
    let (n, k) = (p.primary.len(), q.primary.len());
    assert(a.len() == n + p.secondary.len());
    assert(b.len() == k + q.secondary.len());
    assert(n == k) by {
        if n < k {
            assert(b[n as int].group == SignerGroup::Primary);
            assert(a[n as int].group == SignerGroup::Secondary);
        } else if k < n {
            assert(a[k as int].group == SignerGroup::Primary);
            assert(b[k as int].group == SignerGroup::Secondary);
        }
    }
    assert forall|i: int| 0 <= i < n implies p.primary[i] == q.primary[i] by {
        assert(a[i] == b[i]);
        assert(a[i].identifier == p.primary[i].0 && a[i].commitments == p.primary[i].1);
        assert(b[i].identifier == q.primary[i].0 && b[i].commitments == q.primary[i].1);
    }
    assert forall|i: int| 0 <= i < p.secondary.len() implies p.secondary[i] == q.secondary[i] by {
        assert(a[n + i] == b[n + i]);
        assert(a[n + i].identifier == p.secondary[i].0 && a[n + i].commitments
            == p.secondary[i].1);
        assert(b[n + i].identifier == q.secondary[i].0 && b[n + i].commitments
            == q.secondary[i].1);
    }
    assert(p.primary =~= q.primary);
    assert(p.secondary =~= q.secondary);
}

/// The signers of a package have identifiers and commitments of the group.
proof fn lemma_are_signers<G: Group>(p: PackageView)
    requires
        is_package::<G>(p),
    ensures
        are_signers::<G>(p.signers()),
{
    let all = p.signers();
    let n = p.primary.len();
    assert forall|i: int| 0 <= i < all.len() implies is_identifier::<G>(
        (#[trigger] all[i]).identifier,
    ) && in_group::<G>(all[i].commitments) by {
        if i < n {
            assert(all[i].identifier == p.primary[i].0 && all[i].commitments == p.primary[i].1);
        } else {
            let e = p.secondary[i - n];
            assert(all[i].identifier == e.0 && all[i].commitments == e.1);
        }
    }
}

/// The commitment sets of two packages have the same encoding only if both
/// groups have the same signers with the same commitments: they do not alias,
/// not even where a signer moves to the other group under the same identifier.
pub proof fn law_commitment_sets_do_not_alias<G: Group>(p: PackageView, q: PackageView)
    requires
        is_package::<G>(p),
        is_package::<G>(q),
        commitment_list::<G>(p.signers()) is Ok,
        commitment_list::<G>(q.signers()) is Ok,
    ensures
        commitment_list::<G>(p.signers()) == commitment_list::<G>(q.signers()) <==> p.primary
            == q.primary && p.secondary == q.secondary,
{
    if commitment_list::<G>(p.signers()) == commitment_list::<G>(q.signers()) {
        lemma_are_signers::<G>(p);
        lemma_are_signers::<G>(q);
        law_commitment_list_is_injective::<G>(p.signers(), q.signers());
        lemma_signers_determine_commitments(p, q);
    }
}

/// The preimage of a binding factor binds every input to the signature share:
/// the signer and its group, the key, and the digests of the message and of
/// the commitments. Where the digests do not collide, it binds the message and
/// the commitments of both groups themselves. Digests are of fixed length.
pub proof fn law_preimage_binds_inputs<C: Ciphersuite>(
    p: PackageView,
    key: int,
    g: SignerGroup,
    id: int,
    q: PackageView,
    other_key: int,
    h: SignerGroup,
    other: int,
)
    requires
        is_package::<C::Group>(p),
        is_package::<C::Group>(q),
        is_identifier::<C::Group>(id),
        is_identifier::<C::Group>(other),
        is_residue::<C::Group>(key),
        is_residue::<C::Group>(other_key),
        common_suffix::<C>(p, key) is Ok,
        common_suffix::<C>(q, other_key) is Ok,
        C::h4(p.message).len() == C::h4(q.message).len(),
        C::h5(commitment_list::<C::Group>(p.signers())->Ok_0).len() == C::h5(
            commitment_list::<C::Group>(q.signers())->Ok_0,
        ).len(),
        preimage::<C::Group>(common_suffix::<C>(p, key)->Ok_0, g, id) == preimage::<C::Group>(
            common_suffix::<C>(q, other_key)->Ok_0,
            h,
            other,
        ),
    ensures
        g == h,
        id == other,
        key == other_key,
        C::h4(p.message) == C::h4(q.message),
        C::h5(commitment_list::<C::Group>(p.signers())->Ok_0) == C::h5(
            commitment_list::<C::Group>(q.signers())->Ok_0,
        ),
        ({
            let a = commitment_list::<C::Group>(p.signers())->Ok_0;
            let b = commitment_list::<C::Group>(q.signers())->Ok_0;
            &&& (C::h4(p.message) == C::h4(q.message) ==> p.message == q.message)
            &&& (C::h5(a) == C::h5(b) ==> a == b)
        }) ==> p == q,
{
    let (a, b) = (
        commitment_list::<C::Group>(p.signers())->Ok_0,
        commitment_list::<C::Group>(q.signers())->Ok_0,
    );
    let (s, t) = (common_suffix::<C>(p, key)->Ok_0, common_suffix::<C>(q, other_key)->Ok_0);
    let (v, w) = (C::Group::encoding(key)->Ok_0, C::Group::encoding(other_key)->Ok_0);
    <C::Group as Group>::Field::lemma_encoding(id, other);
    C::Group::lemma_encoding(key, other_key);
    let (x, y) = (seq![g.tag_byte()], seq![h.tag_byte()]);
    lemma_cut(
        x + s,
        <C::Group as Group>::Field::encoding(id),
        y + t,
        <C::Group as Group>::Field::encoding(other),
    );
    lemma_cut(x, s, y, t);
    assert(x[0] == y[0]);
    lemma_cut(v + C::h4(p.message), C::h5(a), w + C::h4(q.message), C::h5(b));
    lemma_cut(v, C::h4(p.message), w, C::h4(q.message));
    if p.message == q.message && a == b {
        law_commitment_sets_do_not_alias::<C::Group>(p, q);
    }
}

/// A signer's Lagrange coefficient depends on the identifiers of its own group
/// only.
pub proof fn law_lambda_within_group<C: Ciphersuite>(
    p: PackageView,
    q: PackageView,
    group: SignerGroup,
    id: int,
)
    requires
        keys(p.commitments(group)) == keys(q.commitments(group)),
    ensures
        lambda::<C>(p, group, id) == lambda::<C>(q, group, id),
{
}

/// Signers under one key, of whichever groups, answer the same challenge for
/// the one group commitment over both groups: it takes what is common to the
/// run, and of the signer only its own group, nonces and key material.
pub proof fn law_groups_share_commitment<C: Ciphersuite>(
    p: PackageView,
    nonces: NoncesView,
    key: KeyPackageView,
    group: SignerGroup,
    other_nonces: NoncesView,
    other_key: KeyPackageView,
    other_group: SignerGroup,
)
    requires
        key.verifying_key == other_key.verifying_key,
        prepared_sign_outcome::<C>(p, nonces, key, group) is Ok,
        prepared_sign_outcome::<C>(p, other_nonces, other_key, other_group) is Ok,
    ensures
        ({
            let suffix = common_suffix::<C>(p, key.verifying_key)->Ok_0;
            let r = commitment_of::<C>(p, suffix);
            let c = C::challenge_outcome(r, key.verifying_key, p.message)->Ok_0;
            &&& prepared_sign_outcome::<C>(p, nonces, key, group) == Ok::<int, ErrorView>(
                C::signature_share(
                    r,
                    nonces,
                    factor_of::<C>(suffix, group, key.identifier),
                    lambda::<C>(p, group, key.identifier),
                    key,
                    c,
                ),
            )
            &&& prepared_sign_outcome::<C>(p, other_nonces, other_key, other_group) == Ok::<
                int,
                ErrorView,
            >(
                C::signature_share(
                    r,
                    other_nonces,
                    factor_of::<C>(suffix, other_group, other_key.identifier),
                    lambda::<C>(p, other_group, other_key.identifier),
                    other_key,
                    c,
                ),
            )
        }),
{
}

/// The commitments of two lists of signers add up separately.
pub proof fn lemma_commitment_sum_concat(
    a: Seq<Signer>,
    b: Seq<Signer>,
    factors: Seq<((SignerGroup, int), int)>,
)
    ensures
        commitment_sum(a + b, factors) == commitment_sum(a, factors) + commitment_sum(b, factors),
    decreases b.len(),
{
    if b.len() == 0 {
        assert(a + b =~= a);
    } else {
        assert((a + b).drop_last() =~= a + b.drop_last());
        assert((a + b).last() == b.last());
        lemma_commitment_sum_concat(a, b.drop_last(), factors);
    }
}

/// There is a group commitment exactly if no signer has a defect.
proof fn lemma_no_defect(signers: Seq<Signer>, factors: Seq<((SignerGroup, int), int)>)
    ensures
        first_defect(signers, factors) is None <==> forall|i: int|
            0 <= i < signers.len() ==> defect(#[trigger] signers[i], factors) is None,
    decreases signers.len(),
{
    if signers.len() > 0 {
        let rest = signers.drop_last();
        lemma_no_defect(rest, factors);
        assert(forall|i: int| 0 <= i < rest.len() ==> rest[i] == signers[i]);
        if first_defect(rest, factors) is Some {
            let i = choose|i: int|
                0 <= i < rest.len() && !(defect(#[trigger] rest[i], factors) is None);
            assert(defect(signers[i], factors) is Some);
        } else if first_defect(signers, factors) is Some {
            assert(defect(signers[signers.len() - 1], factors) is Some);
        } else {
            assert forall|i: int| 0 <= i < signers.len() implies defect(
                #[trigger] signers[i],
                factors,
            ) is None by {
                if i < rest.len() {
                    assert(defect(rest[i], factors) is None);
                }
            }
        }
    }
}

/// The group commitment depends on the binding factors of the signers only:
/// whatever else binding factors are given for changes nothing.
pub proof fn law_group_commitment_ignores_other_factors<G: Group>(
    signers: Seq<Signer>,
    factors: Seq<((SignerGroup, int), int)>,
    others: Seq<((SignerGroup, int), int)>,
)
    requires
        forall|i: int|
            0 <= i < signers.len() ==> lookup(
                others,
                ((#[trigger] signers[i]).group, signers[i].identifier),
            ) == lookup(factors, (signers[i].group, signers[i].identifier)),
    ensures
        commitment_sum(signers, others) == commitment_sum(signers, factors),
        group_commitment_outcome::<G>(signers, others) == group_commitment_outcome::<G>(
            signers,
            factors,
        ),
    decreases signers.len(),
{
    if signers.len() > 0 {
        let rest = signers.drop_last();
        assert forall|i: int| 0 <= i < rest.len() implies lookup(
            others,
            ((#[trigger] rest[i]).group, rest[i].identifier),
        ) == lookup(factors, (rest[i].group, rest[i].identifier)) by {
            assert(rest[i] == signers[i]);
        }
        law_group_commitment_ignores_other_factors::<G>(rest, factors, others);
        let s = signers[signers.len() - 1];
        let k = (s.group, s.identifier);
        assert(lookup(others, k) == lookup(factors, k));
        assert(has_key(others, k) == (lookup(others, k) is Some));
        assert(has_key(factors, k) == (lookup(factors, k) is Some));
    }
}

/// With `d` more as the binding factor of the signer at `i`, and the factors of
/// all other signers left alone, the commitments of the first `n` signers add up
/// to `d` times its binding commitment more, once it is among them.
proof fn lemma_moved_sum<G: Group>(
    p: PackageView,
    factors: Seq<((SignerGroup, int), int)>,
    moved: Seq<((SignerGroup, int), int)>,
    i: int,
    d: int,
    n: int,
)
    requires
        is_package::<G>(p),
        0 <= i < p.signers().len(),
        0 <= n <= p.signers().len(),
        ({
            let s = p.signers()[i];
            congruent(
                lookup(moved, (s.group, s.identifier))->0,
                lookup(factors, (s.group, s.identifier))->0 + d,
                order::<G>(),
            )
        }),
        forall|j: int|
            0 <= j < p.signers().len() && j != i ==> lookup(
                moved,
                ((#[trigger] p.signers()[j]).group, p.signers()[j].identifier),
            ) == lookup(factors, (p.signers()[j].group, p.signers()[j].identifier)),
    ensures
        congruent(
            commitment_sum(p.signers().take(n), moved),
            commitment_sum(p.signers().take(n), factors) + if i < n {
                d * p.signers()[i].commitments.binding
            } else {
                0
            },
            order::<G>(),
        ),
    decreases n,
{
    let m = order::<G>();
    let all = p.signers();
    G::Field::lemma_order();
    if n > 0 {
        lemma_moved_sum::<G>(p, factors, moved, i, d, n - 1);
        assert(all.take(n).drop_last() =~= all.take(n - 1));
        assert(all.take(n).last() == all[n - 1]);
        let s = all[n - 1];
        let (h, b) = (s.commitments.hiding, s.commitments.binding);
        let k = (s.group, s.identifier);
        let (f, g) = (lookup(factors, k)->0, lookup(moved, k)->0);
        let before = commitment_sum(all.take(n - 1), factors);
        let step = if i < n - 1 {
            d * all[i].commitments.binding
        } else {
            0
        };
        if i == n - 1 {
            lemma_congruent_mul(g, f + d, b, b, m);
            assert((f + d) * b == f * b + d * b) by (nonlinear_arith);
            lemma_congruent_add(h, h, g * b, f * b + d * b, m);
            lemma_congruent_add(
                commitment_sum(all.take(n - 1), moved),
                before + step,
                h + g * b,
                h + (f * b + d * b),
                m,
            );
        } else {
            lemma_congruent_add(
                commitment_sum(all.take(n - 1), moved),
                before + step,
                h + g * b,
                h + f * b,
                m,
            );
        }
    }
}

/// A binding factor that is `d` more moves the group commitment by `d` times the
/// binding commitment of its signer: no other signer, not even one of the other
/// group with the same identifier, has its part in it moved.
pub proof fn law_group_commitment_moves_with_factor<G: Group>(
    p: PackageView,
    factors: Seq<((SignerGroup, int), int)>,
    moved: Seq<((SignerGroup, int), int)>,
    s: Signer,
    d: int,
)
    requires
        is_package::<G>(p),
        p.signers().contains(s),
        group_commitment_outcome::<G>(p.signers(), factors) is Ok,
        lookup(moved, (s.group, s.identifier)) is Some,
        congruent(
            lookup(moved, (s.group, s.identifier))->0,
            lookup(factors, (s.group, s.identifier))->0 + d,
            order::<G>(),
        ),
        forall|k: (SignerGroup, int)|
            k != (s.group, s.identifier) ==> #[trigger] lookup(moved, k) == lookup(factors, k),
    ensures
        group_commitment_outcome::<G>(p.signers(), moved) == Ok::<int, ErrorView>(
            (group_commitment_outcome::<G>(p.signers(), factors)->Ok_0 + d * s.commitments.binding)
                % order::<G>(),
        ),
{
    let m = order::<G>();
    let all = p.signers();
    let i = choose|i: int| 0 <= i < all.len() && all[i] == s;
    law_signers_in_order::<G>(p);
    G::Field::lemma_order();
    assert forall|j: int| 0 <= j < all.len() && j != i implies lookup(
        moved,
        ((#[trigger] all[j]).group, all[j].identifier),
    ) == lookup(factors, (all[j].group, all[j].identifier)) by {
        if j < i {
            assert(comes_before(all[j], all[i]));
        } else {
            assert(comes_before(all[i], all[j]));
        }
    }
    lemma_no_defect(all, factors);
    lemma_no_defect(all, moved);
    assert forall|j: int| 0 <= j < all.len() implies defect(#[trigger] all[j], moved) is None by {
        assert(defect(all[j], factors) is None);
        let k = (all[j].group, all[j].identifier);
        assert(has_key(factors, k) && lookup(factors, k) is Some);
        assert(lookup(moved, k) is Some);
        assert(has_key(moved, k));
    }
    let n = all.len() as int;
    lemma_moved_sum::<G>(p, factors, moved, i, d, n);
    assert(all.take(n) =~= all);
    let (sum, by) = (commitment_sum(all, factors), d * s.commitments.binding);
    lemma_residue(sum, m);
    lemma_congruent_add(sum % m, sum, by, by, m);
}

/// The other of the two groups.
pub open spec fn other_group(g: SignerGroup) -> SignerGroup {
    match g {
        SignerGroup::Primary => SignerGroup::Secondary,
        SignerGroup::Secondary => SignerGroup::Primary,
    }
}

/// Whether these are the same binding factors with the two groups exchanged.
pub open spec fn are_exchanged(
    factors: Seq<((SignerGroup, int), int)>,
    exchanged: Seq<((SignerGroup, int), int)>,
) -> bool {
    forall|g: SignerGroup, id: int| #[trigger]
        lookup(factors, (g, id)) == lookup(exchanged, (other_group(g), id))
}

/// Members of a group add up to the same, and have the same defects, as members
/// of the other group under exchanged binding factors.
proof fn lemma_exchanged_members(
    g: SignerGroup,
    entries: Seq<(int, CommitmentsView)>,
    factors: Seq<((SignerGroup, int), int)>,
    exchanged: Seq<((SignerGroup, int), int)>,
)
    requires
        are_exchanged(factors, exchanged),
    ensures
        commitment_sum(members(g, entries), factors) == commitment_sum(
            members(other_group(g), entries),
            exchanged,
        ),
        forall|i: int|
            0 <= i < entries.len() ==> defect(#[trigger] members(g, entries)[i], factors) == defect(
                members(other_group(g), entries)[i],
                exchanged,
            ),
    decreases entries.len(),
{
    let (a, b) = (members(g, entries), members(other_group(g), entries));
    assert forall|i: int| 0 <= i < entries.len() implies defect(#[trigger] a[i], factors)
        == defect(b[i], exchanged) by {
        let id = entries[i].0;
        assert(lookup(factors, (g, id)) == lookup(exchanged, (other_group(g), id)));
        assert(has_key(factors, (g, id)) == (lookup(factors, (g, id)) is Some));
        assert(has_key(exchanged, (other_group(g), id)) == (lookup(
            exchanged,
            (other_group(g), id),
        ) is Some));
    }
    if entries.len() > 0 {
        let rest = entries.drop_last();
        lemma_exchanged_members(g, rest, factors, exchanged);
        assert(a.drop_last() =~= members(g, rest));
        assert(b.drop_last() =~= members(other_group(g), rest));
        let id = entries.last().0;
        assert(lookup(factors, (g, id)) == lookup(exchanged, (other_group(g), id)));
    }
}

/// Given the binding factors, the group commitment is symmetric in the two
/// groups, and the message does not enter into it: with the groups exchanged,
/// both in the package and in the keys of the factors, it is the same.
pub proof fn law_group_commitment_is_symmetric<G: Group>(
    p: PackageView,
    q: PackageView,
    factors: Seq<((SignerGroup, int), int)>,
    exchanged: Seq<((SignerGroup, int), int)>,
)
    requires
        q.primary == p.secondary,
        q.secondary == p.primary,
        are_exchanged(factors, exchanged),
    ensures
        commitment_sum(p.signers(), factors) == commitment_sum(q.signers(), exchanged),
        group_commitment_outcome::<G>(p.signers(), factors) is Ok <==> group_commitment_outcome::<
            G,
        >(q.signers(), exchanged) is Ok,
        group_commitment_outcome::<G>(p.signers(), factors) is Ok ==> group_commitment_outcome::<G>(
            q.signers(),
            exchanged,
        ) == group_commitment_outcome::<G>(p.signers(), factors),
{
    let (a, b) = (
        members(SignerGroup::Primary, p.primary),
        members(SignerGroup::Secondary, p.secondary),
    );
    let (c, d) = (
        members(SignerGroup::Primary, q.primary),
        members(SignerGroup::Secondary, q.secondary),
    );
    let (all, swapped) = (p.signers(), q.signers());
    let (n, k) = (a.len() as int, b.len() as int);
    lemma_commitment_sum_concat(a, b, factors);
    lemma_commitment_sum_concat(c, d, exchanged);
    lemma_exchanged_members(SignerGroup::Primary, p.primary, factors, exchanged);
    lemma_exchanged_members(SignerGroup::Secondary, p.secondary, factors, exchanged);
    lemma_no_defect(all, factors);
    lemma_no_defect(swapped, exchanged);
    assert forall|i: int| 0 <= i < all.len() implies defect(#[trigger] all[i], factors) == defect(
        swapped[if i < n { k + i } else { i - n }],
        exchanged,
    ) by {
        if i < n {
            assert(all[i] == a[i] && swapped[k + i] == d[i]);
        } else {
            assert(all[i] == b[i - n] && swapped[i - n] == c[i - n]);
        }
    }
    if first_defect(all, factors) is None {
        assert forall|j: int| 0 <= j < swapped.len() implies defect(
            #[trigger] swapped[j],
            exchanged,
        ) is None by {
            let i = if j < k { n + j } else { j - k };
            assert(defect(all[i], factors) is None);
        }
    }
    if first_defect(swapped, exchanged) is None {
        assert forall|i: int| 0 <= i < all.len() implies defect(
            #[trigger] all[i],
            factors,
        ) is None by {
            assert(defect(swapped[if i < n { k + i } else { i - n }], exchanged) is None);
        }
    }
}

/// A signature that aggregation returns has been verified, under the key that
/// the ciphersuite's pre-processing has made of the given one.
pub proof fn law_aggregate_is_verified<C: Ciphersuite>(
    p: PackageView,
    primary_shares: Seq<(int, int)>,
    secondary_shares: Seq<(int, int)>,
    pubkeys: PublicKeyPackageView,
)
    requires
        aggregate_outcome::<C>(p, primary_shares, secondary_shares, pubkeys) is Ok,
    ensures
        ({
            let prepared = C::pre_aggregate_outcome(
                p.of_group(SignerGroup::Primary),
                primary_shares,
                pubkeys,
            );
            &&& prepared is Ok
            &&& C::signature_verdict(
                p.message,
                aggregate_outcome::<C>(p, primary_shares, secondary_shares, pubkeys)->Ok_0,
                prepared->Ok_0.1.verifying_key,
            ) is Ok
        }),
{
}

/// The signers to blame are those whose shares fail to verify.
pub proof fn law_culprits_are_those_that_fail<C: Ciphersuite>(
    p: PackageView,
    suffix: Seq<u8>,
    shares: Seq<(int, int)>,
    pubkeys: PublicKeyPackageView,
    c: int,
    id: int,
)
    ensures
        culprits_of::<C>(p, suffix, shares, pubkeys, c).contains(id) <==> exists|i: int|
            0 <= i < shares.len() && (#[trigger] shares[i]).0 == id && is_culprit::<C>(
                p,
                suffix,
                pubkeys,
                c,
                id,
                shares[i].1,
            ),
    decreases shares.len(),
{
    let found = culprits_of::<C>(p, suffix, shares, pubkeys, c);
    if shares.len() > 0 {
        let rest = shares.drop_last();
        let before = culprits_of::<C>(p, suffix, rest, pubkeys, c);
        law_culprits_are_those_that_fail::<C>(p, suffix, rest, pubkeys, c, id);
        if found.contains(id) {
            let k = choose|k: int| 0 <= k < found.len() && found[k] == id;
            if k < before.len() {
                assert(before[k] == id);
                let i = choose|i: int|
                    0 <= i < rest.len() && (#[trigger] rest[i]).0 == id && is_culprit::<C>(
                        p,
                        suffix,
                        pubkeys,
                        c,
                        id,
                        rest[i].1,
                    );
                assert(shares[i] == rest[i]);
            } else {
                assert(shares[shares.len() - 1].0 == id);
            }
        }
        if exists|i: int|
            0 <= i < shares.len() && (#[trigger] shares[i]).0 == id && is_culprit::<C>(
                p,
                suffix,
                pubkeys,
                c,
                id,
                shares[i].1,
            ) {
            let i = choose|i: int|
                0 <= i < shares.len() && (#[trigger] shares[i]).0 == id && is_culprit::<C>(
                    p,
                    suffix,
                    pubkeys,
                    c,
                    id,
                    shares[i].1,
                );
            if i < rest.len() {
                assert(rest[i] == shares[i]);
                let k = choose|k: int| 0 <= k < before.len() && before[k] == id;
                assert(found[k] == id);
            } else {
                assert(found[found.len() - 1] == id);
            }
        }
    }
}

/// Only primary signers are blamed, and only for shares that fail to verify. If
/// every primary share verifies, the failure is reported without blame.
pub proof fn law_only_primary_signers_are_blamed<C: Ciphersuite>(
    p: PackageView,
    suffix: Seq<u8>,
    shares: Seq<(int, int)>,
    pubkeys: PublicKeyPackageView,
    c: int,
)
    requires
        all_known(p, shares, pubkeys),
    ensures
        match blame::<C>(p, suffix, shares, pubkeys, c) {
            ErrorView::InvalidSignatureShare { culprits } => {
                &&& culprits.len() > 0
                &&& forall|k: int|
                    0 <= k < culprits.len() ==> has_key(p.primary, #[trigger] culprits[k])
            },
            e => e == ErrorView::InvalidSignature,
        },
        (forall|i: int|
            0 <= i < shares.len() ==> !is_culprit::<C>(
                p,
                suffix,
                pubkeys,
                c,
                (#[trigger] shares[i]).0,
                shares[i].1,
            )) <==> blame::<C>(p, suffix, shares, pubkeys, c) == ErrorView::InvalidSignature,
{
    let found = culprits_of::<C>(p, suffix, shares, pubkeys, c);
    assert forall|k: int| 0 <= k < found.len() implies has_key(
        p.primary,
        #[trigger] found[k],
    ) by {
        assert(found.contains(found[k]));
        law_culprits_are_those_that_fail::<C>(p, suffix, shares, pubkeys, c, found[k]);
    }
    if forall|i: int|
        0 <= i < shares.len() ==> !is_culprit::<C>(
            p,
            suffix,
            pubkeys,
            c,
            (#[trigger] shares[i]).0,
            shares[i].1,
        ) {
        if found.len() > 0 {
            assert(found.contains(found[0]));
            law_culprits_are_those_that_fail::<C>(p, suffix, shares, pubkeys, c, found[0]);
        }
    }
    if found.len() == 0 {
        assert forall|i: int| 0 <= i < shares.len() implies !is_culprit::<C>(
            p,
            suffix,
            pubkeys,
            c,
            (#[trigger] shares[i]).0,
            shares[i].1,
        ) by {
            law_culprits_are_those_that_fail::<C>(p, suffix, shares, pubkeys, c, shares[i].0);
        }
    }
}

} // verus!
