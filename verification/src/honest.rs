//! What signers that follow the scheme achieve.
use vstd::arithmetic::mul::lemma_mul_is_distributive_add;
use vstd::prelude::*;

use crate::ciphersuite::{Ciphersuite, SigningPackageView};
use crate::error::ErrorView;
use crate::group::{is_residue, order, Field, Group};
use crate::identifier::is_identifier;
use crate::interpolation::{are_points, law_interpolation, polynomial, sum_over};
use crate::keys::{
    hold_residues, is_key_package, is_public_key_package, KeyPackageView, PublicKeyPackageView,
};
use crate::lagrange::{denominator, lagrange, numerator};
use crate::laws::lemma_commitment_sum_concat;
use crate::map::{distinct, has_key, is_map, keys, lemma_key_at, lemma_lookup, lookup};
use crate::residue::{
    congruent, lemma_congruent_add, lemma_congruent_mul, lemma_in_range, lemma_residue,
};
use crate::round1::{are_nonces, commitment_share, nonces_of, CommitmentsView, NoncesView};
use crate::round2::{schnorr_share, share_answers};
use crate::scheme::{
    aggregate_outcome, aggregate_signature, all_known, commitment_of, commitment_sum,
    common_suffix, culprits_of, factor_of, factors_of, is_culprit, is_package, lambda, members,
    share_sum, sign_outcome, PackageView, Signer,
};
use crate::signature::{answers, SignatureView};
use crate::two_group::{lemma_factor_of, SignerGroup};

verus! {

/// A key after normalization: itself or a multiple of it, such as its
/// opposite.
pub open spec fn normal_key<G: Group>(key_sign: spec_fn(int) -> int, key: int) -> int {
    (key_sign(key) * key) % order::<G>()
}

/// Key material after normalization of its key.
pub open spec fn normal_key_package<G: Group>(
    key_sign: spec_fn(int) -> int,
    key: KeyPackageView,
) -> KeyPackageView {
    let sign = key_sign(key.verifying_key);
    KeyPackageView {
        identifier: key.identifier,
        signing_share: (sign * key.signing_share) % order::<G>(),
        verifying_share: (sign * key.verifying_share) % order::<G>(),
        verifying_key: normal_key::<G>(key_sign, key.verifying_key),
        min_signers: key.min_signers,
    }
}

/// Public key material after normalization of its key.
pub open spec fn normal_pubkeys<G: Group>(
    key_sign: spec_fn(int) -> int,
    pubkeys: PublicKeyPackageView,
) -> PublicKeyPackageView {
    let sign = key_sign(pubkeys.verifying_key);
    PublicKeyPackageView {
        verifying_shares: pubkeys.verifying_shares.map_values(
            |e: (int, int)| (e.0, (sign * e.1) % order::<G>()),
        ),
        verifying_key: normal_key::<G>(key_sign, pubkeys.verifying_key),
        min_signers: pubkeys.min_signers,
    }
}

/// Whether the hooks of a ciphersuite normalize key material and nonces, and are
/// those of Schnorr signatures otherwise.
///
/// Before signing and aggregation, key material is multiplied by `key_sign` of
/// the key; the commitments and the signature shares are left alone. In a share
/// and in verification, nonces and commitments count `nonce_sign` of the group
/// commitment times. Where both are one everywhere, these are plain Schnorr
/// signatures; where they are one or minus one, they select points of even
/// ordinate. Of key material, nonces, commitments, shares and signatures, only
/// those are spoken of whose values scalars and elements can have.
pub open spec fn hooks_normalize<C: Ciphersuite>(
    key_sign: spec_fn(int) -> int,
    nonce_sign: spec_fn(int) -> int,
) -> bool {
    &&& forall|key: int|
        is_residue::<C::Group>(key) ==> key_sign(
            #[trigger] normal_key::<C::Group>(key_sign, key),
        ) == 1
    &&& forall|package: SigningPackageView, nonces: NoncesView, key: KeyPackageView|
        are_nonces::<C::Group>(nonces) && is_key_package::<C::Group>(key)
            ==> #[trigger] C::pre_sign_outcome(package, nonces, key) == Ok::<
            (NoncesView, KeyPackageView),
            ErrorView,
        >((nonces, normal_key_package::<C::Group>(key_sign, key)))
    &&& forall|package: SigningPackageView, shares: Seq<(int, int)>, keys: PublicKeyPackageView|
        hold_residues::<C::Group>(shares) && is_public_key_package::<C::Group>(keys)
            ==> #[trigger] C::pre_aggregate_outcome(package, shares, keys) == Ok::<
            (Seq<(int, int)>, PublicKeyPackageView),
            ErrorView,
        >((shares, normal_pubkeys::<C::Group>(key_sign, keys)))
    &&& forall|r: int, n: NoncesView, factor: int, lambda: int, key: KeyPackageView, c: int|
        is_residue::<C::Group>(r) && are_nonces::<C::Group>(n) && is_residue::<C::Group>(lambda)
            && is_key_package::<C::Group>(key) ==> #[trigger] C::signature_share(
            r,
            n,
            factor,
            lambda,
            key,
            c,
        ) == (nonce_sign(r) * (n.hiding + n.binding * factor) + lambda * key.signing_share * c)
            % order::<C::Group>()
    &&& forall|r: int, share: int, id: int, cs: int, vs: int, lambda: int, c: int|
        is_residue::<C::Group>(r) && is_residue::<C::Group>(share) && is_identifier::<C::Group>(id)
            && is_residue::<C::Group>(cs) && is_residue::<C::Group>(vs) && is_residue::<C::Group>(
            lambda,
        ) ==> ((#[trigger] C::share_verdict(r, share, id, cs, vs, lambda, c) is Ok) <==> share == (
        nonce_sign(r) * cs + vs * c * lambda) % order::<C::Group>())
    &&& forall|message: Seq<u8>, s: SignatureView, key: int|
        is_residue::<C::Group>(s.R) && is_residue::<C::Group>(s.z) && is_residue::<C::Group>(key)
            ==> ((#[trigger] C::signature_verdict(message, s, key) is Ok) <==> {
            let normal = normal_key::<C::Group>(key_sign, key);
            let c = C::challenge_outcome(s.R, normal, message);
            c is Ok && s.z == (nonce_sign(s.R) * s.R + c->Ok_0 * normal) % order::<C::Group>()
        })
}

/// Whether the hooks of a ciphersuite hand on what they are given, and are those
/// of Schnorr signatures.
pub open spec fn hooks_are_plain<C: Ciphersuite>() -> bool {
    &&& forall|package: SigningPackageView, nonces: NoncesView, key: KeyPackageView|
        are_nonces::<C::Group>(nonces) && is_key_package::<C::Group>(key)
            ==> #[trigger] C::pre_sign_outcome(package, nonces, key) == Ok::<
            (NoncesView, KeyPackageView),
            ErrorView,
        >((nonces, key))
    &&& forall|package: SigningPackageView, shares: Seq<(int, int)>, keys: PublicKeyPackageView|
        hold_residues::<C::Group>(shares) && is_public_key_package::<C::Group>(keys)
            ==> #[trigger] C::pre_aggregate_outcome(package, shares, keys) == Ok::<
            (Seq<(int, int)>, PublicKeyPackageView),
            ErrorView,
        >((shares, keys))
    &&& forall|r: int, n: NoncesView, factor: int, lambda: int, key: KeyPackageView, c: int|
        is_residue::<C::Group>(r) && are_nonces::<C::Group>(n) && is_residue::<C::Group>(lambda)
            && is_key_package::<C::Group>(key) ==> #[trigger] C::signature_share(
            r,
            n,
            factor,
            lambda,
            key,
            c,
        ) == schnorr_share::<C::Group>(n, factor, lambda, key, c)
    &&& forall|r: int, share: int, id: int, cs: int, vs: int, lambda: int, c: int|
        is_residue::<C::Group>(r) && is_residue::<C::Group>(share) && is_identifier::<C::Group>(id)
            && is_residue::<C::Group>(cs) && is_residue::<C::Group>(vs) && is_residue::<C::Group>(
            lambda,
        ) ==> ((#[trigger] C::share_verdict(r, share, id, cs, vs, lambda, c) is Ok)
            <==> share_answers::<C::Group>(share, cs, vs, lambda, c))
    &&& forall|message: Seq<u8>, s: SignatureView, key: int|
        is_residue::<C::Group>(s.R) && is_residue::<C::Group>(s.z) && is_residue::<C::Group>(key)
            ==> ((#[trigger] C::signature_verdict(message, s, key) is Ok) <==> {
            let c = C::challenge_outcome(s.R, key, message);
            c is Ok && answers::<C::Group>(s, key, c->Ok_0)
        })
}

/// Plain Schnorr signatures need no normalization: with the sign one everywhere,
/// their hooks are of the kind that normalizes.
pub proof fn law_plain_hooks_normalize<C: Ciphersuite>()
    requires
        hooks_are_plain::<C>(),
    ensures
        hooks_normalize::<C>(|x: int| 1int, |x: int| 1int),
{
    let one = |x: int| 1int;
    let m = order::<C::Group>();
    assert forall|x: int| is_residue::<C::Group>(x) implies #[trigger] normal_key::<C::Group>(
        one,
        x,
    ) == x by {
        assert(1 * x == x);
        lemma_in_range(x, m);
    }
    assert forall|key: KeyPackageView|
        is_key_package::<C::Group>(key) implies #[trigger] normal_key_package::<C::Group>(
        one,
        key,
    ) == key by {
        assert(normal_key::<C::Group>(one, key.signing_share) == key.signing_share);
        assert(normal_key::<C::Group>(one, key.verifying_share) == key.verifying_share);
        assert(normal_key::<C::Group>(one, key.verifying_key) == key.verifying_key);
    }
    assert forall|pubkeys: PublicKeyPackageView|
        is_public_key_package::<C::Group>(pubkeys) implies #[trigger] normal_pubkeys::<C::Group>(
        one,
        pubkeys,
    ) == pubkeys by {
        let entries = pubkeys.verifying_shares;
        let normal = normal_pubkeys::<C::Group>(one, pubkeys).verifying_shares;
        assert forall|i: int| 0 <= i < entries.len() implies normal[i] == entries[i] by {
            assert(normal_key::<C::Group>(one, entries[i].1) == entries[i].1);
        }
        assert(normal =~= entries);
        assert(normal_key::<C::Group>(one, pubkeys.verifying_key) == pubkeys.verifying_key);
    }
}

/// Whether nothing stands in the way of a run under the key: what is hashed can
/// be encoded, nobody has committed to the identity, and there is a challenge.
pub open spec fn can_run<C: Ciphersuite>(p: PackageView, key: int) -> bool {
    &&& common_suffix::<C>(p, key) is Ok
    &&& !p.has_identity()
    &&& C::challenge_outcome(
        commitment_of::<C>(p, common_suffix::<C>(p, key)->Ok_0),
        key,
        p.message,
    ) is Ok
}

/// Whether these are the nonces and the key material, under the key `key`, of
/// the signers of a group that takes part with enough of them: the nonces are
/// those that they have committed to.
pub open spec fn are_honest<G: Group>(
    p: PackageView,
    group: SignerGroup,
    nonces: Seq<NoncesView>,
    packages: Seq<KeyPackageView>,
    key: int,
) -> bool {
    let own = p.commitments(group);
    &&& nonces.len() == own.len()
    &&& packages.len() == own.len()
    &&& forall|i: int|
        0 <= i < own.len() ==> {
            &&& is_key_package::<G>(#[trigger] packages[i])
            &&& packages[i].identifier == own[i].0
            &&& packages[i].verifying_key == key
            &&& packages[i].min_signers <= own.len()
            &&& nonces[i] == nonces_of(own[i].1.hiding, own[i].1.binding)
        }
}

/// The shares that the signers of a group produce.
pub open spec fn shares_of<C: Ciphersuite>(
    p: PackageView,
    group: SignerGroup,
    nonces: Seq<NoncesView>,
    packages: Seq<KeyPackageView>,
) -> Seq<(int, int)> {
    Seq::new(
        p.commitments(group).len(),
        |i: int|
            (
                p.commitments(group)[i].0,
                sign_outcome::<C>(p, nonces[i], packages[i], group)->Ok_0,
            ),
    )
}

/// The sum of the signing shares of the first `n` signers of a group, weighted
/// by their Lagrange coefficients.
pub open spec fn secret_of<C: Ciphersuite>(
    p: PackageView,
    group: SignerGroup,
    packages: Seq<KeyPackageView>,
    n: int,
) -> int
    decreases n,
{
    if n <= 0 {
        0
    } else {
        secret_of::<C>(p, group, packages, n - 1) + lambda::<C>(
            p,
            group,
            p.commitments(group)[n - 1].0,
        ) * packages[n - 1].signing_share
    }
}

/// The sum of the commitments of the first `n` signers of a group, the binding
/// ones weighted by the binding factors.
spec fn nonce_sum<C: Ciphersuite>(
    p: PackageView,
    suffix: Seq<u8>,
    group: SignerGroup,
    n: int,
) -> int
    decreases n,
{
    if n <= 0 {
        0
    } else {
        let e = p.commitments(group)[n - 1];
        nonce_sum::<C>(p, suffix, group, n - 1) + e.1.hiding + factor_of::<C>(suffix, group, e.0)
            * e.1.binding
    }
}

proof fn lemma_nonce_sum<C: Ciphersuite>(
    p: PackageView,
    suffix: Seq<u8>,
    group: SignerGroup,
    n: int,
)
    requires
        is_package::<C::Group>(p),
        0 <= n <= p.commitments(group).len(),
    ensures
        commitment_sum(
            members(group, p.commitments(group)).take(n),
            factors_of::<C>(suffix, p.signers()),
        ) == nonce_sum::<C>(p, suffix, group, n),
    decreases n,
{
    let own = p.commitments(group);
    let all = members(group, own);
    if n > 0 {
        lemma_nonce_sum::<C>(p, suffix, group, n - 1);
        assert(all.take(n).drop_last() =~= all.take(n - 1));
        let e = own[n - 1];
        assert(all.take(n).last() == (Signer { group, identifier: e.0, commitments: e.1 }));
        assert(has_key(own, e.0));
        lemma_factor_of::<C>(p, suffix, group, e.0);
    }
}

/// The group commitment is made of the commitments of both groups.
proof fn lemma_commitment_of<C: Ciphersuite>(p: PackageView, suffix: Seq<u8>)
    requires
        is_package::<C::Group>(p),
    ensures
        commitment_of::<C>(p, suffix) == (nonce_sum::<C>(
            p,
            suffix,
            SignerGroup::Primary,
            p.primary.len() as int,
        ) + nonce_sum::<C>(p, suffix, SignerGroup::Secondary, p.secondary.len() as int)) % order::<
            C::Group,
        >(),
{
    let factors = factors_of::<C>(suffix, p.signers());
    let a = members(SignerGroup::Primary, p.primary);
    let b = members(SignerGroup::Secondary, p.secondary);
    lemma_commitment_sum_concat(a, b, factors);
    lemma_nonce_sum::<C>(p, suffix, SignerGroup::Primary, p.primary.len() as int);
    lemma_nonce_sum::<C>(p, suffix, SignerGroup::Secondary, p.secondary.len() as int);
    assert(a.take(p.primary.len() as int) =~= a);
    assert(b.take(p.secondary.len() as int) =~= b);
}

/// Normalization keeps key material in range.
proof fn lemma_normal_key_package<G: Group>(key_sign: spec_fn(int) -> int, key: KeyPackageView)
    requires
        is_key_package::<G>(key),
    ensures
        is_key_package::<G>(normal_key_package::<G>(key_sign, key)),
{
    let sign = key_sign(key.verifying_key);
    G::Field::lemma_order();
    lemma_residue(sign * key.signing_share, order::<G>());
    lemma_residue(sign * key.verifying_share, order::<G>());
    lemma_residue(sign * key.verifying_key, order::<G>());
}

proof fn lemma_lambda_range<C: Ciphersuite>(p: PackageView, group: SignerGroup, id: int)
    ensures
        is_residue::<C::Group>(lambda::<C>(p, group, id)),
{
    let xs = keys(p.commitments(group));
    let m = order::<C::Group>();
    <C::Group as Group>::Field::lemma_order();
    lemma_residue(
        numerator(xs, id) * <C::Group as Group>::Field::inverse(denominator(xs, id) % m),
        m,
    );
}

/// A signer that follows the scheme produces a share.
pub proof fn law_signing_succeeds<C: Ciphersuite>(
    p: PackageView,
    group: SignerGroup,
    nonces: Seq<NoncesView>,
    packages: Seq<KeyPackageView>,
    key: int,
    key_sign: spec_fn(int) -> int,
    nonce_sign: spec_fn(int) -> int,
    i: int,
)
    requires
        is_package::<C::Group>(p),
        hooks_normalize::<C>(key_sign, nonce_sign),
        are_honest::<C::Group>(p, group, nonces, packages, key),
        can_run::<C>(p, normal_key::<C::Group>(key_sign, key)),
        0 <= i < p.commitments(group).len(),
    ensures
        ({
            let m = order::<C::Group>();
            let normal = normal_key::<C::Group>(key_sign, key);
            let suffix = common_suffix::<C>(p, normal)->Ok_0;
            let r = commitment_of::<C>(p, suffix);
            let c = C::challenge_outcome(r, normal, p.message)->Ok_0;
            let (id, own) = p.commitments(group)[i];
            let secret = (key_sign(key) * packages[i].signing_share) % m;
            sign_outcome::<C>(p, nonces[i], packages[i], group) == Ok::<int, ErrorView>(
                (nonce_sign(r) * (own.hiding + own.binding * factor_of::<C>(suffix, group, id))
                    + lambda::<C>(p, group, id) * secret * c) % m,
            )
        }),
{
    let own = p.commitments(group);
    let k = packages[i];
    assert(k.identifier == own[i].0);
    assert(is_package::<C::Group>(p) ==> distinct(own));
    lemma_lookup(own, i);
    assert(CommitmentsView { hiding: own[i].1.hiding, binding: own[i].1.binding } == own[i].1);
    assert(are_nonces::<C::Group>(nonces[i]));
    lemma_normal_key_package::<C::Group>(key_sign, k);
    let suffix = common_suffix::<C>(p, normal_key::<C::Group>(key_sign, key))->Ok_0;
    <C::Group as Group>::Field::lemma_order();
    lemma_residue(
        commitment_sum(p.signers(), factors_of::<C>(suffix, p.signers())),
        order::<C::Group>(),
    );
    lemma_lambda_range::<C>(p, group, k.identifier);
}

proof fn lemma_genuine_share_range<C: Ciphersuite>(
    p: PackageView,
    group: SignerGroup,
    nonces: Seq<NoncesView>,
    packages: Seq<KeyPackageView>,
    key: int,
    key_sign: spec_fn(int) -> int,
    nonce_sign: spec_fn(int) -> int,
    i: int,
)
    requires
        is_package::<C::Group>(p),
        hooks_normalize::<C>(key_sign, nonce_sign),
        are_honest::<C::Group>(p, group, nonces, packages, key),
        can_run::<C>(p, normal_key::<C::Group>(key_sign, key)),
        0 <= i < p.commitments(group).len(),
    ensures
        is_residue::<C::Group>(shares_of::<C>(p, group, nonces, packages)[i].1),
{
    let m = order::<C::Group>();
    let suffix = common_suffix::<C>(p, normal_key::<C::Group>(key_sign, key))->Ok_0;
    let r = commitment_of::<C>(p, suffix);
    let c = C::challenge_outcome(r, normal_key::<C::Group>(key_sign, key), p.message)->Ok_0;
    let (id, own) = p.commitments(group)[i];
    let secret = (key_sign(key) * packages[i].signing_share) % m;
    <C::Group as Group>::Field::lemma_order();
    law_signing_succeeds::<C>(p, group, nonces, packages, key, key_sign, nonce_sign, i);
    lemma_residue(
        nonce_sign(r) * (own.hiding + own.binding * factor_of::<C>(suffix, group, id))
            + lambda::<C>(p, group, id) * secret * c,
        m,
    );
}

/// The shares of the first `n` signers of a group add up to their part of the
/// response.
proof fn lemma_share_sum<C: Ciphersuite>(
    p: PackageView,
    group: SignerGroup,
    nonces: Seq<NoncesView>,
    packages: Seq<KeyPackageView>,
    key: int,
    key_sign: spec_fn(int) -> int,
    nonce_sign: spec_fn(int) -> int,
    n: int,
)
    requires
        is_package::<C::Group>(p),
        hooks_normalize::<C>(key_sign, nonce_sign),
        are_honest::<C::Group>(p, group, nonces, packages, key),
        can_run::<C>(p, normal_key::<C::Group>(key_sign, key)),
        0 <= n <= p.commitments(group).len(),
    ensures
        ({
            let normal = normal_key::<C::Group>(key_sign, key);
            let suffix = common_suffix::<C>(p, normal)->Ok_0;
            let r = commitment_of::<C>(p, suffix);
            let c = C::challenge_outcome(r, normal, p.message)->Ok_0;
            congruent(
                share_sum(shares_of::<C>(p, group, nonces, packages).take(n)),
                nonce_sign(r) * nonce_sum::<C>(p, suffix, group, n) + c * (key_sign(key)
                    * secret_of::<C>(p, group, packages, n)),
                order::<C::Group>(),
            )
        }),
    decreases n,
{
    let m = order::<C::Group>();
    let normal = normal_key::<C::Group>(key_sign, key);
    let suffix = common_suffix::<C>(p, normal)->Ok_0;
    let r = commitment_of::<C>(p, suffix);
    let c = C::challenge_outcome(r, normal, p.message)->Ok_0;
    let shares = shares_of::<C>(p, group, nonces, packages);
    let (v, k) = (nonce_sign(r), key_sign(key));
    <C::Group as Group>::Field::lemma_order();
    if n == 0 {
        assert(v * 0 + c * (k * 0) == 0) by (nonlinear_arith);
    } else {
        let i = n - 1;
        lemma_share_sum::<C>(p, group, nonces, packages, key, key_sign, nonce_sign, i);
        law_signing_succeeds::<C>(p, group, nonces, packages, key, key_sign, nonce_sign, i);
        assert(shares.take(n).drop_last() =~= shares.take(i));
        let (id, own) = p.commitments(group)[i];
        let (d, e, f) = (own.hiding, own.binding, factor_of::<C>(suffix, group, id));
        let (l, s) = (lambda::<C>(p, group, id), packages[i].signing_share);
        let z = shares[i].1;
        let (ns, ss) = (
            nonce_sum::<C>(p, suffix, group, i),
            secret_of::<C>(p, group, packages, i),
        );
        let full = v * (d + e * f) + l * (k * s) * c;
        lemma_residue(k * s, m);
        lemma_congruent_mul(l, l, (k * s) % m, k * s, m);
        lemma_congruent_mul(l * ((k * s) % m), l * (k * s), c, c, m);
        lemma_congruent_add(
            v * (d + e * f),
            v * (d + e * f),
            l * ((k * s) % m) * c,
            l * (k * s) * c,
            m,
        );
        lemma_residue(v * (d + e * f) + l * ((k * s) % m) * c, m);
        assert(congruent(z, full, m));
        lemma_congruent_add(
            share_sum(shares.take(i)),
            v * ns + c * (k * ss),
            z,
            full,
            m,
        );
        // full == v * (d + e * f) + c * (k * (l * s))
        assert(f * e == e * f) by (nonlinear_arith);
        assert(l * (k * s) * c == c * (k * (l * s))) by (nonlinear_arith);
        lemma_mul_is_distributive_add(v, ns, d + e * f);
        lemma_mul_is_distributive_add(k, ss, l * s);
        lemma_mul_is_distributive_add(c, k * ss, k * (l * s));
    }
}

/// The signature that the shares of both groups add up to, where no share has
/// been tampered with, answers its challenge under the normalized key.
proof fn lemma_run_answers<C: Ciphersuite>(
    p: PackageView,
    primary_nonces: Seq<NoncesView>,
    primary_keys: Seq<KeyPackageView>,
    secondary_nonces: Seq<NoncesView>,
    secondary_keys: Seq<KeyPackageView>,
    key: int,
    key_sign: spec_fn(int) -> int,
    nonce_sign: spec_fn(int) -> int,
)
    requires
        is_run::<C>(
            p,
            primary_nonces,
            primary_keys,
            secondary_nonces,
            secondary_keys,
            key,
            key_sign,
            nonce_sign,
        ),
    ensures
        ({
            let m = order::<C::Group>();
            let normal = normal_key::<C::Group>(key_sign, key);
            let suffix = common_suffix::<C>(p, normal)->Ok_0;
            let r = commitment_of::<C>(p, suffix);
            let c = C::challenge_outcome(r, normal, p.message)->Ok_0;
            congruent(
                share_sum(shares_of::<C>(p, SignerGroup::Primary, primary_nonces, primary_keys))
                    + share_sum(
                    shares_of::<C>(p, SignerGroup::Secondary, secondary_nonces, secondary_keys),
                ),
                nonce_sign(r) * r + c * normal,
                m,
            )
        }),
{
    let m = order::<C::Group>();
    let normal = normal_key::<C::Group>(key_sign, key);
    let suffix = common_suffix::<C>(p, normal)->Ok_0;
    let r = commitment_of::<C>(p, suffix);
    let c = C::challenge_outcome(r, normal, p.message)->Ok_0;
    let (v, k) = (nonce_sign(r), key_sign(key));
    let (a, b) = (p.primary.len() as int, p.secondary.len() as int);
    let ps = shares_of::<C>(p, SignerGroup::Primary, primary_nonces, primary_keys);
    let ss = shares_of::<C>(p, SignerGroup::Secondary, secondary_nonces, secondary_keys);
    <C::Group as Group>::Field::lemma_order();
    lemma_share_sum::<C>(
        p,
        SignerGroup::Primary,
        primary_nonces,
        primary_keys,
        key,
        key_sign,
        nonce_sign,
        a,
    );
    lemma_share_sum::<C>(
        p,
        SignerGroup::Secondary,
        secondary_nonces,
        secondary_keys,
        key,
        key_sign,
        nonce_sign,
        b,
    );
    assert(ps.take(a) =~= ps);
    assert(ss.take(b) =~= ss);
    lemma_commitment_of::<C>(p, suffix);
    let (n1, n2) = (
        nonce_sum::<C>(p, suffix, SignerGroup::Primary, a),
        nonce_sum::<C>(p, suffix, SignerGroup::Secondary, b),
    );
    let (s1, s2) = (
        secret_of::<C>(p, SignerGroup::Primary, primary_keys, a),
        secret_of::<C>(p, SignerGroup::Secondary, secondary_keys, b),
    );
    lemma_congruent_add(
        share_sum(ps),
        v * n1 + c * (k * s1),
        share_sum(ss),
        v * n2 + c * (k * s2),
        m,
    );
    lemma_mul_is_distributive_add(v, n1, n2);
    lemma_mul_is_distributive_add(k, s1, s2);
    lemma_mul_is_distributive_add(c, k * s1, k * s2);
    lemma_residue(n1 + n2, m);
    lemma_congruent_mul(v, v, n1 + n2, r, m);
    lemma_congruent_mul(k, k, s1 + s2, key, m);
    lemma_residue(k * key, m);
    lemma_congruent_mul(c, c, k * (s1 + s2), normal, m);
    lemma_congruent_add(v * (n1 + n2), v * r, c * (k * (s1 + s2)), c * normal, m);
}

/// Whether this is a run of the scheme by signers of both groups who follow it:
/// the key is the one to the sum of the secrets of both groups.
pub open spec fn is_run<C: Ciphersuite>(
    p: PackageView,
    primary_nonces: Seq<NoncesView>,
    primary_keys: Seq<KeyPackageView>,
    secondary_nonces: Seq<NoncesView>,
    secondary_keys: Seq<KeyPackageView>,
    key: int,
    key_sign: spec_fn(int) -> int,
    nonce_sign: spec_fn(int) -> int,
) -> bool {
    &&& is_package::<C::Group>(p)
    &&& hooks_normalize::<C>(key_sign, nonce_sign)
    &&& are_honest::<C::Group>(p, SignerGroup::Primary, primary_nonces, primary_keys, key)
    &&& are_honest::<C::Group>(p, SignerGroup::Secondary, secondary_nonces, secondary_keys, key)
    &&& can_run::<C>(p, normal_key::<C::Group>(key_sign, key))
    &&& congruent(
        secret_of::<C>(p, SignerGroup::Primary, primary_keys, p.primary.len() as int)
            + secret_of::<C>(p, SignerGroup::Secondary, secondary_keys, p.secondary.len() as int),
        key,
        order::<C::Group>(),
    )
}

/// Whether this is the public key material of the primary signers.
pub open spec fn are_pubkeys<G: Group>(
    p: PackageView,
    primary_keys: Seq<KeyPackageView>,
    key: int,
    pubkeys: PublicKeyPackageView,
) -> bool {
    &&& is_public_key_package::<G>(pubkeys)
    &&& pubkeys.verifying_key == key
    &&& pubkeys.min_signers is Some ==> pubkeys.min_signers->0 <= p.primary.len()
    &&& forall|i: int|
        0 <= i < p.primary.len() ==> lookup(
            pubkeys.verifying_shares,
            (#[trigger] p.primary[i]).0,
        ) == Some(primary_keys[i].signing_share)
}

/// The signers whose shares in `shares` are not those in `genuine`.
pub open spec fn tampered(shares: Seq<(int, int)>, genuine: Seq<(int, int)>) -> Seq<int>
    decreases shares.len(),
{
    if shares.len() == 0 {
        Seq::empty()
    } else {
        let before = tampered(shares.drop_last(), genuine.drop_last());
        if shares.last().1 != genuine.last().1 {
            before.push(shares.last().0)
        } else {
            before
        }
    }
}

proof fn lemma_normal_verifying_share<G: Group>(
    pubkeys: PublicKeyPackageView,
    key_sign: spec_fn(int) -> int,
    id: int,
)
    requires
        is_map::<G, int>(pubkeys.verifying_shares),
        lookup(pubkeys.verifying_shares, id) is Some,
    ensures
        ({
            let normal = normal_pubkeys::<G>(key_sign, pubkeys);
            &&& has_key(normal.verifying_shares, id)
            &&& lookup(normal.verifying_shares, id) == Some(
                (key_sign(pubkeys.verifying_key) * lookup(pubkeys.verifying_shares, id)->0)
                    % order::<G>(),
            )
        }),
{
    let old_entries = pubkeys.verifying_shares;
    let entries = normal_pubkeys::<G>(key_sign, pubkeys).verifying_shares;
    let i = choose|i: int| 0 <= i < old_entries.len() && #[trigger] old_entries[i].0 == id;
    assert(entries[i].0 == id);
    assert forall|a: int, b: int| 0 <= a < b < entries.len() implies #[trigger] entries[a].0
        != #[trigger] entries[b].0 by {
        assert(old_entries[a].0 < old_entries[b].0);
    }
    lemma_lookup(entries, i);
    lemma_lookup(old_entries, i);
}

/// A primary share fails to verify exactly if it is not the one that the signer
/// has produced.
pub proof fn law_only_genuine_shares_verify<C: Ciphersuite>(
    p: PackageView,
    nonces: Seq<NoncesView>,
    packages: Seq<KeyPackageView>,
    key: int,
    pubkeys: PublicKeyPackageView,
    key_sign: spec_fn(int) -> int,
    nonce_sign: spec_fn(int) -> int,
    i: int,
    share: int,
)
    requires
        is_package::<C::Group>(p),
        hooks_normalize::<C>(key_sign, nonce_sign),
        are_honest::<C::Group>(p, SignerGroup::Primary, nonces, packages, key),
        can_run::<C>(p, normal_key::<C::Group>(key_sign, key)),
        are_pubkeys::<C::Group>(p, packages, key, pubkeys),
        0 <= i < p.primary.len(),
        is_residue::<C::Group>(share),
    ensures
        ({
            let normal = normal_key::<C::Group>(key_sign, key);
            let suffix = common_suffix::<C>(p, normal)->Ok_0;
            let r = commitment_of::<C>(p, suffix);
            let c = C::challenge_outcome(r, normal, p.message)->Ok_0;
            is_culprit::<C>(
                p,
                suffix,
                normal_pubkeys::<C::Group>(key_sign, pubkeys),
                c,
                p.primary[i].0,
                share,
            ) <==> share != shares_of::<C>(p, SignerGroup::Primary, nonces, packages)[i].1
        }),
{
    let m = order::<C::Group>();
    let normal = normal_key::<C::Group>(key_sign, key);
    let suffix = common_suffix::<C>(p, normal)->Ok_0;
    let r = commitment_of::<C>(p, suffix);
    let c = C::challenge_outcome(r, normal, p.message)->Ok_0;
    let (id, own) = p.primary[i];
    let (d, e, f) = (own.hiding, own.binding, factor_of::<C>(suffix, SignerGroup::Primary, id));
    let v = nonce_sign(r);
    let l = lambda::<C>(p, SignerGroup::Primary, id);
    let s = (key_sign(key) * packages[i].signing_share) % m;
    <C::Group as Group>::Field::lemma_order();
    law_signing_succeeds::<C>(
        p,
        SignerGroup::Primary,
        nonces,
        packages,
        key,
        key_sign,
        nonce_sign,
        i,
    );
    lemma_lookup(p.primary, i);
    lemma_normal_verifying_share::<C::Group>(pubkeys, key_sign, id);
    let cs = commitment_share::<C::Group>(own, f);
    lemma_residue(commitment_sum(p.signers(), factors_of::<C>(suffix, p.signers())), m);
    lemma_residue(own.hiding + f * own.binding, m);
    lemma_residue(key_sign(key) * packages[i].signing_share, m);
    lemma_lambda_range::<C>(p, SignerGroup::Primary, id);
    assert(d + f * e == d + e * f) by (nonlinear_arith);
    lemma_residue(d + e * f, m);
    lemma_congruent_mul(v, v, cs, d + e * f, m);
    assert(s * c * l == l * s * c) by (nonlinear_arith);
    lemma_congruent_add(v * cs, v * (d + e * f), s * c * l, l * s * c, m);
}

proof fn lemma_culprits_are_tampered<C: Ciphersuite>(
    p: PackageView,
    nonces: Seq<NoncesView>,
    packages: Seq<KeyPackageView>,
    key: int,
    pubkeys: PublicKeyPackageView,
    key_sign: spec_fn(int) -> int,
    nonce_sign: spec_fn(int) -> int,
    shares: Seq<(int, int)>,
    n: int,
)
    requires
        is_package::<C::Group>(p),
        hooks_normalize::<C>(key_sign, nonce_sign),
        are_honest::<C::Group>(p, SignerGroup::Primary, nonces, packages, key),
        can_run::<C>(p, normal_key::<C::Group>(key_sign, key)),
        are_pubkeys::<C::Group>(p, packages, key, pubkeys),
        keys(shares) == keys(p.primary),
        hold_residues::<C::Group>(shares),
        0 <= n <= shares.len(),
    ensures
        ({
            let normal = normal_key::<C::Group>(key_sign, key);
            let suffix = common_suffix::<C>(p, normal)->Ok_0;
            let r = commitment_of::<C>(p, suffix);
            let c = C::challenge_outcome(r, normal, p.message)->Ok_0;
            let genuine = shares_of::<C>(p, SignerGroup::Primary, nonces, packages);
            culprits_of::<C>(
                p,
                suffix,
                shares.take(n),
                normal_pubkeys::<C::Group>(key_sign, pubkeys),
                c,
            ) == tampered(shares.take(n), genuine.take(n))
        }),
    decreases n,
{
    if n > 0 {
        let genuine = shares_of::<C>(p, SignerGroup::Primary, nonces, packages);
        assert(keys(shares).len() == keys(p.primary).len());
        lemma_culprits_are_tampered::<C>(
            p,
            nonces,
            packages,
            key,
            pubkeys,
            key_sign,
            nonce_sign,
            shares,
            n - 1,
        );
        assert(shares.take(n).drop_last() =~= shares.take(n - 1));
        assert(genuine.take(n).drop_last() =~= genuine.take(n - 1));
        lemma_key_at(shares, p.primary, n - 1);
        law_only_genuine_shares_verify::<C>(
            p,
            nonces,
            packages,
            key,
            pubkeys,
            key_sign,
            nonce_sign,
            n - 1,
            shares[n - 1].1,
        );
    }
}

proof fn lemma_nothing_tampered(shares: Seq<(int, int)>, genuine: Seq<(int, int)>)
    requires
        keys(shares) == keys(genuine),
    ensures
        tampered(shares, genuine).len() == 0 <==> shares == genuine,
    decreases shares.len(),
{
    assert(keys(shares).len() == shares.len());
    assert(keys(genuine).len() == genuine.len());
    if shares.len() > 0 {
        let (a, b) = (shares.drop_last(), genuine.drop_last());
        assert(keys(a) =~= keys(shares).drop_last());
        assert(keys(b) =~= keys(genuine).drop_last());
        lemma_nothing_tampered(a, b);
        assert(keys(shares).last() == shares.last().0);
        assert(keys(genuine).last() == genuine.last().0);
        assert(shares =~= a.push(shares.last()));
        assert(genuine =~= b.push(genuine.last()));
    } else {
        assert(shares =~= genuine);
    }
}

/// Where the signers follow the scheme, and whatever shares then reach
/// aggregation: it returns the signature if the shares add up to what the
/// signers have produced. If they do not, it blames the primary signers whose
/// shares are not those that they have produced; and if there is none, the
/// failure lies with the secondary group, and nobody is blamed.
pub proof fn law_aggregation_of_run<C: Ciphersuite>(
    p: PackageView,
    primary_nonces: Seq<NoncesView>,
    primary_keys: Seq<KeyPackageView>,
    secondary_nonces: Seq<NoncesView>,
    secondary_keys: Seq<KeyPackageView>,
    key: int,
    pubkeys: PublicKeyPackageView,
    key_sign: spec_fn(int) -> int,
    nonce_sign: spec_fn(int) -> int,
    primary_shares: Seq<(int, int)>,
    secondary_shares: Seq<(int, int)>,
)
    requires
        is_run::<C>(
            p,
            primary_nonces,
            primary_keys,
            secondary_nonces,
            secondary_keys,
            key,
            key_sign,
            nonce_sign,
        ),
        are_pubkeys::<C::Group>(p, primary_keys, key, pubkeys),
        keys(primary_shares) == keys(p.primary),
        keys(secondary_shares) == keys(p.secondary),
        hold_residues::<C::Group>(primary_shares),
    ensures
        ({
            let suffix = common_suffix::<C>(p, normal_key::<C::Group>(key_sign, key))->Ok_0;
            let primary = shares_of::<C>(p, SignerGroup::Primary, primary_nonces, primary_keys);
            let secondary = shares_of::<C>(
                p,
                SignerGroup::Secondary,
                secondary_nonces,
                secondary_keys,
            );
            aggregate_outcome::<C>(p, primary_shares, secondary_shares, pubkeys) == if congruent(
                share_sum(primary_shares) + share_sum(secondary_shares),
                share_sum(primary) + share_sum(secondary),
                order::<C::Group>(),
            ) {
                Ok(aggregate_signature::<C>(p, suffix, primary_shares, secondary_shares))
            } else if primary_shares == primary {
                Err(ErrorView::InvalidSignature)
            } else {
                Err(
                    ErrorView::InvalidSignatureShare {
                        culprits: tampered(primary_shares, primary),
                    },
                )
            }
        }),
{
    let m = order::<C::Group>();
    let normal = normal_key::<C::Group>(key_sign, key);
    let suffix = common_suffix::<C>(p, normal)->Ok_0;
    let r = commitment_of::<C>(p, suffix);
    let c = C::challenge_outcome(r, normal, p.message)->Ok_0;
    let primary = shares_of::<C>(p, SignerGroup::Primary, primary_nonces, primary_keys);
    let signature = aggregate_signature::<C>(p, suffix, primary_shares, secondary_shares);
    let prepared = normal_pubkeys::<C::Group>(key_sign, pubkeys);
    <C::Group as Group>::Field::lemma_order();
    lemma_run_answers::<C>(
        p,
        primary_nonces,
        primary_keys,
        secondary_nonces,
        secondary_keys,
        key,
        key_sign,
        nonce_sign,
    );
    lemma_residue(key_sign(key) * key, m);
    lemma_in_range(normal, m);
    lemma_residue(commitment_sum(p.signers(), factors_of::<C>(suffix, p.signers())), m);
    lemma_residue(share_sum(primary_shares) + share_sum(secondary_shares), m);
    assert(normal_key::<C::Group>(key_sign, normal) == normal) by {
        assert(key_sign(normal) == 1);
        assert(1 * normal == normal);
    }
    assert(keys(primary_shares).len() == keys(p.primary).len());
    assert forall|i: int| 0 <= i < p.primary.len() implies has_key(
        pubkeys.verifying_shares,
        (#[trigger] p.primary[i]).0,
    ) by {
        assert(lookup(pubkeys.verifying_shares, p.primary[i].0) is Some);
    }
    assert(all_known(p, primary_shares, prepared)) by {
        assert forall|i: int| 0 <= i < primary_shares.len() implies has_key(
            p.primary,
            (#[trigger] primary_shares[i]).0,
        ) && has_key(prepared.verifying_shares, primary_shares[i].0) by {
            lemma_key_at(primary_shares, p.primary, i);
            assert(p.primary[i].0 == primary_shares[i].0);
            lemma_normal_verifying_share::<C::Group>(pubkeys, key_sign, p.primary[i].0);
        }
    }
    lemma_culprits_are_tampered::<C>(
        p,
        primary_nonces,
        primary_keys,
        key,
        pubkeys,
        key_sign,
        nonce_sign,
        primary_shares,
        primary_shares.len() as int,
    );
    assert(primary_shares.take(primary_shares.len() as int) =~= primary_shares);
    assert(primary.take(primary_shares.len() as int) =~= primary);
    assert(keys(primary) =~= keys(p.primary));
    lemma_nothing_tampered(primary_shares, primary);
    assert(signature.R == r);
}

/// The shares that the signers of both groups produce aggregate to a signature
/// that verifies, under the key itself.
pub proof fn law_run_verifies<C: Ciphersuite>(
    p: PackageView,
    primary_nonces: Seq<NoncesView>,
    primary_keys: Seq<KeyPackageView>,
    secondary_nonces: Seq<NoncesView>,
    secondary_keys: Seq<KeyPackageView>,
    key: int,
    pubkeys: PublicKeyPackageView,
    key_sign: spec_fn(int) -> int,
    nonce_sign: spec_fn(int) -> int,
)
    requires
        is_run::<C>(
            p,
            primary_nonces,
            primary_keys,
            secondary_nonces,
            secondary_keys,
            key,
            key_sign,
            nonce_sign,
        ),
        are_pubkeys::<C::Group>(p, primary_keys, key, pubkeys),
    ensures
        ({
            let result = aggregate_outcome::<C>(
                p,
                shares_of::<C>(p, SignerGroup::Primary, primary_nonces, primary_keys),
                shares_of::<C>(p, SignerGroup::Secondary, secondary_nonces, secondary_keys),
                pubkeys,
            );
            result is Ok && C::signature_verdict(p.message, result->Ok_0, key) is Ok
        }),
{
    let primary = shares_of::<C>(p, SignerGroup::Primary, primary_nonces, primary_keys);
    let secondary = shares_of::<C>(p, SignerGroup::Secondary, secondary_nonces, secondary_keys);
    assert(keys(primary) =~= keys(p.primary));
    assert(keys(secondary) =~= keys(p.secondary));
    let m = order::<C::Group>();
    let suffix = common_suffix::<C>(p, normal_key::<C::Group>(key_sign, key))->Ok_0;
    <C::Group as Group>::Field::lemma_order();
    assert forall|i: int| 0 <= i < primary.len() implies is_residue::<C::Group>(
        (#[trigger] primary[i]).1,
    ) by {
        lemma_genuine_share_range::<C>(
            p,
            SignerGroup::Primary,
            primary_nonces,
            primary_keys,
            key,
            key_sign,
            nonce_sign,
            i,
        );
    }
    lemma_residue(commitment_sum(p.signers(), factors_of::<C>(suffix, p.signers())), m);
    lemma_residue(share_sum(primary) + share_sum(secondary), m);
    law_aggregation_of_run::<C>(
        p,
        primary_nonces,
        primary_keys,
        secondary_nonces,
        secondary_keys,
        key,
        pubkeys,
        key_sign,
        nonce_sign,
        primary,
        secondary,
    );
    lemma_run_answers::<C>(
        p,
        primary_nonces,
        primary_keys,
        secondary_nonces,
        secondary_keys,
        key,
        key_sign,
        nonce_sign,
    );
}

/// The signing shares of a group are the values of a polynomial at the
/// identifiers of the signers.
pub open spec fn shares_lie_on<G: Group>(packages: Seq<KeyPackageView>, c: Seq<int>) -> bool {
    forall|i: int|
        0 <= i < packages.len() ==> congruent(
            (#[trigger] packages[i]).signing_share,
            polynomial(c, packages[i].identifier),
            order::<G>(),
        )
}

/// Where signing shares lie on a polynomial, any signers that are as many as it
/// has coefficients or more hold its value at zero between them.
pub proof fn law_threshold_reconstructs<C: Ciphersuite>(
    p: PackageView,
    group: SignerGroup,
    nonces: Seq<NoncesView>,
    packages: Seq<KeyPackageView>,
    key: int,
    c: Seq<int>,
)
    requires
        is_package::<C::Group>(p),
        are_honest::<C::Group>(p, group, nonces, packages, key),
        shares_lie_on::<C::Group>(packages, c),
        c.len() <= p.commitments(group).len(),
    ensures
        congruent(
            secret_of::<C>(p, group, packages, p.commitments(group).len() as int),
            polynomial(c, 0),
            order::<C::Group>(),
        ),
{
    let own = p.commitments(group);
    let xs = keys(own);
    let n = own.len() as int;
    assert(are_points::<<C::Group as Group>::Field>(xs)) by {
        assert forall|i: int| 0 <= i < xs.len() implies 0 <= #[trigger] xs[i] < order::<
            C::Group,
        >() by {
            assert(xs[i] == own[i].0);
        }
        assert forall|i: int, j: int| 0 <= i < j < xs.len() implies #[trigger] xs[i]
            != #[trigger] xs[j] by {
            assert(own[i].0 < own[j].0);
        }
    }
    assert forall|i: int| 0 <= i < xs.len() implies #[trigger] xs[i] != 0 by {
        assert(xs[i] == own[i].0);
    }
    law_interpolation::<<C::Group as Group>::Field>(c, xs);
    lemma_secret_is_sum::<C>(p, group, nonces, packages, key, c, n);
    assert(xs.take(n) =~= xs);
}

proof fn lemma_secret_is_sum<C: Ciphersuite>(
    p: PackageView,
    group: SignerGroup,
    nonces: Seq<NoncesView>,
    packages: Seq<KeyPackageView>,
    key: int,
    c: Seq<int>,
    n: int,
)
    requires
        are_honest::<C::Group>(p, group, nonces, packages, key),
        shares_lie_on::<C::Group>(packages, c),
        0 <= n <= p.commitments(group).len(),
    ensures
        ({
            let xs = keys(p.commitments(group));
            congruent(
                secret_of::<C>(p, group, packages, n),
                sum_over(
                    |x: int|
                        lagrange::<<C::Group as Group>::Field>(xs, x) * polynomial(c, x),
                    xs.take(n),
                ),
                order::<C::Group>(),
            )
        }),
    decreases n,
{
    let xs = keys(p.commitments(group));
    let m = order::<C::Group>();
    let h = |x: int| lagrange::<<C::Group as Group>::Field>(xs, x) * polynomial(c, x);
    <C::Group as Group>::Field::lemma_order();
    if n > 0 {
        lemma_secret_is_sum::<C>(p, group, nonces, packages, key, c, n - 1);
        assert(xs.take(n).drop_last() =~= xs.take(n - 1));
        let x = p.commitments(group)[n - 1].0;
        assert(xs.take(n).last() == x);
        assert(packages[n - 1].identifier == x);
        let l = lambda::<C>(p, group, x);
        lemma_congruent_mul(l, l, packages[n - 1].signing_share, polynomial(c, x), m);
        lemma_congruent_add(
            secret_of::<C>(p, group, packages, n - 1),
            sum_over(h, xs.take(n - 1)),
            l * packages[n - 1].signing_share,
            l * polynomial(c, x),
            m,
        );
    }
}

/// Two groups, each with its own secret shared by a polynomial, sign together
/// under the key to the sum of the secrets: as many signers of each group as its
/// polynomial has coefficients, or more, produce a signature that verifies.
pub proof fn law_threshold_run_verifies<C: Ciphersuite>(
    p: PackageView,
    primary_nonces: Seq<NoncesView>,
    primary_keys: Seq<KeyPackageView>,
    primary_polynomial: Seq<int>,
    secondary_nonces: Seq<NoncesView>,
    secondary_keys: Seq<KeyPackageView>,
    secondary_polynomial: Seq<int>,
    pubkeys: PublicKeyPackageView,
    key_sign: spec_fn(int) -> int,
    nonce_sign: spec_fn(int) -> int,
)
    requires
        is_package::<C::Group>(p),
        hooks_normalize::<C>(key_sign, nonce_sign),
        are_honest::<C::Group>(
            p,
            SignerGroup::Primary,
            primary_nonces,
            primary_keys,
            pubkeys.verifying_key,
        ),
        are_honest::<C::Group>(
            p,
            SignerGroup::Secondary,
            secondary_nonces,
            secondary_keys,
            pubkeys.verifying_key,
        ),
        shares_lie_on::<C::Group>(primary_keys, primary_polynomial),
        shares_lie_on::<C::Group>(secondary_keys, secondary_polynomial),
        primary_polynomial.len() <= p.primary.len(),
        secondary_polynomial.len() <= p.secondary.len(),
        pubkeys.verifying_key == (polynomial(primary_polynomial, 0) + polynomial(
            secondary_polynomial,
            0,
        )) % order::<C::Group>(),
        are_pubkeys::<C::Group>(p, primary_keys, pubkeys.verifying_key, pubkeys),
        can_run::<C>(p, normal_key::<C::Group>(key_sign, pubkeys.verifying_key)),
    ensures
        ({
            let result = aggregate_outcome::<C>(
                p,
                shares_of::<C>(p, SignerGroup::Primary, primary_nonces, primary_keys),
                shares_of::<C>(p, SignerGroup::Secondary, secondary_nonces, secondary_keys),
                pubkeys,
            );
            result is Ok && C::signature_verdict(
                p.message,
                result->Ok_0,
                pubkeys.verifying_key,
            ) is Ok
        }),
{
    let m = order::<C::Group>();
    let key = pubkeys.verifying_key;
    let (a, b) = (polynomial(primary_polynomial, 0), polynomial(secondary_polynomial, 0));
    <C::Group as Group>::Field::lemma_order();
    law_threshold_reconstructs::<C>(
        p,
        SignerGroup::Primary,
        primary_nonces,
        primary_keys,
        key,
        primary_polynomial,
    );
    law_threshold_reconstructs::<C>(
        p,
        SignerGroup::Secondary,
        secondary_nonces,
        secondary_keys,
        key,
        secondary_polynomial,
    );
    lemma_congruent_add(
        secret_of::<C>(p, SignerGroup::Primary, primary_keys, p.primary.len() as int),
        a,
        secret_of::<C>(p, SignerGroup::Secondary, secondary_keys, p.secondary.len() as int),
        b,
        m,
    );
    lemma_residue(a + b, m);
    law_run_verifies::<C>(
        p,
        primary_nonces,
        primary_keys,
        secondary_nonces,
        secondary_keys,
        key,
        pubkeys,
        key_sign,
        nonce_sign,
    );
}

} // verus!
