//! What is seen of the data of the scheme: all of it, and nothing else.
use vstd::prelude::*;
use vstd::std_specs::cmp::PartialEqIs;

use crate::ciphersuite::{Ciphersuite, SigningPackage};
use crate::error::{outcome, Error, ErrorView, FieldError, GroupError};
use crate::group::{Element, Field, Group, Scalar};
use crate::identifier::{values, Identifier};
use crate::keys::{KeyPackage, PublicKeyPackage, VerifyingShare};
use crate::map::{distinct, has_key, keys, lemma_lookup, lookup, to_map};
use crate::round1::{
    nonces_of, BindingFactor, GroupCommitment, GroupCommitmentShare, SigningCommitments,
    SigningNonces,
};
use crate::round2::SignatureShare;
use crate::scalar_mul::{dot, exponents, scalar_values};
use crate::signature::{Challenge, Signature, VerifyingKey};
use crate::two_group::{preimage_views, SignerGroup, TwoGroupSigningPackage};

verus! {

/// An outcome tells success from failure, with what was returned.
pub proof fn law_outcome_keeps_result<T: View, G: Group>(r: Result<T, Error<G>>)
    ensures
        r matches Ok(t) ==> outcome(r) == Ok::<T::V, ErrorView>(t@),
        r matches Err(e) ==> outcome(r) == Err::<T::V, ErrorView>(e@),
{
}

/// Every error is seen as what it is, with all the signers that it names.
pub proof fn law_errors_are_told_apart<G: Group>(e: Error<G>)
    ensures
        e is DuplicatedIdentifier <==> e@ is DuplicatedIdentifier,
        e is UnknownIdentifier <==> e@ is UnknownIdentifier,
        e is IncorrectNumberOfIdentifiers <==> e@ is IncorrectNumberOfIdentifiers,
        e is InvalidSignature <==> e@ is InvalidSignature,
        e is IncorrectNumberOfShares <==> e@ is IncorrectNumberOfShares,
        e is IdentityCommitment <==> e@ is IdentityCommitment,
        e is MissingCommitment <==> e@ is MissingCommitment,
        e is IncorrectCommitment <==> e@ is IncorrectCommitment,
        e is IncorrectNumberOfCommitments <==> e@ is IncorrectNumberOfCommitments,
        e is InvalidSignatureShare <==> e@ is InvalidSignatureShare,
        e matches Error::InvalidSignatureShare { culprits } ==> {
            let seen = e@->culprits;
            seen.len() == culprits.len() && forall|i: int|
                0 <= i < culprits.len() ==> #[trigger] seen[i] == culprits@[i]@
        },
        forall|x: FieldError|
            e == Error::<G>::FieldError(x) <==> e@ == ErrorView::FieldError(x),
        forall|x: GroupError|
            e == Error::<G>::GroupError(x) <==> e@ == ErrorView::GroupError(x),
{
}

/// Scalars are seen by their values and elements by their exponents, each in its
/// place.
pub proof fn law_data_is_seen_whole<G: Group>(
    commitments: SigningCommitments<G>,
    nonces: SigningNonces<G>,
    key: KeyPackage<G>,
    pubkeys: PublicKeyPackage<G>,
    package: SigningPackage<G>,
    signature: Signature<G>,
)
    ensures
        commitments@.hiding == G::exponent(commitments.hiding),
        commitments@.binding == G::exponent(commitments.binding),
        nonces@.hiding == G::Field::value(nonces.hiding),
        nonces@.binding == G::Field::value(nonces.binding),
        nonces@.commitments == nonces.commitments@,
        key@.identifier == key.identifier@,
        key@.signing_share == G::Field::value(key.signing_share),
        key@.verifying_share == G::exponent(key.verifying_share.0),
        key@.verifying_key == G::exponent(key.verifying_key.0),
        key@.min_signers == key.min_signers,
        pubkeys@.verifying_shares == pubkeys.verifying_shares@,
        pubkeys@.verifying_key == G::exponent(pubkeys.verifying_key.0),
        pubkeys@.min_signers == pubkeys.min_signers,
        package@.signing_commitments == package.signing_commitments@,
        package@.message == package.message@,
        signature@.R == G::exponent(signature.R),
        signature@.z == G::Field::value(signature.z),
{
}

/// What wraps one scalar or one element is seen as that.
pub proof fn law_wrappers_are_seen_through<G: Group>(
    factor: BindingFactor<G>,
    share: SignatureShare<G>,
    challenge: Challenge<G>,
    verifying_share: VerifyingShare<G>,
    verifying_key: VerifyingKey<G>,
    commitment: GroupCommitment<G>,
    commitment_share: GroupCommitmentShare<G>,
)
    ensures
        factor@ == G::Field::value(factor.0),
        share@ == G::Field::value(share.0),
        challenge@ == G::Field::value(challenge.0),
        verifying_share@ == G::exponent(verifying_share.0),
        verifying_key@ == G::exponent(verifying_key.0),
        commitment@ == G::exponent(commitment.0),
        commitment_share@ == G::exponent(commitment_share.0),
{
}

/// Nonces are committed to by the elements that have them as exponents.
pub proof fn law_commitments_match_nonces(hiding: int, binding: int)
    ensures
        nonces_of(hiding, binding).hiding == hiding,
        nonces_of(hiding, binding).binding == binding,
        nonces_of(hiding, binding).commitments.hiding == hiding,
        nonces_of(hiding, binding).commitments.binding == binding,
{
}

/// Lists are seen entry by entry.
pub proof fn law_lists_are_seen_whole<G: Group>(
    ids: Seq<Identifier<G>>,
    found: Seq<((SignerGroup, Identifier<G>), Vec<u8>)>,
    scalars: Seq<Scalar<G>>,
    elements: Seq<Element<G>>,
)
    ensures
        values(ids).len() == ids.len(),
        forall|i: int| 0 <= i < ids.len() ==> #[trigger] values(ids)[i] == ids[i]@,
        preimage_views(found).len() == found.len(),
        forall|i: int|
            0 <= i < found.len() ==> #[trigger] preimage_views(found)[i] == (
                (found[i].0.0, found[i].0.1@),
                found[i].1@,
            ),
        scalar_values::<G>(scalars).len() == scalars.len(),
        forall|i: int|
            0 <= i < scalars.len() ==> #[trigger] scalar_values::<G>(scalars)[i]
                == G::Field::value(scalars[i]),
        exponents::<G>(elements).len() == elements.len(),
        forall|i: int|
            0 <= i < elements.len() ==> #[trigger] exponents::<G>(elements)[i] == G::exponent(
                elements[i],
            ),
{
}

/// A sum of products takes in every pair.
pub proof fn law_products_add_up(a: Seq<int>, b: Seq<int>, x: int, y: int)
    ensures
        dot(Seq::empty(), Seq::empty()) == 0,
        dot(a.push(x), b.push(y)) == dot(a, b) + x * y,
{
    assert(a.push(x).drop_last() =~= a);
    assert(b.push(y).drop_last() =~= b);
}

/// Looking up finds exactly the entries, and the keys are those of the entries.
pub proof fn law_lookup_finds_entries<K, T>(entries: Seq<(K, T)>, k: K, t: T)
    requires
        distinct(entries),
    ensures
        lookup(entries, k) == Some(t) <==> entries.contains((k, t)),
        has_key(entries, k) <==> keys(entries).contains(k),
        lookup(entries, k) is None <==> !keys(entries).contains(k),
        keys(entries).len() == entries.len(),
        forall|i: int| 0 <= i < entries.len() ==> #[trigger] keys(entries)[i] == entries[i].0,
        to_map(entries).dom().contains(k) <==> keys(entries).contains(k),
        entries.contains((k, t)) ==> to_map(entries)[k] == t,
{
    if entries.contains((k, t)) {
        let i = choose|i: int| 0 <= i < entries.len() && entries[i] == (k, t);
        lemma_lookup(entries, i);
        assert(keys(entries)[i] == k);
    }
    if has_key(entries, k) {
        let i = choose|i: int| 0 <= i < entries.len() && #[trigger] entries[i].0 == k;
        lemma_lookup(entries, i);
        assert(keys(entries)[i] == k);
        assert(entries[i] == (k, lookup(entries, k)->0));
    }
    if keys(entries).contains(k) {
        let i = choose|i: int| 0 <= i < keys(entries).len() && keys(entries)[i] == k;
        assert(entries[i].0 == k);
    }
}

/// Identifiers, commitments and packages are equal exactly if all that is seen of
/// them is.
pub proof fn law_equality_takes_in_all<C: Ciphersuite>(
    id: Identifier<C::Group>,
    other_id: Identifier<C::Group>,
    commitments: SigningCommitments<C::Group>,
    other_commitments: SigningCommitments<C::Group>,
    package: TwoGroupSigningPackage<C>,
    other_package: TwoGroupSigningPackage<C>,
)
    ensures
        id.is_eq(&other_id) <==> id@ == other_id@,
        commitments.is_eq(&other_commitments) <==> commitments@.hiding == other_commitments@.hiding
            && commitments@.binding == other_commitments@.binding,
        package.is_eq(&other_package) <==> package@.primary == other_package@.primary
            && package@.secondary == other_package@.secondary && package@.message
            == other_package@.message,
{
}

} // verus!
