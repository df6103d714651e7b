//! What two-group signing computes, over values and exponents.
use vstd::prelude::*;

use crate::ciphersuite::{Ciphersuite, SigningPackageView};
use crate::error::ErrorView;
use crate::group::{order, Field, Group};
use crate::keys::{KeyPackageView, PublicKeyPackageView};
use crate::lagrange::lagrange;
use crate::map::{has_key, is_map, keys, lookup};
use crate::round1::{commitment_share, in_group, CommitmentsView, NoncesView};
use crate::signature::{element_encoding, SignatureView};
use crate::two_group::SignerGroup;

verus! {

/// One signer of a signing run.
pub struct Signer {
    pub group: SignerGroup,
    pub identifier: int,
    pub commitments: CommitmentsView,
}

/// The contents of a [`crate::two_group::TwoGroupSigningPackage`].
pub struct PackageView {
    pub primary: Seq<(int, CommitmentsView)>,
    pub secondary: Seq<(int, CommitmentsView)>,
    pub message: Seq<u8>,
}

/// The signers of one group, in the order of their identifiers.
pub open spec fn members(group: SignerGroup, entries: Seq<(int, CommitmentsView)>) -> Seq<Signer> {
    entries.map_values(
        |e: (int, CommitmentsView)| Signer { group, identifier: e.0, commitments: e.1 },
    )
}

impl PackageView {
    /// The commitments of one group.
    pub open spec fn commitments(self, group: SignerGroup) -> Seq<(int, CommitmentsView)> {
        match group {
            SignerGroup::Primary => self.primary,
            SignerGroup::Secondary => self.secondary,
        }
    }

    /// The signers of both groups, in the order of their tags and identifiers.
    pub open spec fn signers(self) -> Seq<Signer> {
        members(SignerGroup::Primary, self.primary) + members(
            SignerGroup::Secondary,
            self.secondary,
        )
    }

    /// The commitments of one group, with the message.
    pub open spec fn of_group(self, group: SignerGroup) -> SigningPackageView {
        SigningPackageView { signing_commitments: self.commitments(group), message: self.message }
    }

    /// Whether some signer has committed to the identity.
    pub open spec fn has_identity(self) -> bool {
        exists|i: int| 0 <= i < self.signers().len() && commits_to_identity(#[trigger] self.signers()[i])
    }
}

/// Whether a signer has committed to the identity.
pub open spec fn commits_to_identity(s: Signer) -> bool {
    s.commitments.binding == 0 || s.commitments.hiding == 0
}

/// Whether the commitments of one group are of elements of `G`.
pub open spec fn are_in_group<G: Group>(entries: Seq<(int, CommitmentsView)>) -> bool {
    forall|i: int| 0 <= i < entries.len() ==> in_group::<G>((#[trigger] entries[i]).1)
}

/// Whether these are the contents of a package: both groups take part, with
/// commitments of elements of `G`.
pub open spec fn is_package<G: Group>(p: PackageView) -> bool {
    &&& is_map::<G, CommitmentsView>(p.primary)
    &&& is_map::<G, CommitmentsView>(p.secondary)
    &&& are_in_group::<G>(p.primary)
    &&& are_in_group::<G>(p.secondary)
    &&& p.primary.len() > 0
    &&& p.secondary.len() > 0
}

/// The entry of one signer in the list of commitments:
/// `tag || identifier || hiding || binding`.
pub open spec fn entry_encoding<G: Group>(s: Signer) -> Result<Seq<u8>, ErrorView> {
    match element_encoding::<G>(s.commitments.hiding) {
        Err(e) => Err(e),
        Ok(hiding) => match element_encoding::<G>(s.commitments.binding) {
            Err(e) => Err(e),
            Ok(binding) => Ok(
                seq![s.group.tag_byte()] + G::Field::encoding(s.identifier) + hiding + binding,
            ),
        },
    }
}

/// The entries of the signers one after the other, or the error of the first
/// that has none.
pub open spec fn commitment_list<G: Group>(signers: Seq<Signer>) -> Result<Seq<u8>, ErrorView>
    decreases signers.len(),
{
    if signers.len() == 0 {
        Ok(Seq::empty())
    } else {
        match commitment_list::<G>(signers.drop_last()) {
            Err(e) => Err(e),
            Ok(bytes) => match entry_encoding::<G>(signers.last()) {
                Err(e) => Err(e),
                Ok(entry) => Ok(bytes + entry),
            },
        }
    }
}

/// What the preimages of all signers have in common:
/// `vk || H4(msg) || H5(commitment_list)`.
pub open spec fn common_suffix<C: Ciphersuite>(p: PackageView, key: int) -> Result<
    Seq<u8>,
    ErrorView,
> {
    match element_encoding::<C::Group>(key) {
        Err(e) => Err(e),
        Ok(vk) => match commitment_list::<C::Group>(p.signers()) {
            Err(e) => Err(e),
            Ok(list) => Ok(vk + C::h4(p.message) + C::h5(list)),
        },
    }
}

/// The preimage of a signer's binding factor:
/// `tag || vk || H4(msg) || H5(commitment_list) || identifier`.
pub open spec fn preimage<G: Group>(suffix: Seq<u8>, group: SignerGroup, id: int) -> Seq<u8> {
    seq![group.tag_byte()] + suffix + G::Field::encoding(id)
}

/// The preimages of the binding factors of all signers, in the order of their
/// tags and identifiers.
pub open spec fn preimages<C: Ciphersuite>(p: PackageView, key: int) -> Result<
    Seq<((SignerGroup, int), Seq<u8>)>,
    ErrorView,
> {
    match common_suffix::<C>(p, key) {
        Err(e) => Err(e),
        Ok(suffix) => Ok(
            p.signers().map_values(
                |s: Signer|
                    (
                        (s.group, s.identifier),
                        preimage::<C::Group>(suffix, s.group, s.identifier),
                    ),
            ),
        ),
    }
}

/// The binding factor of a signer.
pub open spec fn factor_of<C: Ciphersuite>(
    suffix: Seq<u8>,
    group: SignerGroup,
    id: int,
) -> int {
    C::h1(preimage::<C::Group>(suffix, group, id))
}

/// The binding factors of all signers, in the order of their tags and
/// identifiers.
pub open spec fn factors_of<C: Ciphersuite>(suffix: Seq<u8>, signers: Seq<Signer>) -> Seq<
    ((SignerGroup, int), int),
> {
    signers.map_values(
        |s: Signer|
            ((s.group, s.identifier), factor_of::<C>(suffix, s.group, s.identifier)),
    )
}

/// Why a signer's commitments cannot enter the group commitment, if they
/// cannot.
pub open spec fn defect(s: Signer, factors: Seq<((SignerGroup, int), int)>) -> Option<ErrorView> {
    if commits_to_identity(s) {
        Some(ErrorView::IdentityCommitment)
    } else if !has_key(factors, (s.group, s.identifier)) {
        Some(ErrorView::UnknownIdentifier)
    } else {
        None
    }
}

/// The defect of the first signer that has one.
pub open spec fn first_defect(
    signers: Seq<Signer>,
    factors: Seq<((SignerGroup, int), int)>,
) -> Option<ErrorView>
    decreases signers.len(),
{
    if signers.len() == 0 {
        None
    } else {
        match first_defect(signers.drop_last(), factors) {
            Some(e) => Some(e),
            None => defect(signers.last(), factors),
        }
    }
}

/// The sum of the signers' commitments, the binding ones weighted by the
/// binding factors.
pub open spec fn commitment_sum(
    signers: Seq<Signer>,
    factors: Seq<((SignerGroup, int), int)>,
) -> int
    decreases signers.len(),
{
    if signers.len() == 0 {
        0
    } else {
        let s = signers.last();
        commitment_sum(signers.drop_last(), factors) + s.commitments.hiding + lookup(
            factors,
            (s.group, s.identifier),
        )->0 * s.commitments.binding
    }
}

/// The group commitment over the signers, given their binding factors.
pub open spec fn group_commitment_outcome<G: Group>(
    signers: Seq<Signer>,
    factors: Seq<((SignerGroup, int), int)>,
) -> Result<int, ErrorView> {
    match first_defect(signers, factors) {
        Some(e) => Err(e),
        None => Ok(commitment_sum(signers, factors) % order::<G>()),
    }
}

/// The group commitment `R` of a signing run over both groups.
pub open spec fn commitment_of<C: Ciphersuite>(p: PackageView, suffix: Seq<u8>) -> int {
    commitment_sum(p.signers(), factors_of::<C>(suffix, p.signers())) % order::<C::Group>()
}

/// The Lagrange coefficient of a signer within its own group.
pub open spec fn lambda<C: Ciphersuite>(p: PackageView, group: SignerGroup, id: int) -> int {
    lagrange::<<C::Group as Group>::Field>(keys(p.commitments(group)), id)
}

/// What signing with pre-processed nonces and key material comes to.
pub open spec fn prepared_sign_outcome<C: Ciphersuite>(
    p: PackageView,
    nonces: NoncesView,
    key: KeyPackageView,
    group: SignerGroup,
) -> Result<int, ErrorView> {
    match common_suffix::<C>(p, key.verifying_key) {
        Err(e) => Err(e),
        Ok(suffix) => if !has_key(p.commitments(group), key.identifier) {
            Err(ErrorView::UnknownIdentifier)
        } else if p.has_identity() {
            Err(ErrorView::IdentityCommitment)
        } else {
            let r = commitment_of::<C>(p, suffix);
            match C::challenge_outcome(r, key.verifying_key, p.message) {
                Err(e) => Err(e),
                Ok(c) => Ok(
                    C::signature_share(
                        r,
                        nonces,
                        factor_of::<C>(suffix, group, key.identifier),
                        lambda::<C>(p, group, key.identifier),
                        key,
                        c,
                    ),
                ),
            }
        },
    }
}

/// What signing comes to.
pub open spec fn sign_outcome<C: Ciphersuite>(
    p: PackageView,
    nonces: NoncesView,
    key: KeyPackageView,
    group: SignerGroup,
) -> Result<int, ErrorView> {
    let own = p.commitments(group);
    if own.len() < key.min_signers {
        Err(ErrorView::IncorrectNumberOfCommitments)
    } else if !has_key(own, key.identifier) {
        Err(ErrorView::MissingCommitment)
    } else if lookup(own, key.identifier) != Some(nonces.commitments) {
        Err(ErrorView::IncorrectCommitment)
    } else {
        match C::pre_sign_outcome(p.of_group(group), nonces, key) {
            Err(e) => Err(e),
            Ok((nonces, key)) => prepared_sign_outcome::<C>(p, nonces, key, group),
        }
    }
}

/// The sum of signature shares.
pub open spec fn share_sum(shares: Seq<(int, int)>) -> int
    decreases shares.len(),
{
    if shares.len() == 0 {
        0
    } else {
        share_sum(shares.drop_last()) + shares.last().1
    }
}

/// The signature that the shares of both groups add up to.
pub open spec fn aggregate_signature<C: Ciphersuite>(
    p: PackageView,
    suffix: Seq<u8>,
    primary_shares: Seq<(int, int)>,
    secondary_shares: Seq<(int, int)>,
) -> SignatureView {
    SignatureView {
        R: commitment_of::<C>(p, suffix),
        z: (share_sum(primary_shares) + share_sum(secondary_shares)) % order::<C::Group>(),
    }
}

/// Whether the share of the primary signer `id` fails to verify.
pub open spec fn is_culprit<C: Ciphersuite>(
    p: PackageView,
    suffix: Seq<u8>,
    pubkeys: PublicKeyPackageView,
    c: int,
    id: int,
    share: int,
) -> bool {
    C::share_verdict(
        commitment_of::<C>(p, suffix),
        share,
        id,
        commitment_share::<C::Group>(
            lookup(p.primary, id)->0,
            factor_of::<C>(suffix, SignerGroup::Primary, id),
        ),
        lookup(pubkeys.verifying_shares, id)->0,
        lambda::<C>(p, SignerGroup::Primary, id),
        c,
    ) is Err
}

/// The primary signers whose shares fail to verify, in the order of the
/// shares.
pub open spec fn culprits_of<C: Ciphersuite>(
    p: PackageView,
    suffix: Seq<u8>,
    shares: Seq<(int, int)>,
    pubkeys: PublicKeyPackageView,
    c: int,
) -> Seq<int>
    decreases shares.len(),
{
    if shares.len() == 0 {
        Seq::empty()
    } else {
        let before = culprits_of::<C>(p, suffix, shares.drop_last(), pubkeys, c);
        if is_culprit::<C>(p, suffix, pubkeys, c, shares.last().0, shares.last().1) {
            before.push(shares.last().0)
        } else {
            before
        }
    }
}

/// Whether everything is known that verifying the primary shares takes.
pub open spec fn all_known(
    p: PackageView,
    shares: Seq<(int, int)>,
    pubkeys: PublicKeyPackageView,
) -> bool {
    forall|i: int|
        0 <= i < shares.len() ==> has_key(p.primary, (#[trigger] shares[i]).0) && has_key(
            pubkeys.verifying_shares,
            shares[i].0,
        )
}

/// The error with which aggregation fails where the signature does not verify.
pub open spec fn blame<C: Ciphersuite>(
    p: PackageView,
    suffix: Seq<u8>,
    shares: Seq<(int, int)>,
    pubkeys: PublicKeyPackageView,
    c: int,
) -> ErrorView {
    if !all_known(p, shares, pubkeys) {
        ErrorView::UnknownIdentifier
    } else {
        let culprits = culprits_of::<C>(p, suffix, shares, pubkeys, c);
        if culprits.len() == 0 {
            ErrorView::InvalidSignature
        } else {
            ErrorView::InvalidSignatureShare { culprits }
        }
    }
}

/// What aggregating pre-processed primary shares and public key material comes
/// to.
pub open spec fn prepared_aggregate_outcome<C: Ciphersuite>(
    p: PackageView,
    primary_shares: Seq<(int, int)>,
    secondary_shares: Seq<(int, int)>,
    pubkeys: PublicKeyPackageView,
) -> Result<SignatureView, ErrorView> {
    match common_suffix::<C>(p, pubkeys.verifying_key) {
        Err(e) => Err(e),
        Ok(suffix) => if p.has_identity() {
            Err(ErrorView::IdentityCommitment)
        } else {
            let signature = aggregate_signature::<C>(p, suffix, primary_shares, secondary_shares);
            if C::signature_verdict(p.message, signature, pubkeys.verifying_key) is Ok {
                Ok(signature)
            } else {
                match C::challenge_outcome(signature.R, pubkeys.verifying_key, p.message) {
                    Err(e) => Err(e),
                    Ok(c) => Err(blame::<C>(p, suffix, primary_shares, pubkeys, c)),
                }
            }
        },
    }
}

/// Whether every primary signer has a verifying share.
pub open spec fn all_verifiable(p: PackageView, pubkeys: PublicKeyPackageView) -> bool {
    forall|i: int|
        0 <= i < p.primary.len() ==> has_key(
            pubkeys.verifying_shares,
            (#[trigger] p.primary[i]).0,
        )
}

/// What aggregation comes to.
pub open spec fn aggregate_outcome<C: Ciphersuite>(
    p: PackageView,
    primary_shares: Seq<(int, int)>,
    secondary_shares: Seq<(int, int)>,
    pubkeys: PublicKeyPackageView,
) -> Result<SignatureView, ErrorView> {
    if keys(primary_shares) != keys(p.primary) || keys(secondary_shares) != keys(p.secondary) {
        Err(ErrorView::UnknownIdentifier)
    } else if !all_verifiable(p, pubkeys) {
        Err(ErrorView::UnknownIdentifier)
    } else if pubkeys.min_signers is Some && primary_shares.len() < pubkeys.min_signers->0 {
        Err(ErrorView::IncorrectNumberOfShares)
    } else {
        match C::pre_aggregate_outcome(
            p.of_group(SignerGroup::Primary),
            primary_shares,
            pubkeys,
        ) {
            Err(e) => Err(e),
            Ok((primary_shares, pubkeys)) => prepared_aggregate_outcome::<C>(
                p,
                primary_shares,
                secondary_shares,
                pubkeys,
            ),
        }
    }
}

} // verus!
