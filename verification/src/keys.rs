//! Key material of signers and of groups of signers.
use vstd::prelude::*;

use crate::group::{is_residue, value, Element, Group, Scalar};
use crate::identifier::{is_identifier, Identifier};
use crate::map::{is_map, IdentifierMap};
use crate::signature::VerifyingKey;

verus! {

/// The public counterpart of a signer's signing share.
pub struct VerifyingShare<G: Group>(pub Element<G>);

impl<G: Group> View for VerifyingShare<G> {
    type V = int;

    open spec fn view(&self) -> int {
        G::exponent(self.0)
    }
}

impl<G: Group> Clone for VerifyingShare<G> {
    fn clone(&self) -> (r: Self)
        ensures
            r == *self,
    {
        *self
    }
}

impl<G: Group> Copy for VerifyingShare<G> {

}

/// The key material of one signer.
pub struct KeyPackage<G: Group> {
    /// The signer, within its group.
    pub identifier: Identifier<G>,
    /// The signer's share of the secret.
    pub signing_share: Scalar<G>,
    /// The public counterpart of the signing share.
    pub verifying_share: VerifyingShare<G>,
    /// The key that signatures are made under.
    pub verifying_key: VerifyingKey<G>,
    /// The least number of signers of the group that can sign.
    pub min_signers: u16,
}

/// The values of one signer's key material.
pub struct KeyPackageView {
    pub identifier: int,
    pub signing_share: int,
    pub verifying_share: int,
    pub verifying_key: int,
    pub min_signers: nat,
}

/// Whether these are the values of key material of the group.
pub open spec fn is_key_package<G: Group>(key: KeyPackageView) -> bool {
    &&& is_identifier::<G>(key.identifier)
    &&& is_residue::<G>(key.signing_share)
    &&& is_residue::<G>(key.verifying_share)
    &&& is_residue::<G>(key.verifying_key)
}

impl<G: Group> View for KeyPackage<G> {
    type V = KeyPackageView;

    open spec fn view(&self) -> KeyPackageView {
        KeyPackageView {
            identifier: self.identifier@,
            signing_share: value::<G>(self.signing_share),
            verifying_share: self.verifying_share@,
            verifying_key: self.verifying_key@,
            min_signers: self.min_signers as nat,
        }
    }
}

impl<G: Group> Clone for KeyPackage<G> {
    fn clone(&self) -> (r: Self)
        ensures
            r == *self,
    {
        *self
    }
}

impl<G: Group> Copy for KeyPackage<G> {

}

/// The public key material of a group of signers.
pub struct PublicKeyPackage<G: Group> {
    /// The verifying shares of the signers.
    pub verifying_shares: IdentifierMap<G, VerifyingShare<G>>,
    /// The key that signatures are made under.
    pub verifying_key: VerifyingKey<G>,
    /// The least number of signers of the group that can sign, where known.
    pub min_signers: Option<u16>,
}

/// The values of the public key material of a group of signers.
pub struct PublicKeyPackageView {
    pub verifying_shares: Seq<(int, int)>,
    pub verifying_key: int,
    pub min_signers: Option<u16>,
}

/// Whether the values that are held by signer are residues.
pub open spec fn hold_residues<G: Group>(entries: Seq<(int, int)>) -> bool {
    forall|i: int| 0 <= i < entries.len() ==> is_residue::<G>((#[trigger] entries[i]).1)
}

/// Whether these are the values of public key material of the group.
pub open spec fn is_public_key_package<G: Group>(pubkeys: PublicKeyPackageView) -> bool {
    &&& is_map::<G, int>(pubkeys.verifying_shares)
    &&& hold_residues::<G>(pubkeys.verifying_shares)
    &&& is_residue::<G>(pubkeys.verifying_key)
}

impl<G: Group> View for PublicKeyPackage<G> {
    type V = PublicKeyPackageView;

    open spec fn view(&self) -> PublicKeyPackageView {
        PublicKeyPackageView {
            verifying_shares: self.verifying_shares@,
            verifying_key: self.verifying_key@,
            min_signers: self.min_signers,
        }
    }
}

} // verus!
