//! Ed25519 signatures, as the `ring` crate makes and checks them.

use ring::signature::Ed25519KeyPair;
use vstd::prelude::*;

verus! {

/// `ring`'s Ed25519 key pair. The library hands it on to `sign_data` and
/// looks at nothing inside it.
#[verifier::external_type_specification]
#[verifier::external_body]
pub struct ExEd25519KeyPair(Ed25519KeyPair);

/// `signature` is a valid Ed25519 signature of `message` under the public key
/// `public_key`.
pub uninterp spec fn ed25519_valid(public_key: Seq<u8>, message: Seq<u8>, signature: Seq<u8>) -> bool;

/// Calls `ring::signature::UnparsedPublicKey::verify` with the `ED25519`
/// algorithm. Trusted: the answer is a function of the three byte strings
/// alone; a key or a signature of the wrong length is answered with `false`.
#[verifier::external_body]
pub(crate) fn ed25519_verify(public_key: &[u8], message: &[u8], signature: &[u8]) -> (ok: bool)
    ensures
        ok == ed25519_valid(public_key@, message@, signature@),
{
    ring::signature::UnparsedPublicKey::new(&ring::signature::ED25519, public_key).verify(
        message,
        signature,
    ).is_ok()
}

/// Signs `data` with `keypair`: calls `ring`'s `Ed25519KeyPair::sign` and
/// copies the signature's bytes. Trusted: an Ed25519 signature is 64 bytes
/// long. Which bytes they are depends on the private key, of which this
/// library sees nothing.
#[verifier::external_body]
pub fn sign_data(keypair: &Ed25519KeyPair, data: &[u8]) -> (signature: Vec<u8>)
    ensures
        signature@.len() == 64,
{
    keypair.sign(data).as_ref().to_vec()
}

} // verus!
