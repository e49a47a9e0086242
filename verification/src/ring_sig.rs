//! A one-signer "ring" signature over ECDSA P-256 with SHA-256 (`ring`
//! crate): the signer signs, and the signature is accepted when any public
//! key of the ring verifies it.
use vstd::prelude::*;
use ring::signature::{
    EcdsaKeyPair, KeyPair, UnparsedPublicKey, ECDSA_P256_SHA256_ASN1, ECDSA_P256_SHA256_ASN1_SIGNING,
};
use ring::rand::SystemRandom;

verus! {

#[verifier::external_type_specification]
#[verifier::external_body]
pub struct ExEcdsaKeyPair(ring::signature::EcdsaKeyPair);

#[verifier::external_type_specification]
#[verifier::external_body]
pub struct ExSystemRandom(ring::rand::SystemRandom);

/// The ring's public keys and one signature.
pub struct RingSignature {
    pub pubkeys: Vec<Vec<u8>>,
    pub signature: Vec<u8>,
}

/// Whether `signature` is a valid ASN.1 ECDSA P-256/SHA-256 signature of
/// `message` under the SEC1-encoded `public_key`, as `ring` decides it.
pub uninterp spec fn p256_sha256_verifies(public_key: Seq<u8>, message: Seq<u8>, signature: Seq<u8>) -> bool;

/// Whether `signature` is a valid signature of `message` under the public
/// key of `keypair`, checked with the verification algorithm that matches
/// the algorithm the key pair was made for.
pub uninterp spec fn keypair_verifies(keypair: EcdsaKeyPair, message: Seq<u8>, signature: Seq<u8>) -> bool;

/// The public key of `keypair`, as `KeyPair::public_key` gives its bytes.
pub uninterp spec fn keypair_public_key(keypair: EcdsaKeyPair) -> Seq<u8>;

/// Whether `keypair` was made for ECDSA P-256 with SHA-256 and ASN.1
/// signatures.
pub uninterp spec fn keypair_is_p256_sha256_asn1(keypair: EcdsaKeyPair) -> bool;

/// Calls `EcdsaKeyPair::sign` and copies the signature out. Trusted: a
/// signature it returns is a valid signature of `message` under the key
/// pair (`sign` "returns the signature of the message"), so for a P-256
/// SHA-256 ASN.1 key pair it verifies under that algorithm and the key
/// pair's public key. The nonce is random, so the bytes and whether signing
/// fails are not stated.
#[verifier::external_body]
fn ecdsa_sign(keypair: &EcdsaKeyPair, rng: &SystemRandom, message: &[u8]) -> (sig: Option<Vec<u8>>)
    ensures
        sig matches Some(s) ==> keypair_verifies(*keypair, message@, s@),
        sig matches Some(s) ==> keypair_is_p256_sha256_asn1(*keypair) ==> p256_sha256_verifies(
            keypair_public_key(*keypair),
            message@,
            s@,
        ),
{
    match keypair.sign(rng, message) {
        Ok(s) => Some(s.as_ref().to_vec()),
        Err(_) => None,
    }
}

/// Calls `EcdsaKeyPair::generate_pkcs8(&ECDSA_P256_SHA256_ASN1_SIGNING, ..)`
/// and copies the document out. Trusted for its type only: the key is
/// random, and so is whether the generator fails.
#[verifier::external_body]
fn ecdsa_generate_pkcs8(rng: &SystemRandom) -> (doc: Option<Vec<u8>>) {
    match EcdsaKeyPair::generate_pkcs8(&ECDSA_P256_SHA256_ASN1_SIGNING, rng) {
        Ok(d) => Some(d.as_ref().to_vec()),
        Err(_) => None,
    }
}

/// Calls `EcdsaKeyPair::from_pkcs8(&ECDSA_P256_SHA256_ASN1_SIGNING, ..)`.
/// Trusted: a key pair it returns is made for that algorithm. Which
/// documents it rejects is not stated.
#[verifier::external_body]
fn ecdsa_p256_from_pkcs8(pkcs8: &[u8], rng: &SystemRandom) -> (kp: Option<EcdsaKeyPair>)
    ensures
        kp matches Some(k) ==> keypair_is_p256_sha256_asn1(k),
{
    EcdsaKeyPair::from_pkcs8(&ECDSA_P256_SHA256_ASN1_SIGNING, pkcs8, rng).ok()
}

/// Calls `KeyPair::public_key` and copies the bytes out. Trusted: they are
/// the key pair's public key.
#[verifier::external_body]
fn ecdsa_public_key(keypair: &EcdsaKeyPair) -> (pk: Vec<u8>)
    ensures
        pk@ == keypair_public_key(*keypair),
{
    keypair.public_key().as_ref().to_vec()
}

/// A fresh ECDSA P-256 SHA-256 key pair: a PKCS#8 document is generated and
/// parsed back; `None` when either step fails.
pub fn generate_keypair(rng: &SystemRandom) -> (kp: Option<EcdsaKeyPair>)
    ensures
        kp matches Some(k) ==> keypair_is_p256_sha256_asn1(k),
{
    match ecdsa_generate_pkcs8(rng) {
        Some(doc) => ecdsa_p256_from_pkcs8(doc.as_slice(), rng),
        None => None,
    }
}

/// The ring that holds only the signer's own public key.
pub fn signer_ring(keypair: &EcdsaKeyPair) -> (ring: Vec<Vec<u8>>)
    ensures
        ring@.len() == 1,
        ring@[0]@ == keypair_public_key(*keypair),
{
    let mut ring: Vec<Vec<u8>> = Vec::new();
    ring.push(ecdsa_public_key(keypair));
    ring
}

/// Calls `UnparsedPublicKey::new(&ECDSA_P256_SHA256_ASN1, ..).verify(..)`.
/// Trusted: verification is a function of key, message and signature.
#[verifier::external_body]
fn ecdsa_verify(public_key: &[u8], message: &[u8], signature: &[u8]) -> (ok: bool)
    ensures
        ok == p256_sha256_verifies(public_key@, message@, signature@),
{
    UnparsedPublicKey::new(&ECDSA_P256_SHA256_ASN1, public_key).verify(message, signature).is_ok()
}

/// The public keys, each copied byte for byte.
fn copy_keys(pubkeys: &[Vec<u8>]) -> (out: Vec<Vec<u8>>)
    ensures
        out@.len() == pubkeys@.len(),
        forall|i: int| 0 <= i < pubkeys@.len() ==> (#[trigger] out@[i])@ == pubkeys@[i]@,
{
    let mut out: Vec<Vec<u8>> = Vec::new();
    let mut i: usize = 0;
    while i < pubkeys.len()
        invariant
            i <= pubkeys@.len(),
            out@.len() == i,
            forall|j: int| 0 <= j < i ==> (#[trigger] out@[j])@ == pubkeys@[j]@,
        decreases pubkeys@.len() - i,
    {
        let key = &pubkeys[i];
        let mut copy: Vec<u8> = Vec::new();
        let mut k: usize = 0;
        while k < key.len()
            invariant
                k <= key@.len(),
                copy@ == key@.take(k as int),
            decreases key@.len() - k,
        {
            copy.push(key[k]);
            k = k + 1;
            assert(copy@ =~= key@.take(k as int));
        }
        assert(key@.take(key@.len() as int) =~= key@);
        out.push(copy);
        i = i + 1;
    }
    out
}

/// Some key of the ring is `public_key`.
pub open spec fn holds_key(keys: Seq<Vec<u8>>, public_key: Seq<u8>) -> bool {
    exists|i: int| 0 <= i < keys.len() && keys[i]@ == public_key
}

/// Some key of the ring verifies `signature` of `message`.
pub open spec fn ring_accepts(keys: Seq<Vec<u8>>, message: Seq<u8>, signature: Seq<u8>) -> bool {
    exists|i: int| 0 <= i < keys.len() && #[trigger] p256_sha256_verifies(keys[i]@, message, signature)
}

/// Signs `message` with `keypair` and attaches the ring's public keys;
/// `None` when `ring` fails to sign. The signature is the one `ring` made,
/// so it verifies under the key pair; when the key pair is a P-256 one and
/// its public key is in the ring, the ring accepts the signature.
pub fn generate_ring_signature(
    keypair: &EcdsaKeyPair,
    pubkeys: &[Vec<u8>],
    message: &[u8],
    rng: &SystemRandom,
) -> (r: Option<RingSignature>)
    ensures
        r matches Some(rs) ==> rs.pubkeys@.len() == pubkeys@.len() && forall|i: int|
            0 <= i < pubkeys@.len() ==> (#[trigger] rs.pubkeys@[i])@ == pubkeys@[i]@,
        r matches Some(rs) ==> keypair_verifies(*keypair, message@, rs.signature@),
        r matches Some(rs) ==> keypair_is_p256_sha256_asn1(*keypair) ==> p256_sha256_verifies(
            keypair_public_key(*keypair),
            message@,
            rs.signature@,
        ),
        r matches Some(rs) ==> keypair_is_p256_sha256_asn1(*keypair) && holds_key(
            pubkeys@,
            keypair_public_key(*keypair),
        ) ==> ring_accepts(rs.pubkeys@, message@, rs.signature@),
{
    match ecdsa_sign(keypair, rng, message) {
        Some(signature) => {
            let rs = RingSignature { pubkeys: copy_keys(pubkeys), signature };
            proof {
                if keypair_is_p256_sha256_asn1(*keypair) && holds_key(pubkeys@, keypair_public_key(*keypair)) {
                    let i = choose|i: int| 0 <= i < pubkeys@.len() && pubkeys@[i]@ == keypair_public_key(*keypair);
                    assert(rs.pubkeys@[i]@ == pubkeys@[i]@);
                    assert(p256_sha256_verifies(rs.pubkeys@[i]@, message@, rs.signature@));
                }
            }
            Some(rs)
        },
        None => None,
    }
}

/// Whether some public key of the ring verifies the signature of `message`.
pub fn verify_ring_signature(ring_sig: &RingSignature, message: &[u8]) -> (ok: bool)
    ensures
        ok == ring_accepts(ring_sig.pubkeys@, message@, ring_sig.signature@),
{
    let mut i: usize = 0;
    while i < ring_sig.pubkeys.len()
        invariant
            i <= ring_sig.pubkeys@.len(),
            forall|j: int|
                0 <= j < i ==> !#[trigger] p256_sha256_verifies(
                    ring_sig.pubkeys@[j]@,
                    message@,
                    ring_sig.signature@,
                ),
        decreases ring_sig.pubkeys@.len() - i,
    {
        if ecdsa_verify(ring_sig.pubkeys[i].as_slice(), message, ring_sig.signature.as_slice()) {
            return true;
        }
        i = i + 1;
    }
    false
}

} // verus!
