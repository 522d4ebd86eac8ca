//! The cryptographic primitives, each behind one call into the crate that
//! implements it. What a primitive computes is not restated here: each
//! result has a name, and the contracts of the decoder speak of the names.
//! The exclusive or of two blocks needs no such call and is proved here.

use vstd::prelude::*;
use aes::Aes128;
use blake3::Hasher;
use ed25519_dalek::{Digest, DigestVerifier, Sha512, Signature, VerifyingKey};
use ofb::cipher::{KeyIvInit, StreamCipher};
use ofb::Ofb;

verus! {

/// The 32-byte BLAKE3 digest of `input`.
pub uninterp spec fn blake3_hash(input: Seq<u8>) -> Seq<u8>;

/// The first 64 bytes of BLAKE3's extendable output for `input`.
pub uninterp spec fn blake3_xof64(input: Seq<u8>) -> Seq<u8>;

/// The first sixteen bytes of the AES-128-OFB key stream of `key` and `iv`.
pub uninterp spec fn aes128_ofb_stream(key: Seq<u8>, iv: Seq<u8>) -> Seq<u8>;

/// Whether `key` is the encoding of a point of the Ed25519 curve.
pub uninterp spec fn ed25519_key_decodes(key: Seq<u8>) -> bool;

/// Whether `signature` is an Ed25519ph signature by `key`, under `context`,
/// of the message whose SHA-512 prehash is that of `message`.
pub uninterp spec fn ed25519ph_accepts(
    key: Seq<u8>,
    context: Seq<u8>,
    message: Seq<u8>,
    signature: Seq<u8>,
) -> bool;

/// Byte-wise exclusive or of `a` with the bytes of `b` at the same places.
pub open spec fn spec_xor(a: Seq<u8>, b: Seq<u8>) -> Seq<u8>
    recommends
        a.len() == b.len(),
{
    Seq::new(a.len(), |i: int| a[i] ^ b[i])
}

/// `blake3::Hasher`: one `update` with `input`, then `finalize`. The result
/// is the digest of `input`, by name.
#[verifier::external_body]
pub(crate) fn hash_bytes(input: &[u8]) -> (digest: [u8; 32])
    ensures
        digest@ == blake3_hash(input@),
{
    let mut hasher = Hasher::new();
    hasher.update(input);
    *hasher.finalize().as_bytes()
}

/// `blake3::Hasher`: one `update` with `input`, then `finalize_xof` and an
/// `OutputReader::fill` of 64 bytes from the start of the output.
#[verifier::external_body]
pub(crate) fn expand_bytes(input: &[u8]) -> (output: [u8; 64])
    ensures
        output@ == blake3_xof64(input@),
{
    let mut output = [0u8; 64];
    let mut hasher = Hasher::new();
    hasher.update(input);
    hasher.finalize_xof().fill(&mut output);
    output
}

/// `ofb::Ofb<aes::Aes128>`: a cipher made from `key` and `iv`, and
/// `apply_keystream` on a copy of `block`, from the start of the stream.
/// The cipher combines the block with its key stream by exclusive or,
/// and the key stream depends on the key and the IV alone.
#[verifier::external_body]
pub(crate) fn ofb_apply(key: &[u8; 16], iv: &[u8; 16], block: &[u8; 16]) -> (output: [u8; 16])
    ensures
        output@ == spec_xor(block@, aes128_ofb_stream(key@, iv@)),
{
    let mut output = *block;
    let mut cipher = Ofb::<Aes128>::new(key.into(), iv.into());
    cipher.apply_keystream(&mut output);
    output
}

/// `ed25519_dalek::VerifyingKey::from_bytes`: whether it accepts `key`.
#[verifier::external_body]
pub(crate) fn key_decodes(key: &[u8; 32]) -> (valid: bool)
    ensures
        valid == ed25519_key_decodes(key@),
{
    VerifyingKey::from_bytes(key).is_ok()
}

/// `DigestVerifier::verify_digest` on a verifying key with a context: the
/// key is decoded from `key`, the digest is SHA-512 fed with `message`, the
/// signature is parsed from `signature`. A key that does not decode
/// accepts nothing.
#[verifier::external_body]
pub(crate) fn verify_prehashed(
    key: &[u8; 32],
    context: &[u8; 4],
    message: &[u8; 64],
    signature: &[u8; 64],
) -> (accepted: bool)
    ensures
        accepted == ed25519ph_accepts(key@, context@, message@, signature@),
        !ed25519_key_decodes(key@) ==> !accepted,
{
    match VerifyingKey::from_bytes(key) {
        Err(_) => false,
        Ok(verifier) => match verifier.with_context(context) {
            Err(_) => false,
            Ok(bound) => bound
                .verify_digest(Sha512::default().chain_update(message), &Signature::from_bytes(signature))
                .is_ok(),
        },
    }
}

/// The exclusive or of two blocks of 64 bytes.
pub fn xor_512(a: &[u8; 64], b: &[u8; 64]) -> (output: [u8; 64])
    ensures
        output@ == spec_xor(a@, b@),
{
    let mut output = [0u8; 64];
    let mut i: usize = 0;
    while i < 64
        invariant
            i <= 64,
            forall|j: int| 0 <= j < i ==> output@[j] == a@[j] ^ b@[j],
        decreases 64 - i,
    {
        output[i] = a[i] ^ b[i];
        i += 1;
    }
    assert(output@ =~= spec_xor(a@, b@));
    output
}

/// Exclusive or with the same run twice gives the first run back.
pub proof fn lemma_xor_twice(a: Seq<u8>, b: Seq<u8>)
    ensures
        spec_xor(spec_xor(a, b), b) == a,
{
    assert forall|i: int| 0 <= i < a.len() implies #[trigger] spec_xor(spec_xor(a, b), b)[i]
        == a[i] by {
        let x = a[i];
        let y = b[i];
        assert((x ^ y) ^ y == x) by (bit_vector);
    }
}

} // verus!
