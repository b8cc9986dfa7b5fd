//! The secret vault: one credential kept at rest either as legacy plaintext
//! or as `magic ++ nonce ++ ciphertext`, where the ciphertext is the
//! plaintext XOR a keystream that HKDF-SHA256 expands from the
//! deployment-bound key and the nonce.

use vstd::prelude::*;
use vstd::slice::{slice_subrange, slice_to_vec};
use vstd::utf8::{decode_utf8, encode_utf8, valid_utf8};
use crate::json::utf8_text;

verus! {

broadcast use vstd::string::group_string_axioms, vstd::utf8::group_utf8_lib;

/// Length of the nonce stored with a sealed secret.
pub const ENC_NONCE_LEN: usize = 16;

/// Length of the marker that starts a sealed secret.
pub const ENC_MAGIC_LEN: usize = 3;

/// Length of the deployment-bound key material.
pub const VETKEY_LEN: usize = 48;

/// Offset of the key material in a key-derivation response.
pub const VETKEY_OFFSET: usize = 144;

/// The most keystream bytes HKDF-SHA256 can expand: 255 blocks of 32.
pub const MAX_KEYSTREAM_LEN: usize = 8160;

/// Context label of the keystream expansion.
pub const KEYSTREAM_LABEL: &'static str = "picoclaw-api-key-v1";

/// The marker of a sealed secret: `VK` and version 1.
pub open spec fn enc_magic() -> Seq<u8> {
    seq![0x56u8, 0x4Bu8, 0x01u8]
}

/// The output key material of HKDF-SHA256 with this salt, input key
/// material, info and length.
pub uninterp spec fn hkdf_sha256_okm(salt: Seq<u8>, ikm: Seq<u8>, info: Seq<u8>, len: nat) -> Seq<
    u8,
>;

/// Relies on `hkdf::Hkdf::<sha2::Sha256>::new` and `Hkdf::expand`: the
/// expansion fills `len` bytes and fails exactly when `len` exceeds 255
/// blocks of 32 bytes.
#[verifier::external_body]
fn hkdf_sha256_expand(salt: &[u8], ikm: &[u8], info: &[u8], len: usize) -> (r: Option<Vec<u8>>)
    ensures
        r is Some <==> len <= MAX_KEYSTREAM_LEN,
        r matches Some(v) ==> v@ == hkdf_sha256_okm(salt@, ikm@, info@, len as nat) && v@.len()
            == len,
{
    let hk = hkdf::Hkdf::<sha2::Sha256>::new(Some(salt), ikm);
    let mut okm = vec![0u8; len];
    match hk.expand(info, &mut okm) {
        Ok(()) => Some(okm),
        Err(_) => None,
    }
}

/// The keystream for a key, a nonce and a length.
pub open spec fn keystream(key: Seq<u8>, nonce: Seq<u8>, len: nat) -> Seq<u8> {
    hkdf_sha256_okm(nonce, key, encode_utf8(KEYSTREAM_LABEL@), len)
}

/// `a` XOR `b`, byte by byte, over the length of `a`.
pub open spec fn xor_bytes(a: Seq<u8>, b: Seq<u8>) -> Seq<u8> {
    Seq::new(a.len(), |i: int| a[i] ^ b[i])
}

/// Derives `len` keystream bytes from the key material and the nonce.
pub fn derive_keystream(vetkey: &[u8], nonce: &[u8], len: usize) -> (r: Vec<u8>)
    requires
        len <= MAX_KEYSTREAM_LEN,
    ensures
        r@ == keystream(vetkey@, nonce@, len as nat),
        r@.len() == len,
{
    let info = KEYSTREAM_LABEL.as_bytes();
    match hkdf_sha256_expand(nonce, vetkey, info, len) {
        Some(v) => v,
        None => Vec::new(),
    }
}

/// `data` XOR `keystream`, byte by byte.
pub fn xor_bytes_with(data: &[u8], keystream: &[u8]) -> (r: Vec<u8>)
    requires
        keystream@.len() >= data@.len(),
    ensures
        r@ == xor_bytes(data@, keystream@),
{
    let mut out: Vec<u8> = Vec::new();
    let mut i: usize = 0;
    while i < data.len()
        invariant
            i <= data@.len(),
            keystream@.len() >= data@.len(),
            out@ == xor_bytes(data@, keystream@).subrange(0, i as int),
        decreases data@.len() - i,
    {
        out.push(data[i] ^ keystream[i]);
        assert(out@ =~= xor_bytes(data@, keystream@).subrange(0, i + 1));
        i = i + 1;
    }
    assert(out@ =~= xor_bytes(data@, keystream@));
    out
}

/// Encrypts or decrypts `data` with the keystream for the key and nonce.
pub fn xor_with_keystream(vetkey: &[u8], nonce: &[u8], data: &[u8]) -> (r: Vec<u8>)
    requires
        data@.len() <= MAX_KEYSTREAM_LEN,
    ensures
        r@ == xor_bytes(data@, keystream(vetkey@, nonce@, data@.len())),
{
    let ks = derive_keystream(vetkey, nonce, data.len());
    xor_bytes_with(data, ks.as_slice())
}

/// Whether stored bytes are a sealed secret: the marker, a nonce and at
/// least one byte of ciphertext.
pub open spec fn is_sealed(data: Seq<u8>) -> bool {
    data.len() >= ENC_MAGIC_LEN + ENC_NONCE_LEN + 1 && data.subrange(0, ENC_MAGIC_LEN as int)
        == enc_magic()
}

/// Checks whether stored bytes use the sealed format.
pub fn is_vetkey_encrypted(data: &[u8]) -> (r: bool)
    ensures
        r == is_sealed(data@),
{
    if data.len() < ENC_MAGIC_LEN + ENC_NONCE_LEN + 1 {
        return false;
    }
    let m = data[0] == 0x56u8 && data[1] == 0x4Bu8 && data[2] == 0x01u8;
    proof {
        if m {
            assert(data@.subrange(0, 3) =~= enc_magic());
        } else {
            assert(data@.subrange(0, 3)[0] == data@[0]);
            assert(data@.subrange(0, 3)[1] == data@[1]);
            assert(data@.subrange(0, 3)[2] == data@[2]);
        }
    }
    m
}

/// The stored form of `plaintext` under the key and nonce.
pub open spec fn sealed_blob(key: Seq<u8>, nonce: Seq<u8>, plaintext: Seq<u8>) -> Seq<u8> {
    enc_magic() + nonce + xor_bytes(plaintext, keystream(key, nonce, plaintext.len()))
}

/// Seals `plaintext` with the key material and the first sixteen bytes of
/// `random` as the nonce.
pub fn seal_secret(vetkey: &[u8], random: &[u8], plaintext: &str) -> (r: Vec<u8>)
    requires
        random@.len() >= ENC_NONCE_LEN,
        encode_utf8(plaintext@).len() <= MAX_KEYSTREAM_LEN,
    ensures
        r@ == sealed_blob(vetkey@, random@.subrange(0, ENC_NONCE_LEN as int), encode_utf8(
            plaintext@,
        )),
{
    let nonce = slice_subrange(random, 0, ENC_NONCE_LEN);
    let ciphertext = xor_with_keystream(vetkey, nonce, plaintext.as_bytes());
    let mut stored: Vec<u8> = Vec::new();
    stored.push(0x56u8);
    stored.push(0x4Bu8);
    stored.push(0x01u8);
    let mut n = slice_to_vec(nonce);
    stored.append(&mut n);
    let mut c = ciphertext;
    stored.append(&mut c);
    assert(stored@ =~= sealed_blob(
        vetkey@,
        random@.subrange(0, ENC_NONCE_LEN as int),
        encode_utf8(plaintext@),
    ));
    stored
}

/// The text of UTF-8 bytes, if they are valid.
pub open spec fn utf8_of(b: Seq<u8>) -> Option<Seq<char>> {
    if valid_utf8(b) {
        Some(decode_utf8(b))
    } else {
        None
    }
}

/// Why the vault could not be read. Each of these is an anomaly, distinct
/// from an empty vault.
#[derive(Clone, Copy, Debug, PartialEq, Eq, Structural)]
pub enum VaultError {
    /// A sealed secret is stored but the key material could not be had.
    KeyUnavailable,
    /// A sealed secret decrypted to bytes that are not UTF-8: the key is
    /// not the one it was sealed with.
    Decrypt,
    /// Legacy plaintext that is not UTF-8.
    NotText,
}

/// What reading the vault gives, given the key material if it could be
/// had: nothing for empty bytes; for a sealed secret, its decryption, which
/// must be UTF-8, and which needs the key; otherwise the bytes as legacy
/// plaintext, which must be UTF-8.
pub open spec fn loaded_secret(blob: Seq<u8>, key: Option<Seq<u8>>) -> Result<
    Option<Seq<char>>,
    VaultError,
> {
    if blob.len() == 0 {
        Ok(None)
    } else if is_sealed(blob) {
        match key {
            Some(k) => {
                let nonce = blob.subrange(
                    ENC_MAGIC_LEN as int,
                    (ENC_MAGIC_LEN + ENC_NONCE_LEN) as int,
                );
                let ct = blob.subrange((ENC_MAGIC_LEN + ENC_NONCE_LEN) as int, blob.len() as int);
                match utf8_of(xor_bytes(ct, keystream(k, nonce, ct.len()))) {
                    Some(t) => Ok(Some(t)),
                    None => Err(VaultError::Decrypt),
                }
            },
            None => Err(VaultError::KeyUnavailable),
        }
    } else {
        match utf8_of(blob) {
            Some(t) => Ok(Some(t)),
            None => Err(VaultError::NotText),
        }
    }
}

/// The bytes of the key material, if any.
pub open spec fn key_view(k: Option<&[u8]>) -> Option<Seq<u8>> {
    match k {
        Some(x) => Some(x@),
        None => None,
    }
}

/// The characters of an optional string.
pub open spec fn loaded_view(r: Result<Option<String>, VaultError>) -> Result<
    Option<Seq<char>>,
    VaultError,
> {
    match r {
        Ok(Some(s)) => Ok(Some(s@)),
        Ok(None) => Ok(None),
        Err(e) => Err(e),
    }
}

/// Reads the credential out of its stored bytes: `Ok(None)` exactly for an
/// empty vault. `vetkey` is only used for a sealed secret, and is `None`
/// when it could not be derived.
pub fn load_secret(blob: &[u8], vetkey: Option<&[u8]>) -> (r: Result<Option<String>, VaultError>)
    requires
        blob@.len() <= ENC_MAGIC_LEN + ENC_NONCE_LEN + MAX_KEYSTREAM_LEN,
    ensures
        loaded_view(r) == loaded_secret(blob@, key_view(vetkey)),
{
    if blob.len() == 0 {
        return Ok(None);
    }
    if is_vetkey_encrypted(blob) {
        match vetkey {
            Some(k) => {
                let nonce = slice_subrange(blob, ENC_MAGIC_LEN, ENC_MAGIC_LEN + ENC_NONCE_LEN);
                let ct = slice_subrange(blob, ENC_MAGIC_LEN + ENC_NONCE_LEN, blob.len());
                let plain = xor_with_keystream(k, nonce, ct);
                match utf8_text(plain.as_slice()) {
                    Some(t) => Ok(Some(t)),
                    None => Err(VaultError::Decrypt),
                }
            },
            None => Err(VaultError::KeyUnavailable),
        }
    } else {
        match utf8_text(blob) {
            Some(t) => Ok(Some(t)),
            None => Err(VaultError::NotText),
        }
    }
}

/// XOR with the same keystream twice gives the bytes back.
pub proof fn lemma_xor_twice(a: Seq<u8>, k: Seq<u8>)
    ensures
        xor_bytes(xor_bytes(a, k), k) == a,
{
    assert forall|i: int| 0 <= i < a.len() implies #[trigger] xor_bytes(xor_bytes(a, k), k)[i]
        == a[i] by {
        let x = a[i];
        let y = k[i];
        assert((x ^ y) ^ y == x) by (bit_vector);
    }
    assert(xor_bytes(xor_bytes(a, k), k) =~= a);
}

/// A non-empty credential sealed under any key and nonce loads back
/// unchanged with that key.
pub proof fn lemma_vault_round_trip(key: Seq<u8>, nonce: Seq<u8>, p: Seq<char>)
    requires
        nonce.len() == ENC_NONCE_LEN,
        p.len() > 0,
        encode_utf8(p).len() <= MAX_KEYSTREAM_LEN,
    ensures
        loaded_secret(sealed_blob(key, nonce, encode_utf8(p)), Some(key)) == Ok::<
            Option<Seq<char>>,
            VaultError,
        >(Some(p)),
{
    let pt = encode_utf8(p);
    let ks = keystream(key, nonce, pt.len());
    let blob = sealed_blob(key, nonce, pt);
    assert(pt.len() > 0) by {
        assert(encode_utf8(p) =~= vstd::utf8::encode_scalar(p[0] as u32) + encode_utf8(
            p.drop_first(),
        ));
    }
    assert(blob.subrange(0, 3) =~= enc_magic());
    assert(blob.subrange(3, 19) =~= nonce);
    assert(blob.subrange(19, blob.len() as int) =~= xor_bytes(pt, ks));
    lemma_xor_twice(pt, ks);
}

/// Three credentials stored in turn under one key, each with its own
/// nonce, each load back unchanged, and the stored nonces stay distinct.
pub proof fn lemma_vault_three_stores(
    key: Seq<u8>,
    n1: Seq<u8>,
    n2: Seq<u8>,
    n3: Seq<u8>,
    p1: Seq<char>,
    p2: Seq<char>,
    p3: Seq<char>,
)
    requires
        n1.len() == ENC_NONCE_LEN && n2.len() == ENC_NONCE_LEN && n3.len() == ENC_NONCE_LEN,
        n1 != n2 && n1 != n3 && n2 != n3,
        p1.len() > 0 && p2.len() > 0 && p3.len() > 0,
        encode_utf8(p1).len() <= MAX_KEYSTREAM_LEN,
        encode_utf8(p2).len() <= MAX_KEYSTREAM_LEN,
        encode_utf8(p3).len() <= MAX_KEYSTREAM_LEN,
    ensures
        loaded_secret(sealed_blob(key, n1, encode_utf8(p1)), Some(key)) == Ok::<
            Option<Seq<char>>,
            VaultError,
        >(Some(p1)),
        loaded_secret(sealed_blob(key, n2, encode_utf8(p2)), Some(key)) == Ok::<
            Option<Seq<char>>,
            VaultError,
        >(Some(p2)),
        loaded_secret(sealed_blob(key, n3, encode_utf8(p3)), Some(key)) == Ok::<
            Option<Seq<char>>,
            VaultError,
        >(Some(p3)),
        sealed_blob(key, n1, encode_utf8(p1)).subrange(3, 19) == n1,
        sealed_blob(key, n2, encode_utf8(p2)).subrange(3, 19) == n2,
        sealed_blob(key, n3, encode_utf8(p3)).subrange(3, 19) == n3,
{
    lemma_vault_round_trip(key, n1, p1);
    lemma_vault_round_trip(key, n2, p2);
    lemma_vault_round_trip(key, n3, p3);
    assert(sealed_blob(key, n1, encode_utf8(p1)).subrange(3, 19) =~= n1);
    assert(sealed_blob(key, n2, encode_utf8(p2)).subrange(3, 19) =~= n2);
    assert(sealed_blob(key, n3, encode_utf8(p3)).subrange(3, 19) =~= n3);
}

/// Bytes without the sealed marker load as the text they encode.
pub proof fn lemma_vault_reads_legacy(p: Seq<char>)
    requires
        p.len() > 0,
        !is_sealed(encode_utf8(p)),
    ensures
        forall|k: Option<Seq<u8>>| #[trigger] loaded_secret(encode_utf8(p), k) == Ok::<
            Option<Seq<char>>,
            VaultError,
        >(Some(p)),
{
    assert(encode_utf8(p) =~= vstd::utf8::encode_scalar(p[0] as u32) + encode_utf8(
        p.drop_first(),
    ));
}

/// The key material inside a key-derivation response, or `None` when the
/// response is too short to hold it.
pub fn vetkey_from_response(encrypted_key: &[u8]) -> (r: Option<Vec<u8>>)
    ensures
        r is Some <==> encrypted_key@.len() >= VETKEY_OFFSET + VETKEY_LEN,
        r matches Some(v) ==> v@ == encrypted_key@.subrange(
            VETKEY_OFFSET as int,
            (VETKEY_OFFSET + VETKEY_LEN) as int,
        ),
{
    if encrypted_key.len() < VETKEY_OFFSET + VETKEY_LEN {
        return None;
    }
    Some(slice_to_vec(slice_subrange(encrypted_key, VETKEY_OFFSET, VETKEY_OFFSET + VETKEY_LEN)))
}

} // verus!
