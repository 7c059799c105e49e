use aes_gcm::aead::{Aead, KeyInit};
use aes_gcm::{Aes256Gcm, Key, Nonce};
use vstd::prelude::*;

use crate::error::HooverError;

verus! {

#[verifier::external_type_specification]
#[verifier::external_body]
pub struct ExAeadError(aes_gcm::Error);

/// What AES-256-GCM sealing yields for a key, a nonce and a plaintext.
pub uninterp spec fn aead_seal(key: Seq<u8>, nonce: Seq<u8>, plaintext: Seq<u8>) -> Seq<u8>;

/// What AES-256-GCM opening yields for a key, a nonce and a ciphertext: the
/// plaintext, or nothing when the tag does not authenticate.
pub uninterp spec fn aead_open(key: Seq<u8>, nonce: Seq<u8>, ciphertext: Seq<u8>) -> Option<Seq<u8>>;

/// `c` is `m` sealed under `key` and `nonce`, and opens back to `m`.
pub open spec fn seals(key: Seq<u8>, nonce: Seq<u8>, m: Seq<u8>, c: Seq<u8>) -> bool {
    c == aead_seal(key, nonce, m) && aead_open(key, nonce, c) == Some(m)
}

/// Decrypting what encryption produced under the same key and nonce gives back
/// the plaintext.
pub proof fn lemma_decrypt_undoes_encrypt(key: Seq<u8>, nonce: Seq<u8>, m: Seq<u8>, c: Seq<u8>)
    requires
        seals(key, nonce, m, c),
    ensures
        aead_open(key, nonce, c) == Some(m),
{
}

/// The longest plaintext that AES-GCM seals (2^36 bytes).
pub const MAX_PLAINTEXT: u64 = 68719476736;

/// Length of the authentication tag appended to every ciphertext.
pub const TAG_LEN: usize = 16;

/// Relies on aes-gcm's `Aes256Gcm::encrypt` under a cipher keyed by `key`: it
/// refuses a plaintext longer than 2^36 bytes and otherwise returns the
/// plaintext sealed, with the 16-byte tag appended, which opens to the plaintext
/// under the same key and nonce.
#[verifier::external_body]
fn aes_seal(key: &[u8; 32], nonce: &[u8; 12], plaintext: &[u8]) -> (r: Result<
    Vec<u8>,
    aes_gcm::Error,
>)
    ensures
        r is Ok <==> plaintext@.len() <= MAX_PLAINTEXT,
        r matches Ok(c) ==> c@ == aead_seal(key@, nonce@, plaintext@) && c@.len()
            == plaintext@.len() + TAG_LEN && aead_open(key@, nonce@, c@) == Some(plaintext@),
{
    Aes256Gcm::new(Key::<Aes256Gcm>::from_slice(key)).encrypt(Nonce::from_slice(nonce), plaintext)
}

/// Relies on aes-gcm's `Aes256Gcm::decrypt` under a cipher keyed by `key`: the
/// plaintext when the tag authenticates, an error otherwise.
#[verifier::external_body]
fn aes_open(key: &[u8; 32], nonce: &[u8; 12], ciphertext: &[u8]) -> (r: Result<
    Vec<u8>,
    aes_gcm::Error,
>)
    ensures
        r is Ok <==> aead_open(key@, nonce@, ciphertext@) is Some,
        r matches Ok(p) ==> aead_open(key@, nonce@, ciphertext@) == Some(p@),
{
    Aes256Gcm::new(Key::<Aes256Gcm>::from_slice(key)).decrypt(Nonce::from_slice(nonce), ciphertext)
}

/// Relies on `rand::random` (thread-local cryptographic generator) for twelve
/// random bytes; nothing is known of their value.
#[verifier::external_body]
fn random_nonce() -> (r: [u8; 12]) {
    rand::random::<[u8; 12]>()
}

/// AES-256-GCM context: the 32-byte key in use.
pub struct CryptoContext {
    key_bytes: [u8; 32],
}

impl CryptoContext {
    /// The key in use.
    pub closed spec fn key(&self) -> Seq<u8> {
        self.key_bytes@
    }

    /// Create a context from a 32-byte key.
    pub fn new(key: &[u8; 32]) -> (r: CryptoContext)
        ensures
            r.key() == key@,
            r.key().len() == 32,
    {
        CryptoContext { key_bytes: *key }
    }

    /// Create a context from the contents of a key file, which must hold exactly
    /// 32 bytes.
    pub fn from_key_data(data: &[u8]) -> (r: Result<CryptoContext, HooverError>)
        ensures
            r is Ok <==> data@.len() == 32,
            r matches Ok(c) ==> c.key() == data@,
            r matches Err(e) ==> e is Crypto,
    {
        if data.len() != 32 {
            return Err(HooverError::Crypto("key file must be exactly 32 bytes".to_string()));
        }
        let mut key = [0u8; 32];
        let mut i: usize = 0;
        while i < 32
            invariant
                data@.len() == 32,
                i <= 32,
                forall|j: int| 0 <= j < i ==> key@[j] == data@[j],
            decreases 32 - i,
        {
            key[i] = data[i];
            i = i + 1;
        }
        assert(key@ =~= data@);
        Ok(CryptoContext { key_bytes: key })
    }

    /// Draw a fresh random 12-byte nonce.
    pub fn generate_nonce() -> (r: [u8; 12])
        ensures
            r@.len() == 12,
    {
        random_nonce()
    }

    /// Seal `plaintext` under a fresh random nonce; returns the ciphertext and
    /// the nonce.
    pub fn encrypt(&self, plaintext: &[u8]) -> (r: Result<(Vec<u8>, [u8; 12]), HooverError>)
        ensures
            r is Ok <==> plaintext@.len() <= MAX_PLAINTEXT,
            r matches Ok((c, n)) ==> seals(self.key(), n@, plaintext@, c@) && c@.len()
                == plaintext@.len() + TAG_LEN,
            r matches Err(e) ==> e is Crypto,
    {
        let nonce = Self::generate_nonce();
        match self.encrypt_with_nonce(plaintext, &nonce) {
            Ok(c) => Ok((c, nonce)),
            Err(e) => Err(e),
        }
    }

    /// Seal `plaintext` under the given nonce.
    pub fn encrypt_with_nonce(&self, plaintext: &[u8], nonce: &[u8; 12]) -> (r: Result<
        Vec<u8>,
        HooverError,
    >)
        ensures
            r is Ok <==> plaintext@.len() <= MAX_PLAINTEXT,
            r matches Ok(c) ==> seals(self.key(), nonce@, plaintext@, c@) && c@.len()
                == plaintext@.len() + TAG_LEN,
            r matches Err(e) ==> e is Crypto,
    {
        match aes_seal(&self.key_bytes, nonce, plaintext) {
            Ok(c) => Ok(c),
            Err(_) => Err(HooverError::Crypto("encryption failed".to_string())),
        }
    }

    /// Open `ciphertext` under the given nonce.
    pub fn decrypt(&self, nonce: &[u8; 12], ciphertext: &[u8]) -> (r: Result<Vec<u8>, HooverError>)
        ensures
            r is Ok <==> aead_open(self.key(), nonce@, ciphertext@) is Some,
            r matches Ok(p) ==> aead_open(self.key(), nonce@, ciphertext@) == Some(p@),
            r matches Err(e) ==> e is Crypto,
    {
        match aes_open(&self.key_bytes, nonce, ciphertext) {
            Ok(p) => Ok(p),
            Err(_) => Err(HooverError::Crypto("decryption failed".to_string())),
        }
    }

    /// Replace the key in place.
    pub fn update_key(&mut self, new_key: &[u8; 32])
        ensures
            final(self).key() == new_key@,
    {
        self.key_bytes = *new_key;
    }

    /// The raw key bytes.
    pub fn key_bytes(&self) -> (r: &[u8; 32])
        ensures
            r@ == self.key(),
    {
        &self.key_bytes
    }
}

} // verus!
