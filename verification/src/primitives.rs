//! The cryptographic operations and random sources that outside crates provide.
//!
//! Everything here is trusted: each function makes one outside call, and its contract says what
//! the library relies on.
use crate::secret::SecretKey;
use aes_gcm::aead::{Aead, KeyInit, Payload};
use aes_gcm::{Aes256Gcm, Nonce};
use argon2::{Algorithm, Argon2, Params, Version};
use hkdf::Hkdf;
use rand::{Rng, SeedableRng};
use rand_chacha::ChaCha20Rng;
use sha2::{Digest, Sha256};
use uuid::Uuid;
use vstd::prelude::*;

verus! {

/// Length in bytes of the authentication tag behind an AES-GCM ciphertext.
pub const TAG_LEN: usize = 16;

/// The longest message that AES-GCM takes, in bytes.
pub const MAX_MESSAGE_LEN: u64 = 0x10_0000_0000;

/// The longest password and the longest salt that Argon2 takes, in bytes.
pub const MAX_KDF_INPUT_LEN: u64 = 0xFFFF_FFFF;

/// The most memory that Argon2 is asked to use, in KiB.
pub const MAX_KDF_MEMORY: u32 = 524_288;

/// The shortest salt that Argon2 takes, in bytes.
pub const MIN_KDF_SALT_LEN: u64 = 8;

/// `aes_gcm::Error`, which carries no information.
#[verifier::external_type_specification]
#[verifier::external_body]
pub struct ExAeadError(aes_gcm::Error);

/// `rand_chacha::ChaCha20Rng`, a deterministic generator.
#[verifier::external_type_specification]
#[verifier::external_body]
pub struct ExChaCha20Rng(ChaCha20Rng);

/// The SHA-256 digest of a byte string.
pub uninterp spec fn sha256(data: Seq<u8>) -> Seq<u8>;

/// The 32-byte Argon2id (version 0x13) hash of a password and a salt under a memory cost in KiB, a
/// number of passes and a number of lanes.
pub uninterp spec fn argon2id(
    password: Seq<u8>,
    salt: Seq<u8>,
    m_cost: u32,
    t_cost: u32,
    lanes: u32,
) -> Seq<u8>;

/// The first 32 bytes of HKDF-SHA256 output for a salt, input key material and an info string.
pub uninterp spec fn hkdf_sha256(salt: Seq<u8>, ikm: Seq<u8>, info: Seq<u8>) -> Seq<u8>;

/// The AES-256-GCM ciphertext, tag behind, of a message under a key, a nonce and associated data.
pub uninterp spec fn aes256gcm_sealed(
    key: Seq<u8>,
    nonce: Seq<u8>,
    message: Seq<u8>,
    aad: Seq<u8>,
) -> Seq<u8>;

/// The message that AES-256-GCM accepts a ciphertext for, or nothing where the tag does not match.
pub uninterp spec fn aes256gcm_opened(
    key: Seq<u8>,
    nonce: Seq<u8>,
    ciphertext: Seq<u8>,
    aad: Seq<u8>,
) -> Option<Seq<u8>>;

/// The 64-bit word that ChaCha20 seeded with `seed` gives at draw number `index`, from zero.
pub uninterp spec fn chacha20_word(seed: Seq<u8>, index: nat) -> u64;

/// The words that a generator has still to give, by the number of the draw from now on.
pub uninterp spec fn words_ahead(rng: ChaCha20Rng) -> Map<int, u64>;

/// The marks of a version 4 UUID of the RFC variant, in its seventh and ninth bytes.
pub open spec fn is_random_uuid(uuid: Seq<u8>) -> bool {
    0x40 <= uuid[6] < 0x50 && 0x80 <= uuid[8] < 0xC0
}

/// `sha2::Sha256`: feeding two byte strings in turn digests their concatenation, to 32 bytes.
#[verifier::external_body]
pub(crate) fn sha256_of_pair(first: &[u8], second: &[u8]) -> (digest: [u8; 32])
    ensures
        digest@ == sha256(first@ + second@),
{
    let mut hasher = Sha256::new();
    hasher.update(first);
    hasher.update(second);
    hasher.finalize().into()
}

/// `argon2::Argon2::hash_password_into` with Argon2id version 0x13 and no secret.
///
/// With costs that `argon2::Params::new` accepts, the only inputs refused are a password or a salt
/// over 2^32 - 1 bytes and a salt under 8; the refusal is given by the text of `argon2::Error`.
#[verifier::external_body]
pub(crate) fn argon2id_hash(
    password: &[u8],
    salt: &[u8],
    m_cost: u32,
    t_cost: u32,
    lanes: u32,
) -> (result: Result<[u8; 32], String>)
    requires
        1 <= lanes <= 0xFF_FFFF,
        8 * lanes <= m_cost <= MAX_KDF_MEMORY,
        1 <= t_cost,
    ensures
        match result {
            Ok(hash) => password@.len() <= MAX_KDF_INPUT_LEN && MIN_KDF_SALT_LEN <= salt@.len()
                <= MAX_KDF_INPUT_LEN && hash@ == argon2id(password@, salt@, m_cost, t_cost, lanes),
            Err(text) => if password@.len() > MAX_KDF_INPUT_LEN {
                text@ == "password is too long"@
            } else if salt@.len() < MIN_KDF_SALT_LEN {
                text@ == "salt is too short"@
            } else {
                salt@.len() > MAX_KDF_INPUT_LEN && text@ == "salt is too long"@
            },
        },
{
    let mut hash = [0u8; 32];
    let params = Params::new(m_cost, t_cost, lanes, Some(hash.len())).map_err(|e| e.to_string())?;
    let argon2 = Argon2::new(Algorithm::Argon2id, Version::V0x13, params);
    argon2.hash_password_into(password, salt, &mut hash).map_err(|e| e.to_string())?;
    Ok(hash)
}

/// `hkdf::Hkdf::<Sha256>::new` and `expand`, to 32 bytes, which is within the limit of 255 digests.
#[verifier::external_body]
pub(crate) fn hkdf_expand(salt: &[u8], ikm: &[u8], info: &[u8]) -> (key: SecretKey)
    ensures
        key@ == hkdf_sha256(salt@, ikm@, info@),
{
    let hkdf = Hkdf::<Sha256>::new(Some(salt), ikm);
    let mut key = SecretKey { bytes: [0u8; 32] };
    hkdf.expand(info, &mut key.bytes).expect("32 bytes are within the limit of HKDF");
    key
}

/// `aes_gcm::Aes256Gcm::encrypt`: fails exactly on messages and associated data over 2^36 bytes.
/// What it returns is 16 bytes longer than the message, and decrypts to the message.
#[verifier::external_body]
pub(crate) fn aes256gcm_encrypt(
    key: &SecretKey,
    nonce: &[u8; 12],
    message: &[u8],
    aad: &[u8],
) -> (result: Result<Vec<u8>, aes_gcm::Error>)
    requires
        message@.len() + TAG_LEN <= isize::MAX,
    ensures
        match result {
            Ok(ciphertext) => message@.len() <= MAX_MESSAGE_LEN && aad@.len() <= MAX_MESSAGE_LEN
                && ciphertext@ == aes256gcm_sealed(key@, nonce@, message@, aad@)
                && ciphertext@.len() == message@.len() + TAG_LEN && aes256gcm_opened(
                key@,
                nonce@,
                ciphertext@,
                aad@,
            ) == Some(message@),
            Err(_) => message@.len() > MAX_MESSAGE_LEN || aad@.len() > MAX_MESSAGE_LEN,
        },
{
    let cipher = Aes256Gcm::new_from_slice(&key.bytes).map_err(|_| aes_gcm::Error)?;
    cipher.encrypt(Nonce::from_slice(nonce), Payload { msg: message, aad })
}

/// `aes_gcm::Aes256Gcm::decrypt`: gives the message where the tag matches, and an error elsewhere.
/// The message is 16 bytes shorter than the ciphertext.
#[verifier::external_body]
pub(crate) fn aes256gcm_decrypt(
    key: &SecretKey,
    nonce: &[u8; 12],
    ciphertext: &[u8],
    aad: &[u8],
) -> (result: Result<Vec<u8>, aes_gcm::Error>)
    ensures
        match result {
            Ok(message) => aes256gcm_opened(key@, nonce@, ciphertext@, aad@) == Some(
                message@,
            ) && message@.len() + TAG_LEN == ciphertext@.len(),
            Err(_) => aes256gcm_opened(key@, nonce@, ciphertext@, aad@) is None,
        },
{
    let cipher = Aes256Gcm::new_from_slice(&key.bytes).map_err(|_| aes_gcm::Error)?;
    cipher.decrypt(Nonce::from_slice(nonce), Payload { msg: ciphertext, aad })
}

/// `rand::Rng::fill` from the thread's generator: random bytes, of which nothing is known.
#[verifier::external_body]
pub(crate) fn random_array<const N: usize>() -> [u8; N] {
    let mut bytes = [0u8; N];
    rand::thread_rng().fill(&mut bytes[..]);
    bytes
}

/// `rand::Rng::gen` from the thread's generator: one random byte, of which nothing is known.
#[verifier::external_body]
pub(crate) fn random_byte() -> u8 {
    rand::thread_rng().gen::<u8>()
}

/// `uuid::Uuid::new_v4`: random but for the bits that mark version 4 and the RFC variant.
#[verifier::external_body]
pub(crate) fn random_uuid() -> (uuid: [u8; 16])
    ensures
        is_random_uuid(uuid@),
{
    *Uuid::new_v4().as_bytes()
}

/// `ChaCha20Rng::from_seed`: a generator at the start of the seed's stream.
#[verifier::external_body]
pub(crate) fn chacha20_from_seed(seed: [u8; 32]) -> (rng: ChaCha20Rng)
    ensures
        forall|i: int|
            i >= 0 ==> #[trigger] words_ahead(rng)[i] == chacha20_word(seed@, i as nat),
{
    ChaCha20Rng::from_seed(seed)
}

/// `rand::Rng::gen::<u64>` on a `ChaCha20Rng`: gives the next word and moves on by one.
#[verifier::external_body]
pub(crate) fn chacha20_next(rng: &mut ChaCha20Rng) -> (word: u64)
    ensures
        word == words_ahead(*old(rng))[0],
        forall|i: int|
            i >= 0 ==> #[trigger] words_ahead(*final(rng))[i] == words_ahead(*old(rng))[i + 1],
{
    rng.gen::<u64>()
}

} // verus!
