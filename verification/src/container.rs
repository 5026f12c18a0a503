//! The encrypted file: its layout, and encryption and decryption of whole files in memory.
//!
//! A container is a version byte, a flag byte, the salt, the nonce, the manifest and the AES-GCM
//! ciphertext. The manifest holds the original length, the time of encryption, a random identifier
//! and the number of mixing steps; it is authenticated together with the ciphertext.
use crate::ackermann::{ackermann_nonce, generate_ackermann_nonce, NONCE_LEN};
use crate::bytes::{
    be_bytes, be_value, lemma_be_bytes_len, lemma_be_round_trip, lemma_byte_ranges, u64_from_be,
    u64_to_be,
};
use crate::error::{CryptoError, Failure};
use crate::googol::{googol_padding_tier, largest_tier, law_padded_len, padded_len, tier_size};
use crate::keys::{derive_keys, derived};
use crate::primitives::{
    aes256gcm_decrypt, aes256gcm_encrypt, aes256gcm_opened, aes256gcm_sealed, is_random_uuid,
    random_array, random_byte, random_uuid, sha256, MAX_KDF_INPUT_LEN, MAX_MESSAGE_LEN, TAG_LEN,
};
use crate::secret::SecretKey;
use std::io::Read;
use vstd::prelude::*;

verus! {

/// Length of the salt in bytes.
pub const SALT_LEN: usize = 16;

/// Length of the manifest in bytes.
pub const MANIFEST_LEN: usize = 40;

/// Where the ciphertext starts: the length of all that stands before it.
pub const HEADER_LEN: usize = 70;

/// The format's version, the first byte of every container.
pub const VERSION: u8 = 3;

/// The flag of containers that are refused long after they were made.
pub const FLAG_ANTI_REPLAY: u8 = 0b0000_0001;

/// The flag of containers whose plaintext was padded.
pub const FLAG_PADDING: u8 = 0b0000_0010;

/// The bits that record the padding level.
pub const PADDING_LEVEL_MASK: u8 = 0b0000_1100;

/// How far the clock may be from the time of encryption, in seconds.
pub const REPLAY_WINDOW: u64 = 3600;

/// The random values that one encryption uses.
pub struct Draws {
    pub salt: [u8; 16],
    pub os_nonce: [u8; 12],
    pub uuid: [u8; 16],
}

/// What an encryption is asked to do besides encrypting.
#[derive(Clone, Copy)]
pub struct Settings {
    /// Whether the container is to be refused long after `timestamp`.
    pub anti_replay: bool,
    /// The padding level; zero is none.
    pub padding_level: u8,
    /// How many mixing steps stretch the key.
    pub rayo_steps: u64,
    /// The time of encryption, in seconds since 1970.
    pub timestamp: u64,
}

/// The parts that a container is made of, behind its version.
pub struct Parts {
    pub flags: u8,
    pub salt: [u8; 16],
    pub nonce: [u8; 12],
    pub manifest: [u8; 40],
    pub ciphertext: Vec<u8>,
}

/// The mathematical view of `Parts`.
pub struct PartsView {
    pub flags: u8,
    pub salt: Seq<u8>,
    pub nonce: Seq<u8>,
    pub manifest: Seq<u8>,
    pub ciphertext: Seq<u8>,
}

impl View for Parts {
    type V = PartsView;

    open spec fn view(&self) -> PartsView {
        PartsView {
            flags: self.flags,
            salt: self.salt@,
            nonce: self.nonce@,
            manifest: self.manifest@,
            ciphertext: self.ciphertext@,
        }
    }
}

/// What a container holds once it has been decrypted.
pub struct Opened {
    pub flags: u8,
    pub timestamp: u64,
    pub original_len: u64,
    pub message: Vec<u8>,
}

/// The mathematical view of `Opened`.
pub struct OpenedView {
    pub flags: u8,
    pub timestamp: nat,
    pub original_len: nat,
    pub message: Seq<u8>,
}

impl View for Opened {
    type V = OpenedView;

    open spec fn view(&self) -> OpenedView {
        OpenedView {
            flags: self.flags,
            timestamp: self.timestamp as nat,
            original_len: self.original_len as nat,
            message: self.message@,
        }
    }
}

/// What the container of a message holds.
pub open spec fn content_of(message: Seq<u8>, original_len: nat, settings: Settings) -> OpenedView {
    OpenedView {
        flags: flags_of(settings.anti_replay, settings.padding_level) as u8,
        timestamp: settings.timestamp as nat,
        original_len,
        message,
    }
}

/// The flag byte: one for the replay check, and for padding two and the level's two lowest bits
/// above it.
pub open spec fn flags_of(anti_replay: bool, padding_level: u8) -> nat {
    (if anti_replay {
        1nat
    } else {
        0
    }) + (if padding_level > 0 {
        2 + 4 * (padding_level % 4) as nat
    } else {
        0
    })
}

/// The manifest's bytes.
pub open spec fn manifest_of(original_len: nat, timestamp: nat, uuid: Seq<u8>, steps: nat) -> Seq<
    u8,
> {
    be_bytes(original_len, 8) + be_bytes(timestamp, 8) + uuid + be_bytes(steps, 8)
}

/// A container's bytes.
pub open spec fn container_of(parts: PartsView) -> Seq<u8> {
    seq![VERSION, parts.flags] + parts.salt + parts.nonce + parts.manifest + parts.ciphertext
}

/// The parts of a container, or why it has none: its version is another, or it ends too early.
pub open spec fn parts_of(container: Seq<u8>) -> Result<PartsView, Failure> {
    if container.len() < 2 {
        Err(Failure::Io)
    } else if container[0] != VERSION {
        Err(Failure::Format)
    } else if container.len() < HEADER_LEN {
        Err(Failure::Io)
    } else {
        Ok(
            PartsView {
                flags: container[1],
                salt: container.subrange(2, 18),
                nonce: container.subrange(18, 30),
                manifest: container.subrange(30, 70),
                ciphertext: container.skip(70),
            },
        )
    }
}

/// The container of a message, padding included, under an encryption key; its first `original_len`
/// bytes are the file. There is none where the message is too long.
pub open spec fn sealed_with(
    message: Seq<u8>,
    original_len: nat,
    key: Seq<u8>,
    settings: Settings,
    draws: Draws,
) -> Result<Seq<u8>, Failure> {
    let manifest = manifest_of(
        original_len,
        settings.timestamp as nat,
        draws.uuid@,
        settings.rayo_steps as nat,
    );
    let nonce = ackermann_nonce(draws.os_nonce@);
    if message.len() > MAX_MESSAGE_LEN {
        Err(Failure::Decryption)
    } else {
        Ok(
            container_of(
                PartsView {
                    flags: flags_of(settings.anti_replay, settings.padding_level) as u8,
                    salt: draws.salt@,
                    nonce,
                    manifest,
                    ciphertext: aes256gcm_sealed(key, nonce, message, manifest),
                },
            ),
        )
    }
}

/// The container of a message, padding included, under a password, or why there is none.
pub open spec fn sealed(
    message: Seq<u8>,
    original_len: nat,
    password: Seq<u8>,
    settings: Settings,
    draws: Draws,
) -> Result<Seq<u8>, Failure> {
    match derived(password, draws.salt@, settings.rayo_steps as nat) {
        Err(failure) => Err(failure),
        Ok(keys) => sealed_with(message, original_len, keys.0, settings, draws),
    }
}

/// What a container's parts hold under an encryption key; nothing where the key is not theirs or
/// they were changed.
pub open spec fn opened_with(parts: PartsView, key: Seq<u8>) -> Result<OpenedView, Failure> {
    match aes256gcm_opened(key, parts.nonce, parts.ciphertext, parts.manifest) {
        None => Err(Failure::Decryption),
        Some(message) => Ok(
            OpenedView {
                flags: parts.flags,
                timestamp: be_value(parts.manifest.subrange(8, 16)),
                original_len: be_value(parts.manifest.subrange(0, 8)),
                message,
            },
        ),
    }
}

/// What a container's parts hold under a password, or why they cannot be opened.
pub open spec fn opened_parts(parts: PartsView, password: Seq<u8>) -> Result<OpenedView, Failure> {
    match derived(password, parts.salt, be_value(parts.manifest.subrange(32, 40))) {
        Err(failure) => Err(failure),
        Ok(keys) => opened_with(parts, keys.0),
    }
}

/// What a container holds under a password, or why it cannot be opened.
pub open spec fn opened(container: Seq<u8>, password: Seq<u8>) -> Result<OpenedView, Failure> {
    match parts_of(container) {
        Err(failure) => Err(failure),
        Ok(parts) => opened_parts(parts, password),
    }
}

/// Whether two times are further apart than the replay window.
pub open spec fn out_of_window(now: nat, timestamp: nat) -> bool {
    now > timestamp + REPLAY_WINDOW || timestamp > now + REPLAY_WINDOW
}

/// The file that an opened container gives at the time `now`, or why it gives none.
pub open spec fn released(opened: OpenedView, now: nat) -> Result<Seq<u8>, Failure> {
    if opened.flags & FLAG_ANTI_REPLAY != 0 && out_of_window(now, opened.timestamp) {
        Err(Failure::Replay)
    } else if opened.flags & FLAG_PADDING == 0 {
        Ok(opened.message)
    } else if opened.original_len > opened.message.len() {
        Err(Failure::Format)
    } else {
        Ok(opened.message.take(opened.original_len as int))
    }
}

/// The file that a container gives under a password at the time `now`, or why it gives none.
pub open spec fn decrypted(container: Seq<u8>, password: Seq<u8>, now: nat) -> Result<
    Seq<u8>,
    Failure,
> {
    match opened(container, password) {
        Err(failure) => Err(failure),
        Ok(content) => released(content, now),
    }
}

/// What decryption must give for a file encrypted under the same password.
pub open spec fn expected_at(plaintext: Seq<u8>, settings: Settings, now: nat) -> Result<
    Seq<u8>,
    Failure,
> {
    if settings.anti_replay && out_of_window(now, settings.timestamp as nat) {
        Err(Failure::Replay)
    } else {
        Ok(plaintext)
    }
}

/// The message that a file is padded to has the length that the password and the salt decide, and
/// starts with the file.
pub open spec fn is_padding_of(
    message: Seq<u8>,
    plaintext: Seq<u8>,
    password: Seq<u8>,
    salt: Seq<u8>,
    level: u8,
) -> bool {
    &&& message.len() == if level > 0 {
        padded_len(sha256(password + salt)[0], level, plaintext.len())
    } else {
        plaintext.len()
    }
    &&& message.take(plaintext.len() as int) == plaintext
}

/// The flag byte tells both choices apart and fits its four lowest bits.
pub proof fn law_flags(anti_replay: bool, padding_level: u8)
    ensures
        flags_of(anti_replay, padding_level) < 16,
        ((flags_of(anti_replay, padding_level) as u8) & FLAG_ANTI_REPLAY != 0) == anti_replay,
        ((flags_of(anti_replay, padding_level) as u8) & FLAG_PADDING != 0) == (padding_level > 0),
{
    let flags = flags_of(anti_replay, padding_level) as u8;
    assert(flags < 16 ==> (flags & 1 != 0) == (flags % 2 == 1)) by (bit_vector);
    assert(flags < 16 ==> (flags & 2 != 0) == (flags / 2 % 2 == 1)) by (bit_vector);
}

/// Reading a container gives back the parts it was made of.
pub proof fn law_container_parts(parts: PartsView)
    requires
        parts.salt.len() == SALT_LEN,
        parts.nonce.len() == NONCE_LEN,
        parts.manifest.len() == MANIFEST_LEN,
    ensures
        container_of(parts).len() == HEADER_LEN + parts.ciphertext.len(),
        parts_of(container_of(parts)) == Ok::<PartsView, Failure>(parts),
{
    let container = container_of(parts);
    assert(container.subrange(2, 18) =~= parts.salt);
    assert(container.subrange(18, 30) =~= parts.nonce);
    assert(container.subrange(30, 70) =~= parts.manifest);
    assert(container.skip(70) =~= parts.ciphertext);
}

/// Every number stands in the manifest where reading looks for it.
pub proof fn law_manifest_fields(original_len: u64, timestamp: u64, uuid: Seq<u8>, steps: u64)
    requires
        uuid.len() == 16,
    ensures
        ({
            let manifest = manifest_of(original_len as nat, timestamp as nat, uuid, steps as nat);
            &&& manifest.len() == MANIFEST_LEN
            &&& be_value(manifest.subrange(0, 8)) == original_len
            &&& be_value(manifest.subrange(8, 16)) == timestamp
            &&& manifest.subrange(16, 32) == uuid
            &&& be_value(manifest.subrange(32, 40)) == steps
        }),
{
    let manifest = manifest_of(original_len as nat, timestamp as nat, uuid, steps as nat);
    lemma_byte_ranges();
    lemma_be_bytes_len(original_len as nat, 8);
    lemma_be_bytes_len(timestamp as nat, 8);
    lemma_be_bytes_len(steps as nat, 8);
    lemma_be_round_trip(original_len as nat, 8);
    lemma_be_round_trip(timestamp as nat, 8);
    lemma_be_round_trip(steps as nat, 8);
    assert(manifest.subrange(0, 8) =~= be_bytes(original_len as nat, 8));
    assert(manifest.subrange(8, 16) =~= be_bytes(timestamp as nat, 8));
    assert(manifest.subrange(16, 32) =~= uuid);
    assert(manifest.subrange(32, 40) =~= be_bytes(steps as nat, 8));
}

/// An opened container that was made with `settings` gives the file back, unless the replay check
/// was asked for and the time is out of its window.
pub proof fn law_release(message: Seq<u8>, original_len: u64, settings: Settings, now: nat)
    requires
        original_len <= message.len(),
        settings.padding_level == 0 ==> original_len == message.len(),
    ensures
        released(content_of(message, original_len as nat, settings), now) == expected_at(
            message.take(original_len as int),
            settings,
            now,
        ),
{
    law_flags(settings.anti_replay, settings.padding_level);
    if settings.padding_level == 0 {
        assert(message.take(original_len as int) =~= message);
    }
}

/// Reads the first `N` bytes of `input` with `std::io::Read::read_exact`, which fails exactly when
/// there are fewer.
#[verifier::external_body]
fn read_array<const N: usize>(input: &[u8]) -> (result: Result<[u8; N], std::io::Error>)
    ensures
        match result {
            Ok(array) => input@.len() >= N && array@ == input@.take(N as int),
            Err(_) => input@.len() < N,
        },
{
    let mut source = input;
    let mut array = [0u8; N];
    source.read_exact(&mut array)?;
    Ok(array)
}

/// The flag byte of a container.
pub fn flag_byte(anti_replay: bool, padding_level: u8) -> (flags: u8)
    ensures
        flags == flags_of(anti_replay, padding_level),
{
    let mut flags: u8 = 0;
    if anti_replay {
        flags = flags | FLAG_ANTI_REPLAY;
    }
    if padding_level > 0 {
        flags = flags | FLAG_PADDING;
        flags = flags | ((padding_level << 2) & PADDING_LEVEL_MASK);
    }
    proof {
        assert(0u8 | 1 == 1 && 0u8 | 2 == 2 && 1u8 | 2 == 3) by (bit_vector);
        assert(2u8 | ((padding_level << 2) & 12) == 2 + 4 * (padding_level % 4)) by (bit_vector);
        assert(3u8 | ((padding_level << 2) & 12) == 3 + 4 * (padding_level % 4)) by (bit_vector);
    }
    flags
}

/// The manifest's bytes.
pub fn manifest_bytes(original_len: u64, timestamp: u64, uuid: &[u8; 16], rayo_steps: u64) -> (bytes:
    Vec<u8>)
    ensures
        bytes@ == manifest_of(
            original_len as nat,
            timestamp as nat,
            uuid@,
            rayo_steps as nat,
        ),
{
    let mut bytes: Vec<u8> = Vec::with_capacity(MANIFEST_LEN);
    bytes.extend_from_slice(&u64_to_be(original_len));
    bytes.extend_from_slice(&u64_to_be(timestamp));
    bytes.extend_from_slice(uuid);
    bytes.extend_from_slice(&u64_to_be(rayo_steps));
    assert(bytes@ =~= manifest_of(
        original_len as nat,
        timestamp as nat,
        uuid@,
        rayo_steps as nat,
    ));
    bytes
}

/// A container's bytes.
pub fn container_bytes(
    flags: u8,
    salt: &[u8; 16],
    nonce: &[u8; 12],
    manifest: &[u8],
    ciphertext: &[u8],
) -> (container: Vec<u8>)
    ensures
        container@ == container_of(
            PartsView {
                flags,
                salt: salt@,
                nonce: nonce@,
                manifest: manifest@,
                ciphertext: ciphertext@,
            },
        ),
{
    let mut container: Vec<u8> = Vec::new();
    container.push(VERSION);
    container.push(flags);
    container.extend_from_slice(salt);
    container.extend_from_slice(nonce);
    container.extend_from_slice(manifest);
    container.extend_from_slice(ciphertext);
    assert(container@ =~= container_of(
        PartsView {
            flags,
            salt: salt@,
            nonce: nonce@,
            manifest: manifest@,
            ciphertext: ciphertext@,
        },
    ));
    container
}

/// Encrypts a message, padding included, under a key; its first `original_len` bytes are the file.
///
/// What comes out opens again under the same key to the same message.
pub fn seal_with_key(
    message: &[u8],
    original_len: u64,
    key: &SecretKey,
    settings: Settings,
    draws: &Draws,
) -> (result: Result<Vec<u8>, CryptoError>)
    requires
        message@.len() + TAG_LEN <= isize::MAX,
    ensures
        match result {
            Ok(container) => {
                &&& sealed_with(message@, original_len as nat, key@, settings, *draws)
                    == Ok::<Seq<u8>, Failure>(container@)
                &&& container@.len() == HEADER_LEN + message@.len() + TAG_LEN
                &&& parts_of(container@) matches Ok(parts) && parts.salt == draws.salt@
                    && be_value(parts.manifest.subrange(32, 40)) == settings.rayo_steps
                    && opened_with(parts, key@) == Ok::<OpenedView, Failure>(
                    content_of(message@, original_len as nat, settings),
                )
            },
            Err(error) => sealed_with(
                message@,
                original_len as nat,
                key@,
                settings,
                *draws,
            ) == Err::<Seq<u8>, Failure>(error@),
        },
{
    let nonce: [u8; 12] = generate_ackermann_nonce(&draws.os_nonce);
    let manifest: Vec<u8> = manifest_bytes(
        original_len,
        settings.timestamp,
        &draws.uuid,
        settings.rayo_steps,
    );
    proof {
        law_manifest_fields(original_len, settings.timestamp, draws.uuid@, settings.rayo_steps);
    }
    match aes256gcm_encrypt(key, &nonce, message, manifest.as_slice()) {
        Err(_) => Err(CryptoError::DecryptionError),
        Ok(ciphertext) => {
            let flags: u8 = flag_byte(settings.anti_replay, settings.padding_level);
            let container: Vec<u8> = container_bytes(
                flags,
                &draws.salt,
                &nonce,
                manifest.as_slice(),
                ciphertext.as_slice(),
            );
            proof {
                law_flags(settings.anti_replay, settings.padding_level);
                law_container_parts(
                    PartsView {
                        flags,
                        salt: draws.salt@,
                        nonce: nonce@,
                        manifest: manifest@,
                        ciphertext: ciphertext@,
                    },
                );
            }
            Ok(container)
        },
    }
}

/// Encrypts a message, padding included, under a password; its first `original_len` bytes are the
/// file.
///
/// What comes out opens again under the same password to the same message.
pub fn seal(
    message: &[u8],
    original_len: u64,
    password: &[u8],
    settings: Settings,
    draws: &Draws,
) -> (result: Result<Vec<u8>, CryptoError>)
    requires
        message@.len() + TAG_LEN <= isize::MAX,
    ensures
        match result {
            Ok(container) => {
                &&& sealed(message@, original_len as nat, password@, settings, *draws) == Ok::<
                    Seq<u8>,
                    Failure,
                >(container@)
                &&& container@.len() == HEADER_LEN + message@.len() + TAG_LEN
                &&& opened(container@, password@) == Ok::<OpenedView, Failure>(
                    content_of(message@, original_len as nat, settings),
                )
            },
            Err(error) => sealed(message@, original_len as nat, password@, settings, *draws)
                == Err::<Seq<u8>, Failure>(error@),
        },
{
    match derive_keys(password, &draws.salt, settings.rayo_steps) {
        Err(error) => Err(error),
        Ok(keys) => seal_with_key(message, original_len, &keys.0, settings, draws),
    }
}

/// Lengthens `plaintext` to `target` bytes with random ones.
pub fn pad_randomly(plaintext: Vec<u8>, target: usize) -> (padded: Vec<u8>)
    requires
        plaintext@.len() <= target,
    ensures
        padded@.len() == target,
        padded@.take(plaintext@.len() as int) == plaintext@,
{
    let ghost original = plaintext@;
    let mut padded: Vec<u8> = plaintext;
    assert(padded@.take(original.len() as int) =~= original);
    while padded.len() < target
        invariant
            original.len() <= padded@.len() <= target,
            padded@.take(original.len() as int) == original,
        decreases target - padded@.len(),
    {
        let ghost before = padded@;
        padded.push(random_byte());
        assert(padded@.take(original.len() as int) =~= before.take(original.len() as int));
    }
    padded
}

/// Lengthens a file with random bytes as the padding level asks, to the length that the password
/// and the salt decide; level zero leaves it as it is.
pub fn pad_message(plaintext: Vec<u8>, password: &[u8], salt: &[u8; 16], level: u8) -> (message: Vec<
    u8,
>)
    requires
        level > 0 ==> plaintext@.len() + largest_tier(level) <= usize::MAX + 1,
    ensures
        is_padding_of(message@, plaintext@, password@, salt@, level),
        message@.take(plaintext@.len() as int) == plaintext@,
        level == 0 ==> message@ == plaintext@,
        level > 0 ==> ({
            let size = tier_size(level, (sha256(password@ + salt@)[0] % 8) as nat);
            message@.len() % size == 0 && plaintext@.len() <= message@.len() < plaintext@.len()
                + size
        }),
{
    let original_len: usize = plaintext.len();
    let ghost original = plaintext@;
    let target: usize = if level > 0 {
        googol_padding_tier(password, salt, level, original_len)
    } else {
        original_len
    };
    let message: Vec<u8> = pad_randomly(plaintext, target);
    proof {
        law_padding(message@, original, password@, salt@, level);
    }
    message
}

/// Fresh random values for one encryption.
pub fn fresh_draws() -> (draws: Draws)
    ensures
        is_random_uuid(draws.uuid@),
{
    Draws {
        salt: random_array::<16>(),
        os_nonce: random_array::<12>(),
        uuid: random_uuid(),
    }
}

/// Encrypts a file with fresh random values: a salt, a nonce, an identifier and, where a padding
/// level is set, the padding.
///
/// Whatever the random values, decryption with the same password gives the file back, or, where
/// the replay check is on, refuses it outside the window.
pub fn encrypt_bytes(plaintext: Vec<u8>, password: &[u8], settings: Settings) -> (result: Result<
    Vec<u8>,
    CryptoError,
>)
    requires
        plaintext@.len() + TAG_LEN <= isize::MAX,
        settings.padding_level > 0 ==> plaintext@.len() + largest_tier(settings.padding_level)
            + TAG_LEN <= isize::MAX + 1,
    ensures
        exists|draws: Draws, message: Seq<u8>|
            #![trigger sealed(message, plaintext@.len(), password@, settings, draws)]
            {
                &&& is_random_uuid(draws.uuid@)
                &&& is_padding_of(
                    message,
                    plaintext@,
                    password@,
                    draws.salt@,
                    settings.padding_level,
                )
                &&& message.take(plaintext@.len() as int) == plaintext@
                &&& settings.padding_level == 0 ==> message == plaintext@
                &&& settings.padding_level > 0 ==> ({
                    let size = tier_size(
                        settings.padding_level,
                        (sha256(password@ + draws.salt@)[0] % 8) as nat,
                    );
                    message.len() % size == 0 && plaintext@.len() <= message.len()
                        < plaintext@.len() + size
                })
                &&& match result {
                    Ok(container) => sealed(
                        message,
                        plaintext@.len(),
                        password@,
                        settings,
                        draws,
                    ) == Ok::<Seq<u8>, Failure>(container@) && container@.len() == HEADER_LEN
                        + message.len() + TAG_LEN,
                    Err(error) => sealed(
                        message,
                        plaintext@.len(),
                        password@,
                        settings,
                        draws,
                    ) == Err::<Seq<u8>, Failure>(error@),
                }
            },
        password@.len() > MAX_KDF_INPUT_LEN ==> result is Err && result->Err_0@ == Failure::Argon2(
            "password is too long"@,
        ),
        password@.len() <= MAX_KDF_INPUT_LEN && plaintext@.len() + (if settings.padding_level > 0 {
            largest_tier(settings.padding_level) as int
        } else {
            0
        }) <= MAX_MESSAGE_LEN ==> result is Ok,
        result matches Ok(container) ==> forall|now: nat| #[trigger]
            decrypted(container@, password@, now) == expected_at(plaintext@, settings, now),
        result matches Ok(container) ==> forall|now: nat|
            settings.anti_replay && (now > settings.timestamp + 3600 || settings.timestamp > now
                + 3600) ==> #[trigger] decrypted(container@, password@, now) == Err::<
                Seq<u8>,
                Failure,
            >(Failure::Replay),
        result matches Ok(container) ==> forall|now: nat|
            !settings.anti_replay || now <= settings.timestamp + 3600 && settings.timestamp <= now
                + 3600 ==> #[trigger] decrypted(container@, password@, now) == Ok::<
                Seq<u8>,
                Failure,
            >(plaintext@),
{
    let draws: Draws = fresh_draws();
    let original_len: usize = plaintext.len();
    let ghost original = plaintext@;
    let message: Vec<u8> = pad_message(plaintext, password, &draws.salt, settings.padding_level);
    proof {
        law_padded_len(
            sha256(password@ + draws.salt@)[0],
            settings.padding_level,
            original.len(),
        );
        law_padding(message@, original, password@, draws.salt@, settings.padding_level);
    }
    let result: Result<Vec<u8>, CryptoError> = seal(
        message.as_slice(),
        original_len as u64,
        password,
        settings,
        &draws,
    );
    proof {
        if result is Ok {
            assert forall|now: nat| #[trigger]
                decrypted(result->Ok_0@, password@, now) == expected_at(
                    original,
                    settings,
                    now,
                ) by {
                law_release(message@, original_len as u64, settings, now);
            }
        }
    }
    result
}

/// Reads the parts of a container.
pub fn read_parts(container: &[u8]) -> (result: Result<Parts, CryptoError>)
    ensures
        match result {
            Ok(parts) => parts_of(container@) == Ok::<PartsView, Failure>(parts@),
            Err(error) => parts_of(container@) == Err::<PartsView, Failure>(error@),
        },
{
    let start: [u8; 2] = match read_array::<2>(container) {
        Err(error) => {
            return Err(CryptoError::from(error));
        },
        Ok(start) => start,
    };
    if start[0] != VERSION {
        return Err(CryptoError::InvalidFormat);
    }
    let after_start: &[u8] = vstd::slice::slice_subrange(container, 2, container.len());
    let salt: [u8; 16] = match read_array::<16>(after_start) {
        Err(error) => {
            return Err(CryptoError::from(error));
        },
        Ok(salt) => salt,
    };
    let after_salt: &[u8] = vstd::slice::slice_subrange(container, 18, container.len());
    let nonce: [u8; 12] = match read_array::<12>(after_salt) {
        Err(error) => {
            return Err(CryptoError::from(error));
        },
        Ok(nonce) => nonce,
    };
    let after_nonce: &[u8] = vstd::slice::slice_subrange(container, 30, container.len());
    let manifest: [u8; 40] = match read_array::<40>(after_nonce) {
        Err(error) => {
            return Err(CryptoError::from(error));
        },
        Ok(manifest) => manifest,
    };
    let mut ciphertext: Vec<u8> = Vec::new();
    ciphertext.extend_from_slice(vstd::slice::slice_subrange(container, 70, container.len()));
    proof {
        assert(salt@ =~= container@.subrange(2, 18));
        assert(nonce@ =~= container@.subrange(18, 30));
        assert(manifest@ =~= container@.subrange(30, 70));
        assert(ciphertext@ =~= container@.skip(70));
    }
    Ok(Parts { flags: start[1], salt, nonce, manifest, ciphertext })
}

/// Decrypts a container's parts under a key.
pub fn open_with_key(parts: &Parts, key: &SecretKey) -> (result: Result<Opened, CryptoError>)
    ensures
        match result {
            Ok(content) => opened_with(parts@, key@) == Ok::<OpenedView, Failure>(content@)
                && content.message@.len() + TAG_LEN == parts.ciphertext@.len(),
            Err(error) => opened_with(parts@, key@) == Err::<OpenedView, Failure>(
                error@,
            ),
        },
        match aes256gcm_opened(key@, parts.nonce@, parts.ciphertext@, parts.manifest@) {
            None => result matches Err(error) && error is DecryptionError,
            Some(message) => result matches Ok(content) && content.message@ == message
                && content.flags == parts.flags && content.timestamp == be_value(
                parts.manifest@.subrange(8, 16),
            ) && content.original_len == be_value(parts.manifest@.subrange(0, 8)),
        },
{
    match aes256gcm_decrypt(key, &parts.nonce, parts.ciphertext.as_slice(), &parts.manifest) {
        Err(_) => Err(CryptoError::DecryptionError),
        Ok(message) => Ok(
            Opened {
                flags: parts.flags,
                timestamp: u64_from_be(&parts.manifest, 8),
                original_len: u64_from_be(&parts.manifest, 0),
                message,
            },
        ),
    }
}

/// Opens a container: checks its version, derives the key and decrypts.
///
/// A container too short for an authentication tag never opens.
pub fn open_container(container: &[u8], password: &[u8]) -> (result: Result<Opened, CryptoError>)
    ensures
        match result {
            Ok(content) => opened(container@, password@) == Ok::<OpenedView, Failure>(content@)
                && HEADER_LEN + content.message@.len() + TAG_LEN == container@.len(),
            Err(error) => opened(container@, password@) == Err::<OpenedView, Failure>(error@),
        },
        container@.len() < 2 ==> (result matches Err(error) && error is IoError),
        container@.len() >= 2 && container@[0] != 3 ==> (result matches Err(error)
            && error is InvalidFormat),
        container@.len() < 70 ==> result is Err,
        container@.len() >= 70 && container@[0] == 3 ==> ({
            let manifest = container@.subrange(30, 70);
            let salt = container@.subrange(2, 18);
            match derived(password@, salt, be_value(manifest.subrange(32, 40))) {
                Err(failure) => result matches Err(error) && error@ == failure,
                Ok(keys) => match aes256gcm_opened(
                    keys.0,
                    container@.subrange(18, 30),
                    container@.skip(70),
                    manifest,
                ) {
                    None => result matches Err(error) && error is DecryptionError,
                    Some(message) => result matches Ok(content) && content.message@ == message
                        && content.flags == container@[1] && content.timestamp == be_value(
                        manifest.subrange(8, 16),
                    ) && content.original_len == be_value(manifest.subrange(0, 8)),
                },
            }
        }),
{
    let parts: Parts = match read_parts(container) {
        Err(error) => {
            return Err(error);
        },
        Ok(parts) => parts,
    };
    let rayo_steps: u64 = u64_from_be(&parts.manifest, 32);
    match derive_keys(password, &parts.salt, rayo_steps) {
        Err(error) => Err(error),
        Ok(keys) => open_with_key(&parts, &keys.0),
    }
}

impl Opened {
    /// Whether the file depends on the present time.
    pub fn checks_time(&self) -> (checks: bool)
        ensures
            checks == (self.flags & FLAG_ANTI_REPLAY != 0),
            checks == (self.flags % 2 == 1),
    {
        proof {
            let flags = self.flags;
            assert((flags & 1 != 0) == (flags % 2 == 1)) by (bit_vector);
        }
        self.flags & FLAG_ANTI_REPLAY != 0
    }

    /// The file that the container gives at the time `now`: refused outside the replay window, and
    /// cut to its original length where it was padded.
    pub fn release(self, now: u64) -> (result: Result<Vec<u8>, CryptoError>)
        ensures
            match result {
                Ok(plaintext) => released(self@, now as nat) == Ok::<Seq<u8>, Failure>(plaintext@),
                Err(error) => released(self@, now as nat) == Err::<Seq<u8>, Failure>(error@),
            },
            ({
                let checked = self.flags % 2 == 1;
                let padded = self.flags / 2 % 2 == 1;
                let late = now > self.timestamp + 3600 || self.timestamp > now + 3600;
                if checked && late {
                    result matches Err(error) && error is ReplayDetected
                } else if !padded {
                    result matches Ok(plaintext) && plaintext@ == self.message@
                } else if self.original_len > self.message@.len() {
                    result matches Err(error) && error is InvalidFormat
                } else {
                    result matches Ok(plaintext) && plaintext@ == self.message@.take(
                        self.original_len as int,
                    )
                }
            }),
    {
        proof {
            let flags = self.flags;
            assert((flags & 1 != 0) == (flags % 2 == 1)) by (bit_vector);
            assert((flags & 2 != 0) == (flags / 2 % 2 == 1)) by (bit_vector);
        }
        if self.flags & FLAG_ANTI_REPLAY != 0 {
            let apart: u64 = if now >= self.timestamp {
                now - self.timestamp
            } else {
                self.timestamp - now
            };
            if apart > REPLAY_WINDOW {
                return Err(CryptoError::ReplayDetected);
            }
        }
        if self.flags & FLAG_PADDING != 0 {
            if self.original_len > self.message.len() as u64 {
                return Err(CryptoError::InvalidFormat);
            }
            let mut plaintext: Vec<u8> = self.message;
            plaintext.truncate(self.original_len as usize);
            Ok(plaintext)
        } else {
            Ok(self.message)
        }
    }
}

/// Decrypts a container at the time `now`.
pub fn decrypt_bytes(container: &[u8], password: &[u8], now: u64) -> (result: Result<
    Vec<u8>,
    CryptoError,
>)
    ensures
        match result {
            Ok(plaintext) => decrypted(container@, password@, now as nat) == Ok::<Seq<u8>, Failure>(
                plaintext@,
            ) && HEADER_LEN + plaintext@.len() + TAG_LEN <= container@.len(),
            Err(error) => decrypted(container@, password@, now as nat) == Err::<Seq<u8>, Failure>(
                error@,
            ),
        },
        container@.len() >= 70 && container@[0] == 3 ==> ({
            let manifest = container@.subrange(30, 70);
            let salt = container@.subrange(2, 18);
            match derived(password@, salt, be_value(manifest.subrange(32, 40))) {
                Err(failure) => result matches Err(error) && error@ == failure,
                Ok(keys) => match aes256gcm_opened(
                    keys.0,
                    container@.subrange(18, 30),
                    container@.skip(70),
                    manifest,
                ) {
                    None => result matches Err(error) && error is DecryptionError,
                    Some(message) => result matches Ok(plaintext) ==> plaintext@
                        == message || container@[1] / 2 % 2 == 1 && plaintext@ == message.take(
                        be_value(manifest.subrange(0, 8)) as int,
                    ),
                },
            }
        }),
{
    match open_container(container, password) {
        Err(error) => Err(error),
        Ok(content) => content.release(now),
    }
}

/// What is seen of a container's parts and of its content is what they hold.
pub proof fn law_views(parts: Parts, content: Opened)
    ensures
        parts@.flags == parts.flags,
        parts@.salt == parts.salt@,
        parts@.nonce == parts.nonce@,
        parts@.manifest == parts.manifest@,
        parts@.ciphertext == parts.ciphertext@,
        content@.flags == content.flags,
        content@.timestamp == content.timestamp,
        content@.original_len == content.original_len,
        content@.message == content.message@,
{
}

/// The flag byte's lowest bit is the replay check, the next one padding, and the two above it are
/// the padding level's lowest.
pub proof fn law_flag_bits(anti_replay: bool, padding_level: u8)
    ensures
        flags_of(anti_replay, padding_level) < 16,
        (flags_of(anti_replay, padding_level) % 2 == 1) == anti_replay,
        (flags_of(anti_replay, padding_level) / 2 % 2 == 1) == (padding_level > 0),
        padding_level > 0 ==> flags_of(anti_replay, padding_level) / 4 == padding_level % 4,
        padding_level == 0 ==> flags_of(anti_replay, padding_level) / 4 == 0,
{
}

/// Where each part of a container stands.
pub proof fn law_container_layout(parts: PartsView)
    requires
        parts.salt.len() == 16,
        parts.nonce.len() == 12,
        parts.manifest.len() == 40,
    ensures
        container_of(parts).len() == 70 + parts.ciphertext.len(),
        container_of(parts)[0] == 3,
        container_of(parts)[1] == parts.flags,
        container_of(parts).subrange(2, 18) == parts.salt,
        container_of(parts).subrange(18, 30) == parts.nonce,
        container_of(parts).subrange(30, 70) == parts.manifest,
        container_of(parts).skip(70) == parts.ciphertext,
{
    law_container_parts(parts);
}

/// Reading looks for each part in its place. A file under 2 bytes, and one of version 3 under 70, ends
/// too early; a file of another version is malformed.
pub proof fn law_reading(container: Seq<u8>)
    ensures
        container.len() < 2 ==> parts_of(container) == Err::<PartsView, Failure>(Failure::Io),
        container.len() >= 2 && container[0] != 3 ==> parts_of(container) == Err::<
            PartsView,
            Failure,
        >(Failure::Format),
        2 <= container.len() < 70 && container[0] == 3 ==> parts_of(container) == Err::<
            PartsView,
            Failure,
        >(Failure::Io),
        container.len() >= 70 && container[0] == 3 ==> (parts_of(container) matches Ok(parts)
            && parts.flags == container[1] && parts.salt == container.subrange(2, 18)
            && parts.nonce == container.subrange(18, 30) && parts.manifest == container.subrange(
            30,
            70,
        ) && parts.ciphertext == container.skip(70)),
{
}

/// Encryption under a key: AES-256-GCM takes the whole message, the whitened nonce and the whole
/// manifest, which records the file's length, the time, the identifier and the number of steps.
pub proof fn law_sealing_with_key(
    message: Seq<u8>,
    original_len: u64,
    key: Seq<u8>,
    settings: Settings,
    draws: Draws,
)
    ensures
        message.len() > 0x10_0000_0000 ==> sealed_with(
            message,
            original_len as nat,
            key,
            settings,
            draws,
        ) == Err::<Seq<u8>, Failure>(Failure::Decryption),
        message.len() <= 0x10_0000_0000 ==> (sealed_with(
            message,
            original_len as nat,
            key,
            settings,
            draws,
        ) matches Ok(container) && ({
            let nonce = container.subrange(18, 30);
            let manifest = container.subrange(30, 70);
            &&& container[0] == 3
            &&& container[1] == flags_of(settings.anti_replay, settings.padding_level)
            &&& container.subrange(2, 18) == draws.salt@
            &&& nonce == ackermann_nonce(draws.os_nonce@)
            &&& be_value(manifest.subrange(0, 8)) == original_len
            &&& be_value(manifest.subrange(8, 16)) == settings.timestamp
            &&& manifest.subrange(16, 32) == draws.uuid@
            &&& be_value(manifest.subrange(32, 40)) == settings.rayo_steps
            &&& container.skip(70) == aes256gcm_sealed(key, nonce, message, manifest)
        })),
{
    law_manifest_fields(original_len, settings.timestamp, draws.uuid@, settings.rayo_steps);
    law_flags(settings.anti_replay, settings.padding_level);
    let manifest = manifest_of(
        original_len as nat,
        settings.timestamp as nat,
        draws.uuid@,
        settings.rayo_steps as nat,
    );
    let nonce = ackermann_nonce(draws.os_nonce@);
    law_container_parts(
        PartsView {
            flags: flags_of(settings.anti_replay, settings.padding_level) as u8,
            salt: draws.salt@,
            nonce,
            manifest,
            ciphertext: aes256gcm_sealed(key, nonce, message, manifest),
        },
    );
}

/// Encryption under a password is encryption under the first key that the password, the salt drawn
/// and the number of steps give.
pub proof fn law_sealing(
    message: Seq<u8>,
    original_len: nat,
    password: Seq<u8>,
    settings: Settings,
    draws: Draws,
)
    ensures
        match derived(password, draws.salt@, settings.rayo_steps as nat) {
            Ok(keys) => sealed(message, original_len, password, settings, draws) == sealed_with(
                message,
                original_len,
                keys.0,
                settings,
                draws,
            ),
            Err(failure) => sealed(message, original_len, password, settings, draws) == Err::<
                Seq<u8>,
                Failure,
            >(failure),
        },
{
}

/// Opening gives exactly the message that AES-256-GCM accepts the ciphertext for, under the first key
/// that the password gives with the container's salt and number of steps, and with the container's
/// nonce and whole manifest. Where it accepts none, the password is wrong or the file was changed.
pub proof fn law_opening(container: Seq<u8>, password: Seq<u8>)
    requires
        container.len() >= 70,
        container[0] == 3,
    ensures
        ({
            let manifest = container.subrange(30, 70);
            let salt = container.subrange(2, 18);
            match derived(password, salt, be_value(manifest.subrange(32, 40))) {
                Err(failure) => opened(container, password) == Err::<OpenedView, Failure>(failure),
                Ok(keys) => match aes256gcm_opened(
                    keys.0,
                    container.subrange(18, 30),
                    container.skip(70),
                    manifest,
                ) {
                    None => opened(container, password) == Err::<OpenedView, Failure>(
                        Failure::Decryption,
                    ),
                    Some(message) => opened(container, password) matches Ok(content)
                        && content.message == message && content.flags == container[1]
                        && content.timestamp == be_value(manifest.subrange(8, 16))
                        && content.original_len == be_value(manifest.subrange(0, 8)),
                },
            }
        }),
{
}

/// A file that has no parts does not open, whatever the password.
pub proof fn law_unreadable_files_stay_closed(container: Seq<u8>, password: Seq<u8>)
    ensures
        container.len() < 2 ==> opened(container, password) == Err::<OpenedView, Failure>(
            Failure::Io,
        ),
        container.len() >= 2 && container[0] != 3 ==> opened(container, password) == Err::<
            OpenedView,
            Failure,
        >(Failure::Format),
        2 <= container.len() < 70 && container[0] == 3 ==> opened(container, password) == Err::<
            OpenedView,
            Failure,
        >(Failure::Io),
{
}

/// When an opened container is released: with the replay check, only within 3600 seconds of the time
/// of encryption; with padding, only the original length, and nothing where there is less than that.
pub proof fn law_releasing(content: OpenedView, now: nat)
    ensures
        ({
            let checked = content.flags % 2 == 1;
            let padded = content.flags / 2 % 2 == 1;
            let apart = if now >= content.timestamp {
                now - content.timestamp
            } else {
                content.timestamp - now
            };
            if checked && apart > 3600 {
                released(content, now) == Err::<Seq<u8>, Failure>(Failure::Replay)
            } else if !padded {
                released(content, now) == Ok::<Seq<u8>, Failure>(content.message)
            } else if content.original_len > content.message.len() {
                released(content, now) == Err::<Seq<u8>, Failure>(Failure::Format)
            } else {
                released(content, now) == Ok::<Seq<u8>, Failure>(
                    content.message.take(content.original_len as int),
                )
            }
        }),
{
    let flags = content.flags;
    assert((flags & 1 != 0) == (flags % 2 == 1)) by (bit_vector);
    assert((flags & 2 != 0) == (flags / 2 % 2 == 1)) by (bit_vector);
}

/// Decryption is opening, and then releasing.
pub proof fn law_decryption(container: Seq<u8>, password: Seq<u8>, now: nat)
    ensures
        match opened(container, password) {
            Ok(content) => decrypted(container, password, now) == released(content, now),
            Err(failure) => decrypted(container, password, now) == Err::<Seq<u8>, Failure>(failure),
        },
{
}

/// A padded message starts with the file. At a level above zero its length is a multiple of the
/// padding size that this very level has for the first byte of the digest of the password and the
/// salt, and less than one size above the file's; at level zero nothing is added.
pub proof fn law_padding(
    message: Seq<u8>,
    plaintext: Seq<u8>,
    password: Seq<u8>,
    salt: Seq<u8>,
    level: u8,
)
    requires
        is_padding_of(message, plaintext, password, salt, level),
    ensures
        message.take(plaintext.len() as int) == plaintext,
        level == 0 ==> message == plaintext,
        level > 0 ==> ({
            let size = tier_size(level, (sha256(password + salt)[0] % 8) as nat);
            message.len() % size == 0 && plaintext.len() <= message.len() < plaintext.len() + size
        }),
{
    law_padded_len(sha256(password + salt)[0], level, plaintext.len());
    if level == 0 {
        assert(message.take(plaintext.len() as int) =~= message);
    }
}

/// What decryption owes for an encrypted file: the file itself, but nothing further than 3600 seconds
/// from the time of encryption where the replay check was asked for.
pub proof fn law_owed(plaintext: Seq<u8>, settings: Settings, now: nat)
    ensures
        settings.anti_replay && (now > settings.timestamp + 3600 || settings.timestamp > now + 3600)
            ==> expected_at(plaintext, settings, now) == Err::<Seq<u8>, Failure>(Failure::Replay),
        !settings.anti_replay ==> expected_at(plaintext, settings, now) == Ok::<Seq<u8>, Failure>(
            plaintext,
        ),
        now <= settings.timestamp + 3600 && settings.timestamp <= now + 3600 ==> expected_at(
            plaintext,
            settings,
            now,
        ) == Ok::<Seq<u8>, Failure>(plaintext),
{
}

/// What the container of a message holds: the message, the file's length, the time and the flags.
pub proof fn law_content(message: Seq<u8>, original_len: nat, settings: Settings)
    ensures
        content_of(message, original_len, settings).message == message,
        content_of(message, original_len, settings).original_len == original_len,
        content_of(message, original_len, settings).timestamp == settings.timestamp,
        content_of(message, original_len, settings).flags == flags_of(
            settings.anti_replay,
            settings.padding_level,
        ),
{
    law_flags(settings.anti_replay, settings.padding_level);
}

} // verus!
