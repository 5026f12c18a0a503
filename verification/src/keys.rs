//! Deriving the encryption and authentication keys from a password.
use crate::bytes::be_value;
use crate::error::{CryptoError, Failure};
use crate::googol::{costs_of, googol_parameters, law_costs};
use crate::primitives::{
    argon2id, argon2id_hash, hkdf_sha256, sha256, MAX_KDF_INPUT_LEN, MAX_KDF_MEMORY,
    MIN_KDF_SALT_LEN,
};
use crate::rayo::{expanded_keys, rayo_expand_key, stretched, AES_INFO, HKDF_SALT, HMAC_INFO};
use crate::secret::{wipe, SecretKey};
use vstd::arithmetic::power::pow;
use vstd::prelude::*;

verus! {

/// Number of Argon2 lanes.
pub const PARALLELISM: u32 = 2;

/// What is derived from a password and a salt under Argon2 passes, memory (in KiB) and a number of
/// steps: the encryption key and the authentication key, or why neither can be had.
pub open spec fn derived_at(
    password: Seq<u8>,
    salt: Seq<u8>,
    time_cost: u32,
    mem_cost: u32,
    rayo_steps: nat,
) -> Result<(Seq<u8>, Seq<u8>), Failure> {
    if password.len() > MAX_KDF_INPUT_LEN {
        Err(Failure::Argon2("password is too long"@))
    } else if salt.len() < MIN_KDF_SALT_LEN {
        Err(Failure::Argon2("salt is too short"@))
    } else if salt.len() > MAX_KDF_INPUT_LEN {
        Err(Failure::Argon2("salt is too long"@))
    } else {
        Ok(
            expanded_keys(
                argon2id(password, salt, mem_cost, time_cost, PARALLELISM),
                rayo_steps,
            ),
        )
    }
}

/// What is derived from a password, a salt and a number of steps, with the costs that the password
/// and the salt decide.
pub open spec fn derived(password: Seq<u8>, salt: Seq<u8>, rayo_steps: nat) -> Result<
    (Seq<u8>, Seq<u8>),
    Failure,
> {
    let costs = costs_of(password, salt);
    derived_at(password, salt, costs.0 as u32, costs.1 as u32, rayo_steps)
}

/// Derives the encryption key and the authentication key from a password and a salt: Argon2id with
/// the given passes and memory (in KiB), and `rayo_steps` mixing steps over its output.
pub fn derive_keys_at(
    password: &[u8],
    salt: &[u8],
    time_cost: u32,
    mem_cost: u32,
    rayo_steps: u64,
) -> (result: Result<(SecretKey, SecretKey), CryptoError>)
    requires
        1 <= time_cost,
        8 * PARALLELISM <= mem_cost <= MAX_KDF_MEMORY,
    ensures
        match result {
            Ok(keys) => derived_at(password@, salt@, time_cost, mem_cost, rayo_steps as nat) == Ok::<
                (Seq<u8>, Seq<u8>),
                Failure,
            >((keys.0@, keys.1@)),
            Err(error) => derived_at(password@, salt@, time_cost, mem_cost, rayo_steps as nat)
                == Err::<(Seq<u8>, Seq<u8>), Failure>(error@),
        },
        result is Ok == (password@.len() <= 0xFFFF_FFFF && 8 <= salt@.len() <= 0xFFFF_FFFF),
        result matches Ok(keys) ==> ({
            let hash = argon2id(password@, salt@, mem_cost, time_cost, 2);
            let material = stretched(hash, rayo_steps as nat);
            &&& keys.0@ == hkdf_sha256(HKDF_SALT@, material, AES_INFO@)
            &&& keys.1@ == hkdf_sha256(HKDF_SALT@, material, HMAC_INFO@)
        }),
{
    match argon2id_hash(password, salt, mem_cost, time_cost, PARALLELISM) {
        Err(reason) => Err(CryptoError::Argon2Error(reason)),
        Ok(hash) => {
            let mut ikm: [u8; 32] = hash;
            let keys = rayo_expand_key(&ikm, rayo_steps);
            wipe(&mut ikm);
            Ok(keys)
        },
    }
}

/// Derives the encryption key and the authentication key from a password and a salt, with the
/// Argon2 costs that the two decide.
pub fn derive_keys(password: &[u8], salt: &[u8], rayo_steps: u64) -> (result: Result<
    (SecretKey, SecretKey),
    CryptoError,
>)
    ensures
        match result {
            Ok(keys) => derived(password@, salt@, rayo_steps as nat) == Ok::<
                (Seq<u8>, Seq<u8>),
                Failure,
            >((keys.0@, keys.1@)),
            Err(error) => derived(password@, salt@, rayo_steps as nat) == Err::<
                (Seq<u8>, Seq<u8>),
                Failure,
            >(error@),
        },
        result is Ok == (password@.len() <= 0xFFFF_FFFF && 8 <= salt@.len() <= 0xFFFF_FFFF),
        result matches Ok(keys) ==> ({
            let seed = be_value(sha256(password@ + salt@).take(8));
            let power = pow((seed % 10 + 1) as int, seed / 256 % 5 + 1);
            let time_cost = 16 + power % 25;
            let mem_cost = 262_144 + 16_384 * ((power / 16) % 17);
            let hash = argon2id(password@, salt@, mem_cost as u32, time_cost as u32, 2);
            let material = stretched(hash, rayo_steps as nat);
            &&& keys.0@ == hkdf_sha256(HKDF_SALT@, material, AES_INFO@)
            &&& keys.1@ == hkdf_sha256(HKDF_SALT@, material, HMAC_INFO@)
        }),
{
    let (time_cost, mem_cost) = googol_parameters(password, salt);
    derive_keys_at(password, salt, time_cost, mem_cost, rayo_steps)
}

/// The keys of a password and a salt: Argon2id runs over this very password and salt, with two lanes
/// and the costs that their digest stands for; its output is stretched by `rayo_steps` steps and
/// expanded.
pub proof fn law_keys_of_password(password: Seq<u8>, salt: Seq<u8>, rayo_steps: nat)
    requires
        password.len() <= 0xFFFF_FFFF,
        8 <= salt.len() <= 0xFFFF_FFFF,
    ensures
        ({
            let seed = be_value(sha256(password + salt).take(8));
            let power = pow((seed % 10 + 1) as int, seed / 256 % 5 + 1);
            let time_cost = 16 + power % 25;
            let mem_cost = 262_144 + 16_384 * ((power / 16) % 17);
            let hash = argon2id(password, salt, mem_cost as u32, time_cost as u32, 2);
            derived(password, salt, rayo_steps) == Ok::<(Seq<u8>, Seq<u8>), Failure>(
                (
                    hkdf_sha256(HKDF_SALT@, stretched(hash, rayo_steps), AES_INFO@),
                    hkdf_sha256(HKDF_SALT@, stretched(hash, rayo_steps), HMAC_INFO@),
                ),
            )
        }),
{
    law_costs(be_value(sha256(password + salt).take(8)));
}

/// Given costs reach Argon2id as they are, with this very password and salt.
pub proof fn law_keys_at_costs(
    password: Seq<u8>,
    salt: Seq<u8>,
    time_cost: u32,
    mem_cost: u32,
    rayo_steps: nat,
)
    requires
        password.len() <= 0xFFFF_FFFF,
        8 <= salt.len() <= 0xFFFF_FFFF,
    ensures
        derived_at(password, salt, time_cost, mem_cost, rayo_steps) == Ok::<
            (Seq<u8>, Seq<u8>),
            Failure,
        >(
            (
                hkdf_sha256(
                    HKDF_SALT@,
                    stretched(argon2id(password, salt, mem_cost, time_cost, 2), rayo_steps),
                    AES_INFO@,
                ),
                hkdf_sha256(
                    HKDF_SALT@,
                    stretched(argon2id(password, salt, mem_cost, time_cost, 2), rayo_steps),
                    HMAC_INFO@,
                ),
            ),
        ),
{
}

/// Keys are refused exactly for a password over 2^32 - 1 bytes and for a salt under 8 or over
/// 2^32 - 1; the password is looked at first.
pub proof fn law_keys_refused(
    password: Seq<u8>,
    salt: Seq<u8>,
    time_cost: u32,
    mem_cost: u32,
    rayo_steps: nat,
)
    ensures
        password.len() > 0xFFFF_FFFF || salt.len() < 8 || salt.len() > 0xFFFF_FFFF ==> derived_at(
            password,
            salt,
            time_cost,
            mem_cost,
            rayo_steps,
        ) == derived(password, salt, rayo_steps),
        password.len() > 0xFFFF_FFFF ==> derived(password, salt, rayo_steps) == Err::<
            (Seq<u8>, Seq<u8>),
            Failure,
        >(Failure::Argon2("password is too long"@)),
        password.len() <= 0xFFFF_FFFF && salt.len() < 8 ==> derived(password, salt, rayo_steps)
            == Err::<(Seq<u8>, Seq<u8>), Failure>(Failure::Argon2("salt is too short"@)),
        password.len() <= 0xFFFF_FFFF && salt.len() > 0xFFFF_FFFF ==> derived(
            password,
            salt,
            rayo_steps,
        ) == Err::<(Seq<u8>, Seq<u8>), Failure>(Failure::Argon2("salt is too long"@)),
{
}

} // verus!
