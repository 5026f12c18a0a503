use aes_gcm::aead::{Aead, KeyInit, Payload};
use aes_gcm::{Aes256Gcm, Nonce};
use alekscypher::ackermann::{crypto_ackermann, generate_ackermann_nonce};
use alekscypher::bytes::{u32_from_be, u32_to_be, u64_from_be, u64_to_be};
use alekscypher::container::{
    container_bytes, decrypt_bytes, flag_byte, fresh_draws, manifest_bytes, open_container,
    open_with_key, pad_message, pad_randomly, read_parts, seal_with_key, Draws, Opened, Settings,
};
use alekscypher::error::CryptoError;
use alekscypher::googol::{
    costs_from_seed, googol_padding_tier, googol_parameters, padded_len_for,
};
use alekscypher::keys::{derive_keys, derive_keys_at};
use alekscypher::rayo::{
    calibrate_rayo_steps, rayo_expand_key, rayo_step_simulation, run_rayo_chain, steps_for_run,
    stretch_key,
};

fn hex(bytes: &[u8]) -> String {
    bytes.iter().map(|b| format!("{:02x}", b)).collect()
}

fn counting_seed() -> [u8; 32] {
    let mut seed = [0u8; 32];
    for i in 0..32 {
        seed[i] = i as u8;
    }
    seed
}

fn some_draws() -> Draws {
    Draws { salt: [7; 16], os_nonce: [0, 1, 2, 3, 4, 5, 6, 7, 8, 9, 10, 11], uuid: [9; 16] }
}

fn some_settings(anti_replay: bool, padding_level: u8) -> Settings {
    Settings { anti_replay, padding_level, rayo_steps: 12, timestamp: 1_700_000_000 }
}

// ---- big-endian numbers

#[test]
fn big_endian_numbers_round_trip() {
    assert_eq!(u64_to_be(0x0102_0304_0506_0708), [1, 2, 3, 4, 5, 6, 7, 8]);
    assert_eq!(u32_to_be(0xA1B2_C3D4), [0xA1, 0xB2, 0xC3, 0xD4]);
    for value in [0u64, 1, 255, 256, 1 << 40, u64::MAX] {
        assert_eq!(u64_from_be(&u64_to_be(value), 0), value);
    }
    for value in [0u32, 1, 255, 256, u32::MAX] {
        assert_eq!(u32_from_be(&u32_to_be(value), 0), value);
    }
    assert_eq!(u64_from_be(&[9, 0, 0, 0, 0, 0, 0, 1, 0, 9], 1), 256);
    assert_eq!(u32_from_be(&[9, 0, 0, 1, 0, 9], 1), 256);
}

// ---- the Ackermann nonce

#[test]
fn ackermann_rows() {
    for n in 0..16u32 {
        assert_eq!(crypto_ackermann(0, n), n + 1);
        assert_eq!(crypto_ackermann(1, n), n + 2);
        assert_eq!(crypto_ackermann(2, n), 2 * n + 3);
    }
    for n in 0..6u32 {
        assert_eq!(crypto_ackermann(3, n), (1 << (n + 3)) - 3);
    }
}

#[test]
fn ackermann_runs_past_the_budget() {
    let cut: Vec<u32> = (6..16).map(|n| crypto_ackermann(3, n)).collect();
    assert_eq!(
        cut,
        vec![49981, 49978, 49979, 49976, 49977, 49974, 49975, 49972, 49973, 49970]
    );
}

#[test]
fn ackermann_uses_the_lowest_bits_only() {
    assert_eq!(crypto_ackermann(0xFFFF_FFF2, 0xFFFF_FFF3), crypto_ackermann(2, 3));
    assert_eq!(crypto_ackermann(4, 16), crypto_ackermann(0, 0));
}

#[test]
fn ackermann_nonces() {
    assert_eq!(
        generate_ackermann_nonce(&[0, 1, 2, 3, 4, 5, 6, 7, 8, 9, 10, 11]),
        [2, 1, 11, 3, 2, 5, 23, 7, 2, 9, 19, 11]
    );
    assert_eq!(
        generate_ackermann_nonce(&[255; 12]),
        [205, 60, 205, 60, 205, 60, 205, 60, 205, 60, 205, 60]
    );
    assert_eq!(
        generate_ackermann_nonce(&[3, 5, 3, 6, 7, 15, 2, 9, 1, 0, 0, 255]),
        [254, 5, 62, 197, 53, 204, 23, 9, 3, 0, 16, 255]
    );
}

// ---- costs and padding sizes

#[test]
fn costs_of_seeds() {
    assert_eq!(costs_from_seed(0), (17, 262_144));
    assert_eq!(costs_from_seed(9), (26, 262_144));
    assert_eq!(costs_from_seed(264), (16, 278_528));
    // 10^5: 100000 % 25 = 0 and 6250 % 17 = 11.
    assert_eq!(costs_from_seed(1029), (16, 262_144 + 11 * 16_384));
}

#[test]
fn costs_stay_in_range() {
    for seed in (0..200_000u64).step_by(7).chain([u64::MAX, u64::MAX - 1]) {
        let (time_cost, mem_cost) = costs_from_seed(seed);
        assert!((16..=40).contains(&time_cost));
        assert!((262_144..=524_288).contains(&mem_cost));
        assert_eq!((mem_cost - 262_144) % 16_384, 0);
    }
}

#[test]
fn costs_of_passwords() {
    assert_eq!(googol_parameters(b"", b""), (18, 278_528));
    assert_eq!(googol_parameters(b"password", b"somesalt"), (16, 278_528));
    let salt = [3, 1, 2, 3, 4, 5, 6, 7, 8, 9, 10, 11, 12, 13, 14, 15];
    assert_eq!(googol_parameters(b"correct horse", &salt), (17, 262_144));
}

#[test]
fn padding_sizes_of_each_level() {
    for (level, first) in [(1u8, 65_536usize), (2, 1_048_576), (3, 16_384), (0, 16_384), (9, 16_384)] {
        for index in 0..8u8 {
            let size = first << index;
            assert_eq!(padded_len_for(index, level, 1), size);
            assert_eq!(padded_len_for(index + 8, level, size), size);
            assert_eq!(padded_len_for(index + 248, level, size + 1), 2 * size);
            assert_eq!(padded_len_for(index, level, 0), 0);
        }
    }
}

#[test]
fn padding_hides_the_length() {
    for len in [16_385usize, 16_386, 20_000, 32_767, 32_768] {
        assert_eq!(padded_len_for(0, 3, len), 32_768);
    }
}

#[test]
fn padding_tier_of_a_password() {
    // The digest of the password and the salt starts with 0x6b.
    assert_eq!(googol_padding_tier(b"password", b"somesalt", 1, 1), 65_536 << 3);
    assert_eq!(googol_padding_tier(b"password", b"somesalt", 2, 9_000_000), 2 << 23);
    assert_eq!(googol_padding_tier(b"password", b"somesalt", 3, 131_073), 262_144);
}

#[test]
fn padding_keeps_the_file_in_front() {
    let message = pad_randomly(vec![1, 2, 3], 100);
    assert_eq!(message.len(), 100);
    assert_eq!(&message[..3], &[1, 2, 3]);
    assert!(message[3..].iter().any(|b| *b != message[3]));
    assert_eq!(pad_randomly(vec![1, 2, 3], 3), vec![1, 2, 3]);
    assert_eq!(pad_message(vec![5; 10], b"password", &[1; 16], 0), vec![5; 10]);
    let padded = pad_message(vec![5; 10], b"password", &[1; 16], 3);
    assert_eq!(padded.len(), googol_padding_tier(b"password", &[1; 16], 3, 10));
    assert_eq!(&padded[..10], &[5; 10]);
}

// ---- the Rayo machine

#[test]
fn rayo_steps() {
    assert_eq!(rayo_step_simulation(1, 0), 0x4082_2041);
    assert_eq!(rayo_step_simulation(0, 0), 0);
    assert_eq!(rayo_step_simulation(u64::MAX, 1), 0);
    assert_eq!(rayo_step_simulation(0x51A5_7057_0123_4567, 3), 0x60f7_d1e9_bd9d_1960);
}

#[test]
fn rayo_steps_lose_nothing() {
    let ends: Vec<u64> = (0..1000u64).map(|x| rayo_step_simulation(x * 0x9E37_79B9, 5)).collect();
    for (i, a) in ends.iter().enumerate() {
        for b in &ends[i + 1..] {
            assert_ne!(a, b);
        }
    }
}

#[test]
fn rayo_chains() {
    let start = 0x51A5_7057_0123_4567;
    assert_eq!(run_rayo_chain(start, 0), start);
    assert_eq!(run_rayo_chain(start, 1), 0x60f7_d1ea_fb06_ba2d);
    assert_eq!(run_rayo_chain(start, 2), 0xacd1_6ba0_c1af_fcda);
    assert_eq!(run_rayo_chain(start, 10), 0x87ea_e7b5_0645_11c6);
    assert_eq!(run_rayo_chain(start, 1000), 0x3058_9174_f60c_a267);
}

#[test]
fn stretching_appends_both_chains() {
    let seed = counting_seed();
    for (steps, ends) in [
        (0u64, "000102030405060708090a0b0c0d0e0f"),
        (1, "e08ca75e781a6dcbbfd893fbb6d083ad"),
        (5, "c7cf0e59f7ee3e975f42beaba63aea3e"),
    ] {
        let material = stretch_key(&seed, steps);
        assert_eq!(&material[..32], &seed);
        assert_eq!(hex(&material[32..]), ends);
    }
}

#[test]
fn key_expansion() {
    let keys = rayo_expand_key(&counting_seed(), 5);
    assert_eq!(
        hex(&keys.0.to_bytes()),
        "3596bc5229a4f6c6c1ad55cd4d3dd2e12bfe09f34a427fc067ec55a345a08486"
    );
    assert_eq!(
        hex(&keys.1.to_bytes()),
        "fef519393563bc3976afda23121ce47408a1fb57fd2b8fcba566e794f0e6cfaf"
    );
    let others = rayo_expand_key(&counting_seed(), 0);
    assert_eq!(
        hex(&others.0.to_bytes()),
        "af827cfcc0652ffc4283af205320371ba8205870db5dbe80da18cbef2fe197f1"
    );
}

#[test]
fn calibration_of_timed_runs() {
    assert_eq!(steps_for_run(0), 500_000_000);
    assert_eq!(steps_for_run(1_000), 500_000_000);
    assert_eq!(steps_for_run(14_999_999), 500_000_000);
    assert_eq!(steps_for_run(15_000_000), 499_999_999);
    assert_eq!(steps_for_run(15_000_001), 499_999_966);
    assert_eq!(steps_for_run(30_000_000), 249_999_999);
    assert_eq!(steps_for_run(100_000_000), 75_000_000);
    assert_eq!(steps_for_run(749_000_000), 10_013_350);
    assert_eq!(steps_for_run(750_000_000), 10_000_000);
    assert_eq!(steps_for_run(u128::MAX), 10_000_000);
}

#[test]
fn slower_runs_ask_for_no_more_steps() {
    let mut last = u64::MAX;
    for nanos in (0..2_000_000_000u128).step_by(999_983) {
        let steps = steps_for_run(nanos);
        assert!((10_000_000..=500_000_000).contains(&steps));
        assert!(steps <= last);
        last = steps;
    }
}

#[test]
fn calibration_stays_in_range() {
    assert!((10_000_000..=500_000_000).contains(&calibrate_rayo_steps()));
}

// ---- key derivation

#[test]
fn keys_from_a_password() {
    let keys = derive_keys_at(b"password", b"somesalt", 2, 256, 5).unwrap();
    let mut hash = [0u8; 32];
    let params = argon2::Params::new(256, 2, 2, Some(32)).unwrap();
    argon2::Argon2::new(argon2::Algorithm::Argon2id, argon2::Version::V0x13, params)
        .hash_password_into(b"password", b"somesalt", &mut hash)
        .unwrap();
    assert_eq!(hex(&hash), "6d093c501fd5999645e0ea3bf620d7b8be7fd2db59c20d9fff9539da2bf57037");
    let expected = rayo_expand_key(&hash, 5);
    assert_eq!(keys.0.to_bytes(), expected.0.to_bytes());
    assert_eq!(keys.1.to_bytes(), expected.1.to_bytes());
    assert_eq!(
        hex(&keys.0.to_bytes()),
        "9576087201be8bccb1ca2bce40a4b2ec6367523d9aeba25a4e4193fdbc80f3da"
    );
    assert_eq!(
        hex(&keys.1.to_bytes()),
        "06996ccd460bb6c61afb4398cea364033d8c983dec50d44f5d7a86d23cd7603a"
    );
}

#[test]
fn each_input_changes_the_key() {
    let key = |password: &[u8], salt: &[u8], passes: u32, memory: u32, steps: u64| {
        derive_keys_at(password, salt, passes, memory, steps).unwrap().0.to_bytes()
    };
    let base = key(b"password", b"somesalt", 1, 32, 3);
    assert_eq!(base, key(b"password", b"somesalt", 1, 32, 3));
    assert_ne!(base, key(b"Password", b"somesalt", 1, 32, 3));
    assert_ne!(base, key(b"password", b"somesalu", 1, 32, 3));
    assert_ne!(base, key(b"password", b"somesalt", 2, 32, 3));
    assert_ne!(base, key(b"password", b"somesalt", 1, 64, 3));
    assert_ne!(base, key(b"password", b"somesalt", 1, 32, 4));
}

#[test]
fn short_salts_are_refused() {
    let error = derive_keys(b"password", b"short", 5).err().unwrap();
    assert!(matches!(&error, CryptoError::Argon2Error(reason) if reason == "salt is too short"));
    assert_eq!(error.message(), "Key derivation error: salt is too short");
    assert!(derive_keys_at(b"password", b"seven77", 1, 16, 0).is_err());
    assert!(derive_keys_at(b"password", b"eight888", 1, 16, 0).is_ok());
}

// ---- containers

#[test]
fn flag_bytes() {
    assert_eq!(flag_byte(false, 0), 0b0000);
    assert_eq!(flag_byte(true, 0), 0b0001);
    assert_eq!(flag_byte(false, 1), 0b0110);
    assert_eq!(flag_byte(true, 2), 0b1011);
    assert_eq!(flag_byte(true, 3), 0b1111);
    assert_eq!(flag_byte(false, 4), 0b0010);
    assert_eq!(flag_byte(false, 255), 0b1110);
}

#[test]
fn manifests() {
    let manifest = manifest_bytes(258, 1, &[0xAB; 16], u64::MAX);
    let mut expected = vec![0, 0, 0, 0, 0, 0, 1, 2, 0, 0, 0, 0, 0, 0, 0, 1];
    expected.extend_from_slice(&[0xAB; 16]);
    expected.extend_from_slice(&[0xFF; 8]);
    assert_eq!(manifest, expected);
    assert_eq!(u64_from_be(&manifest, 0), 258);
    assert_eq!(u64_from_be(&manifest, 8), 1);
    assert_eq!(u64_from_be(&manifest, 32), u64::MAX);
}

#[test]
fn container_layout() {
    let container = container_bytes(5, &[1; 16], &[2; 12], &[3; 40], &[4, 4]);
    assert_eq!(container.len(), 72);
    assert_eq!(&container[..2], &[3, 5]);
    let parts = read_parts(&container).ok().unwrap();
    assert_eq!(parts.flags, 5);
    assert_eq!(parts.salt, [1; 16]);
    assert_eq!(parts.nonce, [2; 12]);
    assert_eq!(parts.manifest, [3; 40]);
    assert_eq!(parts.ciphertext, vec![4, 4]);
}

#[test]
fn short_containers_are_read_errors() {
    let container = container_bytes(0, &[1; 16], &[2; 12], &[3; 40], &[]);
    assert!(read_parts(&container).is_ok());
    for len in 0..70 {
        let error = read_parts(&container[..len]).err().unwrap();
        assert!(matches!(error, CryptoError::IoError(_)));
        assert!(error.message().starts_with("IO error: "));
        assert!(error.message().len() > "IO error: ".len());
        assert!(matches!(
            open_container(&container[..len], b"password").err().unwrap(),
            CryptoError::IoError(_)
        ));
    }
}

#[test]
fn other_versions_are_malformed() {
    for version in [0u8, 2, 4, 255] {
        let error = decrypt_bytes(&[version, 0], b"password", 0).err().unwrap();
        assert!(matches!(error, CryptoError::InvalidFormat));
        assert_eq!(error.message(), "File is too short or malformed");
    }
}

#[test]
fn sealed_messages_open_again() {
    let key = rayo_expand_key(&counting_seed(), 1).0;
    let draws = some_draws();
    let settings = some_settings(true, 2);
    let container = seal_with_key(b"attack at dawn, padding", 14, &key, settings, &draws).unwrap();
    assert_eq!(container.len(), 70 + 23 + 16);
    let parts = read_parts(&container).ok().unwrap();
    assert_eq!(parts.flags, 0b1011);
    assert_eq!(parts.salt, draws.salt);
    assert_eq!(parts.nonce, generate_ackermann_nonce(&draws.os_nonce));
    assert_eq!(parts.manifest.to_vec(), manifest_bytes(14, 1_700_000_000, &[9; 16], 12));

    let cipher = Aes256Gcm::new_from_slice(&key.to_bytes()).unwrap();
    let message = cipher
        .decrypt(
            Nonce::from_slice(&parts.nonce),
            Payload { msg: &parts.ciphertext, aad: &parts.manifest },
        )
        .unwrap();
    assert_eq!(message, b"attack at dawn, padding");

    let content = open_with_key(&parts, &key).ok().unwrap();
    assert_eq!(content.message, b"attack at dawn, padding");
    assert_eq!(content.original_len, 14);
    assert_eq!(content.timestamp, 1_700_000_000);
    assert!(content.checks_time());
    assert_eq!(content.release(1_700_000_100).ok().unwrap(), b"attack at dawn");
}

#[test]
fn containers_made_elsewhere_open() {
    let key = rayo_expand_key(&counting_seed(), 2).0;
    let manifest = manifest_bytes(5, 77, &[1; 16], 3);
    let cipher = Aes256Gcm::new_from_slice(&key.to_bytes()).unwrap();
    let ciphertext = cipher
        .encrypt(Nonce::from_slice(&[8; 12]), Payload { msg: b"hello", aad: &manifest })
        .unwrap();
    let container = container_bytes(0, &[6; 16], &[8; 12], &manifest, &ciphertext);
    let parts = read_parts(&container).ok().unwrap();
    let content = open_with_key(&parts, &key).ok().unwrap();
    assert!(!content.checks_time());
    assert_eq!(content.release(0).ok().unwrap(), b"hello");
}

#[test]
fn changed_containers_do_not_open() {
    let key = rayo_expand_key(&counting_seed(), 1).0;
    let container =
        seal_with_key(b"message", 7, &key, some_settings(false, 0), &some_draws()).unwrap();
    for at in [18, 29, 30, 69, 70, container.len() - 1] {
        let mut changed = container.clone();
        changed[at] ^= 1;
        let parts = read_parts(&changed).ok().unwrap();
        let error = open_with_key(&parts, &key).err().unwrap();
        assert!(matches!(error, CryptoError::DecryptionError));
        assert_eq!(error.message(), "Invalid password or corrupted file");
    }
    let other = rayo_expand_key(&counting_seed(), 2).0;
    let parts = read_parts(&container).ok().unwrap();
    assert!(matches!(open_with_key(&parts, &other).err().unwrap(), CryptoError::DecryptionError));
}

#[test]
fn truncated_ciphertexts_do_not_open() {
    let key = rayo_expand_key(&counting_seed(), 1).0;
    let container = seal_with_key(b"", 0, &key, some_settings(false, 0), &some_draws()).unwrap();
    assert_eq!(container.len(), 86);
    for len in 70..86 {
        let parts = read_parts(&container[..len]).ok().unwrap();
        assert!(open_with_key(&parts, &key).is_err());
    }
    let parts = read_parts(&container).ok().unwrap();
    assert_eq!(open_with_key(&parts, &key).ok().unwrap().message, b"");
}

#[test]
fn replay_window() {
    let content = |flags: u8| Opened {
        flags,
        timestamp: 10_000,
        original_len: 3,
        message: vec![1, 2, 3],
    };
    for now in [6_400, 9_999, 10_000, 13_600] {
        assert_eq!(content(1).release(now).ok().unwrap(), vec![1, 2, 3]);
    }
    for now in [0, 6_399, 13_601, u64::MAX] {
        let error = content(1).release(now).err().unwrap();
        assert!(matches!(error, CryptoError::ReplayDetected));
        assert_eq!(error.message(), "Replay attack detected (old file version)");
        assert_eq!(content(0).release(now).ok().unwrap(), vec![1, 2, 3]);
    }
}

#[test]
fn padding_is_cut_off() {
    let content = |flags: u8, original_len: u64| Opened {
        flags,
        timestamp: 0,
        original_len,
        message: vec![1, 2, 3],
    };
    assert_eq!(content(2, 2).release(0).ok().unwrap(), vec![1, 2]);
    assert_eq!(content(2, 3).release(0).ok().unwrap(), vec![1, 2, 3]);
    assert_eq!(content(2, 0).release(0).ok().unwrap(), Vec::<u8>::new());
    assert!(matches!(content(2, 4).release(0).err().unwrap(), CryptoError::InvalidFormat));
    assert!(matches!(content(2, u64::MAX).release(0).err().unwrap(), CryptoError::InvalidFormat));
    assert_eq!(content(0, 1).release(0).ok().unwrap(), vec![1, 2, 3]);
    // The replay check comes first.
    assert!(matches!(content(3, 4).release(9_000).err().unwrap(), CryptoError::ReplayDetected));
}

#[test]
fn fresh_values_differ() {
    let first = fresh_draws();
    let second = fresh_draws();
    assert_ne!(first.salt, second.salt);
    assert_ne!(first.os_nonce, second.os_nonce);
    assert_ne!(first.uuid, second.uuid);
    assert_eq!(first.uuid[6] >> 4, 4);
    assert_eq!(first.uuid[8] >> 6, 2);
}

#[test]
fn errors_of_the_system_keep_their_text() {
    let error = CryptoError::from(std::io::Error::new(std::io::ErrorKind::NotFound, "no such file"));
    assert!(matches!(error, CryptoError::IoError(_)));
    assert_eq!(error.message(), "IO error: no such file");
    assert_eq!(error.message_with("gone"), "IO error: gone");
}
