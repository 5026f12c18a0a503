use alekscypher::bits::{pack_bits, unpack_bits};
use alekscypher::picture::Raster;
use alekscypher::slots::{
    draw_words, list_carriers, list_free_slots, list_salt_slots, shuffle_pixels,
};
use alekscypher::stego::{
    build_payload, embed_bits, extract_data_from_png, extract_data_if_possible, extract_from_raster,
    extract_with_words, has_room, hide_data_in_png, hide_data_with_salt, hide_in_raster,
    hide_with_words, read_bits, read_salt, reveal_secret, StegoError,
};
use image::{DynamicImage, ImageFormat, RgbImage, RgbaImage};
use sha2::{Digest, Sha256};
use std::io::Cursor;

const SALT: [u8; 16] = [11, 22, 33, 44, 55, 66, 77, 88, 99, 0, 1, 2, 3, 254, 255, 128];

fn some_raster(width: u32, height: u32) -> Raster {
    let count = 4 * width as usize * height as usize;
    Raster { width, height, bytes: (0..count).map(|i| (i * 37 % 251) as u8).collect() }
}

fn some_words(count: usize) -> Vec<u64> {
    let mut state = 88_172_645_463_325_252u64;
    (0..count)
        .map(|_| {
            state ^= state << 13;
            state ^= state >> 7;
            state ^= state << 17;
            state
        })
        .collect()
}

fn some_png(width: u32, height: u32) -> Vec<u8> {
    let raster = some_raster(width, height);
    let picture = RgbaImage::from_raw(width, height, raster.bytes).unwrap();
    let mut file = Vec::new();
    picture.write_to(&mut Cursor::new(&mut file), ImageFormat::Png).unwrap();
    file
}

fn decoded(file: &[u8]) -> RgbaImage {
    image::load_from_memory(file).unwrap().to_rgba8()
}

// ---- bits

#[test]
fn bits_highest_first() {
    assert_eq!(
        unpack_bits(&[0b1000_0001, 0x0F]),
        vec![1, 0, 0, 0, 0, 0, 0, 1, 0, 0, 0, 0, 1, 1, 1, 1]
    );
    assert_eq!(pack_bits(&[1, 0, 0, 0, 0, 0, 0, 1]), vec![0x81]);
    assert_eq!(pack_bits(&[1, 0, 0, 0, 0, 0, 0, 1, 1, 0, 1]), vec![0x81, 0b101]);
    assert_eq!(pack_bits(&[]), Vec::<u8>::new());
}

#[test]
fn packing_undoes_unpacking() {
    let bytes: Vec<u8> = (0..=255).collect();
    let mut bits = unpack_bits(&bytes);
    assert_eq!(pack_bits(&bits), bytes);
    bits.extend_from_slice(&[1, 1, 0]);
    assert_eq!(&pack_bits(&bits)[..256], &bytes[..]);
}

// ---- slots

#[test]
fn words_of_a_seed() {
    // The first bytes of the ChaCha20 stream of an all-zero key and nonce.
    assert_eq!(draw_words([0; 32], 3), vec![0x903d_f1a0_ade0_b876, 0x28bd_8653_e56a_5d40]);
    assert_eq!(draw_words([0; 32], 1), Vec::<u64>::new());
    assert_ne!(draw_words([1; 32], 3), draw_words([0; 32], 3));
}

#[test]
fn shuffles() {
    assert_eq!(shuffle_pixels(&[]), vec![0]);
    assert_eq!(shuffle_pixels(&[5, 7, 1]), vec![0, 2, 3, 1]);
    assert_eq!(shuffle_pixels(&[3, 2, 1]), vec![0, 1, 2, 3]);
    assert_eq!(shuffle_pixels(&[0, 0, 0]), vec![1, 2, 3, 0]);
}

#[test]
fn shuffles_keep_every_pixel() {
    for count in [0usize, 1, 2, 50, 500] {
        let mut order = shuffle_pixels(&some_words(count));
        order.sort();
        assert_eq!(order, (0..count + 1).collect::<Vec<usize>>());
    }
}

#[test]
fn free_slots_leave_out_the_salt() {
    let order: Vec<usize> = (0..44).collect();
    assert_eq!(list_free_slots(&order), vec![128, 129, 130, 131]);
    let backwards: Vec<usize> = (0..44).rev().collect();
    assert_eq!(list_free_slots(&backwards), vec![129, 130, 131, 128]);
    assert_eq!(list_free_slots(&[1, 0]), Vec::<usize>::new());
    assert_eq!(list_salt_slots(), (0..128).collect::<Vec<usize>>());
}

#[test]
fn carriers_are_all_slots() {
    for pixels in [43usize, 44, 64, 301] {
        let slots = list_carriers(&some_words(pixels - 1));
        assert_eq!(&slots[..128], &(0..128).collect::<Vec<usize>>()[..]);
        let mut sorted = slots.clone();
        sorted.sort();
        assert_eq!(sorted, (0..3 * pixels).collect::<Vec<usize>>());
    }
}

// ---- hiding

#[test]
fn payload_layout() {
    let payload = build_payload(b"secret", &SALT);
    assert_eq!(payload.len(), 30);
    assert_eq!(&payload[..16], &SALT);
    assert_eq!(&payload[16..20], b"ACYP");
    assert_eq!(&payload[20..24], &[0, 0, 0, 6]);
    assert_eq!(&payload[24..], b"secret");
}

#[test]
fn room_for_secrets() {
    assert!(!has_room(0, 0));
    assert!(!has_room(0, 63));
    assert!(has_room(0, 64));
    assert!(!has_room(1, 64));
    assert!(!has_room(1, 66));
    assert!(has_room(1, 67));
    assert!(!has_room(usize::MAX, 1000));
}

#[test]
fn bits_go_to_their_slots() {
    let mut bytes = vec![0xF0u8, 0xF1, 0xF2, 0xF3, 0xF4, 0xF5, 0xF6, 0xF7];
    embed_bits(&mut bytes, &[4, 0, 3, 1, 2, 5], &[0, 1, 1]);
    assert_eq!(bytes, vec![0xF1, 0xF1, 0xF2, 0xF3, 0xF5, 0xF4, 0xF6, 0xF7]);
    assert_eq!(read_bits(&bytes, &[4, 0, 3]), vec![0, 1, 1]);
    assert_eq!(read_bits(&bytes, &[2, 1]), vec![0, 1]);
}

#[test]
fn salt_fills_the_first_slots() {
    let words = some_words(99);
    let changed = hide_with_words(some_raster(10, 10), b"abc", &SALT, &words).unwrap();
    assert_eq!(read_salt(&changed), SALT.to_vec());
    for (k, bit) in unpack_bits(&SALT).iter().enumerate() {
        assert_eq!(changed.bytes[4 * (k / 3) + k % 3] & 1, *bit);
    }
}

#[test]
fn given_words_round_trip() {
    for words in [vec![0u64; 99], vec![u64::MAX; 99], some_words(99)] {
        let secret: Vec<u8> = (0..13).collect();
        let changed = hide_with_words(some_raster(20, 5), &secret, &SALT, &words).unwrap();
        assert_eq!((changed.width, changed.height), (20, 5));
        assert_eq!(extract_with_words(&changed, &words).unwrap(), secret);
    }
}

#[test]
fn hiding_changes_lowest_bits_of_colours_only() {
    let before = some_raster(16, 16);
    let after = hide_in_raster(some_raster(16, 16), &[0xA5; 60], b"password", &SALT).unwrap();
    assert_eq!(after.bytes.len(), before.bytes.len());
    let mut changed = 0;
    for (i, (old, new)) in before.bytes.iter().zip(&after.bytes).enumerate() {
        assert_eq!(old / 2, new / 2);
        if i % 4 == 3 {
            assert_eq!(old, new);
        }
        if old != new {
            changed += 1;
        }
    }
    assert!(changed > 100);
}

#[test]
fn full_pictures_round_trip() {
    // 16 pixels by 16 carry 96 bytes.
    for len in [0usize, 1, 71, 72] {
        let secret = vec![0xC3; len];
        let changed = hide_in_raster(some_raster(16, 16), &secret, b"pw", &SALT).unwrap();
        assert_eq!(extract_from_raster(&changed, b"pw").unwrap(), secret);
    }
    let error = hide_in_raster(some_raster(16, 16), &[0; 73], b"pw", &SALT).err().unwrap();
    assert!(matches!(error, StegoError::TooLarge));
    assert!(matches!(
        hide_with_words(some_raster(3, 3), b"", &SALT, &some_words(8)).err().unwrap(),
        StegoError::TooLarge
    ));
}

#[test]
fn order_comes_from_password_and_salt() {
    let words = {
        let mut hasher = Sha256::new();
        hasher.update(b"password");
        hasher.update(SALT);
        let seed: [u8; 32] = hasher.finalize().into();
        draw_words(seed, 100)
    };
    let one = hide_in_raster(some_raster(10, 10), b"secret", b"password", &SALT).unwrap();
    let two = hide_with_words(some_raster(10, 10), b"secret", &SALT, &words).unwrap();
    assert_eq!(one.bytes, two.bytes);
}

#[test]
fn wrong_passwords_find_nothing() {
    let changed = hide_in_raster(some_raster(16, 16), b"secret", b"right", &SALT).unwrap();
    let error = extract_from_raster(&changed, b"wrong").err().unwrap();
    assert!(matches!(error, StegoError::WrongPassword));
    assert_eq!(error.message(), "Неверный пароль или повреждённый контейнер");
}

#[test]
fn secrets_in_carried_bytes() {
    let mut bytes = build_payload(b"secret", &SALT);
    assert_eq!(reveal_secret(&bytes).unwrap(), b"secret");
    bytes.push(9);
    assert_eq!(reveal_secret(&bytes).unwrap(), b"secret");
    bytes[23] = 7;
    assert_eq!(reveal_secret(&bytes).unwrap(), b"secret\x09");
    bytes[23] = 8;
    let corrupted = reveal_secret(&bytes).err().unwrap();
    assert!(matches!(corrupted, StegoError::Corrupted));
    assert_eq!(corrupted.message(), "Повреждённые данные");
    bytes[20] = 0xFF;
    assert!(matches!(reveal_secret(&bytes).err().unwrap(), StegoError::Corrupted));
    bytes[19] = b'Q';
    assert!(matches!(reveal_secret(&bytes).err().unwrap(), StegoError::WrongPassword));
    let none = reveal_secret(&bytes[..23]).err().unwrap();
    assert!(matches!(none, StegoError::NoData));
    assert_eq!(none.message(), "Нет данных");
    assert_eq!(reveal_secret(&build_payload(b"", &SALT)).unwrap(), Vec::<u8>::new());
}

// ---- picture files

#[test]
fn png_round_trip() {
    let png = some_png(32, 20);
    let secret = b"meet me at the usual place".to_vec();
    let hidden = hide_data_in_png(&png, &secret, b"password").unwrap();
    assert_ne!(hidden, png);
    assert_eq!(extract_data_from_png(&hidden, b"password").unwrap(), secret);
    assert_eq!(decoded(&hidden).dimensions(), (32, 20));
    for (old, new) in decoded(&png).as_raw().iter().zip(decoded(&hidden).as_raw()) {
        assert_eq!(old / 2, new / 2);
    }
}

#[test]
fn png_salts_are_random() {
    let png = some_png(32, 20);
    let salt = |file: &[u8]| {
        let picture = decoded(file);
        let (width, height) = picture.dimensions();
        read_salt(&Raster { width, height, bytes: picture.into_raw() })
    };
    let first = hide_data_in_png(&png, b"x", b"password").unwrap();
    let second = hide_data_in_png(&png, b"x", b"password").unwrap();
    assert_ne!(salt(&first), salt(&second));
    let given = hide_data_with_salt(&png, b"x", b"password", &SALT).unwrap();
    assert_eq!(salt(&given), SALT.to_vec());
}

#[test]
fn png_with_a_given_salt() {
    let png = some_png(12, 12);
    let file = hide_data_with_salt(&png, b"secret", b"password", &SALT).unwrap();
    let expected = hide_in_raster(some_raster(12, 12), b"secret", b"password", &SALT).unwrap();
    assert_eq!(decoded(&file).into_raw(), expected.bytes);
    assert_eq!(file, hide_data_with_salt(&png, b"secret", b"password", &SALT).unwrap());
}

#[test]
fn pictures_without_alpha_become_opaque() {
    let picture = DynamicImage::ImageRgb8(RgbImage::from_fn(20, 20, |x, y| {
        image::Rgb([x as u8, y as u8, 200])
    }));
    let mut file = Vec::new();
    picture.write_to(&mut Cursor::new(&mut file), ImageFormat::Png).unwrap();
    let hidden = hide_data_in_png(&file, b"secret", b"password").unwrap();
    assert!(decoded(&hidden).pixels().all(|p| p[3] == 255));
    assert_eq!(extract_data_from_png(&hidden, b"password").unwrap(), b"secret");
}

#[test]
fn png_capacity() {
    let png = some_png(16, 16);
    let full = vec![1u8; 72];
    let hidden = hide_data_in_png(&png, &full, b"pw").unwrap();
    assert_eq!(extract_data_from_png(&hidden, b"pw").unwrap(), full);
    let error = hide_data_in_png(&png, &[1; 73], b"pw").err().unwrap();
    assert!(matches!(error, StegoError::TooLarge));
    assert_eq!(error.message(), "Данные слишком велики для этого изображения");
}

#[test]
fn other_files_are_no_pictures() {
    for data in [&b""[..], &b"not a picture"[..]] {
        let error = hide_data_in_png(data, b"x", b"pw").err().unwrap();
        assert!(matches!(error, StegoError::Image(_)));
        assert!(!error.message().is_empty());
        assert_eq!(error.message_with("broken"), "broken");
        assert!(matches!(extract_data_from_png(data, b"pw").err().unwrap(), StegoError::Image(_)));
        assert!(matches!(
            extract_data_if_possible(data, b"pw").unwrap().err().unwrap(),
            StegoError::Image(_)
        ));
    }
    let truncated = &some_png(16, 16)[..60];
    assert!(matches!(hide_data_in_png(truncated, b"x", b"pw"), Err(StegoError::Image(_))));
}

#[test]
fn only_png_files_are_pictures() {
    let bitmap = [
        0x42u8, 0x4D, 58, 0, 0, 0, 0, 0, 0, 0, 54, 0, 0, 0, 40, 0, 0, 0, 1, 0, 0, 0, 1, 0, 0, 0, 1, 0,
        24, 0, 0, 0, 0, 0, 4, 0, 0, 0, 0, 0, 0, 0, 0, 0, 0, 0, 0, 0, 0, 0, 0, 0, 0, 0, 1, 2, 3, 0,
    ];
    let portable = b"P6 1 1 255 abc";
    let tiff = [0x49u8, 0x49, 0x2A, 0, 8, 0, 0, 0, 0, 0, 0, 0, 0, 0];
    let jpeg = [0xFFu8, 0xD8, 0xFF, 0xE0, 0, 16];
    for data in [&bitmap[..], &portable[..], &tiff[..], &jpeg[..], &some_png(9, 9)[1..]] {
        assert!(matches!(hide_data_in_png(data, b"", b"pw"), Err(StegoError::Image(_))));
        assert!(matches!(extract_data_from_png(data, b"pw"), Err(StegoError::Image(_))));
        assert!(matches!(
            extract_data_if_possible(data, b"pw"),
            Some(Err(StegoError::Image(_)))
        ));
    }
}

#[test]
fn sixteen_bit_pictures_are_rounded() {
    let picture = DynamicImage::ImageRgb16(image::ImageBuffer::from_fn(12, 12, |x, y| {
        image::Rgb([65_535u16, (x * 257) as u16, (y * 257 + 128) as u16])
    }));
    let mut file = Vec::new();
    picture.write_to(&mut Cursor::new(&mut file), ImageFormat::Png).unwrap();
    let hidden = hide_data_with_salt(&file, b"secret", b"password", &SALT).unwrap();
    for (x, y, pixel) in decoded(&hidden).enumerate_pixels() {
        assert_eq!(pixel[0] / 2, 127);
        assert_eq!(pixel[1] / 2, x as u8 / 2);
        assert_eq!(pixel[2] / 2, y as u8 / 2);
        assert_eq!(pixel[3], 255);
    }
    assert_eq!(extract_data_from_png(&hidden, b"password").unwrap(), b"secret");
}

#[test]
fn small_pictures() {
    assert!(extract_data_if_possible(&some_png(6, 7), b"pw").is_none());
    let none = extract_data_if_possible(&some_png(43, 1), b"pw").unwrap().err().unwrap();
    assert!(matches!(none, StegoError::NoData));
    assert!(matches!(
        extract_data_from_png(&some_png(1, 61), b"pw").err().unwrap(),
        StegoError::NoData
    ));
    assert!(matches!(
        extract_data_if_possible(&some_png(8, 8), b"pw").unwrap().err().unwrap(),
        StegoError::WrongPassword
    ));
    let hidden = hide_data_in_png(&some_png(8, 8), b"", b"pw").unwrap();
    assert_eq!(extract_data_if_possible(&hidden, b"pw").unwrap().unwrap(), Vec::<u8>::new());
}
