//! Hiding data in the lowest bits of a picture's colours.
//!
//! What is hidden is a salt, a mark, the secret's length and the secret. The salt fills the first
//! slots of the picture in turn. All other bits go to the free slots, in an order of the pixels
//! that the password and the salt decide.
use crate::bits::{bits_of, law_packed_bits, lemma_bit_is_binary, pack_bits, packed, unpack_bits};
use crate::bytes::{
    be_bytes, be_value, lemma_be_bytes_len, lemma_be_round_trip, lemma_byte_ranges, u32_from_be,
    u32_to_be,
};
use crate::picture::{
    decode_picture, encode_png, is_png, picture_decoded, png_encoded, Raster, MAX_DECODED_BYTES,
};
use crate::primitives::{chacha20_word, random_array, sha256, sha256_of_pair};
use crate::slots::{
    as_ints, carriers, draw_words, is_permutation, law_carriers_are_permutation,
    law_shuffle_is_permutation, list_carriers, list_salt_slots, pixel_order, salt_slots,
    shuffle_words, shuffled, SALT_SLOTS,
};
use vstd::prelude::*;

verus! {

/// The mark between the salt and the length, `ACYP`.
pub const STEGO_MAGIC: [u8; 4] = [0x41, 0x43, 0x59, 0x50];

/// Length of the salt in bytes.
pub const STEGO_SALT_LEN: usize = 16;

/// Length in bytes of what is hidden besides the secret: the salt, the mark and the length.
pub const STEGO_HEADER_LEN: usize = 24;

/// Where the byte with a slot stands in a picture.
pub open spec fn slot_byte(slot: int) -> int {
    4 * (slot / 3) + slot % 3
}

/// A byte with its lowest bit replaced.
pub open spec fn with_bit(byte: u8, bit: u8) -> u8 {
    (byte & 0xFE) | bit
}

/// A picture after the first `count` bits have been put into their slots.
pub open spec fn embedded(bytes: Seq<u8>, slots: Seq<int>, bits: Seq<u8>, count: nat) -> Seq<u8>
    decreases count,
{
    if count == 0 {
        bytes
    } else {
        let before = embedded(bytes, slots, bits, (count - 1) as nat);
        let at = slot_byte(slots[count - 1]);
        before.update(at, with_bit(before[at], bits[count - 1]))
    }
}

/// The bits in the given slots of a picture.
pub open spec fn bits_in(bytes: Seq<u8>, slots: Seq<int>) -> Seq<u8> {
    Seq::new(slots.len(), |k: int| bytes[slot_byte(slots[k])] & 1)
}

/// What is hidden for a secret.
pub open spec fn payload(secret: Seq<u8>, salt: Seq<u8>) -> Seq<u8> {
    salt + STEGO_MAGIC@ + be_bytes(secret.len(), 4) + secret
}

/// Whether a picture has slots for a secret of the given length and all that goes with it.
pub open spec fn fits(secret_len: nat, pixels: nat) -> bool {
    STEGO_HEADER_LEN + secret_len <= 3 * pixels / 8
}

/// A picture with a secret hidden in it, where the pixels are in the given order.
pub open spec fn hidden(bytes: Seq<u8>, order: Seq<int>, secret: Seq<u8>, salt: Seq<u8>) -> Seq<
    u8,
> {
    let bits = bits_of(payload(secret, salt));
    embedded(bytes, carriers(order), bits, bits.len())
}

/// The salt in a picture.
pub open spec fn salt_in(bytes: Seq<u8>) -> Seq<u8> {
    packed(bits_in(bytes, salt_slots()))
}

/// All that a picture carries, where the pixels are in the given order.
pub open spec fn carried(bytes: Seq<u8>, order: Seq<int>) -> Seq<u8> {
    packed(bits_in(bytes, carriers(order)))
}

/// Why no data was hidden or found.
#[derive(Debug)]
pub enum StegoError {
    /// The picture could not be decoded or encoded.
    Image(image::ImageError),
    /// The picture has too few slots for the data.
    TooLarge,
    /// The picture has too few slots to hold anything.
    NoData,
    /// The mark is not there.
    WrongPassword,
    /// The length that was found is longer than the picture can carry.
    Corrupted,
}

/// A failure without what only the image codec knows of it.
pub enum StegoFailure {
    Image,
    TooLarge,
    NoData,
    WrongPassword,
    Corrupted,
}

impl View for StegoError {
    type V = StegoFailure;

    open spec fn view(&self) -> StegoFailure {
        match *self {
            StegoError::Image(_) => StegoFailure::Image,
            StegoError::TooLarge => StegoFailure::TooLarge,
            StegoError::NoData => StegoFailure::NoData,
            StegoError::WrongPassword => StegoFailure::WrongPassword,
            StegoError::Corrupted => StegoFailure::Corrupted,
        }
    }
}

/// The text shown for a failure; `image_text` is what the image codec says, where it failed.
pub open spec fn stego_failure_text(failure: StegoFailure, image_text: Seq<char>) -> Seq<char> {
    match failure {
        StegoFailure::Image => image_text,
        StegoFailure::TooLarge => "Данные слишком велики для этого изображения"@,
        StegoFailure::NoData => "Нет данных"@,
        StegoFailure::WrongPassword => "Неверный пароль или повреждённый контейнер"@,
        StegoFailure::Corrupted => "Повреждённые данные"@,
    }
}

/// The secret in what a picture carries, or why there is none.
pub open spec fn revealed(bytes: Seq<u8>) -> Result<Seq<u8>, StegoFailure> {
    if bytes.len() < STEGO_HEADER_LEN {
        Err(StegoFailure::NoData)
    } else if bytes.subrange(16, 20) != STEGO_MAGIC@ {
        Err(StegoFailure::WrongPassword)
    } else {
        let len = be_value(bytes.subrange(20, 24)) as int;
        if bytes.len() < STEGO_HEADER_LEN + len {
            Err(StegoFailure::Corrupted)
        } else {
            Ok(bytes.subrange(24, 24 + len))
        }
    }
}

/// The order of a picture's pixels that a password and a salt decide.
pub open spec fn order_for(password: Seq<u8>, salt: Seq<u8>, pixels: nat) -> Seq<int> {
    pixel_order(shuffle_words(sha256(password + salt), pixels))
}

/// The secret in a picture under a password, or why there is none.
pub open spec fn extracted(bytes: Seq<u8>, pixels: nat, password: Seq<u8>) -> Result<
    Seq<u8>,
    StegoFailure,
> {
    revealed(carried(bytes, order_for(password, salt_in(bytes), pixels)))
}

/// The width, height and RGBA bytes of the picture in a file with a secret hidden in it, or why
/// there is none.
pub open spec fn hidden_picture(
    file: Seq<u8>,
    secret: Seq<u8>,
    password: Seq<u8>,
    salt: Seq<u8>,
) -> Result<(u32, u32, Seq<u8>), StegoFailure> {
    match picture_decoded(file) {
        None => Err(StegoFailure::Image),
        Some((width, height, bytes)) => {
            let pixels = width as nat * height as nat;
            if fits(secret.len(), pixels) {
                let order = order_for(password, salt, pixels);
                Ok((width, height, hidden(bytes, order, secret, salt)))
            } else {
                Err(StegoFailure::TooLarge)
            }
        },
    }
}

/// The PNG file with a secret hidden in the picture of a file, or why there is none.
pub open spec fn hidden_in_file(
    file: Seq<u8>,
    secret: Seq<u8>,
    password: Seq<u8>,
    salt: Seq<u8>,
) -> Result<Seq<u8>, StegoFailure> {
    match hidden_picture(file, secret, password, salt) {
        Err(failure) => Err(failure),
        Ok((width, height, bytes)) => Ok(png_encoded(width, height, bytes)),
    }
}

/// The secret in a picture file under a password, or why there is none.
pub open spec fn extracted_from_file(file: Seq<u8>, password: Seq<u8>) -> Result<
    Seq<u8>,
    StegoFailure,
> {
    match picture_decoded(file) {
        None => Err(StegoFailure::Image),
        Some((width, height, bytes)) => extracted(bytes, width as nat * height as nat, password),
    }
}

/// Number of pixels of a picture file; none where it cannot be decoded.
pub open spec fn pixels_of_file(file: Seq<u8>) -> nat {
    match picture_decoded(file) {
        None => 0,
        Some((width, height, _)) => width as nat * height as nat,
    }
}

/// Whether a picture file decodes to a picture that is too small to hold a salt.
pub open spec fn too_small_for_salt(file: Seq<u8>) -> bool {
    is_png(file) && picture_decoded(file) is Some && 3 * pixels_of_file(file) < SALT_SLOTS
}

/// Whether a file that a secret was hidden in reads as the picture that it was made from, with the
/// secret in it, and gives the secret back.
pub open spec fn reads_back(
    file: Seq<u8>,
    original: Seq<u8>,
    secret: Seq<u8>,
    password: Seq<u8>,
    salt: Seq<u8>,
) -> bool {
    &&& hidden_picture(original, secret, password, salt) matches Ok(picture)
    &&& picture_decoded(file) == Some(picture)
    &&& pixels_of_file(file) == pixels_of_file(original)
    &&& !too_small_for_salt(file)
    &&& extracted_from_file(file, password) == Ok::<Seq<u8>, StegoFailure>(secret)
}

/// Different slots are in different bytes, none of them an alpha byte.
proof fn lemma_slot_bytes(a: int, b: int, pixels: nat)
    requires
        0 <= a < 3 * pixels,
        0 <= b < 3 * pixels,
    ensures
        0 <= slot_byte(a) < 4 * pixels,
        slot_byte(a) % 4 != 3,
        slot_byte(a) == slot_byte(b) ==> a == b,
{
}

/// Each bit put into its slot is there, and no other byte changes.
pub proof fn law_embedding(bytes: Seq<u8>, slots: Seq<int>, bits: Seq<u8>, count: nat, pixels: nat)
    requires
        bytes.len() == 4 * pixels,
        is_permutation(slots, 3 * pixels),
        count <= slots.len(),
    ensures
        embedded(bytes, slots, bits, count).len() == bytes.len(),
        forall|k: int|
            #![trigger slots[k]]
            0 <= k < count ==> embedded(bytes, slots, bits, count)[slot_byte(slots[k])]
                == with_bit(bytes[slot_byte(slots[k])], bits[k]),
        forall|b: int|
            #![trigger embedded(bytes, slots, bits, count)[b]]
            0 <= b < bytes.len() && (forall|k: int| 0 <= k < count ==> slot_byte(slots[k]) != b)
                ==> embedded(bytes, slots, bits, count)[b] == bytes[b],
    decreases count,
{
    if count > 0 {
        let prior = (count - 1) as nat;
        law_embedding(bytes, slots, bits, prior, pixels);
        let before = embedded(bytes, slots, bits, prior);
        let after = embedded(bytes, slots, bits, count);
        let last = slots[count - 1];
        let at = slot_byte(last);
        lemma_slot_bytes(last, last, pixels);
        assert(forall|k: int| 0 <= k < prior ==> slot_byte(slots[k]) != at) by {
            assert forall|k: int| 0 <= k < prior implies slot_byte(slots[k]) != at by {
                lemma_slot_bytes(slots[k], last, pixels);
            }
        }
        assert(before[at] == bytes[at]);
        assert forall|k: int|
            #![trigger slots[k]]
            0 <= k < count implies after[slot_byte(slots[k])] == with_bit(
            bytes[slot_byte(slots[k])],
            bits[k],
        ) by {
            lemma_slot_bytes(slots[k], last, pixels);
        }
        assert forall|b: int|
            #![trigger after[b]]
            0 <= b < bytes.len() && (forall|k: int|
                0 <= k < count ==> slot_byte(slots[k]) != b) implies after[b] == bytes[b] by {
            assert(slot_byte(slots[count - 1]) != b);
            assert(before[b] == bytes[b]);
        }
    }
}

/// The order that a password and a salt decide has every pixel once.
pub proof fn law_order_is_permutation(password: Seq<u8>, salt: Seq<u8>, pixels: nat)
    requires
        pixels > 0,
    ensures
        is_permutation(order_for(password, salt, pixels), pixels),
{
    let words = shuffle_words(sha256(password + salt), pixels);
    law_shuffle_is_permutation(words, words.len());
}

/// Lengths of what is hidden.
proof fn lemma_payload(secret: Seq<u8>, salt: Seq<u8>)
    requires
        salt.len() == STEGO_SALT_LEN,
        secret.len() <= u32::MAX,
    ensures
        payload(secret, salt).len() == STEGO_HEADER_LEN + secret.len(),
        payload(secret, salt).take(16) == salt,
        payload(secret, salt).subrange(16, 20) == STEGO_MAGIC@,
        be_value(payload(secret, salt).subrange(20, 24)) == secret.len(),
        payload(secret, salt).skip(24) == secret,
{
    let whole = payload(secret, salt);
    lemma_byte_ranges();
    lemma_be_bytes_len(secret.len(), 4);
    lemma_be_round_trip(secret.len(), 4);
    assert(whole.take(16) =~= salt);
    assert(whole.subrange(16, 20) =~= STEGO_MAGIC@);
    assert(whole.subrange(20, 24) =~= be_bytes(secret.len(), 4));
    assert(whole.skip(24) =~= secret);
}

/// Hiding changes nothing but the lowest bits of colours: alpha bytes stay, and so do the seven
/// higher bits of every other byte.
pub proof fn law_hiding_is_subtle(
    bytes: Seq<u8>,
    order: Seq<int>,
    secret: Seq<u8>,
    salt: Seq<u8>,
    pixels: nat,
    b: int,
)
    requires
        bytes.len() == 4 * pixels,
        is_permutation(order, pixels),
        salt.len() == STEGO_SALT_LEN,
        secret.len() <= u32::MAX,
        fits(secret.len(), pixels),
        0 <= b < bytes.len(),
    ensures
        hidden(bytes, order, secret, salt).len() == bytes.len(),
        b % 4 == 3 ==> hidden(bytes, order, secret, salt)[b] == bytes[b],
        hidden(bytes, order, secret, salt)[b] / 2 == bytes[b] / 2,
{
    let slots = carriers(order);
    let bits = bits_of(payload(secret, salt));
    let after = hidden(bytes, order, secret, salt);
    lemma_payload(secret, salt);
    law_carriers_are_permutation(order);
    law_embedding(bytes, slots, bits, bits.len(), pixels);
    if exists|k: int| 0 <= k < bits.len() && slot_byte(#[trigger] slots[k]) == b {
        let k = choose|k: int| 0 <= k < bits.len() && slot_byte(#[trigger] slots[k]) == b;
        lemma_slot_bytes(slots[k], slots[k], pixels);
        lemma_bit_is_binary(payload(secret, salt), k);
        let byte = bytes[b];
        let bit = bits[k];
        assert(after[b] == with_bit(byte, bit));
        assert(((byte & 0xFE) | bit) / 2 == byte / 2) by (bit_vector)
            requires
                bit <= 1,
        ;
    } else {
        assert(after[b] == bytes[b]);
    }
}

/// What was hidden is carried again, whatever order the pixels are in.
pub proof fn law_hidden_is_carried(
    bytes: Seq<u8>,
    order: Seq<int>,
    secret: Seq<u8>,
    salt: Seq<u8>,
    pixels: nat,
)
    requires
        bytes.len() == 4 * pixels,
        is_permutation(order, pixels),
        salt.len() == STEGO_SALT_LEN,
        secret.len() <= u32::MAX,
        fits(secret.len(), pixels),
    ensures
        salt_in(hidden(bytes, order, secret, salt)) == salt,
        revealed(carried(hidden(bytes, order, secret, salt), order)) == Ok::<Seq<u8>, StegoFailure>(
            secret,
        ),
{
    let slots = carriers(order);
    let whole = payload(secret, salt);
    let bits = bits_of(whole);
    let after = hidden(bytes, order, secret, salt);
    lemma_payload(secret, salt);
    law_carriers_are_permutation(order);
    law_embedding(bytes, slots, bits, bits.len(), pixels);
    assert forall|k: int| 0 <= k < bits.len() implies after[slot_byte(#[trigger] slots[k])] & 1
        == bits[k] by {
        lemma_bit_is_binary(whole, k);
        let byte = bytes[slot_byte(slots[k])];
        let bit = bits[k];
        assert(after[slot_byte(slots[k])] == with_bit(byte, bit));
        assert(((byte & 0xFE) | bit) & 1 == bit) by (bit_vector)
            requires
                bit <= 1,
        ;
    }
    let first = bits_in(after, salt_slots());
    assert forall|k: int| 0 <= k < 128 implies first[k] == bits_of(salt)[k] by {
        assert(slots[k] == k);
        assert(after[slot_byte(slots[k])] & 1 == bits[k]);
        assert(whole.take(16)[k / 8] == whole[k / 8]);
    }
    assert(first.take(128) =~= bits_of(salt));
    law_packed_bits(salt, first);
    assert(packed(first).take(16) =~= packed(first));
    let all = bits_in(after, slots);
    assert(all.take(8 * whole.len() as int) =~= bits);
    law_packed_bits(whole, all);
    let bytes_carried = carried(after, order);
    assert(bytes_carried.take(whole.len() as int) == whole);
    assert(bytes_carried.subrange(16, 20) =~= whole.subrange(16, 20)) by {
        assert forall|i: int| 16 <= i < 20 implies bytes_carried[i] == whole[i] by {
            assert(bytes_carried.take(whole.len() as int)[i] == whole[i]);
        }
    }
    assert(bytes_carried.subrange(20, 24) =~= whole.subrange(20, 24)) by {
        assert forall|i: int| 20 <= i < 24 implies bytes_carried[i] == whole[i] by {
            assert(bytes_carried.take(whole.len() as int)[i] == whole[i]);
        }
    }
    assert(bytes_carried.subrange(24, whole.len() as int) =~= whole.skip(24)) by {
        assert forall|i: int| 24 <= i < whole.len() implies bytes_carried[i] == whole[i] by {
            assert(bytes_carried.take(whole.len() as int)[i] == whole[i]);
        }
    }
}

/// Data hidden in a picture is extracted from it with the same password.
pub proof fn law_round_trip(
    bytes: Seq<u8>,
    secret: Seq<u8>,
    password: Seq<u8>,
    salt: Seq<u8>,
    pixels: nat,
)
    requires
        bytes.len() == 4 * pixels,
        salt.len() == STEGO_SALT_LEN,
        secret.len() <= u32::MAX,
        fits(secret.len(), pixels),
    ensures
        extracted(
            hidden(bytes, order_for(password, salt, pixels), secret, salt),
            pixels,
            password,
        ) == Ok::<Seq<u8>, StegoFailure>(secret),
{
    law_order_is_permutation(password, salt, pixels);
    law_hidden_is_carried(bytes, order_for(password, salt, pixels), secret, salt, pixels);
}

/// The text of `image::ImageError`, which is the codec's own.
#[verifier::external_body]
fn image_error_text(error: &image::ImageError) -> String {
    error.to_string()
}

impl StegoError {
    /// The text shown for this failure, where `image_text` is what the image codec says of it.
    pub fn message_with(&self, image_text: &str) -> (text: String)
        ensures
            text@ == stego_failure_text(self@, image_text@),
    {
        match self {
            StegoError::Image(_) => image_text.to_owned(),
            StegoError::TooLarge => "Данные слишком велики для этого изображения".to_owned(),
            StegoError::NoData => "Нет данных".to_owned(),
            StegoError::WrongPassword => "Неверный пароль или повреждённый контейнер".to_owned(),
            StegoError::Corrupted => "Повреждённые данные".to_owned(),
        }
    }

    /// The text shown for this failure.
    pub fn message(&self) -> (text: String)
        ensures
            exists|image_text: Seq<char>|
                text@ == #[trigger] stego_failure_text(self@, image_text),
            !(self@ is Image) ==> text@ == stego_failure_text(self@, Seq::empty()),
    {
        let image_text: String = match self {
            StegoError::Image(error) => image_error_text(error),
            _ => String::new(),
        };
        self.message_with(image_text.as_str())
    }
}

/// Whether a picture has slots for a secret of the given length and all that goes with it.
pub fn has_room(secret_len: usize, pixels: usize) -> (room: bool)
    requires
        4 * pixels <= usize::MAX,
    ensures
        room == fits(secret_len as nat, pixels as nat),
        room == (8 * (24 + secret_len) <= 3 * pixels),
{
    let max_bytes: usize = pixels * 3 / 8;
    max_bytes >= STEGO_HEADER_LEN && secret_len <= max_bytes - STEGO_HEADER_LEN
}

/// What is hidden for a secret.
pub fn build_payload(secret: &[u8], salt: &[u8; 16]) -> (bytes: Vec<u8>)
    requires
        secret@.len() <= u32::MAX,
    ensures
        bytes@ == payload(secret@, salt@),
{
    let mut bytes: Vec<u8> = Vec::new();
    bytes.extend_from_slice(salt);
    bytes.extend_from_slice(&STEGO_MAGIC);
    bytes.extend_from_slice(&u32_to_be(secret.len() as u32));
    bytes.extend_from_slice(secret);
    assert(bytes@ =~= payload(secret@, salt@));
    bytes
}

/// Puts bits into slots of a picture.
pub fn embed_bits(bytes: &mut Vec<u8>, slots: &[usize], bits: &[u8])
    requires
        bits@.len() <= slots@.len(),
        is_permutation(as_ints(slots@), 3 * (old(bytes)@.len() / 4)),
        old(bytes)@.len() % 4 == 0,
    ensures
        final(bytes)@ == embedded(old(bytes)@, as_ints(slots@), bits@, bits@.len()),
{
    let ghost before = bytes@;
    let ghost pixels = before.len() / 4;
    let len: usize = bits.len();
    let size: usize = bytes.len();
    let mut k: usize = 0;
    while k < len
        invariant
            k <= len == bits@.len(),
            len <= slots@.len(),
            size == before.len() == 4 * pixels,
            is_permutation(as_ints(slots@), 3 * pixels),
            bytes@ == embedded(before, as_ints(slots@), bits@, k as nat),
        decreases len - k,
    {
        let slot: usize = slots[k];
        proof {
            assert(slot == as_ints(slots@)[k as int]);
            lemma_slot_bytes(slot as int, slot as int, pixels);
            law_embedding(before, as_ints(slots@), bits@, k as nat, pixels);
        }
        let at: usize = 4 * (slot / 3) + slot % 3;
        let byte: u8 = bytes[at];
        bytes[at] = (byte & 0xFE) | bits[k];
        k = k + 1;
    }
}

/// The bits in the given slots of a picture.
pub fn read_bits(bytes: &[u8], slots: &[usize]) -> (bits: Vec<u8>)
    requires
        forall|k: int| 0 <= k < slots@.len() ==> 3 * bytes@.len() > 4 * slots@[k],
        bytes@.len() % 4 == 0,
    ensures
        bits@ == bits_in(bytes@, as_ints(slots@)),
{
    let len: usize = slots.len();
    let size: usize = bytes.len();
    let mut bits: Vec<u8> = Vec::with_capacity(len);
    while bits.len() < len
        invariant
            bits@.len() <= len == slots@.len(),
            size == bytes@.len(),
            forall|k: int| 0 <= k < slots@.len() ==> 3 * bytes@.len() > 4 * slots@[k],
            bytes@.len() % 4 == 0,
            forall|k: int|
                0 <= k < bits@.len() ==> bits@[k] == bytes@[slot_byte(as_ints(slots@)[k])] & 1,
        decreases len - bits@.len(),
    {
        let slot: usize = slots[bits.len()];
        bits.push(bytes[4 * (slot / 3) + slot % 3] & 1);
    }
    assert(bits@ =~= bits_in(bytes@, as_ints(slots@)));
    bits
}

/// Hides a secret in a picture whose pixels the given words shuffle.
///
/// Refused exactly where the picture has too few slots.
pub fn hide_with_words(raster: Raster, secret: &[u8], salt: &[u8; 16], words: &[u64]) -> (result:
    Result<Raster, StegoError>)
    requires
        raster.wf(),
        words@.len() + 1 == raster.pixels(),
    ensures
        match result {
            Ok(changed) => fits(secret@.len(), raster.pixels()) && changed.wf() && changed.width
                == raster.width && changed.height == raster.height && changed.bytes@ == hidden(
                raster.bytes@,
                pixel_order(words@),
                secret@,
                salt@,
            ),
            Err(error) => error@ == StegoFailure::TooLarge && !fits(
                secret@.len(),
                raster.pixels(),
            ),
        },
        result is Ok == (8 * (24 + secret@.len()) <= 3 * raster.pixels()),
{
    let pixels: usize = raster.pixel_count();
    if !has_room(secret.len(), pixels) {
        return Err(StegoError::TooLarge);
    }
    let whole: Vec<u8> = build_payload(secret, salt);
    proof {
        lemma_payload(secret@, salt@);
        law_shuffle_is_permutation(words@, words@.len());
        law_carriers_are_permutation(pixel_order(words@));
    }
    let bits: Vec<u8> = unpack_bits(whole.as_slice());
    let slots: Vec<usize> = list_carriers(words);
    let width: u32 = raster.width;
    let height: u32 = raster.height;
    let mut bytes: Vec<u8> = raster.bytes;
    proof {
        law_embedding(bytes@, as_ints(slots@), bits@, bits@.len(), pixels as nat);
    }
    embed_bits(&mut bytes, slots.as_slice(), bits.as_slice());
    Ok(Raster { width, height, bytes })
}

/// Hides a secret in a picture, in the order that the password and the salt decide.
///
/// Refused exactly where the picture has too few slots. What is hidden is extracted again with the
/// same password.
pub fn hide_in_raster(raster: Raster, secret: &[u8], password: &[u8], salt: &[u8; 16]) -> (result:
    Result<Raster, StegoError>)
    requires
        raster.wf(),
    ensures
        match result {
            Ok(changed) => fits(secret@.len(), raster.pixels()) && changed.wf() && changed.width
                == raster.width && changed.height == raster.height && changed.bytes@ == hidden(
                raster.bytes@,
                order_for(password@, salt@, raster.pixels()),
                secret@,
                salt@,
            ) && extracted(changed.bytes@, changed.pixels(), password@) == Ok::<
                Seq<u8>,
                StegoFailure,
            >(secret@),
            Err(error) => error@ == StegoFailure::TooLarge && !fits(
                secret@.len(),
                raster.pixels(),
            ),
        },
        result is Ok == (8 * (24 + secret@.len()) <= 3 * raster.pixels()),
        result matches Ok(changed) ==> changed.bytes@ == hidden(
            raster.bytes@,
            pixel_order(shuffle_words(sha256(password@ + salt@), raster.pixels())),
            secret@,
            salt@,
        ),
{
    let pixels: usize = raster.pixel_count();
    if !has_room(secret.len(), pixels) {
        return Err(StegoError::TooLarge);
    }
    let words: Vec<u64> = draw_words(sha256_of_pair(password, salt), pixels);
    proof {
        law_round_trip(raster.bytes@, secret@, password@, salt@, pixels as nat);
    }
    hide_with_words(raster, secret, salt, words.as_slice())
}

/// The secret in what a picture carries, or why there is none.
pub fn reveal_secret(bytes: &[u8]) -> (result: Result<Vec<u8>, StegoError>)
    ensures
        match result {
            Ok(secret) => revealed(bytes@) == Ok::<Seq<u8>, StegoFailure>(secret@),
            Err(error) => revealed(bytes@) == Err::<Seq<u8>, StegoFailure>(error@),
        },
{
    if bytes.len() < STEGO_HEADER_LEN {
        return Err(StegoError::NoData);
    }
    let marked: bool = bytes[16] == STEGO_MAGIC[0] && bytes[17] == STEGO_MAGIC[1] && bytes[18]
        == STEGO_MAGIC[2] && bytes[19] == STEGO_MAGIC[3];
    proof {
        let mark = bytes@.subrange(16, 20);
        assert(mark[0] == bytes@[16] && mark[1] == bytes@[17] && mark[2] == bytes@[18] && mark[3]
            == bytes@[19]);
        assert(marked ==> mark =~= STEGO_MAGIC@);
    }
    if !marked {
        return Err(StegoError::WrongPassword);
    }
    let len: u32 = u32_from_be(bytes, 20);
    if ((bytes.len() - STEGO_HEADER_LEN) as u64) < len as u64 {
        return Err(StegoError::Corrupted);
    }
    let mut secret: Vec<u8> = Vec::new();
    secret.extend_from_slice(
        vstd::slice::slice_subrange(bytes, STEGO_HEADER_LEN, STEGO_HEADER_LEN + len as usize),
    );
    assert(secret@ =~= bytes@.subrange(24, 24 + len));
    Ok(secret)
}

/// The salt in a picture.
pub fn read_salt(raster: &Raster) -> (salt: Vec<u8>)
    requires
        raster.wf(),
        3 * raster.pixels() >= SALT_SLOTS,
    ensures
        salt@ == salt_in(raster.bytes@),
        salt@.len() == STEGO_SALT_LEN,
{
    let slots: Vec<usize> = list_salt_slots();
    proof {
        assert(slots@.len() == as_ints(slots@).len());
        assert forall|k: int| 0 <= k < slots@.len() implies 3 * raster.bytes@.len() > 4
            * slots@[k] by {
            assert(slots@[k] == as_ints(slots@)[k]);
        }
    }
    let bits: Vec<u8> = read_bits(raster.bytes.as_slice(), slots.as_slice());
    pack_bits(bits.as_slice())
}

/// Extracts a secret from a picture whose pixels the given words shuffle.
pub fn extract_with_words(raster: &Raster, words: &[u64]) -> (result: Result<Vec<u8>, StegoError>)
    requires
        raster.wf(),
        words@.len() + 1 == raster.pixels(),
        3 * raster.pixels() >= SALT_SLOTS,
    ensures
        match result {
            Ok(secret) => revealed(carried(raster.bytes@, pixel_order(words@))) == Ok::<
                Seq<u8>,
                StegoFailure,
            >(secret@),
            Err(error) => revealed(carried(raster.bytes@, pixel_order(words@))) == Err::<
                Seq<u8>,
                StegoFailure,
            >(error@),
        },
{
    let pixels: usize = raster.pixel_count();
    let slots: Vec<usize> = list_carriers(words);
    proof {
        law_shuffle_is_permutation(words@, words@.len());
        law_carriers_are_permutation(pixel_order(words@));
        assert forall|k: int| 0 <= k < slots@.len() implies 3 * raster.bytes@.len() > 4
            * slots@[k] by {
            assert(slots@[k] == as_ints(slots@)[k]);
        }
    }
    let bits: Vec<u8> = read_bits(raster.bytes.as_slice(), slots.as_slice());
    let bytes: Vec<u8> = pack_bits(bits.as_slice());
    reveal_secret(bytes.as_slice())
}

/// Extracts a secret from a picture: the salt first, from its fixed place, and then the rest, in the
/// order that the password and the salt decide.
pub fn extract_from_raster(raster: &Raster, password: &[u8]) -> (result: Result<
    Vec<u8>,
    StegoError,
>)
    requires
        raster.wf(),
        3 * raster.pixels() >= SALT_SLOTS,
    ensures
        match result {
            Ok(secret) => extracted(raster.bytes@, raster.pixels(), password@) == Ok::<
                Seq<u8>,
                StegoFailure,
            >(secret@),
            Err(error) => extracted(raster.bytes@, raster.pixels(), password@) == Err::<
                Seq<u8>,
                StegoFailure,
            >(error@),
        },
        ({
            let seed = sha256(password@ + salt_in(raster.bytes@));
            let order = pixel_order(shuffle_words(seed, raster.pixels()));
            match result {
                Ok(secret) => revealed(carried(raster.bytes@, order)) == Ok::<
                    Seq<u8>,
                    StegoFailure,
                >(secret@),
                Err(error) => revealed(carried(raster.bytes@, order)) == Err::<
                    Seq<u8>,
                    StegoFailure,
                >(error@),
            }
        }),
{
    let salt: Vec<u8> = read_salt(raster);
    let words: Vec<u64> = draw_words(
        sha256_of_pair(password, salt.as_slice()),
        raster.pixel_count(),
    );
    extract_with_words(raster, words.as_slice())
}

/// Hides a secret in a PNG file under a given salt, and gives the result as a PNG file.
///
/// Other files are refused. Up to the size that the image codec decodes, the result reads as the
/// same picture with the secret in it.
pub fn hide_data_with_salt(png_data: &[u8], secret: &[u8], password: &[u8], salt: &[u8; 16]) -> (result:
    Result<Vec<u8>, StegoError>)
    ensures
        match result {
            Ok(file) => hidden_in_file(png_data@, secret@, password@, salt@) == Ok::<
                Seq<u8>,
                StegoFailure,
            >(file@),
            Err(error) => hidden_in_file(png_data@, secret@, password@, salt@) == Err::<
                Seq<u8>,
                StegoFailure,
            >(error@),
        },
        result matches Ok(file) ==> (4 * pixels_of_file(png_data@) <= MAX_DECODED_BYTES
            ==> reads_back(file@, png_data@, secret@, password@, salt@)),
        !is_png(png_data@) ==> result is Err && result->Err_0@ == StegoFailure::Image,
{
    let raster: Raster = match decode_picture(png_data) {
        Err(error) => {
            return Err(StegoError::Image(error));
        },
        Ok(raster) => raster,
    };
    let changed: Raster = match hide_in_raster(raster, secret, password, salt) {
        Err(error) => {
            return Err(error);
        },
        Ok(changed) => changed,
    };
    match encode_png(changed) {
        Err(error) => Err(StegoError::Image(error)),
        Ok(file) => Ok(file),
    }
}

/// Hides a secret in a PNG file under a random salt, and gives the result as a PNG file.
///
/// Other files are refused. Whatever the salt, the secret is extracted again with the same password,
/// unless the picture is larger than what the image codec decodes.
pub fn hide_data_in_png(png_data: &[u8], secret: &[u8], password: &[u8]) -> (result: Result<
    Vec<u8>,
    StegoError,
>)
    ensures
        exists|salt: Seq<u8>|
            {
                &&& salt.len() == STEGO_SALT_LEN
                &&& match result {
                    Ok(file) => #[trigger] hidden_in_file(png_data@, secret@, password@, salt)
                        == Ok::<Seq<u8>, StegoFailure>(file@) && (4 * pixels_of_file(png_data@)
                        <= MAX_DECODED_BYTES ==> reads_back(
                        file@,
                        png_data@,
                        secret@,
                        password@,
                        salt,
                    )),
                    Err(error) => hidden_in_file(png_data@, secret@, password@, salt) == Err::<
                        Seq<u8>,
                        StegoFailure,
                    >(error@),
                }
            },
        !is_png(png_data@) ==> result is Err && result->Err_0@ == StegoFailure::Image,
{
    let salt: [u8; 16] = random_array::<16>();
    hide_data_with_salt(png_data, secret, password, &salt)
}

/// Extracts a secret from a PNG file whose picture can hold a salt; other files are refused.
pub fn extract_data_from_png(png_data: &[u8], password: &[u8]) -> (result: Result<
    Vec<u8>,
    StegoError,
>)
    requires
        !too_small_for_salt(png_data@),
    ensures
        match result {
            Ok(secret) => extracted_from_file(png_data@, password@) == Ok::<Seq<u8>, StegoFailure>(
                secret@,
            ),
            Err(error) => extracted_from_file(png_data@, password@) == Err::<
                Seq<u8>,
                StegoFailure,
            >(error@),
        },
        !is_png(png_data@) ==> result is Err && result->Err_0@ == StegoFailure::Image,
{
    match decode_picture(png_data) {
        Err(error) => Err(StegoError::Image(error)),
        Ok(raster) => extract_from_raster(&raster, password),
    }
}

/// Extracts a secret from a PNG file, or gives nothing where the picture is too small to hold
/// a salt.
pub fn extract_data_if_possible(png_data: &[u8], password: &[u8]) -> (result: Option<
    Result<Vec<u8>, StegoError>,
>)
    ensures
        match result {
            None => too_small_for_salt(png_data@),
            Some(Ok(secret)) => !too_small_for_salt(png_data@) && extracted_from_file(
                png_data@,
                password@,
            ) == Ok::<Seq<u8>, StegoFailure>(secret@),
            Some(Err(error)) => !too_small_for_salt(png_data@) && extracted_from_file(
                png_data@,
                password@,
            ) == Err::<Seq<u8>, StegoFailure>(error@),
        },
        !is_png(png_data@) ==> (result matches Some(Err(error)) && error@ == StegoFailure::Image),
{
    match decode_picture(png_data) {
        Err(error) => Some(Err(StegoError::Image(error))),
        Ok(raster) => if 3 * raster.pixel_count() < SALT_SLOTS {
            None
        } else {
            Some(extract_data_from_png(png_data, password))
        },
    }
}

/// Each failure is seen as what it is.
pub proof fn law_stego_failures(error: StegoError)
    ensures
        match error {
            StegoError::Image(_) => error@ is Image,
            StegoError::TooLarge => error@ is TooLarge,
            StegoError::NoData => error@ is NoData,
            StegoError::WrongPassword => error@ is WrongPassword,
            StegoError::Corrupted => error@ is Corrupted,
        },
{
}

/// The text of each failure.
pub proof fn law_stego_failure_texts(image_text: Seq<char>)
    ensures
        stego_failure_text(StegoFailure::Image, image_text) == image_text,
        stego_failure_text(StegoFailure::TooLarge, image_text)
            == "Данные слишком велики для этого изображения"@,
        stego_failure_text(StegoFailure::NoData, image_text) == "Нет данных"@,
        stego_failure_text(StegoFailure::WrongPassword, image_text)
            == "Неверный пароль или повреждённый контейнер"@,
        stego_failure_text(StegoFailure::Corrupted, image_text) == "Повреждённые данные"@,
{
}

/// A secret of any length fits exactly where the picture has a slot for each bit of it and of the 24
/// bytes that go with it, counted in whole bytes.
pub proof fn law_room(secret_len: nat, pixels: nat)
    ensures
        fits(secret_len, pixels) == (8 * (24 + secret_len) <= 3 * pixels),
{
}

/// A slot is the lowest bit of one of a pixel's first three bytes: putting a bit there leaves the
/// other seven, and reading it gives the bit back.
pub proof fn law_slot(pixel: int, colour: int, byte: u8, bit: u8)
    requires
        0 <= pixel,
        0 <= colour < 3,
        bit <= 1,
    ensures
        slot_byte(3 * pixel + colour) == 4 * pixel + colour,
        with_bit(byte, bit) / 2 == byte / 2,
        with_bit(byte, bit) % 2 == bit,
{
    assert(((byte & 0xFE) | bit) / 2 == byte / 2 && ((byte & 0xFE) | bit) % 2 == bit)
        by (bit_vector)
        requires
            bit <= 1,
    ;
}

/// Reading slots gives the lowest bit of each slot's byte, in the order of the slots.
pub proof fn law_reading_slots(bytes: Seq<u8>, slots: Seq<int>, k: int)
    requires
        0 <= k < slots.len(),
    ensures
        bits_in(bytes, slots).len() == slots.len(),
        bits_in(bytes, slots)[k] == bytes[slot_byte(slots[k])] % 2,
{
    let byte = bytes[slot_byte(slots[k])];
    assert(byte & 1 == byte % 2) by (bit_vector);
}

/// What is hidden: sixteen bytes of salt, `ACYP`, the secret's length in four bytes, and the secret.
pub proof fn law_payload(secret: Seq<u8>, salt: Seq<u8>)
    requires
        salt.len() == 16,
        secret.len() <= 0xFFFF_FFFF,
    ensures
        payload(secret, salt).len() == 24 + secret.len(),
        payload(secret, salt).take(16) == salt,
        payload(secret, salt).subrange(16, 20) == seq![0x41u8, 0x43, 0x59, 0x50],
        be_value(payload(secret, salt).subrange(20, 24)) == secret.len(),
        payload(secret, salt).skip(24) == secret,
{
    lemma_payload(secret, salt);
    assert(STEGO_MAGIC@ =~= seq![0x41u8, 0x43, 0x59, 0x50]);
}

/// Where each bit goes: bit `k` of the payload is the lowest bit of the byte of carrier `k`, and all
/// bytes that carry nothing stay.
pub proof fn law_hidden_bits(
    bytes: Seq<u8>,
    order: Seq<int>,
    secret: Seq<u8>,
    salt: Seq<u8>,
    pixels: nat,
    k: int,
)
    requires
        bytes.len() == 4 * pixels,
        is_permutation(order, pixels),
        salt.len() == 16,
        secret.len() <= 0xFFFF_FFFF,
        8 * (24 + secret.len()) <= 3 * pixels,
        0 <= k < 3 * pixels,
    ensures
        ({
            let at = slot_byte(carriers(order)[k]);
            let whole = payload(secret, salt);
            let after = hidden(bytes, order, secret, salt);
            if k < 8 * (24 + secret.len()) {
                after[at] % 2 == bits_of(whole)[k] && after[at] / 2 == bytes[at] / 2
            } else {
                after[at] == bytes[at]
            }
        }),
{
    let slots = carriers(order);
    let whole = payload(secret, salt);
    let bits = bits_of(whole);
    let at = slot_byte(slots[k]);
    lemma_payload(secret, salt);
    law_carriers_are_permutation(order);
    law_embedding(bytes, slots, bits, bits.len(), pixels);
    lemma_slot_bytes(slots[k], slots[k], pixels);
    if k < bits.len() {
        lemma_bit_is_binary(whole, k);
        let byte = bytes[at];
        let bit = bits[k];
        assert(((byte & 0xFE) | bit) / 2 == byte / 2 && ((byte & 0xFE) | bit) % 2 == bit)
            by (bit_vector)
            requires
                bit <= 1,
        ;
    } else {
        assert forall|m: int| 0 <= m < bits.len() implies slot_byte(slots[m]) != at by {
            lemma_slot_bytes(slots[m], slots[k], pixels);
        }
    }
}

/// The salt of a picture is in its first 128 slots, in turn.
pub proof fn law_salt_place(bytes: Seq<u8>)
    ensures
        salt_in(bytes).len() == 16,
        salt_in(bytes) == packed(
            Seq::new(128, |k: int| (bytes[4 * (k / 3) + k % 3] % 2) as u8),
        ),
{
    let bits = bits_in(bytes, salt_slots());
    assert forall|k: int| 0 <= k < 128 implies bits[k] == bytes[4 * (k / 3) + k % 3] % 2 by {
        law_reading_slots(bytes, salt_slots(), k);
    }
    assert(bits =~= Seq::new(128, |k: int| (bytes[4 * (k / 3) + k % 3] % 2) as u8));
}

/// A picture carries the bits of all its slots, in the order of the carriers.
pub proof fn law_carried(bytes: Seq<u8>, order: Seq<int>)
    ensures
        carried(bytes, order) == packed(
            Seq::new(
                carriers(order).len(),
                |k: int|
                    (bytes[4 * (carriers(order)[k] / 3) + carriers(order)[k] % 3] % 2) as u8,
            ),
        ),
{
    let slots = carriers(order);
    let bits = bits_in(bytes, slots);
    assert forall|k: int| 0 <= k < slots.len() implies bits[k] == bytes[4 * (slots[k] / 3)
        + slots[k] % 3] % 2 by {
        law_reading_slots(bytes, slots, k);
    }
    assert(bits =~= Seq::new(
        slots.len(),
        |k: int| (bytes[4 * (slots[k] / 3) + slots[k] % 3] % 2) as u8,
    ));
}

/// What is found in the bytes that a picture carries: nothing in under 24 bytes; where `ACYP` is not
/// behind the first sixteen, the password is wrong; where the length that follows is more than there
/// is, the data is corrupted; and else the secret is that many bytes.
pub proof fn law_revealing(bytes: Seq<u8>)
    ensures
        ({
            let mark = seq![0x41u8, 0x43, 0x59, 0x50];
            let len = be_value(bytes.subrange(20, 24));
            if bytes.len() < 24 {
                revealed(bytes) == Err::<Seq<u8>, StegoFailure>(StegoFailure::NoData)
            } else if bytes.subrange(16, 20) != mark {
                revealed(bytes) == Err::<Seq<u8>, StegoFailure>(StegoFailure::WrongPassword)
            } else if bytes.len() < 24 + len {
                revealed(bytes) == Err::<Seq<u8>, StegoFailure>(StegoFailure::Corrupted)
            } else {
                revealed(bytes) == Ok::<Seq<u8>, StegoFailure>(bytes.subrange(24, 24 + len as int))
            }
        }),
{
    assert(STEGO_MAGIC@ =~= seq![0x41u8, 0x43, 0x59, 0x50]);
}

/// The order of the pixels comes from the ChaCha20 stream whose seed is the digest of the whole
/// password and, behind it, the salt.
pub proof fn law_order_of_password(password: Seq<u8>, salt: Seq<u8>, pixels: nat)
    requires
        pixels > 0,
    ensures
        ({
            let words = Seq::new(
                (pixels - 1) as nat,
                |i: int| chacha20_word(sha256(password + salt), i as nat),
            );
            order_for(password, salt, pixels) == shuffled(words, (pixels - 1) as nat)
        }),
{
    assert(shuffle_words(sha256(password + salt), pixels) =~= Seq::new(
        (pixels - 1) as nat,
        |i: int| chacha20_word(sha256(password + salt), i as nat),
    ));
}

/// Extraction reads the salt from its place, and all else in the order that the whole password and
/// that salt decide.
pub proof fn law_extraction(bytes: Seq<u8>, pixels: nat, password: Seq<u8>)
    requires
        pixels > 0,
    ensures
        ({
            let words = Seq::new(
                (pixels - 1) as nat,
                |i: int| chacha20_word(sha256(password + salt_in(bytes)), i as nat),
            );
            let order = shuffled(words, (pixels - 1) as nat);
            extracted(bytes, pixels, password) == revealed(carried(bytes, order))
        }),
{
    law_order_of_password(password, salt_in(bytes), pixels);
}

/// Hiding in a file: a file that does not decode is refused, then a secret that has no room; any
/// other gives the PNG file of the picture with the secret in it.
pub proof fn law_hiding_in_file(
    file: Seq<u8>,
    secret: Seq<u8>,
    password: Seq<u8>,
    salt: Seq<u8>,
)
    ensures
        match picture_decoded(file) {
            None => hidden_in_file(file, secret, password, salt) == Err::<Seq<u8>, StegoFailure>(
                StegoFailure::Image,
            ) && hidden_picture(file, secret, password, salt) is Err,
            Some((width, height, bytes)) => {
                let pixels = width as nat * height as nat;
                if 8 * (24 + secret.len()) > 3 * pixels {
                    hidden_in_file(file, secret, password, salt) == Err::<Seq<u8>, StegoFailure>(
                        StegoFailure::TooLarge,
                    ) && hidden_picture(file, secret, password, salt) is Err
                } else {
                    let words = Seq::new(
                        (pixels - 1) as nat,
                        |i: int| chacha20_word(sha256(password + salt), i as nat),
                    );
                    let order = shuffled(words, (pixels - 1) as nat);
                    hidden_in_file(file, secret, password, salt) == Ok::<Seq<u8>, StegoFailure>(
                        png_encoded(width, height, hidden(bytes, order, secret, salt)),
                    ) && hidden_picture(file, secret, password, salt) == Ok::<
                        (u32, u32, Seq<u8>),
                        StegoFailure,
                    >((width, height, hidden(bytes, order, secret, salt)))
                }
            },
        },
{
    if let Some((width, height, bytes)) = picture_decoded(file) {
        let pixels = width as nat * height as nat;
        if 8 * (24 + secret.len()) <= 3 * pixels {
            law_order_of_password(password, salt, pixels);
        }
    }
}

/// Extraction from a file is extraction from the picture that it decodes to, under the same password.
pub proof fn law_extraction_from_file(file: Seq<u8>, password: Seq<u8>)
    ensures
        match picture_decoded(file) {
            None => extracted_from_file(file, password) == Err::<Seq<u8>, StegoFailure>(
                StegoFailure::Image,
            ) && pixels_of_file(file) == 0,
            Some((width, height, bytes)) => extracted_from_file(file, password) == extracted(
                bytes,
                width as nat * height as nat,
                password,
            ) && pixels_of_file(file) == width * height,
        },
        too_small_for_salt(file) == (is_png(file) && (picture_decoded(file) matches Some(
            (width, height, _),
        ) && width * height < 43)),
{
}

/// What it is for a file to read back: it decodes to the picture of the original with the secret in
/// it, and the secret is extracted from it with the same password.
pub proof fn law_reading_back(
    file: Seq<u8>,
    original: Seq<u8>,
    secret: Seq<u8>,
    password: Seq<u8>,
    salt: Seq<u8>,
)
    requires
        reads_back(file, original, secret, password, salt),
    ensures
        extracted_from_file(file, password) == Ok::<Seq<u8>, StegoFailure>(secret),
        picture_decoded(original) matches Some((width, height, bytes)) && picture_decoded(file)
            == Some(
            (
                width,
                height,
                hidden(
                    bytes,
                    order_for(password, salt, width as nat * height as nat),
                    secret,
                    salt,
                ),
            ),
        ),
        !too_small_for_salt(file),
{
}

} // verus!
