//! Base64, the key blob, the generators, RSA and the XOR pads.
use zzzcap::b64::{b64_decode, b64_decode_fixed, b64_encode, b64_val, extract_xml_tag, to_zod_key, B64Error};
use zzzcap::ec2b::{
    derive_seed, derive_seed_from_b64, parse, scramble, unscramble_aes_key, Ec2bError, Ec2bKeys,
    Parsed, FINAL_XOR, KEY_SIZE, MAGIC, MIN_LEN, ROUND_KEYS_SIZE, SEED_SIZE,
};
use zzzcap::ec2b_tables::{G11, G13, G14, G9, SBOX, SBOX_INV, SHIFT_ROWS, SHIFT_ROWS_INV};
use zzzcap::mt19937::{Mt19937_64, NN};
use zzzcap::netrand::{client_rand_key, seed_from_unix_seconds, NetRandom, M_BIG};
use zzzcap::rsa;
use zzzcap::rsa::{decrypt_block, decrypt_multi, encipher_em, encrypt_block, Key, RsaError};
use zzzcap::xorpad::{generate, region, session, xor_bytes, xor_in_place, XorPad, PAD_SIZE};

#[test]
fn decodes_base64_ignoring_padding_and_whitespace() {
    assert_eq!(b64_decode("AQID"), vec![1, 2, 3]);
    assert_eq!(b64_decode("AQ\nID"), vec![1, 2, 3]);
    assert_eq!(b64_decode("AQI="), vec![1, 2]);
}

#[test]
fn encodes_what_the_decoder_reads_back() {
    // Known vectors, including both padding lengths.
    assert_eq!(b64_encode(b""), "");
    assert_eq!(b64_encode(b"a"), "YQ==");
    assert_eq!(b64_encode(b"ab"), "YWI=");
    assert_eq!(b64_encode(b"abc"), "YWJj");
    assert_eq!(b64_encode(&[1, 2, 3]), "AQID");

    // Round trip, including bytes that exercise the full alphabet.
    for len in 0..=200usize {
        let bytes: Vec<u8> = (0..len).map(|i| (i * 7 % 256) as u8).collect();
        assert_eq!(b64_decode(&b64_encode(&bytes)), bytes, "length {len}");
    }
}

#[test]
fn decode_fixed_rejects_wrong_length() {
    // "AQID" is 4 base64 characters, i.e. 3 bytes.
    assert_eq!(b64_decode_fixed::<3>("AQID").unwrap(), [1, 2, 3]);
    assert!(matches!(
        b64_decode_fixed::<4>("AQID"),
        Err(B64Error::SizeMismatch {
            expected: 4,
            actual: 3
        })
    ));
}

#[test]
fn extracts_xml_tags() {
    let xml = "<RSAKeyValue><Modulus>abc</Modulus></RSAKeyValue>";
    assert_eq!(
        extract_xml_tag(xml, "<Modulus>", "</Modulus>").unwrap(),
        "abc"
    );
    assert_eq!(
        extract_xml_tag(xml, "<Missing>", "</Missing>"),
        Err(B64Error::OpenTagNotFound)
    );
}

#[test]
fn zod_keys_concatenate_words_with_capitalised_initials() {
    assert_eq!(to_zod_key("Jane Doe"), "JaneDoe");
    assert_eq!(to_zod_key("Soldier 11"), "Soldier11");
    assert_eq!(to_zod_key("Rina's Wrench"), "RinasWrench");
    assert_eq!(to_zod_key("Qing-Yi"), "QingYi");
    assert_eq!(to_zod_key("hellfire  gears"), "HellfireGears");
    assert_eq!(to_zod_key(""), "");
}

#[test]
fn every_character_of_the_alphabet_has_its_value() {
    assert_eq!(b64_val(b'A'), 0);
    assert_eq!(b64_val(b'z'), 51);
    assert_eq!(b64_val(b'9'), 61);
    assert_eq!(b64_val(b'+'), 62);
    assert_eq!(b64_val(b'/'), 63);
    assert_eq!(
        extract_xml_tag("<D>never closed", "<D>", "</D>"),
        Err(B64Error::CloseTagNotFound)
    );
    let mismatch = B64Error::SizeMismatch { expected: 4, actual: 3 };
    assert_ne!(mismatch.to_string(), B64Error::OpenTagNotFound.to_string());
}

/// Round keys and pad of the tests' own.
fn keys() -> Ec2bKeys {
    let mut round_keys = [0u8; ROUND_KEYS_SIZE];
    for (i, byte) in round_keys.iter_mut().enumerate() {
        *byte = (i * 7 + 3) as u8;
    }
    Ec2bKeys { round_keys, key_xor_pad: [0x5A; KEY_SIZE] }
}

fn synthetic_blob(key: &[u8; 16], seed_byte: u8) -> Vec<u8> {
    let mut out = Vec::with_capacity(MIN_LEN + SEED_SIZE);
    out.extend_from_slice(&MAGIC.to_be_bytes());
    out.extend_from_slice(&(KEY_SIZE as u32).to_le_bytes());
    out.extend_from_slice(key);
    out.extend_from_slice(&(SEED_SIZE as u32).to_le_bytes());
    out.extend(std::iter::repeat(seed_byte).take(SEED_SIZE));
    out
}

#[test]
fn tables_match_the_values_the_cpp_header_ships() {
    // The standard AES inverse S-box: S[0x00] = 0x63, so InvS[0x63] = 0x00.
    assert_eq!(SBOX_INV[0x00], 0x52);
    assert_eq!(SBOX_INV[0x63], 0x00);
    assert_eq!(SBOX_INV[0x50], 0x6C);
    assert_eq!(G9[1], 0x09);
    assert_eq!(G14[1], 0x0E);
    assert_eq!(SHIFT_ROWS_INV[1], 0x0D);
}

#[test]
fn parses_a_well_formed_blob() {
    let blob = synthetic_blob(&[0x11; 16], 0x00);
    let parsed = parse(&blob, &keys()).unwrap();
    assert_eq!(parsed.seed, [0u8; SEED_SIZE]);
    // key = unscramble(scrambled) ^ pad, so it is reproducible and stable.
    assert_eq!(parsed.key, parse(&blob, &keys()).unwrap().key);
}

#[test]
fn rejects_malformed_blobs() {
    assert!(matches!(parse(&[0u8; 4], &keys()), Err(Ec2bError::TooShort(4))));

    let mut blob = synthetic_blob(&[0u8; 16], 0);
    blob[0] = 0x00;
    assert!(matches!(parse(&blob, &keys()), Err(Ec2bError::BadMagic(_))));

    let mut blob = synthetic_blob(&[0u8; 16], 0);
    blob[4] = 15;
    assert!(matches!(parse(&blob, &keys()), Err(Ec2bError::BadKeySize(15))));

    // The payload size is a little-endian u32 at offset 24: 2048 is
    // [0x00, 0x08, 0x00, 0x00], so zeroing byte 25 zeroes the field.
    let mut blob = synthetic_blob(&[0u8; 16], 0);
    blob[25] = 0;
    assert!(matches!(parse(&blob, &keys()), Err(Ec2bError::BadPayloadSize(0))));

    let blob = synthetic_blob(&[0u8; 16], 0);
    assert!(matches!(
        parse(&blob[..blob.len() - 1], &keys()),
        Err(Ec2bError::PayloadOutOfBounds)
    ));
}

#[test]
fn scramble_is_the_documented_xor_chain() {
    let parsed = Parsed {
        key: [
            1, 0, 0, 0, 0, 0, 0, 0, // k0 = 1
            2, 0, 0, 0, 0, 0, 0, 0, // k1 = 2
        ],
        seed: [0u8; SEED_SIZE],
    };
    // 256 words of zero leave val = !0, then ^ 1 ^ 2 ^ FINAL_XOR.
    assert_eq!(scramble(&parsed), u64::MAX ^ 1 ^ 2 ^ FINAL_XOR);

    let mut parsed = parsed;
    parsed.seed[0] = 0x0F;
    assert_eq!(
        scramble(&parsed),
        u64::MAX ^ 0x0F ^ 1 ^ 2 ^ FINAL_XOR,
        "seed words are read little-endian"
    );
}

/// The decryption round keys of the AES-128 key 00 01 .. 0F.
const STANDARD_ROUND_KEYS: [u8; ROUND_KEYS_SIZE] = [
    0x13, 0x11, 0x1D, 0x7F, 0xE3, 0x94, 0x4A, 0x17, 0xF3, 0x07, 0xA7, 0x8B, 0x4D, 0x2B, 0x30,
    0xC5, 0x13, 0xAA, 0x29, 0xBE, 0x9C, 0x8F, 0xAF, 0xF6, 0xF7, 0x70, 0xF5, 0x80, 0x00, 0xF7,
    0xBF, 0x03, 0x13, 0x62, 0xA4, 0x63, 0x8F, 0x25, 0x86, 0x48, 0x6B, 0xFF, 0x5A, 0x76, 0xF7,
    0x87, 0x4A, 0x83, 0x8D, 0x82, 0xFC, 0x74, 0x9C, 0x47, 0x22, 0x2B, 0xE4, 0xDA, 0xDC, 0x3E,
    0x9C, 0x78, 0x10, 0xF5, 0x72, 0xE3, 0x09, 0x8D, 0x11, 0xC5, 0xDE, 0x5F, 0x78, 0x9D, 0xFE,
    0x15, 0x78, 0xA2, 0xCC, 0xCB, 0x2E, 0xC4, 0x10, 0x27, 0x63, 0x26, 0xD7, 0xD2, 0x69, 0x58,
    0x20, 0x4A, 0x00, 0x3F, 0x32, 0xDE, 0xA8, 0xA2, 0xF5, 0x04, 0x4D, 0xE2, 0xC7, 0xF5, 0x0A,
    0x7E, 0xF7, 0x98, 0x69, 0x67, 0x12, 0x94, 0xC7, 0xC6, 0xE3, 0x91, 0xE5, 0x40, 0x32, 0xF1,
    0x47, 0x9C, 0x30, 0x6D, 0x63, 0x19, 0xE5, 0x0C, 0xA0, 0xDB, 0x02, 0x99, 0x22, 0x86, 0xD1,
    0x60, 0xA2, 0xDC, 0x02, 0x9C, 0x24, 0x85, 0xD5, 0x61, 0x8C, 0x56, 0xDF, 0xF0, 0x82, 0x5D,
    0xD3, 0xF9, 0x80, 0x5A, 0xD3, 0xFC, 0x86, 0x59, 0xD7, 0xFD, 0x00, 0x01, 0x02, 0x03, 0x04,
    0x05, 0x06, 0x07, 0x08, 0x09, 0x0A, 0x0B, 0x0C, 0x0D, 0x0E, 0x0F,
];

#[test]
fn the_key_cipher_is_the_inverse_of_aes_128() {
    let ciphertext = [
        0x69, 0xC4, 0xE0, 0xD8, 0x6A, 0x7B, 0x04, 0x30, 0xD8, 0xCD, 0xB7, 0x80, 0x70, 0xB4, 0xC5,
        0x5A,
    ];
    let plaintext = [
        0x00, 0x11, 0x22, 0x33, 0x44, 0x55, 0x66, 0x77, 0x88, 0x99, 0xAA, 0xBB, 0xCC, 0xDD, 0xEE,
        0xFF,
    ];
    assert_eq!(unscramble_aes_key(&ciphertext, &STANDARD_ROUND_KEYS), plaintext);

    // The key of a blob is deciphered and then XORed with the pad.
    let keys = Ec2bKeys { round_keys: STANDARD_ROUND_KEYS, key_xor_pad: [0xFF; KEY_SIZE] };
    let parsed = parse(&synthetic_blob(&ciphertext, 0), &keys).unwrap();
    for i in 0..KEY_SIZE {
        assert_eq!(parsed.key[i], plaintext[i] ^ 0xFF);
    }
}

#[test]
fn the_multiplication_tables_agree_with_each_other() {
    for i in 0..256usize {
        assert_eq!(G9[i] ^ G11[i] ^ G13[i] ^ G14[i], i as u8, "9 ^ 11 ^ 13 ^ 14 is 1");
    }
}

#[test]
fn a_seed_is_derived_from_the_text_of_a_blob() {
    let blob = synthetic_blob(&[0x11; 16], 0x07);
    let expected = scramble(&parse(&blob, &keys()).unwrap());
    assert_eq!(derive_seed(&blob, &keys()), Ok(expected));
    assert_eq!(derive_seed_from_b64(&b64_encode(&blob), &keys()), Ok(expected));
    assert_eq!(derive_seed_from_b64("", &keys()), Err(Ec2bError::TooShort(0)));
}

#[test]
fn blob_errors_are_told_in_words() {
    assert_eq!(Ec2bError::TooShort(4).to_string(), "Ec2b: too short (4 bytes)");
    assert_eq!(Ec2bError::BadMagic(0x1A).to_string(), "Ec2b: bad magic 0x0000001A");
    assert_eq!(Ec2bError::BadKeySize(15).to_string(), "Ec2b: bad key size 15");
    assert_eq!(Ec2bError::BadPayloadSize(0).to_string(), "Ec2b: bad payload size 0");
    assert_eq!(Ec2bError::PayloadOutOfBounds.to_string(), "Ec2b: payload out of bounds");
}

#[test]
fn matches_the_reference_sequence_for_the_default_seed() {
    // The standard generator, seeded with its own default seed.
    let mut mt = Mt19937_64::new(5489);
    assert_eq!(mt.next_u64(), 14_514_284_786_278_117_030);
    assert_eq!(mt.next_u64(), 4_620_546_740_167_642_908);
    assert_eq!(mt.next_u64(), 13_109_570_281_517_897_720);
}

#[test]
fn mt19937_is_deterministic_and_seed_dependent() {
    let mut a = Mt19937_64::new(0x1234_5678_9ABC_DEF0);
    let mut b = Mt19937_64::new(0x1234_5678_9ABC_DEF0);
    let mut c = Mt19937_64::new(0x1234_5678_9ABC_DEF1);
    let a1 = a.next_u64();
    assert_eq!(a1, b.next_u64());
    assert_ne!(a1, c.next_u64());
}

#[test]
fn crosses_a_full_state_refill() {
    // 312 words per block; make sure the twist happens without panicking and
    // stays deterministic across the boundary.
    let mut a = Mt19937_64::new(7);
    let mut b = Mt19937_64::new(7);
    for _ in 0..(NN * 2 + 5) {
        assert_eq!(a.next_u64(), b.next_u64());
    }
}

#[test]
fn the_ten_thousandth_number_is_the_published_one() {
    let mut mt = Mt19937_64::new(5489);
    let mut last = 0;
    for _ in 0..10_000 {
        last = mt.next_u64();
    }
    assert_eq!(last, 9_981_545_732_273_789_042);
}

/// The quotient that the generator hands out for a sample.
fn quotient(sample: i32) -> f64 {
    f64::from(sample) * (1.0 / f64::from(M_BIG))
}

#[test]
fn matches_dotnet_for_seed_zero() {
    // The documented first numbers for seed 0.
    let mut rng = NetRandom::new(0);
    assert_eq!(rng.next_sample(), 1_559_595_546);

    let mut rng = NetRandom::new(0);
    assert!((quotient(rng.next_sample()) - 0.726_243_269_967_959_8).abs() < 1e-9);
}

#[test]
fn netrand_is_deterministic_and_seed_dependent() {
    let mut a = NetRandom::new(12345);
    let mut b = NetRandom::new(12345);
    let mut c = NetRandom::new(12346);
    for _ in 0..8 {
        assert_eq!(a.next_sample(), b.next_sample());
    }
    assert!((0..8).any(|_| a.next_sample() != c.next_sample()));
}

#[test]
fn next_max_stays_in_range() {
    // More samples than the table holds.
    let mut rng = NetRandom::new(999);
    for _ in 0..1000 {
        let v = rng.next_max(i32::MAX);
        assert!((0..i32::MAX).contains(&v));
    }
}

#[test]
fn seed_offset_and_key_layout() {
    // The seed is *not* the timestamp: the offset to 0001-01-01 is added and
    // the result is truncated to 32 bits, reinterpreted as an i32. For any
    // modern date that lands on a negative value.
    assert_eq!(seed_from_unix_seconds(1_704_067_200), -584_845_440);
    // Only the low 32 bits of the offset timestamp survive.
    let total = 1_704_067_200u64 + 62_135_596_800;
    assert_eq!(
        u64::from(seed_from_unix_seconds(1_704_067_200) as u32),
        total & 0xFFFF_FFFF
    );
    assert_eq!(seed_from_unix_seconds(0), 62_135_596_800u64 as i64 as i32);

    let seed = seed_from_unix_seconds(1_704_067_200);
    let key = client_rand_key(seed);
    assert_eq!(key as u32 as i32, seed, "low half must be the seed");
    let expected_high = NetRandom::new(seed).next_max(i32::MAX) as u32;
    assert_eq!((key >> 32) as u32, expected_high);
}

#[test]
fn scaled_samples_agree_with_the_floating_point_formula() {
    for seed in [0, 1, -1, 999, 161_803_398, i32::MAX, i32::MIN, -584_845_440] {
        for max in [i32::MAX, 1, 0, 2, 1000, -1000, i32::MIN, 123_456_789] {
            let mut samples = NetRandom::new(seed);
            let mut scaled = NetRandom::new(seed);
            for _ in 0..200 {
                let expected = (quotient(samples.next_sample()) * f64::from(max)) as i32;
                assert_eq!(scaled.next_max(max), expected, "seed {seed}, maximum {max}");
            }
        }
    }
}

/// A key made for these tests.
const KEY_XML: &str = "<RSAKeyValue><Modulus>2ZCxWPzbGcRYVI7NqLrW84Z756gCCBaIzBUdlyz4IeP4xyQGlrFpk0tUbG7ygNt+JbIeje9cmdR5fs0QJQn7/4mENWWgLkoSIBYNBm0ge4CID0/QwZ83Oa2EdyKqzwKyVH//gDCMUO0ISNaHxbbWbLVnAQTR+EmX31rZijej4L8=</Modulus><Exponent>AQAB</Exponent><D>Ja6o+Oe6ryjRv7uIJVxPFJjLZyEzUOFOSkKyAFgalgwdL6iut3T8+zUF504EFItvuumx3xWBLWeer3anADNNgPA0K1MPGOV2XN6W14As6UBxGW5b3fOURsD9KunUck2Ou7beBncRZN0HZiYkdYIqa33TjO2X0kQS536DjkbSotE=</D></RSAKeyValue>";

fn test_key() -> Key {
    rsa::key(KEY_XML).expect("the key parses")
}

fn padded(message: &[u8]) -> Vec<u8> {
    let mut em = vec![0u8; rsa::KEY_SIZE];
    em[0] = 0x00;
    em[1] = 0x02;
    let ps_len = rsa::KEY_SIZE - 3 - message.len();
    assert!(ps_len >= 8, "test message too long");
    for b in &mut em[2..2 + ps_len] {
        *b = 0xAA;
    }
    em[2 + ps_len] = 0x00;
    em[3 + ps_len..].copy_from_slice(message);
    em
}

#[test]
fn decrypts_what_the_public_exponent_encrypted() {
    let key = test_key();
    for message in [
        &b"server-rand-key"[..],
        &[0u8; 8],
        &b"x"[..],
        &b"1234567890abcdef"[..],
    ] {
        let ct = encrypt_block(&key, message).unwrap();
        assert_eq!(decrypt_block(&key, &ct).unwrap(), message);
    }
    // The padding helper agrees with the decoder's expectations.
    assert!(matches!(
        encrypt_block(&key, &[0u8; rsa::KEY_SIZE]),
        Err(RsaError::PaddingInvalid)
    ));
}

#[test]
fn decrypt_multi_concatenates_blocks() {
    let key = test_key();
    let mut ct = encrypt_block(&key, b"first").unwrap();
    ct.extend_from_slice(&encrypt_block(&key, b"second").unwrap());
    assert_eq!(decrypt_multi(&key, &ct).unwrap(), b"firstsecond");
}

#[test]
fn rejects_malformed_padding_and_sizes() {
    let key = test_key();
    // Right length, wrong block type. Built by hand rather than with
    // `encrypt_block`, because the point is to make the decoder reject it.
    let mut em = padded(b"payload");
    em[1] = 0x01;
    assert_eq!(
        decrypt_block(&key, &encipher_em(&key, &em)),
        Err(RsaError::PaddingInvalid)
    );

    // PS shorter than 8 bytes.
    let mut em = vec![0u8; rsa::KEY_SIZE];
    em[1] = 0x02;
    em[5] = 0x00;
    assert_eq!(
        decrypt_block(&key, &encipher_em(&key, &em)),
        Err(RsaError::PaddingInvalid)
    );

    assert!(matches!(
        decrypt_block(&key, &[0u8; 64]),
        Err(RsaError::BadCiphertextSize(64))
    ));
    assert!(matches!(
        decrypt_multi(&key, &[0u8; 200]),
        Err(RsaError::BadCiphertextSize(200))
    ));
}

#[test]
fn deciphering_undoes_the_public_exponent_and_is_not_the_identity() {
    let key = test_key();
    let em = padded(b"payload");
    let ciphertext = encipher_em(&key, &em);
    assert_ne!(ciphertext, em);
    assert_eq!(ciphertext.len(), rsa::KEY_SIZE);
    assert_eq!(decrypt_block(&key, &ciphertext).unwrap(), b"payload");
}

#[test]
fn key_files_are_checked() {
    assert_eq!(rsa::key("").unwrap_err(), RsaError::Key(B64Error::OpenTagNotFound));
    assert_eq!(
        rsa::key("<Modulus>AQID</Modulus><D>AQID</D>").unwrap_err(),
        RsaError::BadKeySize { name: "Modulus", len: 3 }
    );
    let modulus = b64_encode(&[1u8; rsa::KEY_SIZE]);
    assert_eq!(
        rsa::key(&format!("<Modulus>{modulus}</Modulus><D>AQID</D>")).unwrap_err(),
        RsaError::BadKeySize { name: "D", len: 3 }
    );
    assert_eq!(
        rsa::key("<Modulus>AQID").unwrap_err(),
        RsaError::Key(B64Error::CloseTagNotFound)
    );
}

#[test]
fn the_two_pads_are_byte_reversals_of_each_other() {
    // The region and session generators consume the same MT stream; only the
    // per-word byte order differs. This pins that relationship.
    let seed = 0x9543_521F_C9C8_CAED;
    let le = region(seed);
    let be = session(seed);
    for i in 0..(PAD_SIZE / 8) {
        let mut word = le[i * 8..i * 8 + 8].to_vec();
        word.reverse();
        assert_eq!(&word[..], &be[i * 8..i * 8 + 8]);
    }
}

#[test]
fn pads_are_stable_for_a_given_seed() {
    let a = region(0x9543_521F_C9C8_CAED);
    let b = region(0x9543_521F_C9C8_CAED);
    assert_eq!(a, b);
    assert_ne!(a, region(0x1A7E_69FE_2F49_590A));
}

#[test]
fn xor_is_its_own_inverse_and_wraps_at_the_pad_length() {
    let pad = region(42);
    let data: Vec<u8> = (0..PAD_SIZE + 100).map(|i| (i % 251) as u8).collect();
    let mut buf = data.clone();
    xor_in_place(&mut buf, &pad);
    assert_ne!(buf, data);
    // Byte PAD_SIZE must use pad[0] again.
    assert_eq!(buf[PAD_SIZE], data[PAD_SIZE] ^ pad[0]);
    xor_in_place(&mut buf, &pad);
    assert_eq!(buf, data);
}

#[test]
fn pads_are_made_of_the_generators_words() {
    // The pad comes from a generator that is seeded with the first word of another one.
    let seed = 0x1A7E_69FE_2F49_590A;
    assert_eq!(generate(seed, false), region(seed));
    assert_eq!(generate(seed, true), session(seed));
    assert_eq!(XorPad::for_region(seed).bytes(), &region(seed));
    assert_eq!(XorPad::for_session(seed).bytes(), &session(seed));
    let data = [1u8, 2, 3];
    let pad = region(seed);
    assert_eq!(xor_bytes(&data, &pad), vec![1 ^ pad[0], 2 ^ pad[1], 3 ^ pad[2]]);
}

#[test]
fn padding_and_whitespace_may_stand_anywhere() {
    let bytes: Vec<u8> = (0..=255).collect();
    for len in [0usize, 1, 2, 3, 4, 17, 256] {
        let plain = b64_encode(&bytes[..len]);
        let bare = plain.trim_end_matches('=');
        assert_eq!(b64_decode(bare), bytes[..len]);
        let spread: String = plain.chars().flat_map(|c| [' ', c, '=', '\r', '\n', '\t']).collect();
        assert_eq!(b64_decode(&spread), bytes[..len]);
    }
}

#[test]
fn different_keys_are_unscrambled_differently() {
    let base = [0x5A; KEY_SIZE];
    let mut seen = vec![unscramble_aes_key(&base, &STANDARD_ROUND_KEYS)];
    for i in 0..KEY_SIZE {
        for bit in 0..8 {
            let mut key = base;
            key[i] ^= 1 << bit;
            let other = unscramble_aes_key(&key, &STANDARD_ROUND_KEYS);
            assert!(!seen.contains(&other));
            seen.push(other);
        }
    }
}

#[test]
fn the_boxes_and_the_row_shifts_undo_each_other() {
    for i in 0..256usize {
        assert_eq!(SBOX[SBOX_INV[i] as usize] as usize, i);
    }
    for i in 0..16usize {
        assert_eq!(SHIFT_ROWS_INV[SHIFT_ROWS[i] as usize] as usize, i);
    }
}
