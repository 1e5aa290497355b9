use sar::cipher::{
    decrypt, make_crc_table, starts_with_magic, zip_decrypt, CryptMethod, DecryptError, CRC_SEED,
};

/// The forward direction of the cipher, written out bit by bit and without
/// a table, to hold the library against.
fn reference_crc(crc: u32, byte: u8) -> u32 {
    let mut v = (crc ^ byte as u32) & 0xff;
    for _ in 0..8 {
        v = if v & 1 != 0 { (v >> 1) ^ 0xedb8_8320 } else { v >> 1 };
    }
    v ^ (crc >> 8)
}

fn reference_update(keys: &mut [u32; 3], byte: u8) {
    keys[0] = reference_crc(keys[0], byte);
    keys[1] = (keys[1].wrapping_add(keys[0] & 0xff)).wrapping_mul(134775813).wrapping_add(1);
    keys[2] = reference_crc(keys[2], (keys[1] >> 24) as u8);
}

fn reference_encrypt(plain: &[u8], password: &str) -> Vec<u8> {
    let mut keys = [0x12345678u32, 0x23456789, 0x34567890];
    for c in password.chars() {
        reference_update(&mut keys, c as u8);
    }
    let mut out = Vec::new();
    for &p in plain {
        let t = (keys[2] | 2) & 0xffff;
        let x = ((t * (t ^ 1)) >> 8) as u8;
        out.push(p ^ x);
        reference_update(&mut keys, p);
    }
    out
}

fn reference_file(plain: &[u8], password: &str) -> Vec<u8> {
    let mut file = b"VimCrypt~01!".to_vec();
    file.extend(reference_encrypt(plain, password));
    file
}

#[test]
fn crc_table_has_the_standard_entries() {
    let table = make_crc_table(CRC_SEED);
    assert_eq!(table.len(), 256);
    assert_eq!(table[0], 0);
    assert_eq!(table[1], 0x7707_3096);
    assert_eq!(table[2], 0xee0e_612c);
    assert_eq!(table[128], 0xedb8_8320);
    assert_eq!(table[255], 0x2d02_ef8d);
}

#[test]
fn crc_table_of_seed_zero_is_shifted_out() {
    let table = make_crc_table(0);
    assert_eq!(table.len(), 256);
    assert!(table.iter().all(|&entry| entry == 0));
}

#[test]
fn header_names_the_method() {
    assert_eq!(CryptMethod::from_header(b"VimCrypt~01!"), Ok(CryptMethod::Zip));
    assert_eq!(CryptMethod::from_header(b"VimCrypt~02!"), Ok(CryptMethod::Blowfish));
    assert_eq!(CryptMethod::from_header(b"VimCrypt~03!rest"), Ok(CryptMethod::Blowfish2));
}

#[test]
fn header_that_is_none_of_the_three_is_unrecognized() {
    let unknown: [&[u8]; 9] = [
        b"",
        b"VimCrypt~01",
        b"VimCrypt~04!",
        b"VimCrypt~00!",
        b"VimCrypt~11!",
        b"VimCrypt~01?",
        b"vimCrypt~01!",
        b"VimCrypt-01!",
        b"plain text, nothing else",
    ];
    for data in unknown {
        assert_eq!(CryptMethod::from_header(data), Err(DecryptError::UnrecognizedFormat));
        assert_eq!(decrypt(data, "pw"), Err(DecryptError::UnrecognizedFormat));
    }
}

#[test]
fn blowfish_headers_are_unsupported() {
    assert_eq!(decrypt(b"VimCrypt~02!", "pw"), Err(DecryptError::UnsupportedMethod));
    assert_eq!(decrypt(b"VimCrypt~02!abcdefgh", ""), Err(DecryptError::UnsupportedMethod));
    assert_eq!(decrypt(b"VimCrypt~03!abcdefgh", "pw"), Err(DecryptError::UnsupportedMethod));
}

#[test]
fn magic_prefix_is_nine_bytes() {
    assert!(starts_with_magic(b"VimCrypt~"));
    assert!(starts_with_magic(b"VimCrypt~99!"));
    assert!(starts_with_magic(b"VimCrypt~01!data"));
    assert!(!starts_with_magic(b"VimCrypt"));
    assert!(!starts_with_magic(b"VimCrypt!01!"));
    assert!(!starts_with_magic(b""));
}

#[test]
fn first_mask_byte_without_password() {
    // k2 = 0x34567890: t = 0x7892, t * (t ^ 1) = 0x7892 * 0x7893, bits 8..16.
    assert_eq!(zip_decrypt(&[0x00], ""), Ok(vec![0xab]));
    assert_eq!(zip_decrypt(&[0xab], ""), Ok(vec![0x00]));
    assert_eq!(zip_decrypt(&[0, 0, 0, 0], ""), Ok(vec![171, 219, 4, 75]));
}

#[test]
fn known_ciphertext_decrypts() {
    let cipher = [160, 37, 77, 123, 115, 152, 102, 164, 147, 236, 241, 246];
    assert_eq!(zip_decrypt(&cipher, "secret"), Ok(b"hello\nworld\n".to_vec()));
    assert_eq!(zip_decrypt(&[75], "x"), Ok(b"A".to_vec()));
}

#[test]
fn empty_ciphertext_is_empty_plaintext() {
    assert_eq!(zip_decrypt(b"", "secret"), Ok(Vec::new()));
    assert_eq!(decrypt(b"VimCrypt~01!", "secret"), Ok(Vec::new()));
}

#[test]
fn password_characters_count_modulo_256() {
    // U+00E9 and U+20AC feed 0xe9 and 0xac; U+0161 feeds 0x61, the same as 'a'.
    let plain = b"first line\r\n\r\n  \nsecond \xc3\xa9\n";
    let cipher = [
        132, 166, 174, 26, 20, 173, 249, 15, 90, 81, 168, 211, 244, 197, 95, 233, 191, 109, 194,
        49, 61, 64, 85, 77, 148, 72, 214,
    ];
    assert_eq!(zip_decrypt(&cipher, "p\u{e9}"), Ok(plain.to_vec()));
    let under_a = reference_encrypt(b"same keys", "a");
    assert_eq!(zip_decrypt(&under_a, "\u{161}"), Ok(b"same keys".to_vec()));
    assert_ne!(zip_decrypt(&under_a, "b"), Ok(b"same keys".to_vec()));
}

#[test]
fn decrypt_inverts_the_reference_encryptor() {
    let passwords = ["", "a", "secret", "p\u{e9}", "\u{20ac}uro", "a much longer pass phrase"];
    let mut every_byte = Vec::new();
    for b in 0..=255u8 {
        every_byte.push(b);
    }
    let plains: [&[u8]; 5] = [b"", b"x", b"hello\nworld\n", &[0u8; 64], &every_byte];
    for password in passwords {
        for plain in plains {
            let cipher = reference_encrypt(plain, password);
            assert_eq!(cipher.len(), plain.len());
            assert_eq!(zip_decrypt(&cipher, password), Ok(plain.to_vec()));
            assert_eq!(decrypt(&reference_file(plain, password), password), Ok(plain.to_vec()));
        }
    }
}

#[test]
fn wrong_password_gives_other_bytes_of_the_same_length() {
    let cipher = reference_encrypt(b"hello\nworld\n", "secret");
    let plain = zip_decrypt(&cipher, "Secret").unwrap();
    assert_eq!(plain.len(), 12);
    assert_ne!(plain, b"hello\nworld\n".to_vec());
}
