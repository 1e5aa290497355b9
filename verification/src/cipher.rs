//! The VimCrypt container and its "zip" stream cipher.
//!
//! A VimCrypt file starts with a twelve byte ASCII header naming the method
//! that encrypted the rest of the file. Only the oldest method, the PKZIP
//! stream cipher, is decoded here; the two Blowfish methods are recognised
//! and refused.
//!
//! The cipher keeps three 32-bit keys. Every plaintext byte, and before them
//! every character of the password, is fed through [`update_keys`]; the byte
//! that masks the next ciphertext byte is derived from the third key alone.

use vstd::arithmetic::div_mod::{lemma_add_mod_noop, lemma_mul_mod_noop_left, lemma_small_mod};
use vstd::prelude::*;
use vstd::string::StringExecFns;
use vstd::utf8::{encode_utf8, is_ascii_chars, is_ascii_chars_encode_utf8};
use vstd::wrapping::u32_specs;

verus! {

/// Polynomial of the reflected CRC-32 that keys the cipher.
pub const CRC_SEED: u32 = 0xedb8_8320;

/// Multiplier of the linear congruential step on the second key.
pub const KEY_MULTIPLIER: u32 = 134775813;

/// The encryption methods a VimCrypt header can name.
#[derive(Clone, Copy, Debug, PartialEq, Eq)]
pub enum CryptMethod {
    /// `VimCrypt~01!`: the PKZIP stream cipher.
    Zip,
    /// `VimCrypt~02!`: Blowfish in CFB mode.
    Blowfish,
    /// `VimCrypt~03!`: Blowfish with the corrected CFB mode.
    Blowfish2,
}

/// Why a buffer could not be decrypted.
#[derive(Clone, Copy, Debug, PartialEq, Eq)]
pub enum DecryptError {
    /// The buffer does not start with one of the three known headers.
    UnrecognizedFormat,
    /// The header names a method other than [`CryptMethod::Zip`].
    UnsupportedMethod,
}

impl DecryptError {
    /// The error in words.
    pub open spec fn text(self) -> Seq<char> {
        match self {
            DecryptError::UnrecognizedFormat => "Unknown VimCrypt header."@,
            DecryptError::UnsupportedMethod => "Unsupported VimCrypt method."@,
        }
    }

    /// Says in words what went wrong.
    pub fn message(&self) -> (s: String)
        ensures
            s@ == self.text(),
    {
        match self {
            DecryptError::UnrecognizedFormat => String::from_str("Unknown VimCrypt header."),
            DecryptError::UnsupportedMethod => String::from_str("Unsupported VimCrypt method."),
        }
    }
}

/// The three keys of the cipher.
#[derive(Clone, Copy, Debug, PartialEq, Eq)]
pub struct Keys {
    pub k0: u32,
    pub k1: u32,
    pub k2: u32,
}

// ---------------------------------------------------------------------------
// Header
// ---------------------------------------------------------------------------

/// The nine bytes `VimCrypt~` that every header starts with.
pub open spec fn magic_prefix() -> Seq<u8> {
    seq![0x56u8, 0x69u8, 0x6du8, 0x43u8, 0x72u8, 0x79u8, 0x70u8, 0x74u8, 0x7eu8]
}

/// The three bytes that follow [`magic_prefix`] for `method`: two decimal
/// digits and `!`.
pub open spec fn magic_suffix(method: CryptMethod) -> Seq<u8> {
    match method {
        CryptMethod::Zip => seq![0x30u8, 0x31u8, 0x21u8],
        CryptMethod::Blowfish => seq![0x30u8, 0x32u8, 0x21u8],
        CryptMethod::Blowfish2 => seq![0x30u8, 0x33u8, 0x21u8],
    }
}

/// The twelve byte header of `method`.
pub open spec fn magic(method: CryptMethod) -> Seq<u8> {
    magic_prefix() + magic_suffix(method)
}

/// True when `data` starts with `VimCrypt~`.
pub open spec fn has_magic_prefix(data: Seq<u8>) -> bool {
    data.len() >= 9 && data.take(9) == magic_prefix()
}

/// The method named by the first twelve bytes of `data`, if they are a
/// header at all.
pub open spec fn header_method(data: Seq<u8>) -> Option<CryptMethod> {
    if data.len() < 12 {
        None
    } else if data.take(12) == magic(CryptMethod::Zip) {
        Some(CryptMethod::Zip)
    } else if data.take(12) == magic(CryptMethod::Blowfish) {
        Some(CryptMethod::Blowfish)
    } else if data.take(12) == magic(CryptMethod::Blowfish2) {
        Some(CryptMethod::Blowfish2)
    } else {
        None
    }
}

/// Tells whether `data` starts with the nine bytes `VimCrypt~`, whatever
/// follows them.
pub fn starts_with_magic(data: &[u8]) -> (r: bool)
    ensures
        r == has_magic_prefix(data@),
{
    if data.len() < 9 {
        return false;
    }
    let r = data[0] == 0x56 && data[1] == 0x69 && data[2] == 0x6d && data[3] == 0x43 && data[4]
        == 0x72 && data[5] == 0x79 && data[6] == 0x70 && data[7] == 0x74 && data[8] == 0x7e;
    proof {
        let head = data@.take(9);
        let want = magic_prefix();
        if r {
            assert(head =~= want);
        } else {
            assert(exists|i: int| 0 <= i < 9 && head[i] != want[i]);
        }
    }
    r
}

impl CryptMethod {
    /// Reads the method out of the header at the start of `data`.
    pub fn from_header(data: &[u8]) -> (r: Result<CryptMethod, DecryptError>)
        ensures
            match header_method(data@) {
                Some(method) => r == Ok::<CryptMethod, DecryptError>(method),
                None => r == Err::<CryptMethod, DecryptError>(DecryptError::UnrecognizedFormat),
            },
    {
        if data.len() < 12 {
            return Err(DecryptError::UnrecognizedFormat);
        }
        let prefixed = starts_with_magic(data);
        let digit = data[10];
        let framed = prefixed && data[9] == 0x30 && data[11] == 0x21;
        proof {
            let head = data@.take(12);
            assert(head.take(9) =~= data@.take(9));
            assert forall|m: CryptMethod| head == magic(m) implies framed && digit == magic(m)[10] by {
                assert(magic(m).take(9) =~= magic_prefix());
                assert(head[9] == magic(m)[9]);
                assert(head[10] == magic(m)[10]);
                assert(head[11] == magic(m)[11]);
            }
            assert forall|m: CryptMethod| framed && digit == magic(m)[10] implies head == magic(
                m,
            ) by {
                assert forall|i: int| 0 <= i < 12 implies head[i] == magic(m)[i] by {
                    if i < 9 {
                        assert(head[i] == data@.take(9)[i]);
                    }
                }
                assert(head =~= magic(m));
            }
            assert(magic(CryptMethod::Zip)[10] == 0x31);
            assert(magic(CryptMethod::Blowfish)[10] == 0x32);
            assert(magic(CryptMethod::Blowfish2)[10] == 0x33);
        }
        if !framed {
            Err(DecryptError::UnrecognizedFormat)
        } else if digit == 0x31 {
            Ok(CryptMethod::Zip)
        } else if digit == 0x32 {
            Ok(CryptMethod::Blowfish)
        } else if digit == 0x33 {
            Ok(CryptMethod::Blowfish2)
        } else {
            Err(DecryptError::UnrecognizedFormat)
        }
    }
}

// ---------------------------------------------------------------------------
// CRC table
// ---------------------------------------------------------------------------

/// One round of the reflected CRC shift register.
pub open spec fn crc_round(v: u32, seed: u32) -> u32 {
    (v >> 1) ^ (if v & 1 != 0 { seed } else { 0u32 })
}

/// `rounds` rounds of the shift register, starting from `v`.
pub open spec fn crc_rounds(v: u32, seed: u32, rounds: nat) -> u32
    decreases rounds,
{
    if rounds == 0 {
        v
    } else {
        crc_round(crc_rounds(v, seed, (rounds - 1) as nat), seed)
    }
}

/// Entry `index` of the lookup table for `seed`: eight rounds on the index.
pub open spec fn crc_table_entry(seed: u32, index: int) -> u32 {
    crc_rounds(index as u32, seed, 8)
}

/// True when `table` is the 256-entry lookup table for `seed`.
pub open spec fn is_crc_table(table: Seq<u32>, seed: u32) -> bool {
    &&& table.len() == 256
    &&& forall|i: int| 0 <= i < 256 ==> #[trigger] table[i] == crc_table_entry(seed, i)
}

fn crc_entry(b: u32, seed: u32) -> (r: u32)
    ensures
        r == crc_rounds(b, seed, 8),
{
    let mut v: u32 = b;
    let mut i: u8 = 0;
    while i < 8
        invariant
            i <= 8,
            v == crc_rounds(b, seed, i as nat),
        decreases 8 - i,
    {
        v = (v >> 1) ^ (if v & 1 != 0 { seed } else { 0 });
        i = i + 1;
    }
    v
}

/// Builds the 256-entry CRC lookup table for `seed`.
pub fn make_crc_table(seed: u32) -> (table: Vec<u32>)
    ensures
        is_crc_table(table@, seed),
{
    let mut table: Vec<u32> = Vec::with_capacity(256);
    let mut b: u32 = 0;
    while b < 256
        invariant
            b <= 256,
            table@.len() == b,
            forall|i: int| 0 <= i < b ==> #[trigger] table@[i] == crc_table_entry(seed, i),
        decreases 256 - b,
    {
        table.push(crc_entry(b, seed));
        b = b + 1;
    }
    table
}

// ---------------------------------------------------------------------------
// Key schedule
// ---------------------------------------------------------------------------

/// The keys before any byte has been fed.
pub open spec fn initial_keys() -> Keys {
    Keys { k0: 0x12345678, k1: 0x23456789, k2: 0x34567890 }
}

/// Table index that `byte` selects when folded into `crc`.
pub open spec fn crc_index(crc: u32, byte: u8) -> u32 {
    (crc ^ (byte as u32)) & 0xff
}

/// Folds `byte` into the running CRC `crc`.
pub open spec fn crc_step(crc: u32, byte: u8) -> u32 {
    crc_table_entry(CRC_SEED, crc_index(crc, byte) as int) ^ (crc >> 8)
}

/// The second key after the low byte of the first key has been added to it:
/// `(k1 + low) * 134775813 + 1` modulo 2^32.
pub open spec fn advance_k1(k1: u32, k0: u32) -> u32 {
    (((k1 + (k0 & 0xff)) * KEY_MULTIPLIER + 1) % 0x1_0000_0000) as u32
}

/// The keys after `byte` has been fed to them.
pub open spec fn update_keys(keys: Keys, byte: u8) -> Keys {
    let k0 = crc_step(keys.k0, byte);
    let k1 = advance_k1(keys.k1, k0);
    let k2 = crc_step(keys.k2, (k1 >> 24) as u8);
    Keys { k0, k1, k2 }
}

/// The keys after every byte of `fed` has been fed to `keys`, first to last.
pub open spec fn keys_after(keys: Keys, fed: Seq<u8>) -> Keys
    decreases fed.len(),
{
    if fed.len() == 0 {
        keys
    } else {
        update_keys(keys_after(keys, fed.drop_last()), fed.last())
    }
}

/// The byte that a password character contributes: its code point modulo 256.
pub open spec fn key_byte(c: char) -> u8 {
    ((c as u32) & 0xff) as u8
}

/// The bytes that `password` feeds into the keys.
pub open spec fn password_bytes(password: Seq<char>) -> Seq<u8> {
    password.map_values(|c: char| key_byte(c))
}

/// The keys a password leaves behind, ready for the first data byte.
pub open spec fn password_keys(password: Seq<char>) -> Keys {
    keys_after(initial_keys(), password_bytes(password))
}

/// The byte that masks the next data byte under `keys`.
pub open spec fn key_stream_byte(keys: Keys) -> u8 {
    let t: u32 = (keys.k2 | 2) & 0xffff;
    ((((t * (t ^ 1)) as u32) >> 8) & 0xff) as u8
}

// ---------------------------------------------------------------------------
// Cipher
// ---------------------------------------------------------------------------

/// Plaintext of `cipher` under keys that start at `keys`. Each byte is the
/// ciphertext byte masked by the key stream, and the keys advance on the
/// plaintext byte just produced.
pub open spec fn decrypt_bytes(keys: Keys, cipher: Seq<u8>) -> Seq<u8>
    decreases cipher.len(),
{
    if cipher.len() == 0 {
        Seq::<u8>::empty()
    } else {
        let before = decrypt_bytes(keys, cipher.drop_last());
        before.push(cipher.last() ^ key_stream_byte(keys_after(keys, before)))
    }
}

/// Ciphertext of `plain` under keys that start at `keys`: the forward
/// direction of the same cipher.
pub open spec fn encrypt_bytes(keys: Keys, plain: Seq<u8>) -> Seq<u8>
    decreases plain.len(),
{
    if plain.len() == 0 {
        Seq::<u8>::empty()
    } else {
        let before = plain.drop_last();
        encrypt_bytes(keys, before).push(plain.last() ^ key_stream_byte(keys_after(keys, before)))
    }
}

/// What [`zip_decrypt`] returns for a headerless ciphertext.
pub open spec fn zip_plaintext(cipher: Seq<u8>, password: Seq<char>) -> Seq<u8> {
    decrypt_bytes(password_keys(password), cipher)
}

/// A whole VimCrypt file holding `plain` under `password`: the header of the
/// zip method followed by the ciphertext.
pub open spec fn zip_file(plain: Seq<u8>, password: Seq<char>) -> Seq<u8> {
    magic(CryptMethod::Zip) + encrypt_bytes(password_keys(password), plain)
}

/// What [`decrypt`] returns for a whole file.
pub open spec fn decrypt_file(data: Seq<u8>, password: Seq<char>) -> Result<Seq<u8>, DecryptError> {
    match header_method(data) {
        None => Err(DecryptError::UnrecognizedFormat),
        Some(CryptMethod::Zip) => Ok(zip_plaintext(data.skip(12), password)),
        Some(_) => Err(DecryptError::UnsupportedMethod),
    }
}

fn crc32(table: &Vec<u32>, crc: u32, byte: u8) -> (r: u32)
    requires
        is_crc_table(table@, CRC_SEED),
    ensures
        r == crc_step(crc, byte),
{
    let index: u32 = (crc ^ (byte as u32)) & 0xff;
    assert(index < 256) by (bit_vector)
        requires
            index == (crc ^ (byte as u32)) & 0xff,
    ;
    assert(index as int as u32 == index);
    table[index as usize] ^ (crc >> 8)
}

proof fn lemma_advance_k1(k1: u32, low: u32)
    ensures
        u32_specs::wrapping_add(
            u32_specs::wrapping_mul(u32_specs::wrapping_add(k1, low), KEY_MULTIPLIER),
            1,
        ) == ((k1 + low) * KEY_MULTIPLIER + 1) % 0x1_0000_0000,
{
    let r: int = 0x1_0000_0000;
    let m: int = KEY_MULTIPLIER as int;
    let s: int = k1 + low;
    let s1 = u32_specs::wrapping_add(k1, low);
    assert(s1 as int == s % r) by {
        if s > u32::MAX {
            lemma_small_mod((s - r) as nat, r as nat);
            vstd::arithmetic::div_mod::lemma_mod_sub_multiples_vanish(s, r);
        } else {
            lemma_small_mod(s as nat, r as nat);
        }
    }
    let p = u32_specs::wrapping_mul(s1, KEY_MULTIPLIER);
    assert(p as int == (s * m) % r) by {
        assert(p as int == (s1 as nat * KEY_MULTIPLIER as nat) % (r as nat));
        lemma_mul_mod_noop_left(s, m, r);
    }
    let q = u32_specs::wrapping_add(p, 1);
    assert(q as int == (p + 1) % r) by {
        if p + 1 > u32::MAX {
            assert(p + 1 == r);
        } else {
            lemma_small_mod((p + 1) as nat, r as nat);
        }
    }
    assert((p + 1) % r == (s * m + 1) % r) by {
        lemma_add_mod_noop(s * m, 1, r);
        lemma_add_mod_noop(p as int, 1, r);
        lemma_small_mod(p as nat, r as nat);
    }
}

fn advance(table: &Vec<u32>, keys: Keys, byte: u8) -> (r: Keys)
    requires
        is_crc_table(table@, CRC_SEED),
    ensures
        r == update_keys(keys, byte),
{
    let k0 = crc32(table, keys.k0, byte);
    let k1 = keys.k1.wrapping_add(k0 & 0xff).wrapping_mul(KEY_MULTIPLIER).wrapping_add(1);
    proof {
        lemma_advance_k1(keys.k1, k0 & 0xff);
    }
    let high: u32 = k1 >> 24;
    assert(high < 256) by (bit_vector)
        requires
            high == k1 >> 24,
    ;
    let k2 = crc32(table, keys.k2, high as u8);
    Keys { k0, k1, k2 }
}

fn mask(keys: Keys) -> (r: u8)
    ensures
        r == key_stream_byte(keys),
{
    let k2: u32 = keys.k2;
    let t: u32 = (k2 | 2) & 0xffff;
    let u: u32 = t ^ 1;
    assert(t <= 0xffff && u <= 0xffff) by (bit_vector)
        requires
            t == (k2 | 2) & 0xffff,
            u == t ^ 1,
    ;
    assert(t * u <= 0xffff * 0xffff) by (nonlinear_arith)
        requires
            t <= 0xffff,
            u <= 0xffff,
    ;
    let product: u32 = t * u;
    let x: u32 = (product >> 8) & 0xff;
    assert(x < 256) by (bit_vector)
        requires
            x == (product >> 8) & 0xff,
    ;
    x as u8
}

/// Feeds every character of `password` to the initial keys.
fn schedule(table: &Vec<u32>, password: &str) -> (keys: Keys)
    requires
        is_crc_table(table@, CRC_SEED),
    ensures
        keys == password_keys(password@),
{
    let mut keys = Keys { k0: 0x12345678, k1: 0x23456789, k2: 0x34567890 };
    let ghost fed: Seq<u8> = Seq::empty();
    for c in it: password.chars()
        invariant
            is_crc_table(table@, CRC_SEED),
            it.seq() == password@,
            fed == password_bytes(password@.take(it.index())),
            keys == keys_after(initial_keys(), fed),
    {
        let point: u32 = c as u32;
        let code: u32 = point & 0xff;
        assert(code < 256) by (bit_vector)
            requires
                code == point & 0xff,
        ;
        keys = advance(table, keys, code as u8);
        proof {
            let i = it.index();
            let next = password_bytes(password@.take(i + 1));
            assert(next.drop_last() =~= fed);
            assert(next.last() == key_byte(c));
            fed = next;
        }
    }
    proof {
        assert(password@.take(password@.len() as int) =~= password@);
    }
    keys
}

/// Decrypts `data`, the part of a zip-method file that follows the header,
/// with `password`. Any byte sequence is a ciphertext, so this never fails.
pub fn zip_decrypt(data: &[u8], password: &str) -> (r: Result<Vec<u8>, DecryptError>)
    ensures
        r is Ok,
        r->Ok_0@ == zip_plaintext(data@, password@),
        r->Ok_0@.len() == data@.len(),
{
    let table = make_crc_table(CRC_SEED);
    let start = schedule(&table, password);
    let mut keys = start;
    let mut plain: Vec<u8> = Vec::with_capacity(data.len());
    let mut i: usize = 0;
    while i < data.len()
        invariant
            i <= data.len(),
            is_crc_table(table@, CRC_SEED),
            plain@ == decrypt_bytes(start, data@.take(i as int)),
            plain@.len() == i,
            keys == keys_after(start, plain@),
        decreases data.len() - i,
    {
        let b = data[i] ^ mask(keys);
        proof {
            let next = data@.take(i + 1);
            assert(next.drop_last() =~= data@.take(i as int));
            assert(next.last() == data@[i as int]);
            assert(plain@.push(b).drop_last() =~= plain@);
        }
        plain.push(b);
        keys = advance(&table, keys, b);
        i = i + 1;
    }
    proof {
        assert(data@.take(data@.len() as int) =~= data@);
    }
    Ok(plain)
}

/// Decrypts a whole VimCrypt file: checks the header, then hands the rest to
/// the cipher it names.
pub fn decrypt(data: &[u8], password: &str) -> (r: Result<Vec<u8>, DecryptError>)
    ensures
        match decrypt_file(data@, password@) {
            Ok(plain) => r is Ok && r->Ok_0@ == plain,
            Err(e) => r == Err::<Vec<u8>, DecryptError>(e),
        },
{
    match CryptMethod::from_header(data) {
        Err(e) => Err(e),
        Ok(CryptMethod::Zip) => {
            let body = vstd::slice::slice_subrange(data, 12, data.len());
            proof {
                assert(data@.subrange(12, data@.len() as int) =~= data@.skip(12));
            }
            zip_decrypt(body, password)
        },
        Ok(_) => Err(DecryptError::UnsupportedMethod),
    }
}

// ---------------------------------------------------------------------------
// Laws
// ---------------------------------------------------------------------------

/// The headers spell `VimCrypt~01!`, `VimCrypt~02!` and `VimCrypt~03!`.
pub proof fn lemma_magic_spells()
    ensures
        magic(CryptMethod::Zip) == encode_utf8("VimCrypt~01!"@),
        magic(CryptMethod::Blowfish) == encode_utf8("VimCrypt~02!"@),
        magic(CryptMethod::Blowfish2) == encode_utf8("VimCrypt~03!"@),
{
    reveal_strlit("VimCrypt~01!");
    reveal_strlit("VimCrypt~02!");
    reveal_strlit("VimCrypt~03!");
    let one = "VimCrypt~01!"@;
    let two = "VimCrypt~02!"@;
    let three = "VimCrypt~03!"@;
    assert(is_ascii_chars(one) && is_ascii_chars(two) && is_ascii_chars(three));
    is_ascii_chars_encode_utf8(one);
    is_ascii_chars_encode_utf8(two);
    is_ascii_chars_encode_utf8(three);
    assert forall|i: int| 0 <= i < 12 implies magic(CryptMethod::Zip)[i] == encode_utf8(one)[i] by {
        assert(one[i] as u8 == encode_utf8(one)[i]);
    }
    assert forall|i: int| 0 <= i < 12 implies magic(CryptMethod::Blowfish)[i] == encode_utf8(
        two,
    )[i] by {
        assert(two[i] as u8 == encode_utf8(two)[i]);
    }
    assert forall|i: int| 0 <= i < 12 implies magic(CryptMethod::Blowfish2)[i] == encode_utf8(
        three,
    )[i] by {
        assert(three[i] as u8 == encode_utf8(three)[i]);
    }
    assert(magic(CryptMethod::Zip) =~= encode_utf8(one));
    assert(magic(CryptMethod::Blowfish) =~= encode_utf8(two));
    assert(magic(CryptMethod::Blowfish2) =~= encode_utf8(three));
}

/// Decrypting keeps the length.
pub proof fn lemma_decrypt_len(keys: Keys, cipher: Seq<u8>)
    ensures
        decrypt_bytes(keys, cipher).len() == cipher.len(),
    decreases cipher.len(),
{
    if cipher.len() > 0 {
        lemma_decrypt_len(keys, cipher.drop_last());
    }
}

/// Decrypting what the forward cipher produced, from the same keys, gives
/// the plaintext back.
pub proof fn lemma_decrypt_inverts_encrypt(keys: Keys, plain: Seq<u8>)
    ensures
        decrypt_bytes(keys, encrypt_bytes(keys, plain)) == plain,
    decreases plain.len(),
{
    let cipher = encrypt_bytes(keys, plain);
    if plain.len() == 0 {
        assert(decrypt_bytes(keys, cipher) =~= plain);
    } else {
        let before = plain.drop_last();
        lemma_decrypt_inverts_encrypt(keys, before);
        assert(cipher.drop_last() =~= encrypt_bytes(keys, before));
        let x = key_stream_byte(keys_after(keys, before));
        let p = plain.last();
        assert((p ^ x) ^ x == p) by (bit_vector);
        assert(decrypt_bytes(keys, cipher) =~= before.push(p));
        assert(before.push(p) =~= plain);
    }
}

/// Round trip: for every plaintext and every password, decrypting the file
/// that the zip method produces for them returns the plaintext exactly.
pub proof fn lemma_round_trip(plain: Seq<u8>, password: Seq<char>)
    ensures
        decrypt_file(zip_file(plain, password), password) == Ok::<Seq<u8>, DecryptError>(plain),
{
    let keys = password_keys(password);
    let cipher = encrypt_bytes(keys, plain);
    let file = zip_file(plain, password);
    assert(file.take(12) =~= magic(CryptMethod::Zip));
    assert(file.skip(12) =~= cipher);
    lemma_decrypt_inverts_encrypt(keys, plain);
}

/// The header decides. A buffer is decrypted exactly when it starts with
/// the header of the zip method. One that starts with the header of
/// another method is refused as unsupported, and one whose first twelve
/// bytes are none of the three headers, or that is shorter than a header,
/// is refused as unrecognised, whatever follows and whatever the password.
pub proof fn lemma_headers_decide(data: Seq<u8>, password: Seq<char>)
    ensures
        header_method(data) is None <==> data.len() < 12 || forall|method: CryptMethod|
            data.take(12) != #[trigger] magic(method),
        forall|method: CryptMethod|
            data.len() >= 12 && data.take(12) == #[trigger] magic(method) ==> header_method(data)
                == Some(method),
        header_method(data) is None ==> decrypt_file(data, password) == Err::<
            Seq<u8>,
            DecryptError,
        >(DecryptError::UnrecognizedFormat),
        header_method(data) == Some(CryptMethod::Blowfish) || header_method(data) == Some(
            CryptMethod::Blowfish2,
        ) ==> decrypt_file(data, password) == Err::<Seq<u8>, DecryptError>(
            DecryptError::UnsupportedMethod,
        ),
        header_method(data) == Some(CryptMethod::Zip) ==> decrypt_file(data, password) == Ok::<
            Seq<u8>,
            DecryptError,
        >(zip_plaintext(data.skip(12), password)),
{
    assert(magic(CryptMethod::Zip)[10] != magic(CryptMethod::Blowfish)[10]);
    assert(magic(CryptMethod::Zip)[10] != magic(CryptMethod::Blowfish2)[10]);
    assert(magic(CryptMethod::Blowfish)[10] != magic(CryptMethod::Blowfish2)[10]);
    if data.len() >= 12 && header_method(data) is None {
        assert forall|method: CryptMethod| data.take(12) != #[trigger] magic(method) by {
            match method {
                CryptMethod::Zip => {},
                CryptMethod::Blowfish => {},
                CryptMethod::Blowfish2 => {},
            }
        }
    }
}

} // verus!
