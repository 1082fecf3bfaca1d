//! The encrypted file formats.
//!
//! * Local files (`.jsr`): magic `JSR1`, version byte 1, a 12-byte nonce, then
//!   the AES-256-GCM ciphertext of the plain bytes, authenticated with the file
//!   name as associated data.
//! * Password backups (`.jsb`): magic `JSB1`, version byte 1, a 16-byte salt, a
//!   12-byte nonce, then the AES-256-GCM ciphertext (no associated data) of the
//!   zlib-compressed plain bytes, under a key derived from the password with
//!   scrypt.
//!
//! The cipher, the key derivation, the compression, the digest and the random
//! bytes are those of the outside crates; what is proved here is the framing,
//! the checks made before decrypting, the error reported in each case, and
//! that decrypting what was encrypted gives the plain bytes back.

use vstd::prelude::*;
use crate::text::string_push;
use vstd::string::StringSliceAdditionalSpecFns;
use aes_gcm::aead::{Aead, KeyInit, Payload};
use rand::RngCore;
use sha2::Digest;

verus! {

// ---------------------------------------------------------------------------
// Outside items
// ---------------------------------------------------------------------------

/// `aes_gcm::Error` (the `aead` crate's opaque error).
#[verifier::external_type_specification]
#[verifier::external_body]
pub struct ExAeadError(aes_gcm::Error);

/// The largest plaintext (and ciphertext body) AES-GCM accepts, in bytes.
pub const P_MAX: u64 = 0x10_0000_0000;
/// The largest associated data AES-GCM accepts, in bytes.
pub const A_MAX: u64 = 0x10_0000_0000;
/// The length of an AES-GCM tag.
pub const TAG_LEN: usize = 16;

/// What AES-256-GCM encryption gives for a key, nonce, associated data and plaintext.
pub uninterp spec fn aes256gcm_seal(key: Seq<u8>, nonce: Seq<u8>, aad: Seq<u8>, plain: Seq<u8>) -> Seq<u8>;

/// What AES-256-GCM decryption gives for a key, nonce, associated data and
/// ciphertext (`None` when authentication fails).
pub uninterp spec fn aes256gcm_open(key: Seq<u8>, nonce: Seq<u8>, aad: Seq<u8>, ct: Seq<u8>) -> Option<Seq<u8>>;

/// `<aes_gcm::Aes256Gcm as aead::Aead>::encrypt` with a 32-byte key, a 12-byte
/// nonce and a `Payload` of message and associated data. Claimed of it: the
/// ciphertext is the named value `aes256gcm_seal`, 16 bytes (the tag) longer
/// than the plaintext; it fails exactly when the plaintext or the associated
/// data exceeds 2^36 bytes (the `P_MAX` and `A_MAX` checks of its source).
#[verifier::external_body]
fn aead_seal(key: &[u8; 32], nonce: &[u8], aad: &[u8], plain: &[u8]) -> (r: Result<Vec<u8>, aes_gcm::Error>)
    requires
        nonce@.len() == 12,
    ensures
        r matches Ok(ct) ==> ct@ == aes256gcm_seal(key@, nonce@, aad@, plain@) && ct@.len() == plain@.len() + TAG_LEN,
        plain@.len() <= P_MAX && aad@.len() <= A_MAX ==> r is Ok,
        r is Ok ==> plain@.len() <= P_MAX && aad@.len() <= A_MAX,
{
    let cipher = aes_gcm::Aes256Gcm::new(aes_gcm::Key::<aes_gcm::Aes256Gcm>::from_slice(key));
    cipher.encrypt(aes_gcm::Nonce::from_slice(nonce), Payload { msg: plain, aad })
}

/// `<aes_gcm::Aes256Gcm as aead::Aead>::decrypt` with a 32-byte key, a 12-byte
/// nonce and a `Payload` of ciphertext and associated data. Claimed of it: it
/// succeeds exactly when the named value `aes256gcm_open` is `Some`, with that
/// plaintext; and, as AES-GCM is an authenticated cipher, a ciphertext made by
/// `aes256gcm_seal` from a plaintext of at most 2^36 bytes under the same key,
/// nonce and associated data (of at most 2^36 bytes) opens to that plaintext.
#[verifier::external_body]
fn aead_open(key: &[u8; 32], nonce: &[u8], aad: &[u8], ct: &[u8]) -> (r: Result<Vec<u8>, aes_gcm::Error>)
    requires
        nonce@.len() == 12,
    ensures
        r is Ok <==> aes256gcm_open(key@, nonce@, aad@, ct@) is Some,
        r matches Ok(p) ==> aes256gcm_open(key@, nonce@, aad@, ct@) == Some(p@),
        r matches Ok(out) ==> forall|p: Seq<u8>|
            #![trigger aes256gcm_seal(key@, nonce@, aad@, p)]
            p.len() <= P_MAX && aad@.len() <= A_MAX && ct@ == aes256gcm_seal(key@, nonce@, aad@, p) ==> out@ == p,
        r is Err ==> forall|p: Seq<u8>|
            #![trigger aes256gcm_seal(key@, nonce@, aad@, p)]
            !(p.len() <= P_MAX && aad@.len() <= A_MAX && ct@ == aes256gcm_seal(key@, nonce@, aad@, p)),
{
    let cipher = aes_gcm::Aes256Gcm::new(aes_gcm::Key::<aes_gcm::Aes256Gcm>::from_slice(key));
    cipher.decrypt(aes_gcm::Nonce::from_slice(nonce), Payload { msg: ct, aad })
}

/// `rand::thread_rng().fill_bytes`: `N` random bytes. Nothing is claimed of them.
#[verifier::external_body]
fn random_array<const N: usize>() -> (r: [u8; N]) {
    let mut b = [0u8; N];
    rand::thread_rng().fill_bytes(&mut b);
    b
}

/// The SHA-256 digest of a byte string.
pub uninterp spec fn sha256_of(data: Seq<u8>) -> Seq<u8>;

/// `<sha2::Sha256 as sha2::Digest>::digest`: the 32-byte SHA-256 digest, named `sha256_of`.
#[verifier::external_body]
fn sha256(data: &[u8]) -> (r: [u8; 32])
    ensures
        r@ == sha256_of(data@),
{
    sha2::Sha256::digest(data).into()
}

/// What scrypt derives (32 bytes) from a password and salt with cost parameters
/// `log_n`, `r`, `p`; `None` when the parameters are refused.
pub uninterp spec fn scrypt_key(password: Seq<u8>, salt: Seq<u8>, log_n: u8, r: u32, p: u32) -> Option<Seq<u8>>;

/// Why scrypt refused to derive a key.
pub enum ScryptFailure {
    InvalidParams,
    InvalidOutputLen,
}

/// `scrypt::Params::new(log_n, r, p, 32)` then `scrypt::scrypt` into a 32-byte
/// buffer. Claimed of it: it succeeds exactly when the named value `scrypt_key`
/// is `Some`, with that key; the two outside errors are told apart; and it
/// succeeds for small parameters (`0 < r <= 8`, `0 < p <= 8`, `log_n <= 16`,
/// `log_n < 16 r`), which pass every check of `Params::new` (no product
/// overflows even a 32-bit `usize`, `r p < 2^30`) and for which a 32-byte
/// output passes the length check of `scrypt`.
#[verifier::external_body]
fn scrypt_derive(password: &[u8], salt: &[u8], log_n: u8, r: u32, p: u32) -> (res: Result<[u8; 32], ScryptFailure>)
    ensures
        res is Ok <==> scrypt_key(password@, salt@, log_n, r, p) is Some,
        res matches Ok(k) ==> scrypt_key(password@, salt@, log_n, r, p) == Some(k@),
        0 < r <= 8 && 0 < p <= 8 && log_n <= 16 && log_n < r * 16 ==> res is Ok,
{
    let params = match scrypt::Params::new(log_n, r, p, 32) {
        Ok(params) => params,
        Err(_) => return Err(ScryptFailure::InvalidParams),
    };
    let mut key = [0u8; 32];
    match scrypt::scrypt(password, salt, &params, &mut key) {
        Ok(()) => Ok(key),
        Err(_) => Err(ScryptFailure::InvalidOutputLen),
    }
}

/// What zlib compression (default level) gives for `data`; `None` when it fails.
pub uninterp spec fn zlib_compressed(data: Seq<u8>) -> Option<Seq<u8>>;

/// What zlib decompression gives for `data`; `None` when it is no valid zlib stream.
pub uninterp spec fn zlib_decompressed(data: Seq<u8>) -> Option<Seq<u8>>;

/// `flate2::write::ZlibEncoder` at `Compression::default()` into a `Vec`:
/// `write_all` then `finish`. Claimed of it: it succeeds exactly when the named
/// value `zlib_compressed` is `Some`, with those bytes; an error is reported by
/// its text.
#[verifier::external_body]
fn zlib_compress(data: &[u8]) -> (r: Result<Vec<u8>, String>)
    ensures
        r is Ok <==> zlib_compressed(data@) is Some,
        r matches Ok(c) ==> zlib_compressed(data@) == Some(c@),
{
    let mut enc = flate2::write::ZlibEncoder::new(Vec::new(), flate2::Compression::default());
    std::io::Write::write_all(&mut enc, data).map_err(|e| e.to_string())?;
    enc.finish().map_err(|e| e.to_string())
}

/// `flate2::read::ZlibDecoder` read to the end. Claimed of it: it succeeds exactly
/// when the named value `zlib_decompressed` is `Some`, with those bytes; and, as
/// zlib is lossless, the compressed form of some bytes decompresses to them.
#[verifier::external_body]
fn zlib_decompress(data: &[u8]) -> (r: Result<Vec<u8>, String>)
    ensures
        r is Ok <==> zlib_decompressed(data@) is Some,
        r matches Ok(p) ==> zlib_decompressed(data@) == Some(p@),
        r matches Ok(out) ==> forall|p: Seq<u8>| #[trigger] zlib_compressed(p) == Some(data@) ==> out@ == p,
        r is Err ==> forall|p: Seq<u8>| #[trigger] zlib_compressed(p) != Some(data@),
{
    let mut dec = flate2::read::ZlibDecoder::new(data);
    let mut out = Vec::new();
    std::io::Read::read_to_end(&mut dec, &mut out).map_err(|e| e.to_string())?;
    Ok(out)
}

// ---------------------------------------------------------------------------
// Byte helpers
// ---------------------------------------------------------------------------

fn push_bytes(dst: &mut Vec<u8>, src: &[u8])
    ensures
        final(dst)@ == old(dst)@ + src@,
{
    let mut i: usize = 0;
    while i < src.len()
        invariant
            i <= src.len(),
            dst@ == old(dst)@ + src@.take(i as int),
        decreases src.len() - i,
    {
        dst.push(src[i]);
        assert(src@.take(i + 1) =~= src@.take(i as int).push(src@[i as int]));
        i = i + 1;
    }
    assert(src@.take(src.len() as int) =~= src@);
}

fn sub_bytes(data: &[u8], from: usize, to: usize) -> (r: Vec<u8>)
    requires
        from <= to <= data.len(),
    ensures
        r@ == data@.subrange(from as int, to as int),
{
    let mut r: Vec<u8> = Vec::new();
    let mut i = from;
    while i < to
        invariant
            from <= i <= to <= data.len(),
            r@ == data@.subrange(from as int, i as int),
        decreases to - i,
    {
        r.push(data[i]);
        assert(data@.subrange(from as int, i + 1) =~= data@.subrange(from as int, i as int).push(data@[i as int]));
        i = i + 1;
    }
    r
}

// ---------------------------------------------------------------------------
// Keys
// ---------------------------------------------------------------------------

/// A fresh random 32-byte key.
pub fn generate_key() -> (k: [u8; 32]) {
    random_array::<32>()
}

/// The hex digit of `d` in upper case.
pub open spec fn hex_digit(d: u8) -> char {
    if d < 10 {
        (('0' as u8) + d) as char
    } else {
        (('A' as u8) + d - 10) as char
    }
}

/// Upper-case hexadecimal, two digits per byte.
pub open spec fn hex_upper(b: Seq<u8>) -> Seq<char>
    decreases b.len(),
{
    if b.len() == 0 {
        Seq::empty()
    } else {
        hex_upper(b.drop_last()) + seq![hex_digit(b.last() / 16), hex_digit(b.last() % 16)]
    }
}

/// An upper-case hexadecimal digit.
pub open spec fn is_upper_hex(c: char) -> bool {
    ('0' <= c && c <= '9') || ('A' <= c && c <= 'F')
}

fn hex_char(d: u8) -> (c: char)
    requires
        d < 16,
    ensures
        c == hex_digit(d),
        is_upper_hex(c),
{
    if d < 10 {
        (('0' as u8) + d) as char
    } else {
        (('A' as u8) + d - 10) as char
    }
}

/// How many digest bytes the fingerprint shows.
pub const FINGERPRINT_BYTES: usize = 6;

/// The fingerprint of a key: the first six bytes of its SHA-256 digest in
/// upper-case hexadecimal (twelve characters).
pub fn fingerprint(key: &[u8; 32]) -> (r: String)
    ensures
        r@ == hex_upper(sha256_of(key@).take(FINGERPRINT_BYTES as int)),
        r@.len() == 2 * FINGERPRINT_BYTES,
        forall|j: int| 0 <= j < r@.len() ==> is_upper_hex(#[trigger] r@[j]),
{
    let d = sha256(key.as_slice());
    let mut s = String::new();
    let mut i: usize = 0;
    assert(d@.take(0) =~= Seq::<u8>::empty());
    while i < FINGERPRINT_BYTES
        invariant
            i <= FINGERPRINT_BYTES,
            d@ == sha256_of(key@),
            d@.len() == 32,
            s@ == hex_upper(d@.take(i as int)),
            s@.len() == 2 * i,
            forall|j: int| 0 <= j < s@.len() ==> is_upper_hex(#[trigger] s@[j]),
        decreases FINGERPRINT_BYTES - i,
    {
        let b = d[i];
        let hi = hex_char(b / 16);
        let lo = hex_char(b % 16);
        string_push(&mut s, hi);
        string_push(&mut s, lo);
        assert(d@.take(i + 1).drop_last() =~= d@.take(i as int));
        assert(d@.take(i + 1).last() == b);
        assert(s@ =~= hex_upper(d@.take(i + 1)));
        i = i + 1;
    }
    s
}

// ---------------------------------------------------------------------------
// Local files
// ---------------------------------------------------------------------------

/// The magic bytes of a local file: `JSR1`.
pub open spec fn file_magic() -> Seq<u8> {
    seq![0x4Au8, 0x53u8, 0x52u8, 0x31u8]
}

/// The magic bytes of a password backup: `JSB1`.
pub open spec fn jsb_magic() -> Seq<u8> {
    seq![0x4Au8, 0x53u8, 0x42u8, 0x31u8]
}

/// The format version written.
pub const FORMAT_VERSION: u8 = 1;
/// The length of the header of a local file (magic, version, nonce).
pub const FILE_HEADER_LEN: usize = 17;
/// The length of the header of a backup (magic, version, salt, nonce).
pub const JSB_HEADER_LEN: usize = 33;

pub const ENCRYPT_FAILED: &'static str = "加密失败: aead::Error";
pub const NOT_A_FILE: &'static str = "文件格式损坏或不是锦书加密文件";
pub const DECRYPT_FAILED: &'static str = "解密失败：密钥不匹配或文件已损坏";
pub const NOT_A_BACKUP: &'static str = "不是有效的 .jsb 加密备份文件";
pub const WRONG_PASSWORD: &'static str = "密码错误或文件已损坏";
pub const INVALID_PARAMS: &'static str = "invalid scrypt parameters";
pub const INVALID_OUTPUT_LEN: &'static str = "invalid output buffer length";

/// A local file made of `nonce` and the ciphertext `ct`.
pub open spec fn file_blob(nonce: Seq<u8>, ct: Seq<u8>) -> Seq<u8> {
    file_magic() + seq![FORMAT_VERSION] + nonce + ct
}

/// `data` starts with `magic` and is at least `min` bytes long.
pub open spec fn framed(data: Seq<u8>, magic: Seq<u8>, min: nat) -> bool {
    data.len() >= min && data.take(4) == magic
}

/// The result of decrypting local file `data` with `key` and `aad`.
pub open spec fn decrypt_result(key: Seq<u8>, aad: Seq<u8>, data: Seq<u8>) -> Result<Seq<u8>, Seq<char>> {
    if !framed(data, file_magic(), FILE_HEADER_LEN as nat) {
        Err(NOT_A_FILE@)
    } else {
        match aes256gcm_open(key, data.subrange(5, 17), aad, data.skip(17)) {
            Some(p) => Ok(p),
            None => Err(DECRYPT_FAILED@),
        }
    }
}

fn starts_with_magic(data: &[u8], magic: &[u8; 4]) -> (r: bool)
    requires
        data@.len() >= 4,
    ensures
        r == (data@.take(4) == magic@),
{
    let r = data[0] == magic[0] && data[1] == magic[1] && data[2] == magic[2] && data[3] == magic[3];
    if r {
        assert(data@.take(4) =~= magic@);
    } else {
        assert(data@.take(4) != magic@) by {
            if data@.take(4) == magic@ {
                assert(data@.take(4)[0] == data@[0]);
                assert(data@.take(4)[1] == data@[1]);
                assert(data@.take(4)[2] == data@[2]);
                assert(data@.take(4)[3] == data@[3]);
            }
        }
    }
    r
}

fn file_magic_bytes() -> (m: [u8; 4])
    ensures
        m@ == file_magic(),
{
    let m: [u8; 4] = [0x4A, 0x53, 0x52, 0x31];
    assert(m@ =~= file_magic());
    m
}

fn jsb_magic_bytes() -> (m: [u8; 4])
    ensures
        m@ == jsb_magic(),
{
    let m: [u8; 4] = [0x4A, 0x53, 0x42, 0x31];
    assert(m@ =~= jsb_magic());
    m
}

/// Encrypts `plain` into the local file format: magic, version, a fresh random
/// nonce and the AES-256-GCM ciphertext authenticated with `aad`.
pub fn encrypt_bytes(key: &[u8; 32], aad: &[u8], plain: &[u8]) -> (r: Result<Vec<u8>, String>)
    ensures
        match r {
            Ok(blob) => exists|nonce: Seq<u8>|
                nonce.len() == 12 && blob@ == file_blob(nonce, aes256gcm_seal(key@, nonce, aad@, plain@)),
            Err(e) => e@ == ENCRYPT_FAILED@,
        },
        r matches Ok(blob) ==> blob@.len() == plain@.len() + FILE_HEADER_LEN + TAG_LEN,
        r is Ok <==> plain@.len() <= P_MAX && aad@.len() <= A_MAX,
{
    let nonce = random_array::<12>();
    match aead_seal(key, nonce.as_slice(), aad, plain) {
        Ok(ct) => {
            let mut out: Vec<u8> = Vec::new();
            let magic = file_magic_bytes();
            push_bytes(&mut out, magic.as_slice());
            out.push(FORMAT_VERSION);
            push_bytes(&mut out, nonce.as_slice());
            push_bytes(&mut out, ct.as_slice());
            assert(out@ =~= file_blob(nonce@, ct@));
            Ok(out)
        },
        Err(_) => Err(ENCRYPT_FAILED.to_owned()),
    }
}

/// Decrypts a local file: refuses data that is shorter than the header or does
/// not start with the magic, then opens the ciphertext with the nonce it holds.
pub fn decrypt_bytes(key: &[u8; 32], aad: &[u8], data: &[u8]) -> (r: Result<Vec<u8>, String>)
    ensures
        match (r, decrypt_result(key@, aad@, data@)) {
            (Ok(p), Ok(q)) => p@ == q,
            (Err(e), Err(f)) => e@ == f,
            _ => false,
        },
        forall|nonce: Seq<u8>, p: Seq<u8>|
            #![trigger file_blob(nonce, aes256gcm_seal(key@, nonce, aad@, p))]
            nonce.len() == 12 && p.len() <= P_MAX && aad@.len() <= A_MAX && data@ == file_blob(
                nonce,
                aes256gcm_seal(key@, nonce, aad@, p),
            ) ==> (r matches Ok(out) && out@ == p),
{
    proof {
        assert forall|n: Seq<u8>, ct: Seq<u8>| n.len() == 12 && data@ == #[trigger] file_blob(n, ct)
            implies framed(data@, file_magic(), FILE_HEADER_LEN as nat) by {
            assert(data@.take(4) =~= file_magic());
        }
    }
    if data.len() < FILE_HEADER_LEN || !starts_with_magic(data, &file_magic_bytes()) {
        return Err(NOT_A_FILE.to_owned());
    }
    let nonce = sub_bytes(data, 5, 17);
    let ct = sub_bytes(data, 17, data.len());
    assert(ct@ =~= data@.skip(17));
    let r = aead_open(key, nonce.as_slice(), aad, ct.as_slice());
    proof {
        assert forall|n: Seq<u8>, p: Seq<u8>|
            #![trigger file_blob(n, aes256gcm_seal(key@, n, aad@, p))]
            n.len() == 12 && p.len() <= P_MAX && aad@.len() <= A_MAX && data@ == file_blob(
                n,
                aes256gcm_seal(key@, n, aad@, p),
            ) implies r matches Ok(out) && out@ == p by {
            assert(data@.subrange(5, 17) =~= n);
            assert(data@.skip(17) =~= aes256gcm_seal(key@, n, aad@, p));
            assert(aes256gcm_seal(key@, nonce@, aad@, p) == ct@);
        }
    }
    match r {
        Ok(p) => Ok(p),
        Err(_) => Err(DECRYPT_FAILED.to_owned()),
    }
}

// ---------------------------------------------------------------------------
// Password backups
// ---------------------------------------------------------------------------

/// The scrypt cost parameters of backups: N = 2^15, r = 8, p = 1.
pub const SCRYPT_LOG_N: u8 = 15;
pub const SCRYPT_R: u32 = 8;
pub const SCRYPT_P: u32 = 1;

/// The key derived from a password (its UTF-8 bytes) and a salt.
pub open spec fn password_key(password: Seq<u8>, salt: Seq<u8>) -> Option<Seq<u8>> {
    scrypt_key(password, salt, SCRYPT_LOG_N, SCRYPT_R, SCRYPT_P)
}

/// Derives a 32-byte key from a password and salt with scrypt (N = 2^15, r = 8, p = 1).
pub fn derive_key_from_password(password: &str, salt: &[u8]) -> (r: Result<[u8; 32], String>)
    ensures
        r matches Ok(k) && password_key(password.spec_bytes(), salt@) == Some(k@),
{
    match scrypt_derive(password.as_bytes(), salt, SCRYPT_LOG_N, SCRYPT_R, SCRYPT_P) {
        Ok(k) => Ok(k),
        Err(ScryptFailure::InvalidParams) => Err(INVALID_PARAMS.to_owned()),
        Err(ScryptFailure::InvalidOutputLen) => Err(INVALID_OUTPUT_LEN.to_owned()),
    }
}

/// A backup made of `salt`, `nonce` and the ciphertext `ct`.
pub open spec fn jsb_blob(salt: Seq<u8>, nonce: Seq<u8>, ct: Seq<u8>) -> Seq<u8> {
    jsb_magic() + seq![FORMAT_VERSION] + salt + nonce + ct
}

/// The plain bytes of backup `data` under `password`, when everything succeeds.
pub open spec fn jsb_plain(password: Seq<u8>, data: Seq<u8>) -> Option<Seq<u8>> {
    if !framed(data, jsb_magic(), JSB_HEADER_LEN as nat) {
        None
    } else {
        match password_key(password, data.subrange(5, 21)) {
            Some(key) => match aes256gcm_open(key, data.subrange(21, 33), Seq::empty(), data.skip(33)) {
                Some(z) => zlib_decompressed(z),
                None => None,
            },
            None => None,
        }
    }
}

/// Encrypts `plain` into a password backup: a fresh random salt and nonce, the
/// key derived from the password, and the ciphertext of the zlib-compressed bytes.
pub fn encrypt_jsb(password: &str, plain: &[u8]) -> (r: Result<Vec<u8>, String>)
    ensures
        zlib_compressed(plain@) matches Some(z) && z.len() <= P_MAX ==> r is Ok,
        r matches Err(e) ==> zlib_compressed(plain@) is None || (zlib_compressed(plain@) matches Some(z)
            && z.len() > P_MAX && e@ == ENCRYPT_FAILED@),
        r matches Ok(blob) ==> exists|salt: Seq<u8>, nonce: Seq<u8>, key: Seq<u8>, z: Seq<u8>|
            #![trigger jsb_blob(salt, nonce, aes256gcm_seal(key, nonce, Seq::empty(), z))]
            salt.len() == 16 && nonce.len() == 12 && password_key(password.spec_bytes(), salt) == Some(key)
                && zlib_compressed(plain@) == Some(z) && z.len() <= P_MAX && blob@ == jsb_blob(
                salt,
                nonce,
                aes256gcm_seal(key, nonce, Seq::empty(), z),
            ),
{
    let salt = random_array::<16>();
    let key = derive_key_from_password(password, salt.as_slice())?;
    let compressed = zlib_compress(plain)?;
    let nonce = random_array::<12>();
    let empty: Vec<u8> = Vec::new();
    match aead_seal(&key, nonce.as_slice(), empty.as_slice(), compressed.as_slice()) {
        Ok(ct) => {
            let mut out: Vec<u8> = Vec::new();
            let magic = jsb_magic_bytes();
            push_bytes(&mut out, magic.as_slice());
            out.push(FORMAT_VERSION);
            push_bytes(&mut out, salt.as_slice());
            push_bytes(&mut out, nonce.as_slice());
            push_bytes(&mut out, ct.as_slice());
            assert(empty@ =~= Seq::<u8>::empty());
            assert(out@ =~= jsb_blob(salt@, nonce@, ct@));
            Ok(out)
        },
        Err(_) => Err(ENCRYPT_FAILED.to_owned()),
    }
}

/// Decrypts a password backup: refuses data shorter than the header or without
/// the magic, derives the key from the password and the stored salt, opens the
/// ciphertext with the stored nonce and decompresses it.
pub fn decrypt_jsb(password: &str, data: &[u8]) -> (r: Result<Vec<u8>, String>)
    ensures
        r matches Ok(p) ==> jsb_plain(password.spec_bytes(), data@) == Some(p@),
        r is Err ==> jsb_plain(password.spec_bytes(), data@) is None,
        !framed(data@, jsb_magic(), JSB_HEADER_LEN as nat) ==> (r matches Err(e) && e@ == NOT_A_BACKUP@),
        (framed(data@, jsb_magic(), JSB_HEADER_LEN as nat) && (password_key(password.spec_bytes(), data@.subrange(5, 21)) matches Some(key)
            && aes256gcm_open(key, data@.subrange(21, 33), Seq::empty(), data@.skip(33)) is None))
            ==> (r matches Err(e) && e@ == WRONG_PASSWORD@),
        forall|salt: Seq<u8>, nonce: Seq<u8>, key: Seq<u8>, z: Seq<u8>, p: Seq<u8>|
            #![trigger jsb_blob(salt, nonce, aes256gcm_seal(key, nonce, Seq::empty(), z)), zlib_compressed(p)]
            salt.len() == 16 && nonce.len() == 12 && z.len() <= P_MAX && password_key(password.spec_bytes(), salt) == Some(key)
                && zlib_compressed(p) == Some(z) && data@ == jsb_blob(
                salt,
                nonce,
                aes256gcm_seal(key, nonce, Seq::empty(), z),
            ) ==> (r matches Ok(out) && out@ == p),
{
    proof {
        assert forall|sl: Seq<u8>, n: Seq<u8>, ct: Seq<u8>|
            sl.len() == 16 && n.len() == 12 && data@ == #[trigger] jsb_blob(sl, n, ct)
            implies framed(data@, jsb_magic(), JSB_HEADER_LEN as nat) by {
            assert(data@.take(4) =~= jsb_magic());
        }
    }
    if data.len() < JSB_HEADER_LEN || !starts_with_magic(data, &jsb_magic_bytes()) {
        return Err(NOT_A_BACKUP.to_owned());
    }
    let salt = sub_bytes(data, 5, 21);
    let nonce = sub_bytes(data, 21, 33);
    let ct = sub_bytes(data, 33, data.len());
    assert(ct@ =~= data@.skip(33));
    proof {
        assert forall|sl: Seq<u8>, n: Seq<u8>, k: Seq<u8>, z: Seq<u8>|
            #![trigger jsb_blob(sl, n, aes256gcm_seal(k, n, Seq::empty(), z))]
            sl.len() == 16 && n.len() == 12 && data@ == jsb_blob(sl, n, aes256gcm_seal(k, n, Seq::empty(), z))
            implies salt@ == sl && nonce@ == n && ct@ == aes256gcm_seal(k, n, Seq::empty(), z) by {
            assert(data@.subrange(5, 21) =~= sl);
            assert(data@.subrange(21, 33) =~= n);
            assert(data@.skip(33) =~= aes256gcm_seal(k, n, Seq::empty(), z));
        }
    }
    let key = derive_key_from_password(password, salt.as_slice())?;
    let empty: Vec<u8> = Vec::new();
    assert(empty@ =~= Seq::<u8>::empty());
    let compressed = match aead_open(&key, nonce.as_slice(), empty.as_slice(), ct.as_slice()) {
        Ok(z) => z,
        Err(_) => return Err(WRONG_PASSWORD.to_owned()),
    };
    zlib_decompress(compressed.as_slice())
}

} // verus!
