//! AES-256-GCM encryption of history entries, and reading the history key
//! from its hexadecimal form or from stored key bytes.

use aes_gcm::aead::{Aead, AeadCore, KeyInit, OsRng};
use aes_gcm::Aes256Gcm;
use vstd::prelude::*;
use vstd::string::StringSliceAdditionalSpecFns;

verus! {

/// Errors of the history encryption.
#[derive(Debug)]
pub enum CryptoError {
    /// The key could not be read or stored; the text says why.
    Keychain(String),
    /// The plaintext could not be encrypted.
    Encrypt,
    /// The ciphertext did not decrypt under the key and nonce.
    Decrypt,
}

/// The largest plaintext, in bytes, that AES-GCM encrypts (2^36).
pub const PLAINTEXT_MAX: u64 = 68719476736;

/// The length of an authentication tag, in bytes.
pub const TAG_LEN: usize = 16;

/// The AES-256-GCM ciphertext (with its tag appended) of `plaintext` under
/// `key` and `nonce`, with no associated data.
pub uninterp spec fn aes256gcm_seal(key: Seq<u8>, nonce: Seq<u8>, plaintext: Seq<u8>) -> Seq<u8>;

/// The plaintext that `ciphertext` (with its tag appended) decrypts to
/// under `key` and `nonce`, or `None` when the tag does not verify.
pub uninterp spec fn aes256gcm_open(key: Seq<u8>, nonce: Seq<u8>, ciphertext: Seq<u8>) -> Option<
    Seq<u8>,
>;

/// `aes_gcm`'s `Aead::encrypt` for `Aes256Gcm`, with no associated data.
/// Claimed: it fails exactly when the plaintext is longer than 2^36 bytes
/// (the only check on that path), the ciphertext is the plaintext's
/// length plus the 16-byte tag (the tag is appended), it is the cipher's named
/// result, and decrypting that ciphertext with the same key and nonce gives
/// the plaintext back (the crate's documented use).
#[verifier::external_body]
fn aes_encrypt(key: &[u8; 32], nonce: &[u8; 12], plaintext: &[u8]) -> (r: Option<Vec<u8>>)
    ensures
        r is Some <==> plaintext@.len() <= PLAINTEXT_MAX,
        r matches Some(ct) ==> ct@ == aes256gcm_seal(key@, nonce@, plaintext@),
        r matches Some(ct) ==> ct@.len() == plaintext@.len() + TAG_LEN,
        r matches Some(ct) ==> aes256gcm_open(key@, nonce@, ct@) == Some(plaintext@),
{
    let cipher = Aes256Gcm::new(key.into());
    let nonce_arr: aes_gcm::Nonce<_> = (*nonce).into();
    cipher.encrypt(&nonce_arr, plaintext).ok()
}

/// `aes_gcm`'s `Aead::decrypt` for `Aes256Gcm`, with no associated data.
/// Claimed: the result is the cipher's named result, and a ciphertext
/// shorter than the tag is rejected (the first check on that path).
#[verifier::external_body]
fn aes_decrypt(key: &[u8; 32], nonce: &[u8; 12], ciphertext: &[u8]) -> (r: Option<Vec<u8>>)
    ensures
        match r {
            Some(p) => aes256gcm_open(key@, nonce@, ciphertext@) == Some(p@),
            None => aes256gcm_open(key@, nonce@, ciphertext@) is None,
        },
        ciphertext@.len() < TAG_LEN ==> r is None,
{
    let cipher = Aes256Gcm::new(key.into());
    let nonce_arr: aes_gcm::Nonce<_> = (*nonce).into();
    cipher.decrypt(&nonce_arr, ciphertext).ok()
}

/// `AeadCore::generate_nonce` with the operating system's random source.
/// Nothing is claimed of the nonce: it is random.
#[verifier::external_body]
fn random_nonce() -> (n: [u8; 12]) {
    Aes256Gcm::generate_nonce(&mut OsRng).into()
}

/// `KeyInit::generate_key` with the operating system's random source.
/// Nothing is claimed of the key: it is random.
#[verifier::external_body]
fn random_key() -> (k: [u8; 32]) {
    Aes256Gcm::generate_key(OsRng).into()
}

/// Encrypts `plaintext` under `key` with a fresh random nonce; returns the
/// nonce and the ciphertext with its tag appended. Fails only for a
/// plaintext longer than 2^36 bytes.
pub fn encrypt(key: &[u8; 32], plaintext: &[u8]) -> (r: Result<([u8; 12], Vec<u8>), CryptoError>)
    ensures
        r is Ok <==> plaintext@.len() <= PLAINTEXT_MAX,
        r matches Err(e) ==> e is Encrypt,
        r matches Ok((nonce, ct)) ==> encrypted(key@, nonce@, plaintext@, ct@),
        r matches Ok((nonce, ct)) ==> ct@.len() == plaintext@.len() + TAG_LEN,
{
    let nonce = random_nonce();
    match aes_encrypt(key, &nonce, plaintext) {
        Some(ct) => Ok((nonce, ct)),
        None => Err(CryptoError::Encrypt),
    }
}

/// Decrypts `ciphertext` (tag appended) under `key` and `nonce`.
pub fn decrypt(key: &[u8; 32], nonce: &[u8; 12], ciphertext: &[u8]) -> (r: Result<
    Vec<u8>,
    CryptoError,
>)
    ensures
        match r {
            Ok(p) => decrypted(key@, nonce@, ciphertext@) == Some(p@),
            Err(e) => e is Decrypt && decrypted(key@, nonce@, ciphertext@) is None,
        },
        ciphertext@.len() < TAG_LEN ==> r is Err,
{
    match aes_decrypt(key, nonce, ciphertext) {
        Some(p) => Ok(p),
        None => Err(CryptoError::Decrypt),
    }
}

/// A new random history key.
pub fn generate_key() -> [u8; 32] {
    random_key()
}

/// The key held in stored key bytes: `Some` exactly when there are 32 of
/// them (any other length means a new key must be made).
pub fn key_from_secret(bytes: &[u8]) -> (r: Option<[u8; 32]>)
    ensures
        r is Some <==> bytes@.len() == 32,
        r matches Some(k) ==> k@ == bytes@,
{
    if bytes.len() != 32 {
        return None;
    }
    let k: [u8; 32] = [
        bytes[0],
        bytes[1],
        bytes[2],
        bytes[3],
        bytes[4],
        bytes[5],
        bytes[6],
        bytes[7],
        bytes[8],
        bytes[9],
        bytes[10],
        bytes[11],
        bytes[12],
        bytes[13],
        bytes[14],
        bytes[15],
        bytes[16],
        bytes[17],
        bytes[18],
        bytes[19],
        bytes[20],
        bytes[21],
        bytes[22],
        bytes[23],
        bytes[24],
        bytes[25],
        bytes[26],
        bytes[27],
        bytes[28],
        bytes[29],
        bytes[30],
        bytes[31],
    ];
    assert(k@ =~= bytes@);
    Some(k)
}

/// Why a hexadecimal key was refused.
#[derive(Debug, PartialEq, Eq, Structural)]
pub enum HexKeyError {
    /// The text is not 64 bytes long; it holds this many.
    WrongLength(usize),
    /// A two-byte group is not a number in base 16.
    InvalidDigit,
    /// A two-byte group is not UTF-8 text on its own (it splits a
    /// character): where the UTF-8 check stopped, as
    /// `std::str::Utf8Error` reports it.
    InvalidUtf8 { valid_up_to: usize, error_len: Option<usize> },
}

/// The value of a hexadecimal digit byte, either case.
pub open spec fn hex_digit(b: u8) -> Option<int> {
    if 48 <= b <= 57 {
        Some(b - 48)
    } else if 97 <= b <= 102 {
        Some(b - 87)
    } else if 65 <= b <= 70 {
        Some(b - 55)
    } else {
        None
    }
}

/// What `u8::from_str_radix(_, 16)` gives for a two-byte group: two hex
/// digits, or `+` and one hex digit.
pub open spec fn hex_pair(b0: u8, b1: u8) -> Option<int> {
    match (hex_digit(b0), hex_digit(b1)) {
        (Some(h), Some(l)) => Some(h * 16 + l),
        (None, Some(l)) => if b0 == 43 {
            Some(l)
        } else {
            None
        },
        _ => None,
    }
}

/// Whether two bytes are UTF-8 text on their own: two ASCII bytes, or one
/// two-byte character.
pub open spec fn pair_is_utf8(b0: u8, b1: u8) -> bool {
    (b0 < 0x80 && b1 < 0x80) || (0xc2 <= b0 <= 0xdf && 0x80 <= b1 <= 0xbf)
}

/// Where `std::str::from_utf8` stops on bytes that are not UTF-8: how many
/// bytes are valid, and the length of the invalid sequence (`None` when the
/// bytes end inside a character).
pub uninterp spec fn utf8_error(bytes: Seq<u8>) -> (usize, Option<usize>);

/// `std::str::from_utf8` on two bytes. Claimed: it succeeds exactly when
/// they are UTF-8 on their own (two ASCII bytes or one two-byte character),
/// and otherwise reports the named error position.
#[verifier::external_body]
fn utf8_pair_error(b0: u8, b1: u8) -> (r: Option<(usize, Option<usize>)>)
    ensures
        r is None <==> pair_is_utf8(b0, b1),
        r matches Some(e) ==> e == utf8_error(seq![b0, b1]),
{
    std::str::from_utf8(&[b0, b1]).err().map(|e| (e.valid_up_to(), e.error_len()))
}

/// What one two-byte group of the key text gives: its value, or why it is
/// refused.
pub open spec fn pair_value(b0: u8, b1: u8) -> Result<int, HexKeyError> {
    if !pair_is_utf8(b0, b1) {
        Err(
            HexKeyError::InvalidUtf8 {
                valid_up_to: utf8_error(seq![b0, b1]).0,
                error_len: utf8_error(seq![b0, b1]).1,
            },
        )
    } else {
        match hex_pair(b0, b1) {
            Some(v) => Ok(v),
            None => Err(HexKeyError::InvalidDigit),
        }
    }
}

/// The bytes that the first `n` two-byte groups of `text` spell, or the
/// error of the first group that is refused.
pub open spec fn decode_pairs(text: Seq<u8>, n: nat) -> Result<Seq<u8>, HexKeyError>
    decreases n,
{
    if n == 0 {
        Ok(Seq::empty())
    } else {
        match decode_pairs(text, (n - 1) as nat) {
            Err(e) => Err(e),
            Ok(s) => match pair_value(text[2 * (n - 1)], text[2 * (n - 1) + 1]) {
                Ok(v) => Ok(s.push(v as u8)),
                Err(e) => Err(e),
            },
        }
    }
}

/// The 32 key bytes that 64 bytes of hexadecimal text spell, two bytes of
/// text per key byte, or why the text is refused.
pub open spec fn hex_key_spec(text: Seq<u8>) -> Result<Seq<u8>, HexKeyError> {
    if text.len() != 64 {
        Err(HexKeyError::WrongLength(text.len() as usize))
    } else {
        decode_pairs(text, 32)
    }
}

fn hex_digit_exec(b: u8) -> (r: Option<u8>)
    ensures
        match r {
            Some(v) => hex_digit(b) == Some(v as int),
            None => hex_digit(b) is None,
        },
{
    if 48 <= b && b <= 57 {
        Some(b - 48)
    } else if 97 <= b && b <= 102 {
        Some(b - 87)
    } else if 65 <= b && b <= 70 {
        Some(b - 55)
    } else {
        None
    }
}

fn hex_pair_exec(b0: u8, b1: u8) -> (r: Option<u8>)
    ensures
        match r {
            Some(v) => hex_pair(b0, b1) == Some(v as int),
            None => hex_pair(b0, b1) is None,
        },
{
    match (hex_digit_exec(b0), hex_digit_exec(b1)) {
        (Some(h), Some(l)) => Some(h * 16 + l),
        (None, Some(l)) => if b0 == 43 {
            Some(l)
        } else {
            None
        },
        _ => None,
    }
}

/// Once a group is refused, decoding more groups gives the same error.
proof fn lemma_decode_err_stays(text: Seq<u8>, k: nat, n: nat)
    requires
        k <= n,
        decode_pairs(text, k) is Err,
    ensures
        decode_pairs(text, n) == decode_pairs(text, k),
    decreases n - k,
{
    if k < n {
        lemma_decode_err_stays(text, k, (n - 1) as nat);
    }
}

/// Reads a 32-byte key from 64 hexadecimal characters, two bytes of text
/// per key byte; the first group that is refused gives the error.
pub fn hex_decode_32(hex: &str) -> (r: Result<[u8; 32], HexKeyError>)
    ensures
        match r {
            Ok(k) => hex_key_spec(hex.spec_bytes()) == Ok::<Seq<u8>, HexKeyError>(k@),
            Err(e) => hex_key_spec(hex.spec_bytes()) == Err::<Seq<u8>, HexKeyError>(e),
        },
{
    let bytes = hex.as_bytes();
    if bytes.len() != 64 {
        return Err(HexKeyError::WrongLength(bytes.len()));
    }
    let mut out: [u8; 32] = [0u8; 32];
    let mut i: usize = 0;
    proof {
        assert(out@.take(0) =~= Seq::<u8>::empty());
    }
    while i < 32
        invariant
            bytes@ == hex.spec_bytes(),
            bytes@.len() == 64,
            i <= 32,
            decode_pairs(bytes@, i as nat) == Ok::<Seq<u8>, HexKeyError>(out@.take(i as int)),
        decreases 32 - i,
    {
        let b0 = bytes[2 * i];
        let b1 = bytes[2 * i + 1];
        match utf8_pair_error(b0, b1) {
            Some((valid_up_to, error_len)) => {
                let e = HexKeyError::InvalidUtf8 { valid_up_to, error_len };
                proof {
                    assert(decode_pairs(bytes@, (i + 1) as nat) == Err::<Seq<u8>, HexKeyError>(e));
                    lemma_decode_err_stays(bytes@, (i + 1) as nat, 32);
                }
                return Err(e);
            },
            None => {},
        }
        match hex_pair_exec(b0, b1) {
            Some(v) => {
                let ghost before = out@;
                out[i] = v;
                proof {
                    assert(out@.take(i + 1) =~= before.take(i as int).push(v));
                }
            },
            None => {
                proof {
                    assert(decode_pairs(bytes@, (i + 1) as nat) == Err::<Seq<u8>, HexKeyError>(
                        HexKeyError::InvalidDigit,
                    ));
                    lemma_decode_err_stays(bytes@, (i + 1) as nat, 32);
                }
                return Err(HexKeyError::InvalidDigit);
            },
        }
        i = i + 1;
    }
    proof {
        assert(out@.take(32) =~= out@);
    }
    Ok(out)
}

/// `encrypt`'s promise about a ciphertext it returns.
pub open spec fn encrypted(key: Seq<u8>, nonce: Seq<u8>, plaintext: Seq<u8>, ciphertext: Seq<u8>) -> bool {
    &&& ciphertext == aes256gcm_seal(key, nonce, plaintext)
    &&& aes256gcm_open(key, nonce, ciphertext) == Some(plaintext)
}

/// What `decrypt` gives for a ciphertext: the plaintext, or `None` for an
/// error.
pub open spec fn decrypted(key: Seq<u8>, nonce: Seq<u8>, ciphertext: Seq<u8>) -> Option<Seq<u8>> {
    aes256gcm_open(key, nonce, ciphertext)
}

/// Encryption is undone by decryption: a ciphertext that `encrypt` returned
/// decrypts, under the same key and the nonce returned with it, to the
/// plaintext.
pub proof fn law_encrypt_then_decrypt(
    key: Seq<u8>,
    nonce: Seq<u8>,
    plaintext: Seq<u8>,
    ciphertext: Seq<u8>,
)
    requires
        encrypted(key, nonce, plaintext, ciphertext),
    ensures
        decrypted(key, nonce, ciphertext) == Some(plaintext),
{
}

} // verus!
