//! Authenticated encryption of text values with a 256-bit key.
//!
//! The cipher itself is AES-256-GCM from the `aes_gcm` crate; what it
//! returns is named by the uninterpreted functions `enc_bytes` and
//! `dec_bytes`, and everything around the calls — hex encoding, the
//! `nonce:ciphertext` wire format, UTF-8 handling — is verified against
//! exact models.

use vstd::prelude::*;
use vstd::utf8::{valid_utf8, decode_utf8, encode_utf8, encode_utf8_valid_utf8,
    encode_utf8_decode_utf8};
use aes_gcm::aead::{Aead, KeyInit};
use aes_gcm::aead::rand_core::RngCore;
use crate::VaultError;
use crate::hexcode::{hex_of, unhex, hex_val, hex_encode, hex_decode, lemma_hex_round_trip,
    lemma_hex_of_digits, lemma_hex_of_len};

verus! {

/// A 256-bit symmetric key, held only in volatile memory.
pub type Key = [u8; 32];

/// The ciphertext that AES-256-GCM produces for a key, a nonce and a
/// plaintext. The cipher is a pure function of those three, so its result
/// can be named; no contract states what the bytes are.
pub uninterp spec fn enc_bytes(key: Seq<u8>, nonce: Seq<u8>, plain: Seq<u8>) -> Seq<u8>;

/// The result of AES-256-GCM decryption for a key, a nonce and a
/// ciphertext: the plaintext when the authentication tag checks out,
/// `None` otherwise.
pub uninterp spec fn dec_bytes(key: Seq<u8>, nonce: Seq<u8>, cipher: Seq<u8>) -> Option<Seq<u8>>;

/// A plaintext this many bytes long can be encrypted: AES-GCM rejects
/// messages over 2^36 bytes and nothing shorter.
pub open spec fn within_cipher_limit(n: nat) -> bool {
    n <= 0x10_0000_0000
}

/// Relies on `Aes256Gcm::encrypt` (the `aead` crate's `Aead` trait):
/// deterministic in key, nonce and plaintext, and inverted by `decrypt`
/// with the same key and nonce. The ciphertext is the plaintext plus the
/// appended 16-byte tag, and the call fails only on a plaintext over
/// 2^36 bytes.
#[verifier::external_body]
fn aead_encrypt(plain: &[u8], key: &Key, nonce: &[u8]) -> (r: Option<Vec<u8>>)
    requires
        nonce@.len() == 12,
    ensures
        r matches Some(ct) ==> ct@ == enc_bytes(key@, nonce@, plain@)
            && dec_bytes(key@, nonce@, ct@) == Some(plain@),
        r matches Some(ct) ==> ct@.len() == plain@.len() + 16,
        within_cipher_limit(plain@.len()) ==> r is Some,
{
    let cipher = aes_gcm::Aes256Gcm::new(aes_gcm::Key::<aes_gcm::Aes256Gcm>::from_slice(key));
    cipher.encrypt(aes_gcm::Nonce::from_slice(nonce), plain).ok()
}

/// Relies on `Aes256Gcm::decrypt` (the `aead` crate's `Aead` trait):
/// deterministic in key, nonce and ciphertext; fails exactly when the
/// authentication tag does not check out.
#[verifier::external_body]
fn aead_decrypt(cipher_bytes: &[u8], key: &Key, nonce: &[u8]) -> (r: Option<Vec<u8>>)
    requires
        nonce@.len() == 12,
    ensures
        r is Some <==> dec_bytes(key@, nonce@, cipher_bytes@) is Some,
        r matches Some(p) ==> Some(p@) == dec_bytes(key@, nonce@, cipher_bytes@),
{
    let cipher = aes_gcm::Aes256Gcm::new(aes_gcm::Key::<aes_gcm::Aes256Gcm>::from_slice(key));
    cipher.decrypt(aes_gcm::Nonce::from_slice(nonce), cipher_bytes).ok()
}

/// Relies on `OsRng::fill_bytes` (`rand_core`): fills the buffer from the
/// operating system's secure generator. Nothing can be promised of the
/// values.
#[verifier::external_body]
pub(crate) fn random_bytes(n: usize) -> (r: Vec<u8>)
    ensures
        r@.len() == n,
{
    let mut b = vec![0u8; n];
    aes_gcm::aead::OsRng.fill_bytes(&mut b);
    b
}

/// Relies on `String::from_utf8`: succeeds exactly on valid UTF-8 and
/// decodes it, as `vstd::utf8` models both.
#[verifier::external_body]
fn utf8_to_string(b: Vec<u8>) -> (r: Option<String>)
    ensures
        r is Some <==> valid_utf8(b@),
        r matches Some(s) ==> s@ == decode_utf8(b@),
{
    String::from_utf8(b).ok()
}

/// The pair `(ciphertext_hex, nonce_hex)` is an encryption of `plain`
/// under `key` with the 12-byte nonce `nonce`, and decrypting it with the
/// same key and nonce gives `plain` back.
pub open spec fn is_encryption_of(
    key: Seq<u8>,
    plain: Seq<char>,
    nonce: Seq<u8>,
    ct_hex: Seq<char>,
    nonce_hex: Seq<char>,
) -> bool {
    &&& nonce.len() == 12
    &&& nonce_hex == hex_of(nonce)
    &&& nonce_hex.len() == 24
    &&& ct_hex == hex_of(enc_bytes(key, nonce, encode_utf8(plain)))
    &&& ct_hex.len() == 2 * (encode_utf8(plain).len() + 16)
    &&& dec_bytes(key, nonce, enc_bytes(key, nonce, encode_utf8(plain))) == Some(
        encode_utf8(plain),
    )
}

/// The pair `(ciphertext_hex, nonce_hex)` is an encryption of `plain`
/// under `key` with some fresh 12-byte nonce.
pub open spec fn valid_encryption(
    key: Seq<u8>,
    plain: Seq<char>,
    ct_hex: Seq<char>,
    nonce_hex: Seq<char>,
) -> bool {
    exists|nonce: Seq<u8>| #[trigger] is_encryption_of(key, plain, nonce, ct_hex, nonce_hex)
}

/// What `decrypt` returns: hex-decode both parts, reject a nonce that is
/// not 12 bytes, check the authentication tag, decode the plaintext as
/// UTF-8.
pub open spec fn decrypt_spec(ct_hex: Seq<char>, nonce_hex: Seq<char>, key: Seq<u8>) -> Result<
    Seq<char>,
    VaultError,
> {
    match (unhex(ct_hex), unhex(nonce_hex)) {
        (Some(ct), Some(nonce)) => if nonce.len() != 12 {
            Err(VaultError::MalformedEncryptedValue)
        } else {
            match dec_bytes(key, nonce, ct) {
                Some(p) => if valid_utf8(p) {
                    Ok(decode_utf8(p))
                } else {
                    Err(VaultError::DecryptionFailed)
                },
                None => Err(VaultError::DecryptionFailed),
            }
        },
        _ => Err(VaultError::MalformedEncryptedValue),
    }
}

/// Authenticated encryption of `data` under `key` with a fresh random
/// 96-bit nonce; returns the ciphertext and the nonce, each hex-encoded:
/// 24 hex characters of nonce, and two hex characters for each byte of
/// the plaintext plus the fixed 16-byte authentication tag. Succeeds on
/// every plaintext the cipher accepts — up to 2^36 bytes.
pub fn encrypt(data: &str, key: &Key) -> (r: Result<(String, String), VaultError>)
    ensures
        r matches Ok(p) ==> valid_encryption(key@, data@, p.0@, p.1@),
        r matches Ok(p) ==> p.0@.len() == 2 * (encode_utf8(data@).len() + 16) && p.1@.len()
            == 24,
        within_cipher_limit(encode_utf8(data@).len()) ==> r is Ok,
        r matches Err(e) ==> e == VaultError::EncryptionFailed,
{
    let nonce = random_bytes(12);
    match aead_encrypt(data.as_bytes(), key, nonce.as_slice()) {
        Some(ct) => {
            let ct_hex = hex_encode(ct.as_slice());
            let nonce_hex = hex_encode(nonce.as_slice());
            proof {
                lemma_hex_of_len(nonce@);
                lemma_hex_of_len(ct@);
                assert(is_encryption_of(key@, data@, nonce@, ct_hex@, nonce_hex@));
            }
            Ok((ct_hex, nonce_hex))
        },
        None => Err(VaultError::EncryptionFailed),
    }
}

/// Authenticated decryption: the exact inverse of `decrypt_spec`. Never
/// panics; every malformed input is an error.
pub fn decrypt(ciphertext_hex: &str, nonce_hex: &str, key: &Key) -> (r: Result<String, VaultError>)
    ensures
        r matches Ok(s) ==> decrypt_spec(ciphertext_hex@, nonce_hex@, key@) == Ok::<
            Seq<char>,
            VaultError,
        >(s@),
        r matches Err(e) ==> decrypt_spec(ciphertext_hex@, nonce_hex@, key@) == Err::<
            Seq<char>,
            VaultError,
        >(e),
{
    let ct = match hex_decode(ciphertext_hex) {
        Some(v) => v,
        None => {
            return Err(VaultError::MalformedEncryptedValue);
        },
    };
    let nonce = match hex_decode(nonce_hex) {
        Some(v) => v,
        None => {
            return Err(VaultError::MalformedEncryptedValue);
        },
    };
    if nonce.len() != 12 {
        return Err(VaultError::MalformedEncryptedValue);
    }
    match aead_decrypt(ct.as_slice(), key, nonce.as_slice()) {
        Some(p) => match utf8_to_string(p) {
            Some(s) => Ok(s),
            None => Err(VaultError::DecryptionFailed),
        },
        None => Err(VaultError::DecryptionFailed),
    }
}

/// `s` holds exactly one ':' and it stands at index `j`.
pub open spec fn single_colon_at(s: Seq<char>, j: int) -> bool {
    &&& 0 <= j < s.len()
    &&& s[j] == ':'
    &&& forall|k: int| 0 <= k < s.len() && k != j ==> s[k] != ':'
}

/// Splitting an encoded value at its separator: defined exactly when the
/// string holds exactly one ':', and then the two parts around it.
pub open spec fn split_colon(s: Seq<char>) -> Option<(Seq<char>, Seq<char>)> {
    if exists|j: int| single_colon_at(s, j) {
        let j = choose|j: int| single_colon_at(s, j);
        Some((s.subrange(0, j), s.subrange(j + 1, s.len() as int)))
    } else {
        None
    }
}

/// What bulk decryption makes of one stored encrypted value: split at the
/// single ':', take the first part as the nonce and the second as the
/// ciphertext, and decrypt; `None` on any failure.
pub open spec fn decode_value(ev: Seq<char>, key: Seq<u8>) -> Option<Seq<char>> {
    match split_colon(ev) {
        Some(p) => match decrypt_spec(p.1, p.0, key) {
            Ok(s) => Some(s),
            Err(_) => None,
        },
        None => None,
    }
}

/// Joins a hex nonce and a hex ciphertext into the stored wire form
/// `<nonce_hex>:<ciphertext_hex>`.
pub fn encode_value(ct_hex: String, nonce_hex: String) -> (r: String)
    ensures
        r@ == nonce_hex@ + seq![':'] + ct_hex@,
{
    let mut s = nonce_hex;
    s.append(":");
    s.append(ct_hex.as_str());
    proof {
        reveal_strlit(":");
        assert(":"@ =~= seq![':']);
    }
    s
}

/// Splits a stored encrypted value at its separator: `Some` exactly when
/// the string holds exactly one ':'.
pub fn split_encoded(ev: &str) -> (r: Option<(String, String)>)
    ensures
        r is Some <==> split_colon(ev@) is Some,
        r matches Some(p) ==> split_colon(ev@) == Some((p.0@, p.1@)),
{
    let n = ev.unicode_len();
    let mut i: usize = 0;
    let mut count: usize = 0;
    let mut pos: usize = 0;
    while i < n
        invariant
            0 <= i <= n,
            n == ev@.len(),
            count <= i,
            count == 0 ==> forall|k: int| 0 <= k < i ==> ev@[k] != ':',
            count == 1 ==> pos < i && ev@[pos as int] == ':' && forall|k: int|
                0 <= k < i && k != pos ==> ev@[k] != ':',
            count >= 2 ==> exists|k1: int, k2: int|
                0 <= k1 < k2 < i && #[trigger] ev@[k1] == ':' && #[trigger] ev@[k2] == ':',
        decreases n - i,
    {
        if ev.get_char(i) == ':' {
            proof {
                if count == 1 {
                    assert(ev@[pos as int] == ':' && ev@[i as int] == ':' && pos < i);
                }
            }
            count = count + 1;
            pos = i;
        }
        i = i + 1;
    }
    if count == 1 {
        proof {
            assert(single_colon_at(ev@, pos as int));
            assert forall|j: int| single_colon_at(ev@, j) implies j == pos as int by {
                if j != pos as int {
                    assert(ev@[pos as int] != ':');
                }
            }
        }
        let a = String::from_str(ev.substring_char(0, pos));
        let b = String::from_str(ev.substring_char(pos + 1, n));
        Some((a, b))
    } else {
        proof {
            if count == 0 {
                assert forall|j: int| !single_colon_at(ev@, j) by {
                    if 0 <= j < ev@.len() {
                        assert(ev@[j] != ':');
                    }
                }
            } else {
                let (k1, k2) = choose|k1: int, k2: int|
                    0 <= k1 < k2 < n && #[trigger] ev@[k1] == ':' && #[trigger] ev@[k2] == ':';
                assert forall|j: int| !single_colon_at(ev@, j) by {
                    if single_colon_at(ev@, j) {
                        if j != k1 {
                            assert(ev@[k1] != ':');
                        } else {
                            assert(ev@[k2] != ':');
                        }
                    }
                }
            }
        }
        None
    }
}

/// Decrypts one stored encrypted value, silently: the executable form of
/// `decode_value`.
pub fn decrypt_encoded(ev: &str, key: &Key) -> (r: Option<String>)
    ensures
        r is Some <==> decode_value(ev@, key@) is Some,
        r matches Some(s) ==> decode_value(ev@, key@) == Some(s@),
{
    match split_encoded(ev) {
        Some(p) => {
            let (nonce_hex, ct_hex) = p;
            match decrypt(ct_hex.as_str(), nonce_hex.as_str(), key) {
                Ok(s) => Some(s),
                Err(_) => None,
            }
        },
        None => None,
    }
}

/// Round trip: whatever `encrypt` returned for a plaintext and a key,
/// `decrypt_spec` maps it back to exactly that plaintext.
pub proof fn lemma_encrypt_decrypt_round_trip(
    key: Seq<u8>,
    plain: Seq<char>,
    ct_hex: Seq<char>,
    nonce_hex: Seq<char>,
)
    requires
        valid_encryption(key, plain, ct_hex, nonce_hex),
    ensures
        decrypt_spec(ct_hex, nonce_hex, key) == Ok::<Seq<char>, VaultError>(plain),
{
    let nonce = choose|nonce: Seq<u8>| #[trigger] is_encryption_of(
        key,
        plain,
        nonce,
        ct_hex,
        nonce_hex,
    );
    lemma_hex_round_trip(nonce);
    lemma_hex_round_trip(enc_bytes(key, nonce, encode_utf8(plain)));
    encode_utf8_valid_utf8(plain);
    encode_utf8_decode_utf8(plain);
}

/// Round trip through the wire format: joining the two hex parts that
/// `encrypt` returned with ':' and decoding the joined value with the
/// same key gives back exactly the original plaintext.
pub proof fn lemma_encoded_value_round_trip(
    key: Seq<u8>,
    plain: Seq<char>,
    ct_hex: Seq<char>,
    nonce_hex: Seq<char>,
)
    requires
        valid_encryption(key, plain, ct_hex, nonce_hex),
    ensures
        decode_value(nonce_hex + seq![':'] + ct_hex, key) == Some(plain),
{
    let nonce = choose|nonce: Seq<u8>| #[trigger] is_encryption_of(
        key,
        plain,
        nonce,
        ct_hex,
        nonce_hex,
    );
    let ev = nonce_hex + seq![':'] + ct_hex;
    let j = nonce_hex.len() as int;
    lemma_hex_of_digits(nonce);
    lemma_hex_of_digits(enc_bytes(key, nonce, encode_utf8(plain)));
    assert(hex_val(':') is None);
    assert(ev[j] == ':');
    assert forall|k: int| 0 <= k < ev.len() && k != j implies ev[k] != ':' by {
        if k < j {
            assert(ev[k] == nonce_hex[k]);
            assert(hex_val(nonce_hex[k]) is Some);
        } else {
            assert(ev[k] == ct_hex[k - j - 1]);
            assert(hex_val(ct_hex[k - j - 1]) is Some);
        }
    }
    assert(single_colon_at(ev, j));
    let j2 = choose|j2: int| single_colon_at(ev, j2);
    assert(j2 == j) by {
        if j2 != j {
            assert(ev[j] != ':');
        }
    }
    assert(ev.subrange(0, j) =~= nonce_hex);
    assert(ev.subrange(j + 1, ev.len() as int) =~= ct_hex);
    lemma_encrypt_decrypt_round_trip(key, plain, ct_hex, nonce_hex);
}

} // verus!
