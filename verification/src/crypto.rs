//! Field-level encryption records as stored in the account and history files:
//! `tag:iv:authtag:data` AES-256-GCM records, the read-only legacy `cbc:`
//! records, the `safe2:` DPAPI records, and Electron's `safeStorage`
//! format. The ciphers, the key derivations and base64 are called through the
//! trusted items at the top of this file.

use vstd::prelude::*;
use aes_gcm::aead::{Aead, KeyInit};
use base64::Engine;
use cbc::cipher::{BlockDecryptMut, KeyIvInit, block_padding::Pkcs7};
use rand::RngCore;
use vstd::utf8::{valid_utf8, decode_utf8, encode_utf8, encode_utf8_decode_utf8, encode_utf8_valid_utf8};
use crate::json::{Json, json_get, json_str, json_at, json_parse, parse_json};
use crate::text::{
    chars_of, owned, concat2, push_str, push_char, split_chars, split_on, strip_prefix_spec,
    strip_prefix_str, lemma_split_on_concat, lemma_split_on_none,
};

verus! {

/// Length in bytes of every AES-256 key used here.
pub const KEY_LEN: usize = 32;

/// The fixed salt of the legacy PBKDF2 key.
pub const LEGACY_SALT: &'static str = "multiroblox-v1-salt-2025";

/// PBKDF2 rounds of the legacy key.
pub const ITERATIONS: u32 = 210000;

/// Longest plaintext AES-GCM accepts, in bytes.
pub const GCM_MAX_PLAINTEXT: u64 = 0x10_0000_0000;

// ---------------------------------------------------------------------------
// names for what the outside functions compute
// ---------------------------------------------------------------------------

/// Standard padded base64 text of `bytes` (base64 `STANDARD.encode`).
pub uninterp spec fn base64_encode(bytes: Seq<u8>) -> Seq<char>;

/// Result of base64 `STANDARD.decode` on the bytes `input`: the decoded
/// bytes, or the text of the decode error.
pub uninterp spec fn base64_decode(input: Seq<u8>) -> Result<Seq<u8>, Seq<char>>;

/// AES-256-GCM ciphertext followed by its 16-byte tag, no associated data.
pub uninterp spec fn aes256_gcm_seal(key: Seq<u8>, nonce: Seq<u8>, plaintext: Seq<u8>) -> Seq<u8>;

/// AES-256-GCM opening of ciphertext-with-tag, no associated data.
pub uninterp spec fn aes256_gcm_open(key: Seq<u8>, nonce: Seq<u8>, sealed: Seq<u8>) -> Option<Seq<u8>>;

/// AES-256-CBC decryption with PKCS#7 padding removed.
pub uninterp spec fn aes256_cbc_pkcs7_open(key: Seq<u8>, iv: Seq<u8>, data: Seq<u8>) -> Option<Seq<u8>>;

/// scrypt with N = 2^16, r = 8, p = 1 and a 32-byte output.
pub uninterp spec fn scrypt_derive(password: Seq<u8>, salt: Seq<u8>) -> Seq<u8>;

/// PBKDF2-HMAC-SHA512 with a 32-byte output.
pub uninterp spec fn pbkdf2_hmac_sha512(password: Seq<u8>, salt: Seq<u8>, rounds: u32) -> Seq<u8>;

/// A successful decode outcome.
pub open spec fn decoded_ok(b: Seq<u8>) -> Result<Seq<u8>, Seq<char>> {
    Ok(b)
}

/// A failed decode outcome with its message.
pub open spec fn decode_failed(m: Seq<char>) -> Result<Seq<u8>, Seq<char>> {
    Err(m)
}

/// Whether the base64 text of `n` bytes can be allocated: `STANDARD.encode`
/// builds a buffer of `4 * ceil(n / 3)` bytes, and no allocation may exceed
/// `isize::MAX` bytes (past that the encoder panics).
pub open spec fn base64_fits(n: nat) -> bool {
    (n + 2) / 3 * 4 <= isize::MAX
}

/// Whether `n` bytes can be base64-encoded (see `base64_fits`).
pub fn base64_fits_len(n: usize) -> (r: bool)
    ensures
        r == base64_fits(n as nat),
{
    let q: usize = n / 3 + if n % 3 > 0 { 1 } else { 0 };
    assert((n as nat + 2) / 3 == q);
    q <= (isize::MAX as usize) / 4
}

/// Text made of base64 alphabet characters only.
pub open spec fn base64_text(t: Seq<char>) -> bool {
    forall|i: int| 0 <= i < t.len() ==> is_base64_char(#[trigger] t[i])
}

/// A character of the standard padded base64 alphabet.
pub open spec fn is_base64_char(c: char) -> bool {
    ||| 'A' <= c <= 'Z'
    ||| 'a' <= c <= 'z'
    ||| '0' <= c <= '9'
    ||| c == '+'
    ||| c == '/'
    ||| c == '='
}

// ---------------------------------------------------------------------------
// trusted items
// ---------------------------------------------------------------------------

/// Calls base64 `STANDARD.encode`. Trusted: the text is the standard padded
/// encoding, made of alphabet characters only, and `STANDARD.decode` gives the
/// bytes back. Inputs whose text would not fit an allocation are left out
/// (there the crate panics).
#[verifier::external_body]
pub(crate) fn b64_encode(bytes: &[u8]) -> (r: String)
    requires
        base64_fits(bytes@.len()),
    ensures
        r@ == base64_encode(bytes@),
        forall|i: int| 0 <= i < r@.len() ==> is_base64_char(#[trigger] r@[i]),
        base64_decode(encode_utf8(r@)) == decoded_ok(bytes@),
{
    base64::engine::general_purpose::STANDARD.encode(bytes)
}

/// Calls base64 `STANDARD.decode` on the bytes of `s`; an error is returned as
/// its display text. Trusted: the outcome is `base64_decode` of those bytes.
#[verifier::external_body]
pub(crate) fn b64_decode(s: &str) -> (r: Result<Vec<u8>, String>)
    ensures
        r matches Ok(v) ==> base64_decode(encode_utf8(s@)) == decoded_ok(v@),
        r matches Err(m) ==> base64_decode(encode_utf8(s@)) == decode_failed(m@),
{
    base64::engine::general_purpose::STANDARD.decode(s).map_err(|e| e.to_string())
}

/// Calls `Aes256Gcm::encrypt` (the `aead` trait) with the 12-byte nonce and no
/// associated data. Trusted: the output is the ciphertext followed by the
/// 16-byte tag, so it is 16 bytes longer than the plaintext, and decryption
/// with the same key and nonce gives the plaintext back. Plaintexts longer
/// than the crate's limit are refused (where the crate panics).
#[verifier::external_body]
fn gcm_seal(key: &[u8], nonce: &[u8; 12], plaintext: &[u8]) -> (r: Vec<u8>)
    requires
        key@.len() == KEY_LEN,
        plaintext@.len() <= GCM_MAX_PLAINTEXT,
    ensures
        r@ == aes256_gcm_seal(key@, nonce@, plaintext@),
        r@.len() == plaintext@.len() + 16,
        aes256_gcm_open(key@, nonce@, r@) == Some(plaintext@),
{
    let cipher = aes_gcm::Aes256Gcm::new(aes_gcm::Key::<aes_gcm::Aes256Gcm>::from_slice(key));
    cipher.encrypt(aes_gcm::Nonce::from_slice(nonce), plaintext.as_ref()).expect("aes-gcm encrypt")
}

/// Calls `Aes256Gcm::decrypt` (the `aead` trait) with a 12-byte nonce and no
/// associated data. Trusted: the outcome is `aes256_gcm_open`.
#[verifier::external_body]
fn gcm_open(key: &[u8], nonce: &[u8], sealed: &[u8]) -> (r: Option<Vec<u8>>)
    requires
        key@.len() == KEY_LEN,
        nonce@.len() == 12,
    ensures
        r matches Some(p) ==> aes256_gcm_open(key@, nonce@, sealed@) == Some(p@),
        r is None ==> aes256_gcm_open(key@, nonce@, sealed@) is None,
{
    let cipher = aes_gcm::Aes256Gcm::new(aes_gcm::Key::<aes_gcm::Aes256Gcm>::from_slice(key));
    cipher.decrypt(aes_gcm::Nonce::from_slice(nonce), sealed).ok()
}

/// Builds a `cbc::Decryptor<Aes256>` from the key and IV
/// (`new_from_slices`, which refuses an IV that is not 16 bytes) and calls
/// `decrypt_padded_mut::<Pkcs7>` on a copy of `data`. Trusted: the outcome is
/// `aes256_cbc_pkcs7_open`, and nothing comes out for a wrong-length IV.
#[verifier::external_body]
fn cbc_open(key: &[u8], iv: &[u8], data: &[u8]) -> (r: Option<Vec<u8>>)
    requires
        key@.len() == KEY_LEN,
    ensures
        r matches Some(p) ==> aes256_cbc_pkcs7_open(key@, iv@, data@) == Some(p@),
        r is None ==> aes256_cbc_pkcs7_open(key@, iv@, data@) is None,
        iv@.len() != 16 ==> r is None,
{
    let cipher = cbc::Decryptor::<aes::Aes256>::new_from_slices(key, iv).ok()?;
    let mut buf = data.to_vec();
    cipher.decrypt_padded_mut::<Pkcs7>(&mut buf).ok().map(|p| p.to_vec())
}

/// Calls std's `String::from_utf8`. Trusted: it succeeds exactly on valid
/// UTF-8 and then holds the decoded characters.
#[verifier::external_body]
fn utf8_string(bytes: Vec<u8>) -> (r: Option<String>)
    ensures
        r is Some <==> valid_utf8(bytes@),
        r matches Some(s) ==> s@ == decode_utf8(bytes@),
{
    String::from_utf8(bytes).ok()
}

/// Fills a 12-byte nonce from `rand::thread_rng()`. Nothing is promised of
/// the bytes.
#[verifier::external_body]
fn random_nonce() -> (r: [u8; 12]) {
    let mut iv = [0u8;12];
    rand::thread_rng().fill_bytes(&mut iv);
    iv
}

/// Calls `scrypt::scrypt` with `Params::new(16, 8, 1, 32)` (valid parameters,
/// so neither call fails). Trusted: the key is `scrypt_derive` of the inputs.
#[verifier::external_body]
fn scrypt_key(password: &[u8], salt: &[u8]) -> (r: [u8; KEY_LEN])
    ensures
        r@ == scrypt_derive(password@, salt@),
{
    let params = scrypt::Params::new(16, 8, 1, KEY_LEN).expect("valid scrypt params");
    let mut out = [0u8;KEY_LEN];
    scrypt::scrypt(password, salt, &params, &mut out).expect("scrypt derive");
    out
}

/// Calls `pbkdf2::pbkdf2_hmac::<sha2::Sha512>` into a 32-byte buffer.
/// Trusted: the key is `pbkdf2_hmac_sha512` of the inputs.
#[verifier::external_body]
fn pbkdf2_key(password: &[u8], salt: &[u8], rounds: u32) -> (r: [u8; KEY_LEN])
    ensures
        r@ == pbkdf2_hmac_sha512(password@, salt@, rounds),
{
    let mut out = [0u8;KEY_LEN];
    pbkdf2::pbkdf2_hmac::<sha2::Sha512>(password, salt, rounds, &mut out);
    out
}

// ---------------------------------------------------------------------------
// byte helpers
// ---------------------------------------------------------------------------

fn bytes_range(v: &[u8], from: usize, to: usize) -> (r: Vec<u8>)
    requires
        from <= to <= v@.len(),
    ensures
        r@ == v@.subrange(from as int, to as int),
{
    let mut r: Vec<u8> = Vec::new();
    let mut i = from;
    while i < to
        invariant
            from <= i <= to <= v@.len(),
            r@ == v@.subrange(from as int, i as int),
        decreases to - i,
    {
        r.push(v[i]);
        i = i + 1;
        assert(r@ =~= v@.subrange(from as int, i as int));
    }
    r
}

/// What `<[u8]>::strip_prefix` gives back.
pub open spec fn strip_bytes_spec(v: Seq<u8>, p: Seq<u8>) -> Option<Seq<u8>> {
    if p.len() <= v.len() && v.subrange(0, p.len() as int) == p {
        Some(v.subrange(p.len() as int, v.len() as int))
    } else {
        None
    }
}

fn strip_bytes(v: &[u8], p: &[u8]) -> (r: Option<Vec<u8>>)
    ensures
        r matches Some(t) ==> strip_bytes_spec(v@, p@) == Some(t@),
        r is None ==> strip_bytes_spec(v@, p@) is None,
{
    if p.len() > v.len() {
        return None;
    }
    let mut i: usize = 0;
    while i < p.len()
        invariant
            i <= p@.len() <= v@.len(),
            forall|k: int| 0 <= k < i ==> v@[k] == p@[k],
        decreases p.len() - i,
    {
        if v[i] != p[i] {
            assert(v@.subrange(0, p@.len() as int)[i as int] != p@[i as int]);
            return None;
        }
        i = i + 1;
    }
    assert(v@.subrange(0, p@.len() as int) =~= p@);
    Some(bytes_range(v, p.len(), v.len()))
}

proof fn lemma_base64_text_no_colon(t: Seq<char>)
    requires
        forall|i: int| 0 <= i < t.len() ==> is_base64_char(#[trigger] t[i]),
    ensures
        !t.contains(':'),
{
    if t.contains(':') {
        let k = choose|k: int| 0 <= k < t.len() && t[k] == ':';
        assert(is_base64_char(t[k]));
    }
}

// ---------------------------------------------------------------------------
// key derivation
// ---------------------------------------------------------------------------

/// The passphrase key: scrypt of the passphrase with the given salt.
pub fn derive_scrypt_key(pass: &str, salt: &str) -> (r: [u8; KEY_LEN])
    ensures
        r@ == scrypt_derive(encode_utf8(pass@), encode_utf8(salt@)),
{
    scrypt_key(pass.as_bytes(), salt.as_bytes())
}

/// The legacy key: PBKDF2-HMAC-SHA512 of the passphrase with the fixed salt.
pub fn derive_legacy_key(pass: &str) -> (r: [u8; KEY_LEN])
    ensures
        r@ == pbkdf2_hmac_sha512(encode_utf8(pass@), encode_utf8(LEGACY_SALT@), ITERATIONS),
{
    pbkdf2_key(pass.as_bytes(), LEGACY_SALT.as_bytes(), ITERATIONS)
}

// ---------------------------------------------------------------------------
// AES-GCM records
// ---------------------------------------------------------------------------

/// The record `tag:b64(iv):b64(authtag):b64(data)` for a sealed message,
/// whose last 16 bytes are the authentication tag.
pub open spec fn gcm_record(tag: Seq<char>, iv: Seq<u8>, sealed: Seq<u8>) -> Seq<char> {
    let n = sealed.len() as int;
    tag + seq![':'] + base64_encode(iv) + seq![':'] + base64_encode(sealed.subrange(n - 16, n))
        + seq![':'] + base64_encode(sealed.subrange(0, n - 16))
}

/// `r` is laid out as `tag:iv:authtag:data`: three base64 fields that decode
/// to the 12-byte nonce, the 16-byte authentication tag and `n` bytes of
/// ciphertext; when the tag has no `:`, splitting at `:` gives exactly these
/// four fields.
pub open spec fn gcm_layout(r: Seq<char>, tag: Seq<char>, n: nat) -> bool {
    exists|iv: Seq<char>, at: Seq<char>, data: Seq<char>|
        {
            &&& r == tag + seq![':'] + iv + seq![':'] + at + seq![':'] + data
            &&& base64_text(iv) && base64_text(at) && base64_text(data)
            &&& #[trigger] base64_decode(encode_utf8(iv)) matches Ok(b) && b.len() == 12
            &&& #[trigger] base64_decode(encode_utf8(at)) matches Ok(b) && b.len() == 16
            &&& #[trigger] base64_decode(encode_utf8(data)) matches Ok(b) && b.len() == n
            &&& !tag.contains(':') ==> split_on(r, ':') == seq![tag, iv, at, data]
        }
}

/// What `decrypt_gcm` gives back for a record.
pub open spec fn gcm_decrypt_spec(ct: Seq<char>, key: Seq<u8>, tag: Seq<char>) -> Option<Seq<char>> {
    match strip_prefix_spec(ct, tag.push(':')) {
        None => None,
        Some(rest) => {
            let parts = split_on(rest, ':');
            if parts.len() < 3 {
                None
            } else {
                match (
                    base64_decode(encode_utf8(parts[0])),
                    base64_decode(encode_utf8(parts[1])),
                    base64_decode(encode_utf8(parts[2])),
                ) {
                    (Ok(iv), Ok(authtag), Ok(data)) => if iv.len() != 12 {
                        None
                    } else {
                        match aes256_gcm_open(key, iv, data + authtag) {
                            Some(pt) => if valid_utf8(pt) {
                                Some(decode_utf8(pt))
                            } else {
                                None
                            },
                            None => None,
                        }
                    },
                    _ => None,
                }
            }
        },
    }
}

/// Encrypts with a given nonce into a `tag:iv:authtag:data` record (the
/// authentication tag kept apart from the ciphertext, as the record
/// format has it). Decrypting the record with the same key and tag gives the
/// plaintext back.
pub fn encrypt_gcm_with_nonce(plaintext: &str, key: &[u8; KEY_LEN], tag: &str, iv: &[u8; 12]) -> (r: String)
    requires
        encode_utf8(plaintext@).len() <= GCM_MAX_PLAINTEXT,
        base64_fits(encode_utf8(plaintext@).len()),
    ensures
        r@ == gcm_record(tag@, iv@, aes256_gcm_seal(key@, iv@, encode_utf8(plaintext@))),
        gcm_layout(r@, tag@, encode_utf8(plaintext@).len()),
        gcm_decrypt_spec(r@, key@, tag@) == Some(plaintext@),
{
    let pt = plaintext.as_bytes();
    let sealed = gcm_seal(key.as_slice(), iv, pt);
    assert(base64_fits(12) && base64_fits(16)) by {
        assert(isize::MAX >= 0x7fff_ffff);
    }
    let n = sealed.len();
    let data = bytes_range(sealed.as_slice(), 0, n - 16);
    let authtag = bytes_range(sealed.as_slice(), n - 16, n);
    let iv_text = b64_encode(iv.as_slice());
    let tag_text = b64_encode(authtag.as_slice());
    let data_text = b64_encode(data.as_slice());
    let mut r = owned(tag);
    push_char(&mut r, ':');
    push_str(&mut r, iv_text.as_str());
    push_char(&mut r, ':');
    push_str(&mut r, tag_text.as_str());
    push_char(&mut r, ':');
    push_str(&mut r, data_text.as_str());
    proof {
        let s = aes256_gcm_seal(key@, iv@, encode_utf8(plaintext@));
        assert(r@ =~= gcm_record(tag@, iv@, s));
        let rest = iv_text@ + seq![':'] + tag_text@ + seq![':'] + data_text@;
        assert(r@ =~= tag@.push(':') + rest);
        assert(strip_prefix_spec(r@, tag@.push(':')) == Some(rest)) by {
            assert(r@.subrange(0, tag@.len() as int + 1) =~= tag@.push(':'));
            assert(r@.subrange(tag@.len() as int + 1, r@.len() as int) =~= rest);
        }
        lemma_base64_text_no_colon(iv_text@);
        lemma_base64_text_no_colon(tag_text@);
        lemma_base64_text_no_colon(data_text@);
        lemma_split_on_concat(iv_text@ + seq![':'] + tag_text@, data_text@, ':');
        lemma_split_on_concat(iv_text@, tag_text@, ':');
        lemma_split_on_none(iv_text@, ':');
        lemma_split_on_none(tag_text@, ':');
        lemma_split_on_none(data_text@, ':');
        assert(split_on(rest, ':') =~= seq![iv_text@, tag_text@, data_text@]);
        assert(data@ + authtag@ =~= sealed@);
        if !tag@.contains(':') {
            lemma_split_on_none(tag@, ':');
            lemma_split_on_concat(tag@, rest, ':');
            assert(r@ =~= tag@ + seq![':'] + rest);
            assert(split_on(r@, ':') =~= seq![tag@, iv_text@, tag_text@, data_text@]);
        }
        assert(r@ =~= tag@ + seq![':'] + iv_text@ + seq![':'] + tag_text@ + seq![':'] + data_text@);
        assert(base64_decode(encode_utf8(iv_text@)) matches Ok(b) && b.len() == 12);
        assert(base64_decode(encode_utf8(tag_text@)) matches Ok(b) && b.len() == 16);
        assert(base64_decode(encode_utf8(data_text@)) matches Ok(b) && b.len() == encode_utf8(plaintext@).len());
        encode_utf8_decode_utf8(plaintext@);
        encode_utf8_valid_utf8(plaintext@);
    }
    r
}

/// Encrypts into a `tag:iv:authtag:data` record under a fresh random nonce.
/// Whatever the nonce, decrypting the record with the same key and tag gives
/// the plaintext back.
pub fn encrypt_gcm(plaintext: &str, key: &[u8; KEY_LEN], tag: &str) -> (r: String)
    requires
        encode_utf8(plaintext@).len() <= GCM_MAX_PLAINTEXT,
        base64_fits(encode_utf8(plaintext@).len()),
    ensures
        gcm_layout(r@, tag@, encode_utf8(plaintext@).len()),
        exists|iv: Seq<u8>|
            iv.len() == 12 && r@ == gcm_record(tag@, iv, aes256_gcm_seal(key@, iv, encode_utf8(plaintext@))),
        gcm_decrypt_spec(r@, key@, tag@) == Some(plaintext@),
{
    let iv = random_nonce();
    let r = encrypt_gcm_with_nonce(plaintext, key, tag, &iv);
    assert(iv@.len() == 12);
    assert(r@ == gcm_record(tag@, iv@, aes256_gcm_seal(key@, iv@, encode_utf8(plaintext@))));
    r
}

/// Reads a `tag:iv:authtag:data` record: `None` when the prefix, the shape,
/// the base64, the nonce length, the authentication or the UTF-8 is wrong.
pub fn decrypt_gcm(ct: &str, key: &[u8; KEY_LEN], tag: &str) -> (r: Option<String>)
    ensures
        r matches Some(s) ==> gcm_decrypt_spec(ct@, key@, tag@) == Some(s@),
        r is None ==> gcm_decrypt_spec(ct@, key@, tag@) is None,
{
    let mut prefix = owned(tag);
    push_char(&mut prefix, ':');
    assert(prefix@ == tag@.push(':'));
    let rest = match strip_prefix_str(ct, prefix.as_str()) {
        Some(rest) => rest,
        None => return None,
    };
    let rv = chars_of(rest.as_str());
    let parts = split_chars(&rv, ':');
    if parts.len() < 3 {
        return None;
    }
    let p0 = crate::text::string_of(&parts[0]);
    let p1 = crate::text::string_of(&parts[1]);
    let p2 = crate::text::string_of(&parts[2]);
    assert(p0@ == split_on(rv@, ':')[0]);
    assert(p1@ == split_on(rv@, ':')[1]);
    assert(p2@ == split_on(rv@, ':')[2]);
    let iv = match b64_decode(p0.as_str()) {
        Ok(v) => v,
        Err(_) => return None,
    };
    let authtag = match b64_decode(p1.as_str()) {
        Ok(v) => v,
        Err(_) => return None,
    };
    let data = match b64_decode(p2.as_str()) {
        Ok(v) => v,
        Err(_) => return None,
    };
    if iv.len() != 12 {
        return None;
    }
    let mut combined = data;
    combined.extend_from_slice(authtag.as_slice());
    assert(combined@ == data@ + authtag@);
    match gcm_open(key.as_slice(), iv.as_slice(), combined.as_slice()) {
        Some(pt) => utf8_string(pt),
        None => None,
    }
}

// ---------------------------------------------------------------------------
// legacy CBC records
// ---------------------------------------------------------------------------

/// What `decrypt_cbc` gives back for a `cbc:iv:data` record (fields after
/// the second are ignored): the text when both fields are base64, the IV
/// is 16 bytes, AES-256-CBC decryption under the key ends in valid PKCS#7
/// padding, and what is left is UTF-8; `None` otherwise.
pub open spec fn cbc_decrypt_spec(ct: Seq<char>, key: Seq<u8>) -> Option<Seq<char>> {
    match strip_prefix_spec(ct, seq!['c', 'b', 'c', ':']) {
        None => None,
        Some(rest) => {
            let parts = split_on(rest, ':');
            if parts.len() < 2 {
                None
            } else {
                match (base64_decode(encode_utf8(parts[0])), base64_decode(encode_utf8(parts[1]))) {
                    (Ok(iv), Ok(data)) => if iv.len() != 16 {
                        None
                    } else {
                        match aes256_cbc_pkcs7_open(key, iv, data) {
                            Some(pt) => if valid_utf8(pt) {
                                Some(decode_utf8(pt))
                            } else {
                                None
                            },
                            None => None,
                        }
                    },
                    _ => None,
                }
            }
        },
    }
}

/// Reads a legacy unauthenticated `cbc:iv:data` record (never written any
/// more; kept so that very old records still open).
pub fn decrypt_cbc(ct: &str, key: &[u8; KEY_LEN]) -> (r: Option<String>)
    ensures
        r matches Some(s) ==> cbc_decrypt_spec(ct@, key@) == Some(s@),
        r is None ==> cbc_decrypt_spec(ct@, key@) is None,
{
    proof {
        reveal_strlit("cbc:");
        assert("cbc:"@ =~= seq!['c', 'b', 'c', ':']);
    }
    let rest = match strip_prefix_str(ct, "cbc:") {
        Some(rest) => rest,
        None => return None,
    };
    let rv = chars_of(rest.as_str());
    let parts = split_chars(&rv, ':');
    if parts.len() < 2 {
        return None;
    }
    let p0 = crate::text::string_of(&parts[0]);
    let p1 = crate::text::string_of(&parts[1]);
    assert(p0@ == split_on(rv@, ':')[0]);
    assert(p1@ == split_on(rv@, ':')[1]);
    let iv = match b64_decode(p0.as_str()) {
        Ok(v) => v,
        Err(_) => return None,
    };
    let data = match b64_decode(p1.as_str()) {
        Ok(v) => v,
        Err(_) => return None,
    };
    match cbc_open(key.as_slice(), iv.as_slice(), data.as_slice()) {
        Some(pt) => utf8_string(pt),
        None => None,
    }
}

// ---------------------------------------------------------------------------
// DPAPI records
// ---------------------------------------------------------------------------

/// The `safe2:` record of a DPAPI blob: `safe2:` and the blob in base64.
pub open spec fn safe2_record(blob: Seq<u8>) -> Seq<char> {
    seq!['s', 'a', 'f', 'e', '2', ':'] + base64_encode(blob)
}

/// An optional text's characters.
pub open spec fn opt_chars(s: Option<String>) -> Option<Seq<char>> {
    match s {
        Some(t) => Some(t@),
        None => None,
    }
}

/// The text that decoded bytes hold, if they are UTF-8.
pub open spec fn utf8_text(pt: Option<Seq<u8>>) -> Option<Seq<char>> {
    match pt {
        Some(b) => if valid_utf8(b) {
            Some(decode_utf8(b))
        } else {
            None
        },
        None => None,
    }
}

/// The bytes of an optional byte vector.
pub open spec fn opt_bytes(v: Option<Vec<u8>>) -> Option<Seq<u8>> {
    match v {
        Some(b) => Some(b@),
        None => None,
    }
}

/// The DPAPI blob a `safe2:` record carries: its text after the prefix,
/// base64-decoded; `None` when the prefix or the base64 is wrong.
pub open spec fn safe2_blob_spec(ct: Seq<char>) -> Option<Seq<u8>> {
    match strip_prefix_spec(ct, seq!['s', 'a', 'f', 'e', '2', ':']) {
        None => None,
        Some(rest) => match base64_decode(encode_utf8(rest)) {
            Ok(blob) => Some(blob),
            Err(_) => None,
        },
    }
}

/// The `safe2:` record for what DPAPI made of a plaintext: `protected` is
/// DPAPI's output (`None` when it could not protect the plaintext, and then
/// there is no record).
pub fn encrypt_safe2(protected: Option<&[u8]>) -> (r: Option<String>)
    requires
        protected matches Some(b) ==> base64_fits(b@.len()),
    ensures
        protected is None ==> r is None,
        protected matches Some(b) ==> r matches Some(s) && s@ == safe2_record(b@),
{
    proof {
        reveal_strlit("safe2:");
        assert("safe2:"@ =~= seq!['s', 'a', 'f', 'e', '2', ':']);
    }
    match protected {
        Some(blob) => Some(concat2("safe2:", b64_encode(blob).as_str())),
        None => None,
    }
}

/// Reads a `safe2:` record: strips the prefix, decodes the base64 and hands
/// the blob to `unprotect` (DPAPI); what it gives back must be UTF-8. `None`
/// when any step fails.
pub fn decrypt_safe2<F: Fn(Vec<u8>) -> Option<Vec<u8>>>(ct: &str, unprotect: F) -> (r: Option<String>)
    requires
        forall|b: Vec<u8>| unprotect.requires((b,)),
    ensures
        safe2_blob_spec(ct@) is None ==> r is None,
        safe2_blob_spec(ct@) matches Some(blob) ==> exists|arg: Vec<u8>, out: Option<Vec<u8>>|
            arg@ == blob && call_ensures(unprotect, (arg,), out) && opt_chars(r) == utf8_text(opt_bytes(out)),
{
    proof {
        reveal_strlit("safe2:");
        assert("safe2:"@ =~= seq!['s', 'a', 'f', 'e', '2', ':']);
    }
    let rest = match strip_prefix_str(ct, "safe2:") {
        Some(rest) => rest,
        None => return None,
    };
    let blob = match b64_decode(rest.as_str()) {
        Ok(b) => b,
        Err(_) => return None,
    };
    let out = unprotect(blob);
    let r = match out {
        Some(pt) => utf8_string(pt),
        None => None,
    };
    assert(opt_chars(r) == utf8_text(opt_bytes(out)));
    r
}

// ---------------------------------------------------------------------------
// Electron safeStorage records
// ---------------------------------------------------------------------------

/// `STANDARD.decode(s).ok()`.
pub fn base64_maybe(s: &str) -> (r: Option<Vec<u8>>)
    ensures
        r matches Some(v) ==> base64_decode(encode_utf8(s@)) == decoded_ok(v@),
        r is None ==> base64_decode(encode_utf8(s@)) is Err,
{
    match b64_decode(s) {
        Ok(v) => Some(v),
        Err(_) => None,
    }
}

/// The DPAPI-wrapped key of an Electron "Local State" document: the base64
/// text at `os_crypt.encrypted_key`, decoded, without its `DPAPI` prefix.
pub open spec fn electron_wrapped_key_spec(local_state: Json) -> Option<Seq<u8>> {
    match json_str(json_at(json_get(local_state, seq!['o', 's', '_', 'c', 'r', 'y', 'p', 't']),
        seq!['e', 'n', 'c', 'r', 'y', 'p', 't', 'e', 'd', '_', 'k', 'e', 'y'])) {
        None => None,
        Some(k) => match base64_decode(encode_utf8(k)) {
            Ok(enc) => strip_bytes_spec(enc, seq![68u8, 80u8, 65u8, 80u8, 73u8]),
            Err(_) => None,
        },
    }
}

pub fn electron_wrapped_key(local_state: &Json) -> (r: Option<Vec<u8>>)
    ensures
        r matches Some(v) ==> electron_wrapped_key_spec(*local_state) == Some(v@),
        r is None ==> electron_wrapped_key_spec(*local_state) is None,
{
    proof {
        reveal_strlit("os_crypt");
        reveal_strlit("encrypted_key");
        assert("os_crypt"@ =~= seq!['o', 's', '_', 'c', 'r', 'y', 'p', 't']);
        assert("encrypted_key"@ =~= seq!['e', 'n', 'c', 'r', 'y', 'p', 't', 'e', 'd', '_', 'k', 'e', 'y']);
    }
    let oc = match local_state.get("os_crypt") {
        Some(j) => j,
        None => return None,
    };
    let ek = match oc.get("encrypted_key") {
        Some(j) => j,
        None => return None,
    };
    let text = match ek.as_str() {
        Some(t) => t,
        None => return None,
    };
    let enc = match b64_decode(text.as_str()) {
        Ok(v) => v,
        Err(_) => return None,
    };
    let prefix: [u8; 5] = [68u8, 80u8, 65u8, 80u8, 73u8];
    assert(prefix@ =~= seq![68u8, 80u8, 65u8, 80u8, 73u8]);
    strip_bytes(enc.as_slice(), prefix.as_slice())
}

/// A `v10`/`v11` safeStorage body: the version prefix, a 12-byte nonce, then
/// AES-256-GCM ciphertext with its tag.
pub open spec fn electron_plaintext_spec(raw: Seq<u8>, aes_key: Seq<u8>) -> Option<Seq<char>> {
    if aes_key.len() != 32 {
        None
    } else {
        let body = match strip_bytes_spec(raw, seq![118u8, 49u8, 48u8]) {
            Some(b) => Some(b),
            None => strip_bytes_spec(raw, seq![118u8, 49u8, 49u8]),
        };
        match body {
            None => None,
            Some(b) => if b.len() < 28 {
                None
            } else {
                match aes256_gcm_open(aes_key, b.subrange(0, 12), b.subrange(12, b.len() as int)) {
                    Some(pt) => if valid_utf8(pt) {
                        Some(decode_utf8(pt))
                    } else {
                        None
                    },
                    None => None,
                }
            },
        }
    }
}

/// Opens a safeStorage body with the unwrapped AES key.
pub fn electron_plaintext(raw: &[u8], aes_key: &[u8]) -> (r: Option<String>)
    ensures
        r matches Some(s) ==> electron_plaintext_spec(raw@, aes_key@) == Some(s@),
        r is None ==> electron_plaintext_spec(raw@, aes_key@) is None,
{
    if aes_key.len() != 32 {
        return None;
    }
    let v10: [u8; 3] = [118u8, 49u8, 48u8];
    let v11: [u8; 3] = [118u8, 49u8, 49u8];
    assert(v10@ =~= seq![118u8, 49u8, 48u8]);
    assert(v11@ =~= seq![118u8, 49u8, 49u8]);
    let body = match strip_bytes(raw, v10.as_slice()) {
        Some(b) => b,
        None => match strip_bytes(raw, v11.as_slice()) {
            Some(b) => b,
            None => return None,
        },
    };
    if body.len() < 28 {
        return None;
    }
    let nonce = bytes_range(body.as_slice(), 0, 12);
    let sealed = bytes_range(body.as_slice(), 12, body.len());
    match gcm_open(aes_key, nonce.as_slice(), sealed.as_slice()) {
        Some(pt) => utf8_string(pt),
        None => None,
    }
}

/// The two inputs of an Electron safeStorage read that come before DPAPI:
/// the decoded value and the DPAPI-wrapped key from the "Local State"
/// document's text, when both are there.
pub open spec fn electron_inputs_spec(ct_b64: Seq<char>, local_state: Seq<char>) -> Option<(Seq<u8>, Seq<u8>)> {
    match (base64_decode(encode_utf8(ct_b64)), json_parse(local_state)) {
        (Ok(raw), Some(doc)) => match electron_wrapped_key_spec(doc) {
            Some(blob) => Some((raw, blob)),
            None => None,
        },
        _ => None,
    }
}

/// Reads a value stored with Electron's `safeStorage`, given the text of the
/// "Local State" document: the value is base64-decoded, the document read as
/// JSON, the wrapped key it holds handed to `unprotect` (DPAPI), and the
/// value opened with the key that gives back (see `electron_plaintext_spec`).
/// `None` when any step fails.
pub fn decrypt_electron_safe_storage<F: Fn(Vec<u8>) -> Option<Vec<u8>>>(
    ct_b64: &str,
    local_state: &str,
    unprotect: F,
) -> (r: Option<String>)
    requires
        forall|b: Vec<u8>| unprotect.requires((b,)),
    ensures
        electron_inputs_spec(ct_b64@, local_state@) is None ==> r is None,
        electron_inputs_spec(ct_b64@, local_state@) matches Some((raw, blob)) ==> exists|
            arg: Vec<u8>,
            out: Option<Vec<u8>>,
        |
            arg@ == blob && call_ensures(unprotect, (arg,), out) && opt_chars(r) == match out {
                Some(key) => electron_plaintext_spec(raw, key@),
                None => None,
            },
{
    let raw = match base64_maybe(ct_b64) {
        Some(v) => v,
        None => return None,
    };
    let doc = match parse_json(local_state) {
        Some(d) => d,
        None => return None,
    };
    let blob = match electron_wrapped_key(&doc) {
        Some(b) => b,
        None => return None,
    };
    let out = unprotect(blob);
    let r = match &out {
        Some(k) => electron_plaintext(raw.as_slice(), k.as_slice()),
        None => None,
    };
    assert(opt_chars(r) == match out {
        Some(key) => electron_plaintext_spec(raw@, key@),
        None => None,
    });
    r
}

} // verus!
