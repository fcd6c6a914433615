use aes_gcm::aead::{Aead, KeyInit};
use base64::Engine;
use cbc::cipher::{block_padding::Pkcs7, BlockEncryptMut, KeyIvInit};
use multiroblox::crypto::{
    base64_maybe, decrypt_cbc, decrypt_electron_safe_storage, decrypt_gcm, decrypt_safe2, derive_legacy_key,
    derive_scrypt_key, electron_plaintext, electron_wrapped_key, encrypt_gcm, encrypt_gcm_with_nonce,
    encrypt_safe2,
};
use multiroblox::dpapi::{protect, unprotect};
use multiroblox::json::Json;

const B64: base64::engine::GeneralPurpose = base64::engine::general_purpose::STANDARD;

fn key(n: u8) -> [u8; 32] {
    [n; 32]
}

#[test]
fn gcm_roundtrip_law_on_values() {
    for text in ["", "cookie value", "ünïcødé ✓"] {
        let ct = encrypt_gcm(text, &key(7), "enc");
        assert!(ct.starts_with("enc:"));
        assert_eq!(decrypt_gcm(&ct, &key(7), "enc").as_deref(), Some(text));
        assert_eq!(decrypt_gcm(&ct, &key(8), "enc"), None);
        assert_eq!(decrypt_gcm(&ct, &key(7), "other"), None);
    }
}

#[test]
fn gcm_record_layout() {
    let iv = [1u8; 12];
    let ct = encrypt_gcm_with_nonce("hi", &key(3), "enc", &iv);
    let parts: Vec<&str> = ct.split(':').collect();
    assert_eq!(parts.len(), 4);
    assert_eq!(parts[1], B64.encode(iv));
    let cipher = aes_gcm::Aes256Gcm::new_from_slice(&key(3)).unwrap();
    let sealed = cipher.encrypt(aes_gcm::Nonce::from_slice(&iv), b"hi".as_ref()).unwrap();
    assert_eq!(parts[2], B64.encode(&sealed[sealed.len() - 16..]));
    assert_eq!(parts[3], B64.encode(&sealed[..sealed.len() - 16]));
    assert_ne!(parts[3], B64.encode(b"hi"));
}

#[test]
fn gcm_rejects_malformed_records() {
    assert_eq!(decrypt_gcm("enc:a:b", &key(1), "enc"), None);
    assert_eq!(decrypt_gcm("enc:!!:AA==:AA==", &key(1), "enc"), None);
    let short_iv = format!("enc:{}:{}:{}", B64.encode([0u8; 8]), B64.encode([0u8; 16]), B64.encode(b"x"));
    assert_eq!(decrypt_gcm(&short_iv, &key(1), "enc"), None);
}

#[test]
fn cbc_records_decrypt() {
    type Enc = cbc::Encryptor<aes::Aes256>;
    let iv = [9u8; 16];
    let msg = b"legacy secret";
    let mut buf = [0u8; 32];
    buf[..msg.len()].copy_from_slice(msg);
    let ct = Enc::new(&key(5).into(), &iv.into()).encrypt_padded_mut::<Pkcs7>(&mut buf, msg.len()).unwrap().to_vec();
    let record = format!("cbc:{}:{}", B64.encode(iv), B64.encode(&ct));
    assert_eq!(decrypt_cbc(&record, &key(5)).as_deref(), Some("legacy secret"));
    assert_eq!(decrypt_cbc(&record, &key(6)), None);
    assert_eq!(decrypt_cbc("cbc:onlyone", &key(5)), None);
    assert_eq!(decrypt_cbc("gcm:a:b", &key(5)), None);
}

#[test]
fn legacy_key_is_pbkdf2_sha512() {
    let want: [u8; 32] = [
        28, 63, 39, 43, 82, 86, 8, 37, 232, 64, 108, 99, 203, 151, 251, 214, 14, 121, 50, 52, 122, 137, 11, 206, 166,
        166, 190, 172, 50, 104, 99, 249,
    ];
    assert_eq!(derive_legacy_key("pass"), want);
}

#[test]
fn passphrase_key_is_scrypt() {
    let want: [u8; 32] = [
        142, 65, 254, 38, 248, 32, 118, 42, 133, 51, 138, 238, 138, 60, 234, 133, 228, 55, 123, 87, 171, 70, 79, 24, 77,
        160, 76, 243, 119, 42, 208, 117,
    ];
    assert_eq!(derive_scrypt_key("pass", "salt"), want);
}

#[test]
fn dpapi_records_are_unavailable_here() {
    assert_eq!(protect(b"x"), None);
    assert_eq!(unprotect(b"x"), None);
    let none = |b: Vec<u8>| unprotect(&b);
    assert_eq!(encrypt_safe2(protect(b"x").as_deref()), None);
    assert_eq!(decrypt_safe2("safe2:AAAA", none), None);
    assert_eq!(decrypt_safe2("nope", none), None);
}

#[test]
fn safe2_records_round_trip_through_a_stand_in_dpapi() {
    // A reversible stand-in for DPAPI: flips every byte.
    let wrap = |b: &[u8]| -> Vec<u8> { b.iter().map(|x| !x).collect() };
    let unwrap = |b: Vec<u8>| -> Option<Vec<u8>> { Some(b.iter().map(|x| !x).collect()) };
    let blob = wrap("secret cookie".as_bytes());
    let record = encrypt_safe2(Some(&blob)).unwrap();
    assert_eq!(record, format!("safe2:{}", B64.encode(&blob)));
    assert_eq!(decrypt_safe2(&record, unwrap).as_deref(), Some("secret cookie"));
    assert_eq!(decrypt_safe2(&record, |_b: Vec<u8>| None), None);
    assert_eq!(decrypt_safe2("safe2:@@", unwrap), None);
    assert_eq!(decrypt_safe2(&format!("safe2:{}", B64.encode([0xffu8])), |b: Vec<u8>| Some(b)), None);
}

#[test]
fn electron_records() {
    assert_eq!(base64_maybe("aGk="), Some(b"hi".to_vec()));
    assert_eq!(base64_maybe("@@"), None);
    let wrapped = B64.encode(b"DPAPIblob");
    let ls = Json::Object(vec![(
        "os_crypt".to_string(),
        Json::Object(vec![("encrypted_key".to_string(), Json::Str(wrapped))]),
    )]);
    assert_eq!(electron_wrapped_key(&ls), Some(b"blob".to_vec()));
    let no_prefix = Json::Object(vec![(
        "os_crypt".to_string(),
        Json::Object(vec![("encrypted_key".to_string(), Json::Str(B64.encode(b"blob")))]),
    )]);
    assert_eq!(electron_wrapped_key(&no_prefix), None);

    let aes_key = key(4);
    let nonce = [2u8; 12];
    let cipher = aes_gcm::Aes256Gcm::new_from_slice(&aes_key).unwrap();
    let sealed = cipher.encrypt(aes_gcm::Nonce::from_slice(&nonce), b"old cookie".as_ref()).unwrap();
    let mut raw = b"v10".to_vec();
    raw.extend_from_slice(&nonce);
    raw.extend_from_slice(&sealed);
    assert_eq!(electron_plaintext(&raw, &aes_key).as_deref(), Some("old cookie"));
    raw[1] = b'2';
    assert_eq!(electron_plaintext(&raw, &aes_key), None);
    assert_eq!(electron_plaintext(b"v11short", &aes_key), None);
    assert_eq!(electron_plaintext(&raw, &aes_key[..16]), None);
    raw[1] = b'1';
    let ct = B64.encode(&raw);
    let ls = format!(r#"{{"os_crypt":{{"encrypted_key":"{}"}}}}"#, B64.encode(b"DPAPIblob"));
    let no_prefix = format!(r#"{{"os_crypt":{{"encrypted_key":"{}"}}}}"#, B64.encode(b"blob"));
    assert_eq!(decrypt_electron_safe_storage(&ct, &ls, |b: Vec<u8>| unprotect(&b)), None);
    let k = aes_key.to_vec();
    let dpapi = move |b: Vec<u8>| if b == b"blob".to_vec() { Some(k.clone()) } else { None };
    assert_eq!(decrypt_electron_safe_storage(&ct, &ls, dpapi.clone()).as_deref(), Some("old cookie"));
    assert_eq!(decrypt_electron_safe_storage(&ct, &no_prefix, dpapi.clone()), None);
    assert_eq!(decrypt_electron_safe_storage(&ct, "not json", dpapi.clone()), None);
    assert_eq!(decrypt_electron_safe_storage("@@", &ls, dpapi), None);
}

#[test]
fn gcm_rejects_non_utf8_plaintext() {
    let iv = [5u8; 12];
    let cipher = aes_gcm::Aes256Gcm::new_from_slice(&key(9)).unwrap();
    let sealed = cipher.encrypt(aes_gcm::Nonce::from_slice(&iv), [0xffu8, 0xfe].as_ref()).unwrap();
    let (data, tag) = sealed.split_at(sealed.len() - 16);
    let record = format!("enc:{}:{}:{}", B64.encode(iv), B64.encode(tag), B64.encode(data));
    assert_eq!(decrypt_gcm(&record, &key(9), "enc"), None);
    let good = cipher.encrypt(aes_gcm::Nonce::from_slice(&iv), b"ok".as_ref()).unwrap();
    let (data, tag) = good.split_at(good.len() - 16);
    let record = format!("enc:{}:{}:{}:extra", B64.encode(iv), B64.encode(tag), B64.encode(data));
    assert_eq!(decrypt_gcm(&record, &key(9), "enc").as_deref(), Some("ok"));
}

#[test]
fn fresh_nonces_differ() {
    let a = encrypt_gcm("same", &key(1), "enc");
    let b = encrypt_gcm("same", &key(1), "enc");
    assert_ne!(a, b);
}
