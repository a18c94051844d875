use aes_gcm::aead::{Aead, KeyInit};
use aes_gcm::{Aes256Gcm, Nonce};
use base64::engine::general_purpose::STANDARD;
use base64::Engine;
use phantom_cipher::cache::KeyCache;
use phantom_cipher::container::{decrypt_contents, is_encrypted_head, Session};
use phantom_cipher::encoding::decode_payload_text;
use phantom_cipher::error::DecryptError;
use phantom_cipher::params::parse_decryption_params;
use phantom_cipher::primitives::{derive_kek, derive_key};
use phantom_cipher::report::{failures, tally};
use phantom_cipher::v2::{split_chunk, unwrap_dek, CHUNK_OVERHEAD, CHUNK_UNIT};

fn seal(key: &[u8; 32], iv: u8, data: &[u8]) -> Vec<u8> {
    let cipher = Aes256Gcm::new_from_slice(key).unwrap();
    let mut record = vec![iv; 12];
    record.extend_from_slice(&cipher.encrypt(Nonce::from_slice(&[iv; 12]), data).unwrap());
    record
}

fn v1_file(key: &[u8; 32], salt: [u8; 16], data: &[u8]) -> String {
    let record = seal(key, 3, data);
    let mut combined = salt.to_vec();
    combined.extend_from_slice(&record[..12]);
    combined.push(0);
    combined.extend_from_slice(&record[12..]);
    format!("ENC_V1::{}", STANDARD.encode(combined))
}

fn v2_file(kek: &[u8; 32], dek: &[u8; 32], data: &[u8]) -> Vec<u8> {
    let mut raw =
        format!("ENC_V2:ek={}&bf=1:", STANDARD.encode(seal(kek, 4, dek))).into_bytes();
    raw.extend_from_slice(&seal(dek, 5, data));
    raw
}

#[test]
fn order_does_not_matter() {
    let kek = [1; 32];
    let one = v2_file(&kek, &[2; 32], b"one");
    let two = v2_file(&kek, &[3; 32], b"two");
    let mut results = Vec::new();
    for files in [[&one, &two], [&two, &one]] {
        let mut keys = KeyCache::new();
        let mut deks = KeyCache::new();
        let mut plains = Vec::new();
        for raw in files {
            plains.push(decrypt_contents(raw, "p", &kek, &mut keys, &mut deks).unwrap());
        }
        plains.sort();
        results.push(plains);
    }
    assert_eq!(results[0], vec![b"one".to_vec(), b"two".to_vec()]);
    assert_eq!(results[0], results[1]);
}

#[test]
fn cached_keys_stay() {
    let mut keys = KeyCache::new();
    let mut deks = KeyCache::new();
    keys.insert(&[9; 16], [8; 32]);
    deks.insert(b"other", [7; 32]);
    let raw = v2_file(&[1; 32], &[2; 32], b"x");
    assert_eq!(decrypt_contents(&raw, "p", &[1; 32], &mut keys, &mut deks), Ok(b"x".to_vec()));
    assert_eq!(keys.get(&[9; 16]), Some([8; 32]));
    assert_eq!(deks.get(b"other"), Some([7; 32]));
}

#[test]
fn version_two_does_not_need_the_password() {
    let raw = v2_file(&[1; 32], &[2; 32], b"x");
    for password in ["", "a", "密码"] {
        let mut keys = KeyCache::new();
        let mut deks = KeyCache::new();
        assert_eq!(
            decrypt_contents(&raw, password, &[1; 32], &mut keys, &mut deks),
            Ok(b"x".to_vec())
        );
    }
}

#[test]
fn version_one_does_not_need_the_master_key() {
    let raw = v1_file(&[6; 32], [5; 16], b"x");
    for kek in [[0; 32], [1; 32]] {
        let mut keys = KeyCache::new();
        let mut deks = KeyCache::new();
        keys.insert(&[5; 16], [6; 32]);
        assert_eq!(
            decrypt_contents(raw.as_bytes(), "p", &kek, &mut keys, &mut deks),
            Ok(b"x".to_vec())
        );
    }
}

#[test]
fn only_the_third_segment_counts() {
    let raw = v1_file(&[6; 32], [5; 16], b"x");
    let payload = raw.strip_prefix("ENC_V1::").unwrap();
    for text in [
        format!("ENC_V1::{}", payload),
        format!("ENC_V1:cp=1&bf=1:{}", payload),
        format!("ENC_V1:任意:{}:tail:\u{3000}", payload),
    ] {
        let mut keys = KeyCache::new();
        keys.insert(&[5; 16], [6; 32]);
        assert_eq!(
            decrypt_contents(text.as_bytes(), "", &[0; 32], &mut keys, &mut KeyCache::new()),
            Ok(b"x".to_vec())
        );
    }
}

#[test]
fn scan_and_decryption_recognise_the_same_files() {
    for raw in [&b"ENC_V1:"[..], b"ENC_V2:", b"ENC_V0:", b"ENC_V1", b"", b"ENC_V1:a:b", b"xENC_V1:"] {
        let found = raw.len() >= 7 && is_encrypted_head(&raw[..7]);
        let r = decrypt_contents(raw, "p", &[0; 32], &mut KeyCache::new(), &mut KeyCache::new());
        assert_eq!(found, r != Err(DecryptError::UnknownHeader));
    }
}

#[test]
fn fields_are_read_back_and_later_ones_override() {
    let early = "cp=1&ek=a";
    let late = "ek=b&bf=1";
    let p = parse_decryption_params(&format!("{}&junk&{}", early, late));
    assert_eq!((p.cp, p.ek, p.bf), (Some(1), Some("b".to_string()), Some(1)));
    let p = parse_decryption_params(&format!("{}&cp=999&{}", late, early));
    assert_eq!((p.cp, p.ek, p.bf), (Some(1), Some("a".to_string()), Some(1)));
}

#[test]
fn sessions_share_nothing_but_the_password() {
    let kek = derive_kek("pw").unwrap();
    let salt = [5; 16];
    let one = v1_file(&derive_key("pw", &salt).unwrap(), salt, b"one");
    let two = v2_file(&kek, &[2; 32], b"two");
    let mut session = Session::open("pw").ok().unwrap();
    let mut fork = session.fork();
    assert_eq!(session.decrypt(one.as_bytes()), Ok(b"one".to_vec()));
    assert_eq!(fork.decrypt(&two), Ok(b"two".to_vec()));
    assert_eq!(fork.decrypt(one.as_bytes()), Ok(b"one".to_vec()));
    assert_eq!(session.decrypt(&two), Ok(b"two".to_vec()));
}

#[test]
fn plaintexts_are_shorter_by_tags_and_nonces() {
    let mut deks = KeyCache::new();
    for len in [0usize, 1, 31] {
        let data = vec![7u8; len];
        let raw = v2_file(&[1; 32], &[2; 32], &data);
        let end = 7 + raw[7..].iter().position(|&b| b == b':').unwrap();
        let r = decrypt_contents(&raw, "p", &[1; 32], &mut KeyCache::new(), &mut deks).unwrap();
        assert_eq!(r.len(), raw.len() - (end + 1) - CHUNK_OVERHEAD);
        let text = v1_file(&[6; 32], [5; 16], &data);
        let combined = STANDARD.decode(text.strip_prefix("ENC_V1::").unwrap()).unwrap();
        let mut keys = KeyCache::new();
        keys.insert(&[5; 16], [6; 32]);
        let r = decrypt_contents(text.as_bytes(), "p", &[1; 32], &mut keys, &mut deks).unwrap();
        assert_eq!(r.len() + 16, combined.len() - 29);
    }
}

#[test]
fn wrapped_keys_are_sixty_bytes_long() {
    assert_eq!(seal(&[1; 32], 4, &[2; 32]).len(), 60);
    let longer = STANDARD.encode(seal(&[1; 32], 4, &[2; 33]));
    assert_eq!(unwrap_dek(&[1; 32], &longer), Err(DecryptError::DekLength));
}

#[test]
fn joined_regions_override_field_by_field() {
    for (a, b, cp, ek, bf) in [
        ("", "", None, None, None),
        ("cp=1&ek=x", "", Some(1), Some("x"), None),
        ("", "cp=1", Some(1), None, None),
        ("cp=1&ek=x&bf=0", "ek=&cp=no", Some(1), Some(""), Some(0)),
        ("&cp=1&", "&cp=2&", Some(2), None, None),
        ("junk&cp=x&ek=k", "CP=1&=&bf=1", None, Some("k"), Some(1)),
    ] {
        let p = parse_decryption_params(&format!("{}&{}", a, b));
        assert_eq!((p.cp, p.ek.as_deref(), p.bf), (cp, ek, bf));
    }
}

#[test]
fn white_space_around_a_payload_has_no_effect() {
    for text in ["TWFu", "", " TWFu", "TW Fu", "!", "TQ=", "\u{3000}"] {
        let padded = format!("\u{2003}\n{}\t\u{a0}", text);
        assert_eq!(decode_payload_text(&padded), decode_payload_text(text));
    }
    assert_eq!(decode_payload_text("TWFu"), Ok(b"Man".to_vec()));
    assert_eq!(decode_payload_text(" TW Fu "), Err(DecryptError::PayloadBase64));
}

#[test]
fn failures_are_as_many_as_the_tally_says() {
    let outcomes = [true, false, false, true, false];
    assert_eq!(tally(&outcomes), (2, 3));
    assert_eq!(failures(&outcomes), vec![1, 2, 4]);
}

#[test]
fn chunks_are_split_by_position() {
    let mut data = vec![0u8; CHUNK_UNIT + 30];
    data[CHUNK_UNIT] = 1;
    data[CHUNK_UNIT + 12] = 2;
    let (iv, ciphertext) = split_chunk(&data, 0).unwrap();
    assert_eq!((iv.len(), ciphertext.len()), (12, CHUNK_UNIT - 12));
    let (iv, ciphertext) = split_chunk(&data, 1).unwrap();
    assert_eq!((iv[0], iv.len(), ciphertext[0], ciphertext.len()), (1, 12, 2, 18));
    assert_eq!(split_chunk(&data[..CHUNK_UNIT + 27], 1), Err(DecryptError::ChunkIncomplete));
    assert_eq!(split_chunk(&[], 0), Err(DecryptError::ChunkIncomplete));
}
