use aes_gcm::aead::{Aead, KeyInit};
use aes_gcm::{Aes256Gcm, Nonce};
use argon2::{Algorithm, Argon2, Params, Version};
use base64::engine::general_purpose::STANDARD;
use base64::Engine;
use phantom_cipher::cache::KeyCache;
use phantom_cipher::container::{decrypt_contents, is_encrypted_head, Session};
use phantom_cipher::error::DecryptError;
use phantom_cipher::primitives::{
    accept_inflated, accept_kek, decompress, derive_kek, derive_key, to_key,
};
use phantom_cipher::v1::{accept_key, accept_opened, decrypt_v1, payload_segment, split_packet};
use phantom_cipher::v2::{
    accept_dek, append_chunk, chunk_count, decrypt_chunks, decrypt_v2, find_extension_end,
    split_edek, unwrap_dek, CHUNK_OVERHEAD, CHUNK_SIZE, CHUNK_UNIT,
};

const HELLO_ZLIB: [u8; 13] = [120, 156, 203, 72, 205, 201, 201, 7, 0, 6, 44, 2, 21];
const SALT: [u8; 16] = [9; 16];
const KEY: [u8; 32] = [7; 32];
const KEK: [u8; 32] = [1; 32];
const DEK: [u8; 32] = [2; 32];

fn argon(password: &str, salt: &[u8]) -> [u8; 32] {
    let params = Params::new(65536, 3, 4, Some(32)).unwrap();
    let mut key = [0u8; 32];
    Argon2::new(Algorithm::Argon2id, Version::V0x13, params)
        .hash_password_into(password.as_bytes(), salt, &mut key)
        .unwrap();
    key
}

fn seal(key: &[u8; 32], iv: &[u8; 12], data: &[u8]) -> Vec<u8> {
    let cipher = Aes256Gcm::new_from_slice(key).unwrap();
    let mut record = iv.to_vec();
    record.extend_from_slice(&cipher.encrypt(Nonce::from_slice(iv), data).unwrap());
    record
}

fn v1_file(key: &[u8; 32], flag: u8, data: &[u8]) -> Vec<u8> {
    let record = seal(key, &[3; 12], data);
    let mut combined = SALT.to_vec();
    combined.extend_from_slice(&record[..12]);
    combined.push(flag);
    combined.extend_from_slice(&record[12..]);
    format!("ENC_V1:name=a:{}", STANDARD.encode(combined)).into_bytes()
}

fn edek(kek: &[u8; 32], dek: &[u8]) -> String {
    STANDARD.encode(seal(kek, &[4; 12], dek))
}

fn v2_file(ext: &str, payload: &[u8]) -> Vec<u8> {
    let mut raw = format!("ENC_V2:{}:", ext).into_bytes();
    raw.extend_from_slice(payload);
    raw
}

fn cached() -> KeyCache {
    let mut cache = KeyCache::new();
    cache.insert(&SALT, KEY);
    cache
}

fn v2(raw: &[u8]) -> Result<Vec<u8>, DecryptError> {
    decrypt_v2(raw, &KEK, &mut KeyCache::new())
}

// Key derivation and decompression.

#[test]
fn derives_argon2id_keys() {
    let kek = derive_kek("secret").unwrap();
    assert_eq!(kek, argon("secret", b"Phantom_Cipher_KEK_Salt_V2_2026"));
    assert_ne!(kek, [0u8; 32]);
}

#[test]
fn derive_key_depends_on_salt() {
    assert_eq!(derive_key("密码", &SALT), Some(argon("密码", &SALT)));
    assert_eq!(derive_key("密码", &[1, 2, 3, 4, 5, 6, 7]), None);
}

#[test]
fn to_key_wants_thirty_two_bytes() {
    assert_eq!(to_key(&[5; 32]), Some([5; 32]));
    assert_eq!(to_key(&[5; 31]), None);
    assert_eq!(to_key(&[5; 33]), None);
}

#[test]
fn decompresses_only_with_flag_one() {
    assert_eq!(decompress(1, HELLO_ZLIB.to_vec()), Ok(b"hello".to_vec()));
    assert_eq!(decompress(0, HELLO_ZLIB.to_vec()), Ok(HELLO_ZLIB.to_vec()));
    assert_eq!(decompress(2, b"x".to_vec()), Ok(b"x".to_vec()));
    assert_eq!(decompress(1, b"hello".to_vec()), Err(DecryptError::Inflate));
    assert_eq!(decompress(1, vec![]), Err(DecryptError::Inflate));
    assert_eq!(decompress(1, HELLO_ZLIB[..9].to_vec()), Err(DecryptError::Inflate));
    let mut longer = HELLO_ZLIB.to_vec();
    longer.push(1);
    assert_eq!(decompress(1, longer), Ok(b"hello".to_vec()));
}

#[test]
fn outcomes_of_outside_attempts() {
    assert_eq!(accept_kek(Some([6; 32])), Ok([6; 32]));
    assert_eq!(accept_kek(None), Err(DecryptError::KekDerivation));
    assert_eq!(accept_key(Some([6; 32])), Ok([6; 32]));
    assert_eq!(accept_key(None), Err(DecryptError::KeyDerivation));
    assert_eq!(accept_inflated(Some(vec![1])), Ok(vec![1]));
    assert_eq!(accept_inflated(None), Err(DecryptError::Inflate));
    assert_eq!(accept_opened(Some(vec![1]), 0), Ok(vec![1]));
    assert_eq!(accept_opened(Some(vec![1]), 1), Err(DecryptError::Inflate));
    assert_eq!(accept_opened(None, 0), Err(DecryptError::V1Authentication));
    assert_eq!(accept_dek(Some(vec![6; 32])), Ok([6; 32]));
    assert_eq!(accept_dek(Some(vec![6; 31])), Err(DecryptError::DekLength));
    assert_eq!(accept_dek(None), Err(DecryptError::EdekAuthentication));
    let mut plain = vec![1];
    assert_eq!(append_chunk(&mut plain, Some(vec![2, 3])), Ok(()));
    assert_eq!(plain, vec![1, 2, 3]);
    assert_eq!(append_chunk(&mut plain, None), Err(DecryptError::ChunkAuthentication));
    assert_eq!(plain, vec![1, 2, 3]);
}

#[test]
fn cache_stores_and_overwrites() {
    let mut cache = KeyCache::new();
    assert_eq!(cache.get(b"a"), None);
    cache.insert(b"a", [1; 32]);
    cache.insert(b"b", [2; 32]);
    cache.insert(b"a", [3; 32]);
    assert_eq!(cache.get(b"a"), Some([3; 32]));
    assert_eq!(cache.get(b"b"), Some([2; 32]));
    assert_eq!(cache.get(b"c"), None);
}

// Version 1.

#[test]
fn v1_round_trip_derives_and_caches_the_key() {
    let key = argon("pw", &SALT);
    let mut cache = KeyCache::new();
    let raw = v1_file(&key, 0, b"data");
    assert_eq!(decrypt_v1(&raw, "pw", &mut cache), Ok(b"data".to_vec()));
    assert_eq!(cache.get(&SALT), Some(key));
}

#[test]
fn v1_uses_the_cached_key() {
    let mut cache = cached();
    assert_eq!(decrypt_v1(&v1_file(&KEY, 0, b"data"), "any", &mut cache), Ok(b"data".to_vec()));
    assert_eq!(decrypt_v1(&v1_file(&KEY, 0, b""), "any", &mut cache), Ok(vec![]));
    assert_eq!(cache.get(&SALT), Some(KEY));
}

#[test]
fn v1_wrong_password_is_refused_but_its_key_is_cached() {
    let mut cache = KeyCache::new();
    assert_eq!(
        decrypt_v1(&v1_file(&KEY, 0, b"data"), "wrong", &mut cache),
        Err(DecryptError::V1Authentication)
    );
    assert_eq!(cache.get(&SALT), Some(argon("wrong", &SALT)));
}

#[test]
fn v1_compressed() {
    let mut cache = cached();
    assert_eq!(decrypt_v1(&v1_file(&KEY, 1, &HELLO_ZLIB), "", &mut cache), Ok(b"hello".to_vec()));
    assert_eq!(
        decrypt_v1(&v1_file(&KEY, 1, b"hello"), "", &mut cache),
        Err(DecryptError::Inflate)
    );
    assert_eq!(
        decrypt_v1(&v1_file(&KEY, 9, &HELLO_ZLIB), "", &mut cache),
        Ok(HELLO_ZLIB.to_vec())
    );
}

#[test]
fn v1_white_space_and_further_segments() {
    let mut raw = v1_file(&KEY, 0, b"data");
    raw.extend_from_slice("\u{3000}\r\n:more:segments".as_bytes());
    assert_eq!(decrypt_v1(&raw, "", &mut cached()), Ok(b"data".to_vec()));
}

#[test]
fn v1_format_errors() {
    let mut cache = KeyCache::new();
    assert_eq!(decrypt_v1(b"ENC_V1:a:\xff", "", &mut cache), Err(DecryptError::V1NotUtf8));
    assert_eq!(decrypt_v1(b"ENC_V1:abc", "", &mut cache), Err(DecryptError::V1MissingSegments));
    assert_eq!(decrypt_v1(b"", "", &mut cache), Err(DecryptError::V1MissingSegments));
    assert_eq!(decrypt_v1(b"ENC_V1::!!!!", "", &mut cache), Err(DecryptError::PayloadBase64));
    let short = format!("ENC_V1::{}", STANDARD.encode([0u8; 28]));
    assert_eq!(decrypt_v1(short.as_bytes(), "", &mut cache), Err(DecryptError::V1TooShort));
    assert_eq!(cache.get(&[0; 16]), None);
    let bare = format!("ENC_V1::{}", STANDARD.encode([9u8; 29]));
    assert_eq!(
        decrypt_v1(bare.as_bytes(), "", &mut cached()),
        Err(DecryptError::V1Authentication)
    );
}

#[test]
fn v1_parts() {
    assert_eq!(payload_segment("a:b:c"), Ok("c"));
    assert_eq!(payload_segment("a:b:"), Ok(""));
    assert_eq!(payload_segment("::x:y"), Ok("x"));
    assert_eq!(payload_segment("a:b"), Err(DecryptError::V1MissingSegments));
    let bytes: Vec<u8> = (0..31).collect();
    let packet = split_packet(&bytes).ok().unwrap();
    assert_eq!(packet.salt, &bytes[0..16]);
    assert_eq!(packet.iv, &bytes[16..28]);
    assert_eq!(packet.compression_flag, 28);
    assert_eq!(packet.ciphertext, &[29, 30]);
    assert_eq!(split_packet(&bytes[..28]).err(), Some(DecryptError::V1TooShort));
    assert!(split_packet(&bytes[..29]).is_ok());
}

// Version 2.

#[test]
fn v2_binary_payload() {
    let ek = edek(&KEK, &DEK);
    let mut cache = KeyCache::new();
    let raw = v2_file(&format!("ek={}&bf=1", ek), &seal(&DEK, &[5; 12], b"data"));
    assert_eq!(decrypt_v2(&raw, &KEK, &mut cache), Ok(b"data".to_vec()));
    assert_eq!(cache.get(ek.as_bytes()), Some(DEK));
}

#[test]
fn v2_text_payload() {
    let text = format!(" \n{}\n", STANDARD.encode(seal(&DEK, &[5; 12], b"data")));
    let ek = edek(&KEK, &DEK);
    for ext in [format!("ek={}", ek), format!("bf=0&ek={}", ek), format!("ek={}&bf=2", ek)] {
        assert_eq!(v2(&v2_file(&ext, text.as_bytes())), Ok(b"data".to_vec()));
    }
}

#[test]
fn v2_compressed() {
    let ek = edek(&KEK, &DEK);
    let record = seal(&DEK, &[5; 12], &HELLO_ZLIB);
    assert_eq!(v2(&v2_file(&format!("cp=1&ek={}&bf=1", ek), &record)), Ok(b"hello".to_vec()));
    assert_eq!(v2(&v2_file(&format!("cp=0&ek={}&bf=1", ek), &record)), Ok(HELLO_ZLIB.to_vec()));
    let record = seal(&DEK, &[5; 12], b"hello");
    assert_eq!(
        v2(&v2_file(&format!("cp=1&ek={}&bf=1", ek), &record)),
        Err(DecryptError::Inflate)
    );
}

#[test]
fn v2_uses_the_cached_data_key() {
    let mut cache = KeyCache::new();
    cache.insert(b"not base64!", DEK);
    let raw = v2_file("ek=not base64!&bf=1", &seal(&DEK, &[5; 12], b"data"));
    assert_eq!(decrypt_v2(&raw, &KEK, &mut cache), Ok(b"data".to_vec()));
}

#[test]
fn v2_unwrapped_key_is_cached_though_the_payload_fails() {
    let ek = edek(&KEK, &DEK);
    let mut cache = KeyCache::new();
    let raw = v2_file(&format!("ek={}&bf=1", ek), &[0u8; 40]);
    assert_eq!(decrypt_v2(&raw, &KEK, &mut cache), Err(DecryptError::ChunkAuthentication));
    assert_eq!(cache.get(ek.as_bytes()), Some(DEK));
}

#[test]
fn v2_header_errors() {
    let ek = edek(&KEK, &DEK);
    assert_eq!(v2(b"ENC_V2:"), Err(DecryptError::NoExtensionEnd));
    assert_eq!(v2(b"ENC_V2:ek=x"), Err(DecryptError::NoExtensionEnd));
    let far = v2_file(&"x".repeat(2041), b"");
    assert_eq!(far[2048], b':');
    assert_eq!(v2(&far), Err(DecryptError::NoExtensionEnd));
    let near = v2_file(&format!("{}&bf=1", "x".repeat(2035)), b"");
    assert_eq!(near[2047], b':');
    assert_eq!(v2(&near), Err(DecryptError::MissingEdek));
    assert_eq!(v2(b"ENC_V2:\xff:"), Err(DecryptError::ExtensionNotUtf8));
    assert_eq!(v2(b"ENC_V2:ek=x:\xff"), Err(DecryptError::PayloadNotUtf8));
    assert_eq!(v2(b"ENC_V2:bf=0:!"), Err(DecryptError::PayloadBase64));
    assert_eq!(v2(b"ENC_V2:bf=0:"), Err(DecryptError::MissingEdek));
    assert_eq!(v2(b"ENC_V2:ek=!&bf=1:"), Err(DecryptError::EdekBase64));
    assert_eq!(v2(b"ENC_V2:ek= TQ==&bf=1:"), Err(DecryptError::EdekBase64));
    assert_eq!(v2(b"ENC_V2:ek=TQ==&bf=1:"), Err(DecryptError::EdekTooShort));
    assert_eq!(
        v2(&v2_file(&format!("ek={}&bf=1", edek(&DEK, &DEK)), b"")),
        Err(DecryptError::EdekAuthentication)
    );
    assert_eq!(
        v2(&v2_file(&format!("ek={}&bf=1", edek(&KEK, &[2; 31])), b"")),
        Err(DecryptError::DekLength)
    );
    assert_eq!(
        v2(&v2_file(&format!("ek={}&bf=1", ek), &[0; 27])),
        Err(DecryptError::PayloadTooShort)
    );
}

#[test]
fn v2_parts() {
    assert_eq!(find_extension_end(b"ENC_V2:ab:c:"), Some(9));
    assert_eq!(find_extension_end(b"ENC_V2::"), Some(7));
    assert_eq!(find_extension_end(b"ENC_V2:"), None);
    let bytes: Vec<u8> = (0..28).collect();
    assert_eq!(split_edek(&bytes), Ok((&bytes[..12], &bytes[12..])));
    assert_eq!(split_edek(&bytes[..27]), Err(DecryptError::EdekTooShort));
    assert_eq!(unwrap_dek(&KEK, &edek(&KEK, &DEK)), Ok(DEK));
    assert_eq!(unwrap_dek(&DEK, &edek(&KEK, &DEK)), Err(DecryptError::EdekAuthentication));
}

#[test]
fn chunk_counts() {
    assert_eq!(CHUNK_UNIT, CHUNK_SIZE + CHUNK_OVERHEAD);
    assert_eq!(CHUNK_SIZE, 4 * 1024 * 1024);
    assert_eq!(chunk_count(0), 1);
    assert_eq!(chunk_count(28), 1);
    assert_eq!(chunk_count(CHUNK_UNIT), 1);
    assert_eq!(chunk_count(CHUNK_UNIT + 1), 2);
    assert_eq!(chunk_count(3 * CHUNK_UNIT), 3);
}

#[test]
fn chunks_are_opened_in_order() {
    let mut first = vec![0u8; CHUNK_SIZE];
    first[7] = 1;
    let mut data = seal(&DEK, &[1; 12], &first);
    data.extend_from_slice(&seal(&DEK, &[2; 12], b"tail"));
    let plain = decrypt_chunks(&DEK, &data).unwrap();
    assert_eq!(plain.len(), data.len() - 2 * CHUNK_OVERHEAD);
    assert!(plain[..CHUNK_SIZE] == first[..]);
    assert_eq!(&plain[CHUNK_SIZE..], b"tail");
}

#[test]
fn a_bad_chunk_spoils_the_payload() {
    let mut data = seal(&DEK, &[1; 12], &vec![0u8; CHUNK_SIZE]);
    data.extend_from_slice(&[0; 27]);
    assert_eq!(decrypt_chunks(&DEK, &data), Err(DecryptError::ChunkIncomplete));
    data.push(0);
    assert_eq!(decrypt_chunks(&DEK, &data), Err(DecryptError::ChunkAuthentication));
    data[20] ^= 1;
    data.truncate(CHUNK_UNIT + 5);
    assert_eq!(decrypt_chunks(&DEK, &data), Err(DecryptError::ChunkAuthentication));
    assert_eq!(decrypt_chunks(&DEK, &[0; 27]), Err(DecryptError::PayloadTooShort));
}

#[test]
fn empty_chunk_gives_empty_plaintext() {
    assert_eq!(decrypt_chunks(&DEK, &seal(&DEK, &[1; 12], b"")), Ok(vec![]));
}

// Whole containers.

#[test]
fn recognises_headers() {
    assert!(is_encrypted_head(b"ENC_V1:"));
    assert!(is_encrypted_head(b"ENC_V2:"));
    assert!(!is_encrypted_head(b"ENC_V3:"));
    assert!(!is_encrypted_head(b"ENC_V2"));
    assert!(!is_encrypted_head(b"ENC_V2:x"));
    assert!(!is_encrypted_head(b"enc_v2:"));
}

#[test]
fn dispatches_on_the_header() {
    let mut keys = cached();
    let mut deks = KeyCache::new();
    let one = v1_file(&KEY, 0, b"one");
    let ek = edek(&KEK, &DEK);
    let two = v2_file(&format!("ek={}&bf=1", ek), &seal(&DEK, &[5; 12], b"two"));
    assert_eq!(decrypt_contents(&one, "", &KEK, &mut keys, &mut deks), Ok(b"one".to_vec()));
    assert_eq!(deks.get(ek.as_bytes()), None);
    assert_eq!(decrypt_contents(&two, "", &KEK, &mut keys, &mut deks), Ok(b"two".to_vec()));
    assert_eq!(deks.get(ek.as_bytes()), Some(DEK));
    assert_eq!(keys.get(ek.as_bytes()), None);
    for raw in [&b""[..], b"ENC_V1", b"ENC_V3:a:b", b"plain"] {
        assert_eq!(
            decrypt_contents(raw, "", &KEK, &mut keys, &mut deks),
            Err(DecryptError::UnknownHeader)
        );
    }
}

#[test]
fn session_refuses_an_empty_password() {
    assert_eq!(Session::open("").err(), Some(DecryptError::EmptyPassword));
    assert_eq!(DecryptError::EmptyPassword.message(), "密码不能为空");
}

#[test]
fn session_gives_the_same_result_before_and_after_other_files() {
    let mut session = Session::open("pw").ok().unwrap();
    let kek = derive_kek("pw").unwrap();
    let good = v2_file(&format!("ek={}&bf=1", edek(&kek, &DEK)), &seal(&DEK, &[5; 12], b"two"));
    let bad = v2_file(&format!("ek={}&bf=1", edek(&KEK, &DEK)), &seal(&DEK, &[5; 12], b"two"));
    for _ in 0..2 {
        assert_eq!(session.decrypt(&bad), Err(DecryptError::EdekAuthentication));
        assert_eq!(session.decrypt(&good), Ok(b"two".to_vec()));
        assert_eq!(session.decrypt(b"x"), Err(DecryptError::UnknownHeader));
    }
    assert_eq!(session.fork().decrypt(&good), Ok(b"two".to_vec()));
}

#[test]
fn session_decrypts_version_one() {
    let mut session = Session::open("pw").ok().unwrap();
    let raw = v1_file(&argon("pw", &SALT), 1, &HELLO_ZLIB);
    assert_eq!(session.decrypt(&raw), Ok(b"hello".to_vec()));
    assert_eq!(session.decrypt(&raw), Ok(b"hello".to_vec()));
    let other = v1_file(&KEY, 0, b"data");
    assert_eq!(session.decrypt(&other), Err(DecryptError::V1Authentication));
}

#[test]
fn messages() {
    assert_eq!(DecryptError::UnknownHeader.message(), "未识别的加密标头");
    assert_eq!(DecryptError::KekDerivation.message(), "主密钥 (KEK) 派生失败: PwdTooLong");
    assert_eq!(DecryptError::KeyDerivation.message(), "密钥派生失败: PwdTooLong");
    assert_eq!(DecryptError::V1NotUtf8.message(), "V1 文件非有效 UTF-8 文本");
    assert_eq!(DecryptError::V1MissingSegments.message(), "无效的结构: 缺少扩展区或载荷区");
    assert_eq!(DecryptError::PayloadBase64.message(), "Payload Base64 解码失败");
    assert_eq!(DecryptError::V1TooShort.message(), "密文数据长度异常");
    assert_eq!(DecryptError::V1Authentication.message(), "解密验证失败：密码错误或数据损坏");
    assert_eq!(DecryptError::Inflate.message(), "数据解压失败 (ZLIB 格式异常)");
    assert_eq!(DecryptError::NoExtensionEnd.message(), "未找到扩展区结束分隔符");
    assert_eq!(DecryptError::ExtensionNotUtf8.message(), "扩展区非有效 UTF-8 编码");
    assert_eq!(DecryptError::PayloadNotUtf8.message(), "密文载荷非有效 UTF-8 文本");
    assert_eq!(DecryptError::MissingEdek.message(), "元数据块缺失 EDEK (ek 字段)");
    assert_eq!(DecryptError::EdekBase64.message(), "EDEK Base64 解码失败");
    assert_eq!(DecryptError::EdekTooShort.message(), "EDEK 载荷长度不足");
    assert_eq!(DecryptError::EdekAuthentication.message(), "解密 EDEK 失败：密码错误");
    assert_eq!(DecryptError::DekLength.message(), "DEK 长度非 32 字节");
    assert_eq!(DecryptError::PayloadTooShort.message(), "密文数据长度小于最小分块开销");
    assert_eq!(DecryptError::ChunkIncomplete.message(), "分块数据不完整");
    assert_eq!(
        DecryptError::ChunkAuthentication.message(),
        "分块解密失败：密文损坏或验证标签不匹配"
    );
}
