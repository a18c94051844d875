//! The cryptographic and compression functions that containers are built on.
use crate::encoding::bytes_view;
use crate::error::{key_view, outcome_view, DecryptError};
use aes_gcm::aead::{Aead, KeyInit};
use aes_gcm::{Aes256Gcm, Nonce};
use argon2::{Algorithm, Argon2, Params, Version};
use flate2::read::ZlibDecoder;
use std::io::Read;
use vstd::prelude::*;
use vstd::utf8::{encode_utf8, is_ascii_chars_encode_utf8};

verus! {

/// Argon2 memory cost, in KiB.
pub const ARGON2_MEMORY: u32 = 65536;

/// Argon2 passes.
pub const ARGON2_PASSES: u32 = 3;

/// Argon2 lanes.
pub const ARGON2_LANES: u32 = 4;

/// Length of every symmetric key.
pub const KEY_SIZE: usize = 32;

/// Length of an AES-GCM nonce.
pub const IV_SIZE: usize = 12;

/// Length of an AES-GCM tag.
pub const TAG_SIZE: usize = 16;

/// The salt from which the master key is derived.
pub const KEK_SALT: &'static str = "Phantom_Cipher_KEK_Salt_V2_2026";

#[verifier::external_type_specification]
#[verifier::external_body]
pub struct ExArgon2Error(argon2::Error);

/// The Argon2id hash (version 1.3, no secret, no associated data).
pub uninterp spec fn argon2id_hash(
    password: Seq<u8>,
    salt: Seq<u8>,
    m_cost: u32,
    t_cost: u32,
    p_cost: u32,
    out_len: nat,
) -> Seq<u8>;

/// The plaintext of an AES-256-GCM ciphertext with a postfix tag and no associated data, or `None`
/// where authentication fails.
pub uninterp spec fn aes256_gcm_open(
    key: Seq<u8>,
    nonce: Seq<u8>,
    ciphertext: Seq<u8>,
) -> Option<Seq<u8>>;

/// The contents of the zlib stream at the start of `data`, or `None` where there is no complete
/// one.
pub uninterp spec fn zlib_inflate(data: Seq<u8>) -> Option<Seq<u8>>;

/// The password and the salt have lengths that Argon2 takes.
pub open spec fn argon2_takes(password: Seq<u8>, salt: Seq<u8>) -> bool {
    password.len() <= 0xffff_ffff && 8 <= salt.len() <= 0xffff_ffff
}

/// Calls `argon2`'s `Params::new` and `Argon2::hash_password_into`, for Argon2id in version 0x13.
/// With costs that `Params::new` takes it succeeds unless the password is longer than 2^32 - 1
/// bytes or the salt is not between 8 and 2^32 - 1 bytes long, and then gives `out_len` bytes that
/// depend on the arguments alone.
#[verifier::external_body]
fn argon2id(
    password: &[u8],
    salt: &[u8],
    m_cost: u32,
    t_cost: u32,
    p_cost: u32,
    out_len: usize,
) -> (r: Result<Vec<u8>, argon2::Error>)
    requires
        8 <= m_cost,
        8 * p_cost <= m_cost,
        m_cost * 1024 <= isize::MAX,
        1 <= t_cost,
        1 <= p_cost <= 0xff_ffff,
        4 <= out_len <= 64,
    ensures
        r is Ok == argon2_takes(password@, salt@),
        r matches Ok(hash) ==> hash@ == argon2id_hash(
            password@,
            salt@,
            m_cost,
            t_cost,
            p_cost,
            out_len as nat,
        ),
        r matches Ok(hash) ==> hash@.len() == out_len,
{
    let params = Params::new(m_cost, t_cost, p_cost, Some(out_len))?;
    let mut hash = vec![0u8; out_len];
    Argon2::new(Algorithm::Argon2id, Version::V0x13, params)
        .hash_password_into(password, salt, &mut hash)?;
    Ok(hash)
}

/// Calls `aead`'s `Aead::decrypt` on an `aes_gcm::Aes256Gcm` with the given key: the result depends
/// on the arguments alone, and a plaintext is shorter than its ciphertext by the 16 bytes of the
/// tag.
#[verifier::external_body]
pub(crate) fn gcm_decrypt(key: &[u8; 32], nonce: &[u8], ciphertext: &[u8]) -> (r: Option<Vec<u8>>)
    requires
        nonce@.len() == 12,
    ensures
        bytes_view(r) == aes256_gcm_open(key@, nonce@, ciphertext@),
        r matches Some(plain) ==> plain@.len() + 16 == ciphertext@.len(),
{
    let cipher = Aes256Gcm::new_from_slice(key).ok()?;
    cipher.decrypt(Nonce::from_slice(nonce), ciphertext).ok()
}

/// Calls `Read::read_to_end` on a `flate2::read::ZlibDecoder` over `data`: the result depends on
/// `data` alone.
#[verifier::external_body]
fn read_zlib(data: &[u8]) -> (r: Option<Vec<u8>>)
    ensures
        bytes_view(r) == zlib_inflate(data@),
{
    let mut plain = Vec::new();
    match ZlibDecoder::new(data).read_to_end(&mut plain) {
        Ok(_) => Some(plain),
        Err(_) => None,
    }
}

/// The key that a password and a salt give, or `None` where Argon2 does not take their lengths.
pub open spec fn password_key(password: Seq<u8>, salt: Seq<u8>) -> Option<Seq<u8>> {
    if argon2_takes(password, salt) {
        Some(
            argon2id_hash(password, salt, ARGON2_MEMORY, ARGON2_PASSES, ARGON2_LANES, KEY_SIZE as nat),
        )
    } else {
        None
    }
}

/// The 32 bytes of a key, where there are 32.
pub fn to_key(bytes: &[u8]) -> (r: Option<[u8; 32]>)
    ensures
        match r {
            Some(key) => key@ == bytes@,
            None => bytes@.len() != 32,
        },
{
    if bytes.len() != KEY_SIZE {
        return None;
    }
    let mut key: [u8; 32] = [0u8; 32];
    let mut i: usize = 0;
    while i < 32
        invariant
            i <= 32,
            bytes@.len() == 32,
            forall|j: int| 0 <= j < i ==> key@[j] == bytes@[j],
        decreases 32 - i,
    {
        key[i] = bytes[i];
        i += 1;
    }
    assert(key@ =~= bytes@);
    Some(key)
}

/// Derives a key from a password and a salt.
pub fn derive_key(password: &str, salt: &[u8]) -> (r: Option<[u8; 32]>)
    ensures
        match r {
            Some(key) => password_key(encode_utf8(password@), salt@) == Some(key@),
            None => password_key(encode_utf8(password@), salt@) is None,
        },
        r is Some == (encode_utf8(password@).len() <= 0xffff_ffff && 8 <= salt@.len()
            <= 0xffff_ffff),
        r matches Some(key) ==> key@ == argon2id_hash(
            encode_utf8(password@),
            salt@,
            65536,
            3,
            4,
            32,
        ),
{
    match argon2id(
        password.as_bytes(),
        salt,
        ARGON2_MEMORY,
        ARGON2_PASSES,
        ARGON2_LANES,
        KEY_SIZE,
    ) {
        Ok(hash) => to_key(&hash),
        Err(_) => None,
    }
}

/// The master key of a password.
pub open spec fn kek_of(password: Seq<char>) -> Result<Seq<u8>, DecryptError> {
    match password_key(encode_utf8(password), encode_utf8(KEK_SALT@)) {
        Some(key) => Ok(key),
        None => Err(DecryptError::KekDerivation),
    }
}

/// The outcome of an attempt to derive a master key.
pub fn accept_kek(derived: Option<[u8; 32]>) -> (r: Result<[u8; 32], DecryptError>)
    ensures
        r == match derived {
            Some(kek) => Ok(kek),
            None => Err(DecryptError::KekDerivation),
        },
{
    match derived {
        Some(kek) => Ok(kek),
        None => Err(DecryptError::KekDerivation),
    }
}

/// Derives the master key (KEK) from the password alone.
pub fn derive_kek(password: &str) -> (r: Result<[u8; 32], DecryptError>)
    ensures
        key_view(r) == kek_of(password@),
        r is Ok == (encode_utf8(password@).len() <= 0xffff_ffff),
        r matches Ok(kek) ==> kek@ == argon2id_hash(
            encode_utf8(password@),
            encode_utf8("Phantom_Cipher_KEK_Salt_V2_2026"@),
            65536,
            3,
            4,
            32,
        ),
        r matches Err(e) ==> e == DecryptError::KekDerivation,
{
    proof {
        reveal_strlit("Phantom_Cipher_KEK_Salt_V2_2026");
        is_ascii_chars_encode_utf8("Phantom_Cipher_KEK_Salt_V2_2026"@);
    }
    accept_kek(derive_key(password, KEK_SALT.as_bytes()))
}

/// What decrypted data holds: with the flag 1 a zlib stream, otherwise itself.
pub open spec fn decompressed(flag: u8, data: Seq<u8>) -> Result<Seq<u8>, DecryptError> {
    if flag == 1 {
        match zlib_inflate(data) {
            Some(plain) => Ok(plain),
            None => Err(DecryptError::Inflate),
        }
    } else {
        Ok(data)
    }
}

/// The outcome of an attempt to inflate.
pub fn accept_inflated(inflated: Option<Vec<u8>>) -> (r: Result<Vec<u8>, DecryptError>)
    ensures
        outcome_view(r) == match bytes_view(inflated) {
            Some(plain) => Ok(plain),
            None => Err(DecryptError::Inflate),
        },
{
    match inflated {
        Some(plain) => Ok(plain),
        None => Err(DecryptError::Inflate),
    }
}

/// Inflates decrypted data where its flag asks for it.
pub fn decompress(flag: u8, data: Vec<u8>) -> (r: Result<Vec<u8>, DecryptError>)
    ensures
        outcome_view(r) == decompressed(flag, data@),
        flag != 1 ==> (r matches Ok(plain) && plain@ == data@),
        flag == 1 ==> match r {
            Ok(plain) => zlib_inflate(data@) == Some(plain@),
            Err(e) => zlib_inflate(data@) is None && e == DecryptError::Inflate,
        },
{
    if flag == 1 {
        accept_inflated(read_zlib(&data))
    } else {
        Ok(data)
    }
}

} // verus!
