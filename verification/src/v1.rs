//! Version 1 containers: `ENC_V1:<extension>:<base64 payload>`, where the payload is
//! salt (16) + nonce (12) + compression flag (1) + ciphertext with tag.
use crate::cache::KeyCache;
use crate::encoding::{bytes_view, decode_payload_text, payload_bytes};
use crate::error::{outcome_view, DecryptError};
use crate::primitives::{
    aes256_gcm_open, decompress, decompressed, derive_key, gcm_decrypt, password_key, zlib_inflate,
    IV_SIZE, TAG_SIZE,
};
use crate::text::{cut, pieces, utf8_text};
use vstd::prelude::*;
use vstd::slice::slice_subrange;
use vstd::utf8::{decode_utf8, encode_utf8, valid_utf8};

verus! {

/// Length of the salt of a version 1 payload.
pub const SALT_SIZE: usize = 16;

/// The parts of a version 1 payload.
pub struct V1Packet<'a> {
    pub salt: &'a [u8],
    pub iv: &'a [u8],
    pub compression_flag: u8,
    pub ciphertext: &'a [u8],
}

/// What a `V1Packet` stands for.
pub struct PacketView {
    pub salt: Seq<u8>,
    pub iv: Seq<u8>,
    pub compression_flag: u8,
    pub ciphertext: Seq<u8>,
}

impl<'a> View for V1Packet<'a> {
    type V = PacketView;

    open spec fn view(&self) -> PacketView {
        PacketView {
            salt: self.salt@,
            iv: self.iv@,
            compression_flag: self.compression_flag,
            ciphertext: self.ciphertext@,
        }
    }
}

/// The third of the segments that colons separate.
pub open spec fn third_segment(content: Seq<char>) -> Result<Seq<char>, DecryptError> {
    let segments = pieces(content, ':');
    if segments.len() < 3 {
        Err(DecryptError::V1MissingSegments)
    } else {
        Ok(segments[2])
    }
}

/// The parts of a decoded payload.
pub open spec fn packet_of(combined: Seq<u8>) -> Result<PacketView, DecryptError> {
    if combined.len() < SALT_SIZE + IV_SIZE + 1 {
        Err(DecryptError::V1TooShort)
    } else {
        Ok(
            PacketView {
                salt: combined.subrange(0, 16),
                iv: combined.subrange(16, 28),
                compression_flag: combined[28],
                ciphertext: combined.skip(29),
            },
        )
    }
}

/// The packet that a version 1 container carries.
pub open spec fn v1_packet(raw: Seq<u8>) -> Result<PacketView, DecryptError> {
    if !valid_utf8(raw) {
        Err(DecryptError::V1NotUtf8)
    } else {
        match third_segment(decode_utf8(raw)) {
            Ok(text) => match payload_bytes(text) {
                Ok(combined) => packet_of(combined),
                Err(e) => Err(e),
            },
            Err(e) => Err(e),
        }
    }
}

/// The key for a salt: the cached one, or else the one that the password gives.
pub open spec fn v1_key(
    salt: Seq<u8>,
    password: Seq<char>,
    cache: Map<Seq<u8>, Seq<u8>>,
) -> Result<Seq<u8>, DecryptError> {
    if cache.dom().contains(salt) {
        Ok(cache[salt])
    } else {
        match password_key(encode_utf8(password), salt) {
            Some(key) => Ok(key),
            None => Err(DecryptError::KeyDerivation),
        }
    }
}

/// The plaintext that follows from an attempt to open a packet.
pub open spec fn v1_opened(opened: Option<Seq<u8>>, flag: u8) -> Result<Seq<u8>, DecryptError> {
    match opened {
        Some(data) => decompressed(flag, data),
        None => Err(DecryptError::V1Authentication),
    }
}

/// The plaintext of a version 1 container.
pub open spec fn v1_plaintext(
    raw: Seq<u8>,
    password: Seq<char>,
    cache: Map<Seq<u8>, Seq<u8>>,
) -> Result<Seq<u8>, DecryptError> {
    match v1_packet(raw) {
        Ok(packet) => match v1_key(packet.salt, password, cache) {
            Ok(key) => v1_opened(
                aes256_gcm_open(key, packet.iv, packet.ciphertext),
                packet.compression_flag,
            ),
            Err(e) => Err(e),
        },
        Err(e) => Err(e),
    }
}

/// `len` is a length that the plaintext of a version 1 container can have: its ciphertext holds a
/// tag, and data that is not compressed is shorter than the ciphertext by just that tag.
pub open spec fn v1_length(raw: Seq<u8>, len: nat) -> bool {
    v1_packet(raw) matches Ok(packet) && packet.ciphertext.len() >= TAG_SIZE && (
    packet.compression_flag != 1 ==> len + TAG_SIZE == packet.ciphertext.len())
}

/// The key cache after a version 1 container: a key that was derived is kept, whether or not the
/// packet then opens.
pub open spec fn v1_cache(
    raw: Seq<u8>,
    password: Seq<char>,
    cache: Map<Seq<u8>, Seq<u8>>,
) -> Map<Seq<u8>, Seq<u8>> {
    match v1_packet(raw) {
        Ok(packet) => match v1_key(packet.salt, password, cache) {
            Ok(key) => if cache.dom().contains(packet.salt) {
                cache
            } else {
                cache.insert(packet.salt, key)
            },
            Err(_) => cache,
        },
        Err(_) => cache,
    }
}

/// Finds the payload segment of a version 1 container.
pub fn payload_segment<'a>(content: &'a str) -> (r: Result<&'a str, DecryptError>)
    ensures
        match r {
            Ok(text) => third_segment(content@) == Ok::<Seq<char>, DecryptError>(text@),
            Err(e) => third_segment(content@) == Err::<Seq<char>, DecryptError>(e),
        },
{
    reveal_with_fuel(pieces, 4);
    let (_, after_magic) = match cut(content, ':') {
        Some(halves) => halves,
        None => {
            return Err(DecryptError::V1MissingSegments);
        },
    };
    let (_, after_ext) = match cut(after_magic, ':') {
        Some(halves) => halves,
        None => {
            return Err(DecryptError::V1MissingSegments);
        },
    };
    match cut(after_ext, ':') {
        Some((payload, _)) => Ok(payload),
        None => Ok(after_ext),
    }
}

/// Splits a decoded payload into its parts.
pub fn split_packet<'a>(combined: &'a [u8]) -> (r: Result<V1Packet<'a>, DecryptError>)
    ensures
        match r {
            Ok(packet) => packet_of(combined@) == Ok::<PacketView, DecryptError>(packet@),
            Err(e) => packet_of(combined@) == Err::<PacketView, DecryptError>(e),
        },
{
    if combined.len() < SALT_SIZE + IV_SIZE + 1 {
        return Err(DecryptError::V1TooShort);
    }
    Ok(
        V1Packet {
            salt: slice_subrange(combined, 0, SALT_SIZE),
            iv: slice_subrange(combined, SALT_SIZE, SALT_SIZE + IV_SIZE),
            compression_flag: combined[SALT_SIZE + IV_SIZE],
            ciphertext: slice_subrange(combined, SALT_SIZE + IV_SIZE + 1, combined.len()),
        },
    )
}

/// The outcome of an attempt to derive the key for a salt.
pub fn accept_key(derived: Option<[u8; 32]>) -> (r: Result<[u8; 32], DecryptError>)
    ensures
        r == match derived {
            Some(key) => Ok(key),
            None => Err(DecryptError::KeyDerivation),
        },
{
    match derived {
        Some(key) => Ok(key),
        None => Err(DecryptError::KeyDerivation),
    }
}

/// The outcome of an attempt to open a packet.
pub fn accept_opened(opened: Option<Vec<u8>>, compression_flag: u8) -> (r: Result<
    Vec<u8>,
    DecryptError,
>)
    ensures
        outcome_view(r) == v1_opened(bytes_view(opened), compression_flag),
        opened is None ==> r == Err::<Vec<u8>, DecryptError>(DecryptError::V1Authentication),
        opened matches Some(data) ==> match r {
            Ok(plain) => if compression_flag == 1 {
                zlib_inflate(data@) == Some(plain@)
            } else {
                plain@ == data@
            },
            Err(e) => compression_flag == 1 && zlib_inflate(data@) is None && e
                == DecryptError::Inflate,
        },
{
    match opened {
        Some(data) => decompress(compression_flag, data),
        None => Err(DecryptError::V1Authentication),
    }
}

/// Decrypts a version 1 container. Keys are cached by salt.
pub fn decrypt_v1(raw_data: &[u8], password: &str, cache: &mut KeyCache) -> (r: Result<
    Vec<u8>,
    DecryptError,
>)
    ensures
        outcome_view(r) == v1_plaintext(raw_data@, password@, old(cache)@),
        final(cache)@ == v1_cache(raw_data@, password@, old(cache)@),
        r matches Ok(data) ==> v1_length(raw_data@, data@.len()),
{
    let content = match utf8_text(raw_data) {
        Some(content) => content,
        None => {
            return Err(DecryptError::V1NotUtf8);
        },
    };
    let payload = payload_segment(content)?;
    let combined = decode_payload_text(payload)?;
    let packet = split_packet(&combined)?;
    let key = match cache.get(packet.salt) {
        Some(key) => key,
        None => {
            let key = accept_key(derive_key(password, packet.salt))?;
            cache.insert(packet.salt, key);
            key
        },
    };
    let opened = gcm_decrypt(&key, packet.iv, packet.ciphertext);
    accept_opened(opened, packet.compression_flag)
}

} // verus!
