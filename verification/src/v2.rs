//! Version 2 containers: `ENC_V2:<extension>:<payload>`. The extension region carries the wrapped
//! data key; the payload is a run of chunks, each nonce (12) + ciphertext + tag (16).
use crate::cache::KeyCache;
use crate::encoding::{base64_decoded, bytes_view, decode_base64, decode_payload_text, payload_bytes};
use crate::error::{key_view, outcome_view, DecryptError};
use crate::params::{params_of, parse_decryption_params};
use crate::primitives::{
    aes256_gcm_open, decompress, decompressed, gcm_decrypt, to_key, IV_SIZE, TAG_SIZE,
};
use crate::text::utf8_text;
use vstd::prelude::*;
use vstd::slice::slice_subrange;
use vstd::utf8::{decode_utf8, encode_utf8, valid_utf8};

verus! {

/// Length of the header that starts a container.
pub const HEADER_SIZE: usize = 7;

/// The extension region ends within this many bytes from the start.
pub const SCAN_LIMIT: usize = 2048;

/// Plaintext bytes in a full chunk: 4 MiB.
pub const CHUNK_SIZE: usize = 4_194_304;

/// Bytes that a chunk holds besides its plaintext: a nonce and a tag.
pub const CHUNK_OVERHEAD: usize = 28;

/// Bytes of a full chunk: `CHUNK_SIZE + CHUNK_OVERHEAD`.
pub const CHUNK_UNIT: usize = 4_194_332;

/// `i` is the colon that ends the extension region.
pub open spec fn ends_extension(raw: Seq<u8>, i: int) -> bool {
    &&& HEADER_SIZE <= i < raw.len()
    &&& i < SCAN_LIMIT
    &&& raw[i] == 58
    &&& forall|j: int| HEADER_SIZE <= j < i ==> raw[j] != 58
}

/// The extension region and the payload.
pub open spec fn v2_regions(raw: Seq<u8>) -> Result<(Seq<u8>, Seq<u8>), DecryptError> {
    if exists|i: int| ends_extension(raw, i) {
        let i = choose|i: int| ends_extension(raw, i);
        Ok((raw.subrange(HEADER_SIZE as int, i), raw.skip(i + 1)))
    } else {
        Err(DecryptError::NoExtensionEnd)
    }
}

/// The chunks that a payload holds: itself with the format 1, otherwise what its base64 text
/// gives.
pub open spec fn v2_payload(payload: Seq<u8>, bf: Option<u8>) -> Result<Seq<u8>, DecryptError> {
    if bf == Some(1u8) {
        Ok(payload)
    } else if !valid_utf8(payload) {
        Err(DecryptError::PayloadNotUtf8)
    } else {
        payload_bytes(decode_utf8(payload))
    }
}

/// What a version 2 container carries.
pub struct V2View {
    /// The wrapped data key, in base64.
    pub ek: Seq<char>,
    pub compression_flag: u8,
    pub chunks: Seq<u8>,
}

/// What a version 2 container carries.
pub open spec fn v2_parts(raw: Seq<u8>) -> Result<V2View, DecryptError> {
    match v2_regions(raw) {
        Ok((ext, payload)) => if !valid_utf8(ext) {
            Err(DecryptError::ExtensionNotUtf8)
        } else {
            let params = params_of(decode_utf8(ext));
            match v2_payload(payload, params.bf) {
                Ok(chunks) => match params.ek {
                    Some(ek) => Ok(
                        V2View {
                            ek,
                            compression_flag: match params.cp {
                                Some(cp) => cp,
                                None => 0,
                            },
                            chunks,
                        },
                    ),
                    None => Err(DecryptError::MissingEdek),
                },
                Err(e) => Err(e),
            }
        },
        Err(e) => Err(e),
    }
}

/// The data key that follows from an attempt to open the wrapped one.
pub open spec fn dek_opened(opened: Option<Seq<u8>>) -> Result<Seq<u8>, DecryptError> {
    match opened {
        Some(dek) => if dek.len() == 32 {
            Ok(dek)
        } else {
            Err(DecryptError::DekLength)
        },
        None => Err(DecryptError::EdekAuthentication),
    }
}

/// The data key that the master key unwraps from `ek`.
pub open spec fn unwrapped_dek(kek: Seq<u8>, ek: Seq<char>) -> Result<Seq<u8>, DecryptError> {
    match base64_decoded(ek) {
        Some(edek) => if edek.len() < CHUNK_OVERHEAD {
            Err(DecryptError::EdekTooShort)
        } else {
            dek_opened(aes256_gcm_open(kek, edek.take(12), edek.skip(12)))
        },
        None => Err(DecryptError::EdekBase64),
    }
}

/// The data key for `ek`: the cached one, or else the one that the master key unwraps.
pub open spec fn v2_dek(
    ek: Seq<char>,
    kek: Seq<u8>,
    cache: Map<Seq<u8>, Seq<u8>>,
) -> Result<Seq<u8>, DecryptError> {
    if cache.dom().contains(encode_utf8(ek)) {
        Ok(cache[encode_utf8(ek)])
    } else {
        unwrapped_dek(kek, ek)
    }
}

/// Length of the first chunk of `data`.
pub open spec fn first_chunk(data: Seq<u8>) -> int {
    if data.len() < CHUNK_UNIT {
        data.len() as int
    } else {
        CHUNK_UNIT as int
    }
}

/// The plaintext of a run of chunks, each but the last of full size.
pub open spec fn chunks_plaintext(dek: Seq<u8>, data: Seq<u8>) -> Result<Seq<u8>, DecryptError>
    decreases data.len(),
{
    let n = first_chunk(data);
    if data.len() == 0 {
        Ok(seq![])
    } else if n < CHUNK_OVERHEAD {
        Err(DecryptError::ChunkIncomplete)
    } else {
        match aes256_gcm_open(dek, data.take(12), data.subrange(12, n)) {
            Some(plain) => match chunks_plaintext(dek, data.skip(n)) {
                Ok(rest) => Ok(plain + rest),
                Err(e) => Err(e),
            },
            None => Err(DecryptError::ChunkAuthentication),
        }
    }
}

/// The plaintext of a payload: at least one chunk.
pub open spec fn payload_plaintext(dek: Seq<u8>, data: Seq<u8>) -> Result<Seq<u8>, DecryptError> {
    if data.len() < CHUNK_OVERHEAD {
        Err(DecryptError::PayloadTooShort)
    } else {
        chunks_plaintext(dek, data)
    }
}

/// How many chunks a payload of `len` bytes has.
pub open spec fn chunk_total(len: int) -> int {
    if len == 0 {
        1
    } else {
        (len + CHUNK_UNIT - 1) / (CHUNK_UNIT as int)
    }
}

/// The plaintext of a version 2 container.
pub open spec fn v2_plaintext(
    raw: Seq<u8>,
    kek: Seq<u8>,
    cache: Map<Seq<u8>, Seq<u8>>,
) -> Result<Seq<u8>, DecryptError> {
    match v2_parts(raw) {
        Ok(parts) => match v2_dek(parts.ek, kek, cache) {
            Ok(dek) => match payload_plaintext(dek, parts.chunks) {
                Ok(data) => decompressed(parts.compression_flag, data),
                Err(e) => Err(e),
            },
            Err(e) => Err(e),
        },
        Err(e) => Err(e),
    }
}

/// `len` is a length that the plaintext of a version 2 container can have: its payload holds a
/// chunk, and data that is not compressed is shorter than the payload by the overhead of each
/// chunk.
pub open spec fn v2_length(raw: Seq<u8>, len: nat) -> bool {
    v2_parts(raw) matches Ok(parts) && parts.chunks.len() >= CHUNK_OVERHEAD && (
    parts.compression_flag != 1 ==> len == parts.chunks.len() - CHUNK_OVERHEAD * chunk_total(
        parts.chunks.len() as int,
    ))
}

/// The key cache after a version 2 container: a data key that was unwrapped is kept, whether or
/// not the payload then opens.
pub open spec fn v2_cache(
    raw: Seq<u8>,
    kek: Seq<u8>,
    cache: Map<Seq<u8>, Seq<u8>>,
) -> Map<Seq<u8>, Seq<u8>> {
    match v2_parts(raw) {
        Ok(parts) => match v2_dek(parts.ek, kek, cache) {
            Ok(dek) => if cache.dom().contains(encode_utf8(parts.ek)) {
                cache
            } else {
                cache.insert(encode_utf8(parts.ek), dek)
            },
            Err(_) => cache,
        },
        Err(_) => cache,
    }
}

/// Finds the colon that ends the extension region.
pub fn find_extension_end(raw_data: &[u8]) -> (r: Option<usize>)
    ensures
        match r {
            Some(i) => ends_extension(raw_data@, i as int),
            None => forall|i: int| !ends_extension(raw_data@, i),
        },
{
    let limit: usize = if raw_data.len() < SCAN_LIMIT {
        raw_data.len()
    } else {
        SCAN_LIMIT
    };
    let mut i: usize = HEADER_SIZE;
    while i < limit
        invariant
            HEADER_SIZE <= i,
            limit <= raw_data@.len(),
            limit <= SCAN_LIMIT,
            forall|j: int| HEADER_SIZE <= j < i && j < limit ==> raw_data@[j] != 58,
        decreases limit - i,
    {
        if raw_data[i] == 58 {
            return Some(i);
        }
        i += 1;
    }
    None
}

/// Splits a wrapped data key into its nonce and its ciphertext.
pub fn split_edek<'a>(edek: &'a [u8]) -> (r: Result<(&'a [u8], &'a [u8]), DecryptError>)
    ensures
        match r {
            Ok((iv, ciphertext)) => edek@.len() >= CHUNK_OVERHEAD && iv@ == edek@.take(12)
                && ciphertext@ == edek@.skip(12),
            Err(e) => edek@.len() < CHUNK_OVERHEAD && e == DecryptError::EdekTooShort,
        },
{
    if edek.len() < IV_SIZE + TAG_SIZE {
        return Err(DecryptError::EdekTooShort);
    }
    Ok((slice_subrange(edek, 0, IV_SIZE), slice_subrange(edek, IV_SIZE, edek.len())))
}

/// The outcome of an attempt to open a wrapped data key.
pub fn accept_dek(opened: Option<Vec<u8>>) -> (r: Result<[u8; 32], DecryptError>)
    ensures
        key_view(r) == dek_opened(bytes_view(opened)),
        match opened {
            Some(dek) => match r {
                Ok(key) => key@ == dek@,
                Err(e) => dek@.len() != 32 && e == DecryptError::DekLength,
            },
            None => r == Err::<[u8; 32], DecryptError>(DecryptError::EdekAuthentication),
        },
{
    match opened {
        Some(dek) => match to_key(&dek) {
            Some(key) => Ok(key),
            None => Err(DecryptError::DekLength),
        },
        None => Err(DecryptError::EdekAuthentication),
    }
}

/// Unwraps a data key with the master key. What opens to a key of 32 bytes is 60 bytes long: the
/// key, a nonce and a tag.
pub fn unwrap_dek(kek: &[u8; 32], ek: &str) -> (r: Result<[u8; 32], DecryptError>)
    ensures
        key_view(r) == unwrapped_dek(kek@, ek@),
        r is Ok ==> (base64_decoded(ek@) matches Some(edek) && edek.len() == 32 + CHUNK_OVERHEAD),
        r matches Err(e) ==> e == DecryptError::DekLength ==> (base64_decoded(ek@) matches Some(edek)
            && edek.len() != 32 + CHUNK_OVERHEAD),
{
    let edek = match decode_base64(ek) {
        Some(edek) => edek,
        None => {
            return Err(DecryptError::EdekBase64);
        },
    };
    let (iv, ciphertext) = split_edek(&edek)?;
    let opened = gcm_decrypt(kek, iv, ciphertext);
    accept_dek(opened)
}

/// How many chunks a payload has.
pub fn chunk_count(len: usize) -> (n: usize)
    ensures
        n == chunk_total(len as int),
{
    let full = len / CHUNK_UNIT;
    if len == 0 || len % CHUNK_UNIT != 0 {
        full + 1
    } else {
        full
    }
}

/// Splits the `i`th chunk of a payload into its nonce and its ciphertext.
pub fn split_chunk<'a>(combined: &'a [u8], i: usize) -> (r: Result<
    (&'a [u8], &'a [u8]),
    DecryptError,
>)
    requires
        i < chunk_total(combined@.len() as int),
    ensures
        ({
            let rest = combined@.skip(i * CHUNK_UNIT);
            let n = first_chunk(rest);
            match r {
                Ok((iv, ciphertext)) => n >= CHUNK_OVERHEAD && iv@ == rest.take(12) && ciphertext@
                    == rest.subrange(12, n),
                Err(e) => n < CHUNK_OVERHEAD && e == DecryptError::ChunkIncomplete,
            }
        }),
{
    let len = combined.len();
    let offset = i * CHUNK_UNIT;
    let left = len - offset;
    let size = if left < CHUNK_UNIT {
        left
    } else {
        CHUNK_UNIT
    };
    if size < IV_SIZE + TAG_SIZE {
        return Err(DecryptError::ChunkIncomplete);
    }
    let iv = slice_subrange(combined, offset, offset + IV_SIZE);
    let ciphertext = slice_subrange(combined, offset + IV_SIZE, offset + size);
    assert(iv@ =~= combined@.skip(offset as int).take(12));
    assert(ciphertext@ =~= combined@.skip(offset as int).subrange(12, size as int));
    Ok((iv, ciphertext))
}

/// Appends the plaintext of a chunk that was opened.
pub fn append_chunk(plain: &mut Vec<u8>, opened: Option<Vec<u8>>) -> (r: Result<(), DecryptError>)
    ensures
        match bytes_view(opened) {
            Some(chunk) => r is Ok && final(plain)@ == old(plain)@ + chunk,
            None => r == Err::<(), DecryptError>(DecryptError::ChunkAuthentication)
                && final(plain)@ == old(plain)@,
        },
{
    match opened {
        Some(mut chunk) => {
            plain.append(&mut chunk);
            Ok(())
        },
        None => Err(DecryptError::ChunkAuthentication),
    }
}

/// Decrypts the chunks of a payload. A plaintext is shorter than its payload by the overhead of
/// each chunk.
pub fn decrypt_chunks(dek: &[u8; 32], combined: &[u8]) -> (r: Result<Vec<u8>, DecryptError>)
    ensures
        outcome_view(r) == payload_plaintext(dek@, combined@),
        r matches Ok(plain) ==> plain@.len() == combined@.len() - CHUNK_OVERHEAD * chunk_total(
            combined@.len() as int,
        ),
{
    if combined.len() < IV_SIZE + TAG_SIZE {
        return Err(DecryptError::PayloadTooShort);
    }
    let len = combined.len();
    let count = chunk_count(len);
    let mut plain: Vec<u8> = Vec::with_capacity(len.saturating_sub(count * CHUNK_OVERHEAD));
    let mut i: usize = 0;
    assert(combined@.skip(0) =~= combined@);
    assert(seq![] + chunks_plaintext(dek@, combined@)->Ok_0 =~= chunks_plaintext(dek@, combined@)->Ok_0);
    while i < count
        invariant
            i <= count,
            len == combined@.len(),
            len >= CHUNK_OVERHEAD,
            count == chunk_total(len as int),
            i < count ==> i * CHUNK_UNIT < len,
            i == count ==> plain@.len() == len - CHUNK_OVERHEAD * count,
            i < count ==> plain@.len() == i * CHUNK_SIZE,
            ({
                let rest = combined@.skip(if i < count { i * CHUNK_UNIT } else { len as int });
                chunks_plaintext(dek@, combined@) == match chunks_plaintext(dek@, rest) {
                    Ok(tail) => Ok(plain@ + tail),
                    Err(e) => Err(e),
                }
            }),
        decreases count - i,
    {
        let (iv, ciphertext) = split_chunk(combined, i)?;
        let ghost before = plain@;
        append_chunk(&mut plain, gcm_decrypt(dek, iv, ciphertext))?;
        proof {
            let offset = i * CHUNK_UNIT;
            let rest = combined@.skip(offset);
            let size = first_chunk(rest);
            let chunk = aes256_gcm_open(dek@, iv@, ciphertext@)->0;
            let next = rest.skip(size);
            assert(next =~= combined@.skip(offset + size));
            assert(i + 1 < count ==> offset + size == (i + 1) * CHUNK_UNIT);
            assert(i + 1 == count ==> offset + size == len);
            if let Ok(tail) = chunks_plaintext(dek@, next) {
                assert(before + (chunk + tail) =~= plain@ + tail);
            }
        }
        i += 1;
    }
    assert(combined@.skip(len as int) =~= seq![]);
    assert(plain@ + seq![] =~= plain@);
    Ok(plain)
}

/// Decrypts a version 2 container. Data keys are cached by their wrapped form.
pub fn decrypt_v2(raw_data: &[u8], kek: &[u8; 32], cache: &mut KeyCache) -> (r: Result<
    Vec<u8>,
    DecryptError,
>)
    requires
        raw_data@.len() >= HEADER_SIZE,
    ensures
        outcome_view(r) == v2_plaintext(raw_data@, kek@, old(cache)@),
        final(cache)@ == v2_cache(raw_data@, kek@, old(cache)@),
        r matches Ok(data) ==> v2_length(raw_data@, data@.len()),
{
    let end = match find_extension_end(raw_data) {
        Some(end) => end,
        None => {
            return Err(DecryptError::NoExtensionEnd);
        },
    };
    proof {
        let i = choose|i: int| ends_extension(raw_data@, i);
        assert(ends_extension(raw_data@, end as int));
        assert(i == end);
    }
    let ext = match utf8_text(slice_subrange(raw_data, HEADER_SIZE, end)) {
        Some(ext) => ext,
        None => {
            return Err(DecryptError::ExtensionNotUtf8);
        },
    };
    let params = parse_decryption_params(ext);
    let payload = slice_subrange(raw_data, end + 1, raw_data.len());
    let decoded: Option<Vec<u8>> = if is_binary(params.bf) {
        None
    } else {
        match utf8_text(payload) {
            Some(text) => Some(decode_payload_text(text)?),
            None => {
                return Err(DecryptError::PayloadNotUtf8);
            },
        }
    };
    let combined: &[u8] = match &decoded {
        Some(bytes) => bytes.as_slice(),
        None => payload,
    };
    let ek: &str = match &params.ek {
        Some(ek) => ek.as_str(),
        None => {
            return Err(DecryptError::MissingEdek);
        },
    };
    let dek = match cache.get(ek.as_bytes()) {
        Some(dek) => dek,
        None => {
            let dek = unwrap_dek(kek, ek)?;
            cache.insert(ek.as_bytes(), dek);
            dek
        },
    };
    let data = decrypt_chunks(&dek, combined)?;
    let flag: u8 = match params.cp {
        Some(cp) => cp,
        None => 0,
    };
    decompress(flag, data)
}

/// Whether a payload is stored as raw bytes.
fn is_binary(bf: Option<u8>) -> (r: bool)
    ensures
        r == (bf == Some(1u8)),
{
    match bf {
        Some(format) => format == 1,
        None => false,
    }
}

} // verus!
