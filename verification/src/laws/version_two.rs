//! What version 2 containers decrypt to.
use crate::encoding::{base64_text, payload_bytes};
use crate::error::DecryptError;
use crate::laws::fields::law_payload_bytes;
use crate::laws::keys::{law_decompressed, law_malformed_edek_refused, law_unwrapped_dek};
use crate::laws::law_chunk_run;
use crate::params::params_of;
use crate::primitives::{aes256_gcm_open, zlib_inflate};
use crate::text::trimmed;
use crate::v2::{
    chunk_total, chunks_plaintext, ends_extension, first_chunk, payload_plaintext, v2_cache,
    v2_parts, v2_plaintext, v2_regions, V2View,
};
use vstd::prelude::*;
use vstd::utf8::{
    decode_utf8, encode_utf8, encode_utf8_decode_utf8, encode_utf8_valid_utf8, valid_utf8,
};

verus! {

/// Seven bytes of header, an extension region, a colon and a payload.
pub open spec fn assembled(head: Seq<u8>, ext: Seq<u8>, payload: Seq<u8>) -> Seq<u8> {
    head + ext + seq![58u8] + payload
}

/// The extension region ends at the first colon behind the header, if that stands among the first
/// 2048 bytes.
pub proof fn law_regions_read_back(head: Seq<u8>, ext: Seq<u8>, payload: Seq<u8>)
    requires
        head.len() == 7,
        !ext.contains(58),
        7 + ext.len() < 2048,
    ensures
        forall|i: int|
            #[trigger] ends_extension(assembled(head, ext, payload), i) <==> i == 7 + ext.len(),
        v2_regions(assembled(head, ext, payload)) == Ok::<(Seq<u8>, Seq<u8>), DecryptError>(
            (ext, payload),
        ),
{
    let raw = assembled(head, ext, payload);
    assert forall|j: int| 7 <= j < 7 + ext.len() implies raw[j] != 58 by {
        assert(raw[j] == ext[j - 7]);
        assert(ext.contains(ext[j - 7]));
    }
    let end = 7 + ext.len() as int;
    assert(raw[end] == 58);
    assert(ends_extension(raw, end));
    let i = choose|i: int| ends_extension(raw, i);
    assert(i == end);
    assert(raw.subrange(7, i) =~= ext);
    assert(raw.skip(i + 1) =~= payload);
}

/// Contents without a colon in that place are refused, and the cache stays as it is.
pub proof fn law_v2_no_extension_end_refused(
    raw: Seq<u8>,
    kek: Seq<u8>,
    cache: Map<Seq<u8>, Seq<u8>>,
)
    requires
        forall|j: int| 7 <= j < raw.len() && j < 2048 ==> raw[j] != 58,
    ensures
        forall|i: int| !#[trigger] ends_extension(raw, i),
        v2_plaintext(raw, kek, cache) == Err::<Seq<u8>, DecryptError>(DecryptError::NoExtensionEnd),
        v2_cache(raw, kek, cache) == cache,
{
}

/// An extension region that is not UTF-8 is refused, and the cache stays as it is.
pub proof fn law_v2_extension_not_utf8_refused(
    head: Seq<u8>,
    ext: Seq<u8>,
    payload: Seq<u8>,
    kek: Seq<u8>,
    cache: Map<Seq<u8>, Seq<u8>>,
)
    requires
        head.len() == 7,
        !ext.contains(58),
        7 + ext.len() < 2048,
        !valid_utf8(ext),
    ensures
        v2_plaintext(assembled(head, ext, payload), kek, cache) == Err::<Seq<u8>, DecryptError>(
            DecryptError::ExtensionNotUtf8,
        ),
        v2_cache(assembled(head, ext, payload), kek, cache) == cache,
{
    law_regions_read_back(head, ext, payload);
}

/// `raw` is a version 2 container with the extension region `ext` and the payload `payload`.
pub open spec fn v2_container(raw: Seq<u8>, ext: Seq<char>, payload: Seq<u8>) -> bool {
    &&& raw.len() >= 7
    &&& raw == assembled(raw.take(7), encode_utf8(ext), payload)
    &&& !encode_utf8(ext).contains(58)
    &&& 7 + encode_utf8(ext).len() < 2048
}

/// `payload` holds `chunks`: as they are with the format 1, otherwise as base64 text that may have
/// white space around it.
pub open spec fn carries(payload: Seq<u8>, bf: Option<u8>, chunks: Seq<u8>) -> bool {
    if bf == Some(1u8) {
        payload == chunks
    } else {
        valid_utf8(payload) && trimmed(decode_utf8(payload)) == base64_text(chunks)
    }
}

/// The parts of a container.
proof fn lemma_parts(raw: Seq<u8>, ext: Seq<char>, payload: Seq<u8>, chunks: Seq<u8>)
    requires
        v2_container(raw, ext, payload),
        carries(payload, params_of(ext).bf, chunks),
    ensures
        params_of(ext).ek is None ==> v2_parts(raw) == Err::<V2View, DecryptError>(
            DecryptError::MissingEdek,
        ),
        params_of(ext).ek matches Some(ek) ==> v2_parts(raw) == Ok::<V2View, DecryptError>(
            V2View {
                ek,
                compression_flag: if params_of(ext).cp is Some {
                    params_of(ext).cp->0
                } else {
                    0
                },
                chunks,
            },
        ),
{
    law_regions_read_back(raw.take(7), encode_utf8(ext), payload);
    encode_utf8_valid_utf8(ext);
    encode_utf8_decode_utf8(ext);
    if params_of(ext).bf != Some(1u8) {
        law_payload_bytes(decode_utf8(payload), chunks);
    }
}

/// With the format other than 1, a payload that is not UTF-8 or no base64 text once trimmed is
/// refused, and the cache stays as it is.
pub proof fn law_v2_bad_payload_refused(
    raw: Seq<u8>,
    ext: Seq<char>,
    payload: Seq<u8>,
    kek: Seq<u8>,
    cache: Map<Seq<u8>, Seq<u8>>,
)
    requires
        v2_container(raw, ext, payload),
        params_of(ext).bf != Some(1u8),
    ensures
        !valid_utf8(payload) ==> v2_plaintext(raw, kek, cache) == Err::<Seq<u8>, DecryptError>(
            DecryptError::PayloadNotUtf8,
        ) && v2_cache(raw, kek, cache) == cache,
        valid_utf8(payload) && (forall|v: Seq<u8>|
            trimmed(decode_utf8(payload)) != #[trigger] base64_text(v)) ==> v2_plaintext(
            raw,
            kek,
            cache,
        ) == Err::<Seq<u8>, DecryptError>(DecryptError::PayloadBase64) && v2_cache(raw, kek, cache)
            == cache,
{
    law_regions_read_back(raw.take(7), encode_utf8(ext), payload);
    encode_utf8_valid_utf8(ext);
    encode_utf8_decode_utf8(ext);
    if let Ok(v) = payload_bytes(decode_utf8(payload)) {
        law_payload_bytes(decode_utf8(payload), v);
    } else {
        law_payload_bytes(decode_utf8(payload), seq![]);
    }
}

/// A container without a wrapped data key is refused, and the cache stays as it is.
pub proof fn law_v2_missing_key_refused(
    raw: Seq<u8>,
    ext: Seq<char>,
    payload: Seq<u8>,
    chunks: Seq<u8>,
    kek: Seq<u8>,
    cache: Map<Seq<u8>, Seq<u8>>,
)
    requires
        v2_container(raw, ext, payload),
        carries(payload, params_of(ext).bf, chunks),
        params_of(ext).ek is None,
    ensures
        v2_plaintext(raw, kek, cache) == Err::<Seq<u8>, DecryptError>(DecryptError::MissingEdek),
        v2_cache(raw, kek, cache) == cache,
{
    lemma_parts(raw, ext, payload, chunks);
}

/// A container whose data key is not cached and does not unwrap is refused, whatever else it
/// holds, and the cache stays as it is.
pub proof fn law_v2_bad_key_refused(
    raw: Seq<u8>,
    ext: Seq<char>,
    payload: Seq<u8>,
    chunks: Seq<u8>,
    edek: Seq<u8>,
    kek: Seq<u8>,
    cache: Map<Seq<u8>, Seq<u8>>,
)
    requires
        v2_container(raw, ext, payload),
        carries(payload, params_of(ext).bf, chunks),
        params_of(ext).ek is Some,
        !cache.dom().contains(encode_utf8(params_of(ext).ek->0)),
    ensures
        (forall|v: Seq<u8>| params_of(ext).ek->0 != #[trigger] base64_text(v)) ==> v2_plaintext(
            raw,
            kek,
            cache,
        ) == Err::<Seq<u8>, DecryptError>(DecryptError::EdekBase64) && v2_cache(raw, kek, cache)
            == cache,
        params_of(ext).ek->0 == base64_text(edek) && edek.len() < 28 ==> v2_plaintext(
            raw,
            kek,
            cache,
        ) == Err::<Seq<u8>, DecryptError>(DecryptError::EdekTooShort) && v2_cache(raw, kek, cache)
            == cache,
        params_of(ext).ek->0 == base64_text(edek) && edek.len() >= 28 && aes256_gcm_open(
            kek,
            edek.take(12),
            edek.skip(12),
        ) is None ==> v2_plaintext(raw, kek, cache) == Err::<Seq<u8>, DecryptError>(
            DecryptError::EdekAuthentication,
        ) && v2_cache(raw, kek, cache) == cache,
        params_of(ext).ek->0 == base64_text(edek) && edek.len() >= 28 && (aes256_gcm_open(
            kek,
            edek.take(12),
            edek.skip(12),
        ) matches Some(dek) && dek.len() != 32) ==> v2_plaintext(raw, kek, cache) == Err::<
            Seq<u8>,
            DecryptError,
        >(DecryptError::DekLength) && v2_cache(raw, kek, cache) == cache,
{
    lemma_parts(raw, ext, payload, chunks);
    law_malformed_edek_refused(kek, params_of(ext).ek->0);
    if edek.len() >= 28 {
        law_unwrapped_dek(kek, edek.take(12), edek.skip(12));
        assert(edek.take(12) + edek.skip(12) =~= edek);
    }
}

/// `dek` is the data key for `ek`: the cached one, or else what the wrapped key opens to.
pub open spec fn is_data_key(
    dek: Seq<u8>,
    ek: Seq<char>,
    iv: Seq<u8>,
    ciphertext: Seq<u8>,
    kek: Seq<u8>,
    cache: Map<Seq<u8>, Seq<u8>>,
) -> bool {
    if cache.dom().contains(encode_utf8(ek)) {
        dek == cache[encode_utf8(ek)]
    } else {
        &&& ek == base64_text(iv + ciphertext)
        &&& iv.len() == 12
        &&& ciphertext.len() >= 16
        &&& aes256_gcm_open(kek, iv, ciphertext) == Some(dek)
        &&& dek.len() == 32
    }
}

/// With the data key `dek`, a version 2 container gives just what its chunks decrypt to under that
/// key, inflated where `cp` is 1. Where they do not decrypt, or do not inflate, the container is
/// refused. The data key is in the cache afterwards, and nothing else is changed there.
pub proof fn law_v2_outcome(
    raw: Seq<u8>,
    ext: Seq<char>,
    payload: Seq<u8>,
    chunks: Seq<u8>,
    iv: Seq<u8>,
    ciphertext: Seq<u8>,
    dek: Seq<u8>,
    kek: Seq<u8>,
    cache: Map<Seq<u8>, Seq<u8>>,
)
    requires
        v2_container(raw, ext, payload),
        carries(payload, params_of(ext).bf, chunks),
        params_of(ext).ek is Some,
        is_data_key(dek, params_of(ext).ek->0, iv, ciphertext, kek, cache),
    ensures
        match payload_plaintext(dek, chunks) {
            Ok(data) => if params_of(ext).cp == Some(1u8) {
                match zlib_inflate(data) {
                    Some(plain) => v2_plaintext(raw, kek, cache) == Ok::<Seq<u8>, DecryptError>(
                        plain,
                    ),
                    None => v2_plaintext(raw, kek, cache) == Err::<Seq<u8>, DecryptError>(
                        DecryptError::Inflate,
                    ),
                }
            } else {
                v2_plaintext(raw, kek, cache) == Ok::<Seq<u8>, DecryptError>(data)
            },
            Err(e) => v2_plaintext(raw, kek, cache) == Err::<Seq<u8>, DecryptError>(e),
        },
        v2_cache(raw, kek, cache) == cache.insert(encode_utf8(params_of(ext).ek->0), dek),
{
    lemma_parts(raw, ext, payload, chunks);
    let ek = params_of(ext).ek->0;
    if cache.dom().contains(encode_utf8(ek)) {
        assert(cache.insert(encode_utf8(ek), dek) =~= cache);
    } else {
        law_unwrapped_dek(kek, iv, ciphertext);
    }
    let flag = v2_parts(raw)->Ok_0.compression_flag;
    law_decompressed(flag, payload_plaintext(dek, chunks)->Ok_0);
}

/// Fewer than 28 bytes hold no chunk.
pub proof fn law_short_payload_refused(dek: Seq<u8>, data: Seq<u8>)
    requires
        data.len() < 28,
    ensures
        payload_plaintext(dek, data) == Err::<Seq<u8>, DecryptError>(DecryptError::PayloadTooShort),
{
}

/// A payload of chunks that each open, all but the last of them full, gives their plaintexts in
/// order and nothing else.
pub proof fn law_payload_of_chunks(dek: Seq<u8>, records: Seq<Seq<u8>>, plains: Seq<Seq<u8>>)
    requires
        records.len() > 0,
        records.len() == plains.len(),
        forall|i: int|
            0 <= i < records.len() ==> 28 <= (#[trigger] records[i]).len() <= 4194332,
        forall|i: int| 0 <= i < records.len() - 1 ==> (#[trigger] records[i]).len() == 4194332,
        forall|i: int|
            0 <= i < records.len() ==> aes256_gcm_open(
                dek,
                (#[trigger] records[i]).take(12),
                records[i].skip(12),
            ) == Some(plains[i]),
    ensures
        payload_plaintext(dek, records.flatten()) == Ok::<Seq<u8>, DecryptError>(plains.flatten()),
{
    law_chunk_run(dek, records, plains);
    assert(records.flatten() == records[0] + records.drop_first().flatten());
}

/// Behind full chunks that each open, a chunk that is too short or does not open decides: the
/// payload is refused for it.
pub proof fn law_first_bad_chunk_decides(
    dek: Seq<u8>,
    records: Seq<Seq<u8>>,
    plains: Seq<Seq<u8>>,
    rest: Seq<u8>,
)
    requires
        records.len() == plains.len(),
        forall|i: int| 0 <= i < records.len() ==> (#[trigger] records[i]).len() == 4194332,
        forall|i: int|
            0 <= i < records.len() ==> aes256_gcm_open(
                dek,
                (#[trigger] records[i]).take(12),
                records[i].skip(12),
            ) == Some(plains[i]),
        rest.len() > 0,
    ensures
        records.len() > 0 && rest.len() < 28 ==> payload_plaintext(dek, records.flatten() + rest)
            == Err::<Seq<u8>, DecryptError>(DecryptError::ChunkIncomplete),
        28 <= rest.len() <= 4194332 && aes256_gcm_open(dek, rest.take(12), rest.skip(12)) is None
            ==> payload_plaintext(dek, records.flatten() + rest) == Err::<Seq<u8>, DecryptError>(
            DecryptError::ChunkAuthentication,
        ),
        rest.len() > 4194332 && aes256_gcm_open(
            dek,
            rest.take(12),
            rest.subrange(12, 4194332),
        ) is None ==> payload_plaintext(dek, records.flatten() + rest) == Err::<
            Seq<u8>,
            DecryptError,
        >(DecryptError::ChunkAuthentication),
{
    lemma_run_then_rest(dek, records, plains, rest);
    if records.len() > 0 {
        assert(records.flatten() == records[0] + records.drop_first().flatten());
    } else {
        assert(records.flatten() =~= seq![]);
        assert(records.flatten() + rest =~= rest);
    }
    if rest.len() <= 4194332 {
        assert(rest.subrange(12, rest.len() as int) =~= rest.skip(12));
    }
}

/// Full chunks that each open leave the outcome to what follows them.
proof fn lemma_run_then_rest(
    dek: Seq<u8>,
    records: Seq<Seq<u8>>,
    plains: Seq<Seq<u8>>,
    rest: Seq<u8>,
)
    requires
        records.len() == plains.len(),
        forall|i: int| 0 <= i < records.len() ==> (#[trigger] records[i]).len() == 4194332,
        forall|i: int|
            0 <= i < records.len() ==> aes256_gcm_open(
                dek,
                (#[trigger] records[i]).take(12),
                records[i].skip(12),
            ) == Some(plains[i]),
    ensures
        chunks_plaintext(dek, rest) matches Err(e) ==> chunks_plaintext(
            dek,
            records.flatten() + rest,
        ) == Err::<Seq<u8>, DecryptError>(e),
    decreases records.len(),
{
    if records.len() == 0 {
        assert(records.flatten() =~= seq![]);
        assert(records.flatten() + rest =~= rest);
    } else {
        let later = records.drop_first();
        assert forall|i: int| 0 <= i < later.len() implies (#[trigger] later[i]).len()
            == 4194332 by {
            assert(later[i] == records[i + 1]);
        }
        assert forall|i: int| 0 <= i < later.len() implies aes256_gcm_open(
            dek,
            (#[trigger] later[i]).take(12),
            later[i].skip(12),
        ) == Some(plains.drop_first()[i]) by {
            assert(later[i] == records[i + 1]);
        }
        lemma_run_then_rest(dek, later, plains.drop_first(), rest);
        let data = records.flatten() + rest;
        assert(records.flatten() == records[0] + later.flatten());
        assert(data =~= records[0] + (later.flatten() + rest));
        assert(first_chunk(data) == 4194332);
        assert(data.take(12) =~= records[0].take(12));
        assert(data.subrange(12, 4194332) =~= records[0].skip(12));
        assert(data.skip(4194332) =~= later.flatten() + rest);
    }
}

/// The chunks of a payload are as few as can hold it, and at least one.
pub proof fn law_chunk_total(len: int)
    requires
        len >= 0,
    ensures
        chunk_total(len) >= 1,
        len <= chunk_total(len) * 4194332,
        len > 0 ==> (chunk_total(len) - 1) * 4194332 < len,
        chunk_total(0) == 1,
{
}

/// The first chunk is all of the data, unless that is longer than a full chunk.
pub proof fn law_first_chunk(data: Seq<u8>)
    ensures
        first_chunk(data) <= data.len(),
        first_chunk(data) <= 4194332,
        first_chunk(data) == data.len() || first_chunk(data) == 4194332,
{
}

} // verus!
