//! What version 1 containers decrypt to.
use crate::encoding::{base64_text, payload_bytes};
use crate::error::DecryptError;
use crate::laws::fields::{law_payload_bytes, law_third_segment};
use crate::laws::keys::{law_password_key, law_v1_opened};
use crate::primitives::{aes256_gcm_open, argon2id_hash, zlib_inflate};
use crate::text::trimmed;
use crate::v1::{packet_of, third_segment, v1_cache, v1_packet, v1_plaintext, PacketView, V1Packet};
use vstd::prelude::*;
use vstd::utf8::{encode_utf8, encode_utf8_decode_utf8, encode_utf8_valid_utf8, valid_utf8};

verus! {

/// `content` is two segments, then `payload` as the third, and then either nothing or a colon and
/// `more`.
pub open spec fn segmented(
    content: Seq<char>,
    a: Seq<char>,
    b: Seq<char>,
    payload: Seq<char>,
    more: Seq<char>,
) -> bool {
    &&& !a.contains(':')
    &&& !b.contains(':')
    &&& !payload.contains(':')
    &&& (content == a + seq![':'] + (b + seq![':'] + payload) || content == a + seq![':'] + (b
        + seq![':'] + (payload + seq![':'] + more)))
}

/// `content` has at least three segments, and the third is `payload`.
pub open spec fn has_payload(content: Seq<char>, payload: Seq<char>) -> bool {
    exists|a: Seq<char>, b: Seq<char>, more: Seq<char>| segmented(content, a, b, payload, more)
}

/// The payload is the third segment.
proof fn lemma_has_payload(content: Seq<char>, payload: Seq<char>)
    requires
        has_payload(content, payload),
    ensures
        third_segment(content) == Ok::<Seq<char>, DecryptError>(payload),
{
    let (a, b, more) = choose|a: Seq<char>, b: Seq<char>, more: Seq<char>|
        segmented(content, a, b, payload, more);
    law_third_segment(a, b, payload, more);
}

/// A `V1Packet` stands for its parts.
pub proof fn law_packet_view(packet: V1Packet)
    ensures
        packet@.salt == packet.salt@,
        packet@.iv == packet.iv@,
        packet@.compression_flag == packet.compression_flag,
        packet@.ciphertext == packet.ciphertext@,
{
}

/// A packet is read back part by part; fewer than 29 bytes are no packet.
pub proof fn law_packet_read_back(packet: PacketView, bytes: Seq<u8>)
    requires
        packet.salt.len() == 16,
        packet.iv.len() == 12,
    ensures
        packet_of(packet.salt + packet.iv + seq![packet.compression_flag] + packet.ciphertext)
            == Ok::<PacketView, DecryptError>(packet),
        bytes.len() < 29 ==> packet_of(bytes) == Err::<PacketView, DecryptError>(
            DecryptError::V1TooShort,
        ),
{
    let combined = packet.salt + packet.iv + seq![packet.compression_flag] + packet.ciphertext;
    assert(combined.subrange(0, 16) =~= packet.salt);
    assert(combined.subrange(16, 28) =~= packet.iv);
    assert(combined.skip(29) =~= packet.ciphertext);
    assert(combined[28] == packet.compression_flag);
}

/// A version 1 container carries the packet whose base64 text its third segment is, once trimmed.
proof fn lemma_packet(content: Seq<char>, payload: Seq<char>, packet: PacketView)
    requires
        has_payload(content, payload),
        packet.salt.len() == 16,
        packet.iv.len() == 12,
        trimmed(payload) == base64_text(
            packet.salt + packet.iv + seq![packet.compression_flag] + packet.ciphertext,
        ),
    ensures
        v1_packet(encode_utf8(content)) == Ok::<PacketView, DecryptError>(packet),
{
    let combined = packet.salt + packet.iv + seq![packet.compression_flag] + packet.ciphertext;
    lemma_has_payload(content, payload);
    encode_utf8_valid_utf8(content);
    encode_utf8_decode_utf8(content);
    law_payload_bytes(payload, combined);
    law_packet_read_back(packet, seq![]);
}

/// With the key `key`, cached under the salt or else the Argon2id hash of password and salt, a
/// version 1 container gives just what its ciphertext opens to under that key, inflated where the
/// flag is 1. Where the ciphertext does not open, or does not inflate, the container is refused.
/// The key is in the cache afterwards, and nothing else is changed there.
pub proof fn law_v1_outcome(
    content: Seq<char>,
    payload: Seq<char>,
    packet: PacketView,
    password: Seq<char>,
    cache: Map<Seq<u8>, Seq<u8>>,
    key: Seq<u8>,
)
    requires
        has_payload(content, payload),
        packet.salt.len() == 16,
        packet.iv.len() == 12,
        trimmed(payload) == base64_text(
            packet.salt + packet.iv + seq![packet.compression_flag] + packet.ciphertext,
        ),
        cache.dom().contains(packet.salt) ==> key == cache[packet.salt],
        !cache.dom().contains(packet.salt) ==> encode_utf8(password).len() <= 0xffff_ffff && key
            == argon2id_hash(encode_utf8(password), packet.salt, 65536, 3, 4, 32),
    ensures
        match aes256_gcm_open(key, packet.iv, packet.ciphertext) {
            Some(data) => if packet.compression_flag == 1 {
                match zlib_inflate(data) {
                    Some(plain) => v1_plaintext(encode_utf8(content), password, cache) == Ok::<
                        Seq<u8>,
                        DecryptError,
                    >(plain),
                    None => v1_plaintext(encode_utf8(content), password, cache) == Err::<
                        Seq<u8>,
                        DecryptError,
                    >(DecryptError::Inflate),
                }
            } else {
                v1_plaintext(encode_utf8(content), password, cache) == Ok::<Seq<u8>, DecryptError>(
                    data,
                )
            },
            None => v1_plaintext(encode_utf8(content), password, cache) == Err::<
                Seq<u8>,
                DecryptError,
            >(DecryptError::V1Authentication),
        },
        v1_cache(encode_utf8(content), password, cache) == cache.insert(packet.salt, key),
{
    lemma_packet(content, payload, packet);
    law_password_key(encode_utf8(password), packet.salt);
    let opened = aes256_gcm_open(key, packet.iv, packet.ciphertext);
    law_v1_opened(opened->0, packet.compression_flag);
    if cache.dom().contains(packet.salt) {
        assert(cache.insert(packet.salt, key) =~= cache);
    }
}

/// A password that is longer than Argon2 takes is refused where no key is cached for the salt.
pub proof fn law_v1_password_too_long(
    content: Seq<char>,
    payload: Seq<char>,
    packet: PacketView,
    password: Seq<char>,
    cache: Map<Seq<u8>, Seq<u8>>,
)
    requires
        has_payload(content, payload),
        packet.salt.len() == 16,
        packet.iv.len() == 12,
        trimmed(payload) == base64_text(
            packet.salt + packet.iv + seq![packet.compression_flag] + packet.ciphertext,
        ),
        !cache.dom().contains(packet.salt),
        encode_utf8(password).len() > 0xffff_ffff,
    ensures
        v1_plaintext(encode_utf8(content), password, cache) == Err::<Seq<u8>, DecryptError>(
            DecryptError::KeyDerivation,
        ),
        v1_cache(encode_utf8(content), password, cache) == cache,
{
    lemma_packet(content, payload, packet);
    law_password_key(encode_utf8(password), packet.salt);
}

/// A container whose payload is no base64 text once trimmed, or that of fewer than 29 bytes, is
/// refused, and the cache stays as it is.
pub proof fn law_v1_bad_payload_refused(
    content: Seq<char>,
    payload: Seq<char>,
    password: Seq<char>,
    cache: Map<Seq<u8>, Seq<u8>>,
)
    requires
        has_payload(content, payload),
    ensures
        (forall|v: Seq<u8>| trimmed(payload) != #[trigger] base64_text(v)) ==> v1_plaintext(
            encode_utf8(content),
            password,
            cache,
        ) == Err::<Seq<u8>, DecryptError>(DecryptError::PayloadBase64) && v1_cache(
            encode_utf8(content),
            password,
            cache,
        ) == cache,
        forall|v: Seq<u8>| #[trigger]
            base64_text(v) == trimmed(payload) && v.len() < 29 ==> v1_plaintext(
                encode_utf8(content),
                password,
                cache,
            ) == Err::<Seq<u8>, DecryptError>(DecryptError::V1TooShort) && v1_cache(
                encode_utf8(content),
                password,
                cache,
            ) == cache,
{
    lemma_has_payload(content, payload);
    encode_utf8_valid_utf8(content);
    encode_utf8_decode_utf8(content);
    if let Ok(v) = payload_bytes(payload) {
        law_payload_bytes(payload, v);
    } else {
        law_payload_bytes(payload, seq![]);
    }
    assert forall|v: Seq<u8>| #[trigger] base64_text(v) == trimmed(payload) && v.len()
        < 29 implies payload_bytes(payload) == Ok::<Seq<u8>, DecryptError>(v) by {
        law_payload_bytes(payload, v);
    }
}

/// Contents that are not UTF-8 are refused, and the cache stays as it is.
pub proof fn law_v1_not_utf8_refused(
    raw: Seq<u8>,
    password: Seq<char>,
    cache: Map<Seq<u8>, Seq<u8>>,
)
    requires
        !valid_utf8(raw),
    ensures
        v1_plaintext(raw, password, cache) == Err::<Seq<u8>, DecryptError>(DecryptError::V1NotUtf8),
        v1_cache(raw, password, cache) == cache,
{
}

/// Contents with fewer than two colons are refused, and the cache stays as it is.
pub proof fn law_v1_missing_segments_refused(
    a: Seq<char>,
    b: Seq<char>,
    password: Seq<char>,
    cache: Map<Seq<u8>, Seq<u8>>,
)
    requires
        !a.contains(':'),
        !b.contains(':'),
    ensures
        v1_plaintext(encode_utf8(a), password, cache) == Err::<Seq<u8>, DecryptError>(
            DecryptError::V1MissingSegments,
        ),
        v1_cache(encode_utf8(a), password, cache) == cache,
        v1_plaintext(encode_utf8(a + seq![':'] + b), password, cache) == Err::<
            Seq<u8>,
            DecryptError,
        >(DecryptError::V1MissingSegments),
        v1_cache(encode_utf8(a + seq![':'] + b), password, cache) == cache,
{
    law_third_segment(a, b, seq![], seq![]);
    encode_utf8_valid_utf8(a);
    encode_utf8_decode_utf8(a);
    encode_utf8_valid_utf8(a + seq![':'] + b);
    encode_utf8_decode_utf8(a + seq![':'] + b);
}

} // verus!
