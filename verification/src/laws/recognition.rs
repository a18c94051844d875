//! How a container is recognised, and what is refused as a whole.
use crate::container::{deks_after, is_header, keys_after, lemma_headers, plaintext, v2_header};
use crate::error::DecryptError;
use crate::laws::keys::{law_password_key, law_v1_opened};
use crate::primitives::{aes256_gcm_open, argon2id_hash, zlib_inflate};
use crate::v1::{v1_cache, v1_packet, v1_plaintext, PacketView};
use crate::v2::{payload_plaintext, unwrapped_dek, v2_cache, v2_parts, v2_plaintext, V2View};
use vstd::prelude::*;
use vstd::utf8::encode_utf8;

verus! {

/// The bytes `ENC_V1:`.
pub open spec fn v1_magic() -> Seq<u8> {
    seq![69u8, 78, 67, 95, 86, 49, 58]
}

/// The bytes `ENC_V2:`.
pub open spec fn v2_magic() -> Seq<u8> {
    seq![69u8, 78, 67, 95, 86, 50, 58]
}

/// The scan takes the bytes `ENC_V1:` and `ENC_V2:` for a header, and no others.
pub proof fn law_headers(head: Seq<u8>)
    ensures
        is_header(head) <==> head == v1_magic() || head == v2_magic(),
{
    lemma_headers();
}

/// What starts with `ENC_V1:` is decrypted as version 1, what starts with `ENC_V2:` as version 2.
/// Each version leaves the other's keys alone.
pub proof fn law_version_by_header(
    rest: Seq<u8>,
    password: Seq<char>,
    kek: Seq<u8>,
    keys: Map<Seq<u8>, Seq<u8>>,
    deks: Map<Seq<u8>, Seq<u8>>,
)
    ensures
        plaintext(v1_magic() + rest, password, kek, keys, deks) == v1_plaintext(
            v1_magic() + rest,
            password,
            keys,
        ),
        keys_after(v1_magic() + rest, password, keys) == v1_cache(
            v1_magic() + rest,
            password,
            keys,
        ),
        deks_after(v1_magic() + rest, kek, deks) == deks,
        plaintext(v2_magic() + rest, password, kek, keys, deks) == v2_plaintext(
            v2_magic() + rest,
            kek,
            deks,
        ),
        keys_after(v2_magic() + rest, password, keys) == keys,
        deks_after(v2_magic() + rest, kek, deks) == v2_cache(v2_magic() + rest, kek, deks),
{
    lemma_headers();
    let a = v1_magic() + rest;
    let b = v2_magic() + rest;
    assert(a.subrange(0, 7) =~= v1_magic());
    assert(b.subrange(0, 7) =~= v2_magic());
    assert(a[5] == 49 && b[5] == 50);
    assert(!v2_header().is_prefix_of(a));
}

/// What starts with neither is refused, and no key is kept.
pub proof fn law_unknown_header_refused(
    raw: Seq<u8>,
    password: Seq<char>,
    kek: Seq<u8>,
    keys: Map<Seq<u8>, Seq<u8>>,
    deks: Map<Seq<u8>, Seq<u8>>,
)
    requires
        raw.len() < 7 || (raw.take(7) != v1_magic() && raw.take(7) != v2_magic()),
    ensures
        plaintext(raw, password, kek, keys, deks) == Err::<Seq<u8>, DecryptError>(
            DecryptError::UnknownHeader,
        ),
        keys_after(raw, password, keys) == keys,
        deks_after(raw, kek, deks) == deks,
{
    lemma_headers();
    if raw.len() >= 7 {
        assert(raw.take(7) =~= raw.subrange(0, 7));
    }
}

/// A version 1 container whose ciphertext does not open under its key is refused whatever its
/// compression flag is: nothing comes out of a wrong password or damaged data. One that opens gives
/// the whole of what was sealed.
pub proof fn law_v1_authenticated(
    raw: Seq<u8>,
    packet: PacketView,
    key: Seq<u8>,
    password: Seq<char>,
    kek: Seq<u8>,
    keys: Map<Seq<u8>, Seq<u8>>,
    deks: Map<Seq<u8>, Seq<u8>>,
)
    requires
        v1_magic().is_prefix_of(raw),
        v1_packet(raw) == Ok::<PacketView, DecryptError>(packet),
        keys.dom().contains(packet.salt) ==> key == keys[packet.salt],
        !keys.dom().contains(packet.salt) ==> encode_utf8(password).len() <= 0xffff_ffff && key
            == argon2id_hash(encode_utf8(password), packet.salt, 65536, 3, 4, 32),
    ensures
        aes256_gcm_open(key, packet.iv, packet.ciphertext) is None <==> plaintext(
            raw,
            password,
            kek,
            keys,
            deks,
        ) == Err::<Seq<u8>, DecryptError>(DecryptError::V1Authentication),
        plaintext(raw, password, kek, keys, deks) matches Ok(plain) ==> (aes256_gcm_open(
            key,
            packet.iv,
            packet.ciphertext,
        ) matches Some(data) && if packet.compression_flag == 1 {
            zlib_inflate(data) == Some(plain)
        } else {
            plain == data
        }),
{
    lemma_headers();
    assert(raw[5] == v1_magic()[5]);
    assert(!v2_header().is_prefix_of(raw));
    law_password_key(encode_utf8(password), packet.salt);
    let opened = aes256_gcm_open(key, packet.iv, packet.ciphertext);
    law_v1_opened(opened->0, packet.compression_flag);
}

/// A version 2 container whose payload does not decrypt under its data key is refused whatever its
/// compression flag is: nothing comes out of damaged chunks. One whose payload decrypts gives the
/// whole of what was sealed.
pub proof fn law_v2_authenticated(
    raw: Seq<u8>,
    parts: V2View,
    dek: Seq<u8>,
    password: Seq<char>,
    kek: Seq<u8>,
    keys: Map<Seq<u8>, Seq<u8>>,
    deks: Map<Seq<u8>, Seq<u8>>,
)
    requires
        v2_magic().is_prefix_of(raw),
        v2_parts(raw) == Ok::<V2View, DecryptError>(parts),
        deks.dom().contains(encode_utf8(parts.ek)) ==> dek == deks[encode_utf8(parts.ek)],
        !deks.dom().contains(encode_utf8(parts.ek)) ==> unwrapped_dek(kek, parts.ek) == Ok::<
            Seq<u8>,
            DecryptError,
        >(dek),
    ensures
        payload_plaintext(dek, parts.chunks) matches Err(e) ==> plaintext(
            raw,
            password,
            kek,
            keys,
            deks,
        ) == Err::<Seq<u8>, DecryptError>(e),
        plaintext(raw, password, kek, keys, deks) matches Ok(plain) ==> (payload_plaintext(
            dek,
            parts.chunks,
        ) matches Ok(data) && if parts.compression_flag == 1 {
            zlib_inflate(data) == Some(plain)
        } else {
            plain == data
        }),
{
    lemma_headers();
}

} // verus!
