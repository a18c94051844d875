//! What holds of the container formats as a whole.
use crate::cache::no_keys;
use crate::container::{
    deks_after, deks_agree, is_header, keys_after, keys_agree, law_caches_agree,
    law_caches_invisible, lemma_headers, plaintext, v1_header, v2_header, MAGIC_HEADER_V1,
};
use crate::encoding::{
    base64_digit, base64_quad, base64_text, law_base64_round_trip, payload_bytes,
};
use crate::error::DecryptError;
use crate::laws::keys::{law_decompressed, law_password_key, law_unwrapped_dek};
use crate::params::{
    field_number, field_value, last_number, last_value, params_of, params_of_fields, ParamsView,
};
use crate::primitives::{aes256_gcm_open, argon2id_hash, decompressed, zlib_inflate};
use crate::text::{
    cut_at, first_at, is_white_space, lemma_ascii_byte_occurs, lemma_cut_at, lemma_encode_concat,
    lemma_encode_injective, lemma_first_at, pieces, trimmed, trimmed_end, trimmed_start,
};
use crate::v1::{packet_of, third_segment, v1_cache, v1_packet, v1_plaintext, PacketView};
use crate::v2::{
    chunks_plaintext, ends_extension, first_chunk, payload_plaintext, v2_dek, v2_parts,
    v2_regions, CHUNK_OVERHEAD, CHUNK_UNIT, HEADER_SIZE, SCAN_LIMIT,
};
use vstd::prelude::*;
use vstd::utf8::{
    decode_utf8, encode_utf8, encode_utf8_decode_utf8, encode_utf8_valid_utf8, valid_utf8,
};

pub mod fields;
pub mod keys;
pub mod recognition;
pub mod version_one;
pub mod version_two;

verus! {

/// Two containers decrypt alike in either order, and leave the same caches behind.
pub proof fn law_order_does_not_matter(
    first: Seq<u8>,
    second: Seq<u8>,
    password: Seq<char>,
    kek: Seq<u8>,
    keys: Map<Seq<u8>, Seq<u8>>,
    deks: Map<Seq<u8>, Seq<u8>>,
)
    requires
        keys_agree(keys, password),
        deks_agree(deks, kek),
    ensures
        plaintext(
            second,
            password,
            kek,
            keys_after(first, password, keys),
            deks_after(first, kek, deks),
        ) == plaintext(second, password, kek, keys, deks),
        keys_after(second, password, keys_after(first, password, keys)) == keys_after(
            first,
            password,
            keys_after(second, password, keys),
        ),
        deks_after(second, kek, deks_after(first, kek, deks)) == deks_after(
            first,
            kek,
            deks_after(second, kek, deks),
        ),
{
    law_caches_agree(first, password, kek, keys, deks);
    law_caches_invisible(second, password, kek, keys, deks);
    law_caches_invisible(
        second,
        password,
        kek,
        keys_after(first, password, keys),
        deks_after(first, kek, deks),
    );
    assert(keys_after(second, password, keys_after(first, password, keys)) =~= keys_after(
        first,
        password,
        keys_after(second, password, keys),
    ));
    if let (Ok(a), Ok(b)) = (v2_parts(first), v2_parts(second)) {
        if encode_utf8(a.ek) == encode_utf8(b.ek) {
            lemma_encode_injective(a.ek, b.ek);
        }
    }
    assert(deks_after(second, kek, deks_after(first, kek, deks)) =~= deks_after(
        first,
        kek,
        deks_after(second, kek, deks),
    ));
}

/// A cached key stays as it is.
pub proof fn law_caches_grow(
    raw: Seq<u8>,
    password: Seq<char>,
    kek: Seq<u8>,
    keys: Map<Seq<u8>, Seq<u8>>,
    deks: Map<Seq<u8>, Seq<u8>>,
)
    ensures
        keys.submap_of(keys_after(raw, password, keys)),
        deks.submap_of(deks_after(raw, kek, deks)),
{
}

/// A version 2 container needs the master key, but neither the password nor keys derived from it.
pub proof fn law_v2_needs_only_the_master_key(
    raw: Seq<u8>,
    password1: Seq<char>,
    password2: Seq<char>,
    kek: Seq<u8>,
    keys1: Map<Seq<u8>, Seq<u8>>,
    keys2: Map<Seq<u8>, Seq<u8>>,
    deks: Map<Seq<u8>, Seq<u8>>,
)
    requires
        v2_header().is_prefix_of(raw),
    ensures
        plaintext(raw, password1, kek, keys1, deks) == plaintext(
            raw,
            password2,
            kek,
            keys2,
            deks,
        ),
        keys_after(raw, password1, keys1) == keys1,
{
}

/// A version 1 container needs the password, but neither the master key nor data keys.
pub proof fn law_v1_needs_only_the_password(
    raw: Seq<u8>,
    password: Seq<char>,
    kek1: Seq<u8>,
    kek2: Seq<u8>,
    keys: Map<Seq<u8>, Seq<u8>>,
    deks1: Map<Seq<u8>, Seq<u8>>,
    deks2: Map<Seq<u8>, Seq<u8>>,
)
    requires
        v1_header().is_prefix_of(raw),
    ensures
        plaintext(raw, password, kek1, keys, deks1) == plaintext(
            raw,
            password,
            kek2,
            keys,
            deks2,
        ),
        deks_after(raw, kek1, deks1) == deks1,
{
    lemma_headers();
    assert(raw[5] == v1_header()[5]);
}

/// Of the segments of a version 1 container only the third counts.
pub proof fn law_v1_reads_only_the_third_segment(
    content1: Seq<char>,
    content2: Seq<char>,
    password: Seq<char>,
    cache: Map<Seq<u8>, Seq<u8>>,
)
    requires
        third_segment(content1) is Ok,
        third_segment(content1) == third_segment(content2),
    ensures
        v1_plaintext(encode_utf8(content1), password, cache) == v1_plaintext(
            encode_utf8(content2),
            password,
            cache,
        ),
        v1_cache(encode_utf8(content1), password, cache) == v1_cache(
            encode_utf8(content2),
            password,
            cache,
        ),
{
    encode_utf8_valid_utf8(content1);
    encode_utf8_decode_utf8(content1);
    encode_utf8_valid_utf8(content2);
    encode_utf8_decode_utf8(content2);
}

/// A chunk run fails only for a chunk that is too short or does not open.
proof fn lemma_chunk_errors(dek: Seq<u8>, data: Seq<u8>)
    ensures
        chunks_plaintext(dek, data) matches Err(e) ==> e == DecryptError::ChunkIncomplete || e
            == DecryptError::ChunkAuthentication,
    decreases data.len(),
{
    let n = first_chunk(data);
    if data.len() > 0 && n >= CHUNK_OVERHEAD {
        lemma_chunk_errors(dek, data.skip(n));
    }
}

/// The scan for containers picks exactly the files that decryption recognises.
pub proof fn law_scan_matches_decryption(
    raw: Seq<u8>,
    password: Seq<char>,
    kek: Seq<u8>,
    keys: Map<Seq<u8>, Seq<u8>>,
    deks: Map<Seq<u8>, Seq<u8>>,
)
    ensures
        (raw.len() >= HEADER_SIZE && is_header(raw.take(HEADER_SIZE as int))) <==> plaintext(
            raw,
            password,
            kek,
            keys,
            deks,
        ) != Err::<Seq<u8>, DecryptError>(DecryptError::UnknownHeader),
{
    lemma_headers();
    if raw.len() >= HEADER_SIZE {
        assert(raw.take(7) =~= raw.subrange(0, 7));
    }
    if let Ok(parts) = v2_parts(raw) {
        if let Ok(dek) = v2_dek(parts.ek, kek, deks) {
            lemma_chunk_errors(dek, parts.chunks);
        }
    }
}

/// Chunk records that each open, all but the last of them full, decrypt to their plaintexts in
/// order.
pub proof fn law_chunk_run(dek: Seq<u8>, records: Seq<Seq<u8>>, plains: Seq<Seq<u8>>)
    requires
        records.len() == plains.len(),
        forall|i: int|
            0 <= i < records.len() ==> CHUNK_OVERHEAD <= (#[trigger] records[i]).len()
                <= CHUNK_UNIT,
        forall|i: int|
            0 <= i < records.len() - 1 ==> (#[trigger] records[i]).len() == CHUNK_UNIT,
        forall|i: int|
            0 <= i < records.len() ==> aes256_gcm_open(
                dek,
                (#[trigger] records[i]).take(12),
                records[i].skip(12),
            ) == Some(plains[i]),
    ensures
        chunks_plaintext(dek, records.flatten()) == Ok::<Seq<u8>, DecryptError>(plains.flatten()),
    decreases records.len(),
{
    if records.len() == 0 {
        assert(records.flatten() =~= seq![]);
        assert(plains.flatten() =~= seq![]);
    } else {
        let data = records.flatten();
        let rest = records.drop_first();
        let n = records[0].len() as int;
        assert forall|i: int| 0 <= i < rest.len() implies CHUNK_OVERHEAD <= (
        #[trigger] rest[i]).len() <= CHUNK_UNIT by {
            assert(rest[i] == records[i + 1]);
        }
        assert forall|i: int| 0 <= i < rest.len() - 1 implies (#[trigger] rest[i]).len()
            == CHUNK_UNIT by {
            assert(rest[i] == records[i + 1]);
        }
        assert forall|i: int| 0 <= i < rest.len() implies aes256_gcm_open(
            dek,
            (#[trigger] rest[i]).take(12),
            rest[i].skip(12),
        ) == Some(plains.drop_first()[i]) by {
            assert(rest[i] == records[i + 1]);
        }
        law_chunk_run(dek, rest, plains.drop_first());
        assert(data == records[0] + rest.flatten());
        if rest.len() == 0 {
            assert(rest.flatten() =~= seq![]);
        }
        assert(first_chunk(data) == n);
        assert(data.take(12) =~= records[0].take(12));
        assert(data.subrange(12, n) =~= records[0].skip(12));
        assert(data.skip(n) =~= rest.flatten());
    }
}

/// A payload with a chunk that is too short or does not open gives no plaintext at all.
pub proof fn law_bad_chunk_refused(dek: Seq<u8>, data: Seq<u8>, k: nat)
    requires
        k * CHUNK_UNIT < data.len(),
        ({
            let rest = data.skip(k * CHUNK_UNIT);
            let n = first_chunk(rest);
            n < CHUNK_OVERHEAD || aes256_gcm_open(
                dek,
                rest.take(12),
                rest.subrange(12, n),
            ) is None
        }),
    ensures
        payload_plaintext(dek, data) is Err,
    decreases k,
{
    if k == 0 {
        assert(data.skip(0) =~= data);
    } else {
        let next = data.skip(CHUNK_UNIT as int);
        assert(next.skip((k - 1) * CHUNK_UNIT) =~= data.skip(k * CHUNK_UNIT));
        law_bad_chunk_refused(dek, next, (k - 1) as nat);
    }
}

/// No base64 digit is a colon or white space.
proof fn lemma_digit_symbol(n: int)
    requires
        0 <= n < 64,
    ensures
        base64_digit(n) != ':',
        !is_white_space(base64_digit(n)),
{
}

/// Base64 text holds no colon and no white space.
proof fn lemma_base64_symbols(v: Seq<u8>)
    ensures
        forall|i: int|
            0 <= i < base64_text(v).len() ==> (#[trigger] base64_text(v)[i]) != ':'
                && !is_white_space(base64_text(v)[i]),
    decreases v.len(),
{
    let b = if v.len() > 1 {
        v[1]
    } else {
        0
    };
    let c = if v.len() > 2 {
        v[2]
    } else {
        0
    };
    if v.len() > 2 {
        lemma_base64_symbols(v.skip(3));
    }
    assert forall|i: int| 0 <= i < base64_text(v).len() implies (#[trigger] base64_text(v)[i])
        != ':' && !is_white_space(base64_text(v)[i]) by {
        let quad = base64_quad(v[0], b, c);
        lemma_digit_symbol(v[0] as int / 4);
        lemma_digit_symbol(v[0] as int % 4 * 16 + b as int / 16);
        lemma_digit_symbol(b as int % 16 * 4 + c as int / 64);
        lemma_digit_symbol(c as int % 64);
        if i >= 4 {
            assert(base64_text(v)[i] == base64_text(v.skip(3))[i - 4]);
        } else {
            assert(base64_text(v)[i] == quad[i] || base64_text(v)[i] == '=');
        }
    }
}

/// White space in front of a text is trimmed off.
proof fn lemma_lead_trimmed(lead: Seq<char>, text: Seq<char>)
    requires
        forall|i: int| 0 <= i < lead.len() ==> is_white_space(#[trigger] lead[i]),
    ensures
        trimmed_start(lead + text) == trimmed_start(text),
    decreases lead.len(),
{
    if lead.len() == 0 {
        assert(lead + text =~= text);
    } else {
        assert((lead + text)[0] == lead[0]);
        assert((lead + text).drop_first() =~= lead.drop_first() + text);
        lemma_lead_trimmed(lead.drop_first(), text);
    }
}

/// White space behind a text is trimmed off.
proof fn lemma_trail_trimmed(text: Seq<char>, trail: Seq<char>)
    requires
        forall|i: int| 0 <= i < trail.len() ==> is_white_space(#[trigger] trail[i]),
    ensures
        trimmed_end(text + trail) == trimmed_end(text),
    decreases trail.len(),
{
    if trail.len() == 0 {
        assert(text + trail =~= text);
    } else {
        assert((text + trail).last() == trail.last());
        assert((text + trail).drop_last() =~= text + trail.drop_last());
        lemma_trail_trimmed(text, trail.drop_last());
    }
}

/// White space behind a text does not show once both ends are trimmed.
proof fn lemma_trail_ignored(text: Seq<char>, trail: Seq<char>)
    requires
        forall|i: int| 0 <= i < trail.len() ==> is_white_space(#[trigger] trail[i]),
    ensures
        trimmed(text + trail) == trimmed(text),
    decreases text.len(),
{
    if text.len() == 0 {
        assert(text + trail =~= trail + text);
        lemma_lead_trimmed(trail, text);
    } else {
        assert((text + trail)[0] == text[0]);
        if is_white_space(text[0]) {
            assert((text + trail).drop_first() =~= text.drop_first() + trail);
            lemma_trail_ignored(text.drop_first(), trail);
        } else {
            lemma_trail_trimmed(text, trail);
        }
    }
}

/// White space around the text of a payload has no effect, whether or not the text decodes.
pub proof fn law_payload_white_space(lead: Seq<char>, text: Seq<char>, trail: Seq<char>)
    requires
        forall|i: int| 0 <= i < lead.len() ==> is_white_space(#[trigger] lead[i]),
        forall|i: int| 0 <= i < trail.len() ==> is_white_space(#[trigger] trail[i]),
    ensures
        payload_bytes(lead + text + trail) == payload_bytes(text),
{
    assert(lead + text + trail =~= lead + (text + trail));
    lemma_lead_trimmed(lead, text + trail);
    lemma_trail_ignored(text, trail);
}

/// The base64 text of a byte string is a payload that gives the byte string.
pub proof fn law_payload_round_trip(bytes: Seq<u8>)
    ensures
        payload_bytes(base64_text(bytes)) == Ok::<Seq<u8>, DecryptError>(bytes),
{
    let text = base64_text(bytes);
    lemma_base64_symbols(bytes);
    if text.len() > 0 {
        assert(!is_white_space(text[0]));
        assert(!is_white_space(text[text.len() - 1]));
    }
    law_base64_round_trip(bytes);
}

/// The text of a version 1 container.
pub open spec fn v1_text(
    ext: Seq<char>,
    lead: Seq<char>,
    combined: Seq<u8>,
    trail: Seq<char>,
) -> Seq<char> {
    MAGIC_HEADER_V1@ + ext + seq![':'] + (lead + base64_text(combined) + trail)
}

/// A version 1 container holds the packet that was put into it.
proof fn lemma_v1_packet(ext: Seq<char>, lead: Seq<char>, combined: Seq<u8>, trail: Seq<char>)
    requires
        !ext.contains(':'),
        forall|i: int| 0 <= i < lead.len() ==> is_white_space(#[trigger] lead[i]),
        forall|i: int| 0 <= i < trail.len() ==> is_white_space(#[trigger] trail[i]),
    ensures
        v1_packet(encode_utf8(v1_text(ext, lead, combined, trail))) == packet_of(combined),
        v1_header().is_prefix_of(encode_utf8(v1_text(ext, lead, combined, trail))),
        !v2_header().is_prefix_of(encode_utf8(v1_text(ext, lead, combined, trail))),
{
    let payload = lead + base64_text(combined) + trail;
    let content = v1_text(ext, lead, combined, trail);
    let raw = encode_utf8(content);
    encode_utf8_valid_utf8(content);
    encode_utf8_decode_utf8(content);
    let magic = seq!['E', 'N', 'C', '_', 'V', '1'];
    reveal_strlit("ENC_V1:");
    assert(MAGIC_HEADER_V1@ =~= magic + seq![':']);
    let rest = ext + seq![':'] + payload;
    assert(content =~= magic + seq![':'] + rest);
    lemma_cut_at(magic, ':', rest);
    lemma_cut_at(ext, ':', payload);
    lemma_base64_symbols(combined);
    assert forall|i: int| !first_at(payload, ':', i) by {
        if first_at(payload, ':', i) {
            if i < lead.len() {
                assert(payload[i] == lead[i]);
            } else if i < lead.len() + base64_text(combined).len() {
                assert(payload[i] == base64_text(combined)[i - lead.len()]);
            } else {
                assert(payload[i] == trail[i - lead.len() - base64_text(combined).len()]);
            }
        }
    }
    reveal_with_fuel(pieces, 4);
    assert(pieces(content, ':') =~= seq![magic, ext, payload]);
    law_payload_white_space(lead, base64_text(combined), trail);
    law_payload_round_trip(combined);
    assert(content =~= MAGIC_HEADER_V1@ + rest);
    lemma_encode_concat(MAGIC_HEADER_V1@, rest);
    lemma_headers();
    assert(raw.subrange(0, 7) =~= v1_header());
    assert(raw[5] == 49u8);
}

/// A version 1 container gives back what was sealed into it: text whose third segment is the
/// base64 form of salt, nonce, flag and a ciphertext that opens under the password's key.
pub proof fn law_v1_container(
    ext: Seq<char>,
    lead: Seq<char>,
    trail: Seq<char>,
    packet: PacketView,
    password: Seq<char>,
    kek: Seq<u8>,
    key: Seq<u8>,
    data: Seq<u8>,
)
    requires
        !ext.contains(':'),
        forall|i: int| 0 <= i < lead.len() ==> is_white_space(#[trigger] lead[i]),
        forall|i: int| 0 <= i < trail.len() ==> is_white_space(#[trigger] trail[i]),
        packet.salt.len() == 16,
        packet.iv.len() == 12,
        encode_utf8(password).len() <= 0xffff_ffff,
        key == argon2id_hash(encode_utf8(password), packet.salt, 65536, 3, 4, 32),
        aes256_gcm_open(key, packet.iv, packet.ciphertext) == Some(data),
    ensures
        ({
            let outcome = plaintext(
                encode_utf8(
                    v1_text(
                        ext,
                        lead,
                        packet.salt + packet.iv + seq![packet.compression_flag] + packet.ciphertext,
                        trail,
                    ),
                ),
                password,
                kek,
                no_keys(),
                no_keys(),
            );
            if packet.compression_flag == 1 {
                match zlib_inflate(data) {
                    Some(plain) => outcome == Ok::<Seq<u8>, DecryptError>(plain),
                    None => outcome == Err::<Seq<u8>, DecryptError>(DecryptError::Inflate),
                }
            } else {
                outcome == Ok::<Seq<u8>, DecryptError>(data)
            }
        }),
        plaintext(
            encode_utf8(
                v1_text(
                    ext,
                    lead,
                    packet.salt + packet.iv + seq![packet.compression_flag] + packet.ciphertext,
                    trail,
                ),
            ),
            password,
            kek,
            no_keys(),
            no_keys(),
        ) == decompressed(packet.compression_flag, data),
{
    let combined = packet.salt + packet.iv + seq![packet.compression_flag] + packet.ciphertext;
    lemma_v1_packet(ext, lead, combined, trail);
    assert(combined.subrange(0, 16) =~= packet.salt);
    assert(combined.subrange(16, 28) =~= packet.iv);
    assert(combined.skip(29) =~= packet.ciphertext);
    law_password_key(encode_utf8(password), packet.salt);
    law_decompressed(packet.compression_flag, data);
}

/// The bytes of a version 2 container.
pub open spec fn v2_bytes(ext: Seq<char>, payload: Seq<u8>) -> Seq<u8> {
    v2_header() + encode_utf8(ext) + seq![58u8] + payload
}

/// A version 2 container holds the extension region and the payload that were put into it.
proof fn lemma_v2_regions(ext: Seq<char>, payload: Seq<u8>)
    requires
        !ext.contains(':'),
        HEADER_SIZE + encode_utf8(ext).len() < SCAN_LIMIT,
    ensures
        v2_regions(v2_bytes(ext, payload)) == Ok::<(Seq<u8>, Seq<u8>), DecryptError>(
            (encode_utf8(ext), payload),
        ),
        v2_header().is_prefix_of(v2_bytes(ext, payload)),
        valid_utf8(encode_utf8(ext)),
        decode_utf8(encode_utf8(ext)) == ext,
{
    let raw = v2_bytes(ext, payload);
    let e = encode_utf8(ext);
    lemma_headers();
    lemma_ascii_byte_occurs(ext, ':');
    assert(':' as u8 == 58u8);
    assert(raw.subrange(0, 7) =~= v2_header());
    assert forall|j: int| HEADER_SIZE <= j < HEADER_SIZE + e.len() implies raw[j] != 58 by {
        assert(raw[j] == e[j - HEADER_SIZE]);
    }
    assert(ends_extension(raw, HEADER_SIZE + e.len()));
    let i = choose|i: int| ends_extension(raw, i);
    assert(i == HEADER_SIZE + e.len());
    assert(raw.subrange(HEADER_SIZE as int, i) =~= e);
    assert(raw.skip(i + 1) =~= payload);
    encode_utf8_valid_utf8(ext);
    encode_utf8_decode_utf8(ext);
}

/// A version 2 container gives back what was sealed into it: an extension region with a wrapped
/// data key that opens under the master key, and a payload whose chunks open under the data key.
/// With the format 1 the payload is the chunks themselves; otherwise it is their base64 text, with
/// or without white space around it.
pub proof fn law_v2_container(
    ext: Seq<char>,
    lead: Seq<char>,
    trail: Seq<char>,
    records: Seq<Seq<u8>>,
    plains: Seq<Seq<u8>>,
    password: Seq<char>,
    kek: Seq<u8>,
    iv: Seq<u8>,
    wrapped: Seq<u8>,
    dek: Seq<u8>,
)
    requires
        !ext.contains(':'),
        HEADER_SIZE + encode_utf8(ext).len() < SCAN_LIMIT,
        forall|i: int| 0 <= i < lead.len() ==> is_white_space(#[trigger] lead[i]),
        forall|i: int| 0 <= i < trail.len() ==> is_white_space(#[trigger] trail[i]),
        params_of(ext).ek == Some(base64_text(iv + wrapped)),
        iv.len() == 12,
        wrapped.len() >= 16,
        aes256_gcm_open(kek, iv, wrapped) == Some(dek),
        dek.len() == 32,
        records.len() == plains.len(),
        records.len() > 0,
        forall|i: int|
            0 <= i < records.len() ==> CHUNK_OVERHEAD <= (#[trigger] records[i]).len()
                <= CHUNK_UNIT,
        forall|i: int|
            0 <= i < records.len() - 1 ==> (#[trigger] records[i]).len() == CHUNK_UNIT,
        forall|i: int|
            0 <= i < records.len() ==> aes256_gcm_open(
                dek,
                (#[trigger] records[i]).take(12),
                records[i].skip(12),
            ) == Some(plains[i]),
    ensures
        ({
            let outcome = plaintext(
                v2_bytes(
                    ext,
                    if params_of(ext).bf == Some(1u8) {
                        records.flatten()
                    } else {
                        encode_utf8(lead + base64_text(records.flatten()) + trail)
                    },
                ),
                password,
                kek,
                no_keys(),
                no_keys(),
            );
            if params_of(ext).cp == Some(1u8) {
                match zlib_inflate(plains.flatten()) {
                    Some(plain) => outcome == Ok::<Seq<u8>, DecryptError>(plain),
                    None => outcome == Err::<Seq<u8>, DecryptError>(DecryptError::Inflate),
                }
            } else {
                outcome == Ok::<Seq<u8>, DecryptError>(plains.flatten())
            }
        }),
        plaintext(
            v2_bytes(
                ext,
                if params_of(ext).bf == Some(1u8) {
                    records.flatten()
                } else {
                    encode_utf8(lead + base64_text(records.flatten()) + trail)
                },
            ),
            password,
            kek,
            no_keys(),
            no_keys(),
        ) == decompressed(
            match params_of(ext).cp {
                Some(cp) => cp,
                None => 0,
            },
            plains.flatten(),
        ),
{
    let chunks = records.flatten();
    let text = lead + base64_text(chunks) + trail;
    let payload = if params_of(ext).bf == Some(1u8) {
        chunks
    } else {
        encode_utf8(text)
    };
    lemma_v2_regions(ext, payload);
    encode_utf8_valid_utf8(text);
    encode_utf8_decode_utf8(text);
    law_payload_white_space(lead, base64_text(chunks), trail);
    law_payload_round_trip(chunks);
    law_chunk_run(dek, records, plains);
    law_unwrapped_dek(kek, iv, wrapped);
    law_decompressed(1, plains.flatten());
    assert(chunks == records[0] + records.drop_first().flatten());
}

/// Fields joined by `&`.
pub open spec fn joined(fields: Seq<Seq<char>>) -> Seq<char>
    decreases fields.len(),
{
    if fields.len() == 0 {
        seq![]
    } else if fields.len() == 1 {
        fields[0]
    } else {
        fields[0] + seq!['&'] + joined(fields.drop_first())
    }
}

/// Joined fields are read back one by one.
pub proof fn law_fields_read_back(fields: Seq<Seq<char>>)
    requires
        fields.len() > 0,
        forall|i: int| 0 <= i < fields.len() ==> !(#[trigger] fields[i]).contains('&'),
    ensures
        pieces(joined(fields), '&') == fields,
        params_of(joined(fields)) == params_of_fields(fields),
    decreases fields.len(),
{
    if fields.len() == 1 {
        assert forall|i: int| !first_at(fields[0], '&', i) by {
            if first_at(fields[0], '&', i) {
                assert(fields[0].contains(fields[0][i]));
            }
        }
        assert(pieces(joined(fields), '&') =~= fields);
    } else {
        let rest = fields.drop_first();
        assert forall|i: int| 0 <= i < rest.len() implies !(#[trigger] rest[i]).contains('&') by {
            assert(rest[i] == fields[i + 1]);
        }
        law_fields_read_back(rest);
        lemma_cut_at(fields[0], '&', joined(rest));
        assert(pieces(joined(fields), '&') =~= fields);
    }
}

/// The last field of a concatenation is the last of its second part, where that has one.
proof fn lemma_last_of_concat(a: Seq<Seq<char>>, b: Seq<Seq<char>>, key: Seq<char>)
    ensures
        last_value(a + b, key) == (match last_value(b, key) {
            Some(v) => Some(v),
            None => last_value(a, key),
        }),
        last_number(a + b, key) == (match last_number(b, key) {
            Some(n) => Some(n),
            None => last_number(a, key),
        }),
    decreases b.len(),
{
    if b.len() == 0 {
        assert(a + b =~= a);
    } else {
        assert((a + b).last() == b.last());
        assert((a + b).drop_last() =~= a + b.drop_last());
        lemma_last_of_concat(a, b.drop_last(), key);
    }
}

/// A field that says nothing (it has no `=`, an unknown key or, for `cp` and `bf`, a value that is
/// no byte) can stand anywhere among the others without effect.
pub proof fn law_useless_field_ignored(
    before: Seq<Seq<char>>,
    field: Seq<char>,
    after: Seq<Seq<char>>,
)
    requires
        field_value(field, "ek"@) is None,
        field_number(field, "cp"@) is None,
        field_number(field, "bf"@) is None,
    ensures
        params_of_fields(before + seq![field] + after) == params_of_fields(before + after),
{
    let one = seq![field];
    assert(one.drop_last() =~= seq![]);
    reveal_with_fuel(last_value, 2);
    reveal_with_fuel(last_number, 2);
    lemma_last_of_concat(before, one, "cp"@);
    lemma_last_of_concat(before, one, "ek"@);
    lemma_last_of_concat(before, one, "bf"@);
    lemma_last_of_concat(before + one, after, "cp"@);
    lemma_last_of_concat(before + one, after, "ek"@);
    lemma_last_of_concat(before + one, after, "bf"@);
    lemma_last_of_concat(before, after, "cp"@);
    lemma_last_of_concat(before, after, "ek"@);
    lemma_last_of_concat(before, after, "bf"@);
}

/// What two parameter sets say together, where the later one overrides the earlier.
pub open spec fn overridden(earlier: ParamsView, later: ParamsView) -> ParamsView {
    ParamsView {
        cp: if later.cp is Some {
            later.cp
        } else {
            earlier.cp
        },
        ek: if later.ek is Some {
            later.ek
        } else {
            earlier.ek
        },
        bf: if later.bf is Some {
            later.bf
        } else {
            earlier.bf
        },
    }
}

/// The pieces of two texts with a separator between them are those of the one and then those of
/// the other.
pub proof fn law_pieces_of_joined_texts(a: Seq<char>, sep: char, b: Seq<char>)
    ensures
        pieces(a + seq![sep] + b, sep) == pieces(a, sep) + pieces(b, sep),
    decreases a.len(),
{
    let s = a + seq![sep] + b;
    if exists|i: int| first_at(a, sep, i) {
        let i = choose|i: int| first_at(a, sep, i);
        let head = a.take(i);
        let tail = a.skip(i + 1);
        assert(s =~= head + seq![sep] + (tail + seq![sep] + b));
        lemma_cut_at(head, sep, tail + seq![sep] + b);
        law_pieces_of_joined_texts(tail, sep, b);
        assert(cut_at(a, sep) == Some((head, tail)));
        assert(pieces(s, sep) =~= pieces(a, sep) + pieces(b, sep));
    } else {
        assert forall|j: int| 0 <= j < a.len() implies a[j] != sep by {
            lemma_first_at(a, sep, j);
        }
        lemma_cut_at(a, sep, b);
        assert(pieces(s, sep) =~= pieces(a, sep) + pieces(b, sep));
    }
}

/// What a later list of fields says overrides what an earlier one says.
pub proof fn law_later_fields_override(earlier: Seq<Seq<char>>, later: Seq<Seq<char>>)
    ensures
        params_of_fields(earlier + later) == overridden(
            params_of_fields(earlier),
            params_of_fields(later),
        ),
{
    lemma_last_of_concat(earlier, later, "cp"@);
    lemma_last_of_concat(earlier, later, "ek"@);
    lemma_last_of_concat(earlier, later, "bf"@);
}

/// Of two extension regions joined by `&`, what the second says overrides what the first says.
pub proof fn law_later_region_overrides(earlier: Seq<char>, later: Seq<char>)
    ensures
        params_of(earlier + seq!['&'] + later) == overridden(params_of(earlier), params_of(later)),
{
    law_pieces_of_joined_texts(earlier, '&', later);
    law_later_fields_override(pieces(earlier, '&'), pieces(later, '&'));
}

/// Text that says nothing can stand in front of, between or behind extension regions without
/// effect.
pub proof fn law_useless_text_ignored(before: Seq<char>, text: Seq<char>, after: Seq<char>)
    requires
        params_of(text) == (ParamsView { cp: None, ek: None, bf: None }),
    ensures
        params_of(before + seq!['&'] + text + seq!['&'] + after) == params_of(
            before + seq!['&'] + after,
        ),
        params_of(before + seq!['&'] + text) == params_of(before),
        params_of(text + seq!['&'] + after) == params_of(after),
{
    law_later_region_overrides(before, text);
    law_later_region_overrides(before + seq!['&'] + text, after);
    law_later_region_overrides(before, after);
    law_later_region_overrides(text, after);
}

} // verus!
