//! Where keys come from, and what opened data holds.
use crate::container::SessionView;
use crate::encoding::{base64_text, bytes_view};
use crate::error::{key_view, outcome_view, DecryptError};
use crate::laws::fields::law_base64_decoded_iff_encoded;
use crate::primitives::{
    aes256_gcm_open, argon2id_hash, decompressed, kek_of, password_key, zlib_inflate,
};
use crate::v1::v1_opened;
use crate::v2::{dek_opened, unwrapped_dek};
use vstd::prelude::*;
use vstd::utf8::{encode_utf8, is_ascii_chars_encode_utf8};

verus! {

/// A key is the Argon2id hash of the whole password and the whole salt, with 64 MiB of memory,
/// 3 passes, 4 lanes and 32 bytes of output.
pub proof fn law_password_key(password: Seq<u8>, salt: Seq<u8>)
    ensures
        password.len() <= 0xffff_ffff && 8 <= salt.len() <= 0xffff_ffff ==> password_key(
            password,
            salt,
        ) == Some(argon2id_hash(password, salt, 65536, 3, 4, 32)),
        password.len() > 0xffff_ffff || salt.len() < 8 || salt.len() > 0xffff_ffff ==> password_key(
            password,
            salt,
        ) is None,
{
}

/// The master key is the Argon2id hash of the whole password and a fixed salt. It is refused only
/// to a password that is longer than Argon2 takes.
pub proof fn law_master_key(password: Seq<char>)
    ensures
        encode_utf8(password).len() <= 0xffff_ffff ==> kek_of(password) == Ok::<
            Seq<u8>,
            DecryptError,
        >(
            argon2id_hash(
                encode_utf8(password),
                encode_utf8("Phantom_Cipher_KEK_Salt_V2_2026"@),
                65536,
                3,
                4,
                32,
            ),
        ),
        encode_utf8(password).len() > 0xffff_ffff ==> kek_of(password) == Err::<
            Seq<u8>,
            DecryptError,
        >(DecryptError::KekDerivation),
{
    reveal_strlit("Phantom_Cipher_KEK_Salt_V2_2026");
    is_ascii_chars_encode_utf8("Phantom_Cipher_KEK_Salt_V2_2026"@);
}

/// A session holds the master key of its password.
pub proof fn law_session_master_key(session: SessionView)
    requires
        session.wf(),
    ensures
        session.password.len() > 0,
        encode_utf8(session.password).len() <= 0xffff_ffff,
        session.kek == argon2id_hash(
            encode_utf8(session.password),
            encode_utf8("Phantom_Cipher_KEK_Salt_V2_2026"@),
            65536,
            3,
            4,
            32,
        ),
{
    law_master_key(session.password);
}

/// With the flag 1 data holds the whole of a zlib stream, and is refused where there is none. With
/// any other flag it holds itself.
pub proof fn law_decompressed(flag: u8, data: Seq<u8>)
    ensures
        flag == 1 ==> match zlib_inflate(data) {
            Some(plain) => decompressed(flag, data) == Ok::<Seq<u8>, DecryptError>(plain),
            None => decompressed(flag, data) == Err::<Seq<u8>, DecryptError>(DecryptError::Inflate),
        },
        flag != 1 ==> decompressed(flag, data) == Ok::<Seq<u8>, DecryptError>(data),
{
}

/// A version 1 packet that does not open is refused whatever its flag is. One that opens gives the
/// data, or with the flag 1 the whole of the zlib stream in it.
pub proof fn law_v1_opened(data: Seq<u8>, flag: u8)
    ensures
        v1_opened(None, flag) == Err::<Seq<u8>, DecryptError>(DecryptError::V1Authentication),
        flag != 1 ==> v1_opened(Some(data), flag) == Ok::<Seq<u8>, DecryptError>(data),
        flag == 1 ==> match zlib_inflate(data) {
            Some(plain) => v1_opened(Some(data), flag) == Ok::<Seq<u8>, DecryptError>(plain),
            None => v1_opened(Some(data), flag) == Err::<Seq<u8>, DecryptError>(
                DecryptError::Inflate,
            ),
        },
{
}

/// A data key that was opened is taken as it is, byte for byte, where it is 32 bytes long.
pub proof fn law_dek_opened(dek: Seq<u8>)
    ensures
        dek.len() == 32 ==> dek_opened(Some(dek)) == Ok::<Seq<u8>, DecryptError>(dek),
        dek.len() != 32 ==> dek_opened(Some(dek)) == Err::<Seq<u8>, DecryptError>(
            DecryptError::DekLength,
        ),
        dek_opened(None) == Err::<Seq<u8>, DecryptError>(DecryptError::EdekAuthentication),
{
}

/// A wrapped data key is the base64 text of a nonce and a ciphertext with tag. It unwraps to just
/// what the ciphertext opens to under the master key, where that is 32 bytes long.
pub proof fn law_unwrapped_dek(kek: Seq<u8>, iv: Seq<u8>, ciphertext: Seq<u8>)
    requires
        iv.len() == 12,
        ciphertext.len() >= 16,
    ensures
        match aes256_gcm_open(kek, iv, ciphertext) {
            Some(dek) => unwrapped_dek(kek, base64_text(iv + ciphertext)) == if dek.len() == 32 {
                Ok::<Seq<u8>, DecryptError>(dek)
            } else {
                Err(DecryptError::DekLength)
            },
            None => unwrapped_dek(kek, base64_text(iv + ciphertext)) == Err::<
                Seq<u8>,
                DecryptError,
            >(DecryptError::EdekAuthentication),
        },
{
    let edek = iv + ciphertext;
    law_base64_decoded_iff_encoded(base64_text(edek), edek);
    assert(edek.take(12) =~= iv);
    assert(edek.skip(12) =~= ciphertext);
}

/// A wrapped data key that is no base64 text, or that of fewer than 28 bytes, is refused.
pub proof fn law_malformed_edek_refused(kek: Seq<u8>, ek: Seq<char>)
    ensures
        (forall|v: Seq<u8>| ek != #[trigger] base64_text(v)) ==> unwrapped_dek(kek, ek) == Err::<
            Seq<u8>,
            DecryptError,
        >(DecryptError::EdekBase64),
        forall|v: Seq<u8>| #[trigger]
            base64_text(v) == ek && v.len() < 28 ==> unwrapped_dek(kek, ek) == Err::<
                Seq<u8>,
                DecryptError,
            >(DecryptError::EdekTooShort),
{
    assert forall|v: Seq<u8>| #[trigger] base64_text(v) == ek && v.len() < 28 implies unwrapped_dek(
        kek,
        ek,
    ) == Err::<Seq<u8>, DecryptError>(DecryptError::EdekTooShort) by {
        law_base64_decoded_iff_encoded(ek, v);
    }
}

/// Outcomes stand for the bytes that they hold.
pub proof fn law_outcome_views(bytes: Vec<u8>, key: [u8; 32], e: DecryptError)
    ensures
        outcome_view(Ok(bytes)) == Ok::<Seq<u8>, DecryptError>(bytes@),
        outcome_view(Err(e)) == Err::<Seq<u8>, DecryptError>(e),
        key_view(Ok(key)) == Ok::<Seq<u8>, DecryptError>(key@),
        key_view(Err(e)) == Err::<Seq<u8>, DecryptError>(e),
        bytes_view(Some(bytes)) == Some(bytes@),
        bytes_view(None) is None,
{
}

} // verus!
