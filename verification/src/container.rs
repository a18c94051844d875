//! Whole containers: recognising them by their header and decrypting either version.
use crate::cache::{no_keys, KeyCache};
use crate::error::{outcome_view, DecryptError};
use crate::primitives::{argon2id_hash, derive_kek, kek_of, password_key};
use crate::text::{lemma_encode_injective, same_bytes, starts_with};
use crate::v1::{decrypt_v1, v1_cache, v1_length, v1_plaintext};
use crate::v2::{decrypt_v2, unwrapped_dek, v2_cache, v2_length, v2_parts, v2_plaintext};
use vstd::prelude::*;
use vstd::utf8::{encode_utf8, is_ascii_chars_encode_utf8};

verus! {

/// The header of a version 2 container.
pub const MAGIC_HEADER: &'static str = "ENC_V2:";

/// The header of a version 1 container.
pub const MAGIC_HEADER_V1: &'static str = "ENC_V1:";

/// The header bytes of a version 2 container.
pub open spec fn v2_header() -> Seq<u8> {
    encode_utf8(MAGIC_HEADER@)
}

/// The header bytes of a version 1 container.
pub open spec fn v1_header() -> Seq<u8> {
    encode_utf8(MAGIC_HEADER_V1@)
}

/// The headers, byte by byte.
pub proof fn lemma_headers()
    ensures
        v1_header() == seq![69u8, 78, 67, 95, 86, 49, 58],
        v2_header() == seq![69u8, 78, 67, 95, 86, 50, 58],
{
    reveal_strlit("ENC_V1:");
    reveal_strlit("ENC_V2:");
    is_ascii_chars_encode_utf8(MAGIC_HEADER_V1@);
    is_ascii_chars_encode_utf8(MAGIC_HEADER@);
    let a = MAGIC_HEADER_V1@;
    assert(a[0] == 'E' && a[1] == 'N' && a[2] == 'C' && a[3] == '_' && a[4] == 'V' && a[5] == '1'
        && a[6] == ':');
    let b = MAGIC_HEADER@;
    assert(b[0] == 'E' && b[1] == 'N' && b[2] == 'C' && b[3] == '_' && b[4] == 'V' && b[5] == '2'
        && b[6] == ':');
    assert(v1_header() =~= seq![69u8, 78, 67, 95, 86, 49, 58]);
    assert(v2_header() =~= seq![69u8, 78, 67, 95, 86, 50, 58]);
}

/// `head` is one of the two headers.
pub open spec fn is_header(head: Seq<u8>) -> bool {
    head == v2_header() || head == v1_header()
}

/// Whether the first bytes of a file mark it as a container.
pub fn is_encrypted_head(head: &[u8]) -> (r: bool)
    ensures
        r == is_header(head@),
{
    same_bytes(head, MAGIC_HEADER.as_bytes()) || same_bytes(head, MAGIC_HEADER_V1.as_bytes())
}

/// The plaintext of a container.
pub open spec fn plaintext(
    raw: Seq<u8>,
    password: Seq<char>,
    kek: Seq<u8>,
    keys: Map<Seq<u8>, Seq<u8>>,
    deks: Map<Seq<u8>, Seq<u8>>,
) -> Result<Seq<u8>, DecryptError> {
    if v2_header().is_prefix_of(raw) {
        v2_plaintext(raw, kek, deks)
    } else if v1_header().is_prefix_of(raw) {
        v1_plaintext(raw, password, keys)
    } else {
        Err(DecryptError::UnknownHeader)
    }
}

/// `len` is a length that the plaintext of a container can have.
pub open spec fn plaintext_length(raw: Seq<u8>, len: nat) -> bool {
    if v2_header().is_prefix_of(raw) {
        v2_length(raw, len)
    } else {
        v1_length(raw, len)
    }
}

/// The cache of password keys after a container.
pub open spec fn keys_after(
    raw: Seq<u8>,
    password: Seq<char>,
    keys: Map<Seq<u8>, Seq<u8>>,
) -> Map<Seq<u8>, Seq<u8>> {
    if !v2_header().is_prefix_of(raw) && v1_header().is_prefix_of(raw) {
        v1_cache(raw, password, keys)
    } else {
        keys
    }
}

/// The cache of data keys after a container.
pub open spec fn deks_after(
    raw: Seq<u8>,
    kek: Seq<u8>,
    deks: Map<Seq<u8>, Seq<u8>>,
) -> Map<Seq<u8>, Seq<u8>> {
    if v2_header().is_prefix_of(raw) {
        v2_cache(raw, kek, deks)
    } else {
        deks
    }
}

/// Decrypts the contents of a file.
pub fn decrypt_contents(
    raw_data: &[u8],
    password: &str,
    kek: &[u8; 32],
    keys: &mut KeyCache,
    deks: &mut KeyCache,
) -> (r: Result<Vec<u8>, DecryptError>)
    ensures
        outcome_view(r) == plaintext(raw_data@, password@, kek@, old(keys)@, old(deks)@),
        final(keys)@ == keys_after(raw_data@, password@, old(keys)@),
        final(deks)@ == deks_after(raw_data@, kek@, old(deks)@),
        r matches Ok(data) ==> plaintext_length(raw_data@, data@.len()),
{
    proof {
        lemma_headers();
    }
    if starts_with(raw_data, MAGIC_HEADER.as_bytes()) {
        decrypt_v2(raw_data, kek, deks)
    } else if starts_with(raw_data, MAGIC_HEADER_V1.as_bytes()) {
        decrypt_v1(raw_data, password, keys)
    } else {
        Err(DecryptError::UnknownHeader)
    }
}

/// Every cached key is the one that the password gives.
pub open spec fn keys_agree(keys: Map<Seq<u8>, Seq<u8>>, password: Seq<char>) -> bool {
    forall|salt: Seq<u8>| #[trigger]
        keys.dom().contains(salt) ==> password_key(encode_utf8(password), salt) == Some(keys[salt])
}

/// Every cached data key is the one that the master key unwraps.
pub open spec fn deks_agree(deks: Map<Seq<u8>, Seq<u8>>, kek: Seq<u8>) -> bool {
    forall|ek: Seq<char>|
        deks.dom().contains(#[trigger] encode_utf8(ek)) ==> unwrapped_dek(kek, ek) == Ok::<
            Seq<u8>,
            DecryptError,
        >(deks[encode_utf8(ek)])
}

/// A password with the keys that follow from it.
pub struct Session {
    password: String,
    kek: [u8; 32],
    keys: KeyCache,
    deks: KeyCache,
}

/// What a `Session` stands for.
pub struct SessionView {
    pub password: Seq<char>,
    pub kek: Seq<u8>,
    pub keys: Map<Seq<u8>, Seq<u8>>,
    pub deks: Map<Seq<u8>, Seq<u8>>,
}

impl View for Session {
    type V = SessionView;

    closed spec fn view(&self) -> SessionView {
        SessionView {
            password: self.password@,
            kek: self.kek@,
            keys: self.keys@,
            deks: self.deks@,
        }
    }
}

impl SessionView {
    /// The master key and all cached keys belong to the password.
    pub open spec fn wf(self) -> bool {
        &&& self.password.len() > 0
        &&& kek_of(self.password) == Ok::<Seq<u8>, DecryptError>(self.kek)
        &&& keys_agree(self.keys, self.password)
        &&& deks_agree(self.deks, self.kek)
    }
}

impl Session {
    #[verifier::type_invariant]
    spec fn keys_belong(self) -> bool {
        self@.wf()
    }

    /// Starts a session: derives the master key of a password that is not empty.
    pub fn open(password: &str) -> (r: Result<Session, DecryptError>)
        ensures
            match r {
                Ok(session) => session@.wf() && session@.password == password@ && session@.keys
                    == no_keys() && session@.deks == no_keys(),
                Err(e) => if password@.len() == 0 {
                    e == DecryptError::EmptyPassword
                } else {
                    kek_of(password@) == Err::<Seq<u8>, DecryptError>(e)
                },
            },
            r is Ok == (password@.len() > 0 && encode_utf8(password@).len() <= 0xffff_ffff),
            r matches Ok(session) ==> session@.kek == argon2id_hash(
                encode_utf8(password@),
                encode_utf8("Phantom_Cipher_KEK_Salt_V2_2026"@),
                65536,
                3,
                4,
                32,
            ),
            r matches Err(e) ==> password@.len() > 0 ==> e == DecryptError::KekDerivation,
    {
        if password.is_empty() {
            return Err(DecryptError::EmptyPassword);
        }
        let kek = derive_kek(password)?;
        Ok(
            Session {
                password: password.to_owned(),
                kek,
                keys: KeyCache::new(),
                deks: KeyCache::new(),
            },
        )
    }

    /// A session for the same password with caches of its own.
    pub fn fork(&self) -> (r: Session)
        ensures
            r@.wf(),
            r@ == (SessionView {
                password: self@.password,
                kek: self@.kek,
                keys: no_keys(),
                deks: no_keys(),
            }),
    {
        proof {
            use_type_invariant(self);
        }
        Session {
            password: self.password.clone(),
            kek: self.kek,
            keys: KeyCache::new(),
            deks: KeyCache::new(),
        }
    }

    /// Decrypts the contents of a file. The result does not depend on what the session decrypted
    /// before.
    pub fn decrypt(&mut self, raw_data: &[u8]) -> (r: Result<Vec<u8>, DecryptError>)
        ensures
            outcome_view(r) == plaintext(
                raw_data@,
                old(self)@.password,
                old(self)@.kek,
                no_keys(),
                no_keys(),
            ),
            final(self)@ == (SessionView {
                password: old(self)@.password,
                kek: old(self)@.kek,
                keys: keys_after(raw_data@, old(self)@.password, old(self)@.keys),
                deks: deks_after(raw_data@, old(self)@.kek, old(self)@.deks),
            }),
            final(self)@.wf(),
            r matches Ok(data) ==> plaintext_length(raw_data@, data@.len()),
    {
        proof {
            use_type_invariant(&*self);
            law_caches_agree(raw_data@, self@.password, self@.kek, self@.keys, self@.deks);
            law_caches_invisible(raw_data@, self@.password, self@.kek, self@.keys, self@.deks);
        }
        let mut keys = KeyCache::new();
        let mut deks = KeyCache::new();
        std::mem::swap(&mut keys, &mut self.keys);
        std::mem::swap(&mut deks, &mut self.deks);
        let r = decrypt_contents(
            raw_data,
            self.password.as_str(),
            &self.kek,
            &mut keys,
            &mut deks,
        );
        self.keys = keys;
        self.deks = deks;
        r
    }
}

/// Empty caches agree with every password and every master key.
pub proof fn law_empty_caches_agree(password: Seq<char>, kek: Seq<u8>)
    ensures
        keys_agree(no_keys(), password),
        deks_agree(no_keys(), kek),
{
}

/// Decrypting a container keeps caches in agreement with the password and the master key.
pub proof fn law_caches_agree(
    raw: Seq<u8>,
    password: Seq<char>,
    kek: Seq<u8>,
    keys: Map<Seq<u8>, Seq<u8>>,
    deks: Map<Seq<u8>, Seq<u8>>,
)
    requires
        keys_agree(keys, password),
        deks_agree(deks, kek),
    ensures
        keys_agree(keys_after(raw, password, keys), password),
        deks_agree(deks_after(raw, kek, deks), kek),
{
    if let Ok(parts) = v2_parts(raw) {
        assert forall|ek: Seq<char>|
            deks_after(raw, kek, deks).dom().contains(
                #[trigger] encode_utf8(ek),
            ) implies unwrapped_dek(kek, ek) == Ok::<Seq<u8>, DecryptError>(
            deks_after(raw, kek, deks)[encode_utf8(ek)],
        ) by {
            if encode_utf8(ek) == encode_utf8(parts.ek) {
                lemma_encode_injective(ek, parts.ek);
            }
        }
    }
}

/// What a container decrypts to does not depend on the caches, as long as they agree with the
/// password and the master key.
pub proof fn law_caches_invisible(
    raw: Seq<u8>,
    password: Seq<char>,
    kek: Seq<u8>,
    keys: Map<Seq<u8>, Seq<u8>>,
    deks: Map<Seq<u8>, Seq<u8>>,
)
    requires
        keys_agree(keys, password),
        deks_agree(deks, kek),
    ensures
        plaintext(raw, password, kek, keys, deks) == plaintext(
            raw,
            password,
            kek,
            no_keys(),
            no_keys(),
        ),
{
}

} // verus!
