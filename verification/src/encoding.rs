//! Base64 with the standard alphabet and canonical padding.
use crate::error::{outcome_view, DecryptError};
use crate::text::{trim, trimmed};
use base64::engine::general_purpose::STANDARD;
use base64::Engine;
use vstd::prelude::*;

verus! {

/// The symbol for a six-bit number.
pub open spec fn base64_digit(n: int) -> char {
    if n < 26 {
        ('A' as int + n) as char
    } else if n < 52 {
        ('a' as int + (n - 26)) as char
    } else if n < 62 {
        ('0' as int + (n - 52)) as char
    } else if n == 62 {
        '+'
    } else {
        '/'
    }
}

/// The four symbols for three bytes.
pub open spec fn base64_quad(a: u8, b: u8, c: u8) -> Seq<char> {
    seq![
        base64_digit(a as int / 4),
        base64_digit(a as int % 4 * 16 + b as int / 16),
        base64_digit(b as int % 16 * 4 + c as int / 64),
        base64_digit(c as int % 64),
    ]
}

/// The base64 text of a byte string.
pub open spec fn base64_text(v: Seq<u8>) -> Seq<char>
    decreases v.len(),
{
    if v.len() == 0 {
        seq![]
    } else if v.len() == 1 {
        base64_quad(v[0], 0, 0).take(2) + seq!['=', '=']
    } else if v.len() == 2 {
        base64_quad(v[0], v[1], 0).take(3) + seq!['=']
    } else {
        base64_quad(v[0], v[1], v[2]) + base64_text(v.skip(3))
    }
}

/// The byte string whose base64 text is `s`, where there is one.
pub open spec fn base64_decoded(s: Seq<char>) -> Option<Seq<u8>> {
    if exists|v: Seq<u8>| base64_text(v) == s {
        Some(choose|v: Seq<u8>| base64_text(v) == s)
    } else {
        None
    }
}

/// What an optional byte string stands for.
pub open spec fn bytes_view(r: Option<Vec<u8>>) -> Option<Seq<u8>> {
    match r {
        Some(v) => Some(v@),
        None => None,
    }
}

/// Different digits have different symbols, and none is the padding.
proof fn lemma_digit(m: int, n: int)
    requires
        0 <= m < 64,
        0 <= n < 64,
    ensures
        base64_digit(m) == base64_digit(n) ==> m == n,
        base64_digit(m) != '=',
{
}

/// Symbols determine the bytes that they stand for, and none is the padding.
proof fn lemma_quad(a: u8, b: u8, c: u8, x: u8, y: u8, z: u8)
    ensures
        base64_quad(a, b, c) == base64_quad(x, y, z) ==> a == x && b == y && c == z,
        base64_quad(a, b, c).take(3) == base64_quad(x, y, z).take(3) && c == 0 && z == 0 ==> a == x
            && b == y,
        base64_quad(a, b, c).take(2) == base64_quad(x, y, z).take(2) && b == 0 && y == 0 ==> a
            == x,
        forall|i: int| 0 <= i < 4 ==> #[trigger] base64_quad(a, b, c)[i] != '=',
{
    let p = base64_quad(a, b, c);
    let q = base64_quad(x, y, z);
    assert(p[0] == p.take(3)[0] && p[1] == p.take(3)[1] && p[2] == p.take(3)[2]);
    assert(q[0] == q.take(3)[0] && q[1] == q.take(3)[1] && q[2] == q.take(3)[2]);
    assert(p[0] == p.take(2)[0] && p[1] == p.take(2)[1]);
    assert(q[0] == q.take(2)[0] && q[1] == q.take(2)[1]);
    lemma_digit(a as int / 4, x as int / 4);
    lemma_digit(a as int % 4 * 16 + b as int / 16, x as int % 4 * 16 + y as int / 16);
    lemma_digit(b as int % 16 * 4 + c as int / 64, y as int % 16 * 4 + z as int / 64);
    lemma_digit(c as int % 64, z as int % 64);
}

/// The byte at `i`, or zero behind the end.
spec fn byte_or_zero(v: Seq<u8>, i: int) -> u8 {
    if i < v.len() {
        v[i]
    } else {
        0
    }
}

/// No two byte strings have the same base64 text.
pub proof fn lemma_base64_injective(a: Seq<u8>, b: Seq<u8>)
    requires
        base64_text(a) == base64_text(b),
    ensures
        a == b,
    decreases a.len(),
{
    let s = base64_text(a);
    if a.len() == 0 || b.len() == 0 {
        assert(a =~= b);
    } else {
        let (a1, a2) = (byte_or_zero(a, 1), byte_or_zero(a, 2));
        let (b1, b2) = (byte_or_zero(b, 1), byte_or_zero(b, 2));
        let qa = base64_quad(a[0], a1, a2);
        let qb = base64_quad(b[0], b1, b2);
        lemma_quad(a[0], a1, a2, b[0], b1, b2);
        lemma_quad(b[0], b1, b2, a[0], a1, a2);
        assert(s[2] == if a.len() > 1 { qa[2] } else { '=' });
        assert(s[2] == if b.len() > 1 { qb[2] } else { '=' });
        assert(s[3] == if a.len() > 2 { qa[3] } else { '=' });
        assert(s[3] == if b.len() > 2 { qb[3] } else { '=' });
        if a.len() == 1 {
            assert(qa.take(2) =~= s.take(2) && qb.take(2) =~= s.take(2));
            assert(a =~= b);
        } else if a.len() == 2 {
            assert(qa.take(3) =~= s.take(3) && qb.take(3) =~= s.take(3));
            assert(a =~= b);
        } else {
            assert(qa =~= s.take(4) && qb =~= s.take(4));
            assert(base64_text(a.skip(3)) =~= s.skip(4));
            assert(base64_text(b.skip(3)) =~= s.skip(4));
            lemma_base64_injective(a.skip(3), b.skip(3));
            assert(a =~= seq![a[0], a[1], a[2]] + a.skip(3));
            assert(b =~= seq![b[0], b[1], b[2]] + b.skip(3));
        }
    }
}

/// Decoding gives back what was encoded.
pub proof fn law_base64_round_trip(v: Seq<u8>)
    ensures
        base64_decoded(base64_text(v)) == Some(v),
{
    let s = base64_text(v);
    let w = choose|w: Seq<u8>| base64_text(w) == s;
    assert(base64_text(v) == s);
    lemma_base64_injective(v, w);
}

/// Calls `base64`'s `Engine::decode` on the engine `STANDARD`: it succeeds exactly on the base64
/// text of some byte string, with the standard alphabet, full padding and zero trailing bits, and
/// then gives that byte string.
#[verifier::external_body]
fn standard_decode(text: &str) -> (r: Option<Vec<u8>>)
    ensures
        match r {
            Some(v) => text@ == base64_text(v@),
            None => forall|v: Seq<u8>| text@ != #[trigger] base64_text(v),
        },
{
    STANDARD.decode(text).ok()
}

/// Decodes base64 text.
pub fn decode_base64(text: &str) -> (r: Option<Vec<u8>>)
    ensures
        bytes_view(r) == base64_decoded(text@),
{
    let r = standard_decode(text);
    proof {
        if r is Some {
            law_base64_round_trip(r->0@);
        }
    }
    r
}

/// The bytes that base64 text gives once white space around it is gone.
pub open spec fn payload_bytes(text: Seq<char>) -> Result<Seq<u8>, DecryptError> {
    match base64_decoded(trimmed(text)) {
        Some(bytes) => Ok(bytes),
        None => Err(DecryptError::PayloadBase64),
    }
}

/// Decodes a base64 payload, ignoring white space around it.
pub fn decode_payload_text(text: &str) -> (r: Result<Vec<u8>, DecryptError>)
    ensures
        outcome_view(r) == payload_bytes(text@),
{
    match decode_base64(trim(text)) {
        Some(bytes) => Ok(bytes),
        None => Err(DecryptError::PayloadBase64),
    }
}

} // verus!
