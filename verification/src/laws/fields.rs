//! How text is cut into pieces, and what numerals and fields say.
use crate::encoding::{base64_decoded, base64_text, law_base64_round_trip, payload_bytes};
use crate::error::DecryptError;
use crate::params::{
    all_digits, decimal, field_number, field_value, is_digit, last_number, last_value, params_of,
    u8_numeral, unsigned, DecryptionParams, ParamsView,
};
use crate::text::{cut_at, first_at, lemma_cut_at, lemma_first_at, pieces, trimmed};
use crate::v1::third_segment;
use vstd::prelude::*;

verus! {

/// Parts with a separator between each two.
pub open spec fn joined_with(parts: Seq<Seq<char>>, sep: char) -> Seq<char>
    decreases parts.len(),
{
    if parts.len() == 0 {
        seq![]
    } else if parts.len() == 1 {
        parts[0]
    } else {
        parts[0] + seq![sep] + joined_with(parts.drop_first(), sep)
    }
}

/// A text is cut at its first separator and nowhere else: the halves give it back, and there is
/// none in the first half. A text without a separator is not cut.
pub proof fn law_cut(s: Seq<char>, sep: char)
    ensures
        cut_at(s, sep) is None <==> !s.contains(sep),
        cut_at(s, sep) matches Some((head, tail)) ==> s == head + seq![sep] + tail
            && !head.contains(sep),
{
    if s.contains(sep) {
        let j = choose|j: int| 0 <= j < s.len() && s[j] == sep;
        lemma_first_at(s, sep, j);
        let i = choose|i: int| first_at(s, sep, i);
        assert(s =~= s.take(i) + seq![sep] + s.skip(i + 1));
    } else {
        assert forall|i: int| !first_at(s, sep, i) by {
            if first_at(s, sep, i) {
                assert(s.contains(s[i]));
            }
        }
    }
}

/// The pieces of a text, joined again, are the text, and no piece holds a separator.
pub proof fn law_pieces_join_again(s: Seq<char>, sep: char)
    ensures
        pieces(s, sep).len() > 0,
        joined_with(pieces(s, sep), sep) == s,
        forall|i: int|
            0 <= i < pieces(s, sep).len() ==> !(#[trigger] pieces(s, sep)[i]).contains(sep),
    decreases s.len(),
{
    law_cut(s, sep);
    if let Some((head, tail)) = cut_at(s, sep) {
        law_pieces_join_again(tail, sep);
        let rest = pieces(tail, sep);
        let all = pieces(s, sep);
        assert(all.drop_first() =~= rest);
        assert forall|i: int| 0 <= i < all.len() implies !(#[trigger] all[i]).contains(sep) by {
            if i > 0 {
                assert(all[i] == rest[i - 1]);
            }
        }
    }
}

/// Parts that hold no separator are the pieces of their join.
pub proof fn law_parts_are_read_back(parts: Seq<Seq<char>>, sep: char)
    requires
        parts.len() > 0,
        forall|i: int| 0 <= i < parts.len() ==> !(#[trigger] parts[i]).contains(sep),
    ensures
        pieces(joined_with(parts, sep), sep) == parts,
    decreases parts.len(),
{
    if parts.len() == 1 {
        law_cut(parts[0], sep);
        assert(pieces(joined_with(parts, sep), sep) =~= parts);
    } else {
        let rest = parts.drop_first();
        assert forall|i: int| 0 <= i < rest.len() implies !(#[trigger] rest[i]).contains(sep) by {
            assert(rest[i] == parts[i + 1]);
        }
        law_parts_are_read_back(rest, sep);
        lemma_cut_at(parts[0], sep, joined_with(rest, sep));
        assert(pieces(joined_with(parts, sep), sep) =~= parts);
    }
}

/// The third segment is what stands behind the second colon, up to the next colon or the end.
/// With fewer than two colons there is none.
pub proof fn law_third_segment(a: Seq<char>, b: Seq<char>, c: Seq<char>, more: Seq<char>)
    requires
        !a.contains(':'),
        !b.contains(':'),
        !c.contains(':'),
    ensures
        third_segment(a) == Err::<Seq<char>, DecryptError>(DecryptError::V1MissingSegments),
        third_segment(a + seq![':'] + b) == Err::<Seq<char>, DecryptError>(
            DecryptError::V1MissingSegments,
        ),
        third_segment(a + seq![':'] + (b + seq![':'] + c)) == Ok::<Seq<char>, DecryptError>(c),
        third_segment(a + seq![':'] + (b + seq![':'] + (c + seq![':'] + more))) == Ok::<
            Seq<char>,
            DecryptError,
        >(c),
{
    reveal_with_fuel(pieces, 4);
    law_cut(a, ':');
    law_cut(b, ':');
    law_cut(c, ':');
    lemma_cut_at(a, ':', b);
    lemma_cut_at(b, ':', c);
    lemma_cut_at(a, ':', b + seq![':'] + c);
    lemma_cut_at(c, ':', more);
    lemma_cut_at(b, ':', c + seq![':'] + more);
    lemma_cut_at(a, ':', b + seq![':'] + (c + seq![':'] + more));
}

/// A base64 text decodes to the bytes that it encodes, and no other text decodes.
pub proof fn law_base64_decoded_iff_encoded(s: Seq<char>, v: Seq<u8>)
    ensures
        base64_decoded(s) == Some(v) <==> s == base64_text(v),
{
    law_base64_round_trip(v);
    if base64_decoded(s) == Some(v) {
        let w = choose|w: Seq<u8>| base64_text(w) == s;
        assert(base64_text(w) == s);
    }
}

/// A payload gives the bytes whose base64 text it is once trimmed, and is refused where there are
/// none.
pub proof fn law_payload_bytes(text: Seq<char>, v: Seq<u8>)
    ensures
        payload_bytes(text) == Ok::<Seq<u8>, DecryptError>(v) <==> trimmed(text) == base64_text(v),
        payload_bytes(text) matches Err(e) ==> e == DecryptError::PayloadBase64,
{
    law_base64_decoded_iff_encoded(trimmed(text), v);
}

/// A single digit denotes its value.
pub proof fn law_numeral_of_digit(c: char)
    requires
        '0' <= c <= '9',
    ensures
        u8_numeral(seq![c]) == Some((c as int - '0' as int) as u8),
{
    reveal_with_fuel(decimal, 2);
    assert(seq![c].drop_last() =~= seq![]);
}

/// A digit behind a numeral makes ten times its value plus the digit, as long as that fits a byte.
/// What is no numeral does not become one.
pub proof fn law_numeral_grows(s: Seq<char>, c: char)
    requires
        '0' <= c <= '9',
        s.len() > 0,
        s != seq!['+'],
    ensures
        u8_numeral(s.push(c)) == (match u8_numeral(s) {
            Some(n) => if 10 * n + (c as int - '0' as int) <= 255 {
                Some((10 * n + (c as int - '0' as int)) as u8)
            } else {
                None
            },
            None => None,
        }),
{
    let digits = unsigned(s);
    let longer = unsigned(s.push(c));
    if s[0] == '+' {
        assert(s.push(c)[0] == '+');
        if s.len() == 1 {
            assert(s =~= seq!['+']);
        }
    } else {
        assert(s.push(c)[0] == s[0]);
    }
    assert(longer =~= digits.push(c));
    assert(longer.drop_last() =~= digits);
    assert(all_digits(longer) == all_digits(digits)) by {
        assert(longer[digits.len() as int] == c);
        assert forall|i: int| 0 <= i < digits.len() implies longer[i] == #[trigger] digits[i] by {}
        if all_digits(longer) {
            assert forall|i: int| 0 <= i < digits.len() implies is_digit(#[trigger] digits[i]) by {
                assert(is_digit(longer[i]));
            }
        }
        if all_digits(digits) {
            assert forall|i: int| 0 <= i < longer.len() implies is_digit(#[trigger] longer[i]) by {
                if i < digits.len() {
                    assert(is_digit(digits[i]));
                }
            }
        }
    }
}

/// A leading plus sign changes nothing, but a second one is refused.
pub proof fn law_numeral_plus_sign(s: Seq<char>)
    ensures
        s.len() == 0 || s[0] != '+' ==> u8_numeral(seq!['+'] + s) == u8_numeral(s),
        s.len() > 0 && s[0] == '+' ==> u8_numeral(seq!['+'] + s) is None,
{
    let t = seq!['+'] + s;
    assert(t[0] == '+');
    assert(unsigned(t) =~= s);
    if s.len() > 0 && s[0] == '+' {
        assert(!is_digit(unsigned(t)[0]));
    }
}

/// The empty text is no numeral, nor is one with a character that is neither a digit nor a leading
/// plus sign.
pub proof fn law_numeral_refused(s: Seq<char>, i: int)
    requires
        s.len() == 0 || (0 <= i < s.len() && !('0' <= s[i] <= '9') && (i > 0 || s[i] != '+')),
    ensures
        u8_numeral(s) is None,
{
    if s.len() > 0 {
        let digits = unsigned(s);
        if s[0] == '+' {
            assert(digits[i - 1] == s[i]);
            assert(!is_digit(digits[i - 1]));
        } else {
            assert(!is_digit(digits[i]));
        }
    }
}

/// A field says what its value says for its key: `cp` and `bf` take a byte, `ek` takes any text,
/// and no other key says anything.
pub proof fn law_single_field(name: Seq<char>, value: Seq<char>)
    requires
        !name.contains('='),
        !name.contains('&'),
        !value.contains('&'),
    ensures
        params_of(name + seq!['='] + value) == (ParamsView {
            cp: if name == seq!['c', 'p'] {
                u8_numeral(value)
            } else {
                None
            },
            ek: if name == seq!['e', 'k'] {
                Some(value)
            } else {
                None
            },
            bf: if name == seq!['b', 'f'] {
                u8_numeral(value)
            } else {
                None
            },
        }),
{
    let field = name + seq!['='] + value;
    lemma_cut_at(name, '=', value);
    lemma_single_piece(field);
    reveal_strlit("cp");
    reveal_strlit("ek");
    reveal_strlit("bf");
    assert("cp"@ =~= seq!['c', 'p']);
    assert("ek"@ =~= seq!['e', 'k']);
    assert("bf"@ =~= seq!['b', 'f']);
}

/// A field without an equals sign says nothing.
pub proof fn law_bare_field(field: Seq<char>)
    requires
        !field.contains('='),
        !field.contains('&'),
    ensures
        params_of(field) == (ParamsView { cp: None, ek: None, bf: None }),
{
    law_cut(field, '=');
    lemma_single_piece(field);
}

/// What a region of one field says.
proof fn lemma_single_piece(field: Seq<char>)
    requires
        !field.contains('&'),
    ensures
        params_of(field) == (ParamsView {
            cp: field_number(field, "cp"@),
            ek: field_value(field, "ek"@),
            bf: field_number(field, "bf"@),
        }),
{
    law_cut(field, '&');
    let one = pieces(field, '&');
    assert(one =~= seq![field]);
    assert(one.drop_last() =~= seq![]);
    reveal_with_fuel(last_value, 2);
    reveal_with_fuel(last_number, 2);
}

/// A `DecryptionParams` stands for its fields.
pub proof fn law_params_view(params: DecryptionParams)
    ensures
        params@.cp == params.cp,
        params@.bf == params.bf,
        params@.ek is Some <==> params.ek is Some,
        params.ek matches Some(ek) ==> params@.ek == Some(ek@),
{
}

} // verus!
