//! The extension region of a version 2 container: `key=value` fields joined by `&`.
use crate::text::{cut, cut_at, pieces, same_text};
use vstd::prelude::*;

verus! {

/// The metadata that decryption needs.
#[derive(Debug)]
pub struct DecryptionParams {
    /// Compression: 1 for a zlib stream, anything else for none.
    pub cp: Option<u8>,
    /// The wrapped data key, in base64.
    pub ek: Option<String>,
    /// Payload format: 1 for raw bytes, anything else for base64 text.
    pub bf: Option<u8>,
}

/// What a `DecryptionParams` stands for.
pub struct ParamsView {
    pub cp: Option<u8>,
    pub ek: Option<Seq<char>>,
    pub bf: Option<u8>,
}

impl View for DecryptionParams {
    type V = ParamsView;

    open spec fn view(&self) -> ParamsView {
        ParamsView {
            cp: self.cp,
            ek: match self.ek {
                Some(s) => Some(s@),
                None => None,
            },
            bf: self.bf,
        }
    }
}

impl Default for DecryptionParams {
    fn default() -> (r: Self)
        ensures
            r@ == (ParamsView { cp: None, ek: None, bf: None }),
    {
        DecryptionParams { cp: None, ek: None, bf: None }
    }
}

/// `c` is a decimal digit.
pub open spec fn is_digit(c: char) -> bool {
    '0' <= c <= '9'
}

/// The number that a string of decimal digits denotes.
pub open spec fn decimal(s: Seq<char>) -> nat
    decreases s.len(),
{
    if s.len() == 0 {
        0
    } else {
        10 * decimal(s.drop_last()) + (s.last() as int - '0' as int) as nat
    }
}

/// `s` holds decimal digits only.
pub open spec fn all_digits(s: Seq<char>) -> bool {
    forall|i: int| 0 <= i < s.len() ==> is_digit(#[trigger] s[i])
}

/// `s` without a leading plus sign.
pub open spec fn unsigned(s: Seq<char>) -> Seq<char> {
    if s.len() > 0 && s[0] == '+' {
        s.drop_first()
    } else {
        s
    }
}

/// The byte that `s` denotes: decimal digits after an optional plus sign, at most 255.
pub open spec fn u8_numeral(s: Seq<char>) -> Option<u8> {
    let digits = unsigned(s);
    if digits.len() > 0 && all_digits(digits) && decimal(digits) <= 255 {
        Some(decimal(digits) as u8)
    } else {
        None
    }
}

/// The value of a field whose key is `key`.
pub open spec fn field_value(field: Seq<char>, key: Seq<char>) -> Option<Seq<char>> {
    match cut_at(field, '=') {
        Some((k, v)) => if k == key {
            Some(v)
        } else {
            None
        },
        None => None,
    }
}

/// The byte in a field whose key is `key` and whose value is a numeral.
pub open spec fn field_number(field: Seq<char>, key: Seq<char>) -> Option<u8> {
    match field_value(field, key) {
        Some(v) => u8_numeral(v),
        None => None,
    }
}

/// The value of the last field with the key `key`.
pub open spec fn last_value(fields: Seq<Seq<char>>, key: Seq<char>) -> Option<Seq<char>>
    decreases fields.len(),
{
    if fields.len() == 0 {
        None
    } else {
        match field_value(fields.last(), key) {
            Some(v) => Some(v),
            None => last_value(fields.drop_last(), key),
        }
    }
}

/// The byte in the last field with the key `key` whose value is a numeral.
pub open spec fn last_number(fields: Seq<Seq<char>>, key: Seq<char>) -> Option<u8>
    decreases fields.len(),
{
    if fields.len() == 0 {
        None
    } else {
        match field_number(fields.last(), key) {
            Some(v) => Some(v),
            None => last_number(fields.drop_last(), key),
        }
    }
}

/// What a list of fields says.
pub open spec fn params_of_fields(fields: Seq<Seq<char>>) -> ParamsView {
    ParamsView {
        cp: last_number(fields, "cp"@),
        ek: last_value(fields, "ek"@),
        bf: last_number(fields, "bf"@),
    }
}

/// What an extension region says.
pub open spec fn params_of(ext: Seq<char>) -> ParamsView {
    params_of_fields(pieces(ext, '&'))
}

/// A longer string of digits denotes no smaller number.
proof fn lemma_decimal_prefix(s: Seq<char>, i: int)
    requires
        0 <= i <= s.len(),
        all_digits(s),
    ensures
        decimal(s.take(i)) <= decimal(s),
    decreases s.len() - i,
{
    if i == s.len() {
        assert(s.take(i) =~= s);
    } else {
        lemma_decimal_prefix(s, i + 1);
        assert(s.take(i + 1).drop_last() =~= s.take(i));
    }
}

/// An ASCII character is its own byte.
proof fn lemma_ascii_cast(c: char)
    requires
        c <= '\u{7f}',
    ensures
        (c as u8) as int == c as int,
{
}

/// Reads a byte written in decimal.
pub fn parse_u8(s: &str) -> (r: Option<u8>)
    ensures
        r == u8_numeral(s@),
{
    let ghost digits = unsigned(s@);
    if !s.is_ascii() {
        proof {
            let k = choose|k: int| 0 <= k < s@.len() && !('\0' <= #[trigger] s@[k] <= '\u{7f}');
            if s@[0] == '+' {
                assert(digits[k - 1] == s@[k]);
            } else {
                assert(digits[k] == s@[k]);
            }
            assert(!all_digits(digits));
        }
        return None;
    }
    let bytes = s.as_bytes();
    proof {
        assert forall|j: int| 0 <= j < s@.len() implies (#[trigger] bytes@[j]) as int
            == s@[j] as int by {
            lemma_ascii_cast(s@[j]);
        }
    }
    let start: usize = if bytes.len() > 0 && bytes[0] == 43u8 {
        1
    } else {
        0
    };
    assert(digits =~= s@.skip(start as int));
    let mut i: usize = start;
    let mut value: u32 = 0;
    while i < bytes.len()
        invariant
            start <= i <= bytes@.len(),
            bytes@.len() == s@.len(),
            forall|j: int| 0 <= j < s@.len() ==> (#[trigger] bytes@[j]) as int == s@[j] as int,
            digits == s@.skip(start as int),
            digits == unsigned(s@),
            all_digits(digits.take(i - start)),
            value == decimal(digits.take(i - start)),
            value <= 255,
        decreases bytes@.len() - i,
    {
        let b = bytes[i];
        assert(digits[i - start] == s@[i as int]);
        if b < 48 || b > 57 {
            assert(!is_digit(digits[i - start]));
            return None;
        }
        let next = value * 10 + (b - 48) as u32;
        proof {
            let longer = digits.take(i - start + 1);
            assert(longer.drop_last() =~= digits.take(i - start));
            assert(longer.last() == s@[i as int]);
            assert forall|j: int| 0 <= j < longer.len() implies is_digit(#[trigger] longer[j]) by {
                if j < i - start {
                    assert(longer[j] == digits.take(i - start)[j]);
                }
            }
            if next > 255 && all_digits(digits) {
                lemma_decimal_prefix(digits, i - start + 1);
            }
        }
        if next > 255 {
            return None;
        }
        value = next;
        i += 1;
    }
    assert(digits.take(i - start) =~= digits);
    if i == start {
        return None;
    }
    Some(value as u8)
}

/// Takes one field into account.
fn apply_field(params: &mut DecryptionParams, field: &str)
    ensures
        final(params)@ == (ParamsView {
            cp: match field_number(field@, "cp"@) {
                Some(n) => Some(n),
                None => old(params)@.cp,
            },
            ek: match field_value(field@, "ek"@) {
                Some(v) => Some(v),
                None => old(params)@.ek,
            },
            bf: match field_number(field@, "bf"@) {
                Some(n) => Some(n),
                None => old(params)@.bf,
            },
        }),
{
    proof {
        reveal_strlit("cp");
        reveal_strlit("ek");
        reveal_strlit("bf");
        assert("cp"@[0] != "ek"@[0]);
        assert("cp"@[0] != "bf"@[0]);
        assert("ek"@[0] != "bf"@[0]);
    }
    if let Some((k, v)) = cut(field, '=') {
        if same_text(k, "cp") {
            if let Some(n) = parse_u8(v) {
                params.cp = Some(n);
            }
        } else if same_text(k, "bf") {
            if let Some(n) = parse_u8(v) {
                params.bf = Some(n);
            }
        } else if same_text(k, "ek") {
            params.ek = Some(v.to_owned());
        }
    }
}

/// Reads the fields of an extension region. Unknown keys, fields without `=` and numbers that do
/// not fit a byte are skipped; of several usable fields with one key the last counts.
pub fn parse_decryption_params(ext_str: &str) -> (params: DecryptionParams)
    ensures
        params@ == params_of(ext_str@),
{
    let mut params = DecryptionParams::default();
    let mut rest = ext_str;
    let ghost mut done: Seq<Seq<char>> = seq![];
    loop
        invariant
            params@ == params_of_fields(done),
            pieces(ext_str@, '&') == done + pieces(rest@, '&'),
        decreases rest@.len(),
    {
        match cut(rest, '&') {
            Some((field, tail)) => {
                apply_field(&mut params, field);
                proof {
                    let before = done;
                    done = done.push(field@);
                    assert(done.drop_last() =~= before);
                    assert(before + (seq![field@] + pieces(tail@, '&')) =~= done + pieces(tail@, '&'));
                }
                rest = tail;
            },
            None => {
                apply_field(&mut params, rest);
                proof {
                    let all = done.push(rest@);
                    assert(all.drop_last() =~= done);
                    assert(pieces(ext_str@, '&') =~= all);
                }
                return params;
            },
        }
    }
}

} // verus!
