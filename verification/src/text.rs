//! Text handling: splitting at an ASCII separator, trimming and UTF-8 decoding.
use vstd::prelude::*;
use vstd::utf8::*;

verus! {

/// `i` is the first position of `sep` in `s`.
pub open spec fn first_at(s: Seq<char>, sep: char, i: int) -> bool {
    &&& 0 <= i < s.len()
    &&& s[i] == sep
    &&& forall|j: int| 0 <= j < i ==> s[j] != sep
}

/// What stands before and after the first `sep` of `s`, or `None` where `s` holds none.
pub open spec fn cut_at(s: Seq<char>, sep: char) -> Option<(Seq<char>, Seq<char>)> {
    if exists|i: int| first_at(s, sep, i) {
        let i = choose|i: int| first_at(s, sep, i);
        Some((s.take(i), s.skip(i + 1)))
    } else {
        None
    }
}

/// The pieces of `s` between its separators: one more than it holds separators.
pub open spec fn pieces(s: Seq<char>, sep: char) -> Seq<Seq<char>>
    decreases s.len(),
{
    match cut_at(s, sep) {
        Some((head, tail)) => seq![head] + pieces(tail, sep),
        None => seq![s],
    }
}

/// The encoding of a character holds the ASCII byte `b` only if the character is `b` itself.
proof fn lemma_scalar_bytes(c: char, b: u8)
    requires
        b < 0x80,
    ensures
        c as u32 == b as u32 ==> encode_scalar(c as u32) == seq![b],
        c as u32 != b as u32 ==> forall|i: int|
            0 <= i < encode_scalar(c as u32).len() ==> #[trigger] encode_scalar(c as u32)[i] != b,
        encode_scalar(c as u32).len() > 0,
        c as u32 == c as int,
{
    let u = c as u32;
    assert(has_width_1_encoding(u) ==> leading_byte_width_1(u) as u32 == u) by (bit_vector);
    assert(leading_byte_width_2(u) >= 0x80 && leading_byte_width_3(u) >= 0x80
        && leading_byte_width_4(u) >= 0x80 && last_continuation_byte(u) >= 0x80
        && second_last_continuation_byte(u) >= 0x80 && third_last_continuation_byte(u) >= 0x80)
        by (bit_vector);
}

/// UTF-8 encoding distributes over concatenation.
pub proof fn lemma_encode_concat(a: Seq<char>, b: Seq<char>)
    ensures
        encode_utf8(a + b) == encode_utf8(a) + encode_utf8(b),
    decreases a.len(),
{
    if a.len() == 0 {
        assert(a + b =~= b);
        assert(encode_utf8(a) + encode_utf8(b) =~= encode_utf8(b));
    } else {
        lemma_encode_concat(a.drop_first(), b);
        assert((a + b).drop_first() =~= a.drop_first() + b);
        assert(encode_utf8(a + b) =~= encode_utf8(a) + encode_utf8(b));
    }
}

/// An ASCII byte occurs in the encoding of `s` exactly where its character occurs in `s`.
pub proof fn lemma_ascii_byte_occurs(s: Seq<char>, c: char)
    requires
        (c as u32) < 0x80,
    ensures
        s.contains(c) <==> encode_utf8(s).contains(c as u8),
    decreases s.len(),
{
    if s.len() == 0 {
        assert(encode_utf8(s) =~= seq![]);
    } else {
        let head = encode_scalar(s[0] as u32);
        let tail = s.drop_first();
        let bytes = encode_utf8(s);
        lemma_scalar_bytes(s[0], c as u8);
        lemma_ascii_byte_occurs(tail, c);
        assert(s =~= seq![s[0]] + tail);
        if s.contains(c) {
            if s[0] == c {
                assert(bytes[0] == c as u8);
            } else {
                let i = choose|i: int| 0 <= i < s.len() && s[i] == c;
                assert(tail[i - 1] == c);
                let k = choose|k: int|
                    0 <= k < encode_utf8(tail).len() && encode_utf8(tail)[k] == c as u8;
                assert(bytes[head.len() + k] == c as u8);
            }
        }
        if bytes.contains(c as u8) && s[0] != c {
            let k = choose|k: int| 0 <= k < bytes.len() && bytes[k] == c as u8;
            if k < head.len() {
                assert(bytes[k] == head[k]);
            } else {
                assert(encode_utf8(tail)[k - head.len()] == c as u8);
                assert(encode_utf8(tail).contains(c as u8));
            }
            assert(tail.contains(c));
            let i = choose|i: int| 0 <= i < tail.len() && tail[i] == c;
            assert(s[i + 1] == c);
        }
    }
}

/// Two texts with the same encoding are equal.
pub proof fn lemma_encode_injective(a: Seq<char>, b: Seq<char>)
    requires
        encode_utf8(a) == encode_utf8(b),
    ensures
        a == b,
{
    encode_utf8_decode_utf8(a);
    encode_utf8_decode_utf8(b);
}

/// `cut_at` gives back any split at a first separator.
pub proof fn lemma_cut_at(head: Seq<char>, sep: char, tail: Seq<char>)
    requires
        !head.contains(sep),
    ensures
        cut_at(head + seq![sep] + tail, sep) == Some((head, tail)),
{
    let s = head + seq![sep] + tail;
    assert forall|j: int| 0 <= j < head.len() implies s[j] != sep by {
        assert(head.contains(head[j]));
    }
    assert(first_at(s, sep, head.len() as int));
    let i = choose|i: int| first_at(s, sep, i);
    assert(i == head.len());
    assert(s.take(i) =~= head);
    assert(s.skip(i + 1) =~= tail);
}

/// A text that holds a separator holds a first one.
pub proof fn lemma_first_at(s: Seq<char>, sep: char, j: int)
    requires
        0 <= j < s.len(),
    ensures
        s[j] == sep ==> exists|i: int| first_at(s, sep, i),
    decreases j,
{
    if s[j] == sep && !first_at(s, sep, j) {
        let k = choose|k: int| 0 <= k < j && s[k] == sep;
        lemma_first_at(s, sep, k);
    }
}

/// Splits `s` at its first `sep`.
pub fn cut<'a>(s: &'a str, sep: char) -> (r: Option<(&'a str, &'a str)>)
    requires
        (sep as u32) < 0x80,
    ensures
        match r {
            Some((head, tail)) => cut_at(s@, sep) == Some((head@, tail@)),
            None => cut_at(s@, sep) is None,
        },
{
    let bytes = s.as_bytes();
    let b = sep as u8;
    let len = bytes.len();
    let mut i: usize = 0;
    while i < len && bytes[i] != b
        invariant
            i <= len,
            len == bytes@.len(),
            forall|j: int| 0 <= j < i ==> bytes@[j] != b,
        decreases len - i,
    {
        i += 1;
    }
    if i == len {
        proof {
            lemma_ascii_byte_occurs(s@, sep);
            assert forall|k: int| !first_at(s@, sep, k) by {
                if first_at(s@, sep, k) {
                    assert(s@.contains(sep));
                }
            }
        }
        None
    } else {
        proof {
            encode_utf8_valid_utf8(s@);
            is_char_boundary_iff_not_is_continuation_byte(bytes@, i as int);
        }
        let (head, rest) = s.split_at(i);
        proof {
            encode_utf8_valid_utf8(rest@);
            let rb = encode_utf8(rest@);
            assert(rb[0] == b);
            reveal_with_fuel(is_char_boundary, 2);
            assert(is_char_boundary(rb, 1));
        }
        let (mid, tail) = rest.split_at(1);
        proof {
            lemma_scalar_bytes(sep, b);
            assert(encode_utf8(seq![sep]) =~= seq![b]) by {
                reveal_with_fuel(encode_utf8, 2);
            }
            assert(encode_utf8(mid@) =~= seq![b]);
            lemma_encode_injective(mid@, seq![sep]);
            lemma_encode_concat(head@, seq![sep]);
            lemma_encode_concat(head@ + seq![sep], tail@);
            assert(encode_utf8(head@ + seq![sep] + tail@) =~= bytes@);
            lemma_encode_injective(s@, head@ + seq![sep] + tail@);
            lemma_ascii_byte_occurs(head@, sep);
            lemma_cut_at(head@, sep, tail@);
        }
        Some((head, tail))
    }
}

/// Characters with the Unicode property `White_Space`.
pub open spec fn is_white_space(c: char) -> bool {
    ||| '\u{9}' <= c <= '\u{d}'
    ||| c == '\u{20}'
    ||| c == '\u{85}'
    ||| c == '\u{a0}'
    ||| c == '\u{1680}'
    ||| '\u{2000}' <= c <= '\u{200a}'
    ||| c == '\u{2028}'
    ||| c == '\u{2029}'
    ||| c == '\u{202f}'
    ||| c == '\u{205f}'
    ||| c == '\u{3000}'
}

/// `s` without its leading white space.
pub open spec fn trimmed_start(s: Seq<char>) -> Seq<char>
    decreases s.len(),
{
    if s.len() > 0 && is_white_space(s[0]) {
        trimmed_start(s.drop_first())
    } else {
        s
    }
}

/// `s` without its trailing white space.
pub open spec fn trimmed_end(s: Seq<char>) -> Seq<char>
    decreases s.len(),
{
    if s.len() > 0 && is_white_space(s.last()) {
        trimmed_end(s.drop_last())
    } else {
        s
    }
}

/// `s` without its leading and trailing white space.
pub open spec fn trimmed(s: Seq<char>) -> Seq<char> {
    trimmed_end(trimmed_start(s))
}

/// Calls `str::trim`: removes leading and trailing characters that have the Unicode property
/// `White_Space`, and nothing else.
#[verifier::external_body]
pub(crate) fn trim(s: &str) -> (r: &str)
    ensures
        r@ == trimmed(s@),
{
    s.trim()
}

/// Calls `std::str::from_utf8`: succeeds exactly on well-formed UTF-8, and then gives the text
/// that the bytes encode.
#[verifier::external_body]
pub(crate) fn utf8_text(bytes: &[u8]) -> (r: Option<&str>)
    ensures
        match r {
            Some(s) => valid_utf8(bytes@) && s@ == decode_utf8(bytes@),
            None => !valid_utf8(bytes@),
        },
{
    std::str::from_utf8(bytes).ok()
}

/// Whether two byte strings are equal.
pub fn same_bytes(a: &[u8], b: &[u8]) -> (r: bool)
    ensures
        r == (a@ == b@),
{
    if a.len() != b.len() {
        return false;
    }
    let mut i: usize = 0;
    while i < a.len()
        invariant
            i <= a@.len(),
            a@.len() == b@.len(),
            forall|j: int| 0 <= j < i ==> a@[j] == b@[j],
        decreases a@.len() - i,
    {
        if a[i] != b[i] {
            return false;
        }
        i += 1;
    }
    assert(a@ =~= b@);
    true
}

/// Whether `data` begins with `prefix`.
pub fn starts_with(data: &[u8], prefix: &[u8]) -> (r: bool)
    ensures
        r == prefix@.is_prefix_of(data@),
{
    if data.len() < prefix.len() {
        return false;
    }
    same_bytes(vstd::slice::slice_subrange(data, 0, prefix.len()), prefix)
}

/// Whether two texts are equal.
pub fn same_text(a: &str, b: &str) -> (r: bool)
    ensures
        r == (a@ == b@),
{
    let r = same_bytes(a.as_bytes(), b.as_bytes());
    proof {
        if r {
            lemma_encode_injective(a@, b@);
        }
    }
    r
}

} // verus!
