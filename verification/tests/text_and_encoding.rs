use phantom_cipher::encoding::{decode_base64, decode_payload_text};
use phantom_cipher::error::DecryptError;
use phantom_cipher::text::{cut, same_bytes, same_text, starts_with};

#[test]
fn cuts_at_first_separator() {
    assert_eq!(cut("a=b=c", '='), Some(("a", "b=c")));
    assert_eq!(cut("=x", '='), Some(("", "x")));
    assert_eq!(cut("键=值", '='), Some(("键", "值")));
    assert_eq!(cut("键值", '='), None);
    assert_eq!(cut("", ':'), None);
}

#[test]
fn compares_bytes_and_text() {
    assert!(same_bytes(b"abc", b"abc"));
    assert!(!same_bytes(b"abc", b"abd"));
    assert!(!same_bytes(b"abc", b"ab"));
    assert!(starts_with(b"abc", b"ab"));
    assert!(starts_with(b"abc", b""));
    assert!(!starts_with(b"a", b"ab"));
    assert!(!starts_with(b"xbc", b"ab"));
    assert!(same_text("密", "密"));
    assert!(!same_text("密", "码"));
}

#[test]
fn decodes_canonical_base64() {
    assert_eq!(decode_base64(""), Some(vec![]));
    assert_eq!(decode_base64("TQ=="), Some(b"M".to_vec()));
    assert_eq!(decode_base64("TWE="), Some(b"Ma".to_vec()));
    assert_eq!(decode_base64("TWFu"), Some(b"Man".to_vec()));
    assert_eq!(decode_base64("+/+/AAA="), Some(vec![0xfb, 0xff, 0xbf, 0, 0]));
}

#[test]
fn refuses_other_base64() {
    for s in ["T", "TQ", "TQ=", "TWE", "TR==", "TWF=", "TWFu=", "=TWF", "TW-u", "TW_u", "TW u", "TWFuTQ", "TQ==TQ==", "密码"] {
        assert_eq!(decode_base64(s), None, "{}", s);
    }
}

#[test]
fn payload_text_ignores_outer_white_space() {
    assert_eq!(decode_payload_text("\r\n\t TWFu\u{3000}\u{a0}\n"), Ok(b"Man".to_vec()));
    assert_eq!(decode_payload_text(" \n "), Ok(vec![]));
    assert_eq!(decode_payload_text("TW\nFu"), Err(DecryptError::PayloadBase64));
    assert_eq!(decode_payload_text("\u{200b}TWFu"), Err(DecryptError::PayloadBase64));
    assert_eq!(decode_payload_text("\u{180e}TWFu"), Err(DecryptError::PayloadBase64));
}

#[test]
fn every_white_space_character_is_trimmed() {
    let spaces = [
        '\u{9}', '\u{a}', '\u{b}', '\u{c}', '\u{d}', '\u{20}', '\u{85}', '\u{a0}', '\u{1680}',
        '\u{2000}', '\u{2001}', '\u{2002}', '\u{2003}', '\u{2004}', '\u{2005}', '\u{2006}',
        '\u{2007}', '\u{2008}', '\u{2009}', '\u{200a}', '\u{2028}', '\u{2029}', '\u{202f}',
        '\u{205f}', '\u{3000}',
    ];
    for c in spaces {
        assert_eq!(decode_payload_text(&format!("{}TWFu{}", c, c)), Ok(b"Man".to_vec()));
    }
    let mut white: Vec<char> = Vec::new();
    for c in '\0'..=char::MAX {
        if c.is_whitespace() {
            white.push(c);
        }
    }
    assert_eq!(white, spaces.to_vec());
}
