use phantom_cipher::params::{parse_decryption_params, parse_u8, DecryptionParams};

fn parts(ext: &str) -> (Option<u8>, Option<String>, Option<u8>) {
    let p: DecryptionParams = parse_decryption_params(ext);
    (p.cp, p.ek, p.bf)
}

#[test]
fn empty_region_has_no_params() {
    assert_eq!(parts(""), (None, None, None));
    let d = DecryptionParams::default();
    assert_eq!((d.cp, d.ek, d.bf), (None, None, None));
}

#[test]
fn reads_all_fields() {
    assert_eq!(
        parts("v=2&cp=1&ek=QUJD&bf=1&name=x"),
        (Some(1), Some("QUJD".to_string()), Some(1))
    );
}

#[test]
fn value_keeps_later_equal_signs() {
    assert_eq!(parts("ek=QQ==").1, Some("QQ==".to_string()));
    assert_eq!(parts("ek=").1, Some(String::new()));
}

#[test]
fn last_usable_field_counts() {
    assert_eq!(parts("cp=1&cp=0").0, Some(0));
    assert_eq!(parts("cp=1&cp=x").0, Some(1));
    assert_eq!(parts("cp=1&cp=256").0, Some(1));
    assert_eq!(parts("bf=0&bf=1&bf").2, Some(1));
    assert_eq!(parts("ek=a&ek=b&ek=").1, Some(String::new()));
}

#[test]
fn useless_fields_are_skipped() {
    assert_eq!(parts("&&cp&=1&CP=1& cp=1&cpx=1&bf =1&=&"), (None, None, None));
    assert_eq!(parts("键=值&cp=7&ek=密钥").0, Some(7));
    assert_eq!(parts("键=值&cp=7&ek=密钥").1, Some("密钥".to_string()));
}

#[test]
fn numerals() {
    assert_eq!(parse_u8("0"), Some(0));
    assert_eq!(parse_u8("255"), Some(255));
    assert_eq!(parse_u8("256"), None);
    assert_eq!(parse_u8("99999999999999999999999999"), None);
    assert_eq!(parse_u8("000000000000000000000000012"), Some(12));
    assert_eq!(parse_u8("+7"), Some(7));
    assert_eq!(parse_u8("+"), None);
    assert_eq!(parse_u8("++7"), None);
    assert_eq!(parse_u8("-0"), None);
    assert_eq!(parse_u8(""), None);
    assert_eq!(parse_u8(" 1"), None);
    assert_eq!(parse_u8("1 "), None);
    assert_eq!(parse_u8("٣"), None);
    assert_eq!(parse_u8("1٣"), None);
}

#[test]
fn numerals_agree_with_the_standard_library() {
    for s in ["", "+", "-", "1", "01", "+01", "254", "255", "256", "300", "1e1", "0x1", "１", "-1", "2_0"] {
        assert_eq!(parse_u8(s), s.parse::<u8>().ok(), "{}", s);
    }
}
