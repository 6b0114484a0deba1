use goyais_desktop::text::{
    char_is_whitespace, decimal_string, push_decimal, push_lower_hex, push_signed_decimal,
    str_is_blank, trim,
};

#[test]
fn whitespace_agrees_with_std_on_every_char() {
    let mut code: u32 = 0;
    while code <= 0x10FFFF {
        if let Some(c) = char::from_u32(code) {
            assert_eq!(char_is_whitespace(c), c.is_whitespace(), "U+{:04X}", code);
        }
        code += 1;
    }
}

#[test]
fn decimal_of_zero_is_one_digit() {
    assert_eq!(decimal_string(0), "0");
}

#[test]
fn decimal_agrees_with_to_string() {
    for n in [1u64, 9, 10, 99, 100, 8787, 8788, 1_700_000_000, u32::MAX as u64, u64::MAX] {
        assert_eq!(decimal_string(n), n.to_string());
    }
}

#[test]
fn push_decimal_appends() {
    let mut out = String::from("port ");
    push_decimal(&mut out, 8787);
    assert_eq!(out, "port 8787");
}

#[test]
fn lower_hex_agrees_with_format() {
    for n in [0u128, 1, 9, 10, 15, 16, 255, 256, 0xdead_beef, u64::MAX as u128, u128::MAX] {
        let mut out = String::new();
        push_lower_hex(&mut out, n);
        assert_eq!(out, format!("{:x}", n));
    }
}

#[test]
fn signed_decimal_agrees_with_to_string() {
    for n in [0i32, 1, -1, 9, -9, 10, -10, 137, -137, i32::MAX, i32::MIN] {
        let mut out = String::new();
        push_signed_decimal(&mut out, n);
        assert_eq!(out, n.to_string());
    }
}

#[test]
fn blank_strings() {
    assert!(str_is_blank(""));
    assert!(str_is_blank(" "));
    assert!(str_is_blank(" \t\r\n"));
    assert!(str_is_blank("\u{3000}\u{a0}"));
    assert!(!str_is_blank("a"));
    assert!(!str_is_blank("  a  "));
    assert!(!str_is_blank("\u{200b}"));
}

#[test]
fn trim_agrees_with_std() {
    for s in [
        "",
        " ",
        "a",
        " a",
        "a ",
        "  hub \n",
        "\t\tline with  inner  spaces\r\n",
        "\u{3000}wide\u{2003}",
        "   ",
        "x\u{a0}",
        "é  ",
        " \u{200b} ",
    ] {
        assert_eq!(trim(s), s.trim(), "{:?}", s);
    }
}
