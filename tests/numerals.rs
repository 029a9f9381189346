use dcpu16::error::AsmError;
use dcpu16::numeral::{decimal, parse_num, parse_reg, word_hex};

#[test]
fn parses_hex_and_decimal() {
    assert_eq!(parse_num("0x30"), Ok(0x30));
    assert_eq!(parse_num("48"), Ok(48));
    assert_eq!(parse_num("0xFFFF"), Ok(0xFFFF));
    assert_eq!(parse_num("0xffff"), Ok(0xFFFF));
    assert_eq!(parse_num("65535"), Ok(65535));
    assert_eq!(parse_num("0"), Ok(0));
    assert_eq!(parse_num("0x0"), Ok(0));
}

#[test]
fn rendered_numerals_read_back() {
    for n in [0u32, 1, 9, 10, 0x1F, 0x20, 0x1234, 0xABCD, 0xFFFF] {
        assert_eq!(parse_num(&format!("0x{:x}", n)), Ok(n as u16));
        assert_eq!(parse_num(&format!("{}", n)), Ok(n as u16));
    }
}

#[test]
fn numerals_above_the_word_range_are_too_large() {
    for n in [0x10000u32, 70000, 0xFFFFF] {
        assert_eq!(parse_num(&format!("0x{:x}", n)), Err(AsmError::ConstantTooLarge));
        assert_eq!(parse_num(&format!("{}", n)), Err(AsmError::ConstantTooLarge));
    }
}

#[test]
fn non_numerals_are_invalid() {
    assert_eq!(parse_num(""), Err(AsmError::InvalidNumber));
    assert_eq!(parse_num("0x"), Err(AsmError::InvalidNumber));
    assert_eq!(parse_num("12a"), Err(AsmError::InvalidNumber));
    assert_eq!(parse_num("abc"), Err(AsmError::InvalidNumber));
    assert_eq!(parse_num("0xZZ"), Err(AsmError::InvalidNumber));
    assert_eq!(parse_num("999999x"), Err(AsmError::InvalidNumber));
}

#[test]
fn registers_in_fixed_order() {
    let names = ['A', 'B', 'C', 'X', 'Y', 'Z', 'I', 'J'];
    for (i, c) in names.iter().enumerate() {
        assert_eq!(parse_reg(*c), Ok(i as u16));
    }
    for c in ['a', 'D', '1', '[', 'P'] {
        assert_eq!(parse_reg(c), Err(AsmError::InvalidRegisterName));
    }
}

#[test]
fn words_render_as_four_hex_digits() {
    assert_eq!(word_hex(0x30).iter().collect::<String>(), "0030");
    assert_eq!(word_hex(0x7c01).iter().collect::<String>(), "7c01");
    assert_eq!(word_hex(0xFFFF).iter().collect::<String>(), "ffff");
    assert_eq!(decimal(0).iter().collect::<String>(), "0");
    assert_eq!(decimal(1234567).iter().collect::<String>(), "1234567");
}
