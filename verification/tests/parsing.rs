use hexsaly::card::{get_card, parse_card_offset, printable_char, Card, CardError};
use hexsaly::hex::{
    hex_digit, parse_byte_token, parse_hex_bytes, parse_hex_number, parse_number, parse_offset,
    render_byte,
};
use hexsaly::pattern::{find_pattern, parse_pattern, pattern_fits, PatternToken};
use hexsaly::symbols::{
    offset_from_capture, read_annotation, SymbolLookup, DIGITS_GROUP, OFFSET_ANNOTATION,
};
use hexsaly::text::{contains, matches_at, next_word, text_chars, whitespace};

fn chars(s: &str) -> Vec<char> {
    s.chars().collect()
}

#[test]
fn text_chars_lists_every_character() {
    assert_eq!(text_chars(""), Vec::<char>::new());
    assert_eq!(text_chars("a ß→"), vec!['a', ' ', 'ß', '→']);
}

#[test]
fn whitespace_agrees_with_the_standard_library() {
    for n in 0u32..=0x11_0000 {
        if let Some(c) = char::from_u32(n) {
            assert_eq!(whitespace(c), c.is_whitespace(), "code point {:X}", n);
        }
    }
}

#[test]
fn next_word_walks_through_the_words() {
    let s = chars("  90\t??  EC\n");
    assert_eq!(next_word(&s, 0), Some((2, 4)));
    assert_eq!(next_word(&s, 3), Some((3, 4)));
    assert_eq!(next_word(&s, 4), Some((5, 7)));
    assert_eq!(next_word(&s, 7), Some((9, 11)));
    assert_eq!(next_word(&s, 11), None);
    assert_eq!(next_word(&s, 12), None);
    assert_eq!(next_word(&chars(""), 0), None);
    let s = chars("a\u{2003}b\u{a0}c");
    assert_eq!(next_word(&s, 0), Some((0, 1)));
    assert_eq!(next_word(&s, 1), Some((2, 3)));
    assert_eq!(next_word(&s, 3), Some((4, 5)));
}

#[test]
fn words_agree_with_the_standard_library() {
    for text in ["", " ", "90 90", "  a\tbc \u{3000} d  ", "x", "\n\nxy\r\nz"] {
        let s = chars(text);
        let mut found = Vec::new();
        let mut pos = 0;
        while let Some((a, b)) = next_word(&s, pos) {
            found.push(s[a..b].iter().collect::<String>());
            pos = b;
        }
        let expected: Vec<String> = text.split_whitespace().map(|w| w.to_string()).collect();
        assert_eq!(found, expected);
    }
}

#[test]
fn contains_finds_contiguous_parts_only() {
    assert!(contains(&chars("void Foo()"), &chars("Foo")));
    assert!(contains(&chars("void Foo()"), &chars("")));
    assert!(contains(&chars(""), &chars("")));
    assert!(contains(&chars("Foo"), &chars("Foo")));
    assert!(contains(&chars("aab"), &chars("ab")));
    assert!(!contains(&chars("void F oo()"), &chars("Foo")));
    assert!(!contains(&chars("Fo"), &chars("Foo")));
    assert!(!contains(&chars(""), &chars("a")));
    assert!(matches_at(&chars("abc"), &chars("bc"), 1));
    assert!(!matches_at(&chars("abc"), &chars("bc"), 0));
    assert!(matches_at(&chars("abc"), &chars(""), 3));
}

#[test]
fn hex_digit_reads_both_cases() {
    assert_eq!(hex_digit('0'), Some(0));
    assert_eq!(hex_digit('9'), Some(9));
    assert_eq!(hex_digit('a'), Some(10));
    assert_eq!(hex_digit('F'), Some(15));
    assert_eq!(hex_digit('g'), None);
    assert_eq!(hex_digit('G'), None);
    assert_eq!(hex_digit('/'), None);
    assert_eq!(hex_digit(':'), None);
    assert_eq!(hex_digit('@'), None);
    assert_eq!(hex_digit('`'), None);
    assert_eq!(hex_digit('٣'), None);
}

#[test]
fn byte_tokens_have_exactly_two_digits() {
    let s = chars("9 90 090 fF g0");
    assert_eq!(parse_byte_token(&s, 0, 1), None);
    assert_eq!(parse_byte_token(&s, 2, 4), Some(0x90));
    assert_eq!(parse_byte_token(&s, 5, 8), None);
    assert_eq!(parse_byte_token(&s, 9, 11), Some(0xFF));
    assert_eq!(parse_byte_token(&s, 12, 14), None);
    assert_eq!(parse_byte_token(&s, 3, 3), None);
}

#[test]
fn hex_bytes_are_read_token_by_token() {
    assert_eq!(parse_hex_bytes("90 90 EC 04"), Some(vec![0x90, 0x90, 0xEC, 0x04]));
    assert_eq!(parse_hex_bytes("  de\tAD\nbe  ef "), Some(vec![0xDE, 0xAD, 0xBE, 0xEF]));
    assert_eq!(parse_hex_bytes(""), Some(vec![]));
    assert_eq!(parse_hex_bytes(" \t"), Some(vec![]));
    assert_eq!(parse_hex_bytes("00"), Some(vec![0]));
    assert_eq!(parse_hex_bytes("9090"), None);
    assert_eq!(parse_hex_bytes("90 ?? 90"), None);
    assert_eq!(parse_hex_bytes("90 +9"), None);
    assert_eq!(parse_hex_bytes("90,90"), None);
}

#[test]
fn every_byte_renders_to_the_token_that_spells_it() {
    for b in 0u8..=255 {
        let (hi, lo) = render_byte(b);
        assert_eq!(format!("{}{}", hi, lo), format!("{:02X}", b));
        assert_eq!(parse_hex_bytes(&format!("{}{}", hi, lo)), Some(vec![b]));
    }
}

#[test]
fn numbers_are_read_in_their_base() {
    assert_eq!(parse_hex_number(&chars("1A2B"), 0), Some(0x1A2B));
    assert_eq!(parse_hex_number(&chars("0x1A2B"), 2), Some(0x1A2B));
    assert_eq!(parse_hex_number(&chars("0x"), 2), None);
    assert_eq!(parse_hex_number(&chars("12 "), 0), None);
    assert_eq!(parse_number(&chars("0123"), 0, 10), Some(123));
    assert_eq!(parse_number(&chars("12a"), 0, 10), None);
    assert_eq!(parse_number(&chars("101"), 0, 2), Some(5));
    assert_eq!(parse_number(&chars("102"), 0, 2), None);
    assert_eq!(parse_number(&chars("777"), 1, 8), Some(0o77));
}

#[test]
fn numbers_that_do_not_fit_are_refused() {
    let max = format!("{:X}", usize::MAX);
    assert_eq!(parse_hex_number(&chars(&max), 0), Some(usize::MAX));
    assert_eq!(parse_hex_number(&chars(&format!("000{}", max)), 0), Some(usize::MAX));
    assert_eq!(parse_hex_number(&chars(&format!("{}0", max)), 0), None);
    assert_eq!(parse_hex_number(&chars(&format!("1{}", max)), 0), None);
    let max = format!("{}", usize::MAX);
    assert_eq!(parse_number(&chars(&max), 0, 10), Some(usize::MAX));
    let over = format!("{}", usize::MAX as u128 + 1);
    assert_eq!(parse_number(&chars(&over), 0, 10), None);
}

#[test]
fn literal_offsets_take_one_optional_prefix() {
    assert_eq!(parse_offset("0x1A2B"), Some(0x1A2B));
    assert_eq!(parse_offset("1A2B"), Some(0x1A2B));
    assert_eq!(parse_offset("0x04"), Some(4));
    assert_eq!(parse_offset("0"), Some(0));
    assert_eq!(parse_offset("0x"), None);
    assert_eq!(parse_offset(""), None);
    assert_eq!(parse_offset("x10"), None);
    assert_eq!(parse_offset("0x0x10"), None);
    assert_eq!(parse_offset("0X10"), None);
    assert_eq!(parse_offset("-1"), None);
}

#[test]
fn patterns_are_read_token_by_token() {
    assert_eq!(
        parse_pattern("90 ?? 9 ? zz 0a"),
        vec![
            PatternToken::Byte(0x90),
            PatternToken::Any,
            PatternToken::Malformed,
            PatternToken::Malformed,
            PatternToken::Malformed,
            PatternToken::Byte(0x0A),
        ]
    );
    assert_eq!(parse_pattern(" "), vec![]);
}

#[test]
fn pattern_fits_checks_each_position() {
    let pattern = vec![PatternToken::Byte(1), PatternToken::Any, PatternToken::Byte(3)];
    assert!(pattern_fits(&[1, 9, 3, 4], &pattern, 0));
    assert!(!pattern_fits(&[1, 9, 3, 4], &pattern, 1));
    assert!(!pattern_fits(&[1, 9, 4], &pattern, 0));
    assert_eq!(find_pattern(&[0, 1, 2, 3, 1, 5, 3], &pattern), Some(1));
    assert_eq!(find_pattern(&[1, 2], &pattern), None);
    assert_eq!(find_pattern(&[5, 5, 1, 0, 3], &pattern), Some(2));
    assert_eq!(find_pattern(&[1, 2, 3], &vec![PatternToken::Malformed]), None);
}

#[test]
fn captured_digits_become_an_offset() {
    assert_eq!(offset_from_capture(&Some("1000".to_string())), SymbolLookup::Found(0x1000));
    assert_eq!(offset_from_capture(&Some("aBc".to_string())), SymbolLookup::Found(0xABC));
    assert_eq!(offset_from_capture(&Some("".to_string())), SymbolLookup::Unannotated);
    assert_eq!(offset_from_capture(&Some("Offset: 0x10".to_string())), SymbolLookup::Unannotated);
    assert_eq!(
        offset_from_capture(&Some("FFFFFFFFFFFFFFFFFFFFFFFFFFFFFFFFF".to_string())),
        SymbolLookup::Unannotated
    );
    assert_eq!(offset_from_capture(&None), SymbolLookup::Unannotated);
}

#[test]
fn annotations_are_found_anywhere_in_the_line() {
    assert_eq!(read_annotation("Offset: 0x1000"), SymbolLookup::Found(0x1000));
    assert_eq!(
        read_annotation("\t// RVA: 0x1A2B30 Offset: 0x1A1B30 VA: 0x181A2B30"),
        SymbolLookup::Found(0x1A1B30)
    );
    assert_eq!(read_annotation("Offset: 0x12G4"), SymbolLookup::Found(0x12));
    assert_eq!(read_annotation("Offset: 0xZ Offset:  0xff"), SymbolLookup::Found(0xFF));
    assert_eq!(read_annotation("offset: 0x1000"), SymbolLookup::Unannotated);
    assert_eq!(read_annotation("Offset: 0X1000"), SymbolLookup::Unannotated);
    assert_eq!(read_annotation("Offset: 1000"), SymbolLookup::Unannotated);
    assert_eq!(read_annotation("Offset: 0x"), SymbolLookup::Unannotated);
    assert_eq!(read_annotation(""), SymbolLookup::Unannotated);
}

#[test]
fn annotation_pattern_is_a_valid_expression() {
    let compiled = regex::Regex::new(OFFSET_ANNOTATION).expect("the pattern compiles");
    assert_eq!(compiled.captures_len(), DIGITS_GROUP + 1);
}

#[test]
fn card_offsets_are_hexadecimal_or_decimal() {
    assert_eq!(parse_card_offset("0x1f"), Some(0x1F));
    assert_eq!(parse_card_offset("0X1F"), Some(0x1F));
    assert_eq!(parse_card_offset("31"), Some(31));
    assert_eq!(parse_card_offset("+31"), Some(31));
    assert_eq!(parse_card_offset("0x+1f"), Some(0x1F));
    assert_eq!(parse_card_offset("1f"), None);
    assert_eq!(parse_card_offset("0x"), None);
    assert_eq!(parse_card_offset("+"), None);
    assert_eq!(parse_card_offset("++1"), None);
    assert_eq!(parse_card_offset("-1"), None);
    assert_eq!(parse_card_offset(""), None);
    assert_eq!(parse_card_offset(" 1"), None);
}

#[test]
fn card_is_cut_off_at_the_end() {
    let buffer = [10u8, 11, 12, 13, 14];
    assert_eq!(get_card(&buffer, "1", 2), Ok(Card { offset: 1, bytes: vec![11, 12] }));
    assert_eq!(get_card(&buffer, "0x3", 9), Ok(Card { offset: 3, bytes: vec![13, 14] }));
    assert_eq!(get_card(&buffer, "4", usize::MAX), Ok(Card { offset: 4, bytes: vec![14] }));
    assert_eq!(get_card(&buffer, "0", 0), Ok(Card { offset: 0, bytes: vec![] }));
    assert_eq!(get_card(&buffer, "5", 1), Err(CardError::BeyondEnd { offset: 5 }));
    assert_eq!(get_card(&[], "0", 1), Err(CardError::BeyondEnd { offset: 0 }));
    assert_eq!(get_card(&buffer, "five", 1), Err(CardError::OffsetSyntax));
}

#[test]
fn printable_bytes_show_as_themselves() {
    assert_eq!(printable_char(b'A'), Some('A'));
    assert_eq!(printable_char(b' '), Some(' '));
    assert_eq!(printable_char(b'~'), Some('~'));
    assert_eq!(printable_char(0x1F), None);
    assert_eq!(printable_char(0x7F), None);
    assert_eq!(printable_char(0x80), None);
    for b in 0u8..=255 {
        let expected = if b.is_ascii() && !b.is_ascii_control() { Some(b as char) } else { None };
        assert_eq!(printable_char(b), expected);
    }
}
