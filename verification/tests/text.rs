use putlang::text::{decode_escapes, render_decimal};
use putlang::words::{
    copy_bytes, copy_tags, ends_word, parse_number, read_fixed, read_tag, read_word, same_bytes,
    spells, Word,
};
use putlang::lexer::{Arithmetic, OpCodes, Types};

fn bytes(text: &str) -> Vec<u8> {
    text.as_bytes().to_vec()
}

#[test]
fn numbers_are_rendered_in_decimal() {
    assert_eq!(render_decimal(0), b"0".to_vec());
    assert_eq!(render_decimal(7), b"7".to_vec());
    assert_eq!(render_decimal(10), b"10".to_vec());
    assert_eq!(render_decimal(1203), b"1203".to_vec());
    assert_eq!(render_decimal(u64::MAX), b"18446744073709551615".to_vec());
}

#[test]
fn a_literal_without_a_backslash_stands_for_itself() {
    assert_eq!(decode_escapes(&bytes("")), bytes(""));
    assert_eq!(decode_escapes(&bytes("hello, world")), bytes("hello, world"));
    assert_eq!(decode_escapes(&bytes("n \" n")), bytes("n \" n"));
}

#[test]
fn the_two_escapes_are_resolved() {
    assert_eq!(decode_escapes(&bytes("a\\nb")), bytes("a\nb"));
    assert_eq!(decode_escapes(&bytes("a\\\\b")), bytes("a\\b"));
    assert_eq!(decode_escapes(&bytes("\\n\\n")), bytes("\n\n"));
    assert_eq!(decode_escapes(&bytes("\\\\n")), bytes("\\n"));
    assert_eq!(decode_escapes(&bytes("\\\\\\n")), bytes("\\\n"));
    assert_eq!(decode_escapes(&bytes("\\n\\\\")), bytes("\n\\"));
}

#[test]
fn any_other_escape_stands_for_nothing() {
    assert_eq!(decode_escapes(&bytes("a\\tb")), bytes("ab"));
    assert_eq!(decode_escapes(&bytes("\\\"")), bytes(""));
    assert_eq!(decode_escapes(&bytes("x\\0y\\ z")), bytes("xyz"));
    assert_eq!(decode_escapes(&bytes("\\tn")), bytes("n"));
}

#[test]
fn a_backslash_at_the_end_stands_for_nothing() {
    assert_eq!(decode_escapes(&bytes("ab\\")), bytes("ab"));
    assert_eq!(decode_escapes(&bytes("\\")), bytes(""));
    assert_eq!(decode_escapes(&bytes("\\\\\\")), bytes("\\"));
}

#[test]
fn only_space_and_line_feed_end_a_word() {
    assert!(ends_word(b' '));
    assert!(ends_word(b'\n'));
    assert!(!ends_word(b'\t'));
    assert!(!ends_word(b'\r'));
    assert!(!ends_word(0));
    assert!(!ends_word(b'a'));
}

#[test]
fn byte_strings_are_compared_whole() {
    assert!(same_bytes(b"", b""));
    assert!(same_bytes(b"abc", b"abc"));
    assert!(!same_bytes(b"abc", b"abd"));
    assert!(!same_bytes(b"abc", b"ab"));
    assert!(!same_bytes(b"", b"a"));
    assert!(spells(&bytes("if"), "if"));
    assert!(!spells(&bytes("if"), "iff"));
    assert!(!spells(&bytes("If"), "if"));
}

#[test]
fn copies_are_equal() {
    assert_eq!(copy_bytes(&bytes("")), bytes(""));
    assert_eq!(copy_bytes(&bytes("abc")), bytes("abc"));
    assert_eq!(copy_tags(&vec![]), vec![]);
    assert_eq!(
        copy_tags(&vec![Types::Int, Types::Bool, Types::Unknown]),
        vec![Types::Int, Types::Bool, Types::Unknown]
    );
}

#[test]
fn digits_are_a_number() {
    assert_eq!(parse_number(&bytes("0")), Some(0));
    assert_eq!(parse_number(&bytes("42")), Some(42));
    assert_eq!(parse_number(&bytes("0042")), Some(42));
    assert_eq!(parse_number(&bytes("+42")), Some(42));
    assert_eq!(parse_number(&bytes("+0")), Some(0));
    assert_eq!(parse_number(&bytes("18446744073709551615")), Some(u64::MAX));
    assert_eq!(parse_number(&bytes("+18446744073709551615")), Some(u64::MAX));
    assert_eq!(
        parse_number(&bytes("000000000000000000000000018446744073709551615")),
        Some(u64::MAX)
    );
}

#[test]
fn anything_else_is_no_number() {
    assert_eq!(parse_number(&bytes("")), None);
    assert_eq!(parse_number(&bytes("+")), None);
    assert_eq!(parse_number(&bytes("-1")), None);
    assert_eq!(parse_number(&bytes("++1")), None);
    assert_eq!(parse_number(&bytes("1+")), None);
    assert_eq!(parse_number(&bytes("12a")), None);
    assert_eq!(parse_number(&bytes("a12")), None);
    assert_eq!(parse_number(&bytes(" 1")), None);
    assert_eq!(parse_number(&bytes("1_000")), None);
    assert_eq!(parse_number(&bytes("0x10")), None);
    assert_eq!(parse_number(&bytes("18446744073709551616")), None);
    assert_eq!(parse_number(&bytes("18446744073709551620")), None);
    assert_eq!(parse_number(&bytes("99999999999999999999")), None);
    assert_eq!(parse_number(&bytes("184467440737095516150")), None);
    assert_eq!(parse_number(&bytes("18446744073709551616x")), None);
}

#[test]
fn header_words_are_tags() {
    assert_eq!(read_tag(&bytes("int")), Types::Int);
    assert_eq!(read_tag(&bytes("bool")), Types::Bool);
    assert_eq!(read_tag(&bytes("ptr")), Types::Pointer);
    assert_eq!(read_tag(&bytes("")), Types::Int);
    assert_eq!(read_tag(&bytes("string")), Types::Int);
    assert_eq!(read_tag(&bytes("Bool")), Types::Int);
}

#[test]
fn fixed_words_are_read() {
    assert_eq!(
        read_fixed(&bytes("+")),
        Some(OpCodes::Arithmetic(Arithmetic::Plus))
    );
    assert_eq!(read_fixed(&bytes("(bool)")), Some(OpCodes::Cast(Types::Bool)));
    assert_eq!(read_fixed(&bytes("if")), None);
    assert_eq!(read_fixed(&bytes("1")), None);
    assert_eq!(read_fixed(&bytes("")), None);
    assert_eq!(read_fixed(&bytes("DUP")), None);
}

#[test]
fn words_are_classified() {
    assert!(matches!(read_word(&bytes("if")), Word::If));
    assert!(matches!(read_word(&bytes("end")), Word::End));
    assert!(matches!(read_word(&bytes("use")), Word::Use));
    assert!(matches!(read_word(&bytes("proc")), Word::Proc));
    assert!(matches!(read_word(&bytes("goto")), Word::Goto));
    assert!(matches!(read_word(&bytes("dup")), Word::Emit(OpCodes::Dup)));
    assert!(matches!(
        read_word(&bytes("12")),
        Word::Emit(OpCodes::Push(Types::Int, 12, _))
    ));
    match read_word(&bytes("a:")) {
        Word::Label(name) => assert_eq!(name, bytes("a:")),
        _ => panic!("not a label"),
    }
    match read_word(&bytes("12:")) {
        Word::Label(name) => assert_eq!(name, bytes("12:")),
        _ => panic!("not a label"),
    }
    match read_word(&bytes(":")) {
        Word::Emit(OpCodes::Ident(name)) => assert_eq!(name, bytes(":")),
        _ => panic!("not a name"),
    }
    match read_word(&bytes("main")) {
        Word::Emit(OpCodes::Ident(name)) => assert_eq!(name, bytes("main")),
        _ => panic!("not a name"),
    }
    match read_word(&bytes("a:b")) {
        Word::Emit(OpCodes::Ident(name)) => assert_eq!(name, bytes("a:b")),
        _ => panic!("not a name"),
    }
}

#[test]
fn a_printed_number_reads_back() {
    for n in [0u64, 1, 9, 10, 99, 100, 12345, 1 << 32, u64::MAX - 1, u64::MAX] {
        assert_eq!(parse_number(&render_decimal(n)), Some(n));
    }
}
