use bdf_font::helpers::{
    ascii_to_string_lossy, comment, parse_string, parse_to_i32, parse_to_u32, skip_comments,
    statement, take_until_line_ending,
};

#[test]
fn it_takes_until_any_line_ending() {
    assert_eq!(
        take_until_line_ending(b"Unix line endings\n"),
        ("\n".as_ref(), "Unix line endings".as_ref())
    );

    assert_eq!(
        take_until_line_ending(b"Windows line endings\r\n"),
        ("\r\n".as_ref(), "Windows line endings".as_ref())
    );
}

#[test]
fn parse_statement_without_parameters() {
    assert_eq!(
        statement("KEYWORD", b"KEYWORD"),
        Some((b"".as_ref(), b"".as_ref()))
    );

    assert_eq!(
        statement("KEYWORD", b"KEYWORD\nABC"),
        Some((b"ABC".as_ref(), b"".as_ref()))
    );
}

#[test]
fn parse_statement_with_parameters() {
    let (rest, parameters) = statement("KEYWORD", b"KEYWORD param").unwrap();
    assert_eq!(rest, b"");
    assert_eq!(parse_string(parameters), (b"".as_ref(), "param".to_string()));

    let (rest, parameters) = statement("KEYWORD", b"KEYWORD    param   \nABC").unwrap();
    assert_eq!(rest, b"ABC");
    assert_eq!(parse_string(parameters), (b"".as_ref(), "param".to_string()));
}

#[test]
fn statements() {
    assert_eq!(statement("KEYWORD", b"OTHER 1\n"), None);
    assert_eq!(statement("KEYWORD", b"KEY"), None);
    assert_eq!(statement("KEYWORD", b""), None);
    assert_eq!(
        statement("SIZE", b"SIZE \t 16 75 75 \r\nNEXT"),
        Some((b"NEXT".as_ref(), b"16 75 75".as_ref()))
    );
    // whitespace of Unicode is cut off, too
    assert_eq!(
        statement("FONT", "FONT \u{a0}name\u{3000}\nNEXT".as_bytes()),
        Some((b"NEXT".as_ref(), b"name".as_ref()))
    );
    // a carriage return alone ends the parameters, but not the line
    assert_eq!(
        statement("FONT", b"FONT a\rb\n"),
        Some((b"\rb\n".as_ref(), b"a".as_ref()))
    );
    // without a space the keyword is followed by no parameters
    assert_eq!(
        statement("FONT", b"FONTS x\n"),
        Some((b"S x\n".as_ref(), b"".as_ref()))
    );
    assert_eq!(
        statement("BITMAP", b"BITMAP\r\n00\n"),
        Some((b"00\n".as_ref(), b"".as_ref()))
    );
}

#[test]
fn parse_comment() {
    assert_eq!(
        comment(b"COMMENT test text\n"),
        Some((&[] as &[u8], "test text".to_string()))
    );
}

#[test]
fn parse_empty_comment() {
    assert_eq!(comment(b"COMMENT\n"), Some((&[] as &[u8], String::new())));
}

#[test]
fn comments() {
    assert_eq!(
        comment(b"COMMENT \t one\r\nrest"),
        Some((b"rest".as_ref(), "one\r".to_string()))
    );
    assert_eq!(comment(b"COMMENT\r\nrest"), Some((b"rest".as_ref(), String::new())));
    assert_eq!(comment(b"COMMENT  \nrest"), Some((b"rest".as_ref(), String::new())));
    assert_eq!(
        comment("COMMENT \u{e9}t\u{e9}\n".as_bytes()),
        Some((b"".as_ref(), "\u{e9}t\u{e9}".to_string()))
    );
    // no end of line
    assert_eq!(comment(b"COMMENT text"), None);
    assert_eq!(comment(b"COMMENT"), None);
    // no space behind the keyword
    assert_eq!(comment(b"COMMENTS\n"), None);
    assert_eq!(comment(b"COMMEN\n"), None);
    assert_eq!(comment(b" COMMENT\n"), None);
    // no valid UTF-8
    assert_eq!(comment(b"COMMENT a\xffb\n"), None);
}

#[test]
fn skipped_comments() {
    assert_eq!(skip_comments(b"FONT x\n"), b"FONT x\n");
    assert_eq!(skip_comments(b"COMMENT a\nCOMMENT\nCOMMENT b\r\nFONT x\n"), b"FONT x\n");
    assert_eq!(skip_comments(b"COMMENT a\nCOMMENT b"), b"COMMENT b");
    assert_eq!(skip_comments(b""), b"");
}

#[test]
fn parse_string_ascii() {
    assert_eq!(
        parse_string(b"Test\n"),
        (b"\n".as_ref(), "Test".to_string())
    );
}

#[test]
fn parse_string_invalid_ascii() {
    assert_eq!(
        parse_string(b"Abc\x80\n"),
        (b"\n".as_ref(), "Abc\u{FFFD}".to_string())
    );
}

#[test]
fn lossy_strings() {
    assert_eq!(ascii_to_string_lossy(b""), "");
    assert_eq!(ascii_to_string_lossy(b"\x00\x7f\x80\xff"), "\u{0}\u{7f}\u{fffd}\u{fffd}");
    assert_eq!(ascii_to_string_lossy("\u{e9}".as_bytes()), "\u{fffd}\u{fffd}");
}

#[test]
fn signed_integers() {
    assert_eq!(parse_to_i32(b"123"), Some((b"".as_ref(), 123)));
    assert_eq!(parse_to_i32(b"-123 4"), Some((b" 4".as_ref(), -123)));
    assert_eq!(parse_to_i32(b"+7x"), Some((b"x".as_ref(), 7)));
    assert_eq!(parse_to_i32(b"007"), Some((b"".as_ref(), 7)));
    assert_eq!(parse_to_i32(b"2147483647"), Some((b"".as_ref(), i32::MAX)));
    assert_eq!(parse_to_i32(b"-2147483648"), Some((b"".as_ref(), i32::MIN)));
    assert_eq!(parse_to_i32(b"2147483648"), None);
    assert_eq!(parse_to_i32(b"-2147483649"), None);
    assert_eq!(parse_to_i32(b""), None);
    assert_eq!(parse_to_i32(b"-"), None);
    assert_eq!(parse_to_i32(b"+ 1"), None);
    assert_eq!(parse_to_i32(b" 1"), None);
    assert_eq!(parse_to_i32(b"x1"), None);
    assert_eq!(parse_to_i32(b"--1"), None);
    assert_eq!(parse_to_i32(b"1-1"), Some((b"-1".as_ref(), 1)));
}

#[test]
fn unsigned_integers() {
    assert_eq!(parse_to_u32(b"123"), Some((b"".as_ref(), 123)));
    assert_eq!(parse_to_u32(b"0 1"), Some((b" 1".as_ref(), 0)));
    assert_eq!(parse_to_u32(b"4294967295"), Some((b"".as_ref(), u32::MAX)));
    assert_eq!(parse_to_u32(b"4294967296"), None);
    assert_eq!(parse_to_u32(b"+1"), None);
    assert_eq!(parse_to_u32(b"-1"), None);
    assert_eq!(parse_to_u32(b""), None);
    assert_eq!(parse_to_u32(b"a"), None);
}
