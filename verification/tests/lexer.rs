use pyre::io::pbrt::lexer::{is_ident_body, is_ident_start, is_number_body, is_number_start};
use pyre::io::pbrt::lexer::{tokenize, LexError, Token};

#[test]
fn tokenizes_lookat() {
    let src = "LookAt 3 4 1.5 .5 .5 0 0 0 1";
    let toks = tokenize(src).unwrap();
    assert!(matches!(toks[0].token, Token::Identifier(ref s) if s == "LookAt"));
    assert_eq!(toks.len(), 10);
}

#[test]
fn tokenizes_parameter_pair() {
    let toks = tokenize(r#"Camera "perspective" "float fov" [39]"#).unwrap();
    assert!(matches!(toks[0].token, Token::Identifier(ref s) if s == "Camera"));
    assert!(matches!(toks[1].token, Token::String(ref s) if s == "perspective"));
    assert!(matches!(toks[2].token, Token::String(ref s) if s == "float fov"));
    assert!(matches!(toks[3].token, Token::LBracket));
    assert!(matches!(toks[4].token, Token::Integer(39)));
    assert!(matches!(toks[5].token, Token::RBracket));
}

#[test]
fn skips_comments() {
    let toks = tokenize("# only a comment\nLookAt 1 2 3 0 0 0 0 1 0").unwrap();
    assert!(matches!(toks[0].token, Token::Identifier(ref s) if s == "LookAt"));
}

#[test]
fn positions_count_lines_and_byte_columns() {
    let toks = tokenize("A\n  B # c\n\t[ ]").unwrap();
    assert_eq!(toks.len(), 4);
    assert_eq!((toks[0].pos.line, toks[0].pos.col), (1, 1));
    assert_eq!((toks[1].pos.line, toks[1].pos.col), (2, 3));
    assert_eq!((toks[2].pos.line, toks[2].pos.col), (3, 2));
    assert_eq!((toks[3].pos.line, toks[3].pos.col), (3, 4));
    assert_eq!(toks[3].pos.describe(), "line 3, col 4");
}

#[test]
fn float_lexemes_keep_their_text() {
    let toks = tokenize("1.5 .5 -2e3 +7 -0 1E-2").unwrap();
    assert!(matches!(toks[0].token, Token::Float(ref s) if s == "1.5"));
    assert!(matches!(toks[1].token, Token::Float(ref s) if s == ".5"));
    assert!(matches!(toks[2].token, Token::Float(ref s) if s == "-2e3"));
    assert!(matches!(toks[3].token, Token::Integer(7)));
    assert!(matches!(toks[4].token, Token::Integer(0)));
    assert!(matches!(toks[5].token, Token::Float(ref s) if s == "1E-2"));
}

#[test]
fn integers_beyond_i64_become_floats() {
    let toks = tokenize("9223372036854775807 9223372036854775808 -9223372036854775808").unwrap();
    assert!(matches!(toks[0].token, Token::Integer(i64::MAX)));
    assert!(matches!(toks[1].token, Token::Float(ref s) if s == "9223372036854775808"));
    assert!(matches!(toks[2].token, Token::Integer(i64::MIN)));
}

#[test]
fn invalid_numbers_are_reported() {
    match tokenize("Shape 1-2") {
        Err(LexError::InvalidNumber { pos, text }) => {
            assert_eq!(text, "1-2");
            assert_eq!((pos.line, pos.col), (1, 7));
        }
        other => panic!("got {other:?}"),
    }
    assert!(matches!(tokenize("-"), Err(LexError::InvalidNumber { .. })));
    assert!(matches!(tokenize("1e"), Err(LexError::InvalidNumber { .. })));
    assert!(matches!(tokenize("."), Err(LexError::InvalidNumber { .. })));
}

#[test]
fn unterminated_strings_are_reported() {
    assert!(matches!(
        tokenize("Camera \"persp"),
        Err(LexError::UnterminatedString { pos }) if pos.col == 8
    ));
    assert!(matches!(
        tokenize("Camera \"persp\nective\""),
        Err(LexError::UnterminatedString { pos }) if pos.line == 1
    ));
}

#[test]
fn unexpected_characters_are_reported() {
    match tokenize("LookAt @") {
        Err(LexError::UnexpectedChar { pos, ch }) => {
            assert_eq!(ch, '@');
            assert_eq!(pos.col, 8);
        }
        other => panic!("got {other:?}"),
    }
}

#[test]
fn strings_keep_unicode_text() {
    let toks = tokenize("Texture \"déjà vu\" x_1").unwrap();
    assert!(matches!(toks[1].token, Token::String(ref s) if s == "déjà vu"));
    assert!(matches!(toks[2].token, Token::Identifier(ref s) if s == "x_1"));
}

#[test]
fn character_classes() {
    for c in b"0123456789+-." {
        assert!(is_number_start(*c) && is_number_body(*c));
    }
    assert!(is_number_body(b'e') && is_number_body(b'E'));
    assert!(!is_number_start(b'e') && !is_number_start(b'_'));
    assert!(is_ident_start(b'a') && is_ident_start(b'Z') && is_ident_start(b'_'));
    assert!(!is_ident_start(b'7') && is_ident_body(b'7'));
    assert!(!is_ident_body(b'-') && !is_ident_body(b' '));
}
