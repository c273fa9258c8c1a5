use rainbow_core::frontend::{lex, Token, TokenKind};

fn assert_lex(input: &str, expected: Vec<(TokenKind, usize, usize)>) {
    let mut actual = lex(input);
    for (kind, start_pos, end_pos) in expected {
        let e = Token { input, kind, start_pos, end_pos };
        let a = actual.next();
        assert_eq!(Some(e), a);
    }
}

#[test]
fn test_literals() {
    assert_lex(
        "1 \"foo\" 1.24 true false",
        vec![
            (TokenKind::Number, 0, 1),
            (TokenKind::String, 2, 7),
            (TokenKind::Number, 8, 12),
            (TokenKind::Bool, 13, 17),
            (TokenKind::Bool, 18, 23),
        ],
    );
}

#[test]
fn test_func_list_and_block() {
    assert_lex(
        "each: [1 2 3] do: {x=> calc: x times: 2}",
        vec![
            (TokenKind::Ident, 0, 4),
            (TokenKind::Colon, 4, 5),
            (TokenKind::LSquare, 6, 7),
            (TokenKind::Number, 7, 8),
            (TokenKind::Number, 9, 10),
            (TokenKind::Number, 11, 12),
            (TokenKind::RSquare, 12, 13),
            (TokenKind::Ident, 14, 16),
            (TokenKind::Colon, 16, 17),
            (TokenKind::LCurly, 18, 19),
            (TokenKind::Ident, 19, 20),
            (TokenKind::Arrow, 20, 22),
            (TokenKind::Ident, 23, 27),
            (TokenKind::Colon, 27, 28),
            (TokenKind::Ident, 29, 30),
            (TokenKind::Ident, 31, 36),
            (TokenKind::Colon, 36, 37),
            (TokenKind::Number, 38, 39),
            (TokenKind::RCurly, 39, 40),
        ],
    );
}

#[test]
fn test_records_and_variables() {
    assert_lex(
        "with: [ foo= 25 ] do : { it => it.foo }",
        vec![
            (TokenKind::Ident, 0, 4),
            (TokenKind::Colon, 4, 5),
            (TokenKind::LSquare, 6, 7),
            (TokenKind::Ident, 8, 11),
            (TokenKind::Equals, 11, 12),
            (TokenKind::Number, 13, 15),
            (TokenKind::RSquare, 16, 17),
            (TokenKind::Ident, 18, 20),
            (TokenKind::Colon, 21, 22),
            (TokenKind::LCurly, 23, 24),
            (TokenKind::Ident, 25, 27),
            (TokenKind::Arrow, 28, 30),
            (TokenKind::Ident, 31, 33),
            (TokenKind::Dot, 33, 34),
            (TokenKind::Ident, 34, 37),
            (TokenKind::RCurly, 38, 39),
        ],
    );
}

#[test]
fn lexer_ends_and_unclosed_string() {
    let mut lexer = lex("  \"open");
    assert_eq!(
        lexer.next(),
        Some(Token { input: "  \"open", kind: TokenKind::UnclosedString, start_pos: 2, end_pos: 7 })
    );
    assert_eq!(lexer.next(), None);
    let mut lexer = lex("é ?");
    let first = lexer.next().unwrap();
    assert_eq!((first.kind, first.start_pos, first.end_pos), (TokenKind::Ident, 0, 2));
    let second = lexer.next().unwrap();
    assert_eq!((second.kind, second.start_pos, second.end_pos), (TokenKind::Unknown, 3, 4));
}

#[test]
fn white_space_is_what_the_characters_say() {
    let spaces = [
        '\u{9}', '\u{a}', '\u{b}', '\u{c}', '\u{d}', ' ', '\u{85}', '\u{a0}', '\u{1680}',
        '\u{2000}', '\u{2005}', '\u{200a}', '\u{2028}', '\u{2029}', '\u{202f}', '\u{205f}',
        '\u{3000}',
    ];
    for space in spaces {
        assert!(space.is_whitespace());
        let input = format!("a{}b", space);
        let width = space.len_utf8();
        let mut lexer = lex(&input);
        let first = lexer.next().unwrap();
        assert_eq!((first.kind, first.start_pos, first.end_pos), (TokenKind::Ident, 0, 1));
        let second = lexer.next().unwrap();
        assert_eq!(
            (second.kind, second.start_pos, second.end_pos),
            (TokenKind::Ident, 1 + width, 2 + width)
        );
        assert_eq!(lexer.next(), None);
    }
    let none = ['\u{8}', '\u{e}', '\u{200b}', '\u{2060}', '\u{feff}', '\u{180e}'];
    for other in none {
        assert!(!other.is_whitespace());
        let input = format!("a {}b", other);
        let mut lexer = lex(&input);
        assert_eq!(lexer.next().unwrap().kind, TokenKind::Ident);
        let second = lexer.next().unwrap();
        assert_eq!(second.kind, TokenKind::Unknown);
        assert_eq!((second.start_pos, second.end_pos), (2, input.len()));
    }
}
