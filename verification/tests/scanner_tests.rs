use lox_rs::scanner::{Scanner, TokenKind};

#[test]
fn whitespace_and_comments_scan_to_eof() {
    let src = "  \t\r\n// just a comment\n   // another";
    let mut sc = Scanner::new(src);
    let t = sc.scan_token();
    assert_eq!(t.kind, TokenKind::Eof);
    assert_eq!(t.lexeme, "");
    let again = sc.scan_token();
    assert_eq!(again.kind, TokenKind::Eof);
}

#[test]
fn empty_source_scans_to_eof() {
    let mut sc = Scanner::new("");
    assert_eq!(sc.scan_token().kind, TokenKind::Eof);
}

#[test]
fn integer_literal_is_one_token() {
    let mut sc = Scanner::new("123");
    let t = sc.scan_token();
    assert_eq!(t.kind, TokenKind::Number);
    assert_eq!(t.lexeme, "123");
    assert_eq!(sc.scan_token().kind, TokenKind::Eof);
}

#[test]
fn decimal_literal_is_not_split_at_the_point() {
    let mut sc = Scanner::new("3.25");
    let t = sc.scan_token();
    assert_eq!(t.kind, TokenKind::Number);
    assert_eq!(t.lexeme, "3.25");
    assert_eq!(sc.scan_token().kind, TokenKind::Eof);
}

#[test]
fn trailing_point_is_left_for_the_next_token() {
    let mut sc = Scanner::new("12.");
    let t = sc.scan_token();
    assert_eq!(t.kind, TokenKind::Number);
    assert_eq!(t.lexeme, "12");
    let dot = sc.scan_token();
    assert_eq!(dot.kind, TokenKind::Dot);
    assert_eq!(sc.scan_token().kind, TokenKind::Eof);
}

#[test]
fn keywords_get_their_dedicated_kinds() {
    let cases = [
        ("and", TokenKind::And),
        ("class", TokenKind::Class),
        ("else", TokenKind::Else),
        ("false", TokenKind::False),
        ("for", TokenKind::For),
        ("fun", TokenKind::Fun),
        ("if", TokenKind::If),
        ("nil", TokenKind::Nil),
        ("or", TokenKind::Or),
        ("print", TokenKind::Print),
        ("return", TokenKind::Return),
        ("super", TokenKind::Super),
        ("this", TokenKind::This),
        ("true", TokenKind::True),
        ("var", TokenKind::Var),
        ("while", TokenKind::While),
    ];
    for (src, kind) in cases {
        let mut sc = Scanner::new(src);
        let t = sc.scan_token();
        assert_eq!(t.kind, kind, "keyword {}", src);
        assert_eq!(t.lexeme, src);
    }
}

#[test]
fn near_keywords_are_identifiers() {
    for src in ["andy", "classic", "fo", "fa", "f", "t", "thus", "truth", "_x", "whale", "Nil"] {
        let mut sc = Scanner::new(src);
        let t = sc.scan_token();
        assert_eq!(t.kind, TokenKind::Identifier, "identifier {}", src);
        assert_eq!(t.lexeme, src);
    }
}

#[test]
fn keyword_after_other_tokens_is_still_recognized() {
    let mut sc = Scanner::new("x and y");
    assert_eq!(sc.scan_token().kind, TokenKind::Identifier);
    assert_eq!(sc.scan_token().kind, TokenKind::And);
    assert_eq!(sc.scan_token().kind, TokenKind::Identifier);
    assert_eq!(sc.scan_token().kind, TokenKind::Eof);
}

#[test]
fn terminated_string_keeps_both_quotes() {
    let mut sc = Scanner::new("\"abc\"");
    let t = sc.scan_token();
    assert_eq!(t.kind, TokenKind::String);
    assert_eq!(t.lexeme, "\"abc\"");
    assert_eq!(sc.scan_token().kind, TokenKind::Eof);
}

#[test]
fn unterminated_string_is_an_error_token() {
    let mut sc = Scanner::new("\"abc");
    let t = sc.scan_token();
    assert_eq!(t.kind, TokenKind::Error);
    assert_eq!(t.lexeme, "Unterminated string.");
}

#[test]
fn newline_inside_string_counts_lines_but_does_not_end_it() {
    let mut sc = Scanner::new("\"a\nb\" x");
    let t = sc.scan_token();
    assert_eq!(t.kind, TokenKind::String);
    assert_eq!(t.lexeme, "\"a\nb\"");
    assert_eq!(t.line, 2);
    let x = sc.scan_token();
    assert_eq!(x.kind, TokenKind::Identifier);
    assert_eq!(x.line, 2);
}

#[test]
fn unexpected_character_is_an_error_token() {
    let mut sc = Scanner::new("@");
    let t = sc.scan_token();
    assert_eq!(t.kind, TokenKind::Error);
    assert_eq!(t.lexeme, "Unexpected character.");
}

#[test]
fn one_and_two_character_operators() {
    let src = "!= ! == = <= < >= > ( ) { } ; , . - + / *";
    let expected = [
        TokenKind::BangEqual,
        TokenKind::Bang,
        TokenKind::EqualEqual,
        TokenKind::Equal,
        TokenKind::LessEqual,
        TokenKind::Less,
        TokenKind::GreaterEqual,
        TokenKind::Greater,
        TokenKind::LeftParen,
        TokenKind::RightParen,
        TokenKind::LeftBrace,
        TokenKind::RightBrace,
        TokenKind::Semicolon,
        TokenKind::Comma,
        TokenKind::Dot,
        TokenKind::Minus,
        TokenKind::Plus,
        TokenKind::Slash,
        TokenKind::Star,
        TokenKind::Eof,
    ];
    let mut sc = Scanner::new(src);
    for kind in expected {
        assert_eq!(sc.scan_token().kind, kind);
    }
}

#[test]
fn greedy_match_takes_the_two_character_form_first() {
    let mut sc = Scanner::new("!==");
    assert_eq!(sc.scan_token().kind, TokenKind::BangEqual);
    assert_eq!(sc.scan_token().kind, TokenKind::Equal);
}

#[test]
fn comment_stops_at_newline_and_line_count_advances() {
    let mut sc = Scanner::new("a // rest of line\nb");
    let a = sc.scan_token();
    assert_eq!(a.kind, TokenKind::Identifier);
    assert_eq!(a.line, 1);
    let b = sc.scan_token();
    assert_eq!(b.kind, TokenKind::Identifier);
    assert_eq!(b.line, 2);
}

#[test]
fn lone_slash_at_end_of_input_is_a_slash_token() {
    let mut sc = Scanner::new("/");
    assert_eq!(sc.scan_token().kind, TokenKind::Slash);
    assert_eq!(sc.scan_token().kind, TokenKind::Eof);
}

#[test]
fn leading_point_is_a_dot_token_not_a_number() {
    let mut sc = Scanner::new(".5");
    assert_eq!(sc.scan_token().kind, TokenKind::Dot);
    let t = sc.scan_token();
    assert_eq!(t.kind, TokenKind::Number);
    assert_eq!(t.lexeme, "5");
}

#[test]
fn token_line_reflects_blanks_skipped_before_it() {
    let mut sc = Scanner::new("\n\n  x");
    let t = sc.scan_token();
    assert_eq!(t.kind, TokenKind::Identifier);
    assert_eq!(t.line, 3);
}
