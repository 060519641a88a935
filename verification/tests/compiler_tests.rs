use lox_rs::compiler;
use lox_rs::scanner::TokenKind;

#[test]
fn token_lines_show_line_once_then_placeholder() {
    let lines = compiler::token_lines("print 1;\nprint 2;");
    let expected = [
        "   1 print 'print'",
        "   | number '1'",
        "   | semicolon ';'",
        "   2 print 'print'",
        "   | number '2'",
        "   | semicolon ';'",
        "   | eof ''",
    ];
    assert_eq!(lines.len(), expected.len());
    for (line, want) in lines.iter().zip(expected.iter()) {
        assert_eq!(line, want);
    }
}

#[test]
fn token_lines_end_with_eof_even_for_empty_source() {
    let lines = compiler::token_lines("");
    assert_eq!(lines.len(), 1);
    assert_eq!(lines[0], "   1 eof ''");
}

#[test]
fn error_tokens_carry_their_message_as_lexeme() {
    let lines = compiler::token_lines("@");
    assert_eq!(lines[0], "   1 error 'Unexpected character.'");
    assert_eq!(lines[1], "   | eof ''");
}

#[test]
fn kind_names_are_lower_case() {
    assert_eq!(compiler::kind_name(TokenKind::LeftParen), "leftparen");
    assert_eq!(compiler::kind_name(TokenKind::BangEqual), "bangequal");
    assert_eq!(compiler::kind_name(TokenKind::Identifier), "identifier");
    assert_eq!(compiler::kind_name(TokenKind::Eof), "eof");
}
