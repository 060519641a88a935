use vstd::prelude::*;
use vstd::string::*;
use std::io::Write;
use crate::scanner::{Scanner, TokenKind, spec_scan, lemma_scan_advances};
use crate::text::{dec_rep, dec_string, pad_left, pad_left_str, texts_of};

verus! {

/// The lower-case name under which the token printer shows a kind.
pub open spec fn kind_text(k: TokenKind) -> Seq<char> {
    match k {
        TokenKind::LeftParen => "leftparen"@,
        TokenKind::RightParen => "rightparen"@,
        TokenKind::LeftBrace => "leftbrace"@,
        TokenKind::RightBrace => "rightbrace"@,
        TokenKind::Comma => "comma"@,
        TokenKind::Dot => "dot"@,
        TokenKind::Minus => "minus"@,
        TokenKind::Plus => "plus"@,
        TokenKind::Semicolon => "semicolon"@,
        TokenKind::Slash => "slash"@,
        TokenKind::Star => "star"@,
        TokenKind::Bang => "bang"@,
        TokenKind::BangEqual => "bangequal"@,
        TokenKind::Equal => "equal"@,
        TokenKind::EqualEqual => "equalequal"@,
        TokenKind::Greater => "greater"@,
        TokenKind::GreaterEqual => "greaterequal"@,
        TokenKind::Less => "less"@,
        TokenKind::LessEqual => "lessequal"@,
        TokenKind::Identifier => "identifier"@,
        TokenKind::String => "string"@,
        TokenKind::Number => "number"@,
        TokenKind::And => "and"@,
        TokenKind::Class => "class"@,
        TokenKind::Else => "else"@,
        TokenKind::False => "false"@,
        TokenKind::For => "for"@,
        TokenKind::Fun => "fun"@,
        TokenKind::If => "if"@,
        TokenKind::Nil => "nil"@,
        TokenKind::Or => "or"@,
        TokenKind::Print => "print"@,
        TokenKind::Return => "return"@,
        TokenKind::Super => "super"@,
        TokenKind::This => "this"@,
        TokenKind::True => "true"@,
        TokenKind::Var => "var"@,
        TokenKind::While => "while"@,
        TokenKind::Error => "error"@,
        TokenKind::Eof => "eof"@,
    }
}

/// The lower-case name of a token kind.
pub fn kind_name(k: TokenKind) -> (s: &'static str)
    ensures
        s@ == kind_text(k),
{
    match k {
        TokenKind::LeftParen => "leftparen",
        TokenKind::RightParen => "rightparen",
        TokenKind::LeftBrace => "leftbrace",
        TokenKind::RightBrace => "rightbrace",
        TokenKind::Comma => "comma",
        TokenKind::Dot => "dot",
        TokenKind::Minus => "minus",
        TokenKind::Plus => "plus",
        TokenKind::Semicolon => "semicolon",
        TokenKind::Slash => "slash",
        TokenKind::Star => "star",
        TokenKind::Bang => "bang",
        TokenKind::BangEqual => "bangequal",
        TokenKind::Equal => "equal",
        TokenKind::EqualEqual => "equalequal",
        TokenKind::Greater => "greater",
        TokenKind::GreaterEqual => "greaterequal",
        TokenKind::Less => "less",
        TokenKind::LessEqual => "lessequal",
        TokenKind::Identifier => "identifier",
        TokenKind::String => "string",
        TokenKind::Number => "number",
        TokenKind::And => "and",
        TokenKind::Class => "class",
        TokenKind::Else => "else",
        TokenKind::False => "false",
        TokenKind::For => "for",
        TokenKind::Fun => "fun",
        TokenKind::If => "if",
        TokenKind::Nil => "nil",
        TokenKind::Or => "or",
        TokenKind::Print => "print",
        TokenKind::Return => "return",
        TokenKind::Super => "super",
        TokenKind::This => "this",
        TokenKind::True => "true",
        TokenKind::Var => "var",
        TokenKind::While => "while",
        TokenKind::Error => "error",
        TokenKind::Eof => "eof",
    }
}

/// One printed token line: the token's line number right-aligned to four
/// columns when it differs from the previous token's line, else the `   | `
/// placeholder, then the kind's lower-case name and the lexeme in quotes.
pub open spec fn token_line(kind: TokenKind, lexeme: Seq<char>, line: u16, prev: u16) -> Seq<
    char,
> {
    let head = if line != prev {
        pad_left(dec_rep(line as nat), 4, ' ') + " "@
    } else {
        "   | "@
    };
    head + kind_text(kind) + " '"@ + lexeme + "'"@
}

/// Every line the token printer emits for the source from cursor `pos`:
/// one line per token, through the first `Eof`.
pub open spec fn token_lines_from(src: Seq<char>, pos: nat, line: u16, prev: u16) -> Seq<
    Seq<char>,
>
    decreases src.len() - pos,
        via token_lines_from_dec
{
    let t = spec_scan(src, pos, line);
    if t.kind == TokenKind::Eof {
        seq![token_line(t.kind, t.lexeme, t.line, prev)]
    } else {
        seq![token_line(t.kind, t.lexeme, t.line, prev)] + token_lines_from(
            src,
            t.end,
            t.line,
            t.line,
        )
    }
}

#[via_fn]
proof fn token_lines_from_dec(src: Seq<char>, pos: nat, line: u16, prev: u16) {
    lemma_scan_advances(src, pos, line);
}

/// Builds one token line.
pub fn token_line_string(kind: TokenKind, lexeme: &str, line: u16, prev: u16) -> (r: String)
    ensures
        r@ == token_line(kind, lexeme@, line, prev),
{
    proof {
        reveal_strlit(" ");
    }
    let mut s = if line != prev {
        let mut p = pad_left_str(dec_string(line as usize).as_str(), 4, " ");
        p.append(" ");
        p
    } else {
        String::from_str("   | ")
    };
    s.append(kind_name(kind));
    s.append(" '");
    s.append(lexeme);
    s.append("'");
    proof {
        assert(s@ =~= token_line(kind, lexeme@, line, prev));
    }
    s
}

/// Scans the whole source and builds the token printer's output: exactly
/// one line per token, through the first `Eof`.
#[verifier::loop_isolation(false)]
pub fn token_lines(src: &str) -> (out: Vec<String>)
    ensures
        texts_of(out@) == token_lines_from(src@, 0, 1, 0xffff),
{
    let mut scanner = Scanner::new(src);
    let mut prev: u16 = 0xffff;
    let mut out: Vec<String> = Vec::new();
    proof {
        assert(texts_of(out@) =~= Seq::<Seq<char>>::empty());
    }
    loop
        invariant
            scanner.wf(),
            scanner.src_view() == src@,
            token_lines_from(src@, 0, 1, 0xffff) == texts_of(out@) + token_lines_from(
                src@,
                scanner.cursor(),
                scanner.line_no(),
                prev,
            ),
        decreases src@.len() - scanner.cursor(),
    {
        let ghost pos0 = scanner.cursor();
        let ghost line0 = scanner.line_no();
        let ghost out0 = out@;
        proof {
            lemma_scan_advances(src@, pos0, line0);
        }
        let t = scanner.scan_token();
        let line_text = token_line_string(t.kind, t.lexeme, t.line, prev);
        out.push(line_text);
        proof {
            let st = spec_scan(src@, pos0, line0);
            assert(line_text@ == token_line(st.kind, st.lexeme, st.line, prev));
            assert(texts_of(out@) =~= texts_of(out0) + seq![line_text@]);
            if st.kind == TokenKind::Eof {
                assert(token_lines_from(src@, pos0, line0, prev) == seq![
                    token_line(st.kind, st.lexeme, st.line, prev),
                ]);
                assert(texts_of(out@) =~= token_lines_from(src@, 0, 1, 0xffff));
            } else {
                assert(token_lines_from(src@, pos0, line0, prev) == seq![
                    token_line(st.kind, st.lexeme, st.line, prev),
                ] + token_lines_from(src@, st.end, st.line, st.line));
                vstd::seq_lib::lemma_concat_associative(
                    texts_of(out0),
                    seq![line_text@],
                    token_lines_from(src@, st.end, st.line, st.line),
                );
                assert(token_lines_from(src@, 0, 1, 0xffff) == texts_of(out@)
                    + token_lines_from(src@, st.end, st.line, st.line));
            }
        }
        if t.kind == TokenKind::Eof {
            return out;
        }
        prev = t.line;
    }
}

/// Writes one line to standard output. Relies on writeln! to standard
/// output.
#[verifier::external_body]
fn print_line(s: &str) {
    let _ = writeln!(std::io::stdout(), "{}", s);
}

/// Scans the source and prints one line per token to standard output: the
/// working demonstration path from source text to tokens.
pub fn compile(src: &str) {
    let lines = token_lines(src);
    let mut i: usize = 0;
    while i < lines.len()
        decreases lines@.len() - i,
    {
        print_line(lines[i].as_str());
        i = i + 1;
    }
}

} // verus!
