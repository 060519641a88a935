use vstd::prelude::*;
use vstd::string::*;

verus! {

/// The classification of one lexical unit.
#[derive(Clone, Copy, PartialEq, Eq, Structural, Debug)]
pub enum TokenKind {
    // Single-character tokens.
    LeftParen,
    RightParen,
    LeftBrace,
    RightBrace,
    Comma,
    Dot,
    Minus,
    Plus,
    Semicolon,
    Slash,
    Star,
    // One- or two-character tokens.
    Bang,
    BangEqual,
    Equal,
    EqualEqual,
    Greater,
    GreaterEqual,
    Less,
    LessEqual,
    // Literals.
    Identifier,
    String,
    Number,
    // Keywords.
    And,
    Class,
    Else,
    False,
    For,
    Fun,
    If,
    Nil,
    Or,
    Print,
    Return,
    Super,
    This,
    True,
    Var,
    While,
    Error,
    Eof,
}

/// An ASCII decimal digit.
pub open spec fn is_digit_char(c: char) -> bool {
    48 <= c as u32 && c as u32 <= 57
}

/// An ASCII letter or underscore: what may begin an identifier.
pub open spec fn is_alpha_char(c: char) -> bool {
    (97 <= c as u32 && c as u32 <= 122) || (65 <= c as u32 && c as u32 <= 90) || c == '_'
}

/// The line counter grows by one per newline and sticks at its maximum
/// rather than wrapping.
pub open spec fn line_inc(l: u16) -> u16 {
    if l < 0xffff {
        (l + 1) as u16
    } else {
        l
    }
}

/// A cursor position paired with the line counter at that position.
pub ghost struct ScanPos {
    pub pos: nat,
    pub line: u16,
}

/// Where scanning resumes after whitespace and `//`-comments: the cursor and
/// line counter after skipping blanks from position `i`. `in_comment` tells
/// whether the cursor stands inside a line comment.
pub open spec fn skip_ws(src: Seq<char>, i: nat, line: u16, in_comment: bool) -> ScanPos
    decreases src.len() - i,
{
    if i >= src.len() {
        ScanPos { pos: i, line }
    } else if in_comment {
        if src[i as int] == '\n' {
            skip_ws(src, i + 1, line_inc(line), false)
        } else {
            skip_ws(src, i + 1, line, true)
        }
    } else {
        let c = src[i as int];
        if c == ' ' || c == '\r' || c == '\t' {
            skip_ws(src, i + 1, line, false)
        } else if c == '\n' {
            skip_ws(src, i + 1, line_inc(line), false)
        } else if c == '/' && i + 1 < src.len() && src[i as int + 1] == '/' {
            skip_ws(src, i + 2, line, true)
        } else {
            ScanPos { pos: i, line }
        }
    }
}

/// The first position at or after `i` that does not hold a digit.
pub open spec fn digits_end(src: Seq<char>, i: nat) -> nat
    decreases src.len() - i,
{
    if i < src.len() && is_digit_char(src[i as int]) {
        digits_end(src, i + 1)
    } else {
        i
    }
}

/// Where a numeric literal beginning at `i` ends: a run of digits, then
/// optionally one `.` followed by at least one digit. A trailing `.` with no
/// digit after it is left for the next token.
pub open spec fn num_end(src: Seq<char>, i: nat) -> nat {
    let d = digits_end(src, i);
    if d < src.len() && src[d as int] == '.' && d + 1 < src.len() && is_digit_char(
        src[d as int + 1],
    ) {
        digits_end(src, (d + 1) as nat)
    } else {
        d
    }
}

/// The first position at or after `i` that does not hold a letter, digit or
/// underscore.
pub open spec fn ident_end(src: Seq<char>, i: nat) -> nat
    decreases src.len() - i,
{
    if i < src.len() && (is_alpha_char(src[i as int]) || is_digit_char(src[i as int])) {
        ident_end(src, i + 1)
    } else {
        i
    }
}

/// Where a string literal body beginning at `i` stops: the position of the
/// closing quote, or the end of the source if there is none, together with
/// the line counter after the newlines the literal spans.
pub open spec fn string_scan(src: Seq<char>, i: nat, line: u16) -> ScanPos
    decreases src.len() - i,
{
    if i >= src.len() {
        ScanPos { pos: i, line }
    } else if src[i as int] == '"' {
        ScanPos { pos: i, line }
    } else if src[i as int] == '\n' {
        string_scan(src, i + 1, line_inc(line))
    } else {
        string_scan(src, i + 1, line)
    }
}

/// The keyword kind an identifier lexeme denotes, or `Identifier` when it is
/// not an exact match of the fixed keyword list.
pub open spec fn keyword_kind(lex: Seq<char>) -> TokenKind {
    if lex == "and"@ {
        TokenKind::And
    } else if lex == "class"@ {
        TokenKind::Class
    } else if lex == "else"@ {
        TokenKind::Else
    } else if lex == "false"@ {
        TokenKind::False
    } else if lex == "for"@ {
        TokenKind::For
    } else if lex == "fun"@ {
        TokenKind::Fun
    } else if lex == "if"@ {
        TokenKind::If
    } else if lex == "nil"@ {
        TokenKind::Nil
    } else if lex == "or"@ {
        TokenKind::Or
    } else if lex == "print"@ {
        TokenKind::Print
    } else if lex == "return"@ {
        TokenKind::Return
    } else if lex == "super"@ {
        TokenKind::Super
    } else if lex == "this"@ {
        TokenKind::This
    } else if lex == "true"@ {
        TokenKind::True
    } else if lex == "var"@ {
        TokenKind::Var
    } else if lex == "while"@ {
        TokenKind::While
    } else {
        TokenKind::Identifier
    }
}

/// One scanned token at the specification level: its kind, the characters of
/// its lexeme (for an `Error` token, its message), the line it is reported
/// on, and the cursor positions where the token starts and where scanning
/// resumes.
pub ghost struct SpecToken {
    pub kind: TokenKind,
    pub lexeme: Seq<char>,
    pub line: u16,
    pub start: nat,
    pub end: nat,
}

/// A one-character token at position `p`.
pub open spec fn single_token(src: Seq<char>, p: nat, l: u16, kind: TokenKind) -> SpecToken {
    SpecToken {
        kind,
        lexeme: src.subrange(p as int, p as int + 1),
        line: l,
        start: p,
        end: p + 1,
    }
}

/// A token that takes its two-character kind when the next character is `=`
/// and its one-character kind otherwise.
pub open spec fn two_char_token(
    src: Seq<char>,
    p: nat,
    l: u16,
    two: TokenKind,
    one: TokenKind,
) -> SpecToken {
    if p + 1 < src.len() && src[p as int + 1] == '=' {
        SpecToken {
            kind: two,
            lexeme: src.subrange(p as int, p as int + 2),
            line: l,
            start: p,
            end: (p + 2) as nat,
        }
    } else {
        single_token(src, p, l, one)
    }
}

/// The token the scanner hands out next when its cursor stands at `pos` with
/// line counter `line`: the full character-level scanning rule.
pub open spec fn spec_scan(src: Seq<char>, pos: nat, line: u16) -> SpecToken {
    let w = skip_ws(src, pos, line, false);
    let p = w.pos;
    let l = w.line;
    if p >= src.len() {
        SpecToken { kind: TokenKind::Eof, lexeme: Seq::empty(), line: l, start: p, end: p }
    } else {
        let c = src[p as int];
        if c == '(' {
            single_token(src, p, l, TokenKind::LeftParen)
        } else if c == ')' {
            single_token(src, p, l, TokenKind::RightParen)
        } else if c == '{' {
            single_token(src, p, l, TokenKind::LeftBrace)
        } else if c == '}' {
            single_token(src, p, l, TokenKind::RightBrace)
        } else if c == ';' {
            single_token(src, p, l, TokenKind::Semicolon)
        } else if c == ',' {
            single_token(src, p, l, TokenKind::Comma)
        } else if c == '.' {
            single_token(src, p, l, TokenKind::Dot)
        } else if c == '-' {
            single_token(src, p, l, TokenKind::Minus)
        } else if c == '+' {
            single_token(src, p, l, TokenKind::Plus)
        } else if c == '/' {
            single_token(src, p, l, TokenKind::Slash)
        } else if c == '*' {
            single_token(src, p, l, TokenKind::Star)
        } else if c == '!' {
            two_char_token(src, p, l, TokenKind::BangEqual, TokenKind::Bang)
        } else if c == '=' {
            two_char_token(src, p, l, TokenKind::EqualEqual, TokenKind::Equal)
        } else if c == '<' {
            two_char_token(src, p, l, TokenKind::LessEqual, TokenKind::Less)
        } else if c == '>' {
            two_char_token(src, p, l, TokenKind::GreaterEqual, TokenKind::Greater)
        } else if c == '"' {
            let s = string_scan(src, p + 1, l);
            if s.pos >= src.len() {
                SpecToken {
                    kind: TokenKind::Error,
                    lexeme: "Unterminated string."@,
                    line: s.line,
                    start: p,
                    end: s.pos,
                }
            } else {
                SpecToken {
                    kind: TokenKind::String,
                    lexeme: src.subrange(p as int, s.pos as int + 1),
                    line: s.line,
                    start: p,
                    end: (s.pos + 1) as nat,
                }
            }
        } else if is_digit_char(c) {
            let e = num_end(src, p);
            SpecToken {
                kind: TokenKind::Number,
                lexeme: src.subrange(p as int, e as int),
                line: l,
                start: p,
                end: e,
            }
        } else if is_alpha_char(c) {
            let e = ident_end(src, p);
            SpecToken {
                kind: keyword_kind(src.subrange(p as int, e as int)),
                lexeme: src.subrange(p as int, e as int),
                line: l,
                start: p,
                end: e,
            }
        } else {
            SpecToken {
                kind: TokenKind::Error,
                lexeme: "Unexpected character."@,
                line: l,
                start: p,
                end: p + 1,
            }
        }
    }
}

/// A classified, positioned lexical unit. The lexeme borrows the scanned
/// source and spans exactly the matched characters; for an `Error` token it
/// is a human-readable message instead.
pub struct Token<'a> {
    pub kind: TokenKind,
    pub lexeme: &'a str,
    pub line: u16,
}

/// A single-pass lexical scanner: a cursor over the source characters that
/// hands out one token at a time, and `Eof` forever once the source is
/// exhausted.
pub struct Scanner<'a> {
    src: &'a str,
    len: usize,
    start: usize,
    current: usize,
    line: u16,
}

/// An ASCII letter or underscore.
fn is_alpha(ch: char) -> (r: bool)
    ensures
        r == is_alpha_char(ch),
{
    let u = ch as u32;
    (97 <= u && u <= 122) || (65 <= u && u <= 90) || ch == '_'
}

/// An ASCII decimal digit.
fn is_digit(ch: char) -> (r: bool)
    ensures
        r == is_digit_char(ch),
{
    let u = ch as u32;
    48 <= u && u <= 57
}

/// One more line, saturating instead of wrapping at the counter's maximum.
fn line_bump(l: u16) -> (r: u16)
    ensures
        r == line_inc(l),
{
    if l < 0xffff {
        l + 1
    } else {
        l
    }
}

impl<'a> Scanner<'a> {
    /// The token start and the cursor stay inside the source.
    pub closed spec fn wf(&self) -> bool {
        &&& self.start <= self.current
        &&& self.current <= self.src@.len()
        &&& self.len as nat == self.src@.len()
    }

    /// The characters being scanned.
    pub closed spec fn src_view(&self) -> Seq<char> {
        self.src@
    }

    /// The position of the next character to examine.
    pub closed spec fn cursor(&self) -> nat {
        self.current as nat
    }

    /// The 1-based line the cursor stands on.
    pub closed spec fn line_no(&self) -> u16 {
        self.line
    }

    pub fn new(src: &'a str) -> (s: Scanner<'a>)
        ensures
            s.src_view() == src@,
            s.cursor() == 0,
            s.line_no() == 1,
            s.wf(),
    {
        let len = src.unicode_len();
        Scanner { src, len, start: 0, current: 0, line: 1 }
    }

    fn is_at_end(&self) -> (r: bool)
        requires
            self.wf(),
        ensures
            r == (self.src@.len() <= self.current),
    {
        self.len <= self.current
    }

    fn peek(&self) -> (c: char)
        requires
            self.wf(),
        ensures
            c == if self.src@.len() <= self.current {
                '\0'
            } else {
                self.src@[self.current as int]
            },
    {
        if self.is_at_end() {
            '\0'
        } else {
            self.src.get_char(self.current)
        }
    }

    fn peek_next(&self) -> (c: char)
        requires
            self.wf(),
        ensures
            c == if self.src@.len() <= self.current + 1 {
                '\0'
            } else {
                self.src@[self.current as int + 1]
            },
    {
        if self.current >= self.len {
            '\0'
        } else if self.current + 1 >= self.len {
            '\0'
        } else {
            self.src.get_char(self.current + 1)
        }
    }

    fn advance(&mut self) -> (c: char)
        requires
            old(self).wf(),
            old(self).current < old(self).src@.len(),
        ensures
            final(self).src == old(self).src,
            final(self).len == old(self).len,
            final(self).start == old(self).start,
            final(self).line == old(self).line,
            final(self).current == old(self).current + 1,
            final(self).wf(),
            c == old(self).src@[old(self).current as int],
    {
        let curr = self.src.get_char(self.current);
        self.current = self.current + 1;
        curr
    }

    fn matches(&mut self, expected: char) -> (r: bool)
        requires
            old(self).wf(),
        ensures
            final(self).src == old(self).src,
            final(self).len == old(self).len,
            final(self).start == old(self).start,
            final(self).line == old(self).line,
            final(self).wf(),
            if old(self).current < old(self).src@.len() && old(self).src@[old(
                self,
            ).current as int] == expected {
                r && final(self).current == old(self).current + 1
            } else {
                !r && final(self).current == old(self).current
            },
    {
        if self.is_at_end() {
            return false;
        }
        if self.src.get_char(self.current) != expected {
            return false;
        }
        self.current = self.current + 1;
        true
    }

    fn make_token(&self, kind: TokenKind) -> (t: Token<'a>)
        requires
            self.wf(),
        ensures
            t.kind == kind,
            t.lexeme@ == self.src@.subrange(self.start as int, self.current as int),
            t.line == self.line,
    {
        Token { line: self.line, lexeme: self.src.substring_char(self.start, self.current), kind }
    }

    fn error_token(&self, msg: &'a str) -> (t: Token<'a>)
        ensures
            t.kind == TokenKind::Error,
            t.lexeme@ == msg@,
            t.line == self.line,
    {
        Token { line: self.line, lexeme: msg, kind: TokenKind::Error }
    }

    #[verifier::loop_isolation(false)]
    fn skip_whitespace(&mut self)
        requires
            old(self).wf(),
        ensures
            final(self).src == old(self).src,
            final(self).len == old(self).len,
            final(self).start == old(self).start,
            final(self).wf(),
            final(self).current as nat == skip_ws(
                old(self).src@,
                old(self).current as nat,
                old(self).line,
                false,
            ).pos,
            final(self).line == skip_ws(
                old(self).src@,
                old(self).current as nat,
                old(self).line,
                false,
            ).line,
    {
        let ghost goal = skip_ws(self.src@, self.current as nat, self.line, false);
        loop
            invariant
                self.wf(),
                self.src == old(self).src,
                self.len == old(self).len,
                self.start == old(self).start,
                skip_ws(self.src@, self.current as nat, self.line, false) == goal,
            decreases self.src@.len() - self.current,
        {
            if self.is_at_end() {
                return ;
            }
            let c = self.peek();
            if c == ' ' || c == '\r' || c == '\t' {
                let _ = self.advance();
            } else if c == '\n' {
                self.line = line_bump(self.line);
                let _ = self.advance();
            } else if c == '/' {
                if self.peek_next() == '/' {
                    // A comment runs to the end of the line; the newline
                    // itself is left for the branch above, so the line
                    // counter stays correct.
                    proof {
                        let s0 = self.src@;
                        let c0 = self.current as nat;
                        assert(skip_ws(s0, c0, self.line, false) == skip_ws(
                            s0,
                            c0 + 2,
                            self.line,
                            true,
                        ));
                    }
                    let _ = self.advance();
                    let _ = self.advance();
                    let ghost cur_entry = self.current;
                    while !self.is_at_end() && self.peek() != '\n'
                        invariant
                            self.wf(),
                            self.src == old(self).src,
                            self.len == old(self).len,
                            self.start == old(self).start,
                            cur_entry <= self.current,
                            skip_ws(self.src@, self.current as nat, self.line, true) == goal,
                        decreases self.src@.len() - self.current,
                    {
                        let _ = self.advance();
                    }
                    proof {
                        let s0 = self.src@;
                        let c0 = self.current as nat;
                        if c0 < s0.len() {
                            assert(s0[c0 as int] == '\n');
                            assert(skip_ws(s0, c0, self.line, true) == skip_ws(
                                s0,
                                c0 + 1,
                                line_inc(self.line),
                                false,
                            ));
                            assert(skip_ws(s0, c0, self.line, false) == skip_ws(
                                s0,
                                c0 + 1,
                                line_inc(self.line),
                                false,
                            ));
                        }
                    }
                } else {
                    return ;
                }
            } else {
                return ;
            }
        }
    }

    #[verifier::loop_isolation(false)]
    fn number(&mut self) -> (t: Token<'a>)
        requires
            old(self).wf(),
            old(self).start < old(self).current,
            forall|j: int|
                old(self).start <= j < old(self).current ==> is_digit_char(old(self).src@[j]),
        ensures
            final(self).src == old(self).src,
            final(self).len == old(self).len,
            final(self).start == old(self).start,
            final(self).line == old(self).line,
            final(self).wf(),
            final(self).current as nat == num_end(old(self).src@, old(self).start as nat),
            t.kind == TokenKind::Number,
            t.lexeme@ == old(self).src@.subrange(
                old(self).start as int,
                num_end(old(self).src@, old(self).start as nat) as int,
            ),
            t.line == old(self).line,
    {
        proof {
            lemma_digits_end_prefix(self.src@, self.start as nat, self.current as nat);
        }
        while is_digit(self.peek())
            invariant
                self.wf(),
                self.src == old(self).src,
                self.len == old(self).len,
                self.start == old(self).start,
                self.line == old(self).line,
                digits_end(self.src@, self.current as nat) == digits_end(
                    self.src@,
                    old(self).start as nat,
                ),
            decreases self.src@.len() - self.current,
        {
            let _ = self.advance();
        }
        if self.peek() == '.' && is_digit(self.peek_next()) {
            let _ = self.advance();
            while is_digit(self.peek())
                invariant
                    self.wf(),
                    self.src == old(self).src,
                    self.len == old(self).len,
                    self.start == old(self).start,
                    self.line == old(self).line,
                    digits_end(self.src@, self.current as nat) == num_end(
                        self.src@,
                        old(self).start as nat,
                    ),
                decreases self.src@.len() - self.current,
            {
                let _ = self.advance();
            }
        }
        self.make_token(TokenKind::Number)
    }

    #[verifier::loop_isolation(false)]
    fn string(&mut self) -> (t: Token<'a>)
        requires
            old(self).wf(),
        ensures
            final(self).src == old(self).src,
            final(self).len == old(self).len,
            final(self).start == old(self).start,
            final(self).wf(),
            ({
                let s = string_scan(old(self).src@, old(self).current as nat, old(self).line);
                if s.pos >= old(self).src@.len() {
                    &&& t.kind == TokenKind::Error
                    &&& t.lexeme@ == "Unterminated string."@
                    &&& t.line == s.line
                    &&& final(self).current as nat == s.pos
                    &&& final(self).line == s.line
                } else {
                    &&& t.kind == TokenKind::String
                    &&& t.lexeme@ == old(self).src@.subrange(old(self).start as int, s.pos as int + 1)
                    &&& t.line == s.line
                    &&& final(self).current as nat == s.pos + 1
                    &&& final(self).line == s.line
                }
            }),
    {
        let ghost goal = string_scan(self.src@, self.current as nat, self.line);
        while self.peek() != '"' && !self.is_at_end()
            invariant
                self.wf(),
                self.src == old(self).src,
                self.len == old(self).len,
                self.start == old(self).start,
                string_scan(self.src@, self.current as nat, self.line) == goal,
            decreases self.src@.len() - self.current,
        {
            if self.peek() == '\n' {
                self.line = line_bump(self.line);
            }
            let _ = self.advance();
        }
        if self.is_at_end() {
            return self.error_token("Unterminated string.");
        }
        let _ = self.advance();
        self.make_token(TokenKind::String)
    }

    #[verifier::loop_isolation(false)]
    fn identifier(&mut self) -> (t: Token<'a>)
        requires
            old(self).wf(),
            old(self).start < old(self).current,
            forall|j: int|
                old(self).start <= j < old(self).current ==> is_alpha_char(old(self).src@[j])
                    || is_digit_char(old(self).src@[j]),
        ensures
            final(self).src == old(self).src,
            final(self).len == old(self).len,
            final(self).start == old(self).start,
            final(self).line == old(self).line,
            final(self).wf(),
            final(self).current as nat == ident_end(old(self).src@, old(self).start as nat),
            t.kind == keyword_kind(
                old(self).src@.subrange(
                    old(self).start as int,
                    ident_end(old(self).src@, old(self).start as nat) as int,
                ),
            ),
            t.lexeme@ == old(self).src@.subrange(
                old(self).start as int,
                ident_end(old(self).src@, old(self).start as nat) as int,
            ),
            t.line == old(self).line,
    {
        proof {
            lemma_ident_end_prefix(self.src@, self.start as nat, self.current as nat);
        }
        loop
            invariant
                self.wf(),
                self.start < self.current,
                self.src == old(self).src,
                self.len == old(self).len,
                self.start == old(self).start,
                self.line == old(self).line,
                ident_end(self.src@, self.current as nat) == ident_end(
                    self.src@,
                    old(self).start as nat,
                ),
            decreases self.src@.len() - self.current,
        {
            let c = self.peek();
            if is_alpha(c) || is_digit(c) {
                let _ = self.advance();
            } else {
                break ;
            }
        }
        let kind = self.identifier_kind();
        self.make_token(kind)
    }

    fn identifier_kind(&self) -> (kind: TokenKind)
        requires
            self.wf(),
            self.start < self.current,
        ensures
            kind == keyword_kind(self.src@.subrange(self.start as int, self.current as int)),
    {
        proof {
            reveal_strlit("and");
            reveal_strlit("class");
            reveal_strlit("else");
            reveal_strlit("false");
            reveal_strlit("for");
            reveal_strlit("fun");
            reveal_strlit("if");
            reveal_strlit("nil");
            reveal_strlit("or");
            reveal_strlit("print");
            reveal_strlit("return");
            reveal_strlit("super");
            reveal_strlit("this");
            reveal_strlit("true");
            reveal_strlit("var");
            reveal_strlit("while");
            reveal_strlit("nd");
            reveal_strlit("lass");
            reveal_strlit("lse");
            reveal_strlit("r");
            reveal_strlit("n");
            reveal_strlit("f");
            reveal_strlit("il");
            reveal_strlit("rint");
            reveal_strlit("eturn");
            reveal_strlit("uper");
            reveal_strlit("is");
            reveal_strlit("ue");
            reveal_strlit("ar");
            reveal_strlit("hile");
        }
        let ghost lex = self.src@.subrange(self.start as int, self.current as int);
        proof {
            assert(lex.len() == self.current - self.start);
            assert(lex[0] == self.src@[self.start as int]);
        }
        let c = self.src.get_char(self.start);
        match c {
            'a' => {
                proof {
                    assert("nd"@ =~= "and"@.subrange(1, 3));
                    lemma_kw(self.src@, self.start as int, self.current as int, "and"@, 1);
                }
                self.check_keyword(1, "nd", TokenKind::And)
            },
            'c' => {
                proof {
                    assert("lass"@ =~= "class"@.subrange(1, 5));
                    lemma_kw(self.src@, self.start as int, self.current as int, "class"@, 1);
                }
                self.check_keyword(1, "lass", TokenKind::Class)
            },
            'e' => {
                proof {
                    assert("lse"@ =~= "else"@.subrange(1, 4));
                    lemma_kw(self.src@, self.start as int, self.current as int, "else"@, 1);
                }
                self.check_keyword(1, "lse", TokenKind::Else)
            },
            'f' => {
                if 1 < self.current - self.start {
                    proof {
                        assert(lex[1] == self.src@[self.start as int + 1]);
                    }
                    match self.src.get_char(self.start + 1) {
                        'a' => {
                            proof {
                                assert("lse"@ =~= "false"@.subrange(2, 5));
                                lemma_kw(
                                    self.src@,
                                    self.start as int,
                                    self.current as int,
                                    "false"@,
                                    2,
                                );
                            }
                            self.check_keyword(2, "lse", TokenKind::False)
                        },
                        'o' => {
                            proof {
                                assert("r"@ =~= "for"@.subrange(2, 3));
                                lemma_kw(
                                    self.src@,
                                    self.start as int,
                                    self.current as int,
                                    "for"@,
                                    2,
                                );
                            }
                            self.check_keyword(2, "r", TokenKind::For)
                        },
                        'u' => {
                            proof {
                                assert("n"@ =~= "fun"@.subrange(2, 3));
                                lemma_kw(
                                    self.src@,
                                    self.start as int,
                                    self.current as int,
                                    "fun"@,
                                    2,
                                );
                            }
                            self.check_keyword(2, "n", TokenKind::Fun)
                        },
                        _ => TokenKind::Identifier,
                    }
                } else {
                    TokenKind::Identifier
                }
            },
            'i' => {
                proof {
                    assert("f"@ =~= "if"@.subrange(1, 2));
                    lemma_kw(self.src@, self.start as int, self.current as int, "if"@, 1);
                }
                self.check_keyword(1, "f", TokenKind::If)
            },
            'n' => {
                proof {
                    assert("il"@ =~= "nil"@.subrange(1, 3));
                    lemma_kw(self.src@, self.start as int, self.current as int, "nil"@, 1);
                }
                self.check_keyword(1, "il", TokenKind::Nil)
            },
            'o' => {
                proof {
                    assert("r"@ =~= "or"@.subrange(1, 2));
                    lemma_kw(self.src@, self.start as int, self.current as int, "or"@, 1);
                }
                self.check_keyword(1, "r", TokenKind::Or)
            },
            'p' => {
                proof {
                    assert("rint"@ =~= "print"@.subrange(1, 5));
                    lemma_kw(self.src@, self.start as int, self.current as int, "print"@, 1);
                }
                self.check_keyword(1, "rint", TokenKind::Print)
            },
            'r' => {
                proof {
                    assert("eturn"@ =~= "return"@.subrange(1, 6));
                    lemma_kw(self.src@, self.start as int, self.current as int, "return"@, 1);
                }
                self.check_keyword(1, "eturn", TokenKind::Return)
            },
            's' => {
                proof {
                    assert("uper"@ =~= "super"@.subrange(1, 5));
                    lemma_kw(self.src@, self.start as int, self.current as int, "super"@, 1);
                }
                self.check_keyword(1, "uper", TokenKind::Super)
            },
            't' => {
                if 1 < self.current - self.start {
                    proof {
                        assert(lex[1] == self.src@[self.start as int + 1]);
                    }
                    match self.src.get_char(self.start + 1) {
                        'h' => {
                            proof {
                                assert("is"@ =~= "this"@.subrange(2, 4));
                                lemma_kw(
                                    self.src@,
                                    self.start as int,
                                    self.current as int,
                                    "this"@,
                                    2,
                                );
                            }
                            self.check_keyword(2, "is", TokenKind::This)
                        },
                        'r' => {
                            proof {
                                assert("ue"@ =~= "true"@.subrange(2, 4));
                                lemma_kw(
                                    self.src@,
                                    self.start as int,
                                    self.current as int,
                                    "true"@,
                                    2,
                                );
                            }
                            self.check_keyword(2, "ue", TokenKind::True)
                        },
                        _ => TokenKind::Identifier,
                    }
                } else {
                    TokenKind::Identifier
                }
            },
            'v' => {
                proof {
                    assert("ar"@ =~= "var"@.subrange(1, 3));
                    lemma_kw(self.src@, self.start as int, self.current as int, "var"@, 1);
                }
                self.check_keyword(1, "ar", TokenKind::Var)
            },
            'w' => {
                proof {
                    assert("hile"@ =~= "while"@.subrange(1, 5));
                    lemma_kw(self.src@, self.start as int, self.current as int, "while"@, 1);
                }
                self.check_keyword(1, "hile", TokenKind::While)
            },
            _ => TokenKind::Identifier,
        }
    }

    #[verifier::loop_isolation(false)]
    fn check_keyword(&self, from: usize, rest: &str, kind: TokenKind) -> (r: TokenKind)
        requires
            self.wf(),
            self.start < self.current,
            kind != TokenKind::Identifier,
        ensures
            r == if self.current - self.start == from + rest@.len() && self.src@.subrange(
                self.start + from,
                self.current as int,
            ) == rest@ {
                kind
            } else {
                TokenKind::Identifier
            },
    {
        let len = self.current - self.start;
        let rest_len = rest.unicode_len();
        if len < from || len - from != rest_len {
            return TokenKind::Identifier;
        }
        let mut j: usize = 0;
        while j < rest_len
            invariant
                self.wf(),
                self.start < self.current,
                len == self.current - self.start,
                len - from == rest_len,
                rest_len == rest@.len(),
                from <= len,
                j <= rest_len,
                forall|k: int| 0 <= k < j ==> self.src@[self.start + from + k] == rest@[k],
            decreases rest_len - j,
        {
            if self.src.get_char(self.start + from + j) != rest.get_char(j) {
                assert(self.src@.subrange(self.start + from, self.current as int) != rest@);
                return TokenKind::Identifier;
            }
            j = j + 1;
        }
        assert(self.src@.subrange(self.start + from, self.current as int) =~= rest@);
        kind
    }

    /// Hands out the next token. Lexical trouble is never a fault: an
    /// unexpected character or an unterminated string comes back as a token
    /// of kind `Error` carrying a message. Once the source is exhausted the
    /// scanner returns `Eof`, over and over, so scanning past the end is
    /// safe and idempotent.
    pub fn scan_token(&mut self) -> (t: Token<'a>)
        requires
            old(self).wf(),
        ensures
            final(self).wf(),
            final(self).src_view() == old(self).src_view(),
            ({
                let st = spec_scan(old(self).src_view(), old(self).cursor(), old(self).line_no());
                &&& t.kind == st.kind
                &&& t.lexeme@ == st.lexeme
                &&& t.line == st.line
                &&& final(self).cursor() == st.end
                &&& final(self).line_no() == st.line
            }),
    {
        self.skip_whitespace();
        self.start = self.current;
        if self.is_at_end() {
            let t = self.make_token(TokenKind::Eof);
            assert(t.lexeme@ =~= Seq::<char>::empty());
            return t;
        }
        let c = self.advance();
        match c {
            '(' => self.make_token(TokenKind::LeftParen),
            ')' => self.make_token(TokenKind::RightParen),
            '{' => self.make_token(TokenKind::LeftBrace),
            '}' => self.make_token(TokenKind::RightBrace),
            ';' => self.make_token(TokenKind::Semicolon),
            ',' => self.make_token(TokenKind::Comma),
            '.' => self.make_token(TokenKind::Dot),
            '-' => self.make_token(TokenKind::Minus),
            '+' => self.make_token(TokenKind::Plus),
            '/' => self.make_token(TokenKind::Slash),
            '*' => self.make_token(TokenKind::Star),
            '!' => {
                if self.matches('=') {
                    self.make_token(TokenKind::BangEqual)
                } else {
                    self.make_token(TokenKind::Bang)
                }
            },
            '=' => {
                if self.matches('=') {
                    self.make_token(TokenKind::EqualEqual)
                } else {
                    self.make_token(TokenKind::Equal)
                }
            },
            '<' => {
                if self.matches('=') {
                    self.make_token(TokenKind::LessEqual)
                } else {
                    self.make_token(TokenKind::Less)
                }
            },
            '>' => {
                if self.matches('=') {
                    self.make_token(TokenKind::GreaterEqual)
                } else {
                    self.make_token(TokenKind::Greater)
                }
            },
            '"' => self.string(),
            _ => {
                if is_digit(c) {
                    self.number()
                } else if is_alpha(c) {
                    self.identifier()
                } else {
                    self.error_token("Unexpected character.")
                }
            },
        }
    }
}

/// Digits before `j` do not move where the digit run ends: scanning the run
/// from its first digit or from anywhere inside it stops at the same place.
proof fn lemma_digits_end_prefix(src: Seq<char>, i: nat, j: nat)
    requires
        i <= j <= src.len(),
        forall|k: int| i <= k < j ==> is_digit_char(src[k]),
    ensures
        digits_end(src, i) == digits_end(src, j),
    decreases j - i,
{
    if i < j {
        lemma_digits_end_prefix(src, i + 1, j);
    }
}

/// Identifier characters before `j` do not move where the identifier ends.
proof fn lemma_ident_end_prefix(src: Seq<char>, i: nat, j: nat)
    requires
        i <= j <= src.len(),
        forall|k: int| i <= k < j ==> is_alpha_char(src[k]) || is_digit_char(src[k]),
    ensures
        ident_end(src, i) == ident_end(src, j),
    decreases j - i,
{
    if i < j {
        lemma_ident_end_prefix(src, i + 1, j);
    }
}

/// An identifier lexeme equals a keyword exactly when its length matches and
/// its characters after the already-dispatched prefix match the keyword's
/// remaining characters.
proof fn lemma_kw(src: Seq<char>, start: int, current: int, kw: Seq<char>, from: int)
    requires
        0 <= start,
        start + from <= current <= src.len(),
        1 <= from <= kw.len(),
        forall|k: int| 0 <= k < from ==> src[start + k] == kw[k],
    ensures
        (src.subrange(start, current) == kw) <==> (current - start == kw.len()
            && src.subrange(start + from, current) == kw.subrange(from, kw.len() as int)),
{
    let lex = src.subrange(start, current);
    let tail_src = src.subrange(start + from, current);
    let tail_kw = kw.subrange(from, kw.len() as int);
    if current - start == kw.len() && tail_src == tail_kw {
        assert forall|i: int| 0 <= i < kw.len() implies lex[i] == kw[i] by {
            if from <= i {
                assert(tail_src[i - from] == tail_kw[i - from]);
            }
        }
        assert(lex =~= kw);
    }
    if lex == kw {
        assert forall|i: int| 0 <= i < tail_kw.len() implies tail_src[i] == tail_kw[i] by {
            assert(lex[from + i] == kw[from + i]);
        }
        assert(tail_src =~= tail_kw);
    }
}

/// Skipping blanks never moves the cursor backwards, nor past the end of a
/// source it started inside.
pub proof fn lemma_skip_ws_bounds(src: Seq<char>, i: nat, line: u16, in_comment: bool)
    ensures
        i <= skip_ws(src, i, line, in_comment).pos,
        i <= src.len() ==> skip_ws(src, i, line, in_comment).pos <= src.len(),
    decreases src.len() - i,
{
    if i >= src.len() {
    } else if in_comment {
        if src[i as int] == '\n' {
            lemma_skip_ws_bounds(src, i + 1, line_inc(line), false);
        } else {
            lemma_skip_ws_bounds(src, i + 1, line, true);
        }
    } else {
        let c = src[i as int];
        if c == ' ' || c == '\r' || c == '\t' {
            lemma_skip_ws_bounds(src, i + 1, line, false);
        } else if c == '\n' {
            lemma_skip_ws_bounds(src, i + 1, line_inc(line), false);
        } else if c == '/' && i + 1 < src.len() && src[i as int + 1] == '/' {
            lemma_skip_ws_bounds(src, i + 2, line, true);
        }
    }
}

/// The end of a digit run lies between its start and the end of the source.
pub proof fn lemma_digits_end_bounds(src: Seq<char>, i: nat)
    ensures
        i <= digits_end(src, i),
        i <= src.len() ==> digits_end(src, i) <= src.len(),
    decreases src.len() - i,
{
    if i < src.len() && is_digit_char(src[i as int]) {
        lemma_digits_end_bounds(src, i + 1);
    }
}

/// The end of an identifier run lies between its start and the end of the
/// source.
pub proof fn lemma_ident_end_bounds(src: Seq<char>, i: nat)
    ensures
        i <= ident_end(src, i),
        i <= src.len() ==> ident_end(src, i) <= src.len(),
    decreases src.len() - i,
{
    if i < src.len() && (is_alpha_char(src[i as int]) || is_digit_char(src[i as int])) {
        lemma_ident_end_bounds(src, i + 1);
    }
}

/// A string literal body ends between its start and the end of the source.
pub proof fn lemma_string_scan_bounds(src: Seq<char>, i: nat, line: u16)
    ensures
        i <= string_scan(src, i, line).pos,
        i <= src.len() ==> string_scan(src, i, line).pos <= src.len(),
    decreases src.len() - i,
{
    if i < src.len() && src[i as int] != '"' {
        if src[i as int] == '\n' {
            lemma_string_scan_bounds(src, i + 1, line_inc(line));
        } else {
            lemma_string_scan_bounds(src, i + 1, line);
        }
    }
}

/// Every token but `Eof` consumes at least one character, and scanning
/// never runs past the end of the source.
pub proof fn lemma_scan_advances(src: Seq<char>, pos: nat, line: u16)
    ensures
        ({
            let t = spec_scan(src, pos, line);
            t.kind != TokenKind::Eof ==> pos < t.end && t.end <= src.len()
        }),
{
    let w = skip_ws(src, pos, line, false);
    lemma_skip_ws_bounds(src, pos, line, false);
    let p = w.pos;
    if p < src.len() {
        let c = src[p as int];
        if c == '"' {
            lemma_string_scan_bounds(src, p + 1, w.line);
        } else if is_digit_char(c) {
            lemma_digits_end_bounds(src, p + 1);
            assert(digits_end(src, p) == digits_end(src, p + 1));
            let d = digits_end(src, p);
            if d < src.len() && src[d as int] == '.' && d + 1 < src.len() && is_digit_char(
                src[d as int + 1],
            ) {
                lemma_digits_end_bounds(src, (d + 1) as nat);
            }
        } else if is_alpha_char(c) {
            lemma_ident_end_bounds(src, p + 1);
            assert(ident_end(src, p) == ident_end(src, p + 1));
        }
    }
}

/// Scanning at or past the end of the source is safe and idempotent: the
/// token is `Eof` and the cursor stays put.
pub proof fn lemma_eof_idempotent(src: Seq<char>, pos: nat, line: u16)
    requires
        pos >= src.len(),
    ensures
        spec_scan(src, pos, line).kind == TokenKind::Eof,
        spec_scan(src, pos, line).end == pos,
        spec_scan(src, pos, line).line == line,
{
}

/// A source that holds only whitespace and `//`-comments.
pub open spec fn blank_source(s: Seq<char>) -> bool
    decreases s.len(),
{
    ||| s.len() == 0
    ||| ((s[0] == ' ' || s[0] == '\r' || s[0] == '\t' || s[0] == '\n') && blank_source(s.skip(1)))
    ||| (s.len() >= 2 && s[0] == '/' && s[1] == '/' && comment_rest(s.skip(2)))
}

/// The tail of a line comment: anything up to a newline, after which only
/// blank source follows.
pub open spec fn comment_rest(s: Seq<char>) -> bool
    decreases s.len(),
{
    ||| s.len() == 0
    ||| (s[0] == '\n' && blank_source(s.skip(1)))
    ||| (s[0] != '\n' && comment_rest(s.skip(1)))
}

proof fn lemma_blank_skip(src: Seq<char>, i: nat, line: u16, in_comment: bool)
    requires
        i <= src.len(),
        !in_comment ==> blank_source(src.skip(i as int)),
        in_comment ==> comment_rest(src.skip(i as int)),
    ensures
        skip_ws(src, i, line, in_comment).pos == src.len(),
    decreases src.len() - i,
{
    if i < src.len() {
        let s = src.skip(i as int);
        assert(s[0] == src[i as int]);
        assert(s.skip(1) =~= src.skip(i as int + 1));
        if in_comment {
            if src[i as int] == '\n' {
                lemma_blank_skip(src, i + 1, line_inc(line), false);
            } else {
                lemma_blank_skip(src, i + 1, line, true);
            }
        } else {
            let c = src[i as int];
            if c == ' ' || c == '\r' || c == '\t' {
                lemma_blank_skip(src, i + 1, line, false);
            } else if c == '\n' {
                lemma_blank_skip(src, i + 1, line_inc(line), false);
            } else {
                assert(s.len() >= 2 && s[0] == '/' && s[1] == '/' && comment_rest(s.skip(2)));
                assert(s[1] == src[i as int + 1]);
                assert(s.skip(2) =~= src.skip(i as int + 2));
                lemma_blank_skip(src, i + 2, line, true);
            }
        }
    }
}

/// A source of nothing but whitespace and comments scans to exactly one
/// token, `Eof`, with the cursor at the end of the source.
pub proof fn lemma_blank_source_eof(src: Seq<char>, line: u16)
    requires
        blank_source(src),
    ensures
        spec_scan(src, 0, line).kind == TokenKind::Eof,
        spec_scan(src, 0, line).end == src.len(),
{
    assert(src.skip(0) =~= src);
    lemma_blank_skip(src, 0, line, false);
}

/// `k` splits `s` as a well-formed numeric literal: digits up to `k`, and
/// either nothing more or a decimal point with at least one digit after it.
pub open spec fn numeric_split(s: Seq<char>, k: int) -> bool {
    &&& 1 <= k <= s.len()
    &&& forall|j: int| 0 <= j < k ==> is_digit_char(s[j])
    &&& (k == s.len() || (k + 1 < s.len() && s[k] == '.' && forall|j: int|
        k + 1 <= j < s.len() ==> is_digit_char(s[j])))
}

/// The shape of a well-formed numeric literal: at least one digit, then
/// optionally a decimal point with at least one digit after it.
pub open spec fn numeric_literal(s: Seq<char>) -> bool {
    exists|k: int| numeric_split(s, k)
}

/// A digit run bounded by a non-digit (or the end) stops exactly there.
proof fn lemma_digits_end_exact(src: Seq<char>, i: nat, k: nat)
    requires
        i <= k <= src.len(),
        forall|j: int| i <= j < k ==> is_digit_char(src[j]),
        k == src.len() || !is_digit_char(src[k as int]),
    ensures
        digits_end(src, i) == k,
{
    lemma_digits_end_prefix(src, i, k);
}

/// A source that is one well-formed numeric literal scans to a single
/// `Number` token spanning the whole literal: the literal is not split at
/// the decimal point.
pub proof fn lemma_numeric_literal_token(src: Seq<char>, line: u16)
    requires
        numeric_literal(src),
    ensures
        ({
            let t = spec_scan(src, 0, line);
            &&& t.kind == TokenKind::Number
            &&& t.start == 0
            &&& t.end == src.len()
            &&& t.lexeme == src
            &&& t.line == line
        }),
{
    let k = choose|k: int| numeric_split(src, k);
    assert(numeric_split(src, k));
    assert(is_digit_char(src[0]));
    assert(skip_ws(src, 0, line, false).pos == 0);
    if k == src.len() {
        lemma_digits_end_exact(src, 0, k as nat);
        assert(num_end(src, 0) == src.len());
    } else {
        assert(src[k] == '.');
        assert(!is_digit_char(src[k]));
        lemma_digits_end_exact(src, 0, k as nat);
        lemma_digits_end_exact(src, (k + 1) as nat, src.len());
        assert(num_end(src, 0) == src.len());
    }
    assert(src.subrange(0, src.len() as int) =~= src);
}

/// The shape of an identifier: a letter or underscore first, then letters,
/// digits and underscores.
pub open spec fn identifier_shape(s: Seq<char>) -> bool {
    s.len() >= 1 && is_alpha_char(s[0]) && forall|j: int|
        0 <= j < s.len() ==> is_alpha_char(s[j]) || is_digit_char(s[j])
}

/// A source that is one identifier scans to a single token spanning it,
/// classified by `keyword_kind`: an exact match of the fixed keyword list
/// gets its dedicated kind, anything else is `Identifier`.
pub proof fn lemma_identifier_token(src: Seq<char>, line: u16)
    requires
        identifier_shape(src),
    ensures
        ({
            let t = spec_scan(src, 0, line);
            &&& t.kind == keyword_kind(src)
            &&& t.start == 0
            &&& t.end == src.len()
            &&& t.lexeme == src
            &&& t.line == line
        }),
{
    assert(is_alpha_char(src[0]));
    assert(skip_ws(src, 0, line, false).pos == 0);
    lemma_ident_end_prefix(src, 0, src.len());
    assert(ident_end(src, 0) == src.len());
    assert(src.subrange(0, src.len() as int) =~= src);
}

} // verus!
