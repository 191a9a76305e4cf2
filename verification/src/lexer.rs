//! The lexer: turns source characters into tokens, one token per call.
//!
//! The lexer is specified by the spec function [`lex`], which says, for a
//! source text and a position, which token starts there (after blanks and
//! comments) and where it ends, or which error is met and where.
use vstd::prelude::*;
use crate::text::{unicode_whitespace, unicode_alphanumeric, is_ascii_alnum, is_ascii_digit, char_is_whitespace, char_is_alphanumeric, chars_of, push_char, push_str, string_from_chars, same_chars, decimal, usize_to_text, signed_decimal, i64_to_text};

verus! {

#[derive(Debug, PartialEq)]
pub enum Token {
    Char,
    Else,
    If,
    Int,
    Long,
    Return,
    Void,
    While,
    Eq,
    And,
    Or,
    Plus,
    Minus,
    Multiply,
    Divide,
    Less,
    Assign,
    Address,
    Not,
    Semicolon,
    Colon,
    LeftBrace,
    RightBrace,
    Comma,
    LeftParen,
    RightParen,
    Identifier(String),
    Integer(i64),
    Character(char),
    String(String),
    Eof,
}

/// The mathematical value of a token: the same variants, with text as
/// character sequences.
pub enum TokenView {
    Char,
    Else,
    If,
    Int,
    Long,
    Return,
    Void,
    While,
    Eq,
    And,
    Or,
    Plus,
    Minus,
    Multiply,
    Divide,
    Less,
    Assign,
    Address,
    Not,
    Semicolon,
    Colon,
    LeftBrace,
    RightBrace,
    Comma,
    LeftParen,
    RightParen,
    Identifier(Seq<char>),
    Integer(i64),
    Character(char),
    Str(Seq<char>),
    Eof,
}

impl View for Token {
    type V = TokenView;

    open spec fn view(&self) -> TokenView {
        match self {
            Token::Char => TokenView::Char,
            Token::Else => TokenView::Else,
            Token::If => TokenView::If,
            Token::Int => TokenView::Int,
            Token::Long => TokenView::Long,
            Token::Return => TokenView::Return,
            Token::Void => TokenView::Void,
            Token::While => TokenView::While,
            Token::Eq => TokenView::Eq,
            Token::And => TokenView::And,
            Token::Or => TokenView::Or,
            Token::Plus => TokenView::Plus,
            Token::Minus => TokenView::Minus,
            Token::Multiply => TokenView::Multiply,
            Token::Divide => TokenView::Divide,
            Token::Less => TokenView::Less,
            Token::Assign => TokenView::Assign,
            Token::Address => TokenView::Address,
            Token::Not => TokenView::Not,
            Token::Semicolon => TokenView::Semicolon,
            Token::Colon => TokenView::Colon,
            Token::LeftBrace => TokenView::LeftBrace,
            Token::RightBrace => TokenView::RightBrace,
            Token::Comma => TokenView::Comma,
            Token::LeftParen => TokenView::LeftParen,
            Token::RightParen => TokenView::RightParen,
            Token::Identifier(s) => TokenView::Identifier(s@),
            Token::Integer(n) => TokenView::Integer(*n),
            Token::Character(c) => TokenView::Character(*c),
            Token::String(s) => TokenView::Str(s@),
            Token::Eof => TokenView::Eof,
        }
    }
}

impl Clone for Token {
    fn clone(&self) -> (r: Self)
        ensures
            r == *self,
    {
        match self {
            Token::Identifier(s) => Token::Identifier(s.clone()),
            Token::String(s) => Token::String(s.clone()),
            Token::Char => Token::Char,
            Token::Else => Token::Else,
            Token::If => Token::If,
            Token::Int => Token::Int,
            Token::Long => Token::Long,
            Token::Return => Token::Return,
            Token::Void => Token::Void,
            Token::While => Token::While,
            Token::Eq => Token::Eq,
            Token::And => Token::And,
            Token::Or => Token::Or,
            Token::Plus => Token::Plus,
            Token::Minus => Token::Minus,
            Token::Multiply => Token::Multiply,
            Token::Divide => Token::Divide,
            Token::Less => Token::Less,
            Token::Assign => Token::Assign,
            Token::Address => Token::Address,
            Token::Not => Token::Not,
            Token::Semicolon => Token::Semicolon,
            Token::Colon => Token::Colon,
            Token::LeftBrace => Token::LeftBrace,
            Token::RightBrace => Token::RightBrace,
            Token::Comma => Token::Comma,
            Token::LeftParen => Token::LeftParen,
            Token::RightParen => Token::RightParen,
            Token::Integer(n) => Token::Integer(*n),
            Token::Character(c) => Token::Character(*c),
            Token::Eof => Token::Eof,
        }
    }
}

/// How a token is shown in messages: keywords and punctuation by their
/// spelling, literals and names with their kind around the value, the end of
/// input as `EOF`.
pub open spec fn token_text(t: TokenView) -> Seq<char> {
    match t {
        TokenView::Char => "char"@,
        TokenView::Else => "else"@,
        TokenView::If => "if"@,
        TokenView::Int => "int"@,
        TokenView::Long => "long"@,
        TokenView::Return => "return"@,
        TokenView::Void => "void"@,
        TokenView::While => "while"@,
        TokenView::Eq => "=="@,
        TokenView::And => "&&"@,
        TokenView::Or => "||"@,
        TokenView::Plus => "+"@,
        TokenView::Minus => "-"@,
        TokenView::Multiply => "*"@,
        TokenView::Divide => "/"@,
        TokenView::Less => "<"@,
        TokenView::Assign => "="@,
        TokenView::Address => "&"@,
        TokenView::Not => "!"@,
        TokenView::Semicolon => ";"@,
        TokenView::Colon => ":"@,
        TokenView::LeftBrace => "{"@,
        TokenView::RightBrace => "}"@,
        TokenView::Comma => ","@,
        TokenView::LeftParen => "("@,
        TokenView::RightParen => ")"@,
        TokenView::Identifier(s) => "identifier("@ + s + ")"@,
        TokenView::Integer(n) => "integer("@ + signed_decimal(n as int) + ")"@,
        TokenView::Character(c) => "character("@ + seq![c] + ")"@,
        TokenView::Str(s) => "string("@ + s + ")"@,
        TokenView::Eof => "EOF"@,
    }
}

impl Token {
    /// The token as shown in messages (see [`token_text`]).
    pub fn to_text(&self) -> (r: String)
        ensures
            r@ == token_text(self@),
    {
        let mut s = String::new();
        match self {
            Token::Char => push_str(&mut s, "char"),
            Token::Else => push_str(&mut s, "else"),
            Token::If => push_str(&mut s, "if"),
            Token::Int => push_str(&mut s, "int"),
            Token::Long => push_str(&mut s, "long"),
            Token::Return => push_str(&mut s, "return"),
            Token::Void => push_str(&mut s, "void"),
            Token::While => push_str(&mut s, "while"),
            Token::Eq => push_str(&mut s, "=="),
            Token::And => push_str(&mut s, "&&"),
            Token::Or => push_str(&mut s, "||"),
            Token::Plus => push_str(&mut s, "+"),
            Token::Minus => push_str(&mut s, "-"),
            Token::Multiply => push_str(&mut s, "*"),
            Token::Divide => push_str(&mut s, "/"),
            Token::Less => push_str(&mut s, "<"),
            Token::Assign => push_str(&mut s, "="),
            Token::Address => push_str(&mut s, "&"),
            Token::Not => push_str(&mut s, "!"),
            Token::Semicolon => push_str(&mut s, ";"),
            Token::Colon => push_str(&mut s, ":"),
            Token::LeftBrace => push_str(&mut s, "{"),
            Token::RightBrace => push_str(&mut s, "}"),
            Token::Comma => push_str(&mut s, ","),
            Token::LeftParen => push_str(&mut s, "("),
            Token::RightParen => push_str(&mut s, ")"),
            Token::Identifier(x) => {
                push_str(&mut s, "identifier(");
                push_str(&mut s, x.as_str());
                push_str(&mut s, ")");
            },
            Token::Integer(n) => {
                push_str(&mut s, "integer(");
                let d = i64_to_text(*n);
                push_str(&mut s, d.as_str());
                push_str(&mut s, ")");
            },
            Token::Character(c) => {
                push_str(&mut s, "character(");
                push_char(&mut s, *c);
                push_str(&mut s, ")");
            },
            Token::String(x) => {
                push_str(&mut s, "string(");
                push_str(&mut s, x.as_str());
                push_str(&mut s, ")");
            },
            Token::Eof => push_str(&mut s, "EOF"),
        }
        proof {
            assert(s@ =~= token_text(self@));
        }
        s
    }
}

/// A lexical error with the line and column (both from 1) where it was met.
#[derive(Debug)]
pub struct LexError {
    pub message: String,
    pub line: usize,
    pub column: usize,
}

impl LexError {
    /// `Lexical error at line <line>, column <column>: <message>`.
    pub fn to_text(&self) -> (r: String)
        ensures
            r@ == "Lexical error at line "@ + decimal(self.line as nat) + ", column "@ + decimal(self.column as nat) + ": "@
                + self.message@,
    {
        let mut s = String::new();
        push_str(&mut s, "Lexical error at line ");
        let l = usize_to_text(self.line);
        push_str(&mut s, l.as_str());
        push_str(&mut s, ", column ");
        let c = usize_to_text(self.column);
        push_str(&mut s, c.as_str());
        push_str(&mut s, ": ");
        push_str(&mut s, self.message.as_str());
        s
    }
}

/// The kinds of lexical error.
pub enum LexFailure {
    UnknownCharacter(char),
    UnterminatedComment,
    UnterminatedCharacterLiteral,
    UnterminatedStringLiteral,
    InvalidNumber(Seq<char>),
}

/// The outcome of lexing from a position: a token with the position just
/// after it, or an error with the position at which it is reported.
pub enum LexStep {
    Produced(TokenView, nat),
    Failed(LexFailure, nat),
}

/// Line (from 1) of position `p`: one more than the line feeds before it.
pub open spec fn pos_line(s: Seq<char>, p: nat) -> nat
    decreases p,
{
    if p == 0 || p > s.len() {
        1
    } else if s[p - 1] == '\n' {
        pos_line(s, (p - 1) as nat) + 1
    } else {
        pos_line(s, (p - 1) as nat)
    }
}

/// Column (from 1) of position `p`: one more than the characters since the
/// last line feed.
pub open spec fn pos_col(s: Seq<char>, p: nat) -> nat
    decreases p,
{
    if p == 0 || p > s.len() {
        1
    } else if s[p - 1] == '\n' {
        1
    } else {
        pos_col(s, (p - 1) as nat) + 1
    }
}

pub proof fn lemma_pos_bounds(s: Seq<char>, p: nat)
    ensures
        pos_line(s, p) <= p + 1,
        pos_col(s, p) <= p + 1,
    decreases p,
{
    if p > 0 && p <= s.len() {
        lemma_pos_bounds(s, (p - 1) as nat);
    }
}

/// End of a block comment whose text starts at `q` (just after `/*`): the
/// position after the first `*/`, or the last position tried when none is
/// found.
pub open spec fn comment_end(s: Seq<char>, q: nat) -> nat
    decreases s.len() - q,
{
    if q + 1 < s.len() {
        if s[q as int] == '*' && s[(q + 1) as int] == '/' {
            q + 2
        } else {
            comment_end(s, q + 1)
        }
    } else {
        q
    }
}

pub proof fn lemma_comment_end(s: Seq<char>, q: nat)
    ensures
        comment_end(s, q) >= q,
        q <= s.len() ==> comment_end(s, q) <= s.len(),
    decreases s.len() - q,
{
    if q + 1 < s.len() {
        if !(s[q as int] == '*' && s[(q + 1) as int] == '/') {
            lemma_comment_end(s, q + 1);
        }
    }
}

/// Skips whitespace and block comments from `p`: the position of the next
/// token, or `Err` with the error position when a comment runs to the end.
pub open spec fn skip_trivia(s: Seq<char>, p: nat) -> Result<nat, nat>
    decreases s.len() - p,
{
    if p >= s.len() {
        Ok(p)
    } else if unicode_whitespace(s[p as int]) {
        skip_trivia(s, p + 1)
    } else if s[p as int] == '/' && p + 1 < s.len() && s[(p + 1) as int] == '*' {
        let q = comment_end(s, p + 2);
        proof {
            lemma_comment_end(s, p + 2);
        }
        if q >= s.len() {
            Err(q)
        } else {
            skip_trivia(s, q)
        }
    } else {
        Ok(p)
    }
}

/// Escape sequences: `\n`, `\t`, `\r` name control characters; any other
/// escaped character stands for itself.
pub open spec fn unescape(c: char) -> char {
    if c == 'n' {
        '\n'
    } else if c == 't' {
        '\t'
    } else if c == 'r' {
        '\r'
    } else {
        c
    }
}

/// The body of a string literal from `p` (just after the opening quote): its
/// characters and the position after the closing quote, or `Err` with the
/// error position when the input ends first.
pub open spec fn string_body(s: Seq<char>, p: nat) -> Result<(Seq<char>, nat), nat>
    decreases s.len() - p,
{
    if p >= s.len() {
        Err(p)
    } else if s[p as int] == '"' {
        Ok((Seq::empty(), p + 1))
    } else if s[p as int] == '\\' {
        if p + 1 >= s.len() {
            Err(p + 1)
        } else {
            match string_body(s, p + 2) {
                Ok((rest, e)) => Ok((seq![unescape(s[(p + 1) as int])] + rest, e)),
                Err(at) => Err(at),
            }
        }
    } else {
        match string_body(s, p + 1) {
            Ok((rest, e)) => Ok((seq![s[p as int]] + rest, e)),
            Err(at) => Err(at),
        }
    }
}

/// A character literal whose contents start at `a` (just after the quote).
pub open spec fn char_literal(s: Seq<char>, a: nat) -> LexStep {
    if a >= s.len() {
        LexStep::Failed(LexFailure::UnterminatedCharacterLiteral, a)
    } else if s[a as int] == '\\' {
        if a + 1 >= s.len() {
            LexStep::Failed(LexFailure::UnterminatedCharacterLiteral, a + 1)
        } else {
            char_literal_close(s, unescape(s[(a + 1) as int]), a + 2)
        }
    } else {
        char_literal_close(s, s[a as int], a + 1)
    }
}

pub open spec fn char_literal_close(s: Seq<char>, c: char, e: nat) -> LexStep {
    if e >= s.len() || s[e as int] != '\'' {
        LexStep::Failed(LexFailure::UnterminatedCharacterLiteral, e)
    } else {
        LexStep::Produced(TokenView::Character(c), e + 1)
    }
}

/// End of the run of ASCII digits starting at `p`.
pub open spec fn digits_end(s: Seq<char>, p: nat) -> nat
    decreases s.len() - p,
{
    if p < s.len() && is_ascii_digit(s[p as int]) {
        digits_end(s, p + 1)
    } else {
        p
    }
}

/// End of the run of identifier characters (alphanumeric or `_`) from `p`.
pub open spec fn word_end(s: Seq<char>, p: nat) -> nat
    decreases s.len() - p,
{
    if p < s.len() && (unicode_alphanumeric(s[p as int]) || s[p as int] == '_') {
        word_end(s, p + 1)
    } else {
        p
    }
}

/// The value of a sequence of decimal digits.
pub open spec fn digits_value(d: Seq<char>) -> nat
    decreases d.len(),
{
    if d.len() == 0 {
        0
    } else {
        digits_value(d.drop_last()) * 10 + ((d.last() as nat) - 48) as nat
    }
}

/// Keywords, or an identifier for any other word.
pub open spec fn keyword_or_identifier(w: Seq<char>) -> TokenView {
    if w == seq!['c', 'h', 'a', 'r'] {
        TokenView::Char
    } else if w == seq!['e', 'l', 's', 'e'] {
        TokenView::Else
    } else if w == seq!['i', 'f'] {
        TokenView::If
    } else if w == seq!['i', 'n', 't'] {
        TokenView::Int
    } else if w == seq!['l', 'o', 'n', 'g'] {
        TokenView::Long
    } else if w == seq!['r', 'e', 't', 'u', 'r', 'n'] {
        TokenView::Return
    } else if w == seq!['v', 'o', 'i', 'd'] {
        TokenView::Void
    } else if w == seq!['w', 'h', 'i', 'l', 'e'] {
        TokenView::While
    } else {
        TokenView::Identifier(w)
    }
}

/// The token that starts at `q`, a position inside the text after trivia.
pub open spec fn lex_at(s: Seq<char>, q: nat) -> LexStep {
    let c = s[q as int];
    let pair = q + 1 < s.len();
    if c == '=' && pair && s[(q + 1) as int] == '=' {
        LexStep::Produced(TokenView::Eq, q + 2)
    } else if c == '&' && pair && s[(q + 1) as int] == '&' {
        LexStep::Produced(TokenView::And, q + 2)
    } else if c == '|' && pair && s[(q + 1) as int] == '|' {
        LexStep::Produced(TokenView::Or, q + 2)
    } else if c == ';' {
        LexStep::Produced(TokenView::Semicolon, q + 1)
    } else if c == ':' {
        LexStep::Produced(TokenView::Colon, q + 1)
    } else if c == '{' {
        LexStep::Produced(TokenView::LeftBrace, q + 1)
    } else if c == '}' {
        LexStep::Produced(TokenView::RightBrace, q + 1)
    } else if c == ',' {
        LexStep::Produced(TokenView::Comma, q + 1)
    } else if c == '=' {
        LexStep::Produced(TokenView::Assign, q + 1)
    } else if c == '(' {
        LexStep::Produced(TokenView::LeftParen, q + 1)
    } else if c == ')' {
        LexStep::Produced(TokenView::RightParen, q + 1)
    } else if c == '&' {
        LexStep::Produced(TokenView::Address, q + 1)
    } else if c == '!' {
        LexStep::Produced(TokenView::Not, q + 1)
    } else if c == '-' {
        LexStep::Produced(TokenView::Minus, q + 1)
    } else if c == '+' {
        LexStep::Produced(TokenView::Plus, q + 1)
    } else if c == '*' {
        LexStep::Produced(TokenView::Multiply, q + 1)
    } else if c == '/' {
        LexStep::Produced(TokenView::Divide, q + 1)
    } else if c == '<' {
        LexStep::Produced(TokenView::Less, q + 1)
    } else if c == '\'' {
        char_literal(s, q + 1)
    } else if c == '"' {
        match string_body(s, q + 1) {
            Ok((body, e)) => LexStep::Produced(TokenView::Str(body), e),
            Err(at) => LexStep::Failed(LexFailure::UnterminatedStringLiteral, at),
        }
    } else if is_ascii_digit(c) {
        let e = digits_end(s, q);
        let d = s.subrange(q as int, e as int);
        if digits_value(d) <= i64::MAX {
            LexStep::Produced(TokenView::Integer(digits_value(d) as i64), e)
        } else {
            LexStep::Failed(LexFailure::InvalidNumber(d), e)
        }
    } else if ('a' <= c && c <= 'z') || ('A' <= c && c <= 'Z') || c == '_' {
        let e = word_end(s, q);
        LexStep::Produced(keyword_or_identifier(s.subrange(q as int, e as int)), e)
    } else {
        LexStep::Failed(LexFailure::UnknownCharacter(c), q)
    }
}

/// The next token of `s` from position `p`: trivia is skipped first; at the
/// end of the text the token is `Eof`.
pub open spec fn lex(s: Seq<char>, p: nat) -> LexStep {
    match skip_trivia(s, p) {
        Err(at) => LexStep::Failed(LexFailure::UnterminatedComment, at),
        Ok(q) => if q >= s.len() {
            LexStep::Produced(TokenView::Eof, q)
        } else {
            lex_at(s, q)
        },
    }
}

/// The message that a lexical error carries.
pub open spec fn failure_message(f: LexFailure) -> Seq<char> {
    match f {
        LexFailure::UnknownCharacter(c) => "Unknown character: '"@ + seq![c] + "'"@,
        LexFailure::UnterminatedComment => "Unterminated comment"@,
        LexFailure::UnterminatedCharacterLiteral => "Unterminated character literal"@,
        LexFailure::UnterminatedStringLiteral => "Unterminated string literal"@,
        LexFailure::InvalidNumber(d) => "Invalid number: "@ + d,
    }
}

pub struct Lexer {
    input: Vec<char>,
    position: usize,
    line: usize,
    column: usize,
}

impl Lexer {
    /// The source characters.
    pub closed spec fn source(&self) -> Seq<char> {
        self.input@
    }

    /// The position of the next unread character.
    pub closed spec fn position(&self) -> nat {
        self.position as nat
    }

    /// Positions within the text, line and column in step with the position.
    pub closed spec fn wf(&self) -> bool {
        &&& self.position <= self.input.len()
        &&& self.input.len() < usize::MAX
        &&& self.line == pos_line(self.input@, self.position as nat)
        &&& self.column == pos_col(self.input@, self.position as nat)
    }

    pub proof fn lemma_wf(&self)
        requires
            self.wf(),
        ensures
            self.position() <= self.source().len(),
    {
    }

    pub fn new(input: &str) -> (r: Self)
        requires
            input@.len() < usize::MAX,
        ensures
            r.wf(),
            r.source() == input@,
            r.position() == 0,
    {
        Lexer { input: chars_of(input), position: 0, line: 1, column: 1 }
    }

    fn error(&self, message: String) -> (e: LexError)
        ensures
            e.message == message,
            e.line == self.line,
            e.column == self.column,
    {
        LexError { message, line: self.line, column: self.column }
    }

    fn advance(&mut self)
        requires
            old(self).wf(),
        ensures
            final(self).wf(),
            final(self).input@ == old(self).input@,
            final(self).position == if old(self).position < old(self).input.len() {
                old(self).position + 1
            } else {
                old(self).position as int
            },
    {
        if self.position < self.input.len() {
            proof {
                lemma_pos_bounds(self.input@, self.position as nat);
            }
            if self.input[self.position] == '\n' {
                self.line += 1;
                self.column = 1;
            } else {
                self.column += 1;
            }
            self.position += 1;
        }
    }

    fn peek(&self) -> (r: Option<char>)
        requires
            self.wf(),
        ensures
            r == if self.position + 1 < self.input.len() {
                Some(self.input@[self.position + 1])
            } else {
                None::<char>
            },
    {
        if self.position + 1 < self.input.len() {
            Some(self.input[self.position + 1])
        } else {
            None
        }
    }

    fn skip_whitespace_and_comments(&mut self) -> (r: Result<(), LexError>)
        requires
            old(self).wf(),
        ensures
            final(self).wf(),
            final(self).input@ == old(self).input@,
            match skip_trivia(old(self).input@, old(self).position as nat) {
                Ok(q) => r is Ok && final(self).position == q,
                Err(at) => r is Err && final(self).position == at && r->Err_0.line == pos_line(
                    old(self).input@,
                    at,
                ) && r->Err_0.column == pos_col(old(self).input@, at) && r->Err_0.message@
                    == failure_message(LexFailure::UnterminatedComment),
            },
    {
        let ghost s = self.input@;
        let ghost start = self.position as nat;
        loop
            invariant
                self.wf(),
                self.input@ == s,
                s == old(self).input@,
                start == old(self).position,
                start <= self.position,
                skip_trivia(s, start) == skip_trivia(s, self.position as nat),
            ensures
                self.wf(),
                self.input@ == s,
                skip_trivia(s, start) == Ok::<nat, nat>(self.position as nat),
            decreases self.input.len() - self.position,
        {
            if self.position >= self.input.len() {
                break;
            }
            let ch = self.input[self.position];
            if char_is_whitespace(ch) {
                self.advance();
                continue;
            }
            if ch == '/' && self.peek() == Some('*') {
                let ghost p = self.position as nat;
                proof {
                    lemma_comment_end(s, p + 2);
                }
                self.advance();
                self.advance();
                while self.position + 1 < self.input.len()
                    invariant_except_break
                        self.wf(),
                        self.input@ == s,
                        p + 2 <= self.position,
                        comment_end(s, self.position as nat) == comment_end(s, p + 2),
                    ensures
                        self.wf(),
                        self.input@ == s,
                        self.position == comment_end(s, p + 2),
                    decreases self.input.len() - self.position,
                {
                    if self.input[self.position] == '*' && self.input[self.position + 1] == '/' {
                        self.advance();
                        self.advance();
                        break;
                    }
                    self.advance();
                }
                if self.position >= self.input.len() {
                    proof {
                        reveal_strlit("Unterminated comment");
                    }
                    return Err(self.error("Unterminated comment".to_string()));
                }
                continue;
            }
            break;
        }
        Ok(())
    }

    fn read_character_literal(&mut self) -> (r: Result<Token, LexError>)
        requires
            old(self).wf(),
            old(self).position < old(self).input.len(),
        ensures
            final(self).wf(),
            final(self).input@ == old(self).input@,
            lex_step_matches(
                char_literal(old(self).input@, (old(self).position + 1) as nat),
                old(self).input@,
                r,
                final(self).position as nat,
            ),
    {
        let ghost s = self.input@;
        proof {
            reveal_strlit("Unterminated character literal");
        }
        self.advance();
        if self.position >= self.input.len() {
            return Err(self.error("Unterminated character literal".to_string()));
        }
        let ch = if self.input[self.position] == '\\' {
            self.advance();
            if self.position >= self.input.len() {
                return Err(self.error("Unterminated character literal".to_string()));
            }
            unescape_char(self.input[self.position])
        } else {
            self.input[self.position]
        };
        self.advance();
        if self.position >= self.input.len() || self.input[self.position] != '\'' {
            return Err(self.error("Unterminated character literal".to_string()));
        }
        self.advance();
        Ok(Token::Character(ch))
    }

    fn read_string_literal(&mut self) -> (r: Result<Token, LexError>)
        requires
            old(self).wf(),
            old(self).position < old(self).input.len(),
        ensures
            final(self).wf(),
            final(self).input@ == old(self).input@,
            match string_body(old(self).input@, (old(self).position + 1) as nat) {
                Ok((body, e)) => r is Ok && r->Ok_0@ == TokenView::Str(body) && final(self).position
                    == e,
                Err(at) => r is Err && final(self).position == at && r->Err_0.line == pos_line(
                    old(self).input@,
                    at,
                ) && r->Err_0.column == pos_col(old(self).input@, at) && r->Err_0.message@
                    == failure_message(LexFailure::UnterminatedStringLiteral),
            },
    {
        let ghost s = self.input@;
        proof {
            reveal_strlit("Unterminated string literal");
        }
        self.advance();
        let ghost start = self.position as nat;
        let mut string = String::new();
        while self.position < self.input.len() && self.input[self.position] != '"'
            invariant
                self.wf(),
                self.input@ == s,
                s == old(self).input@,
                start == old(self).position + 1,
                start <= self.position,
                match string_body(s, self.position as nat) {
                    Ok((rest, e)) => string_body(s, start) == Ok::<(Seq<char>, nat), nat>(
                        (string@ + rest, e),
                    ),
                    Err(at) => string_body(s, start) == Err::<(Seq<char>, nat), nat>(at),
                },
            decreases self.input.len() - self.position,
        {
            let ghost p = self.position as nat;
            let ch = if self.input[self.position] == '\\' {
                self.advance();
                if self.position >= self.input.len() {
                    return Err(self.error("Unterminated string literal".to_string()));
                }
                unescape_char(self.input[self.position])
            } else {
                self.input[self.position]
            };
            let ghost before = string@;
            push_char(&mut string, ch);
            self.advance();
            proof {
                match string_body(s, self.position as nat) {
                    Ok((rest, e)) => {
                        assert(string@ + rest =~= before + (seq![ch] + rest));
                    },
                    Err(at) => {},
                }
            }
        }
        if self.position >= self.input.len() {
            return Err(self.error("Unterminated string literal".to_string()));
        }
        self.advance();
        proof {
            assert(string@ + Seq::<char>::empty() =~= string@);
        }
        Ok(Token::String(string))
    }

    fn read_number(&mut self) -> (r: Result<Token, LexError>)
        requires
            old(self).wf(),
        ensures
            final(self).wf(),
            final(self).input@ == old(self).input@,
            ({
                let s = old(self).input@;
                let q = old(self).position as nat;
                let e = digits_end(s, q);
                let d = s.subrange(q as int, e as int);
                &&& final(self).position == e
                &&& digits_value(d) <= i64::MAX ==> r is Ok && r->Ok_0@ == TokenView::Integer(
                    digits_value(d) as i64,
                )
                &&& digits_value(d) > i64::MAX ==> r is Err && r->Err_0.line == pos_line(s, e)
                    && r->Err_0.column == pos_col(s, e) && r->Err_0.message@ == failure_message(
                    LexFailure::InvalidNumber(d),
                )
            }),
    {
        let ghost s = self.input@;
        let ghost q = self.position as nat;
        let mut number: Vec<char> = Vec::new();
        while self.position < self.input.len() && is_digit(self.input[self.position])
            invariant
                self.wf(),
                self.input@ == s,
                q <= self.position,
                number@ == s.subrange(q as int, self.position as int),
                forall|j: int| 0 <= j < number@.len() ==> is_ascii_digit(#[trigger] number@[j]),
                digits_end(s, q) == digits_end(s, self.position as nat),
            decreases self.input.len() - self.position,
        {
            number.push(self.input[self.position]);
            self.advance();
            proof {
                assert(number@ =~= s.subrange(q as int, self.position as int));
            }
        }
        match parse_decimal(&number) {
            Some(n) => Ok(Token::Integer(n)),
            None => {
                let mut message = String::new();
                push_str(&mut message, "Invalid number: ");
                let digits = string_from_chars(&number);
                push_str(&mut message, digits.as_str());
                proof {
                    reveal_strlit("Invalid number: ");
                }
                Err(self.error(message))
            },
        }
    }

    fn read_identifier_or_keyword(&mut self) -> (r: Result<Token, LexError>)
        requires
            old(self).wf(),
        ensures
            final(self).wf(),
            final(self).input@ == old(self).input@,
            ({
                let s = old(self).input@;
                let q = old(self).position as nat;
                let e = word_end(s, q);
                &&& final(self).position == e
                &&& r is Ok
                &&& r->Ok_0@ == keyword_or_identifier(s.subrange(q as int, e as int))
            }),
            old(self).position < old(self).input.len() && (is_ascii_alnum(
                old(self).input@[old(self).position as int],
            ) || old(self).input@[old(self).position as int] == '_') ==> final(self).position
                > old(self).position,
    {
        let ghost s = self.input@;
        let ghost q = self.position as nat;
        let mut word: Vec<char> = Vec::new();
        while self.position < self.input.len()
            invariant_except_break
                self.wf(),
                self.input@ == s,
                q <= self.position,
                word@ == s.subrange(q as int, self.position as int),
                word_end(s, q) == word_end(s, self.position as nat),
            ensures
                self.wf(),
                self.input@ == s,
                q <= self.position,
                word@ == s.subrange(q as int, self.position as int),
                self.position == word_end(s, q),
                q < s.len() && (is_ascii_alnum(s[q as int]) || s[q as int] == '_') ==> q
                    < self.position,
            decreases self.input.len() - self.position,
        {
            let ch = self.input[self.position];
            if char_is_alphanumeric(ch) || ch == '_' {
                word.push(ch);
                self.advance();
                proof {
                    assert(word@ =~= s.subrange(q as int, self.position as int));
                }
            } else {
                break;
            }
        }
        Ok(keyword_token(&word))
    }

    /// Reads the next token.
    pub fn next_token(&mut self) -> (r: Result<Token, LexError>)
        requires
            old(self).wf(),
        ensures
            final(self).wf(),
            final(self).source() == old(self).source(),
            lex_step_matches(
                lex(old(self).source(), old(self).position()),
                old(self).source(),
                r,
                final(self).position(),
            ),
            old(self).position() <= final(self).position(),
            r is Ok && !(r->Ok_0 is Eof) ==> old(self).position() < final(self).position(),
            r is Ok && r->Ok_0 is Eof ==> final(self).position() == final(self).source().len(),
    {
        let ghost s = self.input@;
        let ghost p0 = self.position as nat;
        let skipped = self.skip_whitespace_and_comments();
        proof {
            lemma_skip_trivia_bounds(s, p0);
        }
        if let Err(e) = skipped {
            return Err(e);
        }
        if self.position >= self.input.len() {
            return Ok(Token::Eof);
        }
        let ch = self.input[self.position];
        let next = self.peek();
        proof {
            lemma_lex_at_progress(s, self.position as nat);
        }
        if ch == '=' && next == Some('=') {
            self.advance();
            self.advance();
            Ok(Token::Eq)
        } else if ch == '&' && next == Some('&') {
            self.advance();
            self.advance();
            Ok(Token::And)
        } else if ch == '|' && next == Some('|') {
            self.advance();
            self.advance();
            Ok(Token::Or)
        } else if ch == ';' {
            self.advance();
            Ok(Token::Semicolon)
        } else if ch == ':' {
            self.advance();
            Ok(Token::Colon)
        } else if ch == '{' {
            self.advance();
            Ok(Token::LeftBrace)
        } else if ch == '}' {
            self.advance();
            Ok(Token::RightBrace)
        } else if ch == ',' {
            self.advance();
            Ok(Token::Comma)
        } else if ch == '=' {
            self.advance();
            Ok(Token::Assign)
        } else if ch == '(' {
            self.advance();
            Ok(Token::LeftParen)
        } else if ch == ')' {
            self.advance();
            Ok(Token::RightParen)
        } else if ch == '&' {
            self.advance();
            Ok(Token::Address)
        } else if ch == '!' {
            self.advance();
            Ok(Token::Not)
        } else if ch == '-' {
            self.advance();
            Ok(Token::Minus)
        } else if ch == '+' {
            self.advance();
            Ok(Token::Plus)
        } else if ch == '*' {
            self.advance();
            Ok(Token::Multiply)
        } else if ch == '/' {
            self.advance();
            Ok(Token::Divide)
        } else if ch == '<' {
            self.advance();
            Ok(Token::Less)
        } else if ch == '\'' {
            self.read_character_literal()
        } else if ch == '"' {
            self.read_string_literal()
        } else if is_digit(ch) {
            self.read_number()
        } else if ('a' <= ch && ch <= 'z') || ('A' <= ch && ch <= 'Z') || ch == '_' {
            self.read_identifier_or_keyword()
        } else {
            let mut message = String::new();
            push_str(&mut message, "Unknown character: '");
            push_char(&mut message, ch);
            push_str(&mut message, "'");
            proof {
                reveal_strlit("Unknown character: '");
                reveal_strlit("'");
                assert(message@ =~= "Unknown character: '"@ + seq![ch] + "'"@);
            }
            Err(self.error(message))
        }
    }
}

/// How an executable result and the position after the call agree with a
/// step of the specification.
pub open spec fn lex_step_matches(
    step: LexStep,
    s: Seq<char>,
    r: Result<Token, LexError>,
    end: nat,
) -> bool {
    match step {
        LexStep::Produced(t, e) => r is Ok && r->Ok_0@ == t && end == e,
        LexStep::Failed(f, at) => r is Err && end == at && r->Err_0.line == pos_line(s, at)
            && r->Err_0.column == pos_col(s, at) && r->Err_0.message@ == failure_message(f),
    }
}

proof fn lemma_skip_trivia_bounds(s: Seq<char>, p: nat)
    ensures
        match skip_trivia(s, p) {
            Ok(q) => p <= q,
            Err(at) => p <= at,
        },
        p <= s.len() ==> match skip_trivia(s, p) {
            Ok(q) => q <= s.len(),
            Err(at) => at <= s.len(),
        },
    decreases s.len() - p,
{
    if p < s.len() {
        if unicode_whitespace(s[p as int]) {
            lemma_skip_trivia_bounds(s, p + 1);
        } else if s[p as int] == '/' && p + 1 < s.len() && s[(p + 1) as int] == '*' {
            lemma_comment_end(s, p + 2);
            let q = comment_end(s, p + 2);
            if q < s.len() {
                lemma_skip_trivia_bounds(s, q);
            }
        }
    }
}

proof fn lemma_string_body_bounds(s: Seq<char>, p: nat)
    ensures
        match string_body(s, p) {
            Ok((b, e)) => p < e && e <= s.len(),
            Err(at) => p <= at,
        },
    decreases s.len() - p,
{
    if p < s.len() && s[p as int] != '"' {
        if s[p as int] == '\\' {
            if p + 1 < s.len() {
                lemma_string_body_bounds(s, p + 2);
            }
        } else {
            lemma_string_body_bounds(s, p + 1);
        }
    }
}

proof fn lemma_runs(s: Seq<char>, p: nat)
    ensures
        p <= digits_end(s, p),
        p <= word_end(s, p),
        p <= s.len() ==> digits_end(s, p) <= s.len() && word_end(s, p) <= s.len(),
    decreases s.len() - p,
{
    if p < s.len() {
        lemma_runs(s, p + 1);
    }
}

/// A token that starts inside the text ends after its first character.
proof fn lemma_lex_at_progress(s: Seq<char>, q: nat)
    requires
        q < s.len(),
    ensures
        match lex_at(s, q) {
            LexStep::Produced(t, e) => q <= e && e <= s.len() && (q < e || ('a' <= s[q as int]
                && s[q as int] <= 'z') || ('A' <= s[q as int] && s[q as int] <= 'Z') || s[q as int]
                == '_'),
            LexStep::Failed(_, at) => q <= at,
        },
{
    lemma_string_body_bounds(s, q + 1);
    lemma_runs(s, q);
    lemma_runs(s, q + 1);
}

fn unescape_char(c: char) -> (r: char)
    ensures
        r == unescape(c),
{
    if c == 'n' {
        '\n'
    } else if c == 't' {
        '\t'
    } else if c == 'r' {
        '\r'
    } else {
        c
    }
}

fn is_digit(c: char) -> (r: bool)
    ensures
        r == is_ascii_digit(c),
{
    '0' <= c && c <= '9'
}

proof fn lemma_digits_value_monotone(d: Seq<char>, c: char)
    requires
        is_ascii_digit(c),
    ensures
        digits_value(d.push(c)) == digits_value(d) * 10 + ((c as nat) - 48),
        digits_value(d.push(c)) >= digits_value(d),
{
    assert(d.push(c).drop_last() =~= d);
}

/// The value of a string of ASCII digits, `None` when it exceeds `i64::MAX`.
fn parse_decimal(digits: &Vec<char>) -> (r: Option<i64>)
    requires
        forall|i: int| 0 <= i < digits@.len() ==> is_ascii_digit(#[trigger] digits@[i]),
    ensures
        digits_value(digits@) <= i64::MAX ==> r == Some(digits_value(digits@) as i64),
        digits_value(digits@) > i64::MAX ==> r is None,
{
    let mut value: i64 = 0;
    let mut overflow = false;
    let mut i: usize = 0;
    while i < digits.len()
        invariant
            i <= digits.len(),
            forall|j: int| 0 <= j < digits@.len() ==> is_ascii_digit(#[trigger] digits@[j]),
            !overflow ==> value == digits_value(digits@.subrange(0, i as int)),
            overflow ==> digits_value(digits@.subrange(0, i as int)) > i64::MAX,
            value >= 0,
        decreases digits.len() - i,
    {
        let c = digits[i];
        let d = (c as u32 - 48) as i64;
        proof {
            lemma_digits_value_monotone(digits@.subrange(0, i as int), c);
            assert(digits@.subrange(0, i as int).push(c) =~= digits@.subrange(0, i + 1));
        }
        if !overflow {
            if value > (i64::MAX - d) / 10 {
                overflow = true;
            } else {
                value = value * 10 + d;
            }
        }
        i += 1;
    }
    proof {
        assert(digits@.subrange(0, digits@.len() as int) =~= digits@);
    }
    if overflow {
        None
    } else {
        Some(value)
    }
}

fn keyword_token(word: &Vec<char>) -> (t: Token)
    ensures
        t@ == keyword_or_identifier(word@),
{
    if same_chars(word, &['c', 'h', 'a', 'r']) {
        Token::Char
    } else if same_chars(word, &['e', 'l', 's', 'e']) {
        Token::Else
    } else if same_chars(word, &['i', 'f']) {
        Token::If
    } else if same_chars(word, &['i', 'n', 't']) {
        Token::Int
    } else if same_chars(word, &['l', 'o', 'n', 'g']) {
        Token::Long
    } else if same_chars(word, &['r', 'e', 't', 'u', 'r', 'n']) {
        Token::Return
    } else if same_chars(word, &['v', 'o', 'i', 'd']) {
        Token::Void
    } else if same_chars(word, &['w', 'h', 'i', 'l', 'e']) {
        Token::While
    } else {
        Token::Identifier(string_from_chars(word))
    }
}

} // verus!
