//! The scanner: source text in, a finite token stream out, always
//! terminated by an end-of-file sentinel. Numbers are 64-bit integers;
//! a literal with a fractional part or one too large to represent is
//! reported through the error reporter and yields no token.
use vstd::prelude::*;

use crate::error::RloxError;
use crate::strutil::{push_char, str_eq};
use crate::token::{Literal, Token, TokenType};
use crate::ErrorReporter;
use vstd::string::StrSliceExecFns;

verus! {

/// Whether a character is an ASCII decimal digit.
pub open spec fn is_digit(c: char) -> bool {
    48 <= c as u32 <= 57
}

/// Whether a character can start an identifier: an ASCII letter or an
/// underscore.
pub open spec fn is_ident_start(c: char) -> bool {
    (65 <= c as u32 <= 90) || (97 <= c as u32 <= 122) || c as u32 == 95
}

/// The numeric value of a digit string.
pub open spec fn digits_value(s: Seq<char>) -> int
    decreases s.len(),
{
    if s.len() == 0 {
        0
    } else {
        digits_value(s.drop_last()) * 10 + (s.last() as u32 - 48)
    }
}

/// The token type a word denotes: its keyword, or a plain identifier.
pub open spec fn keyword_of(s: Seq<char>) -> TokenType {
    if s == "and"@ {
        TokenType::And
    } else if s == "class"@ {
        TokenType::Class
    } else if s == "else"@ {
        TokenType::Else
    } else if s == "false"@ {
        TokenType::False
    } else if s == "for"@ {
        TokenType::For
    } else if s == "fun"@ {
        TokenType::Fun
    } else if s == "if"@ {
        TokenType::If
    } else if s == "nil"@ {
        TokenType::Nil
    } else if s == "or"@ {
        TokenType::Or
    } else if s == "print"@ {
        TokenType::Print
    } else if s == "return"@ {
        TokenType::Return
    } else if s == "super"@ {
        TokenType::Super
    } else if s == "this"@ {
        TokenType::This
    } else if s == "true"@ {
        TokenType::True
    } else if s == "var"@ {
        TokenType::Var
    } else if s == "while"@ {
        TokenType::While
    } else {
        TokenType::Identifier
    }
}

/// Whether a character is an ASCII decimal digit.
fn digit(c: char) -> (r: bool)
    ensures
        r == is_digit(c),
{
    let u = c as u32;
    48 <= u && u <= 57
}

/// Whether a character can start an identifier.
fn ident_start(c: char) -> (r: bool)
    ensures
        r == is_ident_start(c),
{
    let u = c as u32;
    (65 <= u && u <= 90) || (97 <= u && u <= 122) || u == 95
}

/// The characters of a slice of the source, as one string.
fn build_string(src: &Vec<char>, start: usize, end: usize) -> (s: String)
    requires
        start <= end <= src@.len(),
    ensures
        s@ == src@.subrange(start as int, end as int),
{
    let mut s = String::new();
    let mut i: usize = start;
    while i < end
        invariant
            start <= i <= end <= src@.len(),
            s@ == src@.subrange(start as int, i as int),
        decreases end - i,
    {
        push_char(&mut s, src[i]);
        proof {
            assert(s@ =~= src@.subrange(start as int, i + 1 as int));
        }
        i = i + 1;
    }
    s
}

/// The keyword or identifier type of a word.
fn lookup_keyword(s: &str) -> (t: TokenType)
    ensures
        t == keyword_of(s@),
{
    if str_eq(s, "and") {
        TokenType::And
    } else if str_eq(s, "class") {
        TokenType::Class
    } else if str_eq(s, "else") {
        TokenType::Else
    } else if str_eq(s, "false") {
        TokenType::False
    } else if str_eq(s, "for") {
        TokenType::For
    } else if str_eq(s, "fun") {
        TokenType::Fun
    } else if str_eq(s, "if") {
        TokenType::If
    } else if str_eq(s, "nil") {
        TokenType::Nil
    } else if str_eq(s, "or") {
        TokenType::Or
    } else if str_eq(s, "print") {
        TokenType::Print
    } else if str_eq(s, "return") {
        TokenType::Return
    } else if str_eq(s, "super") {
        TokenType::Super
    } else if str_eq(s, "this") {
        TokenType::This
    } else if str_eq(s, "true") {
        TokenType::True
    } else if str_eq(s, "var") {
        TokenType::Var
    } else if str_eq(s, "while") {
        TokenType::While
    } else {
        TokenType::Identifier
    }
}

/// Whether one token's literal payload agrees with its type and its
/// text: a number token carries the value of its digits, a string token
/// carries its text without the enclosing quotes, and every other token
/// carries nothing.
pub open spec fn token_wf(t: Token) -> bool {
    match t.token_type {
        TokenType::Number => t.literal matches Some(Literal::NumberLiteral(n)) && n as int
            == digits_value(t.lexeme@),
        TokenType::String => t.literal matches Some(Literal::StringLiteral(s)) && t.lexeme@.len()
            >= 2 && s@ == t.lexeme@.subrange(1, t.lexeme@.len() - 1),
        _ => t.literal is None,
    }
}

/// Whether every token of a stream is well formed.
pub open spec fn tokens_wf(tokens: Seq<Token>) -> bool {
    forall|i: int| 0 <= i < tokens.len() ==> token_wf(#[trigger] tokens[i])
}

/// The scanner's state: the source, the tokens found so far, where the
/// current lexeme starts, how far scanning has come, and the line count.
pub struct Scanner {
    pub source: String,
    pub tokens: Vec<Token>,
    pub error_reporter: ErrorReporter,
    pub start: usize,
    pub current: usize,
    pub line: u32,
}

impl Scanner {
    /// A scanner at the beginning of the given source.
    pub fn new(source: String, error_reporter: ErrorReporter) -> (s: Scanner)
        ensures
            s.source == source,
            s.tokens@ == Seq::<Token>::empty(),
            s.error_reporter == error_reporter,
            s.current == 0,
            s.line == 1,
    {
        Scanner { source, tokens: Vec::new(), error_reporter, start: 0, current: 0, line: 1 }
    }

    /// The tokens scanned so far.
    pub fn tokens(&self) -> (r: &Vec<Token>)
        ensures
            r == &self.tokens,
    {
        &self.tokens
    }

    /// Scans the whole source. The resulting stream is never empty, ends
    /// with the end-of-file sentinel, and every literal payload agrees
    /// with its token's type. Malformed lexemes are reported through the
    /// error reporter and yield no token.
    pub fn scan_tokens(&mut self) -> (r: Result<(), RloxError>)
        requires
            old(self).tokens@ == Seq::<Token>::empty(),
        ensures
            r is Ok,
            final(self).tokens@.len() >= 1,
            final(self).tokens@.last().token_type == TokenType::Eof,
            tokens_wf(final(self).tokens@),
    {
        let src: Vec<char> = chars_of(&self.source);
        self.current = 0;
        while self.current < src.len()
            invariant
                self.current <= src@.len(),
                tokens_wf(self.tokens@),
            decreases src@.len() - self.current,
        {
            self.start = self.current;
            self.scan_token(&src);
        }
        let line = self.line;
        self.tokens.push(Token::empty_token(TokenType::Eof, line));
        proof {
            assert(tokens_wf(self.tokens@));
        }
        Ok(())
    }

    /// Scans one lexeme, advancing at least one character.
    fn scan_token(&mut self, src: &Vec<char>)
        requires
            old(self).current < src@.len(),
            tokens_wf(old(self).tokens@),
        ensures
            old(self).current < final(self).current <= src@.len(),
            tokens_wf(final(self).tokens@),
    {
        let _n = src.len();
        self.start = self.current;
        let c = src[self.current];
        self.current = self.current + 1;
        if c == '(' {
            self.add_token(TokenType::LeftParen, src);
        } else if c == ')' {
            self.add_token(TokenType::RightParen, src);
        } else if c == '{' {
            self.add_token(TokenType::LeftBrace, src);
        } else if c == '}' {
            self.add_token(TokenType::RightBrace, src);
        } else if c == ',' {
            self.add_token(TokenType::Comma, src);
        } else if c == '.' {
            self.add_token(TokenType::Dot, src);
        } else if c == '-' {
            self.add_token(TokenType::Minus, src);
        } else if c == '+' {
            self.add_token(TokenType::Plus, src);
        } else if c == ';' {
            self.add_token(TokenType::Semicolon, src);
        } else if c == '*' {
            self.add_token(TokenType::Star, src);
        } else if c == '!' {
            let t = if self.match_next(src, '=') {
                TokenType::BangEqual
            } else {
                TokenType::Bang
            };
            self.add_token(t, src);
        } else if c == '=' {
            let t = if self.match_next(src, '=') {
                TokenType::EqualEqual
            } else {
                TokenType::Equal
            };
            self.add_token(t, src);
        } else if c == '<' {
            let t = if self.match_next(src, '=') {
                TokenType::LessEqual
            } else {
                TokenType::Less
            };
            self.add_token(t, src);
        } else if c == '>' {
            let t = if self.match_next(src, '=') {
                TokenType::GreaterEqual
            } else {
                TokenType::Greater
            };
            self.add_token(t, src);
        } else if c == '/' {
            if self.match_next(src, '/') {
                // a comment runs to the end of the line
                while self.current < src.len() && src[self.current] != '\n'
                    invariant
                        old(self).current < self.current <= src@.len(),
                        self.tokens == old(self).tokens,
                    decreases src@.len() - self.current,
                {
                    self.current = self.current + 1;
                }
            } else {
                self.add_token(TokenType::Slash, src);
            }
        } else if c == ' ' || c == '\r' || c == '\t' {
            // skip whitespace
        } else if c == '\n' {
            if self.line < u32::MAX {
                self.line = self.line + 1;
            }
        } else if c == '"' {
            self.string_literal(src);
        } else if digit(c) {
            self.number_literal(src);
        } else if ident_start(c) {
            self.identifier(src);
        } else {
            let line = self.line;
            self.error_reporter.error(line, "unexpected character");
        }
    }

    /// Scans the rest of a string literal, the opening quote already
    /// consumed. Strings may span lines; an unterminated one is an error
    /// and yields no token.
    fn string_literal(&mut self, src: &Vec<char>)
        requires
            old(self).current <= src@.len(),
            old(self).start < old(self).current,
            tokens_wf(old(self).tokens@),
        ensures
            old(self).current <= final(self).current <= src@.len(),
            tokens_wf(final(self).tokens@),
    {
        while self.current < src.len() && src[self.current] != '"'
            invariant
                old(self).current <= self.current <= src@.len(),
                self.start == old(self).start,
                self.tokens == old(self).tokens,
            decreases src@.len() - self.current,
        {
            if src[self.current] == '\n' && self.line < u32::MAX {
                self.line = self.line + 1;
            }
            self.current = self.current + 1;
        }
        if self.current >= src.len() {
            let line = self.line;
            self.error_reporter.error(line, "unterminated string");
            return ;
        }
        // consume the closing quote
        self.current = self.current + 1;
        let text = build_string(src, self.start + 1, self.current - 1);
        self.add_literal_token(TokenType::String, Literal::StringLiteral(text), src);
    }

    /// Scans the rest of a number literal. A fractional part or a value
    /// beyond 64-bit range is reported and yields no token.
    fn number_literal(&mut self, src: &Vec<char>)
        requires
            old(self).start <= old(self).current <= src@.len(),
            old(self).start < old(self).current,
            forall|j: int|
                old(self).start <= j < old(self).current ==> is_digit(#[trigger] src@[j]),
            tokens_wf(old(self).tokens@),
        ensures
            old(self).current <= final(self).current <= src@.len(),
            tokens_wf(final(self).tokens@),
    {
        while self.current < src.len() && digit(src[self.current])
            invariant
                old(self).current <= self.current <= src@.len(),
                self.start == old(self).start,
                self.tokens == old(self).tokens,
                self.error_reporter == old(self).error_reporter,
                forall|j: int| self.start <= j < self.current ==> is_digit(#[trigger] src@[j]),
            decreases src@.len() - self.current,
        {
            self.current = self.current + 1;
        }
        if self.current < src.len() && src[self.current] == '.' && self.current + 1 < src.len()
            && digit(src[self.current + 1]) {
            // the grammar admits a fractional part, but the numeric
            // domain here is 64-bit integers: consume and reject
            self.current = self.current + 2;
            while self.current < src.len() && digit(src[self.current])
                invariant
                    old(self).current <= self.current <= src@.len(),
                    self.tokens == old(self).tokens,
                decreases src@.len() - self.current,
            {
                self.current = self.current + 1;
            }
            let line = self.line;
            self.error_reporter.error(line, "fractional number literals are not supported");
            return ;
        }
        match self.parse_digits(src) {
            Some(n) => {
                self.add_literal_token(TokenType::Number, Literal::NumberLiteral(n), src);
            },
            None => {
                let line = self.line;
                self.error_reporter.error(line, "number literal does not fit in 64 bits");
            },
        }
    }

    /// The value of the digits between `start` and `current`, if it fits.
    fn parse_digits(&self, src: &Vec<char>) -> (r: Option<i64>)
        requires
            self.start <= self.current <= src@.len(),
            forall|j: int| self.start <= j < self.current ==> is_digit(#[trigger] src@[j]),
        ensures
            match r {
                Some(n) => n as int == digits_value(
                    src@.subrange(self.start as int, self.current as int),
                ),
                None => digits_value(src@.subrange(self.start as int, self.current as int))
                    > i64::MAX,
            },
    {
        let mut acc: i64 = 0;
        let mut i: usize = self.start;
        proof {
            assert(src@.subrange(self.start as int, self.start as int) =~= Seq::<char>::empty());
        }
        while i < self.current
            invariant
                self.start <= i <= self.current <= src@.len(),
                forall|j: int| self.start <= j < self.current ==> is_digit(#[trigger] src@[j]),
                0 <= acc,
                acc as int == digits_value(src@.subrange(self.start as int, i as int)),
            decreases self.current - i,
        {
            let d = (src[i] as u32) as i64 - 48;
            proof {
                lemma_digits_value_nonneg(src@.subrange(self.start as int, i as int));
                assert(src@.subrange(self.start as int, i + 1 as int).drop_last() =~= src@.subrange(
                    self.start as int,
                    i as int,
                ));
            }
            if acc > (i64::MAX - d) / 10 {
                proof {
                    lemma_digits_value_grows(
                        src@.subrange(self.start as int, self.current as int),
                        i + 1 - self.start,
                    );
                    assert(src@.subrange(self.start as int, self.current as int).take(
                        i + 1 - self.start,
                    ) =~= src@.subrange(self.start as int, i + 1 as int));
                }
                return None;
            }
            acc = acc * 10 + d;
            i = i + 1;
        }
        proof {
            assert(src@.subrange(self.start as int, self.current as int) =~= src@.subrange(
                self.start as int,
                i as int,
            ));
        }
        Some(acc)
    }

    /// Scans the rest of an identifier or keyword.
    fn identifier(&mut self, src: &Vec<char>)
        requires
            old(self).current <= src@.len(),
            old(self).start < old(self).current,
            tokens_wf(old(self).tokens@),
        ensures
            old(self).current <= final(self).current <= src@.len(),
            tokens_wf(final(self).tokens@),
    {
        while self.current < src.len() && (digit(src[self.current]) || ident_start(
            src[self.current],
        ))
            invariant
                old(self).current <= self.current <= src@.len(),
                self.start == old(self).start,
                self.tokens == old(self).tokens,
            decreases src@.len() - self.current,
        {
            self.current = self.current + 1;
        }
        let lexeme = build_string(src, self.start, self.current);
        let token_type = lookup_keyword(lexeme.as_str());
        proof {
            assert(!(keyword_of(lexeme@) is Number));
            assert(!(keyword_of(lexeme@) is String));
        }
        let line = self.line;
        self.tokens.push(Token::simple_token(token_type, lexeme, line));
    }

    /// Records a token with no literal payload, its text the current
    /// lexeme.
    fn add_token(&mut self, token_type: TokenType, src: &Vec<char>)
        requires
            old(self).start <= old(self).current <= src@.len(),
            tokens_wf(old(self).tokens@),
            !(token_type is Number),
            !(token_type is String),
        ensures
            *final(self) == (Scanner {
                tokens: final(self).tokens,
                ..*old(self)
            }),
            tokens_wf(final(self).tokens@),
    {
        let lexeme = build_string(src, self.start, self.current);
        let line = self.line;
        self.tokens.push(Token::simple_token(token_type, lexeme, line));
    }

    /// Records a token with a literal payload, its text the current
    /// lexeme.
    fn add_literal_token(&mut self, token_type: TokenType, literal: Literal, src: &Vec<char>)
        requires
            old(self).start <= old(self).current <= src@.len(),
            tokens_wf(old(self).tokens@),
            token_type is Number ==> (literal matches Literal::NumberLiteral(n) && n as int
                == digits_value(
                src@.subrange(old(self).start as int, old(self).current as int),
            )),
            token_type is String ==> (literal matches Literal::StringLiteral(text)
                && old(self).current - old(self).start >= 2 && text@ == src@.subrange(
                old(self).start + 1,
                old(self).current - 1,
            )),
            !(token_type is Number) && !(token_type is String) ==> false,
        ensures
            *final(self) == (Scanner {
                tokens: final(self).tokens,
                ..*old(self)
            }),
            tokens_wf(final(self).tokens@),
    {
        let lexeme = build_string(src, self.start, self.current);
        proof {
            if token_type is String {
                assert(src@.subrange(self.start as int, self.current as int).subrange(
                    1,
                    src@.subrange(self.start as int, self.current as int).len() - 1,
                ) =~= src@.subrange(self.start + 1, self.current - 1));
            }
        }
        let line = self.line;
        self.tokens.push(Token::literal_token(token_type, lexeme, literal, line));
    }

    /// Consumes the next character when it is the expected one.
    fn match_next(&mut self, src: &Vec<char>, expected: char) -> (r: bool)
        requires
            old(self).current <= src@.len(),
        ensures
            *final(self) == (Scanner { current: final(self).current, ..*old(self) }),
            r ==> old(self).current < src@.len() && src@[old(self).current as int] == expected
                && final(self).current == old(self).current + 1,
            !r ==> final(self).current == old(self).current && (old(self).current == src@.len()
                || src@[old(self).current as int] != expected),
    {
        if self.current >= src.len() {
            return false;
        }
        if src[self.current] != expected {
            return false;
        }
        self.current = self.current + 1;
        true
    }
}

/// The digits of a number are worth at least zero.
proof fn lemma_digits_value_nonneg(s: Seq<char>)
    requires
        forall|j: int| 0 <= j < s.len() ==> is_digit(#[trigger] s[j]),
    ensures
        digits_value(s) >= 0,
    decreases s.len(),
{
    if s.len() > 0 {
        lemma_digits_value_nonneg(s.drop_last());
    }
}

/// A prefix of a digit string is worth no more than the whole.
proof fn lemma_digits_value_grows(s: Seq<char>, k: int)
    requires
        forall|j: int| 0 <= j < s.len() ==> is_digit(#[trigger] s[j]),
        0 <= k <= s.len(),
    ensures
        digits_value(s.take(k)) <= digits_value(s),
    decreases s.len() - k,
{
    if k < s.len() {
        lemma_digits_value_grows(s, k + 1);
        lemma_digits_value_nonneg(s.take(k));
        assert(s.take(k + 1).drop_last() =~= s.take(k));
        assert(digits_value(s.take(k)) <= digits_value(s.take(k + 1)));
    } else {
        assert(s.take(k) =~= s);
    }
}

/// The characters of a string, in order, as a vector.
fn chars_of(s: &String) -> (r: Vec<char>)
    ensures
        r@ == s@,
{
    let slice = s.as_str();
    let n = slice.unicode_len();
    let mut r: Vec<char> = Vec::new();
    let mut i: usize = 0;
    while i < n
        invariant
            i <= n,
            n == slice@.len(),
            slice@ == s@,
            r@ == s@.subrange(0, i as int),
        decreases n - i,
    {
        r.push(slice.get_char(i));
        proof {
            assert(r@ =~= s@.subrange(0, i + 1 as int));
        }
        i = i + 1;
    }
    proof {
        assert(r@ =~= s@);
    }
    r
}

} // verus!
