//! Lexical tokens: a kind tag, the original text, an optional literal
//! payload (string or number) and the source line it came from.
use vstd::prelude::*;

verus! {

/// Every kind of lexeme the language knows.
#[derive(Clone, Copy, Debug, PartialEq, Eq, Structural)]
pub enum TokenType {
    // single character tokens
    LeftParen,
    RightParen,
    LeftBrace,
    RightBrace,
    Comma,
    Dot,
    Minus,
    Plus,
    Semicolon,
    Slash,
    Star,
    // one or two character tokens
    Bang,
    BangEqual,
    Equal,
    EqualEqual,
    Greater,
    GreaterEqual,
    Less,
    LessEqual,
    // literals
    Identifier,
    String,
    Number,
    // keywords
    And,
    Class,
    Else,
    False,
    Fun,
    For,
    If,
    Nil,
    Or,
    Print,
    Return,
    Super,
    This,
    True,
    Var,
    While,
    Eof,
}

/// A literal payload carried by a string or number token.
/// Numbers are 64-bit signed integers.
#[derive(Clone, Debug)]
pub enum Literal {
    StringLiteral(String),
    NumberLiteral(i64),
}

/// Mathematical image of a `Literal`.
pub ghost enum LiteralG {
    Str(Seq<char>),
    Num(i64),
}

impl View for Literal {
    type V = LiteralG;

    open spec fn view(&self) -> LiteralG {
        match self {
            Literal::StringLiteral(s) => LiteralG::Str(s@),
            Literal::NumberLiteral(n) => LiteralG::Num(*n),
        }
    }
}

/// One token of the source text.
#[derive(Clone, Debug)]
pub struct Token {
    pub token_type: TokenType,
    pub lexeme: String,
    pub literal: Option<Literal>,
    pub line: u32,
}

/// Mathematical image of a `Token`.
pub ghost struct TokenG {
    pub token_type: TokenType,
    pub lexeme: Seq<char>,
    pub literal: Option<LiteralG>,
    pub line: u32,
}

impl View for Token {
    type V = TokenG;

    open spec fn view(&self) -> TokenG {
        TokenG {
            token_type: self.token_type,
            lexeme: self.lexeme@,
            literal: match self.literal {
                Option::Some(l) => Option::Some(l@),
                Option::None => Option::None,
            },
            line: self.line,
        }
    }
}

impl Token {
    /// A token with no text of its own, such as the end-of-file sentinel.
    pub fn empty_token(token_type: TokenType, line: u32) -> (t: Token)
        ensures
            t.token_type == token_type,
            t.lexeme@ == Seq::<char>::empty(),
            t.literal is None,
            t.line == line,
    {
        Token { token_type, lexeme: String::new(), literal: None, line }
    }

    /// A token that carries its text and no literal payload.
    pub fn simple_token(token_type: TokenType, lexeme: String, line: u32) -> (t: Token)
        ensures
            t == (Token { token_type, lexeme, literal: None::<Literal>, line }),
    {
        Token { token_type, lexeme, literal: None, line }
    }

    /// A token that carries its text and a literal payload.
    pub fn literal_token(token_type: TokenType, lexeme: String, literal: Literal, line: u32) -> (t:
        Token)
        ensures
            t == (Token { token_type, lexeme, literal: Some(literal), line }),
    {
        Token { token_type, lexeme, literal: Some(literal), line }
    }
}

/// An exact copy of a literal: the copy equals the original.
pub fn clone_literal(l: &Literal) -> (r: Literal)
    ensures
        r == *l,
{
    match l {
        Literal::StringLiteral(s) => Literal::StringLiteral(s.clone()),
        Literal::NumberLiteral(n) => Literal::NumberLiteral(*n),
    }
}

/// An exact copy of a token: the copy equals the original.
pub fn clone_token(t: &Token) -> (r: Token)
    ensures
        r == *t,
{
    let literal = match &t.literal {
        Some(l) => Some(clone_literal(l)),
        None => None,
    };
    Token { token_type: t.token_type, lexeme: t.lexeme.clone(), literal, line: t.line }
}

/// An exact copy of a token list.
pub fn clone_tokens(ts: &Vec<Token>) -> (r: Vec<Token>)
    ensures
        r@ == ts@,
{
    let mut r: Vec<Token> = Vec::new();
    let mut i: usize = 0;
    while i < ts.len()
        invariant
            i <= ts.len(),
            r@ == ts@.subrange(0, i as int),
        decreases ts.len() - i,
    {
        r.push(clone_token(&ts[i]));
        assert(r@ =~= ts@.subrange(0, i + 1 as int));
        i = i + 1;
    }
    assert(r@ =~= ts@);
    r
}

} // verus!
