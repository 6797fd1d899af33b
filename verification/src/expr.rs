//! Expression trees. Variable references and assignment targets carry a
//! node identifier, assigned fresh by the parser, that keys the resolver's
//! distance map.
use vstd::prelude::*;

use crate::token::Token;

verus! {

/// A literal appearing in the source text.
#[derive(Clone, Debug)]
pub enum LiteralValue {
    String(String),
    Number(i64),
    Boolean(bool),
    Nil(),
}

/// Mathematical image of a `LiteralValue`.
pub ghost enum LiteralValueG {
    Str(Seq<char>),
    Num(i64),
    Bool(bool),
    Nil,
}

impl View for LiteralValue {
    type V = LiteralValueG;

    open spec fn view(&self) -> LiteralValueG {
        match self {
            LiteralValue::String(s) => LiteralValueG::Str(s@),
            LiteralValue::Number(n) => LiteralValueG::Num(*n),
            LiteralValue::Boolean(b) => LiteralValueG::Bool(*b),
            LiteralValue::Nil() => LiteralValueG::Nil,
        }
    }
}

/// An expression. The `u64` on `Assign` and `Variable` is the node
/// identifier under which the resolver records a lexical distance.
/// `Get`, `Set`, `Super` and `This` are reserved for a class system the
/// evaluator does not implement.
#[derive(Debug)]
pub enum Expr {
    Assign(Token, Box<Expr>, u64),
    Binary(Box<Expr>, Token, Box<Expr>),
    Call(Box<Expr>, Token, Vec<Expr>),
    Get(Box<Expr>, Token),
    Grouping(Box<Expr>),
    Literal(LiteralValue),
    Logical(Box<Expr>, Token, Box<Expr>),
    SetProp(Box<Expr>, Token, Box<Expr>),
    Super(Token, Token),
    This(Token),
    Unary(Token, Box<Expr>),
    Variable(Token, u64),
}

/// The rendering of an expression that `sorta_pretty_print` produces:
/// binary and unary nodes appear as parenthesized prefix terms, literals
/// as their text, everything else as the empty string.
pub open spec fn pretty_of(e: Expr) -> Seq<char>
    decreases e,
{
    match e {
        Expr::Binary(l, t, r) => seq!['(']
            + t.lexeme@
            + seq![' ']
            + pretty_of(*l)
            + seq![' ']
            + pretty_of(*r)
            + seq![')'],
        Expr::Grouping(inner) => seq!['('] + seq![' '] + pretty_of(*inner) + seq![')'],
        Expr::Unary(t, inner) => seq!['('] + t.lexeme@ + seq![' '] + pretty_of(*inner) + seq![')'],
        Expr::Literal(l) => pretty_literal(l@),
        _ => Seq::<char>::empty(),
    }
}

/// The rendering of a literal: its text for strings, its decimal digits
/// for numbers, `true`/`false` for booleans and `nil` for nil.
pub open spec fn pretty_literal(l: LiteralValueG) -> Seq<char> {
    match l {
        LiteralValueG::Str(s) => s,
        LiteralValueG::Num(n) => crate::numtext::dec_of(n as int),
        LiteralValueG::Bool(b) => if b {
            "true"@
        } else {
            "false"@
        },
        LiteralValueG::Nil => "nil"@,
    }
}

impl Expr {
    /// Renders the operator-bearing fragment of an expression tree for
    /// debugging, exactly as `pretty_of` describes.
    pub fn sorta_pretty_print(expr: &Expr) -> (out: String)
        ensures
            out@ == pretty_of(*expr),
        decreases *expr,
    {
        match expr {
            Expr::Binary(l, t, r) => {
                let left = Self::sorta_pretty_print(l);
                let right = Self::sorta_pretty_print(r);
                let mut parts: Vec<String> = Vec::new();
                parts.push(left);
                parts.push(right);
                let out = Self::parenthesize(&t.lexeme, &parts);
                proof {
                    assert(parts@.map_values(|p: String| p@)
                        =~= seq![pretty_of(**l), pretty_of(**r)]);
                    assert(joined(Seq::<Seq<char>>::empty()) =~= Seq::<char>::empty());
                    assert(seq![pretty_of(**l), pretty_of(**r)].drop_last() =~= seq![pretty_of(
                        **l,
                    )]);
                    assert(seq![pretty_of(**l)].drop_last() =~= Seq::<Seq<char>>::empty());
                    assert(joined(seq![pretty_of(**l)]) =~= seq![' '] + pretty_of(**l));
                    assert(joined(seq![pretty_of(**l), pretty_of(**r)]) =~= seq![' '] + pretty_of(
                        **l,
                    ) + seq![' '] + pretty_of(**r));
                    assert(out@ =~= pretty_of(*expr));
                }
                out
            },
            Expr::Grouping(e) => {
                let inner = Self::sorta_pretty_print(e);
                let mut parts: Vec<String> = Vec::new();
                parts.push(inner);
                let out = Self::parenthesize(&String::new(), &parts);
                proof {
                    assert(parts@.map_values(|p: String| p@) =~= seq![pretty_of(**e)]);
                    assert(joined(Seq::<Seq<char>>::empty()) =~= Seq::<char>::empty());
                    assert(seq![pretty_of(**e)].drop_last() =~= Seq::<Seq<char>>::empty());
                    assert(joined(seq![pretty_of(**e)]) =~= seq![' '] + pretty_of(**e));
                    assert(out@ =~= pretty_of(*expr));
                }
                out
            },
            Expr::Unary(t, e) => {
                let inner = Self::sorta_pretty_print(e);
                let mut parts: Vec<String> = Vec::new();
                parts.push(inner);
                let out = Self::parenthesize(&t.lexeme, &parts);
                proof {
                    assert(parts@.map_values(|p: String| p@) =~= seq![pretty_of(**e)]);
                    assert(joined(Seq::<Seq<char>>::empty()) =~= Seq::<char>::empty());
                    assert(seq![pretty_of(**e)].drop_last() =~= Seq::<Seq<char>>::empty());
                    assert(joined(seq![pretty_of(**e)]) =~= seq![' '] + pretty_of(**e));
                    assert(out@ =~= pretty_of(*expr));
                }
                out
            },
            Expr::Literal(l) => Self::print_literal(l),
            _ => String::new(),
        }
    }

    /// Renders a literal value as text.
    fn print_literal(l: &LiteralValue) -> (out: String)
        ensures
            out@ == pretty_literal(l@),
    {
        match l {
            LiteralValue::String(s) => s.clone(),
            LiteralValue::Number(n) => crate::numtext::i64_to_string(*n),
            LiteralValue::Boolean(b) => {
                if *b {
                    "true".to_owned()
                } else {
                    "false".to_owned()
                }
            },
            LiteralValue::Nil() => "nil".to_owned(),
        }
    }

    /// Joins already-rendered parts after a leading name, inside
    /// parentheses, each part preceded by one space.
    fn parenthesize(name: &String, parts: &Vec<String>) -> (out: String)
        ensures
            out@ == seq!['('] + name@ + joined(parts@.map_values(|p: String| p@)) + seq![')'],
    {
        let ghost views = parts@.map_values(|p: String| p@);
        let mut s = "(".to_owned();
        s.append(name.as_str());
        let mut i: usize = 0;
        proof {
            reveal_strlit("(");
            assert(s@ =~= seq!['('] + name@ + joined(views.subrange(0, 0)));
        }
        while i < parts.len()
            invariant
                i <= parts.len(),
                views == parts@.map_values(|p: String| p@),
                s@ == seq!['('] + name@ + joined(views.subrange(0, i as int)),
            decreases parts.len() - i,
        {
            s.append(" ");
            s.append(parts[i].as_str());
            proof {
                reveal_strlit(" ");
                assert(views.subrange(0, i + 1 as int).drop_last() =~= views.subrange(0, i as int));
                assert(s@ =~= seq!['('] + name@ + joined(views.subrange(0, i + 1 as int)));
            }
            i = i + 1;
        }
        s.append(")");
        proof {
            reveal_strlit(")");
            assert(views.subrange(0, views.len() as int) =~= views);
            assert(s@ =~= seq!['('] + name@ + joined(views) + seq![')']);
        }
        s
    }
}

/// The concatenation of the given pieces, each preceded by one space.
pub open spec fn joined(parts: Seq<Seq<char>>) -> Seq<char>
    decreases parts.len(),
{
    if parts.len() == 0 {
        Seq::<char>::empty()
    } else {
        joined(parts.drop_last()) + seq![' '] + parts.last()
    }
}

} // verus!
