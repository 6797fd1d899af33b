//! The recursive-descent parser: a token stream in, a statement list
//! out. Each production consumes tokens strictly left to right, so the
//! pair (tokens left, grammar level) shrinks on every recursive call and
//! parsing always terminates. A malformed stream is a `ParseError`.
use vstd::prelude::*;

use std::rc::Rc;

use crate::error::RloxError;
use crate::expr::{Expr, LiteralValue};
use crate::stmt::Stmt;
use crate::token::{clone_token, Literal, Token, TokenType};
use crate::ErrorReporter;

verus! {

/// The parser's state: the tokens, how far parsing has come, and the
/// counter that hands fresh node identifiers to `Variable` and `Assign`
/// expressions.
pub struct Parser<'a> {
    pub tokens: &'a Vec<Token>,
    pub error_reporter: ErrorReporter,
    pub current: usize,
    pub next_id: u64,
}

/// Whether the parser stands at the end of its input: past the last
/// token, or on the end-of-file sentinel.
pub open spec fn spec_at_end(p: Parser<'_>) -> bool {
    p.current >= p.tokens@.len() || p.tokens@[p.current as int].token_type is Eof
}


/// The node identifiers an expression carries, in traversal order:
/// `Variable` and `Assign` nodes have one each, other nodes only what
/// their children carry.
pub open spec fn expr_ids(e: Expr) -> Seq<u64>
    decreases e, 0int, 0int,
{
    match e {
        Expr::Assign(_t, rhs, id) => expr_ids(*rhs).push(id),
        Expr::Binary(l, _t, r) => expr_ids(*l) + expr_ids(*r),
        Expr::Call(callee, _t, args) => expr_ids(*callee) + exprs_ids(args@, 0),
        Expr::Grouping(inner) => expr_ids(*inner),
        Expr::Logical(l, _t, r) => expr_ids(*l) + expr_ids(*r),
        Expr::Unary(_t, inner) => expr_ids(*inner),
        Expr::Variable(_t, id) => seq![id],
        _ => Seq::empty(),
    }
}

/// The node identifiers of an expression list from position `i` on.
pub open spec fn exprs_ids(args: Seq<Expr>, i: int) -> Seq<u64>
    decreases args, args.len() - i, 1int,
{
    if !(0 <= i < args.len()) {
        Seq::empty()
    } else {
        expr_ids(args[i]) + exprs_ids(args, i + 1)
    }
}

/// The node identifiers a statement carries.
pub open spec fn stmt_ids(s: Stmt) -> Seq<u64>
    decreases s, 0int, 0int,
{
    match s {
        Stmt::Block(stmts) => stmts_ids(stmts@, 0),
        Stmt::Class => Seq::empty(),
        Stmt::Expression(e) => expr_ids(e),
        Stmt::Function { name: _, params: _, body } => stmts_ids(body@, 0),
        Stmt::If { condition, then_branch, else_branch } => expr_ids(condition) + stmt_ids(
            *then_branch,
        ) + (match else_branch {
            Some(el) => stmt_ids(*el),
            None => Seq::empty(),
        }),
        Stmt::Print(e) => expr_ids(e),
        Stmt::Return { keyword: _, expr } => match expr {
            Some(e) => expr_ids(e),
            None => Seq::empty(),
        },
        Stmt::Var { name: _, initializer } => match initializer {
            Some(e) => expr_ids(e),
            None => Seq::empty(),
        },
        Stmt::While { condition, body } => expr_ids(condition) + stmt_ids(*body),
    }
}

/// The node identifiers of a statement list from position `i` on.
pub open spec fn stmts_ids(stmts: Seq<Stmt>, i: int) -> Seq<u64>
    decreases stmts, stmts.len() - i, 1int,
{
    if !(0 <= i < stmts.len()) {
        Seq::empty()
    } else {
        stmt_ids(stmts[i]) + stmts_ids(stmts, i + 1)
    }
}

/// Identifiers that the counter issued between `lo` and `hi`: all in
/// that half-open range, and pairwise distinct.
pub open spec fn fresh_ids(ids: Seq<u64>, lo: u64, hi: u64) -> bool {
    &&& forall|k: int| 0 <= k < ids.len() ==> lo <= #[trigger] ids[k] < hi
    &&& forall|i: int, j: int| 0 <= i < j < ids.len() ==> ids[i] != ids[j]
}

/// Fresh identifiers stay fresh in any wider range.
proof fn lemma_fresh_widen(ids: Seq<u64>, lo: u64, hi: u64, lo2: u64, hi2: u64)
    requires
        fresh_ids(ids, lo, hi),
        lo2 <= lo,
        hi <= hi2,
    ensures
        fresh_ids(ids, lo2, hi2),
{
}

/// Two fresh identifier runs over disjoint ranges concatenate to one
/// fresh run over any range covering both.
proof fn lemma_fresh_concat(
    a: Seq<u64>,
    alo: u64,
    ahi: u64,
    b: Seq<u64>,
    blo: u64,
    bhi: u64,
    lo: u64,
    hi: u64,
)
    requires
        fresh_ids(a, alo, ahi),
        fresh_ids(b, blo, bhi),
        lo <= alo,
        ahi <= hi,
        lo <= blo,
        bhi <= hi,
        ahi <= blo || bhi <= alo,
    ensures
        fresh_ids(a + b, lo, hi),
{
    assert forall|k: int| 0 <= k < (a + b).len() implies lo <= #[trigger] (a + b)[k] < hi by {
        if k < a.len() {
            assert((a + b)[k] == a[k]);
        } else {
            assert((a + b)[k] == b[k - a.len()]);
        }
    }
    assert forall|i: int, j: int| 0 <= i < j < (a + b).len() implies (a + b)[i] != (a + b)[j] by {
        if i < a.len() && j < a.len() {
            assert((a + b)[i] == a[i] && (a + b)[j] == a[j]);
        } else if i < a.len() {
            assert((a + b)[i] == a[i] && (a + b)[j] == b[j - a.len()]);
        } else {
            assert((a + b)[i] == b[i - a.len()] && (a + b)[j] == b[j - a.len()]);
        }
    }
}

/// One identifier at least as large as everything before it keeps a
/// fresh run fresh.
proof fn lemma_fresh_push(ids: Seq<u64>, id: u64, lo: u64, mid: u64, hi: u64)
    requires
        fresh_ids(ids, lo, mid),
        mid <= id < hi,
        lo <= mid,
    ensures
        fresh_ids(ids.push(id), lo, hi),
{
    assert forall|k: int| 0 <= k < ids.push(id).len() implies lo <= #[trigger] ids.push(id)[k]
        < hi by {
        if k < ids.len() {
            assert(ids.push(id)[k] == ids[k]);
        }
    }
    assert forall|i: int, j: int|
        0 <= i < j < ids.push(id).len() implies ids.push(id)[i] != ids.push(id)[j] by {
        if j < ids.len() {
            assert(ids.push(id)[i] == ids[i] && ids.push(id)[j] == ids[j]);
        } else {
            assert(ids.push(id)[i] == ids[i] && ids.push(id)[j] == id);
        }
    }
}

/// Appending a statement appends its identifiers.
proof fn lemma_stmts_ids_push(stmts: Seq<Stmt>, s: Stmt, i: int)
    requires
        0 <= i <= stmts.len(),
    ensures
        stmts_ids(stmts.push(s), i) == stmts_ids(stmts, i) + stmt_ids(s),
    decreases stmts.len() - i,
{
    if i == stmts.len() {
        assert(stmts.push(s)[i] == s);
        assert(stmts_ids(stmts.push(s), i + 1) =~= Seq::<u64>::empty());
        assert(stmts_ids(stmts.push(s), i) =~= stmts_ids(stmts, i) + stmt_ids(s));
    } else {
        lemma_stmts_ids_push(stmts, s, i + 1);
        assert(stmts.push(s)[i] == stmts[i]);
        assert(stmts_ids(stmts.push(s), i) =~= stmts_ids(stmts, i) + stmt_ids(s));
    }
}

/// Appending an expression appends its identifiers.
proof fn lemma_exprs_ids_push(args: Seq<Expr>, e: Expr, i: int)
    requires
        0 <= i <= args.len(),
    ensures
        exprs_ids(args.push(e), i) == exprs_ids(args, i) + expr_ids(e),
    decreases args.len() - i,
{
    if i == args.len() {
        assert(args.push(e)[i] == e);
        assert(exprs_ids(args.push(e), i + 1) =~= Seq::<u64>::empty());
        assert(exprs_ids(args.push(e), i) =~= exprs_ids(args, i) + expr_ids(e));
    } else {
        lemma_exprs_ids_push(args, e, i + 1);
        assert(args.push(e)[i] == args[i]);
        assert(exprs_ids(args.push(e), i) =~= exprs_ids(args, i) + expr_ids(e));
    }
}

impl<'a> Parser<'a> {
    /// The position never runs past the token list.
    pub open spec fn inv(&self) -> bool {
        self.current <= self.tokens@.len()
    }

    /// A parser at the beginning of the given tokens.
    pub fn new(tokens: &'a Vec<Token>, error_reporter: ErrorReporter) -> (p: Parser<'a>)
        ensures
            p.inv(),
            p.tokens == tokens,
            p.current == 0,
    {
        Parser { tokens, error_reporter, current: 0, next_id: 0 }
    }

    /// Parses the whole stream as a list of declarations. On success the
    /// whole input was consumed, and the node identifiers on the
    /// program's `Variable` and `Assign` expressions are pairwise
    /// distinct, so each keys its own entry of the resolution map.
    /// Parsing always terminates and a malformed stream is a
    /// `ParseError`.
    pub fn parse(&mut self) -> (r: Result<Vec<Stmt>, RloxError>)
        requires
            old(self).inv(),
        ensures
            final(self).inv(),
            final(self).tokens == old(self).tokens,
            r matches Err(err) ==> err@ is Parse,
            r is Ok ==> spec_at_end(*final(self)),
            r matches Ok(stmts) ==> fresh_ids(
                stmts_ids(stmts@, 0),
                old(self).next_id,
                final(self).next_id,
            ),
    {
        let mut stmts: Vec<Stmt> = Vec::new();
        proof {
            assert(stmts_ids(stmts@, 0) =~= Seq::<u64>::empty());
        }
        while !self.at_end()
            invariant
                self.inv(),
                self.tokens == old(self).tokens,
                old(self).next_id <= self.next_id,
                fresh_ids(stmts_ids(stmts@, 0), old(self).next_id, self.next_id),
            decreases self.tokens@.len() - self.current,
        {
            let ghost pre = stmts@;
            let ghost pre_ids = stmts_ids(stmts@, 0);
            let ghost mid = self.next_id;
            match self.declaration() {
                Ok(s) => {
                    proof {
                        lemma_stmts_ids_push(pre, s, 0);
                        lemma_fresh_concat(
                            pre_ids,
                            old(self).next_id,
                            mid,
                            stmt_ids(s),
                            mid,
                            self.next_id,
                            old(self).next_id,
                            self.next_id,
                        );
                    }
                    stmts.push(s);
                },
                Err(e) => {
                    return Err(e);
                },
            }
        }
        Ok(stmts)
    }

    /// One declaration: a function, a variable, or a statement.
    fn declaration(&mut self) -> (r: Result<Stmt, RloxError>)
        requires
            old(self).inv(),
        ensures
            final(self).inv(),
            final(self).tokens == old(self).tokens,
            r matches Err(err) ==> err@ is Parse,
            old(self).current <= final(self).current,
            old(self).next_id <= final(self).next_id,
            r is Ok ==> final(self).current > old(self).current,
            r matches Ok(s) ==> fresh_ids(stmt_ids(s), old(self).next_id, final(self).next_id),
        decreases self.tokens@.len() - self.current, 40int,
    {
        if self.matching(TokenType::Fun) {
            return self.function();
        }
        if self.matching(TokenType::Var) {
            return self.var_declaration();
        }
        self.statement()
    }

    /// A function declaration: name, parenthesized parameters (at most
    /// 255), and a braced body.
    fn function(&mut self) -> (r: Result<Stmt, RloxError>)
        requires
            old(self).inv(),
        ensures
            final(self).inv(),
            final(self).tokens == old(self).tokens,
            r matches Err(err) ==> err@ is Parse,
            old(self).current <= final(self).current,
            old(self).next_id <= final(self).next_id,
            r matches Ok(s) ==> fresh_ids(stmt_ids(s), old(self).next_id, final(self).next_id),
        decreases self.tokens@.len() - self.current, 30int,
    {
        let name = match self.consume(TokenType::Identifier) {
            Ok(t) => t,
            Err(e) => {
                return Err(e);
            },
        };
        match self.consume(TokenType::LeftParen) {
            Ok(_) => (),
            Err(e) => {
                return Err(e);
            },
        }
        let mut params: Vec<Token> = Vec::new();
        if !self.check(TokenType::RightParen) {
            let mut more = true;
            while more
                invariant
                    self.inv(),
                    self.tokens == old(self).tokens,
                    old(self).current <= self.current,
                    self.next_id == old(self).next_id,
                decreases self.tokens@.len() - self.current, (if more {
                    1int
                } else {
                    0int
                }),
            {
                if params.len() >= 255 {
                    return Err(
                        RloxError::ParseError(
                            "a function cannot have more than 255 parameters".to_owned(),
                        ),
                    );
                }
                match self.consume(TokenType::Identifier) {
                    Ok(t) => params.push(t),
                    Err(e) => {
                        return Err(e);
                    },
                }
                if !self.matching(TokenType::Comma) {
                    more = false;
                }
            }
        }
        match self.consume(TokenType::RightParen) {
            Ok(_) => (),
            Err(e) => {
                return Err(e);
            },
        }
        match self.consume(TokenType::LeftBrace) {
            Ok(_) => (),
            Err(e) => {
                return Err(e);
            },
        }
        let body = match self.block() {
            Ok(stmts) => stmts,
            Err(e) => {
                return Err(e);
            },
        };
        let ghost body_ids = stmts_ids(body@, 0);
        let result = Stmt::Function { name, params, body: Rc::new(body) };
        proof {
            assert(stmt_ids(result) =~= body_ids);
        }
        Ok(result)
    }

    /// A variable declaration with an optional initializer.
    fn var_declaration(&mut self) -> (r: Result<Stmt, RloxError>)
        requires
            old(self).inv(),
        ensures
            final(self).inv(),
            final(self).tokens == old(self).tokens,
            r matches Err(err) ==> err@ is Parse,
            old(self).current <= final(self).current,
            old(self).next_id <= final(self).next_id,
            r matches Ok(s) ==> fresh_ids(stmt_ids(s), old(self).next_id, final(self).next_id),
        decreases self.tokens@.len() - self.current, 30int,
    {
        let name = match self.consume(TokenType::Identifier) {
            Ok(t) => t,
            Err(e) => {
                return Err(e);
            },
        };
        let initializer = if self.matching(TokenType::Equal) {
            match self.expression() {
                Ok(e) => Some(e),
                Err(e) => {
                    return Err(e);
                },
            }
        } else {
            None
        };
        match self.consume(TokenType::Semicolon) {
            Ok(_) => (),
            Err(e) => {
                return Err(e);
            },
        }
        Ok(Stmt::Var { name, initializer })
    }

    /// One statement of any kind.
    fn statement(&mut self) -> (r: Result<Stmt, RloxError>)
        requires
            old(self).inv(),
        ensures
            final(self).inv(),
            final(self).tokens == old(self).tokens,
            r matches Err(err) ==> err@ is Parse,
            old(self).current <= final(self).current,
            old(self).next_id <= final(self).next_id,
            r is Ok ==> final(self).current > old(self).current,
            r matches Ok(s) ==> fresh_ids(stmt_ids(s), old(self).next_id, final(self).next_id),
        decreases self.tokens@.len() - self.current, 38int,
    {
        if self.matching(TokenType::For) {
            return self.for_statement();
        }
        if self.matching(TokenType::If) {
            return self.if_statement();
        }
        if self.matching(TokenType::Print) {
            return self.print_statement();
        }
        if self.matching(TokenType::While) {
            return self.while_statement();
        }
        if self.check(TokenType::Return) {
            let keyword = self.advance();
            return self.return_statement(keyword);
        }
        if self.matching(TokenType::LeftBrace) {
            return match self.block() {
                Ok(stmts) => Ok(Stmt::Block(stmts)),
                Err(e) => Err(e),
            };
        }
        self.expression_statement()
    }

    /// A `for` loop, desugared to a `while` inside blocks: the
    /// initializer runs once before, the increment after each body run,
    /// and a missing condition counts as `true`. The result is the
    /// `while` loop itself, or a two-statement block of the initializer
    /// and the loop.
    fn for_statement(&mut self) -> (r: Result<Stmt, RloxError>)
        requires
            old(self).inv(),
        ensures
            final(self).inv(),
            final(self).tokens == old(self).tokens,
            r matches Err(err) ==> err@ is Parse,
            old(self).current <= final(self).current,
            old(self).next_id <= final(self).next_id,
            r matches Ok(s) ==> (s matches Stmt::While { .. } || (s matches Stmt::Block(v)
                && v@.len() == 2 && v@[1] matches Stmt::While { .. })),
            r matches Ok(s) ==> fresh_ids(stmt_ids(s), old(self).next_id, final(self).next_id),
        decreases self.tokens@.len() - self.current, 30int,
    {
        match self.consume(TokenType::LeftParen) {
            Ok(_) => (),
            Err(e) => {
                return Err(e);
            },
        }
        let initializer = if self.matching(TokenType::Semicolon) {
            None
        } else if self.matching(TokenType::Var) {
            match self.var_declaration() {
                Ok(s) => Some(s),
                Err(e) => {
                    return Err(e);
                },
            }
        } else {
            match self.expression_statement() {
                Ok(s) => Some(s),
                Err(e) => {
                    return Err(e);
                },
            }
        };
        let ghost init_ids = match &initializer {
            Some(s0) => stmt_ids(*s0),
            None => Seq::<u64>::empty(),
        };
        let ghost n1 = self.next_id;
        let condition = if self.check(TokenType::Semicolon) {
            Expr::Literal(LiteralValue::Boolean(true))
        } else {
            match self.expression() {
                Ok(e) => e,
                Err(e) => {
                    return Err(e);
                },
            }
        };
        let ghost cond_ids = expr_ids(condition);
        let ghost n2 = self.next_id;
        match self.consume(TokenType::Semicolon) {
            Ok(_) => (),
            Err(e) => {
                return Err(e);
            },
        }
        let increment = if self.check(TokenType::RightParen) {
            None
        } else {
            match self.expression() {
                Ok(e) => Some(e),
                Err(e) => {
                    return Err(e);
                },
            }
        };
        let ghost incr_ids = match &increment {
            Some(e0) => expr_ids(*e0),
            None => Seq::<u64>::empty(),
        };
        let ghost n3 = self.next_id;
        match self.consume(TokenType::RightParen) {
            Ok(_) => (),
            Err(e) => {
                return Err(e);
            },
        }
        let mut body = match self.statement() {
            Ok(s) => s,
            Err(e) => {
                return Err(e);
            },
        };
        let ghost body_ids = stmt_ids(body);
        let ghost n4 = self.next_id;
        match increment {
            Some(incr) => {
                proof {
                    lemma_fresh_concat(body_ids, n3, n4, incr_ids, n2, n3, n2, n4);
                }
                let ghost prev_body = body;
                let ghost incr_expr = incr;
                body = Stmt::Block(vec![body, Stmt::Expression(incr)]);
                proof {
                    if let Stmt::Block(v) = &body {
                        assert(v@.len() == 2);
                        assert(v@[0] == prev_body);
                        assert(v@[1] == Stmt::Expression(incr_expr));
                        assert(stmts_ids(v@, 2) =~= Seq::<u64>::empty());
                        assert(stmts_ids(v@, 1) =~= stmt_ids(v@[1]) + stmts_ids(v@, 2));
                        assert(stmts_ids(v@, 1) =~= incr_ids);
                        assert(stmts_ids(v@, 0) =~= stmt_ids(v@[0]) + stmts_ids(v@, 1));
                        assert(stmt_ids(body) =~= body_ids + incr_ids);
                    }
                }
            },
            None => {
                proof {
                    lemma_fresh_widen(body_ids, n3, n4, n2, n4);
                }
            },
        }
        let ghost loop_body_ids = stmt_ids(body);
        proof {
            lemma_fresh_concat(cond_ids, n1, n2, loop_body_ids, n2, n4, n1, n4);
        }
        body = Stmt::While { condition, body: Box::new(body) };
        let ghost while_ids = stmt_ids(body);
        proof {
            assert(while_ids =~= cond_ids + loop_body_ids);
        }
        match initializer {
            Some(init) => {
                proof {
                    lemma_fresh_concat(
                        init_ids,
                        old(self).next_id,
                        n1,
                        while_ids,
                        n1,
                        n4,
                        old(self).next_id,
                        n4,
                    );
                }
                let ghost init_stmt = init;
                let ghost while_stmt = body;
                let desugared = Stmt::Block(vec![init, body]);
                proof {
                    if let Stmt::Block(v) = &desugared {
                        assert(v@.len() == 2);
                        assert(v@[0] == init_stmt);
                        assert(v@[1] == while_stmt);
                        assert(v@[1] matches Stmt::While { .. });
                        assert(stmts_ids(v@, 2) =~= Seq::<u64>::empty());
                        assert(stmts_ids(v@, 1) =~= stmt_ids(v@[1]) + stmts_ids(v@, 2));
                        assert(stmts_ids(v@, 1) =~= while_ids);
                        assert(stmts_ids(v@, 0) =~= stmt_ids(v@[0]) + stmts_ids(v@, 1));
                        assert(stmt_ids(desugared) =~= init_ids + while_ids);
                    }
                }
                Ok(desugared)
            },
            None => {
                proof {
                    lemma_fresh_widen(while_ids, n1, n4, old(self).next_id, n4);
                }
                Ok(body)
            },
        }
    }

    /// An `if` statement with an optional `else`.
    fn if_statement(&mut self) -> (r: Result<Stmt, RloxError>)
        requires
            old(self).inv(),
        ensures
            final(self).inv(),
            final(self).tokens == old(self).tokens,
            r matches Err(err) ==> err@ is Parse,
            old(self).current <= final(self).current,
            old(self).next_id <= final(self).next_id,
            r matches Ok(s) ==> fresh_ids(stmt_ids(s), old(self).next_id, final(self).next_id),
        decreases self.tokens@.len() - self.current, 30int,
    {
        match self.consume(TokenType::LeftParen) {
            Ok(_) => (),
            Err(e) => {
                return Err(e);
            },
        }
        let condition = match self.expression() {
            Ok(e) => e,
            Err(e) => {
                return Err(e);
            },
        };
        match self.consume(TokenType::RightParen) {
            Ok(_) => (),
            Err(e) => {
                return Err(e);
            },
        }
        let ghost cond_ids = expr_ids(condition);
        let ghost mid = self.next_id;
        let then_branch = match self.statement() {
            Ok(s) => Box::new(s),
            Err(e) => {
                return Err(e);
            },
        };
        let ghost then_ids = stmt_ids(*then_branch);
        let ghost mid2 = self.next_id;
        proof {
            lemma_fresh_concat(
                cond_ids,
                old(self).next_id,
                mid,
                then_ids,
                mid,
                mid2,
                old(self).next_id,
                mid2,
            );
        }
        let else_branch = if self.matching(TokenType::Else) {
            match self.statement() {
                Ok(s) => Some(Box::new(s)),
                Err(e) => {
                    return Err(e);
                },
            }
        } else {
            None
        };
        let result = Stmt::If { condition, then_branch, else_branch };
        proof {
            match &result {
                Stmt::If { condition: _, then_branch: _, else_branch: eb } => {
                    match eb {
                        Some(el) => {
                            lemma_fresh_concat(
                                cond_ids + then_ids,
                                old(self).next_id,
                                mid2,
                                stmt_ids(**el),
                                mid2,
                                self.next_id,
                                old(self).next_id,
                                self.next_id,
                            );
                        },
                        None => {
                            assert(stmt_ids(result) =~= cond_ids + then_ids);
                        },
                    }
                },
                _ => {},
            }
        }
        Ok(result)
    }

    /// A `return` statement with an optional value, the keyword already
    /// consumed.
    fn return_statement(&mut self, keyword: Token) -> (r: Result<Stmt, RloxError>)
        requires
            old(self).inv(),
        ensures
            final(self).inv(),
            final(self).tokens == old(self).tokens,
            r matches Err(err) ==> err@ is Parse,
            old(self).current <= final(self).current,
            old(self).next_id <= final(self).next_id,
            r matches Ok(s) ==> fresh_ids(stmt_ids(s), old(self).next_id, final(self).next_id),
        decreases self.tokens@.len() - self.current, 30int,
    {
        let expr = if self.check(TokenType::Semicolon) {
            None
        } else {
            match self.expression() {
                Ok(e) => Some(e),
                Err(e) => {
                    return Err(e);
                },
            }
        };
        match self.consume(TokenType::Semicolon) {
            Ok(_) => (),
            Err(e) => {
                return Err(e);
            },
        }
        Ok(Stmt::Return { keyword, expr })
    }

    /// A `print` statement.
    fn print_statement(&mut self) -> (r: Result<Stmt, RloxError>)
        requires
            old(self).inv(),
        ensures
            final(self).inv(),
            final(self).tokens == old(self).tokens,
            r matches Err(err) ==> err@ is Parse,
            old(self).current <= final(self).current,
            old(self).next_id <= final(self).next_id,
            r matches Ok(s) ==> fresh_ids(stmt_ids(s), old(self).next_id, final(self).next_id),
        decreases self.tokens@.len() - self.current, 30int,
    {
        let value = match self.expression() {
            Ok(e) => e,
            Err(e) => {
                return Err(e);
            },
        };
        match self.consume(TokenType::Semicolon) {
            Ok(_) => (),
            Err(e) => {
                return Err(e);
            },
        }
        Ok(Stmt::Print(value))
    }

    /// A `while` statement.
    fn while_statement(&mut self) -> (r: Result<Stmt, RloxError>)
        requires
            old(self).inv(),
        ensures
            final(self).inv(),
            final(self).tokens == old(self).tokens,
            r matches Err(err) ==> err@ is Parse,
            old(self).current <= final(self).current,
            old(self).next_id <= final(self).next_id,
            r matches Ok(s) ==> fresh_ids(stmt_ids(s), old(self).next_id, final(self).next_id),
        decreases self.tokens@.len() - self.current, 30int,
    {
        match self.consume(TokenType::LeftParen) {
            Ok(_) => (),
            Err(e) => {
                return Err(e);
            },
        }
        let condition = match self.expression() {
            Ok(e) => e,
            Err(e) => {
                return Err(e);
            },
        };
        match self.consume(TokenType::RightParen) {
            Ok(_) => (),
            Err(e) => {
                return Err(e);
            },
        }
        let ghost cond_ids = expr_ids(condition);
        let ghost mid = self.next_id;
        let body = match self.statement() {
            Ok(s) => Box::new(s),
            Err(e) => {
                return Err(e);
            },
        };
        proof {
            lemma_fresh_concat(
                cond_ids,
                old(self).next_id,
                mid,
                stmt_ids(*body),
                mid,
                self.next_id,
                old(self).next_id,
                self.next_id,
            );
        }
        Ok(Stmt::While { condition, body })
    }

    /// The declarations up to the closing brace, which is consumed.
    fn block(&mut self) -> (r: Result<Vec<Stmt>, RloxError>)
        requires
            old(self).inv(),
        ensures
            final(self).inv(),
            final(self).tokens == old(self).tokens,
            r matches Err(err) ==> err@ is Parse,
            old(self).current <= final(self).current,
            old(self).next_id <= final(self).next_id,
            r is Ok ==> final(self).current > old(self).current,
            r matches Ok(v) ==> fresh_ids(stmts_ids(v@, 0), old(self).next_id, final(self).next_id),
        decreases self.tokens@.len() - self.current, 42int,
    {
        let mut stmts: Vec<Stmt> = Vec::new();
        proof {
            assert(stmts_ids(stmts@, 0) =~= Seq::<u64>::empty());
        }
        while !self.check(TokenType::RightBrace) && !self.at_end()
            invariant
                self.inv(),
                self.tokens == old(self).tokens,
                old(self).current <= self.current,
                old(self).next_id <= self.next_id,
                fresh_ids(stmts_ids(stmts@, 0), old(self).next_id, self.next_id),
            decreases self.tokens@.len() - self.current,
        {
            let ghost pre = stmts@;
            let ghost pre_ids = stmts_ids(stmts@, 0);
            let ghost mid = self.next_id;
            match self.declaration() {
                Ok(s) => {
                    proof {
                        lemma_stmts_ids_push(pre, s, 0);
                        lemma_fresh_concat(
                            pre_ids,
                            old(self).next_id,
                            mid,
                            stmt_ids(s),
                            mid,
                            self.next_id,
                            old(self).next_id,
                            self.next_id,
                        );
                    }
                    stmts.push(s);
                },
                Err(e) => {
                    return Err(e);
                },
            }
        }
        match self.consume(TokenType::RightBrace) {
            Ok(_) => (),
            Err(e) => {
                return Err(e);
            },
        }
        Ok(stmts)
    }

    /// An expression used as a statement.
    fn expression_statement(&mut self) -> (r: Result<Stmt, RloxError>)
        requires
            old(self).inv(),
        ensures
            final(self).inv(),
            final(self).tokens == old(self).tokens,
            r matches Err(err) ==> err@ is Parse,
            old(self).current <= final(self).current,
            old(self).next_id <= final(self).next_id,
            r is Ok ==> final(self).current > old(self).current,
            r matches Ok(s) ==> fresh_ids(stmt_ids(s), old(self).next_id, final(self).next_id),
        decreases self.tokens@.len() - self.current, 24int,
    {
        let expr = match self.expression() {
            Ok(e) => e,
            Err(e) => {
                return Err(e);
            },
        };
        match self.consume(TokenType::Semicolon) {
            Ok(_) => (),
            Err(e) => {
                return Err(e);
            },
        }
        Ok(Stmt::Expression(expr))
    }

    /// Any expression; the lowest-precedence production is assignment.
    fn expression(&mut self) -> (r: Result<Expr, RloxError>)
        requires
            old(self).inv(),
        ensures
            final(self).inv(),
            final(self).tokens == old(self).tokens,
            r matches Err(err) ==> err@ is Parse,
            old(self).current <= final(self).current,
            old(self).next_id <= final(self).next_id,
            r is Ok ==> final(self).current > old(self).current,
            r matches Ok(e) ==> fresh_ids(expr_ids(e), old(self).next_id, final(self).next_id),
        decreases self.tokens@.len() - self.current, 20int,
    {
        self.assignment()
    }

    /// Assignment, right-associative; the target must be a variable.
    fn assignment(&mut self) -> (r: Result<Expr, RloxError>)
        requires
            old(self).inv(),
        ensures
            final(self).inv(),
            final(self).tokens == old(self).tokens,
            r matches Err(err) ==> err@ is Parse,
            old(self).current <= final(self).current,
            old(self).next_id <= final(self).next_id,
            r is Ok ==> final(self).current > old(self).current,
            r matches Ok(e) ==> fresh_ids(expr_ids(e), old(self).next_id, final(self).next_id),
        decreases self.tokens@.len() - self.current, 18int,
    {
        let expr = match self.or() {
            Ok(e) => e,
            Err(e) => {
                return Err(e);
            },
        };
        if self.matching(TokenType::Equal) {
            let ghost mid = self.next_id;
            let value = match self.assignment() {
                Ok(e) => e,
                Err(e) => {
                    return Err(e);
                },
            };
            let ghost value_ids = expr_ids(value);
            let ghost top = self.next_id;
            return match expr {
                Expr::Variable(t, _id) => {
                    match self.fresh_id() {
                        Ok(id) => {
                            proof {
                                lemma_fresh_widen(
                                    value_ids,
                                    mid,
                                    top,
                                    old(self).next_id,
                                    top,
                                );
                                lemma_fresh_push(
                                    value_ids,
                                    id,
                                    old(self).next_id,
                                    top,
                                    self.next_id,
                                );
                            }
                            Ok(Expr::Assign(t, Box::new(value), id))
                        },
                        Err(e) => Err(e),
                    }
                },
                _ => Err(RloxError::ParseError("invalid assignment target".to_owned())),
            };
        }
        Ok(expr)
    }

    /// Logical `or`, left-associative.
    fn or(&mut self) -> (r: Result<Expr, RloxError>)
        requires
            old(self).inv(),
        ensures
            final(self).inv(),
            final(self).tokens == old(self).tokens,
            r matches Err(err) ==> err@ is Parse,
            old(self).current <= final(self).current,
            old(self).next_id <= final(self).next_id,
            r is Ok ==> final(self).current > old(self).current,
            r matches Ok(e) ==> fresh_ids(expr_ids(e), old(self).next_id, final(self).next_id),
        decreases self.tokens@.len() - self.current, 16int,
    {
        let mut expr = match self.and() {
            Ok(e) => e,
            Err(e) => {
                return Err(e);
            },
        };
        while self.check(TokenType::Or)
            invariant
                self.inv(),
                self.tokens == old(self).tokens,
                old(self).current < self.current,
                old(self).next_id <= self.next_id,
                fresh_ids(expr_ids(expr), old(self).next_id, self.next_id),
            decreases self.tokens@.len() - self.current,
        {
            let ghost left_ids = expr_ids(expr);
            let ghost mid = self.next_id;
            let operator = self.advance();
            let right = match self.and() {
                Ok(e) => e,
                Err(e) => {
                    return Err(e);
                },
            };
            proof {
                lemma_fresh_concat(
                    left_ids,
                    old(self).next_id,
                    mid,
                    expr_ids(right),
                    mid,
                    self.next_id,
                    old(self).next_id,
                    self.next_id,
                );
            }
            expr = Expr::Logical(Box::new(expr), operator, Box::new(right));
        }
        Ok(expr)
    }

    /// Logical `and`, left-associative.
    fn and(&mut self) -> (r: Result<Expr, RloxError>)
        requires
            old(self).inv(),
        ensures
            final(self).inv(),
            final(self).tokens == old(self).tokens,
            r matches Err(err) ==> err@ is Parse,
            old(self).current <= final(self).current,
            old(self).next_id <= final(self).next_id,
            r is Ok ==> final(self).current > old(self).current,
            r matches Ok(e) ==> fresh_ids(expr_ids(e), old(self).next_id, final(self).next_id),
        decreases self.tokens@.len() - self.current, 14int,
    {
        let mut expr = match self.equality() {
            Ok(e) => e,
            Err(e) => {
                return Err(e);
            },
        };
        while self.check(TokenType::And)
            invariant
                self.inv(),
                self.tokens == old(self).tokens,
                old(self).current < self.current,
                old(self).next_id <= self.next_id,
                fresh_ids(expr_ids(expr), old(self).next_id, self.next_id),
            decreases self.tokens@.len() - self.current,
        {
            let ghost left_ids = expr_ids(expr);
            let ghost mid = self.next_id;
            let operator = self.advance();
            let right = match self.equality() {
                Ok(e) => e,
                Err(e) => {
                    return Err(e);
                },
            };
            proof {
                lemma_fresh_concat(
                    left_ids,
                    old(self).next_id,
                    mid,
                    expr_ids(right),
                    mid,
                    self.next_id,
                    old(self).next_id,
                    self.next_id,
                );
            }
            expr = Expr::Logical(Box::new(expr), operator, Box::new(right));
        }
        Ok(expr)
    }

    /// Equality comparisons, left-associative.
    fn equality(&mut self) -> (r: Result<Expr, RloxError>)
        requires
            old(self).inv(),
        ensures
            final(self).inv(),
            final(self).tokens == old(self).tokens,
            r matches Err(err) ==> err@ is Parse,
            old(self).current <= final(self).current,
            old(self).next_id <= final(self).next_id,
            r is Ok ==> final(self).current > old(self).current,
            r matches Ok(e) ==> fresh_ids(expr_ids(e), old(self).next_id, final(self).next_id),
        decreases self.tokens@.len() - self.current, 12int,
    {
        let mut expr = match self.comparison() {
            Ok(e) => e,
            Err(e) => {
                return Err(e);
            },
        };
        while self.check(TokenType::BangEqual) || self.check(TokenType::EqualEqual)
            invariant
                self.inv(),
                self.tokens == old(self).tokens,
                old(self).current < self.current,
                old(self).next_id <= self.next_id,
                fresh_ids(expr_ids(expr), old(self).next_id, self.next_id),
            decreases self.tokens@.len() - self.current,
        {
            let ghost left_ids = expr_ids(expr);
            let ghost mid = self.next_id;
            let operator = self.advance();
            let right = match self.comparison() {
                Ok(e) => e,
                Err(e) => {
                    return Err(e);
                },
            };
            proof {
                lemma_fresh_concat(
                    left_ids,
                    old(self).next_id,
                    mid,
                    expr_ids(right),
                    mid,
                    self.next_id,
                    old(self).next_id,
                    self.next_id,
                );
            }
            expr = Expr::Binary(Box::new(expr), operator, Box::new(right));
        }
        Ok(expr)
    }

    /// Ordering comparisons, left-associative.
    fn comparison(&mut self) -> (r: Result<Expr, RloxError>)
        requires
            old(self).inv(),
        ensures
            final(self).inv(),
            final(self).tokens == old(self).tokens,
            r matches Err(err) ==> err@ is Parse,
            old(self).current <= final(self).current,
            old(self).next_id <= final(self).next_id,
            r is Ok ==> final(self).current > old(self).current,
            r matches Ok(e) ==> fresh_ids(expr_ids(e), old(self).next_id, final(self).next_id),
        decreases self.tokens@.len() - self.current, 10int,
    {
        let mut expr = match self.term() {
            Ok(e) => e,
            Err(e) => {
                return Err(e);
            },
        };
        while self.check(TokenType::Greater) || self.check(TokenType::GreaterEqual) || self.check(
            TokenType::Less,
        ) || self.check(TokenType::LessEqual)
            invariant
                self.inv(),
                self.tokens == old(self).tokens,
                old(self).current < self.current,
                old(self).next_id <= self.next_id,
                fresh_ids(expr_ids(expr), old(self).next_id, self.next_id),
            decreases self.tokens@.len() - self.current,
        {
            let ghost left_ids = expr_ids(expr);
            let ghost mid = self.next_id;
            let operator = self.advance();
            let right = match self.term() {
                Ok(e) => e,
                Err(e) => {
                    return Err(e);
                },
            };
            proof {
                lemma_fresh_concat(
                    left_ids,
                    old(self).next_id,
                    mid,
                    expr_ids(right),
                    mid,
                    self.next_id,
                    old(self).next_id,
                    self.next_id,
                );
            }
            expr = Expr::Binary(Box::new(expr), operator, Box::new(right));
        }
        Ok(expr)
    }

    /// Addition and subtraction, left-associative.
    fn term(&mut self) -> (r: Result<Expr, RloxError>)
        requires
            old(self).inv(),
        ensures
            final(self).inv(),
            final(self).tokens == old(self).tokens,
            r matches Err(err) ==> err@ is Parse,
            old(self).current <= final(self).current,
            old(self).next_id <= final(self).next_id,
            r is Ok ==> final(self).current > old(self).current,
            r matches Ok(e) ==> fresh_ids(expr_ids(e), old(self).next_id, final(self).next_id),
        decreases self.tokens@.len() - self.current, 8int,
    {
        let mut expr = match self.factor() {
            Ok(e) => e,
            Err(e) => {
                return Err(e);
            },
        };
        while self.check(TokenType::Plus) || self.check(TokenType::Minus)
            invariant
                self.inv(),
                self.tokens == old(self).tokens,
                old(self).current < self.current,
                old(self).next_id <= self.next_id,
                fresh_ids(expr_ids(expr), old(self).next_id, self.next_id),
            decreases self.tokens@.len() - self.current,
        {
            let ghost left_ids = expr_ids(expr);
            let ghost mid = self.next_id;
            let operator = self.advance();
            let right = match self.factor() {
                Ok(e) => e,
                Err(e) => {
                    return Err(e);
                },
            };
            proof {
                lemma_fresh_concat(
                    left_ids,
                    old(self).next_id,
                    mid,
                    expr_ids(right),
                    mid,
                    self.next_id,
                    old(self).next_id,
                    self.next_id,
                );
            }
            expr = Expr::Binary(Box::new(expr), operator, Box::new(right));
        }
        Ok(expr)
    }

    /// Multiplication and division, left-associative.
    fn factor(&mut self) -> (r: Result<Expr, RloxError>)
        requires
            old(self).inv(),
        ensures
            final(self).inv(),
            final(self).tokens == old(self).tokens,
            r matches Err(err) ==> err@ is Parse,
            old(self).current <= final(self).current,
            old(self).next_id <= final(self).next_id,
            r is Ok ==> final(self).current > old(self).current,
            r matches Ok(e) ==> fresh_ids(expr_ids(e), old(self).next_id, final(self).next_id),
        decreases self.tokens@.len() - self.current, 6int,
    {
        let mut expr = match self.unary() {
            Ok(e) => e,
            Err(e) => {
                return Err(e);
            },
        };
        while self.check(TokenType::Slash) || self.check(TokenType::Star)
            invariant
                self.inv(),
                self.tokens == old(self).tokens,
                old(self).current < self.current,
                old(self).next_id <= self.next_id,
                fresh_ids(expr_ids(expr), old(self).next_id, self.next_id),
            decreases self.tokens@.len() - self.current,
        {
            let ghost left_ids = expr_ids(expr);
            let ghost mid = self.next_id;
            let operator = self.advance();
            let right = match self.unary() {
                Ok(e) => e,
                Err(e) => {
                    return Err(e);
                },
            };
            proof {
                lemma_fresh_concat(
                    left_ids,
                    old(self).next_id,
                    mid,
                    expr_ids(right),
                    mid,
                    self.next_id,
                    old(self).next_id,
                    self.next_id,
                );
            }
            expr = Expr::Binary(Box::new(expr), operator, Box::new(right));
        }
        Ok(expr)
    }

    /// Unary negation and logical not.
    fn unary(&mut self) -> (r: Result<Expr, RloxError>)
        requires
            old(self).inv(),
        ensures
            final(self).inv(),
            final(self).tokens == old(self).tokens,
            r matches Err(err) ==> err@ is Parse,
            old(self).current <= final(self).current,
            old(self).next_id <= final(self).next_id,
            r is Ok ==> final(self).current > old(self).current,
            r matches Ok(e) ==> fresh_ids(expr_ids(e), old(self).next_id, final(self).next_id),
        decreases self.tokens@.len() - self.current, 4int,
    {
        if self.check(TokenType::Bang) || self.check(TokenType::Minus) {
            let operator = self.advance();
            let right = match self.unary() {
                Ok(e) => e,
                Err(e) => {
                    return Err(e);
                },
            };
            return Ok(Expr::Unary(operator, Box::new(right)));
        }
        self.call()
    }

    /// A primary expression followed by any number of call suffixes.
    fn call(&mut self) -> (r: Result<Expr, RloxError>)
        requires
            old(self).inv(),
        ensures
            final(self).inv(),
            final(self).tokens == old(self).tokens,
            r matches Err(err) ==> err@ is Parse,
            old(self).current <= final(self).current,
            old(self).next_id <= final(self).next_id,
            r is Ok ==> final(self).current > old(self).current,
            r matches Ok(e) ==> fresh_ids(expr_ids(e), old(self).next_id, final(self).next_id),
        decreases self.tokens@.len() - self.current, 2int,
    {
        let mut expr = match self.primary() {
            Ok(e) => e,
            Err(e) => {
                return Err(e);
            },
        };
        while self.check(TokenType::LeftParen)
            invariant
                self.inv(),
                self.tokens == old(self).tokens,
                old(self).current < self.current,
                old(self).next_id <= self.next_id,
                fresh_ids(expr_ids(expr), old(self).next_id, self.next_id),
            decreases self.tokens@.len() - self.current,
        {
            let ghost callee_ids = expr_ids(expr);
            let ghost mid = self.next_id;
            let _paren = self.advance();
            expr = match self.finish_call(expr) {
                Ok(e) => e,
                Err(e) => {
                    return Err(e);
                },
            };
            proof {
                if let Expr::Call(c, _p, args) = &expr {
                    lemma_fresh_concat(
                        callee_ids,
                        old(self).next_id,
                        mid,
                        exprs_ids(args@, 0),
                        mid,
                        self.next_id,
                        old(self).next_id,
                        self.next_id,
                    );
                    assert(expr_ids(expr) =~= callee_ids + exprs_ids(args@, 0));
                }
            }
        }
        Ok(expr)
    }

    /// The arguments and closing parenthesis of a call, the opening
    /// parenthesis already consumed: the result is the call of the given
    /// callee on the parsed arguments.
    fn finish_call(&mut self, callee: Expr) -> (r: Result<Expr, RloxError>)
        requires
            old(self).inv(),
        ensures
            final(self).inv(),
            final(self).tokens == old(self).tokens,
            r matches Err(err) ==> err@ is Parse,
            old(self).current <= final(self).current,
            old(self).next_id <= final(self).next_id,
            r matches Ok(e) ==> (e matches Expr::Call(c, _p, args) && *c == callee && fresh_ids(
                exprs_ids(args@, 0),
                old(self).next_id,
                final(self).next_id,
            )),
        decreases self.tokens@.len() - self.current, 21int,
    {
        let mut args: Vec<Expr> = Vec::new();
        proof {
            assert(exprs_ids(args@, 0) =~= Seq::<u64>::empty());
        }
        if !self.check(TokenType::RightParen) {
            let mut more = true;
            while more
                invariant
                    self.inv(),
                    self.tokens == old(self).tokens,
                    old(self).current <= self.current,
                    old(self).next_id <= self.next_id,
                    fresh_ids(exprs_ids(args@, 0), old(self).next_id, self.next_id),
                decreases self.tokens@.len() - self.current, (if more {
                    1int
                } else {
                    0int
                }),
            {
                let ghost pre = args@;
                let ghost pre_ids = exprs_ids(args@, 0);
                let ghost mid = self.next_id;
                match self.expression() {
                    Ok(e) => {
                        proof {
                            lemma_exprs_ids_push(pre, e, 0);
                            lemma_fresh_concat(
                                pre_ids,
                                old(self).next_id,
                                mid,
                                expr_ids(e),
                                mid,
                                self.next_id,
                                old(self).next_id,
                                self.next_id,
                            );
                        }
                        args.push(e);
                    },
                    Err(e) => {
                        return Err(e);
                    },
                }
                if !self.matching(TokenType::Comma) {
                    more = false;
                }
            }
        }
        let paren = match self.consume(TokenType::RightParen) {
            Ok(t) => t,
            Err(e) => {
                return Err(e);
            },
        };
        Ok(Expr::Call(Box::new(callee), paren, args))
    }

    /// A literal, a variable, or a parenthesized expression.
    fn primary(&mut self) -> (r: Result<Expr, RloxError>)
        requires
            old(self).inv(),
        ensures
            final(self).inv(),
            final(self).tokens == old(self).tokens,
            r matches Err(err) ==> err@ is Parse,
            old(self).current <= final(self).current,
            old(self).next_id <= final(self).next_id,
            r is Ok ==> final(self).current > old(self).current,
            r matches Ok(e) ==> fresh_ids(expr_ids(e), old(self).next_id, final(self).next_id),
        decreases self.tokens@.len() - self.current, 0int,
    {
        if self.at_end() {
            return Err(RloxError::ParseError("unexpected end of input".to_owned()));
        }
        let next = self.advance();
        match next.token_type {
            TokenType::False => Ok(Expr::Literal(LiteralValue::Boolean(false))),
            TokenType::True => Ok(Expr::Literal(LiteralValue::Boolean(true))),
            TokenType::Nil => Ok(Expr::Literal(LiteralValue::Nil())),
            TokenType::Number => {
                match &next.literal {
                    Some(Literal::NumberLiteral(n)) => Ok(Expr::Literal(LiteralValue::Number(*n))),
                    _ => Err(
                        RloxError::ParseError("number token without a numeric payload".to_owned()),
                    ),
                }
            },
            TokenType::String => {
                match &next.literal {
                    Some(Literal::StringLiteral(s)) => Ok(
                        Expr::Literal(LiteralValue::String(s.clone())),
                    ),
                    _ => Err(
                        RloxError::ParseError("string token without a string payload".to_owned()),
                    ),
                }
            },
            TokenType::Var => {
                match self.fresh_id() {
                    Ok(id) => Ok(Expr::Variable(next, id)),
                    Err(e) => Err(e),
                }
            },
            TokenType::Identifier => {
                match self.fresh_id() {
                    Ok(id) => Ok(Expr::Variable(next, id)),
                    Err(e) => Err(e),
                }
            },
            TokenType::LeftParen => {
                let inner = match self.expression() {
                    Ok(e) => e,
                    Err(e) => {
                        return Err(e);
                    },
                };
                match self.consume(TokenType::RightParen) {
                    Ok(_) => (),
                    Err(e) => {
                        return Err(e);
                    },
                }
                Ok(Expr::Grouping(Box::new(inner)))
            },
            _ => Err(RloxError::ParseError("a token that no expression starts with".to_owned())),
        }
    }

    /// A fresh node identifier: the counter's value, which then moves on.
    /// Every identifier is handed out at most once; a program so large
    /// that the counter would run out is rejected instead.
    fn fresh_id(&mut self) -> (r: Result<u64, RloxError>)
        ensures
            final(self).tokens == old(self).tokens,
            r matches Err(err) ==> err@ is Parse,
            final(self).current == old(self).current,
            r matches Ok(id) ==> id == old(self).next_id && final(self).next_id == old(
                self).next_id + 1,
            r is Err ==> *final(self) == *old(self),
    {
        if self.next_id == u64::MAX {
            return Err(
                RloxError::ParseError("the program has too many variable references".to_owned()),
            );
        }
        let id = self.next_id;
        self.next_id = self.next_id + 1;
        Ok(id)
    }

    /// Consumes the next token when it is of the expected type; anything
    /// else is a `ParseError`.
    fn consume(&mut self, token_type: TokenType) -> (r: Result<Token, RloxError>)
        requires
            old(self).inv(),
        ensures
            final(self).inv(),
            final(self).tokens == old(self).tokens,
            r matches Err(err) ==> err@ is Parse,
            old(self).current <= final(self).current,
            final(self).next_id == old(self).next_id,
            r is Ok ==> final(self).current == old(self).current + 1,
            r is Err ==> final(self).current == old(self).current,
    {
        if self.check(token_type) {
            Ok(self.advance())
        } else {
            Err(RloxError::ParseError("expected a different token".to_owned()))
        }
    }

    /// Consumes the next token when it is of the given type.
    fn matching(&mut self, token_type: TokenType) -> (r: bool)
        requires
            old(self).inv(),
        ensures
            final(self).inv(),
            final(self).tokens == old(self).tokens,
            final(self).next_id == old(self).next_id,
            r ==> final(self).current == old(self).current + 1,
            !r ==> *final(self) == *old(self),
    {
        if self.check(token_type) {
            let _ = self.advance();
            true
        } else {
            false
        }
    }

    /// Whether the next token is of the given type; false at the end.
    fn check(&self, token_type: TokenType) -> (r: bool)
        requires
            self.inv(),
        ensures
            r ==> !spec_at_end(*self) && self.tokens@[self.current as int].token_type == token_type,
    {
        if self.at_end() {
            return false;
        }
        self.tokens[self.current].token_type == token_type
    }

    /// Consumes and returns the next token.
    fn advance(&mut self) -> (t: Token)
        requires
            old(self).inv(),
            !spec_at_end(*old(self)),
        ensures
            final(self).inv(),
            final(self).tokens == old(self).tokens,
            final(self).current == old(self).current + 1,
            final(self).next_id == old(self).next_id,
            t == old(self).tokens@[old(self).current as int],
    {
        let _n = self.tokens.len();
        let t = clone_token(&self.tokens[self.current]);
        self.current = self.current + 1;
        t
    }

    /// Whether parsing has reached the end of the input.
    fn at_end(&self) -> (r: bool)
        requires
            self.inv(),
        ensures
            r == spec_at_end(*self),
    {
        if self.current >= self.tokens.len() {
            return true;
        }
        self.tokens[self.current].token_type == TokenType::Eof
    }
}

} // verus!
