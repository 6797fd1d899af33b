//! The evaluator. Its behaviour is a mathematical function of a ghost
//! state: `spec_eval_expr` and its companions give one step-for-step
//! operational description, and every executable function is proved to
//! return exactly what the description says.
//!
//! Evaluation takes a `fuel` bound on nesting depth: every recursive
//! descent costs one unit, and running out yields `RecursionLimit`, so
//! every run terminates. The bound is benign — `lemma_stmt_fuel_monotone`
//! proves that a run which finishes within some bound finishes
//! identically under any larger one — so it is the embedder's knob, not
//! part of the language.
use vstd::prelude::*;

use crate::callable::{arity_of, Callable, CallableG};
use crate::environment::{
    arena_view, frames_wf, spec_assign, spec_assign_at, spec_get, spec_get_at, Environment, FrameG,
};
use crate::error::{ErrorG, RloxError};
use crate::expr::Expr;
use crate::idmap::IdMap;
use crate::numtext::dec_of;
use crate::rlvalue::{clone_value, truthy, value_from_literal, value_of_literal, RlValue, ValueG};
use crate::stmt::Stmt;
use crate::token::{Token, TokenType};

verus! {

/// The whole of what evaluation can read and write: the environment
/// arena, the index of the current frame, the resolver's distance map,
/// the lines printed so far, and the value the `clock` built-in returns.
#[verifier::ext_equal]
pub ghost struct StateG {
    pub envs: Seq<FrameG>,
    pub current: int,
    pub locals: Map<u64, u32>,
    pub output: Seq<Seq<char>>,
    pub clock: i64,
}

/// How `print` renders a value: `nil`, `true`/`false`, decimal digits,
/// the raw text of a string, and a stable placeholder for functions.
pub open spec fn display_of(v: ValueG) -> Seq<char> {
    match v {
        ValueG::Nil => "nil"@,
        ValueG::Bool(b) => if b {
            "true"@
        } else {
            "false"@
        },
        ValueG::Num(n) => dec_of(n as int),
        ValueG::Str(s) => s,
        ValueG::Fun(_) => "<fn>"@,
    }
}

/// What a binary operator returns on two evaluated operands. Arithmetic
/// and comparison demand numbers; `+` also concatenates two strings.
/// Arithmetic wraps around on 64-bit overflow; division is truncating,
/// and a zero divisor (or the one overflowing quotient) is an error.
pub open spec fn spec_binary(op: TokenType, l: ValueG, r: ValueG) -> Result<ValueG, ErrorG> {
    match op {
        TokenType::Minus => match (l, r) {
            (ValueG::Num(a), ValueG::Num(b)) => Ok(ValueG::Num(a.wrapping_sub(b))),
            _ => Err(ErrorG::IncorrectType),
        },
        TokenType::Slash => match (l, r) {
            (ValueG::Num(a), ValueG::Num(b)) => match a.checked_div(b) {
                Some(q) => Ok(ValueG::Num(q)),
                None => Err(ErrorG::IncorrectType),
            },
            _ => Err(ErrorG::IncorrectType),
        },
        TokenType::Star => match (l, r) {
            (ValueG::Num(a), ValueG::Num(b)) => Ok(ValueG::Num(a.wrapping_mul(b))),
            _ => Err(ErrorG::IncorrectType),
        },
        TokenType::Plus => match (l, r) {
            (ValueG::Str(a), ValueG::Str(b)) => Ok(ValueG::Str(a + b)),
            (ValueG::Num(a), ValueG::Num(b)) => Ok(ValueG::Num(a.wrapping_add(b))),
            _ => Err(ErrorG::IncorrectType),
        },
        TokenType::Greater => match (l, r) {
            (ValueG::Num(a), ValueG::Num(b)) => Ok(ValueG::Bool(a > b)),
            _ => Err(ErrorG::IncorrectType),
        },
        TokenType::GreaterEqual => match (l, r) {
            (ValueG::Num(a), ValueG::Num(b)) => Ok(ValueG::Bool(a >= b)),
            _ => Err(ErrorG::IncorrectType),
        },
        TokenType::Less => match (l, r) {
            (ValueG::Num(a), ValueG::Num(b)) => Ok(ValueG::Bool(a < b)),
            _ => Err(ErrorG::IncorrectType),
        },
        TokenType::LessEqual => match (l, r) {
            (ValueG::Num(a), ValueG::Num(b)) => Ok(ValueG::Bool(a <= b)),
            _ => Err(ErrorG::IncorrectType),
        },
        TokenType::BangEqual => match (l, r) {
            (ValueG::Num(a), ValueG::Num(b)) => Ok(ValueG::Bool(a != b)),
            _ => Err(ErrorG::IncorrectType),
        },
        TokenType::EqualEqual => match (l, r) {
            (ValueG::Num(a), ValueG::Num(b)) => Ok(ValueG::Bool(a == b)),
            _ => Err(ErrorG::IncorrectType),
        },
        _ => Err(ErrorG::Unreachable),
    }
}

/// Defining a name in the current frame.
pub open spec fn state_define(st: StateG, name: Seq<char>, v: Option<ValueG>) -> StateG {
    if 0 <= st.current < st.envs.len() {
        StateG {
            envs: st.envs.update(
                st.current,
                FrameG {
                    values: st.envs[st.current].values.insert(name, v),
                    enclosing: st.envs[st.current].enclosing,
                },
            ),
            ..st
        }
    } else {
        st
    }
}

/// The bindings a call installs: each parameter bound to its argument,
/// in order, later parameters of the same name winning.
pub open spec fn bind_params(params: Seq<Seq<char>>, args: Seq<ValueG>) -> Map<
    Seq<char>,
    Option<ValueG>,
>
    decreases params.len(),
{
    if params.len() == 0 {
        Map::empty()
    } else {
        bind_params(params.drop_last(), args).insert(
            params.last(),
            if params.len() - 1 < args.len() {
                Some(args[params.len() - 1])
            } else {
                None
            },
        )
    }
}

/// What evaluating an expression returns, and the state it leaves.
pub open spec fn spec_eval_expr(st: StateG, e: Expr, fuel: nat) -> (StateG, Result<
    ValueG,
    ErrorG,
>)
    decreases fuel,
{
    if fuel == 0 {
        (st, Err(ErrorG::RecursionLimit))
    } else {
        let f = (fuel - 1) as nat;
        match e {
            Expr::Literal(l) => (st, Ok(value_of_literal(l@))),
            Expr::Grouping(inner) => spec_eval_expr(st, *inner, f),
            Expr::Unary(t, inner) => {
                let (st1, r) = spec_eval_expr(st, *inner, f);
                match r {
                    Err(e) => (st1, Err(e)),
                    Ok(v) => match t.token_type {
                        TokenType::Minus => match v {
                            ValueG::Num(n) => (st1, Ok(ValueG::Num((0 as i64).wrapping_sub(n)))),
                            _ => (st1, Err(ErrorG::IncorrectType)),
                        },
                        TokenType::Bang => (st1, Ok(ValueG::Bool(!truthy(v)))),
                        _ => (st1, Err(ErrorG::Unreachable)),
                    },
                }
            },
            Expr::Binary(l, t, r) => {
                let (st1, lr) = spec_eval_expr(st, *l, f);
                match lr {
                    Err(e) => (st1, Err(e)),
                    Ok(lv) => {
                        let (st2, rr) = spec_eval_expr(st1, *r, f);
                        match rr {
                            Err(e) => (st2, Err(e)),
                            Ok(rv) => (st2, spec_binary(t.token_type, lv, rv)),
                        }
                    },
                }
            },
            Expr::Logical(l, t, r) => {
                let (st1, lr) = spec_eval_expr(st, *l, f);
                match lr {
                    Err(e) => (st1, Err(e)),
                    Ok(lv) => {
                        if t.token_type == TokenType::Or {
                            if truthy(lv) {
                                (st1, Ok(lv))
                            } else {
                                spec_eval_expr(st1, *r, f)
                            }
                        } else {
                            if !truthy(lv) {
                                (st1, Ok(lv))
                            } else {
                                spec_eval_expr(st1, *r, f)
                            }
                        }
                    },
                }
            },
            Expr::Variable(t, id) => {
                if st.locals.contains_key(id) {
                    (st, spec_get_at(st.envs, st.current, st.locals[id] as int, t.lexeme@))
                } else {
                    (st, spec_get(st.envs, 0, t.lexeme@))
                }
            },
            Expr::Assign(t, rhs, id) => {
                let (st1, vr) = spec_eval_expr(st, *rhs, f);
                match vr {
                    Err(e) => (st1, Err(e)),
                    Ok(v) => {
                        if st1.locals.contains_key(id) {
                            match spec_assign_at(
                                st1.envs,
                                st1.current,
                                st1.locals[id] as int,
                                t.lexeme@,
                                v,
                            ) {
                                Ok(envs2) => (StateG { envs: envs2, ..st1 }, Ok(v)),
                                Err(e) => (st1, Err(e)),
                            }
                        } else {
                            match spec_assign(st1.envs, 0, t.lexeme@, v) {
                                Ok(envs2) => (StateG { envs: envs2, ..st1 }, Ok(v)),
                                Err(e) => (st1, Err(e)),
                            }
                        }
                    },
                }
            },
            Expr::Call(callee, _paren, args) => {
                let (st1, cr) = spec_eval_expr(st, *callee, f);
                match cr {
                    Err(e) => (st1, Err(e)),
                    Ok(cv) => match cv {
                        ValueG::Fun(c) => {
                            let (st2, ar) = spec_eval_args(st1, args@, 0, f);
                            match ar {
                                Err(e) => (st2, Err(e)),
                                Ok(vals) => {
                                    if vals.len() != arity_of(c) {
                                        (
                                            st2,
                                            Err(ErrorG::Arity(arity_of(c), vals.len() as int)),
                                        )
                                    } else {
                                        spec_call(st2, c, vals, f)
                                    }
                                },
                            }
                        },
                        _ => (st1, Err(ErrorG::IncorrectType)),
                    },
                }
            },
            _ => (st, Err(ErrorG::Unsupported)),
        }
    }
}

/// What evaluating a call's arguments, left to right from position `i`,
/// returns.
pub open spec fn spec_eval_args(st: StateG, args: Seq<Expr>, i: int, fuel: nat) -> (StateG, Result<
    Seq<ValueG>,
    ErrorG,
>)
    decreases fuel,
{
    if fuel == 0 {
        (st, Err(ErrorG::RecursionLimit))
    } else if !(0 <= i < args.len()) {
        (st, Ok(Seq::empty()))
    } else {
        let f = (fuel - 1) as nat;
        let (st1, r) = spec_eval_expr(st, args[i], f);
        match r {
            Err(e) => (st1, Err(e)),
            Ok(v) => {
                let (st2, rest) = spec_eval_args(st1, args, i + 1, f);
                match rest {
                    Err(e) => (st2, Err(e)),
                    Ok(vs) => (st2, Ok(seq![v] + vs)),
                }
            },
        }
    }
}

/// What invoking a callable on evaluated arguments returns: `clock`
/// reads the state's clock; a user function runs its body in a fresh
/// frame under its captured environment — not under the caller's current
/// frame, which is what makes scoping lexical. A `Return` signal is
/// caught exactly here: it yields its carried value, and a body that
/// falls off its end yields `nil`.
pub open spec fn spec_call(st: StateG, c: CallableG, args: Seq<ValueG>, fuel: nat) -> (StateG, Result<
    ValueG,
    ErrorG,
>)
    decreases fuel,
{
    if fuel == 0 {
        (st, Err(ErrorG::RecursionLimit))
    } else {
        match c {
            CallableG::BuiltIn(_f) => (st, Ok(ValueG::Num(st.clock))),
            CallableG::Dynamic { params, body, closure } => {
                let frame = FrameG { values: bind_params(params, args), enclosing: Some(closure) };
                let (st1, r) = spec_exec_block(st, body, frame, (fuel - 1) as nat);
                match r {
                    Ok(v) => (st1, Ok(v)),
                    Err(ErrorG::Return(v)) => (
                        st1,
                        Ok(
                            match v {
                                Some(v) => v,
                                None => ValueG::Nil,
                            },
                        ),
                    ),
                    Err(e) => (st1, Err(e)),
                }
            },
        }
    }
}

/// What executing one statement does to the state.
pub open spec fn spec_exec_stmt(st: StateG, s: Stmt, fuel: nat) -> (StateG, Result<(), ErrorG>)
    decreases fuel,
{
    if fuel == 0 {
        (st, Err(ErrorG::RecursionLimit))
    } else {
        let f = (fuel - 1) as nat;
        match s {
            Stmt::Block(stmts) => {
                let frame = FrameG {
                    values: Map::empty(),
                    enclosing: Some(st.current),
                };
                let (st1, r) = spec_exec_block(st, stmts@, frame, f);
                match r {
                    Ok(_) => (st1, Ok(())),
                    Err(e) => (st1, Err(e)),
                }
            },
            Stmt::Expression(e) => {
                let (st1, r) = spec_eval_expr(st, e, f);
                match r {
                    Ok(_) => (st1, Ok(())),
                    Err(e) => (st1, Err(e)),
                }
            },
            Stmt::Function { name, params, body } => {
                let c = CallableG::Dynamic {
                    params: params@.map_values(|t: Token| t.lexeme@),
                    body: body@,
                    closure: st.current,
                };
                (state_define(st, name.lexeme@, Some(ValueG::Fun(c))), Ok(()))
            },
            Stmt::If { condition, then_branch, else_branch } => {
                let (st1, r) = spec_eval_expr(st, condition, f);
                match r {
                    Err(e) => (st1, Err(e)),
                    Ok(v) => {
                        if truthy(v) {
                            spec_exec_stmt(st1, *then_branch, f)
                        } else {
                            match else_branch {
                                Some(el) => spec_exec_stmt(st1, *el, f),
                                None => (st1, Ok(())),
                            }
                        }
                    },
                }
            },
            Stmt::Print(e) => {
                let (st1, r) = spec_eval_expr(st, e, f);
                match r {
                    Err(e) => (st1, Err(e)),
                    Ok(v) => (
                        StateG { output: st1.output.push(display_of(v)), ..st1 },
                        Ok(()),
                    ),
                }
            },
            Stmt::Return { keyword: _, expr } => {
                match expr {
                    Some(e) => {
                        let (st1, r) = spec_eval_expr(st, e, f);
                        match r {
                            Err(e) => (st1, Err(e)),
                            Ok(v) => (st1, Err(ErrorG::Return(Some(v)))),
                        }
                    },
                    None => (st, Err(ErrorG::Return(None))),
                }
            },
            Stmt::Var { name, initializer } => {
                match initializer {
                    Some(e) => {
                        let (st1, r) = spec_eval_expr(st, e, f);
                        match r {
                            Err(e) => (st1, Err(e)),
                            Ok(v) => (state_define(st1, name.lexeme@, Some(v)), Ok(())),
                        }
                    },
                    None => (state_define(st, name.lexeme@, None), Ok(())),
                }
            },
            Stmt::While { condition, body } => {
                let (st1, r) = spec_eval_expr(st, condition, f);
                match r {
                    Err(e) => (st1, Err(e)),
                    Ok(v) => {
                        if !truthy(v) {
                            (st1, Ok(()))
                        } else {
                            let (st2, br) = spec_exec_stmt(st1, *body, f);
                            match br {
                                Err(e) => (st2, Err(e)),
                                Ok(_) => spec_exec_stmt(st2, s, f),
                            }
                        }
                    },
                }
            },
            Stmt::Class => (st, Err(ErrorG::Unsupported)),
        }
    }
}

/// What running a whole program does: the statements in order, with a
/// `Return` signal that escaped every call boundary reported as an
/// invariant violation instead of leaking to the embedder.
pub open spec fn spec_interpret(st: StateG, stmts: Seq<Stmt>, fuel: nat) -> (StateG, Result<
    (),
    ErrorG,
>) {
    let (st1, r) = spec_exec_seq(st, stmts, 0, fuel);
    match r {
        Err(ErrorG::Return(_)) => (st1, Err(ErrorG::Unreachable)),
        _ => (st1, r),
    }
}

/// What executing a statement list from position `i` on does.
pub open spec fn spec_exec_seq(st: StateG, stmts: Seq<Stmt>, i: int, fuel: nat) -> (StateG, Result<
    (),
    ErrorG,
>)
    decreases fuel,
{
    if fuel == 0 {
        (st, Err(ErrorG::RecursionLimit))
    } else if !(0 <= i < stmts.len()) {
        (st, Ok(()))
    } else {
        let f = (fuel - 1) as nat;
        let (st1, r) = spec_exec_stmt(st, stmts[i], f);
        match r {
            Err(e) => (st1, Err(e)),
            Ok(_) => spec_exec_seq(st1, stmts, i + 1, f),
        }
    }
}

/// What executing a block in a freshly pushed frame does: statements run
/// with `current` moved to the new frame; on success the block's value is
/// `nil`; every failure — the `Return` signal included — propagates up,
/// to be caught only at a function-call boundary; and on every exit path
/// `current` is put back to what it was.
pub open spec fn spec_exec_block(st: StateG, stmts: Seq<Stmt>, frame: FrameG, fuel: nat) -> (StateG, Result<
    ValueG,
    ErrorG,
>)
    decreases fuel,
{
    if fuel == 0 {
        (st, Err(ErrorG::RecursionLimit))
    } else {
        let entered = StateG { envs: st.envs.push(frame), current: st.envs.len() as int, ..st };
        let (st1, r) = spec_exec_seq(entered, stmts, 0, (fuel - 1) as nat);
        let restored = StateG { current: st.current, ..st1 };
        match r {
            Ok(_) => (restored, Ok(ValueG::Nil)),
            Err(e) => (restored, Err(e)),
        }
    }
}

/// What recording one resolution does: `Variable` and `Assign` nodes get
/// their distance written under their identifier; other nodes change
/// nothing.
pub open spec fn spec_record_resolution(st: StateG, e: Expr, depth: u32) -> StateG {
    match e {
        Expr::Variable(_t, id) => StateG { locals: st.locals.insert(id, depth), ..st },
        Expr::Assign(_t, _e, id) => StateG { locals: st.locals.insert(id, depth), ..st },
        _ => st,
    }
}

/// The process-wide interpreter state: the environment arena (frame 0 is
/// the global environment), the current frame, the resolver's distance
/// map, the buffered output of `print`, and the value `clock` returns
/// (milliseconds since the epoch, supplied by the embedder).
pub struct Interpreter {
    pub envs: Vec<Environment>,
    pub current: usize,
    pub locals: IdMap,
    pub output: Vec<String>,
    pub clock_ms: i64,
}

impl View for Interpreter {
    type V = StateG;

    open spec fn view(&self) -> StateG {
        StateG {
            envs: arena_view(self.envs),
            current: self.current as int,
            locals: self.locals@,
            output: self.output.deep_view(),
            clock: self.clock_ms,
        }
    }
}

impl Interpreter {
    /// Every backing table is well formed.
    pub open spec fn inv(&self) -> bool {
        &&& frames_wf(self.envs)
        &&& self.locals.wf()
    }

    /// A fresh interpreter: one empty global environment, which is also
    /// the current one; nothing resolved, nothing printed, clock at zero.
    pub fn new() -> (interp: Interpreter)
        ensures
            interp.inv(),
            interp@.envs =~= seq![
                FrameG {
                    values: Map::<Seq<char>, Option<ValueG>>::empty(),
                    enclosing: None::<int>,
                },
            ],
            interp@.current == 0,
            interp@.locals == Map::<u64, u32>::empty(),
            interp@.output == Seq::<Seq<char>>::empty(),
            interp@.clock == 0,
    {
        let mut envs: Vec<Environment> = Vec::new();
        envs.push(Environment::new(None));
        Interpreter { envs, current: 0, locals: IdMap::new(), output: Vec::new(), clock_ms: 0 }
    }

    /// A fresh, empty environment under the global one.
    pub fn new_env_from_globals(&self) -> (e: Environment)
        ensures
            e.values.wf(),
            e@ == (FrameG {
                values: Map::<Seq<char>, Option<ValueG>>::empty(),
                enclosing: Some(0int),
            }),
    {
        Environment::new(Some(0))
    }

    /// A fresh, empty environment under the current one.
    pub fn new_env(&self) -> (e: Environment)
        ensures
            e.values.wf(),
            e@ == (FrameG {
                values: Map::<Seq<char>, Option<ValueG>>::empty(),
                enclosing: Some(self.current as int),
            }),
    {
        Environment::new(Some(self.current))
    }

    /// Sets what the `clock` built-in returns: milliseconds since the
    /// epoch, as the embedder measures them.
    pub fn set_clock_ms(&mut self, ms: i64)
        requires
            old(self).inv(),
        ensures
            final(self).inv(),
            final(self)@ == (StateG { clock: ms, ..old(self)@ }),
    {
        self.clock_ms = ms;
    }

    /// Hands the lines printed so far to the caller and clears the
    /// buffer.
    pub fn take_output(&mut self) -> (out: Vec<String>)
        requires
            old(self).inv(),
        ensures
            final(self).inv(),
            out.deep_view() == old(self)@.output,
            final(self)@ == (StateG { output: Seq::<Seq<char>>::empty(), ..old(self)@ }),
    {
        let mut out: Vec<String> = Vec::new();
        core::mem::swap(&mut out, &mut self.output);
        out
    }

    /// Binds a name in the current frame, exactly as `state_define`
    /// describes.
    fn define_current(&mut self, key: &Token, value: Option<RlValue>)
        requires
            old(self).inv(),
        ensures
            final(self).inv(),
            final(self)@ == state_define(old(self)@, key.lexeme@, value.deep_view()),
    {
        if self.current < self.envs.len() {
            crate::environment::update_binding(&mut self.envs, self.current, key, value);
            proof {
                assert(self@ =~= state_define(old(self)@, key.lexeme@, value.deep_view()));
            }
        } else {
            proof {
                assert(self@ =~= state_define(old(self)@, key.lexeme@, value.deep_view()));
            }
        }
    }

    /// Executes a program: every statement in order, stopping at the
    /// first failure, exactly as `spec_interpret` describes. The `Return`
    /// signal is internal and never reaches the caller: with no call
    /// boundary left to catch one, a `return` outside any function is
    /// reported as reaching an invariant-violating branch.
    pub fn interpret(&mut self, stmts: &Vec<Stmt>, fuel: u64) -> (r: Result<(), RloxError>)
        requires
            old(self).inv(),
        ensures
            final(self).inv(),
            spec_interpret(old(self)@, stmts@, fuel as nat).0 == final(self)@,
            spec_interpret(old(self)@, stmts@, fuel as nat).1 == unit_res_view(r),
            !(r matches Err(RloxError::Return(_))),
    {
        match self.execute_seq(stmts, 0, fuel) {
            Ok(_) => Ok(()),
            Err(e) => {
                match e {
                    RloxError::Return(_) => Err(
                        RloxError::Unreachable(
                            "a return statement outside any function".to_owned(),
                        ),
                    ),
                    other => Err(other),
                }
            },
        }
    }

    /// Executes the statements of a list from position `i` on, exactly as
    /// `spec_exec_seq` describes.
    fn execute_seq(&mut self, stmts: &Vec<Stmt>, i: usize, fuel: u64) -> (r: Result<(), RloxError>)
        requires
            old(self).inv(),
        ensures
            final(self).inv(),
            spec_exec_seq(old(self)@, stmts@, i as int, fuel as nat).0 == final(self)@,
            spec_exec_seq(old(self)@, stmts@, i as int, fuel as nat).1 == unit_res_view(r),
        decreases fuel,
    {
        if fuel == 0 {
            return Err(RloxError::RecursionLimit);
        }
        if i >= stmts.len() {
            return Ok(());
        }
        match self.execute(&stmts[i], fuel - 1) {
            Err(e) => Err(e),
            Ok(_) => self.execute_seq(stmts, i + 1, fuel - 1),
        }
    }

    /// Executes one statement, exactly as `spec_exec_stmt` describes.
    fn execute(&mut self, stmt: &Stmt, fuel: u64) -> (r: Result<(), RloxError>)
        requires
            old(self).inv(),
        ensures
            final(self).inv(),
            spec_exec_stmt(old(self)@, *stmt, fuel as nat).0 == final(self)@,
            spec_exec_stmt(old(self)@, *stmt, fuel as nat).1 == unit_res_view(r),
        decreases fuel,
    {
        if fuel == 0 {
            return Err(RloxError::RecursionLimit);
        }
        match stmt {
            Stmt::Block(stmts) => {
                let env = self.new_env();
                match self.execute_block(stmts, env, fuel - 1) {
                    Ok(_) => Ok(()),
                    Err(e) => Err(e),
                }
            },
            Stmt::Expression(e) => {
                match self.evaluate_expr(e, fuel - 1) {
                    Ok(_) => Ok(()),
                    Err(e) => Err(e),
                }
            },
            Stmt::Function { name, params, body } => {
                let callable = Callable::Dynamic {
                    params: crate::token::clone_tokens(params),
                    body: body.clone(),
                    closure: self.current,
                };
                proof {
                    assert(callable@ == (CallableG::Dynamic {
                        params: params@.map_values(|t: Token| t.lexeme@),
                        body: body@,
                        closure: self.current as int,
                    }));
                }
                self.define_current(name, Some(RlValue::Callable(callable)));
                Ok(())
            },
            Stmt::If { condition, then_branch, else_branch } => {
                match self.evaluate_expr(condition, fuel - 1) {
                    Err(e) => Err(e),
                    Ok(v) => {
                        if v.is_truthy() {
                            self.execute(then_branch, fuel - 1)
                        } else {
                            match else_branch {
                                Some(el) => self.execute(el, fuel - 1),
                                None => Ok(()),
                            }
                        }
                    },
                }
            },
            Stmt::Print(e) => {
                match self.evaluate_expr(e, fuel - 1) {
                    Err(e) => Err(e),
                    Ok(v) => {
                        let line = render(&v);
                        let ghost mid = self@;
                        self.output.push(line);
                        proof {
                            assert(self.output.deep_view() =~= mid.output.push(line@));
                            assert(self@ =~= StateG { output: mid.output.push(display_of(v@)), ..mid });
                        }
                        Ok(())
                    },
                }
            },
            Stmt::Return { keyword: _, expr } => {
                match expr {
                    Some(e) => {
                        match self.evaluate_expr(e, fuel - 1) {
                            Err(e) => Err(e),
                            Ok(v) => Err(RloxError::Return(Some(v))),
                        }
                    },
                    None => Err(RloxError::Return(None)),
                }
            },
            Stmt::Var { name, initializer } => {
                match initializer {
                    Some(e) => {
                        match self.evaluate_expr(e, fuel - 1) {
                            Err(e) => Err(e),
                            Ok(v) => {
                                self.define_current(name, Some(v));
                                Ok(())
                            },
                        }
                    },
                    None => {
                        self.define_current(name, None);
                        Ok(())
                    },
                }
            },
            Stmt::While { condition, body } => {
                match self.evaluate_expr(condition, fuel - 1) {
                    Err(e) => Err(e),
                    Ok(v) => {
                        if !v.is_truthy() {
                            Ok(())
                        } else {
                            match self.execute(body, fuel - 1) {
                                Err(e) => Err(e),
                                Ok(_) => self.execute(stmt, fuel - 1),
                            }
                        }
                    },
                }
            },
            Stmt::Class => Err(
                RloxError::Unsupported("class declarations are not implemented".to_owned()),
            ),
        }
    }

    /// Executes a block in the given freshly created environment, exactly
    /// as `spec_exec_block` describes: the prior current frame is
    /// restored on every exit path, and every failure — the `Return`
    /// signal included — propagates to the caller.
    pub fn execute_block(&mut self, stmts: &Vec<Stmt>, env: Environment, fuel: u64) -> (r: Result<
        RlValue,
        RloxError,
    >)
        requires
            old(self).inv(),
            env.values.wf(),
        ensures
            final(self).inv(),
            spec_exec_block(old(self)@, stmts@, env@, fuel as nat).0 == final(self)@,
            spec_exec_block(old(self)@, stmts@, env@, fuel as nat).1 == val_res_view(r),
            final(self).current == old(self).current,
        decreases fuel,
    {
        if fuel == 0 {
            return Err(RloxError::RecursionLimit);
        }
        let saved = self.current;
        let idx = self.envs.len();
        self.envs.push(env);
        self.current = idx;
        proof {
            assert(arena_view(self.envs) =~= arena_view(old(self).envs).push(env@));
            assert(self@ =~= StateG {
                envs: old(self)@.envs.push(env@),
                current: old(self)@.envs.len() as int,
                ..old(self)@
            });
        }
        let r = self.execute_seq(stmts, 0, fuel - 1);
        let ghost after = self@;
        self.current = saved;
        proof {
            assert(self@ =~= StateG { current: old(self)@.current, ..after });
        }
        match r {
            Ok(_) => Ok(RlValue::Nil),
            Err(e) => Err(e),
        }
    }

    /// Evaluates one expression, exactly as `spec_eval_expr` describes.
    fn evaluate_expr(&mut self, expr: &Expr, fuel: u64) -> (r: Result<RlValue, RloxError>)
        requires
            old(self).inv(),
        ensures
            final(self).inv(),
            spec_eval_expr(old(self)@, *expr, fuel as nat).0 == final(self)@,
            spec_eval_expr(old(self)@, *expr, fuel as nat).1 == val_res_view(r),
        decreases fuel,
    {
        if fuel == 0 {
            return Err(RloxError::RecursionLimit);
        }
        match expr {
            Expr::Literal(l) => Ok(value_from_literal(l)),
            Expr::Grouping(inner) => self.evaluate_expr(inner, fuel - 1),
            Expr::Unary(t, inner) => {
                match self.evaluate_expr(inner, fuel - 1) {
                    Err(e) => Err(e),
                    Ok(v) => {
                        match t.token_type {
                            TokenType::Minus => {
                                match v.as_numeric() {
                                    Some(n) => Ok(RlValue::Number((0 as i64).wrapping_sub(n))),
                                    None => Err(
                                        RloxError::IncorrectType(
                                            "operand of negation must be a number".to_owned(),
                                        ),
                                    ),
                                }
                            },
                            TokenType::Bang => Ok(RlValue::Boolean(!v.is_truthy())),
                            _ => Err(
                                RloxError::Unreachable(
                                    "unary operator is neither minus nor bang".to_owned(),
                                ),
                            ),
                        }
                    },
                }
            },
            Expr::Binary(l, t, r) => {
                match self.evaluate_expr(l, fuel - 1) {
                    Err(e) => Err(e),
                    Ok(lv) => {
                        match self.evaluate_expr(r, fuel - 1) {
                            Err(e) => Err(e),
                            Ok(rv) => binary_op(t, lv, rv),
                        }
                    },
                }
            },
            Expr::Logical(l, t, r) => {
                match self.evaluate_expr(l, fuel - 1) {
                    Err(e) => Err(e),
                    Ok(lv) => {
                        if t.token_type == TokenType::Or {
                            if lv.is_truthy() {
                                Ok(lv)
                            } else {
                                self.evaluate_expr(r, fuel - 1)
                            }
                        } else {
                            if !lv.is_truthy() {
                                Ok(lv)
                            } else {
                                self.evaluate_expr(r, fuel - 1)
                            }
                        }
                    },
                }
            },
            Expr::Variable(t, id) => {
                match self.locals.get(*id) {
                    Some(distance) => Environment::get_at(&self.envs, self.current, distance, t),
                    None => Environment::get(&self.envs, 0, t),
                }
            },
            Expr::Assign(t, rhs, id) => {
                match self.evaluate_expr(rhs, fuel - 1) {
                    Err(e) => Err(e),
                    Ok(v) => {
                        let ghost mid = self@;
                        let stored = clone_value(&v);
                        match self.locals.get(*id) {
                            Some(distance) => {
                                match Environment::assign_at(
                                    &mut self.envs,
                                    self.current,
                                    distance,
                                    t,
                                    stored,
                                ) {
                                    Ok(_) => {
                                        proof {
                                            assert(self@ =~= StateG {
                                                envs: arena_view(self.envs),
                                                ..mid
                                            });
                                        }
                                        Ok(v)
                                    },
                                    Err(e) => Err(e),
                                }
                            },
                            None => {
                                match Environment::assign(&mut self.envs, 0, t, stored) {
                                    Ok(_) => {
                                        proof {
                                            assert(self@ =~= StateG {
                                                envs: arena_view(self.envs),
                                                ..mid
                                            });
                                        }
                                        Ok(v)
                                    },
                                    Err(e) => Err(e),
                                }
                            },
                        }
                    },
                }
            },
            Expr::Call(callee, _paren, args) => {
                match self.evaluate_expr(callee, fuel - 1) {
                    Err(e) => Err(e),
                    Ok(cv) => {
                        match cv {
                            RlValue::Callable(function) => {
                                match self.evaluate_args(args, 0, fuel - 1) {
                                    Err(e) => Err(e),
                                    Ok(argv) => {
                                        if argv.len() != function.arity() {
                                            Err(
                                                RloxError::ArityError(function.arity(), argv.len()),
                                            )
                                        } else {
                                            function.call(self, &argv, fuel - 1)
                                        }
                                    },
                                }
                            },
                            _ => Err(
                                RloxError::IncorrectType(
                                    "only functions can be called".to_owned(),
                                ),
                            ),
                        }
                    },
                }
            },
            _ => Err(RloxError::Unsupported("expression kind is not implemented".to_owned())),
        }
    }

    /// Evaluates a call's arguments left to right from position `i`,
    /// exactly as `spec_eval_args` describes.
    fn evaluate_args(&mut self, args: &Vec<Expr>, i: usize, fuel: u64) -> (r: Result<
        Vec<RlValue>,
        RloxError,
    >)
        requires
            old(self).inv(),
        ensures
            final(self).inv(),
            spec_eval_args(old(self)@, args@, i as int, fuel as nat).0 == final(self)@,
            spec_eval_args(old(self)@, args@, i as int, fuel as nat).1 == (match r {
                Ok(vs) => Ok::<Seq<ValueG>, ErrorG>(vs.deep_view()),
                Err(e) => Err::<Seq<ValueG>, ErrorG>(e@),
            }),
        decreases fuel,
    {
        if fuel == 0 {
            return Err(RloxError::RecursionLimit);
        }
        if i >= args.len() {
            let empty: Vec<RlValue> = Vec::new();
            proof {
                assert(empty.deep_view() =~= Seq::<ValueG>::empty());
            }
            return Ok(empty);
        }
        match self.evaluate_expr(&args[i], fuel - 1) {
            Err(e) => Err(e),
            Ok(v) => {
                let ghost vg = v@;
                match self.evaluate_args(args, i + 1, fuel - 1) {
                    Err(e) => Err(e),
                    Ok(mut rest) => {
                        let ghost restg = rest.deep_view();
                        rest.insert(0, v);
                        proof {
                            assert(rest.deep_view() =~= seq![vg] + restg);
                        }
                        Ok(rest)
                    },
                }
            },
        }
    }

    /// Records a lexical distance for a `Variable` or `Assign` node; any
    /// other node is left unrecorded.
    pub fn resolve(&mut self, expr: &Expr, depth: u32) -> (r: Result<(), RloxError>)
        requires
            old(self).inv(),
        ensures
            final(self).inv(),
            r is Ok,
            final(self)@ == spec_record_resolution(old(self)@, *expr, depth),
    {
        match expr {
            Expr::Variable(_t, id) => {
                self.locals.insert(*id, depth);
            },
            Expr::Assign(_t, _e, id) => {
                self.locals.insert(*id, depth);
            },
            _ => (),
        }
        Ok(())
    }
}

/// Renders a value as `print` shows it, exactly as `display_of`
/// describes.
fn render(v: &RlValue) -> (s: String)
    ensures
        s@ == display_of(v@),
{
    match v {
        RlValue::Nil => "nil".to_owned(),
        RlValue::Boolean(b) => {
            if *b {
                "true".to_owned()
            } else {
                "false".to_owned()
            }
        },
        RlValue::Number(n) => crate::numtext::i64_to_string(*n),
        RlValue::String(s) => s.clone(),
        RlValue::Callable(_) => "<fn>".to_owned(),
    }
}

/// Applies a binary operator to two evaluated operands, exactly as
/// `spec_binary` describes.
fn binary_op(t: &Token, left: RlValue, right: RlValue) -> (r: Result<RlValue, RloxError>)
    ensures
        val_res_view(r) == spec_binary(t.token_type, left@, right@),
{
    match t.token_type {
        TokenType::Minus => {
            match (left, right) {
                (RlValue::Number(a), RlValue::Number(b)) => Ok(RlValue::Number(a.wrapping_sub(b))),
                _ => Err(RloxError::IncorrectType("operands must be numbers".to_owned())),
            }
        },
        TokenType::Slash => {
            match (left, right) {
                (RlValue::Number(a), RlValue::Number(b)) => {
                    match a.checked_div(b) {
                        Some(q) => Ok(RlValue::Number(q)),
                        None => Err(
                            RloxError::IncorrectType("division by zero has no value".to_owned()),
                        ),
                    }
                },
                _ => Err(RloxError::IncorrectType("operands must be numbers".to_owned())),
            }
        },
        TokenType::Star => {
            match (left, right) {
                (RlValue::Number(a), RlValue::Number(b)) => Ok(RlValue::Number(a.wrapping_mul(b))),
                _ => Err(RloxError::IncorrectType("operands must be numbers".to_owned())),
            }
        },
        TokenType::Plus => {
            match (left, right) {
                (RlValue::String(a), RlValue::String(b)) => Ok(
                    RlValue::String(a.concat(b.as_str())),
                ),
                (RlValue::Number(a), RlValue::Number(b)) => Ok(RlValue::Number(a.wrapping_add(b))),
                _ => Err(
                    RloxError::IncorrectType(
                        "operands must be two numbers or two strings".to_owned(),
                    ),
                ),
            }
        },
        TokenType::Greater => {
            match (left, right) {
                (RlValue::Number(a), RlValue::Number(b)) => Ok(RlValue::Boolean(a > b)),
                _ => Err(RloxError::IncorrectType("operands must be numbers".to_owned())),
            }
        },
        TokenType::GreaterEqual => {
            match (left, right) {
                (RlValue::Number(a), RlValue::Number(b)) => Ok(RlValue::Boolean(a >= b)),
                _ => Err(RloxError::IncorrectType("operands must be numbers".to_owned())),
            }
        },
        TokenType::Less => {
            match (left, right) {
                (RlValue::Number(a), RlValue::Number(b)) => Ok(RlValue::Boolean(a < b)),
                _ => Err(RloxError::IncorrectType("operands must be numbers".to_owned())),
            }
        },
        TokenType::LessEqual => {
            match (left, right) {
                (RlValue::Number(a), RlValue::Number(b)) => Ok(RlValue::Boolean(a <= b)),
                _ => Err(RloxError::IncorrectType("operands must be numbers".to_owned())),
            }
        },
        TokenType::BangEqual => {
            match (left, right) {
                (RlValue::Number(a), RlValue::Number(b)) => Ok(RlValue::Boolean(a != b)),
                _ => Err(RloxError::IncorrectType("operands must be numbers".to_owned())),
            }
        },
        TokenType::EqualEqual => {
            match (left, right) {
                (RlValue::Number(a), RlValue::Number(b)) => Ok(RlValue::Boolean(a == b)),
                _ => Err(RloxError::IncorrectType("operands must be numbers".to_owned())),
            }
        },
        _ => Err(RloxError::Unreachable("token is not a binary operator".to_owned())),
    }
}

/// Truthiness partitions the values exactly: `nil` and `false` are falsy
/// and every other value — zero and the empty string included — is
/// truthy.
pub proof fn lemma_truthiness(v: ValueG)
    ensures
        truthy(v) <==> !(v == ValueG::Nil || v == ValueG::Bool(false)),
{
}

/// Executing a block restores the prior current frame on every exit
/// path: normal completion, a caught `Return` signal, and failure alike.
pub proof fn lemma_block_restores_current(st: StateG, stmts: Seq<Stmt>, frame: FrameG, fuel: nat)
    ensures
        spec_exec_block(st, stmts, frame, fuel).0.current == st.current,
{
}

/// Logical operators are short-circuiting: in `a or b` the right operand
/// is evaluated exactly when `a` came out falsy, in `a and b` exactly
/// when `a` came out truthy — in every other case the state stays as the
/// left operand left it — and the result is one of the operand values
/// themselves, never a coerced boolean.
pub proof fn lemma_logical_short_circuit(st: StateG, e: Expr, fuel: nat)
    requires
        fuel > 0,
        e matches Expr::Logical(_, _, _),
    ensures
        (match e {
            Expr::Logical(l, t, r) => {
                let (st1, lr) = spec_eval_expr(st, *l, (fuel - 1) as nat);
                match lr {
                    Ok(v) => {
                        if (t.token_type == TokenType::Or && truthy(v)) || (t.token_type
                            != TokenType::Or && !truthy(v)) {
                            spec_eval_expr(st, e, fuel) == (st1, Ok::<ValueG, ErrorG>(v))
                        } else {
                            spec_eval_expr(st, e, fuel) == spec_eval_expr(
                                st1,
                                *r,
                                (fuel - 1) as nat,
                            )
                        }
                    },
                    Err(err) => spec_eval_expr(st, e, fuel) == (st1, Err::<ValueG, ErrorG>(err)),
                }
            },
            _ => true,
        }),
{
}

/// Lexical scoping: what a user function's body sees is decided by the
/// environment it captured when it was defined, never by where the call
/// stands. Two states that agree on everything but the current frame
/// give a call the same result and the same effects, and each caller
/// gets its own current frame back.
pub proof fn lemma_closure_sees_definition_scope(
    st1: StateG,
    st2: StateG,
    c: CallableG,
    args: Seq<ValueG>,
    fuel: nat,
)
    requires
        st1.envs == st2.envs,
        st1.locals == st2.locals,
        st1.output == st2.output,
        st1.clock == st2.clock,
        c matches CallableG::Dynamic { .. },
    ensures
        spec_call(st1, c, args, fuel).1 == spec_call(st2, c, args, fuel).1,
        spec_call(st1, c, args, fuel).0.envs == spec_call(st2, c, args, fuel).0.envs,
        spec_call(st1, c, args, fuel).0.output == spec_call(st2, c, args, fuel).0.output,
        spec_call(st1, c, args, fuel).0.clock == spec_call(st2, c, args, fuel).0.clock,
        spec_call(st1, c, args, fuel).0.locals == spec_call(st2, c, args, fuel).0.locals,
        spec_call(st1, c, args, fuel).0.current == st1.current,
        spec_call(st2, c, args, fuel).0.current == st2.current,
{
    if fuel == 0 {
    } else {
        match c {
            CallableG::Dynamic { params, body, closure } => {
                let frame = FrameG { values: bind_params(params, args), enclosing: Some(closure) };
                let entered1 = StateG {
                    envs: st1.envs.push(frame),
                    current: st1.envs.len() as int,
                    ..st1
                };
                let entered2 = StateG {
                    envs: st2.envs.push(frame),
                    current: st2.envs.len() as int,
                    ..st2
                };
                assert(entered1 =~= entered2);
                lemma_block_restores_current(st1, body, frame, (fuel - 1) as nat);
                lemma_block_restores_current(st2, body, frame, (fuel - 1) as nat);
            },
            CallableG::BuiltIn(_) => {
            },
        }
    }
}

/// Evaluating an expression reads the resolution map and the clock but
/// never writes them: they are the resolver's and the embedder's.
pub proof fn lemma_eval_writes_no_static_state(st: StateG, e: Expr, fuel: nat)
    ensures
        spec_eval_expr(st, e, fuel).0.locals == st.locals,
        spec_eval_expr(st, e, fuel).0.clock == st.clock,
    decreases fuel,
{
    if fuel > 0 {
        let f = (fuel - 1) as nat;
        match e {
            Expr::Grouping(inner) => {
                lemma_eval_writes_no_static_state(st, *inner, f);
            },
            Expr::Unary(_t, inner) => {
                lemma_eval_writes_no_static_state(st, *inner, f);
            },
            Expr::Binary(l, _t, r) => {
                lemma_eval_writes_no_static_state(st, *l, f);
                lemma_eval_writes_no_static_state(spec_eval_expr(st, *l, f).0, *r, f);
            },
            Expr::Logical(l, _t, r) => {
                lemma_eval_writes_no_static_state(st, *l, f);
                lemma_eval_writes_no_static_state(spec_eval_expr(st, *l, f).0, *r, f);
            },
            Expr::Assign(_t, rhs, _id) => {
                lemma_eval_writes_no_static_state(st, *rhs, f);
            },
            Expr::Call(callee, _paren, args) => {
                lemma_eval_writes_no_static_state(st, *callee, f);
                let st1 = spec_eval_expr(st, *callee, f).0;
                lemma_args_write_no_static_state(st1, args@, 0, f);
                let st2 = spec_eval_args(st1, args@, 0, f).0;
                match spec_eval_expr(st, *callee, f).1 {
                    Ok(ValueG::Fun(c)) => {
                        match spec_eval_args(st1, args@, 0, f).1 {
                            Ok(vals) => {
                                lemma_call_writes_no_static_state(st2, c, vals, f);
                            },
                            Err(_) => {},
                        }
                    },
                    _ => {},
                }
            },
            _ => {},
        }
    }
}

/// Evaluating an argument list writes neither the resolution map nor the
/// clock.
proof fn lemma_args_write_no_static_state(st: StateG, args: Seq<Expr>, i: int, fuel: nat)
    ensures
        spec_eval_args(st, args, i, fuel).0.locals == st.locals,
        spec_eval_args(st, args, i, fuel).0.clock == st.clock,
    decreases fuel,
{
    if fuel > 0 && 0 <= i < args.len() {
        let f = (fuel - 1) as nat;
        lemma_eval_writes_no_static_state(st, args[i], f);
        lemma_args_write_no_static_state(spec_eval_expr(st, args[i], f).0, args, i + 1, f);
    }
}

/// Invoking a callable writes neither the resolution map nor the clock.
pub proof fn lemma_call_writes_no_static_state(st: StateG, c: CallableG, args: Seq<ValueG>, fuel: nat)
    ensures
        spec_call(st, c, args, fuel).0.locals == st.locals,
        spec_call(st, c, args, fuel).0.clock == st.clock,
    decreases fuel,
{
    if fuel > 0 {
        match c {
            CallableG::Dynamic { params, body, closure } => {
                let frame = FrameG { values: bind_params(params, args), enclosing: Some(closure) };
                lemma_block_writes_no_static_state(st, body, frame, (fuel - 1) as nat);
            },
            CallableG::BuiltIn(_) => {},
        }
    }
}

/// Executing a statement writes neither the resolution map nor the
/// clock.
pub proof fn lemma_stmt_writes_no_static_state(st: StateG, s: Stmt, fuel: nat)
    ensures
        spec_exec_stmt(st, s, fuel).0.locals == st.locals,
        spec_exec_stmt(st, s, fuel).0.clock == st.clock,
    decreases fuel,
{
    if fuel > 0 {
        let f = (fuel - 1) as nat;
        match s {
            Stmt::Block(stmts) => {
                let frame = FrameG { values: Map::empty(), enclosing: Some(st.current) };
                lemma_block_writes_no_static_state(st, stmts@, frame, f);
            },
            Stmt::Expression(e) => {
                lemma_eval_writes_no_static_state(st, e, f);
            },
            Stmt::If { condition, then_branch, else_branch } => {
                lemma_eval_writes_no_static_state(st, condition, f);
                let st1 = spec_eval_expr(st, condition, f).0;
                lemma_stmt_writes_no_static_state(st1, *then_branch, f);
                match else_branch {
                    Some(el) => {
                        lemma_stmt_writes_no_static_state(st1, *el, f);
                    },
                    None => {},
                }
            },
            Stmt::Print(e) => {
                lemma_eval_writes_no_static_state(st, e, f);
            },
            Stmt::Return { keyword: _, expr } => {
                match expr {
                    Some(e) => {
                        lemma_eval_writes_no_static_state(st, e, f);
                    },
                    None => {},
                }
            },
            Stmt::Var { name: _, initializer } => {
                match initializer {
                    Some(e) => {
                        lemma_eval_writes_no_static_state(st, e, f);
                    },
                    None => {},
                }
            },
            Stmt::While { condition, body } => {
                lemma_eval_writes_no_static_state(st, condition, f);
                let st1 = spec_eval_expr(st, condition, f).0;
                lemma_stmt_writes_no_static_state(st1, *body, f);
                let st2 = spec_exec_stmt(st1, *body, f).0;
                lemma_stmt_writes_no_static_state(st2, s, f);
            },
            _ => {},
        }
    }
}

/// Executing a statement list writes neither the resolution map nor the
/// clock.
proof fn lemma_seq_writes_no_static_state(st: StateG, stmts: Seq<Stmt>, i: int, fuel: nat)
    ensures
        spec_exec_seq(st, stmts, i, fuel).0.locals == st.locals,
        spec_exec_seq(st, stmts, i, fuel).0.clock == st.clock,
    decreases fuel,
{
    if fuel > 0 && 0 <= i < stmts.len() {
        let f = (fuel - 1) as nat;
        lemma_stmt_writes_no_static_state(st, stmts[i], f);
        lemma_seq_writes_no_static_state(spec_exec_stmt(st, stmts[i], f).0, stmts, i + 1, f);
    }
}

/// Executing a block writes neither the resolution map nor the clock.
proof fn lemma_block_writes_no_static_state(st: StateG, stmts: Seq<Stmt>, frame: FrameG, fuel: nat)
    ensures
        spec_exec_block(st, stmts, frame, fuel).0.locals == st.locals,
        spec_exec_block(st, stmts, frame, fuel).0.clock == st.clock,
    decreases fuel,
{
    if fuel > 0 {
        let entered = StateG { envs: st.envs.push(frame), current: st.envs.len() as int, ..st };
        lemma_seq_writes_no_static_state(entered, stmts, 0, (fuel - 1) as nat);
    }
}

/// The fuel bound is benign: a run that finishes within some bound —
/// with anything but `RecursionLimit` — finishes identically under any
/// larger bound. The bound is the embedder's knob, not part of the
/// language.
pub proof fn lemma_eval_fuel_monotone(st: StateG, e: Expr, f1: nat, f2: nat)
    requires
        f1 <= f2,
    ensures
        spec_eval_expr(st, e, f1).1 != Err::<ValueG, ErrorG>(ErrorG::RecursionLimit)
            ==> spec_eval_expr(st, e, f2) == spec_eval_expr(st, e, f1),
    decreases f1,
{
    if f1 > 0 {
        let g1 = (f1 - 1) as nat;
        let g2 = (f2 - 1) as nat;
        match e {
            Expr::Grouping(inner) => {
                lemma_eval_fuel_monotone(st, *inner, g1, g2);
            },
            Expr::Unary(_t, inner) => {
                lemma_eval_fuel_monotone(st, *inner, g1, g2);
            },
            Expr::Binary(l, _t, r) => {
                lemma_eval_fuel_monotone(st, *l, g1, g2);
                lemma_eval_fuel_monotone(spec_eval_expr(st, *l, g1).0, *r, g1, g2);
            },
            Expr::Logical(l, _t, r) => {
                lemma_eval_fuel_monotone(st, *l, g1, g2);
                lemma_eval_fuel_monotone(spec_eval_expr(st, *l, g1).0, *r, g1, g2);
            },
            Expr::Assign(_t, rhs, _id) => {
                lemma_eval_fuel_monotone(st, *rhs, g1, g2);
            },
            Expr::Call(callee, _paren, args) => {
                lemma_eval_fuel_monotone(st, *callee, g1, g2);
                let st1 = spec_eval_expr(st, *callee, g1).0;
                lemma_args_fuel_monotone(st1, args@, 0, g1, g2);
                let st2 = spec_eval_args(st1, args@, 0, g1).0;
                match spec_eval_expr(st, *callee, g1).1 {
                    Ok(ValueG::Fun(c)) => {
                        match spec_eval_args(st1, args@, 0, g1).1 {
                            Ok(vals) => {
                                lemma_call_fuel_monotone(st2, c, vals, g1, g2);
                            },
                            Err(_) => {},
                        }
                    },
                    _ => {},
                }
            },
            _ => {},
        }
    }
}

/// Argument evaluation finishes identically under any larger fuel bound.
proof fn lemma_args_fuel_monotone(st: StateG, args: Seq<Expr>, i: int, f1: nat, f2: nat)
    requires
        f1 <= f2,
    ensures
        spec_eval_args(st, args, i, f1).1 != Err::<Seq<ValueG>, ErrorG>(ErrorG::RecursionLimit)
            ==> spec_eval_args(st, args, i, f2) == spec_eval_args(st, args, i, f1),
    decreases f1,
{
    if f1 > 0 && 0 <= i < args.len() {
        let g1 = (f1 - 1) as nat;
        let g2 = (f2 - 1) as nat;
        lemma_eval_fuel_monotone(st, args[i], g1, g2);
        lemma_args_fuel_monotone(spec_eval_expr(st, args[i], g1).0, args, i + 1, g1, g2);
    }
}

/// A call finishes identically under any larger fuel bound.
pub proof fn lemma_call_fuel_monotone(st: StateG, c: CallableG, args: Seq<ValueG>, f1: nat, f2: nat)
    requires
        f1 <= f2,
    ensures
        spec_call(st, c, args, f1).1 != Err::<ValueG, ErrorG>(ErrorG::RecursionLimit) ==> spec_call(
            st,
            c,
            args,
            f2,
        ) == spec_call(st, c, args, f1),
    decreases f1,
{
    if f1 > 0 {
        match c {
            CallableG::Dynamic { params, body, closure } => {
                let frame = FrameG { values: bind_params(params, args), enclosing: Some(closure) };
                lemma_block_fuel_monotone(st, body, frame, (f1 - 1) as nat, (f2 - 1) as nat);
            },
            CallableG::BuiltIn(_) => {},
        }
    }
}

/// A statement finishes identically under any larger fuel bound.
pub proof fn lemma_stmt_fuel_monotone(st: StateG, s: Stmt, f1: nat, f2: nat)
    requires
        f1 <= f2,
    ensures
        spec_exec_stmt(st, s, f1).1 != Err::<(), ErrorG>(ErrorG::RecursionLimit) ==> spec_exec_stmt(
            st,
            s,
            f2,
        ) == spec_exec_stmt(st, s, f1),
    decreases f1,
{
    if f1 > 0 {
        let g1 = (f1 - 1) as nat;
        let g2 = (f2 - 1) as nat;
        match s {
            Stmt::Block(stmts) => {
                let frame = FrameG { values: Map::empty(), enclosing: Some(st.current) };
                lemma_block_fuel_monotone(st, stmts@, frame, g1, g2);
            },
            Stmt::Expression(e) => {
                lemma_eval_fuel_monotone(st, e, g1, g2);
            },
            Stmt::If { condition, then_branch, else_branch } => {
                lemma_eval_fuel_monotone(st, condition, g1, g2);
                let st1 = spec_eval_expr(st, condition, g1).0;
                lemma_stmt_fuel_monotone(st1, *then_branch, g1, g2);
                match else_branch {
                    Some(el) => {
                        lemma_stmt_fuel_monotone(st1, *el, g1, g2);
                    },
                    None => {},
                }
            },
            Stmt::Print(e) => {
                lemma_eval_fuel_monotone(st, e, g1, g2);
            },
            Stmt::Return { keyword: _, expr } => {
                match expr {
                    Some(e) => {
                        lemma_eval_fuel_monotone(st, e, g1, g2);
                    },
                    None => {},
                }
            },
            Stmt::Var { name: _, initializer } => {
                match initializer {
                    Some(e) => {
                        lemma_eval_fuel_monotone(st, e, g1, g2);
                    },
                    None => {},
                }
            },
            Stmt::While { condition, body } => {
                lemma_eval_fuel_monotone(st, condition, g1, g2);
                let st1 = spec_eval_expr(st, condition, g1).0;
                lemma_stmt_fuel_monotone(st1, *body, g1, g2);
                let st2 = spec_exec_stmt(st1, *body, g1).0;
                lemma_stmt_fuel_monotone(st2, s, g1, g2);
            },
            _ => {},
        }
    }
}

/// A statement list finishes identically under any larger fuel bound.
proof fn lemma_seq_fuel_monotone(st: StateG, stmts: Seq<Stmt>, i: int, f1: nat, f2: nat)
    requires
        f1 <= f2,
    ensures
        spec_exec_seq(st, stmts, i, f1).1 != Err::<(), ErrorG>(ErrorG::RecursionLimit)
            ==> spec_exec_seq(st, stmts, i, f2) == spec_exec_seq(st, stmts, i, f1),
    decreases f1,
{
    if f1 > 0 && 0 <= i < stmts.len() {
        let g1 = (f1 - 1) as nat;
        let g2 = (f2 - 1) as nat;
        lemma_stmt_fuel_monotone(st, stmts[i], g1, g2);
        lemma_seq_fuel_monotone(spec_exec_stmt(st, stmts[i], g1).0, stmts, i + 1, g1, g2);
    }
}

/// A block finishes identically under any larger fuel bound.
proof fn lemma_block_fuel_monotone(st: StateG, stmts: Seq<Stmt>, frame: FrameG, f1: nat, f2: nat)
    requires
        f1 <= f2,
    ensures
        spec_exec_block(st, stmts, frame, f1).1 != Err::<ValueG, ErrorG>(ErrorG::RecursionLimit)
            ==> spec_exec_block(st, stmts, frame, f2) == spec_exec_block(st, stmts, frame, f1),
    decreases f1,
{
    if f1 > 0 {
        let entered = StateG { envs: st.envs.push(frame), current: st.envs.len() as int, ..st };
        lemma_seq_fuel_monotone(entered, stmts, 0, (f1 - 1) as nat, (f2 - 1) as nat);
    }
}

/// Whether an error can arise while a program runs: everything but the
/// scan-, parse-, resolve- and input-time kinds.
pub open spec fn runtime_error(e: ErrorG) -> bool {
    !(e is Parse) && !(e is Resolve) && !(e is Io)
}

/// Evaluating an expression fails only with runtime errors, never with a
/// scan-, parse- or resolve-time kind.
pub proof fn lemma_eval_error_runtime(st: StateG, e: Expr, fuel: nat)
    ensures
        spec_eval_expr(st, e, fuel).1 matches Err(err) ==> runtime_error(err),
    decreases fuel,
{
    if fuel > 0 {
        let f = (fuel - 1) as nat;
        match e {
            Expr::Grouping(inner) => {
                lemma_eval_error_runtime(st, *inner, f);
            },
            Expr::Unary(_t, inner) => {
                lemma_eval_error_runtime(st, *inner, f);
            },
            Expr::Binary(l, _t, r) => {
                lemma_eval_error_runtime(st, *l, f);
                lemma_eval_error_runtime(spec_eval_expr(st, *l, f).0, *r, f);
            },
            Expr::Logical(l, _t, r) => {
                lemma_eval_error_runtime(st, *l, f);
                lemma_eval_error_runtime(spec_eval_expr(st, *l, f).0, *r, f);
            },
            Expr::Variable(t, id) => {
                crate::environment::lemma_get_error_kind(st.envs, 0, t.lexeme@);
                if st.locals.contains_key(id) {
                    crate::environment::lemma_get_at_error_kind(
                        st.envs,
                        st.current,
                        st.locals[id] as int,
                        t.lexeme@,
                    );
                }
            },
            Expr::Assign(t, rhs, id) => {
                lemma_eval_error_runtime(st, *rhs, f);
                let st1 = spec_eval_expr(st, *rhs, f).0;
                match spec_eval_expr(st, *rhs, f).1 {
                    Ok(v) => {
                        crate::environment::lemma_assign_error_kind(st1.envs, 0, t.lexeme@, v);
                        if st1.locals.contains_key(id) {
                            crate::environment::lemma_assign_at_error_kind(
                                st1.envs,
                                st1.current,
                                st1.locals[id] as int,
                                t.lexeme@,
                                v,
                            );
                        }
                    },
                    Err(_) => {},
                }
            },
            Expr::Call(callee, _paren, args) => {
                lemma_eval_error_runtime(st, *callee, f);
                let st1 = spec_eval_expr(st, *callee, f).0;
                lemma_args_error_runtime(st1, args@, 0, f);
                let st2 = spec_eval_args(st1, args@, 0, f).0;
                match spec_eval_expr(st, *callee, f).1 {
                    Ok(ValueG::Fun(c)) => {
                        match spec_eval_args(st1, args@, 0, f).1 {
                            Ok(vals) => {
                                lemma_call_error_runtime(st2, c, vals, f);
                            },
                            Err(_) => {},
                        }
                    },
                    _ => {},
                }
            },
            _ => {},
        }
    }
}

/// Argument evaluation fails only with runtime errors.
proof fn lemma_args_error_runtime(st: StateG, args: Seq<Expr>, i: int, fuel: nat)
    ensures
        spec_eval_args(st, args, i, fuel).1 matches Err(err) ==> runtime_error(err),
    decreases fuel,
{
    if fuel > 0 && 0 <= i < args.len() {
        let f = (fuel - 1) as nat;
        lemma_eval_error_runtime(st, args[i], f);
        lemma_args_error_runtime(spec_eval_expr(st, args[i], f).0, args, i + 1, f);
    }
}

/// A call fails only with runtime errors.
proof fn lemma_call_error_runtime(st: StateG, c: CallableG, args: Seq<ValueG>, fuel: nat)
    ensures
        spec_call(st, c, args, fuel).1 matches Err(err) ==> runtime_error(err),
    decreases fuel,
{
    if fuel > 0 {
        match c {
            CallableG::Dynamic { params, body, closure } => {
                let frame = FrameG { values: bind_params(params, args), enclosing: Some(closure) };
                lemma_block_error_runtime(st, body, frame, (fuel - 1) as nat);
            },
            CallableG::BuiltIn(_) => {},
        }
    }
}

/// Executing a statement fails only with runtime errors.
pub proof fn lemma_stmt_error_runtime(st: StateG, s: Stmt, fuel: nat)
    ensures
        spec_exec_stmt(st, s, fuel).1 matches Err(err) ==> runtime_error(err),
    decreases fuel,
{
    if fuel > 0 {
        let f = (fuel - 1) as nat;
        match s {
            Stmt::Block(stmts) => {
                let frame = FrameG { values: Map::empty(), enclosing: Some(st.current) };
                lemma_block_error_runtime(st, stmts@, frame, f);
            },
            Stmt::Expression(e) => {
                lemma_eval_error_runtime(st, e, f);
            },
            Stmt::If { condition, then_branch, else_branch } => {
                lemma_eval_error_runtime(st, condition, f);
                let st1 = spec_eval_expr(st, condition, f).0;
                lemma_stmt_error_runtime(st1, *then_branch, f);
                match else_branch {
                    Some(el) => {
                        lemma_stmt_error_runtime(st1, *el, f);
                    },
                    None => {},
                }
            },
            Stmt::Print(e) => {
                lemma_eval_error_runtime(st, e, f);
            },
            Stmt::Return { keyword: _, expr } => {
                match expr {
                    Some(e) => {
                        lemma_eval_error_runtime(st, e, f);
                    },
                    None => {},
                }
            },
            Stmt::Var { name: _, initializer } => {
                match initializer {
                    Some(e) => {
                        lemma_eval_error_runtime(st, e, f);
                    },
                    None => {},
                }
            },
            Stmt::While { condition, body } => {
                lemma_eval_error_runtime(st, condition, f);
                let st1 = spec_eval_expr(st, condition, f).0;
                lemma_stmt_error_runtime(st1, *body, f);
                let st2 = spec_exec_stmt(st1, *body, f).0;
                lemma_stmt_error_runtime(st2, s, f);
            },
            _ => {},
        }
    }
}

/// A statement list fails only with runtime errors.
proof fn lemma_seq_error_runtime(st: StateG, stmts: Seq<Stmt>, i: int, fuel: nat)
    ensures
        spec_exec_seq(st, stmts, i, fuel).1 matches Err(err) ==> runtime_error(err),
    decreases fuel,
{
    if fuel > 0 && 0 <= i < stmts.len() {
        let f = (fuel - 1) as nat;
        lemma_stmt_error_runtime(st, stmts[i], f);
        lemma_seq_error_runtime(spec_exec_stmt(st, stmts[i], f).0, stmts, i + 1, f);
    }
}

/// A block fails only with runtime errors.
proof fn lemma_block_error_runtime(st: StateG, stmts: Seq<Stmt>, frame: FrameG, fuel: nat)
    ensures
        spec_exec_block(st, stmts, frame, fuel).1 matches Err(err) ==> runtime_error(err),
    decreases fuel,
{
    if fuel > 0 {
        let entered = StateG { envs: st.envs.push(frame), current: st.envs.len() as int, ..st };
        lemma_seq_error_runtime(entered, stmts, 0, (fuel - 1) as nat);
    }
}

/// A whole run fails only with runtime errors, and never with the
/// `Return` signal.
pub proof fn lemma_interpret_error_runtime(st: StateG, stmts: Seq<Stmt>, fuel: nat)
    ensures
        spec_interpret(st, stmts, fuel).1 matches Err(err) ==> runtime_error(err) && !(err
            is Return),
{
    lemma_seq_error_runtime(st, stmts, 0, fuel);
}

/// The image of a statement-execution result.
pub open spec fn unit_res_view(r: Result<(), RloxError>) -> Result<(), ErrorG> {
    match r {
        Ok(_) => Ok(()),
        Err(e) => Err(e@),
    }
}

/// The image of an expression-evaluation result.
pub open spec fn val_res_view(r: Result<RlValue, RloxError>) -> Result<ValueG, ErrorG> {
    match r {
        Ok(v) => Ok(v@),
        Err(e) => Err(e@),
    }
}

} // verus!
