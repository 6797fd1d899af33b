//! The static resolver. It walks the program once, keeping a stack of
//! lexical scopes; for every `Variable` or `Assign` node it records how
//! many environment hops separate the reference from the scope that
//! declares the name. Names found in no open scope are left unrecorded
//! and fall through to the global environment at run time.
use vstd::prelude::*;

use crate::error::{ErrorG, RloxError};
use crate::expr::Expr;
use crate::interpreter::{unit_res_view, Interpreter, StateG};
use crate::parser::{expr_ids, exprs_ids, stmt_ids, stmts_ids};
use crate::stmt::Stmt;
use crate::strmap::StrMap;
use crate::token::Token;

verus! {

/// The resolver's own state: a stack of open scopes, innermost last.
/// Each scope maps a name to `false` while its initializer is being
/// resolved and to `true` once the name is fully defined. The global
/// scope is not on the stack.
pub struct Resolver {
    pub scopes: Vec<StrMap<bool>>,
}

impl View for Resolver {
    type V = Seq<Map<Seq<char>, bool>>;

    open spec fn view(&self) -> Seq<Map<Seq<char>, bool>> {
        self.scopes@.map_values(|m: StrMap<bool>| m@)
    }
}

/// Declaring or defining a name in the innermost scope; outside any
/// scope (at the global level) nothing is recorded.
pub open spec fn scopes_set(sc: Seq<Map<Seq<char>, bool>>, name: Seq<char>, defined: bool) -> Seq<
    Map<Seq<char>, bool>,
> {
    if sc.len() > 0 {
        sc.update(sc.len() - 1, sc.last().insert(name, defined))
    } else {
        sc
    }
}

/// Closing the innermost scope; with no scope open, nothing changes.
pub open spec fn scopes_pop(sc: Seq<Map<Seq<char>, bool>>) -> Seq<Map<Seq<char>, bool>> {
    if sc.len() > 0 {
        sc.drop_last()
    } else {
        sc
    }
}

/// The innermost open scope that mentions a name, if any.
pub open spec fn innermost_holding(sc: Seq<Map<Seq<char>, bool>>, name: Seq<char>) -> Option<int>
    decreases sc.len(),
{
    if sc.len() == 0 {
        None
    } else if sc.last().contains_key(name) {
        Some(sc.len() - 1)
    } else {
        innermost_holding(sc.drop_last(), name)
    }
}

/// What recording one reference does to the resolution map: the nearest
/// scope holding the name decides the distance — the count of scopes
/// between the reference and its declaring scope — and a name in no open
/// scope is left unrecorded, to be looked up among the globals. A
/// distance beyond `u32` cannot be recorded and is a resolver error.
pub open spec fn spec_resolve_local(
    sc: Seq<Map<Seq<char>, bool>>,
    loc: Map<u64, u32>,
    id: u64,
    name: Seq<char>,
) -> Result<Map<u64, u32>, ErrorG> {
    match innermost_holding(sc, name) {
        Some(i) => {
            let d = sc.len() - 1 - i;
            if d <= u32::MAX {
                Ok(loc.insert(id, d as u32))
            } else {
                Err(ErrorG::Resolve)
            }
        },
        None => Ok(loc),
    }
}

/// What resolving one expression does: scopes never change, the
/// resolution map may gain entries. Reading a name whose own initializer
/// is still being resolved is an error; so is any reserved node.
pub open spec fn spec_resolve_expr(
    sc: Seq<Map<Seq<char>, bool>>,
    loc: Map<u64, u32>,
    e: Expr,
) -> (Map<u64, u32>, Result<(), ErrorG>)
    decreases e, 0int, 0int,
{
    match e {
        Expr::Assign(t, rhs, id) => {
            let (loc1, r) = spec_resolve_expr(sc, loc, *rhs);
            match r {
                Err(err) => (loc1, Err(err)),
                Ok(_) => match spec_resolve_local(sc, loc1, id, t.lexeme@) {
                    Ok(loc2) => (loc2, Ok(())),
                    Err(err) => (loc1, Err(err)),
                },
            }
        },
        Expr::Binary(l, _t, r) => {
            let (loc1, lr) = spec_resolve_expr(sc, loc, *l);
            match lr {
                Err(err) => (loc1, Err(err)),
                Ok(_) => spec_resolve_expr(sc, loc1, *r),
            }
        },
        Expr::Call(callee, _t, args) => {
            let (loc1, cr) = spec_resolve_expr(sc, loc, *callee);
            match cr {
                Err(err) => (loc1, Err(err)),
                Ok(_) => spec_resolve_exprs(sc, loc1, args@, 0),
            }
        },
        Expr::Grouping(inner) => spec_resolve_expr(sc, loc, *inner),
        Expr::Literal(_l) => (loc, Ok(())),
        Expr::Logical(l, _t, r) => {
            let (loc1, lr) = spec_resolve_expr(sc, loc, *l);
            match lr {
                Err(err) => (loc1, Err(err)),
                Ok(_) => spec_resolve_expr(sc, loc1, *r),
            }
        },
        Expr::Unary(_t, inner) => spec_resolve_expr(sc, loc, *inner),
        Expr::Variable(t, id) => {
            if sc.len() > 0 && sc.last().contains_key(t.lexeme@) && sc.last()[t.lexeme@] == false {
                (loc, Err(ErrorG::Resolve))
            } else {
                match spec_resolve_local(sc, loc, id, t.lexeme@) {
                    Ok(loc1) => (loc1, Ok(())),
                    Err(err) => (loc, Err(err)),
                }
            }
        },
        _ => (loc, Err(ErrorG::Resolve)),
    }
}

/// What resolving a call's argument list from position `i` does.
pub open spec fn spec_resolve_exprs(
    sc: Seq<Map<Seq<char>, bool>>,
    loc: Map<u64, u32>,
    args: Seq<Expr>,
    i: int,
) -> (Map<u64, u32>, Result<(), ErrorG>)
    decreases args, args.len() - i, 1int,
{
    if !(0 <= i < args.len()) {
        (loc, Ok(()))
    } else {
        let (loc1, r) = spec_resolve_expr(sc, loc, args[i]);
        match r {
            Err(err) => (loc1, Err(err)),
            Ok(_) => spec_resolve_exprs(sc, loc1, args, i + 1),
        }
    }
}

/// What resolving one statement does to the scope stack and the
/// resolution map.
pub open spec fn spec_resolve_stmt(
    sc: Seq<Map<Seq<char>, bool>>,
    loc: Map<u64, u32>,
    s: Stmt,
) -> (Seq<Map<Seq<char>, bool>>, Map<u64, u32>, Result<(), ErrorG>)
    decreases s, 0int, 0int,
{
    match s {
        Stmt::Block(stmts) => {
            let opened = sc.push(Map::empty());
            let (sc1, loc1, r) = spec_resolve_stmts(opened, loc, stmts@, 0);
            (scopes_pop(sc1), loc1, r)
        },
        Stmt::Expression(e) => {
            let (loc1, r) = spec_resolve_expr(sc, loc, e);
            (sc, loc1, r)
        },
        Stmt::Function { name, params, body } => {
            let sc1 = scopes_set(scopes_set(sc, name.lexeme@, false), name.lexeme@, true);
            let opened = sc1.push(Map::empty());
            let declared = declare_params(opened, params@.map_values(|t: Token| t.lexeme@));
            let (sc2, loc1, r) = spec_resolve_stmts(declared, loc, body@, 0);
            (scopes_pop(sc2), loc1, r)
        },
        Stmt::If { condition, then_branch, else_branch } => {
            let (loc1, cr) = spec_resolve_expr(sc, loc, condition);
            match cr {
                Err(err) => (sc, loc1, Err(err)),
                Ok(_) => {
                    let (sc1, loc2, tr) = spec_resolve_stmt(sc, loc1, *then_branch);
                    match tr {
                        Err(err) => (sc1, loc2, Err(err)),
                        Ok(_) => match else_branch {
                            Some(el) => spec_resolve_stmt(sc1, loc2, *el),
                            None => (sc1, loc2, Ok(())),
                        },
                    }
                },
            }
        },
        Stmt::Print(e) => {
            let (loc1, r) = spec_resolve_expr(sc, loc, e);
            (sc, loc1, r)
        },
        Stmt::Return { keyword: _, expr } => {
            match expr {
                Some(e) => {
                    let (loc1, r) = spec_resolve_expr(sc, loc, e);
                    (sc, loc1, r)
                },
                None => (sc, loc, Ok(())),
            }
        },
        Stmt::Var { name, initializer } => {
            let sc1 = scopes_set(sc, name.lexeme@, false);
            match initializer {
                Some(e) => {
                    let (loc1, r) = spec_resolve_expr(sc1, loc, e);
                    match r {
                        Err(err) => (sc1, loc1, Err(err)),
                        Ok(_) => (scopes_set(sc1, name.lexeme@, true), loc1, Ok(())),
                    }
                },
                None => (scopes_set(sc1, name.lexeme@, true), loc, Ok(())),
            }
        },
        Stmt::While { condition, body } => {
            let (loc1, cr) = spec_resolve_expr(sc, loc, condition);
            match cr {
                Err(err) => (sc, loc1, Err(err)),
                Ok(_) => spec_resolve_stmt(sc, loc1, *body),
            }
        },
        Stmt::Class => (sc, loc, Err(ErrorG::Unsupported)),
    }
}

/// What resolving a statement list from position `i` does.
pub open spec fn spec_resolve_stmts(
    sc: Seq<Map<Seq<char>, bool>>,
    loc: Map<u64, u32>,
    stmts: Seq<Stmt>,
    i: int,
) -> (Seq<Map<Seq<char>, bool>>, Map<u64, u32>, Result<(), ErrorG>)
    decreases stmts, stmts.len() - i, 1int,
{
    if !(0 <= i < stmts.len()) {
        (sc, loc, Ok(()))
    } else {
        let (sc1, loc1, r) = spec_resolve_stmt(sc, loc, stmts[i]);
        match r {
            Err(err) => (sc1, loc1, Err(err)),
            Ok(_) => spec_resolve_stmts(sc1, loc1, stmts, i + 1),
        }
    }
}

/// Declaring and at once defining each parameter name in the innermost
/// scope, left to right.
pub open spec fn declare_params(sc: Seq<Map<Seq<char>, bool>>, params: Seq<Seq<char>>) -> Seq<
    Map<Seq<char>, bool>,
>
    decreases params.len(),
{
    if params.len() == 0 {
        sc
    } else {
        scopes_set(
            scopes_set(declare_params(sc, params.drop_last()), params.last(), false),
            params.last(),
            true,
        )
    }
}

/// What `innermost_holding` finds really is the nearest scope with the
/// name: the scope it names holds the name, every scope nearer to the
/// reference does not, and when it finds nothing, no open scope holds the
/// name at all — the reference is a global one.
pub proof fn lemma_innermost_is_nearest(sc: Seq<Map<Seq<char>, bool>>, name: Seq<char>)
    ensures
        match innermost_holding(sc, name) {
            Some(i) => 0 <= i < sc.len() && sc[i].contains_key(name) && (forall|j: int|
                i < j < sc.len() ==> !(#[trigger] sc[j]).contains_key(name)),
            None => forall|j: int| 0 <= j < sc.len() ==> !(#[trigger] sc[j]).contains_key(name),
        },
    decreases sc.len(),
{
    if sc.len() > 0 && !sc.last().contains_key(name) {
        lemma_innermost_is_nearest(sc.drop_last(), name);
        assert(forall|j: int| 0 <= j < sc.len() - 1 ==> sc.drop_last()[j] == sc[j]);
        assert(sc[sc.len() - 1] == sc.last());
    }
}

/// The distance the resolver records is the count of scopes strictly
/// between the reference and the scope that declares the name: the
/// declaring scope sits that many hops out, every nearer scope lacks the
/// name, and a name held by no open scope is left unrecorded, for the
/// globals to answer at run time.
pub proof fn lemma_recorded_distance_is_hop_count(
    sc: Seq<Map<Seq<char>, bool>>,
    loc: Map<u64, u32>,
    id: u64,
    name: Seq<char>,
)
    ensures
        match spec_resolve_local(sc, loc, id, name) {
            Ok(loc2) => {
                match innermost_holding(sc, name) {
                    Some(i) => {
                        let d = sc.len() - 1 - i;
                        &&& loc2 == loc.insert(id, d as u32)
                        &&& 0 <= d < sc.len()
                        &&& sc[sc.len() - 1 - d].contains_key(name)
                        &&& forall|k: int|
                            0 <= k < d ==> !(#[trigger] sc[sc.len() - 1 - k]).contains_key(name)
                    },
                    None => loc2 == loc && (forall|j: int|
                        0 <= j < sc.len() ==> !(#[trigger] sc[j]).contains_key(name)),
                }
            },
            Err(_) => true,
        },
{
    lemma_innermost_is_nearest(sc, name);
    match innermost_holding(sc, name) {
        Some(i) => {
            let d = sc.len() - 1 - i;
            if d <= u32::MAX {
                assert(forall|k: int|
                    0 <= k < d ==> !(#[trigger] sc[sc.len() - 1 - k]).contains_key(name)) by {
                    assert(forall|k: int|
                        0 <= k < d ==> i < sc.len() - 1 - k < sc.len() && !(#[trigger] sc[sc.len()
                            - 1 - k]).contains_key(name));
                }
            }
        },
        None => {},
    }
}

/// Scopes above position `i` that lack a name do not affect which scope
/// is nearest.
proof fn lemma_innermost_skip(sc: Seq<Map<Seq<char>, bool>>, name: Seq<char>, i: int)
    requires
        0 <= i <= sc.len(),
        forall|j: int| i <= j < sc.len() ==> !(#[trigger] sc[j]).contains_key(name),
    ensures
        innermost_holding(sc, name) == innermost_holding(sc.take(i), name),
    decreases sc.len(),
{
    if i == sc.len() {
        assert(sc.take(i) =~= sc);
    } else {
        lemma_innermost_skip(sc.drop_last(), name, i);
        assert(sc.drop_last().take(i) =~= sc.take(i));
    }
}

impl Resolver {
    /// Every scope's backing table is well formed.
    pub open spec fn wf(&self) -> bool {
        forall|i: int| 0 <= i < self.scopes@.len() ==> (#[trigger] self.scopes@[i]).wf()
    }

    /// A resolver with no scope open.
    pub fn new() -> (r: Resolver)
        ensures
            r.wf(),
            r@ == Seq::<Map<Seq<char>, bool>>::empty(),
    {
        let r = Resolver { scopes: Vec::new() };
        proof {
            assert(r@ =~= Seq::<Map<Seq<char>, bool>>::empty());
        }
        r
    }

    /// Opens a scope.
    fn begin_scope(&mut self)
        requires
            old(self).wf(),
        ensures
            final(self).wf(),
            final(self)@ == old(self)@.push(Map::<Seq<char>, bool>::empty()),
    {
        self.scopes.push(StrMap::new());
        proof {
            assert(self@ =~= old(self)@.push(Map::<Seq<char>, bool>::empty()));
        }
    }

    /// Closes the innermost scope.
    fn end_scope(&mut self)
        requires
            old(self).wf(),
        ensures
            final(self).wf(),
            final(self)@ == scopes_pop(old(self)@),
    {
        let _ = self.scopes.pop();
        proof {
            assert(self@ =~= scopes_pop(old(self)@));
        }
    }

    /// Marks a name in the innermost scope as declared but not yet
    /// defined.
    fn declare(&mut self, name: &Token)
        requires
            old(self).wf(),
        ensures
            final(self).wf(),
            final(self)@ == scopes_set(old(self)@, name.lexeme@, false),
    {
        match self.scopes.pop() {
            Some(mut scope) => {
                scope.insert(name.lexeme.clone(), false);
                self.scopes.push(scope);
                proof {
                    assert(self@ =~= scopes_set(old(self)@, name.lexeme@, false));
                }
            },
            None => {
                proof {
                    assert(self@ =~= scopes_set(old(self)@, name.lexeme@, false));
                }
            },
        }
    }

    /// Marks a name in the innermost scope as fully defined.
    fn define(&mut self, name: &Token)
        requires
            old(self).wf(),
        ensures
            final(self).wf(),
            final(self)@ == scopes_set(old(self)@, name.lexeme@, true),
    {
        match self.scopes.pop() {
            Some(mut scope) => {
                scope.insert(name.lexeme.clone(), true);
                self.scopes.push(scope);
                proof {
                    assert(self@ =~= scopes_set(old(self)@, name.lexeme@, true));
                }
            },
            None => {
                proof {
                    assert(self@ =~= scopes_set(old(self)@, name.lexeme@, true));
                }
            },
        }
    }

    /// Records the lexical distance for one `Variable` or `Assign` node,
    /// exactly as `spec_resolve_local` describes: the innermost scope
    /// holding the name decides it, and a name in no open scope is left
    /// to the globals.
    fn resolve_local(&self, interp: &mut Interpreter, expr: &Expr, name: &Token) -> (r: Result<
        (),
        RloxError,
    >)
        requires
            self.wf(),
            old(interp).inv(),
            ((*expr) matches Expr::Variable(_, _)) || ((*expr) matches Expr::Assign(_, _, _)),
        ensures
            final(interp).inv(),
            match spec_resolve_local(
                self@,
                old(interp)@.locals,
                match *expr {
                    Expr::Variable(_, id) => id,
                    Expr::Assign(_, _, id) => id,
                    _ => 0,
                },
                name.lexeme@,
            ) {
                Ok(loc) => r is Ok && final(interp)@ == (StateG { locals: loc, ..old(interp)@ }),
                Err(e) => r matches Err(err) && err@ == e && final(interp)@ == old(interp)@,
            },
    {
        let n = self.scopes.len();
        let mut i: usize = n;
        while i > 0
            invariant
                self.wf(),
                old(interp).inv(),
                interp == old(interp),
                ((*expr) matches Expr::Variable(_, _)) || ((*expr) matches Expr::Assign(_, _, _)),
                i <= n,
                n == self.scopes@.len(),
                forall|j: int| i <= j < n ==> !(#[trigger] self@[j]).contains_key(name.lexeme@),
            decreases i,
        {
            i = i - 1;
            if self.scopes[i].contains(name.lexeme.as_str()) {
                let depth = n - 1 - i;
                proof {
                    lemma_innermost_skip(self@, name.lexeme@, i + 1);
                    assert(self@.take(i + 1).last() =~= self@[i as int]);
                    assert(innermost_holding(self@, name.lexeme@) == Some(i as int));
                }
                if depth > u32::MAX as usize {
                    return Err(
                        RloxError::ResolveError("scopes nested too deeply to record".to_owned()),
                    );
                }
                let r = interp.resolve(expr, depth as u32);
                proof {
                    if let Expr::Variable(_t, id) = expr {
                        assert(interp@ =~= StateG {
                            locals: old(interp)@.locals.insert(*id, depth as u32),
                            ..old(interp)@
                        });
                    }
                    if let Expr::Assign(_t, _e, id) = expr {
                        assert(interp@ =~= StateG {
                            locals: old(interp)@.locals.insert(*id, depth as u32),
                            ..old(interp)@
                        });
                    }
                }
                return r;
            }
        }
        proof {
            lemma_innermost_skip(self@, name.lexeme@, 0);
            assert(self@.take(0) =~= Seq::<Map<Seq<char>, bool>>::empty());
            assert(innermost_holding(self@, name.lexeme@) is None);
            assert(interp@ =~= StateG { locals: old(interp)@.locals, ..old(interp)@ });
        }
        Ok(())
    }

    /// Resolves one expression, exactly as `spec_resolve_expr` describes.
    fn resolve_expr(&mut self, interp: &mut Interpreter, expr: &Expr) -> (r: Result<(), RloxError>)
        requires
            old(self).wf(),
            old(interp).inv(),
        ensures
            final(self).wf(),
            final(interp).inv(),
            final(self)@ == old(self)@,
            final(interp)@ == (StateG {
                locals: spec_resolve_expr(old(self)@, old(interp)@.locals, *expr).0,
                ..old(interp)@
            }),
            unit_res_view(r) == spec_resolve_expr(old(self)@, old(interp)@.locals, *expr).1,
        decreases *expr, 0int, 0int,
    {
        match expr {
            Expr::Assign(t, rhs, _id) => {
                match self.resolve_expr(interp, rhs) {
                    Err(e) => Err(e),
                    Ok(_) => self.resolve_local(interp, expr, t),
                }
            },
            Expr::Binary(l, _t, r) => {
                match self.resolve_expr(interp, l) {
                    Err(e) => Err(e),
                    Ok(_) => self.resolve_expr(interp, r),
                }
            },
            Expr::Call(callee, _t, args) => {
                match self.resolve_expr(interp, callee) {
                    Err(e) => Err(e),
                    Ok(_) => self.resolve_exprs(interp, args, 0),
                }
            },
            Expr::Grouping(inner) => self.resolve_expr(interp, inner),
            Expr::Literal(_l) => Ok(()),
            Expr::Logical(l, _t, r) => {
                match self.resolve_expr(interp, l) {
                    Err(e) => Err(e),
                    Ok(_) => self.resolve_expr(interp, r),
                }
            },
            Expr::Unary(_t, inner) => self.resolve_expr(interp, inner),
            Expr::Variable(t, _id) => {
                let n = self.scopes.len();
                if n > 0 {
                    match self.scopes[n - 1].get(t.lexeme.as_str()) {
                        Some(flag) => {
                            if !*flag {
                                return Err(
                                    RloxError::ResolveError(
                                        "can't read local variable in its own initializer"
                                            .to_owned(),
                                    ),
                                );
                            }
                        },
                        None => (),
                    }
                }
                self.resolve_local(interp, expr, t)
            },
            _ => Err(
                RloxError::ResolveError("expression kind is not resolvable".to_owned()),
            ),
        }
    }

    /// Resolves a call's arguments from position `i` on, exactly as
    /// `spec_resolve_exprs` describes.
    fn resolve_exprs(&mut self, interp: &mut Interpreter, args: &Vec<Expr>, i: usize) -> (r: Result<
        (),
        RloxError,
    >)
        requires
            old(self).wf(),
            old(interp).inv(),
        ensures
            final(self).wf(),
            final(interp).inv(),
            final(self)@ == old(self)@,
            final(interp)@ == (StateG {
                locals: spec_resolve_exprs(old(self)@, old(interp)@.locals, args@, i as int).0,
                ..old(interp)@
            }),
            unit_res_view(r) == spec_resolve_exprs(old(self)@, old(interp)@.locals, args@, i as int).1,
        decreases args@, args@.len() - i, 1int,
    {
        if i >= args.len() {
            return Ok(());
        }
        match self.resolve_expr(interp, &args[i]) {
            Err(e) => Err(e),
            Ok(_) => self.resolve_exprs(interp, args, i + 1),
        }
    }

    /// Resolves one statement, exactly as `spec_resolve_stmt` describes.
    pub fn resolve(&mut self, interp: &mut Interpreter, stmt: &Stmt) -> (r: Result<(), RloxError>)
        requires
            old(self).wf(),
            old(interp).inv(),
        ensures
            final(self).wf(),
            final(interp).inv(),
            final(self)@ == spec_resolve_stmt(old(self)@, old(interp)@.locals, *stmt).0,
            final(interp)@ == (StateG {
                locals: spec_resolve_stmt(old(self)@, old(interp)@.locals, *stmt).1,
                ..old(interp)@
            }),
            unit_res_view(r) == spec_resolve_stmt(old(self)@, old(interp)@.locals, *stmt).2,
        decreases *stmt, 0int, 0int,
    {
        match stmt {
            Stmt::Block(stmts) => {
                self.begin_scope();
                let r = self.resolve_stmts(interp, stmts, 0);
                self.end_scope();
                r
            },
            Stmt::Expression(e) => self.resolve_expr(interp, e),
            Stmt::Function { name, params, body } => {
                self.declare(name);
                self.define(name);
                self.resolve_function(interp, params, &**body)
            },
            Stmt::If { condition, then_branch, else_branch } => {
                match self.resolve_expr(interp, condition) {
                    Err(e) => Err(e),
                    Ok(_) => {
                        match self.resolve(interp, then_branch) {
                            Err(e) => Err(e),
                            Ok(_) => {
                                match else_branch {
                                    Some(el) => self.resolve(interp, el),
                                    None => Ok(()),
                                }
                            },
                        }
                    },
                }
            },
            Stmt::Print(e) => self.resolve_expr(interp, e),
            Stmt::Return { keyword: _, expr } => {
                match expr {
                    Some(e) => self.resolve_expr(interp, e),
                    None => Ok(()),
                }
            },
            Stmt::Var { name, initializer } => {
                self.declare(name);
                match initializer {
                    Some(e) => {
                        match self.resolve_expr(interp, e) {
                            Err(err) => Err(err),
                            Ok(_) => {
                                self.define(name);
                                Ok(())
                            },
                        }
                    },
                    None => {
                        self.define(name);
                        Ok(())
                    },
                }
            },
            Stmt::While { condition, body } => {
                match self.resolve_expr(interp, condition) {
                    Err(e) => Err(e),
                    Ok(_) => self.resolve(interp, body),
                }
            },
            Stmt::Class => Err(
                RloxError::Unsupported("class declarations are not implemented".to_owned()),
            ),
        }
    }

    /// Resolves a statement list from position `i` on, exactly as
    /// `spec_resolve_stmts` describes.
    fn resolve_stmts(&mut self, interp: &mut Interpreter, stmts: &Vec<Stmt>, i: usize) -> (r:
        Result<(), RloxError>)
        requires
            old(self).wf(),
            old(interp).inv(),
        ensures
            final(self).wf(),
            final(interp).inv(),
            final(self)@ == spec_resolve_stmts(old(self)@, old(interp)@.locals, stmts@, i as int).0,
            final(interp)@ == (StateG {
                locals: spec_resolve_stmts(old(self)@, old(interp)@.locals, stmts@, i as int).1,
                ..old(interp)@
            }),
            unit_res_view(r) == spec_resolve_stmts(old(self)@, old(interp)@.locals, stmts@, i as int).2,
        decreases stmts@, stmts@.len() - i, 1int,
    {
        if i >= stmts.len() {
            return Ok(());
        }
        match self.resolve(interp, &stmts[i]) {
            Err(e) => Err(e),
            Ok(_) => self.resolve_stmts(interp, stmts, i + 1),
        }
    }

    /// Resolves a function's parameters and body in a fresh scope: the
    /// parameters are declared and defined, then the body statements run,
    /// then the scope closes.
    fn resolve_function(&mut self, interp: &mut Interpreter, params: &Vec<Token>, body: &Vec<
        Stmt,
    >) -> (r: Result<(), RloxError>)
        requires
            old(self).wf(),
            old(interp).inv(),
        ensures
            final(self).wf(),
            final(interp).inv(),
            final(self)@ == scopes_pop(
                spec_resolve_stmts(
                    declare_params(
                        old(self)@.push(Map::empty()),
                        params@.map_values(|t: Token| t.lexeme@),
                    ),
                    old(interp)@.locals,
                    body@,
                    0,
                ).0,
            ),
            final(interp)@ == (StateG {
                locals: spec_resolve_stmts(
                    declare_params(
                        old(self)@.push(Map::empty()),
                        params@.map_values(|t: Token| t.lexeme@),
                    ),
                    old(interp)@.locals,
                    body@,
                    0,
                ).1,
                ..old(interp)@
            }),
            unit_res_view(r) == spec_resolve_stmts(
                declare_params(
                    old(self)@.push(Map::empty()),
                    params@.map_values(|t: Token| t.lexeme@),
                ),
                old(interp)@.locals,
                body@,
                0,
            ).2,
        decreases body@, body@.len(), 2int,
    {
        let ghost params_lex = params@.map_values(|t: Token| t.lexeme@);
        self.begin_scope();
        let mut i: usize = 0;
        proof {
            assert(declare_params(old(self)@.push(Map::empty()), params_lex.take(0)) =~= self@);
        }
        while i < params.len()
            invariant
                self.wf(),
                old(interp).inv(),
                interp == old(interp),
                i <= params.len(),
                params_lex == params@.map_values(|t: Token| t.lexeme@),
                self@ == declare_params(old(self)@.push(Map::empty()), params_lex.take(i as int)),
            decreases params.len() - i,
        {
            self.declare(&params[i]);
            self.define(&params[i]);
            proof {
                assert(params_lex.take(i + 1 as int).drop_last() =~= params_lex.take(i as int));
            }
            i = i + 1;
        }
        proof {
            assert(params_lex.take(params@.len() as int) =~= params_lex);
        }
        let r = self.resolve_stmts(interp, body, 0);
        self.end_scope();
        r
    }
}

/// Recording one reference lays new entries over the given map; which
/// entries, and whether recording succeeds, depend only on the scopes,
/// the identifier and the name.
proof fn lemma_local_shape(sc: Seq<Map<Seq<char>, bool>>, loc: Map<u64, u32>, id: u64, name: Seq<
    char,
>)
    ensures
        (spec_resolve_local(sc, loc, id, name) is Ok) == (spec_resolve_local(
            sc,
            Map::empty(),
            id,
            name,
        ) is Ok),
        spec_resolve_local(sc, loc, id, name) matches Ok(l1) ==> (spec_resolve_local(
            sc,
            Map::empty(),
            id,
            name,
        ) matches Ok(l0) && l1 == loc.union_prefer_right(l0)),
{
    match innermost_holding(sc, name) {
        Some(i) => {
            let d = sc.len() - 1 - i;
            if d <= u32::MAX {
                assert(loc.insert(id, d as u32) =~= loc.union_prefer_right(
                    Map::<u64, u32>::empty().insert(id, d as u32),
                ));
            }
        },
        None => {
            assert(loc =~= loc.union_prefer_right(Map::<u64, u32>::empty()));
        },
    }
}

/// Resolving an expression lays new entries over the given map; which
/// entries arrive, and whether resolution succeeds, depend only on the
/// scopes and the expression.
proof fn lemma_expr_shape(sc: Seq<Map<Seq<char>, bool>>, loc: Map<u64, u32>, e: Expr)
    ensures
        spec_resolve_expr(sc, loc, e).1 == spec_resolve_expr(sc, Map::empty(), e).1,
        spec_resolve_expr(sc, loc, e).0 == loc.union_prefer_right(
            spec_resolve_expr(sc, Map::empty(), e).0,
        ),
    decreases e, 0int, 0int,
{
    let empty = Map::<u64, u32>::empty();
    match e {
        Expr::Assign(t, rhs, id) => {
            lemma_expr_shape(sc, loc, *rhs);
            let d_rhs = spec_resolve_expr(sc, empty, *rhs).0;
            let loc1 = spec_resolve_expr(sc, loc, *rhs).0;
            lemma_local_shape(sc, loc1, id, t.lexeme@);
            lemma_local_shape(sc, d_rhs, id, t.lexeme@);
            match spec_resolve_local(sc, empty, id, t.lexeme@) {
                Ok(d_loc) => {
                    assert(loc.union_prefer_right(d_rhs).union_prefer_right(d_loc)
                        =~= loc.union_prefer_right(d_rhs.union_prefer_right(d_loc)));
                },
                Err(_) => {},
            }
        },
        Expr::Binary(l, _t, r) => {
            lemma_expr_shape(sc, loc, *l);
            let d_l = spec_resolve_expr(sc, empty, *l).0;
            let loc1 = spec_resolve_expr(sc, loc, *l).0;
            if spec_resolve_expr(sc, loc, *l).1 is Ok {
                lemma_expr_shape(sc, loc1, *r);
                lemma_expr_shape(sc, d_l, *r);
                let d_r = spec_resolve_expr(sc, empty, *r).0;
                assert(loc.union_prefer_right(d_l).union_prefer_right(d_r)
                    =~= loc.union_prefer_right(d_l.union_prefer_right(d_r)));
            }
        },
        Expr::Logical(l, _t, r) => {
            lemma_expr_shape(sc, loc, *l);
            let d_l = spec_resolve_expr(sc, empty, *l).0;
            let loc1 = spec_resolve_expr(sc, loc, *l).0;
            if spec_resolve_expr(sc, loc, *l).1 is Ok {
                lemma_expr_shape(sc, loc1, *r);
                lemma_expr_shape(sc, d_l, *r);
                let d_r = spec_resolve_expr(sc, empty, *r).0;
                assert(loc.union_prefer_right(d_l).union_prefer_right(d_r)
                    =~= loc.union_prefer_right(d_l.union_prefer_right(d_r)));
            }
        },
        Expr::Call(callee, _t, args) => {
            lemma_expr_shape(sc, loc, *callee);
            let d_c = spec_resolve_expr(sc, empty, *callee).0;
            let loc1 = spec_resolve_expr(sc, loc, *callee).0;
            if spec_resolve_expr(sc, loc, *callee).1 is Ok {
                lemma_exprs_shape(sc, loc1, args@, 0);
                lemma_exprs_shape(sc, d_c, args@, 0);
                let d_a = spec_resolve_exprs(sc, empty, args@, 0).0;
                assert(loc.union_prefer_right(d_c).union_prefer_right(d_a)
                    =~= loc.union_prefer_right(d_c.union_prefer_right(d_a)));
            }
        },
        Expr::Grouping(inner) => {
            lemma_expr_shape(sc, loc, *inner);
        },
        Expr::Literal(_l) => {
            assert(loc =~= loc.union_prefer_right(empty));
        },
        Expr::Unary(_t, inner) => {
            lemma_expr_shape(sc, loc, *inner);
        },
        Expr::Variable(t, id) => {
            if sc.len() > 0 && sc.last().contains_key(t.lexeme@) && sc.last()[t.lexeme@] == false {
                assert(loc =~= loc.union_prefer_right(empty));
            } else {
                lemma_local_shape(sc, loc, id, t.lexeme@);
                if !(spec_resolve_local(sc, loc, id, t.lexeme@) is Ok) {
                    assert(loc =~= loc.union_prefer_right(empty));
                }
            }
        },
        _ => {
            assert(loc =~= loc.union_prefer_right(empty));
        },
    }
}

/// Resolving an argument list lays new entries over the given map; which
/// entries arrive, and whether resolution succeeds, depend only on the
/// scopes and the arguments.
proof fn lemma_exprs_shape(sc: Seq<Map<Seq<char>, bool>>, loc: Map<u64, u32>, args: Seq<Expr>, i: int)
    ensures
        spec_resolve_exprs(sc, loc, args, i).1 == spec_resolve_exprs(sc, Map::empty(), args, i).1,
        spec_resolve_exprs(sc, loc, args, i).0 == loc.union_prefer_right(
            spec_resolve_exprs(sc, Map::empty(), args, i).0,
        ),
    decreases args, args.len() - i, 1int,
{
    let empty = Map::<u64, u32>::empty();
    if !(0 <= i < args.len()) {
        assert(loc =~= loc.union_prefer_right(empty));
    } else {
        lemma_expr_shape(sc, loc, args[i]);
        let d_e = spec_resolve_expr(sc, empty, args[i]).0;
        let loc1 = spec_resolve_expr(sc, loc, args[i]).0;
        if spec_resolve_expr(sc, loc, args[i]).1 is Ok {
            lemma_exprs_shape(sc, loc1, args, i + 1);
            lemma_exprs_shape(sc, d_e, args, i + 1);
            let d_rest = spec_resolve_exprs(sc, empty, args, i + 1).0;
            assert(loc.union_prefer_right(d_e).union_prefer_right(d_rest)
                =~= loc.union_prefer_right(d_e.union_prefer_right(d_rest)));
        }
    }
}

/// Resolving a statement lays new entries over the given map; which
/// entries arrive, how the scope stack moves, and whether resolution
/// succeeds depend only on the scopes and the statement.
proof fn lemma_stmt_shape(sc: Seq<Map<Seq<char>, bool>>, loc: Map<u64, u32>, s: Stmt)
    ensures
        spec_resolve_stmt(sc, loc, s).0 == spec_resolve_stmt(sc, Map::empty(), s).0,
        spec_resolve_stmt(sc, loc, s).2 == spec_resolve_stmt(sc, Map::empty(), s).2,
        spec_resolve_stmt(sc, loc, s).1 == loc.union_prefer_right(
            spec_resolve_stmt(sc, Map::empty(), s).1,
        ),
    decreases s, 0int, 0int,
{
    let empty = Map::<u64, u32>::empty();
    match s {
        Stmt::Block(stmts) => {
            lemma_stmts_shape(sc.push(Map::empty()), loc, stmts@, 0);
        },
        Stmt::Expression(e) => {
            lemma_expr_shape(sc, loc, e);
        },
        Stmt::Function { name, params, body } => {
            let sc1 = scopes_set(scopes_set(sc, name.lexeme@, false), name.lexeme@, true);
            let declared = declare_params(
                sc1.push(Map::empty()),
                params@.map_values(|t: Token| t.lexeme@),
            );
            lemma_stmts_shape(declared, loc, body@, 0);
        },
        Stmt::If { condition, then_branch, else_branch } => {
            lemma_expr_shape(sc, loc, condition);
            let d_c = spec_resolve_expr(sc, empty, condition).0;
            let loc1 = spec_resolve_expr(sc, loc, condition).0;
            if spec_resolve_expr(sc, loc, condition).1 is Ok {
                lemma_stmt_shape(sc, loc1, *then_branch);
                lemma_stmt_shape(sc, d_c, *then_branch);
                let d_t = spec_resolve_stmt(sc, empty, *then_branch).1;
                let loc2 = spec_resolve_stmt(sc, loc1, *then_branch).1;
                let sc1 = spec_resolve_stmt(sc, loc1, *then_branch).0;
                assert(loc.union_prefer_right(d_c).union_prefer_right(d_t)
                    =~= loc.union_prefer_right(d_c.union_prefer_right(d_t)));
                if spec_resolve_stmt(sc, loc1, *then_branch).2 is Ok {
                    match else_branch {
                        Some(el) => {
                            let d_ct = d_c.union_prefer_right(d_t);
                            lemma_stmt_shape(sc1, loc2, *el);
                            lemma_stmt_shape(sc1, d_ct, *el);
                            let d_e = spec_resolve_stmt(sc1, empty, *el).1;
                            assert(loc.union_prefer_right(d_ct).union_prefer_right(d_e)
                                =~= loc.union_prefer_right(d_ct.union_prefer_right(d_e)));
                        },
                        None => {},
                    }
                }
            }
        },
        Stmt::Print(e) => {
            lemma_expr_shape(sc, loc, e);
        },
        Stmt::Return { keyword: _, expr } => {
            match expr {
                Some(e) => {
                    lemma_expr_shape(sc, loc, e);
                },
                None => {
                    assert(loc =~= loc.union_prefer_right(empty));
                },
            }
        },
        Stmt::Var { name, initializer } => {
            let sc1 = scopes_set(sc, name.lexeme@, false);
            match initializer {
                Some(e) => {
                    lemma_expr_shape(sc1, loc, e);
                },
                None => {
                    assert(loc =~= loc.union_prefer_right(empty));
                },
            }
        },
        Stmt::While { condition, body } => {
            lemma_expr_shape(sc, loc, condition);
            let d_c = spec_resolve_expr(sc, empty, condition).0;
            let loc1 = spec_resolve_expr(sc, loc, condition).0;
            if spec_resolve_expr(sc, loc, condition).1 is Ok {
                lemma_stmt_shape(sc, loc1, *body);
                lemma_stmt_shape(sc, d_c, *body);
                let d_b = spec_resolve_stmt(sc, empty, *body).1;
                assert(loc.union_prefer_right(d_c).union_prefer_right(d_b)
                    =~= loc.union_prefer_right(d_c.union_prefer_right(d_b)));
            }
        },
        Stmt::Class => {
            assert(loc =~= loc.union_prefer_right(empty));
        },
    }
}

/// Resolving a statement list lays new entries over the given map; which
/// entries arrive, how the scope stack moves, and whether resolution
/// succeeds depend only on the scopes and the statements.
proof fn lemma_stmts_shape(sc: Seq<Map<Seq<char>, bool>>, loc: Map<u64, u32>, stmts: Seq<Stmt>, i: int)
    ensures
        spec_resolve_stmts(sc, loc, stmts, i).0 == spec_resolve_stmts(sc, Map::empty(), stmts, i).0,
        spec_resolve_stmts(sc, loc, stmts, i).2 == spec_resolve_stmts(sc, Map::empty(), stmts, i).2,
        spec_resolve_stmts(sc, loc, stmts, i).1 == loc.union_prefer_right(
            spec_resolve_stmts(sc, Map::empty(), stmts, i).1,
        ),
    decreases stmts, stmts.len() - i, 1int,
{
    let empty = Map::<u64, u32>::empty();
    if !(0 <= i < stmts.len()) {
        assert(loc =~= loc.union_prefer_right(empty));
    } else {
        lemma_stmt_shape(sc, loc, stmts[i]);
        let d_s = spec_resolve_stmt(sc, empty, stmts[i]).1;
        let loc1 = spec_resolve_stmt(sc, loc, stmts[i]).1;
        let sc1 = spec_resolve_stmt(sc, loc, stmts[i]).0;
        if spec_resolve_stmt(sc, loc, stmts[i]).2 is Ok {
            lemma_stmts_shape(sc1, loc1, stmts, i + 1);
            lemma_stmts_shape(sc1, d_s, stmts, i + 1);
            let d_rest = spec_resolve_stmts(sc1, empty, stmts, i + 1).1;
            assert(loc.union_prefer_right(d_s).union_prefer_right(d_rest)
                =~= loc.union_prefer_right(d_s.union_prefer_right(d_rest)));
        }
    }
}

/// Re-running the resolver on the same program, from the same scope
/// stack, leaves the resolution map exactly as the first run built it,
/// and repeats the first run's scope result and verdict.
pub proof fn lemma_resolver_idempotent(sc: Seq<Map<Seq<char>, bool>>, loc: Map<u64, u32>, stmts: Seq<
    Stmt,
>)
    ensures
        ({
            let (sc1, loc1, r1) = spec_resolve_stmts(sc, loc, stmts, 0);
            let (sc2, loc2, r2) = spec_resolve_stmts(sc, loc1, stmts, 0);
            sc2 == sc1 && loc2 == loc1 && r2 == r1
        }),
{
    let (sc1, loc1, r1) = spec_resolve_stmts(sc, loc, stmts, 0);
    lemma_stmts_shape(sc, loc, stmts, 0);
    lemma_stmts_shape(sc, loc1, stmts, 0);
    let d = spec_resolve_stmts(sc, Map::empty(), stmts, 0).1;
    assert(loc.union_prefer_right(d).union_prefer_right(d) =~= loc.union_prefer_right(d));
}

/// Re-running the resolver on one statement, from the same scope stack,
/// leaves the resolution map exactly as the first run built it.
pub proof fn lemma_resolver_idempotent_stmt(sc: Seq<Map<Seq<char>, bool>>, loc: Map<u64, u32>, s: Stmt)
    ensures
        ({
            let (sc1, loc1, r1) = spec_resolve_stmt(sc, loc, s);
            let (sc2, loc2, r2) = spec_resolve_stmt(sc, loc1, s);
            sc2 == sc1 && loc2 == loc1 && r2 == r1
        }),
{
    let (sc1, loc1, r1) = spec_resolve_stmt(sc, loc, s);
    lemma_stmt_shape(sc, loc, s);
    lemma_stmt_shape(sc, loc1, s);
    let d = spec_resolve_stmt(sc, Map::empty(), s).1;
    assert(loc.union_prefer_right(d).union_prefer_right(d) =~= loc.union_prefer_right(d));
}

/// A concatenation holds exactly what its parts hold.
proof fn lemma_contains_concat(a: Seq<u64>, b: Seq<u64>, k: u64)
    ensures
        (a + b).contains(k) <==> (a.contains(k) || b.contains(k)),
{
    if a.contains(k) {
        let i = choose|i: int| 0 <= i < a.len() && a[i] == k;
        assert((a + b)[i] == k);
    }
    if b.contains(k) {
        let i = choose|i: int| 0 <= i < b.len() && b[i] == k;
        assert((a + b)[a.len() + i] == k);
    }
    if (a + b).contains(k) {
        let i = choose|i: int| 0 <= i < (a + b).len() && (a + b)[i] == k;
        if i < a.len() {
            assert(a[i] == k);
        } else {
            assert(b[i - a.len()] == k);
        }
    }
}

/// A list with one element appended holds exactly what it held and that
/// element.
proof fn lemma_contains_push(a: Seq<u64>, x: u64, k: u64)
    ensures
        a.push(x).contains(k) <==> (a.contains(k) || k == x),
{
    if a.contains(k) {
        let i = choose|i: int| 0 <= i < a.len() && a[i] == k;
        assert(a.push(x)[i] == k);
    }
    if k == x {
        assert(a.push(x)[a.len() as int] == k);
    }
    if a.push(x).contains(k) {
        let i = choose|i: int| 0 <= i < a.push(x).len() && a.push(x)[i] == k;
        if i < a.len() {
            assert(a[i] == k);
        }
    }
}

/// Resolving an expression adds entries only under the identifiers of
/// its own `Variable` and `Assign` nodes.
proof fn lemma_expr_entries(sc: Seq<Map<Seq<char>, bool>>, loc: Map<u64, u32>, e: Expr)
    ensures
        forall|k: u64|
            #[trigger] spec_resolve_expr(sc, loc, e).0.contains_key(k) ==> loc.contains_key(k)
                || expr_ids(e).contains(k),
    decreases e, 0int, 0int,
{
    match e {
        Expr::Assign(t, rhs, id) => {
            lemma_expr_entries(sc, loc, *rhs);
            let loc1 = spec_resolve_expr(sc, loc, *rhs).0;
            assert forall|k: u64|
                #[trigger] spec_resolve_expr(sc, loc, e).0.contains_key(k) implies loc.contains_key(
                k,
            ) || expr_ids(e).contains(k) by {
                lemma_contains_push(expr_ids(*rhs), id, k);
                if spec_resolve_expr(sc, loc, *rhs).1 is Ok {
                    match spec_resolve_local(sc, loc1, id, t.lexeme@) {
                        Ok(_) => {
                            if k != id {
                                assert(loc1.contains_key(k));
                            }
                        },
                        Err(_) => {
                            assert(loc1.contains_key(k));
                        },
                    }
                } else {
                    assert(loc1.contains_key(k));
                }
            }
        },
        Expr::Binary(l, _t, r) => {
            lemma_expr_entries(sc, loc, *l);
            let loc1 = spec_resolve_expr(sc, loc, *l).0;
            lemma_expr_entries(sc, loc1, *r);
            assert forall|k: u64|
                #[trigger] spec_resolve_expr(sc, loc, e).0.contains_key(k) implies loc.contains_key(
                k,
            ) || expr_ids(e).contains(k) by {
                lemma_contains_concat(expr_ids(*l), expr_ids(*r), k);
                if spec_resolve_expr(sc, loc, *l).1 is Ok {
                    assert(spec_resolve_expr(sc, loc1, *r).0.contains_key(k));
                } else {
                    assert(loc1.contains_key(k));
                }
            }
        },
        Expr::Logical(l, _t, r) => {
            lemma_expr_entries(sc, loc, *l);
            let loc1 = spec_resolve_expr(sc, loc, *l).0;
            lemma_expr_entries(sc, loc1, *r);
            assert forall|k: u64|
                #[trigger] spec_resolve_expr(sc, loc, e).0.contains_key(k) implies loc.contains_key(
                k,
            ) || expr_ids(e).contains(k) by {
                lemma_contains_concat(expr_ids(*l), expr_ids(*r), k);
                if spec_resolve_expr(sc, loc, *l).1 is Ok {
                    assert(spec_resolve_expr(sc, loc1, *r).0.contains_key(k));
                } else {
                    assert(loc1.contains_key(k));
                }
            }
        },
        Expr::Call(callee, _t, args) => {
            lemma_expr_entries(sc, loc, *callee);
            let loc1 = spec_resolve_expr(sc, loc, *callee).0;
            lemma_exprs_entries(sc, loc1, args@, 0);
            assert forall|k: u64|
                #[trigger] spec_resolve_expr(sc, loc, e).0.contains_key(k) implies loc.contains_key(
                k,
            ) || expr_ids(e).contains(k) by {
                lemma_contains_concat(expr_ids(*callee), exprs_ids(args@, 0), k);
                if spec_resolve_expr(sc, loc, *callee).1 is Ok {
                    assert(spec_resolve_exprs(sc, loc1, args@, 0).0.contains_key(k));
                } else {
                    assert(loc1.contains_key(k));
                }
            }
        },
        Expr::Grouping(inner) => {
            lemma_expr_entries(sc, loc, *inner);
            assert forall|k: u64|
                #[trigger] spec_resolve_expr(sc, loc, e).0.contains_key(k) implies loc.contains_key(
                k,
            ) || expr_ids(e).contains(k) by {
                assert(spec_resolve_expr(sc, loc, *inner).0.contains_key(k));
            }
        },
        Expr::Unary(_t, inner) => {
            lemma_expr_entries(sc, loc, *inner);
            assert forall|k: u64|
                #[trigger] spec_resolve_expr(sc, loc, e).0.contains_key(k) implies loc.contains_key(
                k,
            ) || expr_ids(e).contains(k) by {
                assert(spec_resolve_expr(sc, loc, *inner).0.contains_key(k));
            }
        },
        Expr::Variable(t, id) => {
            assert forall|k: u64|
                #[trigger] spec_resolve_expr(sc, loc, e).0.contains_key(k) implies loc.contains_key(
                k,
            ) || expr_ids(e).contains(k) by {
                if !(sc.len() > 0 && sc.last().contains_key(t.lexeme@) && sc.last()[t.lexeme@]
                    == false) {
                    match spec_resolve_local(sc, loc, id, t.lexeme@) {
                        Ok(_) => {
                            if k != id {
                                assert(loc.contains_key(k));
                            } else {
                                assert(expr_ids(e)[0] == id);
                            }
                        },
                        Err(_) => {},
                    }
                }
            }
        },
        _ => {},
    }
}

/// Resolving an argument list adds entries only under its own nodes'
/// identifiers.
proof fn lemma_exprs_entries(sc: Seq<Map<Seq<char>, bool>>, loc: Map<u64, u32>, args: Seq<Expr>, i: int)
    ensures
        forall|k: u64|
            #[trigger] spec_resolve_exprs(sc, loc, args, i).0.contains_key(k) ==> loc.contains_key(
                k,
            ) || exprs_ids(args, i).contains(k),
    decreases args, args.len() - i, 1int,
{
    if 0 <= i < args.len() {
        lemma_expr_entries(sc, loc, args[i]);
        let loc1 = spec_resolve_expr(sc, loc, args[i]).0;
        lemma_exprs_entries(sc, loc1, args, i + 1);
        assert forall|k: u64|
            #[trigger] spec_resolve_exprs(sc, loc, args, i).0.contains_key(k) implies loc
            .contains_key(k) || exprs_ids(args, i).contains(k) by {
            lemma_contains_concat(expr_ids(args[i]), exprs_ids(args, i + 1), k);
            if spec_resolve_expr(sc, loc, args[i]).1 is Ok {
                assert(spec_resolve_exprs(sc, loc1, args, i + 1).0.contains_key(k));
            } else {
                assert(loc1.contains_key(k));
            }
        }
    }
}

/// Resolving a statement adds entries only under its own nodes'
/// identifiers.
proof fn lemma_stmt_entries(sc: Seq<Map<Seq<char>, bool>>, loc: Map<u64, u32>, s: Stmt)
    ensures
        forall|k: u64|
            #[trigger] spec_resolve_stmt(sc, loc, s).1.contains_key(k) ==> loc.contains_key(k)
                || stmt_ids(s).contains(k),
    decreases s, 0int, 0int,
{
    match s {
        Stmt::Block(stmts) => {
            lemma_stmts_entries(sc.push(Map::empty()), loc, stmts@, 0);
            assert forall|k: u64|
                #[trigger] spec_resolve_stmt(sc, loc, s).1.contains_key(k) implies loc.contains_key(
                k,
            ) || stmt_ids(s).contains(k) by {
                assert(spec_resolve_stmts(sc.push(Map::empty()), loc, stmts@, 0).1.contains_key(k));
            }
        },
        Stmt::Expression(e) => {
            lemma_expr_entries(sc, loc, e);
            assert forall|k: u64|
                #[trigger] spec_resolve_stmt(sc, loc, s).1.contains_key(k) implies loc.contains_key(
                k,
            ) || stmt_ids(s).contains(k) by {
                assert(spec_resolve_expr(sc, loc, e).0.contains_key(k));
            }
        },
        Stmt::Function { name, params, body } => {
            let sc1 = scopes_set(scopes_set(sc, name.lexeme@, false), name.lexeme@, true);
            let declared = declare_params(
                sc1.push(Map::empty()),
                params@.map_values(|t: Token| t.lexeme@),
            );
            lemma_stmts_entries(declared, loc, body@, 0);
            assert forall|k: u64|
                #[trigger] spec_resolve_stmt(sc, loc, s).1.contains_key(k) implies loc.contains_key(
                k,
            ) || stmt_ids(s).contains(k) by {
                assert(spec_resolve_stmts(declared, loc, body@, 0).1.contains_key(k));
            }
        },
        Stmt::If { condition, then_branch, else_branch } => {
            lemma_expr_entries(sc, loc, condition);
            let loc1 = spec_resolve_expr(sc, loc, condition).0;
            lemma_stmt_entries(sc, loc1, *then_branch);
            let sc1 = spec_resolve_stmt(sc, loc1, *then_branch).0;
            let loc2 = spec_resolve_stmt(sc, loc1, *then_branch).1;
            match else_branch {
                Some(el) => {
                    lemma_stmt_entries(sc1, loc2, *el);
                    assert forall|k: u64|
                        #[trigger] spec_resolve_stmt(sc, loc, s).1.contains_key(k) implies loc
                        .contains_key(k) || stmt_ids(s).contains(k) by {
                        lemma_contains_concat(expr_ids(condition), stmt_ids(*then_branch), k);
                        lemma_contains_concat(
                            expr_ids(condition) + stmt_ids(*then_branch),
                            stmt_ids(*el),
                            k,
                        );
                        if spec_resolve_expr(sc, loc, condition).1 is Ok {
                            if spec_resolve_stmt(sc, loc1, *then_branch).2 is Ok {
                                assert(spec_resolve_stmt(sc1, loc2, *el).1.contains_key(k));
                            } else {
                                assert(loc2.contains_key(k));
                            }
                        } else {
                            assert(loc1.contains_key(k));
                        }
                    }
                },
                None => {
                    assert forall|k: u64|
                        #[trigger] spec_resolve_stmt(sc, loc, s).1.contains_key(k) implies loc
                        .contains_key(k) || stmt_ids(s).contains(k) by {
                        lemma_contains_concat(expr_ids(condition), stmt_ids(*then_branch), k);
                        lemma_contains_concat(
                            expr_ids(condition) + stmt_ids(*then_branch),
                            Seq::<u64>::empty(),
                            k,
                        );
                        if spec_resolve_expr(sc, loc, condition).1 is Ok {
                            assert(loc2.contains_key(k));
                        } else {
                            assert(loc1.contains_key(k));
                        }
                    }
                },
            }
        },
        Stmt::Print(e) => {
            lemma_expr_entries(sc, loc, e);
            assert forall|k: u64|
                #[trigger] spec_resolve_stmt(sc, loc, s).1.contains_key(k) implies loc.contains_key(
                k,
            ) || stmt_ids(s).contains(k) by {
                assert(spec_resolve_expr(sc, loc, e).0.contains_key(k));
            }
        },
        Stmt::Return { keyword: _, expr } => {
            match expr {
                Some(e) => {
                    lemma_expr_entries(sc, loc, e);
                    assert forall|k: u64|
                        #[trigger] spec_resolve_stmt(sc, loc, s).1.contains_key(k) implies loc
                        .contains_key(k) || stmt_ids(s).contains(k) by {
                        assert(spec_resolve_expr(sc, loc, e).0.contains_key(k));
                    }
                },
                None => {},
            }
        },
        Stmt::Var { name, initializer } => {
            match initializer {
                Some(e) => {
                    lemma_expr_entries(scopes_set(sc, name.lexeme@, false), loc, e);
                    assert forall|k: u64|
                        #[trigger] spec_resolve_stmt(sc, loc, s).1.contains_key(k) implies loc
                        .contains_key(k) || stmt_ids(s).contains(k) by {
                        assert(spec_resolve_expr(
                            scopes_set(sc, name.lexeme@, false),
                            loc,
                            e,
                        ).0.contains_key(k));
                    }
                },
                None => {},
            }
        },
        Stmt::While { condition, body } => {
            lemma_expr_entries(sc, loc, condition);
            let loc1 = spec_resolve_expr(sc, loc, condition).0;
            lemma_stmt_entries(sc, loc1, *body);
            assert forall|k: u64|
                #[trigger] spec_resolve_stmt(sc, loc, s).1.contains_key(k) implies loc.contains_key(
                k,
            ) || stmt_ids(s).contains(k) by {
                lemma_contains_concat(expr_ids(condition), stmt_ids(*body), k);
                if spec_resolve_expr(sc, loc, condition).1 is Ok {
                    assert(spec_resolve_stmt(sc, loc1, *body).1.contains_key(k));
                } else {
                    assert(loc1.contains_key(k));
                }
            }
        },
        Stmt::Class => {},
    }
}

/// Resolving a statement list adds entries only under its own nodes'
/// identifiers.
proof fn lemma_stmts_entries(sc: Seq<Map<Seq<char>, bool>>, loc: Map<u64, u32>, stmts: Seq<Stmt>, i: int)
    ensures
        forall|k: u64|
            #[trigger] spec_resolve_stmts(sc, loc, stmts, i).1.contains_key(k) ==> loc.contains_key(
                k,
            ) || stmts_ids(stmts, i).contains(k),
    decreases stmts, stmts.len() - i, 1int,
{
    if 0 <= i < stmts.len() {
        lemma_stmt_entries(sc, loc, stmts[i]);
        let sc1 = spec_resolve_stmt(sc, loc, stmts[i]).0;
        let loc1 = spec_resolve_stmt(sc, loc, stmts[i]).1;
        lemma_stmts_entries(sc1, loc1, stmts, i + 1);
        assert forall|k: u64|
            #[trigger] spec_resolve_stmts(sc, loc, stmts, i).1.contains_key(k) implies loc
            .contains_key(k) || stmts_ids(stmts, i).contains(k) by {
            lemma_contains_concat(stmt_ids(stmts[i]), stmts_ids(stmts, i + 1), k);
            if spec_resolve_stmt(sc, loc, stmts[i]).2 is Ok {
                assert(spec_resolve_stmts(sc1, loc1, stmts, i + 1).1.contains_key(k));
            } else {
                assert(loc1.contains_key(k));
            }
        }
    }
}

/// Every entry a resolver run adds sits under the identifier of one of
/// the program's own `Variable` or `Assign` nodes. Together with the
/// parser's guarantee that those identifiers are pairwise distinct, with
/// `lemma_recorded_distance_is_hop_count` for what each recording holds,
/// and with the evaluator's fallback to the globals for unrecorded
/// names, this pins the whole resolution map: every reference is either
/// mapped to its own hop count or resolved against the globals — no
/// third case.
pub proof fn lemma_resolution_entries_from_program(
    sc: Seq<Map<Seq<char>, bool>>,
    loc: Map<u64, u32>,
    stmts: Seq<Stmt>,
)
    ensures
        forall|k: u64|
            #[trigger] spec_resolve_stmts(sc, loc, stmts, 0).1.contains_key(k) ==> loc.contains_key(
                k,
            ) || stmts_ids(stmts, 0).contains(k),
{
    lemma_stmts_entries(sc, loc, stmts, 0);
}

/// A resolver failure is a resolve-time kind: a resolution error or an
/// unsupported construct, never a runtime error and never the `Return`
/// signal.
pub proof fn lemma_resolve_expr_error_kind(sc: Seq<Map<Seq<char>, bool>>, loc: Map<u64, u32>, e: Expr)
    ensures
        spec_resolve_expr(sc, loc, e).1 matches Err(err) ==> (err is Resolve || err
            is Unsupported),
    decreases e, 0int, 0int,
{
    match e {
        Expr::Assign(_t, rhs, _id) => {
            lemma_resolve_expr_error_kind(sc, loc, *rhs);
        },
        Expr::Binary(l, _t, r) => {
            lemma_resolve_expr_error_kind(sc, loc, *l);
            lemma_resolve_expr_error_kind(sc, spec_resolve_expr(sc, loc, *l).0, *r);
        },
        Expr::Logical(l, _t, r) => {
            lemma_resolve_expr_error_kind(sc, loc, *l);
            lemma_resolve_expr_error_kind(sc, spec_resolve_expr(sc, loc, *l).0, *r);
        },
        Expr::Call(callee, _t, args) => {
            lemma_resolve_expr_error_kind(sc, loc, *callee);
            lemma_resolve_exprs_error_kind(sc, spec_resolve_expr(sc, loc, *callee).0, args@, 0);
        },
        Expr::Grouping(inner) => {
            lemma_resolve_expr_error_kind(sc, loc, *inner);
        },
        Expr::Unary(_t, inner) => {
            lemma_resolve_expr_error_kind(sc, loc, *inner);
        },
        _ => {},
    }
}

/// An argument-list resolver failure is a resolve-time kind.
proof fn lemma_resolve_exprs_error_kind(
    sc: Seq<Map<Seq<char>, bool>>,
    loc: Map<u64, u32>,
    args: Seq<Expr>,
    i: int,
)
    ensures
        spec_resolve_exprs(sc, loc, args, i).1 matches Err(err) ==> (err is Resolve || err
            is Unsupported),
    decreases args, args.len() - i, 1int,
{
    if 0 <= i < args.len() {
        lemma_resolve_expr_error_kind(sc, loc, args[i]);
        lemma_resolve_exprs_error_kind(sc, spec_resolve_expr(sc, loc, args[i]).0, args, i + 1);
    }
}

/// A statement resolver failure is a resolve-time kind.
pub proof fn lemma_resolve_stmt_error_kind(sc: Seq<Map<Seq<char>, bool>>, loc: Map<u64, u32>, s: Stmt)
    ensures
        spec_resolve_stmt(sc, loc, s).2 matches Err(err) ==> (err is Resolve || err
            is Unsupported),
    decreases s, 0int, 0int,
{
    match s {
        Stmt::Block(stmts) => {
            lemma_resolve_stmts_error_kind(sc.push(Map::empty()), loc, stmts@, 0);
        },
        Stmt::Expression(e) => {
            lemma_resolve_expr_error_kind(sc, loc, e);
        },
        Stmt::Function { name, params, body } => {
            let sc1 = scopes_set(scopes_set(sc, name.lexeme@, false), name.lexeme@, true);
            let declared = declare_params(
                sc1.push(Map::empty()),
                params@.map_values(|t: Token| t.lexeme@),
            );
            lemma_resolve_stmts_error_kind(declared, loc, body@, 0);
        },
        Stmt::If { condition, then_branch, else_branch } => {
            lemma_resolve_expr_error_kind(sc, loc, condition);
            let loc1 = spec_resolve_expr(sc, loc, condition).0;
            lemma_resolve_stmt_error_kind(sc, loc1, *then_branch);
            let sc1 = spec_resolve_stmt(sc, loc1, *then_branch).0;
            let loc2 = spec_resolve_stmt(sc, loc1, *then_branch).1;
            match else_branch {
                Some(el) => {
                    lemma_resolve_stmt_error_kind(sc1, loc2, *el);
                },
                None => {},
            }
        },
        Stmt::Print(e) => {
            lemma_resolve_expr_error_kind(sc, loc, e);
        },
        Stmt::Return { keyword: _, expr } => {
            match expr {
                Some(e) => {
                    lemma_resolve_expr_error_kind(sc, loc, e);
                },
                None => {},
            }
        },
        Stmt::Var { name, initializer } => {
            match initializer {
                Some(e) => {
                    lemma_resolve_expr_error_kind(scopes_set(sc, name.lexeme@, false), loc, e);
                },
                None => {},
            }
        },
        Stmt::While { condition, body } => {
            lemma_resolve_expr_error_kind(sc, loc, condition);
            lemma_resolve_stmt_error_kind(sc, spec_resolve_expr(sc, loc, condition).0, *body);
        },
        Stmt::Class => {},
    }
}

/// A statement-list resolver failure is a resolve-time kind.
proof fn lemma_resolve_stmts_error_kind(
    sc: Seq<Map<Seq<char>, bool>>,
    loc: Map<u64, u32>,
    stmts: Seq<Stmt>,
    i: int,
)
    ensures
        spec_resolve_stmts(sc, loc, stmts, i).2 matches Err(err) ==> (err is Resolve || err
            is Unsupported),
    decreases stmts, stmts.len() - i, 1int,
{
    if 0 <= i < stmts.len() {
        lemma_resolve_stmt_error_kind(sc, loc, stmts[i]);
        lemma_resolve_stmts_error_kind(
            spec_resolve_stmt(sc, loc, stmts[i]).0,
            spec_resolve_stmt(sc, loc, stmts[i]).1,
            stmts,
            i + 1,
        );
    }
}

} // verus!
