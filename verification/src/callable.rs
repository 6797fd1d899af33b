//! Callable values: built-ins and user-defined functions. A user function
//! carries its parameter tokens, its body, and the arena index of the
//! environment that was current when it was defined — its closure.
use vstd::prelude::*;

use std::rc::Rc;

use crate::environment::Environment;
use crate::error::RloxError;
use crate::interpreter::{bind_params, spec_call, val_res_view, Interpreter};
use crate::rlvalue::{clone_value, RlValue};
use crate::stmt::Stmt;
use crate::strutil::str_eq;
use crate::token::{clone_token, clone_tokens, Token};

verus! {

/// The built-in functions the runtime offers.
#[derive(Clone, Copy, Debug, PartialEq, Eq, Structural)]
pub enum BuiltInFunction {
    Clock,
}

/// A callable value: a built-in, or a user function bound to the
/// environment it was defined in.
#[derive(Debug)]
pub enum Callable {
    BuiltIn(BuiltInFunction),
    Dynamic { params: Vec<Token>, body: Rc<Vec<Stmt>>, closure: usize },
}

/// Mathematical image of a callable. A user function is its parameter
/// names, its body statements, and its captured environment's index.
pub ghost enum CallableG {
    BuiltIn(BuiltInFunction),
    Dynamic { params: Seq<Seq<char>>, body: Seq<Stmt>, closure: int },
}

impl View for Callable {
    type V = CallableG;

    open spec fn view(&self) -> CallableG {
        match self {
            Callable::BuiltIn(f) => CallableG::BuiltIn(*f),
            Callable::Dynamic { params, body, closure } => CallableG::Dynamic {
                params: params@.map_values(|t: Token| t.lexeme@),
                body: body@,
                closure: *closure as int,
            },
        }
    }
}

/// The number of arguments a callable in this image expects.
pub open spec fn arity_of(c: CallableG) -> int {
    match c {
        CallableG::BuiltIn(f) => 0,
        CallableG::Dynamic { params, .. } => params.len() as int,
    }
}

impl Callable {
    /// The built-in a bare name refers to, if any; consulted when a name
    /// is found in no environment.
    pub fn find_builtin(name: &str) -> (r: Option<Callable>)
        ensures
            match r {
                Some(c) => name@ == "clock"@ && c@ == CallableG::BuiltIn(BuiltInFunction::Clock),
                None => name@ != "clock"@,
            },
    {
        if str_eq(name, "clock") {
            Some(Callable::BuiltIn(BuiltInFunction::Clock))
        } else {
            None
        }
    }

    /// How many arguments each built-in expects.
    fn builtin_arity(f: BuiltInFunction) -> (n: usize)
        ensures
            n == arity_of(CallableG::BuiltIn(f)),
    {
        match f {
            BuiltInFunction::Clock => 0,
        }
    }

    /// The number of arguments this callable expects: its parameter count
    /// for user functions, zero for `clock`.
    pub fn arity(&self) -> (n: usize)
        ensures
            n == arity_of(self@),
    {
        match self {
            Callable::BuiltIn(f) => Self::builtin_arity(*f),
            Callable::Dynamic { params, .. } => params.len(),
        }
    }
}

impl Callable {
    /// Invokes this callable on evaluated arguments, exactly as
    /// `spec_call` describes: `clock` returns the interpreter's clock
    /// value; a user function binds its parameters in a fresh environment
    /// under its captured one and runs its body there. A `Return` signal
    /// unwinding out of the body is caught exactly here and yields its
    /// carried value.
    pub fn call(&self, interpreter: &mut Interpreter, args: &Vec<RlValue>, fuel: u64) -> (r: Result<
        RlValue,
        RloxError,
    >)
        requires
            old(interpreter).inv(),
        ensures
            final(interpreter).inv(),
            spec_call(old(interpreter)@, self@, args.deep_view(), fuel as nat).0 == final(
                interpreter)@,
            spec_call(old(interpreter)@, self@, args.deep_view(), fuel as nat).1 == val_res_view(r),
        decreases fuel,
    {
        if fuel == 0 {
            return Err(RloxError::RecursionLimit);
        }
        match self {
            Callable::BuiltIn(_f) => Ok(RlValue::Number(interpreter.clock_ms)),
            Callable::Dynamic { params, body, closure } => {
                let ghost params_lex = params@.map_values(|t: Token| t.lexeme@);
                let ghost argsg = args.deep_view();
                let mut env = Environment::new(Some(*closure));
                let mut i: usize = 0;
                proof {
                    assert(params_lex.take(0) =~= Seq::<Seq<char>>::empty());
                }
                while i < params.len()
                    invariant
                        i <= params.len(),
                        params_lex == params@.map_values(|t: Token| t.lexeme@),
                        argsg == args.deep_view(),
                        env.values.wf(),
                        env@.enclosing == Some(*closure as int),
                        env@.values == bind_params(params_lex.take(i as int), argsg),
                    decreases params.len() - i,
                {
                    let value = if i < args.len() {
                        Some(clone_value(&args[i]))
                    } else {
                        None
                    };
                    env.define(clone_token(&params[i]), value);
                    proof {
                        assert(params_lex.take(i + 1 as int).drop_last() =~= params_lex.take(
                            i as int,
                        ));
                        assert(env@.values =~= bind_params(params_lex.take(i + 1 as int), argsg));
                    }
                    i = i + 1;
                }
                proof {
                    assert(params_lex.take(params@.len() as int) =~= params_lex);
                }
                match interpreter.execute_block(&**body, env, fuel - 1) {
                    Ok(v) => Ok(v),
                    Err(e) => {
                        match e {
                            RloxError::Return(v) => {
                                match v {
                                    Some(v) => Ok(v),
                                    None => Ok(RlValue::Nil),
                                }
                            },
                            other => Err(other),
                        }
                    },
                }
            },
        }
    }
}

/// A copy of a callable, equal to the original in its image. A user
/// function's body is shared, not copied.
pub fn clone_callable(c: &Callable) -> (r: Callable)
    ensures
        r@ == c@,
{
    match c {
        Callable::BuiltIn(f) => Callable::BuiltIn(*f),
        Callable::Dynamic { params, body, closure } => Callable::Dynamic {
            params: clone_tokens(params),
            body: body.clone(),
            closure: *closure,
        },
    }
}

} // verus!
