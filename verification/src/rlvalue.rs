//! Runtime values: the result of evaluating an expression.
use vstd::prelude::*;

use crate::callable::{Callable, CallableG};
use crate::expr::LiteralValue;

verus! {

/// A runtime value. Numbers are 64-bit signed integers.
#[derive(Debug)]
pub enum RlValue {
    Nil,
    Boolean(bool),
    Number(i64),
    String(String),
    Callable(Callable),
}

/// Mathematical image of a runtime value.
pub ghost enum ValueG {
    Nil,
    Bool(bool),
    Num(i64),
    Str(Seq<char>),
    Fun(CallableG),
}

impl View for RlValue {
    type V = ValueG;

    open spec fn view(&self) -> ValueG {
        match self {
            RlValue::Nil => ValueG::Nil,
            RlValue::Boolean(b) => ValueG::Bool(*b),
            RlValue::Number(n) => ValueG::Num(*n),
            RlValue::String(s) => ValueG::Str(s@),
            RlValue::Callable(c) => ValueG::Fun(c@),
        }
    }
}

impl DeepView for RlValue {
    type V = ValueG;

    open spec fn deep_view(&self) -> ValueG {
        self.view()
    }
}

/// Truthiness of a value: only `nil` and `false` are falsy.
pub open spec fn truthy(v: ValueG) -> bool {
    match v {
        ValueG::Nil => false,
        ValueG::Bool(b) => b,
        _ => true,
    }
}

impl Default for RlValue {
    /// The default value is `nil`.
    fn default() -> (v: RlValue)
        ensures
            v@ == ValueG::Nil,
    {
        RlValue::Nil
    }
}

impl RlValue {
    /// Whether this value is `nil`.
    pub fn is_nil(&self) -> (r: bool)
        ensures
            r == (self@ is Nil),
    {
        matches!(self, RlValue::Nil)
    }

    /// Whether this value is a boolean.
    pub fn is_bool(&self) -> (r: bool)
        ensures
            r == (self@ is Bool),
    {
        matches!(self, RlValue::Boolean(_))
    }

    /// Whether this value is a number.
    pub fn is_numeric(&self) -> (r: bool)
        ensures
            r == (self@ is Num),
    {
        matches!(self, RlValue::Number(_))
    }

    /// Whether this value is a string.
    pub fn is_string(&self) -> (r: bool)
        ensures
            r == (self@ is Str),
    {
        matches!(self, RlValue::String(_))
    }

    /// Truthiness, as control flow sees it: every value is truthy except
    /// `nil` and `false`.
    pub fn is_truthy(&self) -> (r: bool)
        ensures
            r == truthy(self@),
    {
        match self {
            RlValue::Nil => false,
            RlValue::Boolean(b) => *b,
            _ => true,
        }
    }

    /// The number this value holds, if it is a number.
    pub fn as_numeric(&self) -> (r: Option<i64>)
        ensures
            match r {
                Some(n) => self@ == ValueG::Num(n),
                None => !(self@ is Num),
            },
    {
        match self {
            RlValue::Number(n) => Some(*n),
            _ => None,
        }
    }

    /// A copy of the string this value holds, if it is a string.
    pub fn as_string(&self) -> (r: Option<String>)
        ensures
            match r {
                Some(s) => self@ == ValueG::Str(s@),
                None => !(self@ is Str),
            },
    {
        match self {
            RlValue::String(s) => Some(s.clone()),
            _ => None,
        }
    }
}

/// Lifts a source literal to the runtime value it denotes.
pub open spec fn value_of_literal(l: crate::expr::LiteralValueG) -> ValueG {
    match l {
        crate::expr::LiteralValueG::Nil => ValueG::Nil,
        crate::expr::LiteralValueG::Bool(b) => ValueG::Bool(b),
        crate::expr::LiteralValueG::Num(n) => ValueG::Num(n),
        crate::expr::LiteralValueG::Str(s) => ValueG::Str(s),
    }
}

impl From<LiteralValue> for RlValue {
    /// Lifts a source literal to the runtime value it denotes.
    fn from(l: LiteralValue) -> (v: RlValue)
        ensures
            v@ == value_of_literal(l@),
    {
        match l {
            LiteralValue::Nil() => RlValue::Nil,
            LiteralValue::Boolean(b) => RlValue::Boolean(b),
            LiteralValue::Number(n) => RlValue::Number(n),
            LiteralValue::String(s) => RlValue::String(s),
        }
    }
}

impl vstd::std_specs::convert::FromSpecImpl<LiteralValue> for RlValue {
    open spec fn obeys_from_spec() -> bool {
        true
    }

    open spec fn from_spec(l: LiteralValue) -> RlValue {
        match l {
            LiteralValue::Nil() => RlValue::Nil,
            LiteralValue::Boolean(b) => RlValue::Boolean(b),
            LiteralValue::Number(n) => RlValue::Number(n),
            LiteralValue::String(s) => RlValue::String(s),
        }
    }
}

/// Lifts a borrowed source literal to the runtime value it denotes.
pub fn value_from_literal(l: &LiteralValue) -> (v: RlValue)
    ensures
        v@ == value_of_literal(l@),
{
    match l {
        LiteralValue::Nil() => RlValue::Nil,
        LiteralValue::Boolean(b) => RlValue::Boolean(*b),
        LiteralValue::Number(n) => RlValue::Number(*n),
        LiteralValue::String(s) => RlValue::String(s.clone()),
    }
}

/// A copy of a value, equal to the original in its mathematical image.
pub fn clone_value(v: &RlValue) -> (r: RlValue)
    ensures
        r@ == v@,
{
    match v {
        RlValue::Nil => RlValue::Nil,
        RlValue::Boolean(b) => RlValue::Boolean(*b),
        RlValue::Number(n) => RlValue::Number(*n),
        RlValue::String(s) => RlValue::String(s.clone()),
        RlValue::Callable(c) => RlValue::Callable(crate::callable::clone_callable(c)),
    }
}

/// A copy of an optional value, equal to the original in its image.
pub fn clone_opt_value(v: &Option<RlValue>) -> (r: Option<RlValue>)
    ensures
        r.deep_view() == v.deep_view(),
{
    match v {
        Some(v) => Some(clone_value(v)),
        None => None,
    }
}

} // verus!
