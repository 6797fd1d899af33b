//! Environments: one frame of name bindings with an optional parent.
//! Frames live in an arena (a vector); a frame names its parent by index,
//! and parents always sit at lower indices than their children, so every
//! chain walk terminates. A binding holds `Some` value once initialized,
//! or `None` for a declared-but-uninitialized name.
use vstd::prelude::*;

use crate::callable::{BuiltInFunction, Callable, CallableG};
use crate::error::{ErrorG, RloxError};
use crate::rlvalue::{clone_opt_value, RlValue, ValueG};
use crate::strmap::{lemma_map_of_congruence, StrMap};
use crate::token::Token;

verus! {

/// A place to store one lexical scope's variables.
pub struct Environment {
    pub values: StrMap<Option<RlValue>>,
    pub enclosing: Option<usize>,
}

/// Mathematical image of one frame.
pub ghost struct FrameG {
    pub values: Map<Seq<char>, Option<ValueG>>,
    pub enclosing: Option<int>,
}

impl View for Environment {
    type V = FrameG;

    open spec fn view(&self) -> FrameG {
        FrameG {
            values: self.values@,
            enclosing: match self.enclosing {
                Option::Some(j) => Option::Some(j as int),
                Option::None => Option::None,
            },
        }
    }
}

/// The images of every frame of an arena.
pub open spec fn arena_view(envs: Vec<Environment>) -> Seq<FrameG> {
    envs@.map_values(|e: Environment| e@)
}

/// Every frame's backing table is well formed.
pub open spec fn frames_wf(envs: Vec<Environment>) -> bool {
    forall|i: int| 0 <= i < envs@.len() ==> (#[trigger] envs@[i]).values.wf()
}

/// The arena is a forest growing upward: the first frame is the global
/// one and has no parent; every later frame names a parent that was
/// created before it.
pub open spec fn arena_wf(envs: Seq<FrameG>) -> bool {
    &&& envs.len() >= 1
    &&& envs[0].enclosing is None
    &&& forall|i: int|
        1 <= i < envs.len() ==> ((#[trigger] envs[i]).enclosing matches Some(j) && 0 <= j < i)
}

/// What looking a name up from frame `i` returns: the nearest binding
/// along the parent chain; at the root, the built-ins; `nil` for a
/// declared-but-uninitialized binding; `UndefinedSymbol` when nothing
/// matches anywhere.
pub open spec fn spec_get(envs: Seq<FrameG>, i: int, name: Seq<char>) -> Result<ValueG, ErrorG>
    decreases i,
{
    if !(0 <= i < envs.len()) {
        Err(ErrorG::Resolution)
    } else if envs[i].values.contains_key(name) {
        match envs[i].values[name] {
            Some(v) => Ok(v),
            None => Ok(ValueG::Nil),
        }
    } else {
        match envs[i].enclosing {
            Some(j) => if 0 <= j < i {
                spec_get(envs, j, name)
            } else {
                Err(ErrorG::Resolution)
            },
            None => if name == "clock"@ {
                Ok(ValueG::Fun(CallableG::BuiltIn(BuiltInFunction::Clock)))
            } else {
                Err(ErrorG::UndefinedSymbol(name))
            },
        }
    }
}

/// What reading a name exactly `distance` parent hops above frame `i`
/// returns: the binding there, `nil` if it is uninitialized, and a
/// resolution failure if the chain is too short or the name is absent at
/// that depth.
pub open spec fn spec_get_at(envs: Seq<FrameG>, i: int, distance: int, name: Seq<char>) -> Result<
    ValueG,
    ErrorG,
>
    decreases distance,
{
    if !(0 <= i < envs.len()) {
        Err(ErrorG::Resolution)
    } else if distance == 0 {
        if envs[i].values.contains_key(name) {
            match envs[i].values[name] {
                Some(v) => Ok(v),
                None => Ok(ValueG::Nil),
            }
        } else {
            Err(ErrorG::Resolution)
        }
    } else if distance < 0 {
        Err(ErrorG::Resolution)
    } else {
        match envs[i].enclosing {
            Some(j) => spec_get_at(envs, j, distance - 1, name),
            None => Err(ErrorG::Resolution),
        }
    }
}

/// The frame exactly `distance` parent hops above frame `i`.
pub open spec fn spec_ancestor(envs: Seq<FrameG>, i: int, distance: int) -> Result<int, ErrorG>
    decreases distance,
{
    if !(0 <= i < envs.len()) {
        Err(ErrorG::Resolution)
    } else if distance == 0 {
        Ok(i)
    } else if distance < 0 {
        Err(ErrorG::Resolution)
    } else {
        match envs[i].enclosing {
            Some(j) => spec_ancestor(envs, j, distance - 1),
            None => Err(ErrorG::Resolution),
        }
    }
}

/// What assigning to a name from frame `i` does: the nearest frame along
/// the parent chain that binds the name is updated; assignment never
/// creates a binding, so a name bound nowhere is `UndefinedVariable`.
pub open spec fn spec_assign(envs: Seq<FrameG>, i: int, name: Seq<char>, v: ValueG) -> Result<
    Seq<FrameG>,
    ErrorG,
>
    decreases i,
{
    if !(0 <= i < envs.len()) {
        Err(ErrorG::Resolution)
    } else if envs[i].values.contains_key(name) {
        Ok(
            envs.update(
                i,
                FrameG { values: envs[i].values.insert(name, Some(v)), enclosing: envs[i].enclosing },
            ),
        )
    } else {
        match envs[i].enclosing {
            Some(j) => if 0 <= j < i {
                spec_assign(envs, j, name, v)
            } else {
                Err(ErrorG::Resolution)
            },
            None => Err(ErrorG::UndefinedVariable(name)),
        }
    }
}

/// What assigning exactly `distance` hops above frame `i` does: the
/// binding there is written unconditionally, as the resolver has already
/// decided that this is the declaring scope.
pub open spec fn spec_assign_at(
    envs: Seq<FrameG>,
    i: int,
    distance: int,
    name: Seq<char>,
    v: ValueG,
) -> Result<Seq<FrameG>, ErrorG> {
    match spec_ancestor(envs, i, distance) {
        Ok(j) => Ok(
            envs.update(
                j,
                FrameG { values: envs[j].values.insert(name, Some(v)), enclosing: envs[j].enclosing },
            ),
        ),
        Err(e) => Err(e),
    }
}

impl Environment {
    /// An empty frame under the given parent.
    pub fn new(enclosing: Option<usize>) -> (e: Environment)
        ensures
            e.values.wf(),
            e@.values == Map::<Seq<char>, Option<ValueG>>::empty(),
            e@.enclosing == match enclosing {
                Option::Some(j) => Option::Some(j as int),
                Option::None => Option::<int>::None,
            },
    {
        Environment { values: StrMap::new(), enclosing }
    }

    /// Binds a name in this frame, overwriting any earlier binding;
    /// `None` records a declared-but-uninitialized name.
    pub fn define(&mut self, key: Token, value: Option<RlValue>)
        requires
            old(self).values.wf(),
        ensures
            final(self).values.wf(),
            final(self)@.values == old(self)@.values.insert(key.lexeme@, value.deep_view()),
            final(self)@.enclosing == old(self)@.enclosing,
    {
        self.values.insert(key.lexeme, value);
    }

    /// Looks a name up from frame `start`, walking parents outward,
    /// exactly as `spec_get` describes.
    pub fn get(envs: &Vec<Environment>, start: usize, key: &Token) -> (r: Result<
        RlValue,
        RloxError,
    >)
        requires
            frames_wf(*envs),
        ensures
            match r {
                Ok(v) => spec_get(arena_view(*envs), start as int, key.lexeme@) == Ok::<
                    ValueG,
                    ErrorG,
                >(v@),
                Err(e) => spec_get(arena_view(*envs), start as int, key.lexeme@) == Err::<
                    ValueG,
                    ErrorG,
                >(e@),
            },
        decreases start,
    {
        if start >= envs.len() {
            return Err(RloxError::ResolutionError("environment index out of range".to_owned()));
        }
        match envs[start].values.get(key.lexeme.as_str()) {
            Some(slot) => match clone_opt_value(slot) {
                Some(v) => Ok(v),
                None => Ok(RlValue::Nil),
            },
            None => {
                match envs[start].enclosing {
                    Some(j) => {
                        if j < start {
                            Self::get(envs, j, key)
                        } else {
                            Err(
                                RloxError::ResolutionError(
                                    "environment chain does not descend".to_owned(),
                                ),
                            )
                        }
                    },
                    None => {
                        match Callable::find_builtin(key.lexeme.as_str()) {
                            Some(builtin) => Ok(RlValue::Callable(builtin)),
                            None => Err(RloxError::UndefinedSymbol(key.lexeme.clone())),
                        }
                    },
                }
            },
        }
    }

    /// Reads a name exactly `distance` hops above frame `start`, exactly
    /// as `spec_get_at` describes.
    pub fn get_at(envs: &Vec<Environment>, start: usize, distance: u32, key: &Token) -> (r: Result<
        RlValue,
        RloxError,
    >)
        requires
            frames_wf(*envs),
        ensures
            match r {
                Ok(v) => spec_get_at(arena_view(*envs), start as int, distance as int, key.lexeme@)
                    == Ok::<ValueG, ErrorG>(v@),
                Err(e) => spec_get_at(
                    arena_view(*envs),
                    start as int,
                    distance as int,
                    key.lexeme@,
                ) == Err::<ValueG, ErrorG>(e@),
            },
        decreases distance,
    {
        if start >= envs.len() {
            return Err(RloxError::ResolutionError("environment index out of range".to_owned()));
        }
        if distance == 0 {
            match envs[start].values.get(key.lexeme.as_str()) {
                Some(slot) => match clone_opt_value(slot) {
                    Some(v) => Ok(v),
                    None => Ok(RlValue::Nil),
                },
                None => Err(
                    RloxError::ResolutionError("name not bound at the resolved depth".to_owned()),
                ),
            }
        } else {
            match envs[start].enclosing {
                Some(j) => Self::get_at(envs, j, distance - 1, key),
                None => Err(
                    RloxError::ResolutionError("no more environments to traverse".to_owned()),
                ),
            }
        }
    }

    /// Assigns to the nearest binding of a name from frame `start`
    /// outward, exactly as `spec_assign` describes; never creates a
    /// binding.
    pub fn assign(envs: &mut Vec<Environment>, start: usize, key: &Token, value: RlValue) -> (r:
        Result<(), RloxError>)
        requires
            frames_wf(*old(envs)),
        ensures
            frames_wf(*final(envs)),
            final(envs)@.len() == old(envs)@.len(),
            forall|i: int|
                0 <= i < old(envs)@.len() ==> (#[trigger] arena_view(*final(envs))[i]).enclosing
                    == arena_view(*old(envs))[i].enclosing,
            match r {
                Ok(_) => spec_assign(arena_view(*old(envs)), start as int, key.lexeme@, value@)
                    == Ok::<Seq<FrameG>, ErrorG>(arena_view(*final(envs))),
                Err(e) => final(envs)@ == old(envs)@ && spec_assign(
                    arena_view(*old(envs)),
                    start as int,
                    key.lexeme@,
                    value@,
                ) == Err::<Seq<FrameG>, ErrorG>(e@),
            },
        decreases start,
    {
        if start >= envs.len() {
            return Err(RloxError::ResolutionError("environment index out of range".to_owned()));
        }
        if envs[start].values.contains(key.lexeme.as_str()) {
            update_binding(envs, start, key, Some(value));
            return Ok(());
        }
        match envs[start].enclosing {
            Some(j) => {
                if j < start {
                    Self::assign(envs, j, key, value)
                } else {
                    Err(RloxError::ResolutionError("environment chain does not descend".to_owned()))
                }
            },
            None => Err(RloxError::UndefinedVariable(key.lexeme.clone())),
        }
    }

    /// Writes a binding exactly `distance` hops above frame `start`,
    /// exactly as `spec_assign_at` describes.
    pub fn assign_at(
        envs: &mut Vec<Environment>,
        start: usize,
        distance: u32,
        key: &Token,
        value: RlValue,
    ) -> (r: Result<(), RloxError>)
        requires
            frames_wf(*old(envs)),
        ensures
            frames_wf(*final(envs)),
            final(envs)@.len() == old(envs)@.len(),
            forall|i: int|
                0 <= i < old(envs)@.len() ==> (#[trigger] arena_view(*final(envs))[i]).enclosing
                    == arena_view(*old(envs))[i].enclosing,
            match r {
                Ok(_) => spec_assign_at(
                    arena_view(*old(envs)),
                    start as int,
                    distance as int,
                    key.lexeme@,
                    value@,
                ) == Ok::<Seq<FrameG>, ErrorG>(arena_view(*final(envs))),
                Err(e) => final(envs)@ == old(envs)@ && spec_assign_at(
                    arena_view(*old(envs)),
                    start as int,
                    distance as int,
                    key.lexeme@,
                    value@,
                ) == Err::<Seq<FrameG>, ErrorG>(e@),
            },
        decreases distance,
    {
        if start >= envs.len() {
            return Err(RloxError::ResolutionError("environment index out of range".to_owned()));
        }
        if distance == 0 {
            update_binding(envs, start, key, Some(value));
            Ok(())
        } else {
            match envs[start].enclosing {
                Some(j) => {
                    let r = Self::assign_at(envs, j, distance - 1, key, value);
                    r
                },
                None => Err(
                    RloxError::ResolutionError("no more environments to traverse".to_owned()),
                ),
            }
        }
    }
}

/// A copy of a frame's table, with the same image.
fn clone_values(m: &StrMap<Option<RlValue>>) -> (r: StrMap<Option<RlValue>>)
    requires
        m.wf(),
    ensures
        r.wf(),
        r@ == m@,
{
    let mut entries: Vec<(String, Option<RlValue>)> = Vec::new();
    let mut i: usize = 0;
    while i < m.entries.len()
        invariant
            i <= m.entries.len(),
            entries@.len() == i,
            forall|j: int|
                0 <= j < i ==> (#[trigger] entries@[j]).0@ == m.entries@[j].0@
                    && entries@[j].1.deep_view() == m.entries@[j].1.deep_view(),
        decreases m.entries.len() - i,
    {
        let key = m.entries[i].0.clone();
        let value = clone_opt_value(&m.entries[i].1);
        entries.push((key, value));
        i = i + 1;
    }
    proof {
        lemma_map_of_congruence(entries@, m.entries@);
    }
    StrMap { entries }
}

/// Rewrites one binding of the frame at `idx`, leaving its parent link
/// and every other frame as they were.
pub(crate) fn update_binding(envs: &mut Vec<Environment>, idx: usize, key: &Token, value: Option<RlValue>)
    requires
        frames_wf(*old(envs)),
        idx < old(envs)@.len(),
    ensures
        frames_wf(*final(envs)),
        final(envs)@.len() == old(envs)@.len(),
        arena_view(*final(envs)) == arena_view(*old(envs)).update(
            idx as int,
            FrameG {
                values: arena_view(*old(envs))[idx as int].values.insert(
                    key.lexeme@,
                    value.deep_view(),
                ),
                enclosing: arena_view(*old(envs))[idx as int].enclosing,
            },
        ),
{
    let mut values = clone_values(&envs[idx].values);
    values.insert(key.lexeme.clone(), value);
    let frame = Environment { values, enclosing: envs[idx].enclosing };
    envs[idx] = frame;
    proof {
        assert(arena_view(*envs) =~= arena_view(*old(envs)).update(
            idx as int,
            FrameG {
                values: arena_view(*old(envs))[idx as int].values.insert(
                    key.lexeme@,
                    value.deep_view(),
                ),
                enclosing: arena_view(*old(envs))[idx as int].enclosing,
            },
        ));
    }
}

/// A failed lookup is a resolution failure or an undefined symbol; the
/// environment never raises a scan-, parse- or input-time error.
pub proof fn lemma_get_error_kind(envs: Seq<FrameG>, i: int, name: Seq<char>)
    ensures
        spec_get(envs, i, name) matches Err(e) ==> (e is Resolution || e is UndefinedSymbol),
    decreases i,
{
    if 0 <= i < envs.len() && !envs[i].values.contains_key(name) {
        match envs[i].enclosing {
            Some(j) => {
                if 0 <= j < i {
                    lemma_get_error_kind(envs, j, name);
                }
            },
            None => {},
        }
    }
}

/// A failed resolved read is always a resolution failure.
pub proof fn lemma_get_at_error_kind(envs: Seq<FrameG>, i: int, distance: int, name: Seq<char>)
    ensures
        spec_get_at(envs, i, distance, name) matches Err(e) ==> e is Resolution,
    decreases distance,
{
    if 0 <= i < envs.len() && distance > 0 {
        match envs[i].enclosing {
            Some(j) => {
                lemma_get_at_error_kind(envs, j, distance - 1, name);
            },
            None => {},
        }
    }
}

/// A failed ancestor walk is always a resolution failure.
pub proof fn lemma_ancestor_error_kind(envs: Seq<FrameG>, i: int, distance: int)
    ensures
        spec_ancestor(envs, i, distance) matches Err(e) ==> e is Resolution,
    decreases distance,
{
    if 0 <= i < envs.len() && distance > 0 {
        match envs[i].enclosing {
            Some(j) => {
                lemma_ancestor_error_kind(envs, j, distance - 1);
            },
            None => {},
        }
    }
}

/// A failed assignment is a resolution failure or an undefined variable.
pub proof fn lemma_assign_error_kind(envs: Seq<FrameG>, i: int, name: Seq<char>, v: ValueG)
    ensures
        spec_assign(envs, i, name, v) matches Err(e) ==> (e is Resolution || e
            is UndefinedVariable),
    decreases i,
{
    if 0 <= i < envs.len() && !envs[i].values.contains_key(name) {
        match envs[i].enclosing {
            Some(j) => {
                if 0 <= j < i {
                    lemma_assign_error_kind(envs, j, name, v);
                }
            },
            None => {},
        }
    }
}

/// A failed resolved assignment is always a resolution failure.
pub proof fn lemma_assign_at_error_kind(
    envs: Seq<FrameG>,
    i: int,
    distance: int,
    name: Seq<char>,
    v: ValueG,
)
    ensures
        spec_assign_at(envs, i, distance, name, v) matches Err(e) ==> e is Resolution,
{
    lemma_ancestor_error_kind(envs, i, distance);
}

} // verus!
