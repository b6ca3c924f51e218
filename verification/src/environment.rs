use vstd::prelude::*;
use vstd::hash_map::StringHashMap;
use crate::error::SaturdayResult;
use crate::object::Object;
use crate::token::Token;

verus! {

/// One environment: the variables of one scope, and the place of the
/// environment that encloses it.
///
/// Environments are shared between the running program and the functions
/// that captured them, so they live side by side in one list, the arena, and
/// are known by their place in it. An environment is always younger than the
/// one that encloses it.
pub struct Environment {
    values: StringHashMap<Object>,
    /// The names of the variables, in the order in which they were first bound.
    names: Vec<String>,
    enclosing: Option<usize>,
}

/// Every environment of the arena lies behind the one that encloses it.
pub open spec fn well_linked(arena: Seq<Environment>) -> bool {
    forall|i: int|
        0 <= i < arena.len() ==> match (#[trigger] arena[i]).parent() {
            Some(p) => p < i,
            None => true,
        }
}

/// The environment that lies `distance` links outward of `env`, if the chain is that long.
pub open spec fn ancestor(arena: Seq<Environment>, env: int, distance: nat) -> Option<int>
    decreases distance,
{
    if env < 0 || env >= arena.len() {
        None
    } else if distance == 0 {
        Some(env)
    } else {
        match arena[env].parent() {
            Some(p) => ancestor(arena, p as int, (distance - 1) as nat),
            None => None,
        }
    }
}

/// The nearest environment, from `env` outward, that binds `name`.
pub open spec fn holder(arena: Seq<Environment>, env: int, name: Seq<char>) -> Option<int>
    decreases env,
{
    if env < 0 || env >= arena.len() {
        None
    } else if arena[env].bindings().contains_key(name) {
        Some(env)
    } else {
        match arena[env].parent() {
            Some(p) => if p < env {
                holder(arena, p as int, name)
            } else {
                None
            },
            None => None,
        }
    }
}

/// The chain of environments from `env` outward as it is written: each
/// environment in braces, `in` between one and the one that encloses it.
pub open spec fn described_chain(arena: Seq<Environment>, env: int) -> Seq<char>
    decreases env,
{
    if env < 0 || env >= arena.len() {
        Seq::empty()
    } else {
        arena[env].described() + match arena[env].parent() {
            Some(p) => if p < env {
                " in "@ + described_chain(arena, p as int)
            } else {
                Seq::empty()
            },
            None => Seq::empty(),
        }
    }
}

/// What is found under `name` in the environment at `place`: its value, or
/// `Fail` where there is no such environment or it does not bind the name.
pub open spec fn found_at(arena: Seq<Environment>, place: Option<int>, name: Seq<char>) -> Result<
    Object,
    SaturdayResult,
> {
    match place {
        Some(a) => if arena[a].bindings().contains_key(name) {
            Ok(arena[a].bindings()[name])
        } else {
            Err(SaturdayResult::Fail)
        },
        None => Err(SaturdayResult::Fail),
    }
}

/// The message for a name that no environment binds.
pub open spec fn undefined_text(name: Seq<char>) -> Seq<char> {
    "Undefined variable '"@ + name + "'."@
}

/// Whether `e` is the runtime error that `name` is undefined.
pub open spec fn is_undefined(e: SaturdayResult, name: Token) -> bool {
    e matches SaturdayResult::RuntimeError { token, message } && token == name && message@
        == undefined_text(name.lexeme@)
}

/// The arena `after` is the arena `before` with `name` bound to `value` in the environment `at`.
pub open spec fn rebound(
    before: Seq<Environment>,
    after: Seq<Environment>,
    at: int,
    name: Seq<char>,
    value: Object,
) -> bool {
    &&& after.len() == before.len()
    &&& 0 <= at < before.len()
    &&& after[at].bindings() == before[at].bindings().insert(name, value)
    &&& after[at].names() == before[at].names_with(name)
    &&& after[at].parent() == before[at].parent()
    &&& forall|i: int| 0 <= i < before.len() && i != at ==> after[i] == before[i]
}

/// The error that `name` is undefined.
pub fn undefined(name: &Token) -> (e: SaturdayResult)
    ensures
        is_undefined(e, *name),
{
    let mut message = String::from_str("Undefined variable '");
    message.append(name.lexeme.as_str());
    message.append("'.");
    SaturdayResult::RuntimeError { token: name.dup(), message }
}

impl Environment {
    /// The variables of this environment.
    pub closed spec fn bindings(&self) -> Map<Seq<char>, Object> {
        self.values@
    }

    /// The place of the enclosing environment.
    pub closed spec fn parent(&self) -> Option<usize> {
        self.enclosing
    }

    /// The names of the variables, in the order in which they were first bound.
    pub closed spec fn names(&self) -> Seq<Seq<char>> {
        Seq::new(self.names@.len(), |i: int| self.names@[i]@)
    }

    /// The names after `name` is bound: it comes last if it is new.
    pub open spec fn names_with(&self, name: Seq<char>) -> Seq<Seq<char>> {
        if self.bindings().contains_key(name) {
            self.names()
        } else {
            self.names().push(name)
        }
    }

    /// The first `k` variables as they are written: each name with its
    /// value, a comma between two.
    pub open spec fn listed(&self, k: nat) -> Seq<char>
        decreases k,
    {
        if k == 0 || k > self.names().len() {
            Seq::empty()
        } else {
            let name = self.names()[k - 1];
            self.listed((k - 1) as nat) + (if k > 1 {
                ", "@
            } else {
                Seq::empty()
            }) + name + (if self.bindings().contains_key(name) {
                " = "@ + self.bindings()[name].text()
            } else {
                Seq::empty()
            })
        }
    }

    /// The environment as it is written: its variables in braces.
    pub open spec fn described(&self) -> Seq<char> {
        "{"@ + self.listed(self.names().len()) + "}"@
    }

    /// An environment without variables that nothing encloses.
    pub fn new() -> (e: Self)
        ensures
            e.bindings() == Map::<Seq<char>, Object>::empty(),
            e.names() == Seq::<Seq<char>>::empty(),
            e.parent() is None,
    {
        let e = Self { values: StringHashMap::new(), names: Vec::new(), enclosing: None };
        assert(e.names() =~= Seq::<Seq<char>>::empty());
        e
    }

    /// An environment without variables inside the environment at `enclosing`.
    pub fn new_with_enclosing(enclosing: usize) -> (e: Self)
        ensures
            e.bindings() == Map::<Seq<char>, Object>::empty(),
            e.names() == Seq::<Seq<char>>::empty(),
            e.parent() == Some(enclosing),
    {
        let e = Self {
            values: StringHashMap::new(),
            names: Vec::new(),
            enclosing: Some(enclosing),
        };
        assert(e.names() =~= Seq::<Seq<char>>::empty());
        e
    }

    /// The place of the enclosing environment.
    pub fn enclosing(&self) -> (r: Option<usize>)
        ensures
            r == self.parent(),
    {
        self.enclosing
    }

    /// Binds `name` to `value` here, whether or not it was bound before.
    pub fn define(&mut self, name: &str, value: Object)
        ensures
            final(self).bindings() == old(self).bindings().insert(name@, value),
            final(self).names() == old(self).names_with(name@),
            final(self).parent() == old(self).parent(),
    {
        if !self.values.contains_key(name) {
            self.names.push(String::from_str(name));
            assert(self.names() =~= old(self).names().push(name@));
        }
        self.values.insert(String::from_str(name), value);
    }

    /// Writes the environment: its variables in braces, each name with its
    /// value, in the order in which they were first bound.
    pub fn describe(&self) -> (s: String)
        ensures
            s@ == self.described(),
    {
        let mut s = String::from_str("{");
        let mut i: usize = 0;
        while i < self.names.len()
            invariant
                i <= self.names@.len(),
                self.names@.len() == self.names().len(),
                s@ == "{"@ + self.listed(i as nat),
            decreases self.names@.len() - i,
        {
            let ghost before = s@;
            if i > 0 {
                s.append(", ");
            }
            let name = &self.names[i];
            s.append(name.as_str());
            match self.values.get(name.as_str()) {
                Some(value) => {
                    s.append(" = ");
                    s.append(value.to_string().as_str());
                },
                None => {},
            }
            i = i + 1;
            assert(self.names()[i - 1] == name@);
            assert(s@ =~= "{"@ + self.listed(i as nat));
        }
        s.append("}");
        s
    }

    /// The value of `name` in this environment alone.
    pub fn lookup(&self, name: &str) -> (r: Option<Object>)
        ensures
            r == (if self.bindings().contains_key(name@) {
                Some(self.bindings()[name@])
            } else {
                None
            }),
    {
        match self.values.get(name) {
            Some(value) => Some(value.dup()),
            None => None,
        }
    }

    /// Whether this environment itself binds `name`.
    pub fn contains(&self, name: &str) -> (r: bool)
        ensures
            r == self.bindings().contains_key(name@),
    {
        self.values.contains_key(name)
    }

    /// Writes the chain of environments from `env` outward.
    pub fn describe_chain(arena: &Vec<Environment>, env: usize) -> (s: String)
        requires
            well_linked(arena@),
            env < arena@.len(),
        ensures
            s@ == described_chain(arena@, env as int),
    {
        let mut s = String::new();
        let mut cur = env;
        loop
            invariant
                well_linked(arena@),
                cur < arena@.len(),
                s@ + described_chain(arena@, cur as int) == described_chain(arena@, env as int),
            decreases cur,
        {
            let ghost before = s@;
            s.append(arena[cur].describe().as_str());
            match arena[cur].enclosing {
                Some(p) => {
                    s.append(" in ");
                    assert(s@ + described_chain(arena@, p as int) =~= before + described_chain(
                        arena@,
                        cur as int,
                    ));
                    cur = p;
                },
                None => {
                    assert(s@ =~= before + described_chain(arena@, cur as int));
                    return s;
                },
            }
        }
    }

    /// The value of `name` in the environment `distance` links outward of
    /// `env`. Where the chain is shorter than that, or that environment does
    /// not bind the name, the result is `Fail`: a correct resolver never asks
    /// for such a place.
    pub fn get_at(arena: &Vec<Environment>, env: usize, distance: usize, name: &str) -> (r: Result<
        Object,
        SaturdayResult,
    >)
        requires
            well_linked(arena@),
        ensures
            r == found_at(arena@, ancestor(arena@, env as int, distance as nat), name@),
        decreases distance,
    {
        if env >= arena.len() {
            Err(SaturdayResult::Fail)
        } else if distance == 0 {
            match arena[env].values.get(name) {
                Some(value) => Ok(value.dup()),
                None => Err(SaturdayResult::Fail),
            }
        } else {
            match arena[env].enclosing {
                Some(p) => Environment::get_at(arena, p, distance - 1, name),
                None => Err(SaturdayResult::Fail),
            }
        }
    }

    /// The value of `name` in the nearest environment, from `env` outward,
    /// that binds it; the error that the variable is undefined if none does.
    pub fn get(arena: &Vec<Environment>, env: usize, name: &Token) -> (r: Result<
        Object,
        SaturdayResult,
    >)
        requires
            well_linked(arena@),
            env < arena@.len(),
        ensures
            match holder(arena@, env as int, name.lexeme@) {
                Some(h) => r == Ok::<Object, SaturdayResult>(arena@[h].bindings()[name.lexeme@]),
                None => r matches Err(e) && is_undefined(e, *name),
            },
        decreases env,
    {
        match arena[env].values.get(name.lexeme.as_str()) {
            Some(value) => Ok(value.dup()),
            None => match arena[env].enclosing {
                Some(p) => Environment::get(arena, p, name),
                None => Err(undefined(name)),
            },
        }
    }

    /// Binds `name` to `value` in the environment `distance` links outward of
    /// `env`, whether or not it was bound there before. Where the chain is
    /// shorter than that, nothing changes and the result is `Fail`.
    pub fn assign_at(
        arena: &mut Vec<Environment>,
        env: usize,
        distance: usize,
        name: &Token,
        value: Object,
    ) -> (r: Result<(), SaturdayResult>)
        requires
            well_linked(old(arena)@),
        ensures
            match ancestor(old(arena)@, env as int, distance as nat) {
                Some(a) => r is Ok && rebound(old(arena)@, final(arena)@, a, name.lexeme@, value),
                None => final(arena)@ == old(arena)@ && r == Err::<(), SaturdayResult>(
                    SaturdayResult::Fail,
                ),
            },
        decreases distance,
    {
        if env >= arena.len() {
            Err(SaturdayResult::Fail)
        } else if distance == 0 {
            arena[env].define(name.lexeme.as_str(), value);
            Ok(())
        } else {
            match arena[env].enclosing {
                Some(p) => Environment::assign_at(arena, p, distance - 1, name, value),
                None => Err(SaturdayResult::Fail),
            }
        }
    }

    /// Gives `name` the new value `value` in the nearest environment, from
    /// `env` outward, that binds it. If none does, nothing changes and the
    /// result is the error that the variable is undefined.
    pub fn assign(arena: &mut Vec<Environment>, env: usize, name: &Token, value: Object) -> (r:
        Result<(), SaturdayResult>)
        requires
            well_linked(old(arena)@),
            env < old(arena)@.len(),
        ensures
            match holder(old(arena)@, env as int, name.lexeme@) {
                Some(h) => r is Ok && rebound(old(arena)@, final(arena)@, h, name.lexeme@, value),
                None => final(arena)@ == old(arena)@ && (r matches Err(e) && is_undefined(e, *name)),
            },
        decreases env,
    {
        if arena[env].values.contains_key(name.lexeme.as_str()) {
            arena[env].define(name.lexeme.as_str(), value);
            Ok(())
        } else {
            match arena[env].enclosing {
                Some(p) => Environment::assign(arena, p, name, value),
                None => Err(undefined(name)),
            }
        }
    }
}

} // verus!
