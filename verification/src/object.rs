use vstd::prelude::*;
use crate::callable::Callable;

verus! {

/// A value of the language.
#[derive(Debug, Clone, PartialEq)]
pub enum Object {
    /// A number, carried as a decimal numeral.
    Num(String),
    Str(String),
    Bool(bool),
    Func(Callable),
    Nil,
    /// The mark of an operation that has no result. No program ever sees it.
    ArithmeticError,
}

impl Object {
    /// Everything is true but `nil` and `false`.
    pub open spec fn truthy(self) -> bool {
        match self {
            Object::Nil => false,
            Object::Bool(b) => b,
            _ => true,
        }
    }

    /// How the value is written when it is printed. The mark of an
    /// operation without result has no text.
    pub open spec fn text(self) -> Seq<char> {
        match self {
            Object::Num(n) => n@,
            Object::Str(s) => s@,
            Object::Bool(b) => if b {
                "true"@
            } else {
                "false"@
            },
            Object::Func(_) => "<func>"@,
            Object::Nil => "nil"@,
            Object::ArithmeticError => Seq::empty(),
        }
    }

    /// Whether the value is true.
    pub fn is_truthy(&self) -> (r: bool)
        ensures
            r == self.truthy(),
    {
        match self {
            Object::Nil => false,
            Object::Bool(b) => *b,
            _ => true,
        }
    }

    /// A copy of the value.
    pub fn dup(&self) -> (r: Object)
        ensures
            r == *self,
    {
        match self {
            Object::Num(n) => Object::Num(n.clone()),
            Object::Str(s) => Object::Str(s.clone()),
            Object::Bool(b) => Object::Bool(*b),
            Object::Func(f) => Object::Func(*f),
            Object::Nil => Object::Nil,
            Object::ArithmeticError => Object::ArithmeticError,
        }
    }

    /// The printed form of the value.
    pub fn to_string(&self) -> (s: String)
        ensures
            s@ == self.text(),
    {
        match self {
            Object::Num(n) => n.clone(),
            Object::Str(s) => s.clone(),
            Object::Bool(b) => if *b {
                String::from_str("true")
            } else {
                String::from_str("false")
            },
            Object::Func(_) => String::from_str("<func>"),
            Object::Nil => String::from_str("nil"),
            Object::ArithmeticError => String::new(),
        }
    }
}

/// `nil` and `false` are the only values that are not true: every number,
/// zero too, every string, the empty one too, and every function is true.
pub proof fn lemma_truthiness(value: Object)
    ensures
        !value.truthy() <==> (value is Nil || value == Object::Bool(false)),
        value is Num ==> value.truthy(),
        value is Str ==> value.truthy(),
        value is Func ==> value.truthy(),
{
}

} // verus!
