use vstd::prelude::*;
use crate::object::Object;
use crate::text::{decimal, decimal_text};
use crate::token::Token;
use crate::token_type::TokenType;

verus! {

/// Everything that ends a computation early: the errors that a user sees and
/// the two signals by which `return` and `break` unwind the evaluator.
#[derive(Debug, Clone, PartialEq)]
pub enum SaturdayResult {
    /// An error of the parser or of the resolver, at a token.
    ParseError { token: Token, message: String },
    /// An error of the running program, at a token.
    RuntimeError { token: Token, message: String },
    /// An error of the scanner, at a line.
    Error { line: usize, message: String },
    /// A failure of the machine: the clock cannot be read, or an evaluation
    /// has used up what it was allowed.
    SystemError { message: String },
    /// The signal of a `return`, which the call around it takes up.
    ReturnValue { value: Object },
    /// The signal of a `break`, which the loop around it takes up.
    Break,
    /// The mark of a wrong record of the resolver: a local variable is not
    /// where it was recorded. No program that has passed the resolver ever
    /// ends with it.
    Fail,
}

impl SaturdayResult {
    /// The mark of a wrong record of the resolver.
    pub fn fail() -> (r: SaturdayResult)
        ensures
            r == SaturdayResult::Fail,
    {
        SaturdayResult::Fail
    }

    /// The signal of a `return` that carries `value`.
    pub fn return_value(value: Object) -> (r: SaturdayResult)
        ensures
            r == (SaturdayResult::ReturnValue { value }),
    {
        SaturdayResult::ReturnValue { value }
    }

    /// An error of the scanner, at a line.
    pub fn error(line: usize, message: &str) -> (r: SaturdayResult)
        ensures
            r matches SaturdayResult::Error { line: l, message: m } && l == line && m@ == message@,
    {
        SaturdayResult::Error { line, message: String::from_str(message) }
    }

    /// An error of the evaluator, at a token.
    pub fn runtime_error(token: &Token, message: &str) -> (r: SaturdayResult)
        ensures
            r matches SaturdayResult::RuntimeError { token: t, message: m } && t == *token && m@
                == message@,
    {
        SaturdayResult::RuntimeError { token: token.dup(), message: String::from_str(message) }
    }

    /// An error of the parser or of the resolver, at a token.
    pub fn parse_error(token: &Token, message: &str) -> (r: SaturdayResult)
        ensures
            r matches SaturdayResult::ParseError { token: t, message: m } && t == *token && m@
                == message@,
    {
        SaturdayResult::ParseError { token: token.dup(), message: String::from_str(message) }
    }

    /// A failure of the machine that runs the interpreter.
    pub fn system_error(message: &str) -> (r: SaturdayResult)
        ensures
            r matches SaturdayResult::SystemError { message: m } && m@ == message@,
    {
        SaturdayResult::SystemError { message: String::from_str(message) }
    }

    /// A copy of this result.
    pub fn clone_error(&self) -> (r: SaturdayResult)
        ensures
            r == *self,
    {
        match self {
            SaturdayResult::ParseError { token, message } => SaturdayResult::ParseError {
                token: token.dup(),
                message: message.clone(),
            },
            SaturdayResult::RuntimeError { token, message } => SaturdayResult::RuntimeError {
                token: token.dup(),
                message: message.clone(),
            },
            SaturdayResult::Error { line, message } => SaturdayResult::Error {
                line: *line,
                message: message.clone(),
            },
            SaturdayResult::SystemError { message } => SaturdayResult::SystemError {
                message: message.clone(),
            },
            SaturdayResult::ReturnValue { value } => SaturdayResult::ReturnValue {
                value: value.dup(),
            },
            SaturdayResult::Break => SaturdayResult::Break,
            SaturdayResult::Fail => SaturdayResult::Fail,
        }
    }

    /// The line that reports this result to a user, with `loc` behind the
    /// word `Error` of a scanner's error. The two signals are not reported.
    pub open spec fn report_text(self, loc: Seq<char>) -> Option<Seq<char>> {
        match self {
            SaturdayResult::ParseError { token, message } => Some(
                "[line "@ + decimal(token.line as nat) + "] Error at '"@ + token.lexeme@ + "': "@
                    + message@,
            ),
            SaturdayResult::RuntimeError { token, message } => if token.t_type == TokenType::Eof {
                Some("[line "@ + decimal(token.line as nat) + "] Error at end: "@ + message@)
            } else {
                Some(message@ + "\n[line "@ + decimal(token.line as nat) + "]"@)
            },
            SaturdayResult::SystemError { message } => Some("System Error: "@ + message@),
            SaturdayResult::Error { line, message } => Some(
                "[line "@ + decimal(line as nat) + "] Error"@ + loc + ": "@ + message@,
            ),
            _ => None,
        }
    }

    /// The report of this result, for the caller to write to standard error.
    pub fn report(&self, loc: &str) -> (r: Option<String>)
        requires
            !(*self is Fail),
        ensures
            match self.report_text(loc@) {
                Some(text) => r is Some && r->Some_0@ == text,
                None => r is None,
            },
    {
        match self {
            SaturdayResult::ParseError { token, message } => {
                let mut s = String::from_str("[line ");
                s.append(decimal_text(token.line as u128).as_str());
                s.append("] Error at '");
                s.append(token.lexeme.as_str());
                s.append("': ");
                s.append(message.as_str());
                Some(s)
            },
            SaturdayResult::RuntimeError { token, message } => {
                if token.is(TokenType::Eof) {
                    let mut s = String::from_str("[line ");
                    s.append(decimal_text(token.line as u128).as_str());
                    s.append("] Error at end: ");
                    s.append(message.as_str());
                    Some(s)
                } else {
                    let mut s = message.clone();
                    s.append("\n[line ");
                    s.append(decimal_text(token.line as u128).as_str());
                    s.append("]");
                    Some(s)
                }
            },
            SaturdayResult::SystemError { message } => {
                let mut s = String::from_str("System Error: ");
                s.append(message.as_str());
                Some(s)
            },
            SaturdayResult::Error { line, message } => {
                let mut s = String::from_str("[line ");
                s.append(decimal_text(*line as u128).as_str());
                s.append("] Error");
                s.append(loc);
                s.append(": ");
                s.append(message.as_str());
                Some(s)
            },
            _ => None,
        }
    }
}

/// An error of the parser or of the resolver: the token at which it was
/// found, and the message.
pub struct Complaint {
    pub token: Token,
    pub message: Seq<char>,
}

/// What an error of the parser or of the resolver says.
pub open spec fn complaint_of(e: SaturdayResult) -> Complaint {
    match e {
        SaturdayResult::ParseError { token, message } => Complaint { token, message: message@ },
        _ => arbitrary(),
    }
}

/// What each error of a list says.
pub open spec fn complaints_of(es: Seq<SaturdayResult>) -> Seq<Complaint> {
    Seq::new(es.len(), |i: int| complaint_of(es[i]))
}

} // verus!
