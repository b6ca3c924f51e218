use vstd::prelude::*;
use crate::object::Object;
use crate::token_type::TokenType;

verus! {

/// One lexeme of the source with its kind, its literal value if it has one,
/// and the line on which it begins.
#[derive(Debug, Clone, PartialEq)]
pub struct Token {
    pub t_type: TokenType,
    pub lexeme: String,
    pub literal: Option<Object>,
    pub line: usize,
}

impl Token {
    /// A token.
    pub fn new(t_type: TokenType, lexeme: String, literal: Option<Object>, line: usize) -> (t: Token)
        ensures
            t == (Token { t_type, lexeme, literal, line }),
    {
        Token { t_type, lexeme, literal, line }
    }

    /// Whether the token is of the kind `t_type`.
    pub fn is(&self, t_type: TokenType) -> (r: bool)
        ensures
            r == (self.t_type == t_type),
    {
        self.t_type == t_type
    }

    /// The kind of the token.
    pub fn token_type(&self) -> (t: TokenType)
        ensures
            t == self.t_type,
    {
        self.t_type
    }

    /// The lexeme of the token.
    pub fn as_string(&self) -> (s: String)
        ensures
            s == self.lexeme,
    {
        self.lexeme.clone()
    }

    /// A copy of the token.
    pub fn dup(&self) -> (t: Token)
        ensures
            t == *self,
    {
        Token {
            t_type: self.t_type,
            lexeme: self.lexeme.clone(),
            literal: match &self.literal {
                Some(value) => Some(value.dup()),
                None => None,
            },
            line: self.line,
        }
    }

    /// The token that ends every token stream.
    pub fn eof(line: usize) -> (t: Token)
        ensures
            t.t_type == TokenType::Eof,
            t.lexeme@ == Seq::<char>::empty(),
            t.literal is None,
            t.line == line,
    {
        Token { t_type: TokenType::Eof, lexeme: String::new(), literal: None, line }
    }

    /// The kind, the lexeme and the literal, separated by single spaces;
    /// `None` stands for a literal that is absent.
    pub open spec fn text(self) -> Seq<char> {
        self.t_type.spec_name() + " "@ + self.lexeme@ + " "@ + match self.literal {
            Some(value) => value.text(),
            None => "None"@,
        }
    }

    /// The printed form of the token.
    pub fn to_string(&self) -> (s: String)
        ensures
            s@ == self.text(),
    {
        let mut s = String::from_str(self.t_type.name());
        s.append(" ");
        s.append(self.lexeme.as_str());
        s.append(" ");
        match &self.literal {
            Some(value) => {
                let v = value.to_string();
                s.append(v.as_str());
            },
            None => {
                s.append("None");
            },
        }
        s
    }
}

} // verus!
