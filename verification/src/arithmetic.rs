use vstd::prelude::*;
use crate::token_type::TokenType;

verus! {

/// The arithmetic unit that gives numbers their value.
///
/// The interpreter carries every number as a decimal numeral and never looks
/// inside it. Whatever depends on the value of a number is asked of this
/// unit, which a caller implements over the number type of its machine.
///
/// Each answer of the unit has a name, and the contracts of the interpreter
/// say which answer to which question a result is. Of the answers
/// themselves only this is claimed: the same unit gives the same answer to
/// the same question, whatever strings spell the question. What is proved
/// through this trait holds of implementations that keep to that. The four
/// names are items of the trait: an implementation gives each the body of
/// the method that it names.
pub trait Arithmetic {
    /// The name of what `numeral` answers.
    spec fn numeral_of(&self, literal: String) -> String;

    /// The name of what `calculate` answers.
    spec fn calculated(&self, op: TokenType, left: String, right: String) -> String;

    /// The name of what `compare` answers.
    spec fn compared(&self, op: TokenType, left: String, right: String) -> bool;

    /// The name of what `negate` answers.
    spec fn negated(&self, operand: String) -> String;

    /// The numeral under which the value of the literal `literal` is carried.
    fn numeral(&self, literal: &str) -> (s: String)
        ensures
            s@ == self.numeral_of(spelling(literal@))@,
    ;

    /// The numeral of `left op right`, for `op` one of `Plus`, `Minus`, `Star`, `Slash`.
    fn calculate(&self, op: TokenType, left: &str, right: &str) -> (s: String)
        ensures
            s@ == self.calculated(op, spelling(left@), spelling(right@))@,
    ;

    /// Whether `left op right` holds, for `op` one of `Greater`, `GreaterEqual`,
    /// `Less`, `LessEqual`, `Equal`, `BangEqual`.
    fn compare(&self, op: TokenType, left: &str, right: &str) -> (b: bool)
        ensures
            b == self.compared(op, spelling(left@), spelling(right@)),
    ;

    /// The numeral of the negated `operand`.
    fn negate(&self, operand: &str) -> (s: String)
        ensures
            s@ == self.negated(spelling(operand@))@,
    ;
}

/// Some string that spells `text`.
pub open spec fn spelling(text: Seq<char>) -> String {
    choose|s: String| s@ == text
}

/// The answers of an arithmetic unit, as functions of the questions.
pub struct Numbers {
    /// The numeral under which the value of a literal is carried.
    pub numeral_of: spec_fn(Seq<char>) -> Seq<char>,
    /// The numeral of `left op right`.
    pub calculated: spec_fn(TokenType, Seq<char>, Seq<char>) -> Seq<char>,
    /// Whether `left op right` holds.
    pub compared: spec_fn(TokenType, Seq<char>, Seq<char>) -> bool,
    /// The numeral of the negated operand.
    pub negated: spec_fn(Seq<char>) -> Seq<char>,
}

/// The answers of the unit `unit`.
pub open spec fn numbers<A: Arithmetic>(unit: &A) -> Numbers {
    Numbers {
        numeral_of: |literal: Seq<char>| unit.numeral_of(spelling(literal))@,
        calculated: |op: TokenType, left: Seq<char>, right: Seq<char>|
            unit.calculated(op, spelling(left), spelling(right))@,
        compared: |op: TokenType, left: Seq<char>, right: Seq<char>|
            unit.compared(op, spelling(left), spelling(right)),
        negated: |operand: Seq<char>| unit.negated(spelling(operand))@,
    }
}

/// Whether `op` is one of the four operators that compute a number from two numbers.
pub open spec fn is_calculation(op: TokenType) -> bool {
    op == TokenType::Plus || op == TokenType::Minus || op == TokenType::Star || op
        == TokenType::Slash
}

/// Whether `op` is one of the six operators that compare two numbers.
pub open spec fn is_comparison(op: TokenType) -> bool {
    op == TokenType::Greater || op == TokenType::GreaterEqual || op == TokenType::Less || op
        == TokenType::LessEqual || op == TokenType::Equal || op == TokenType::BangEqual
}

} // verus!
