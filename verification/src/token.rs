use vstd::prelude::*;

verus! {

/// A classified atom of the input expression: an additive operator, a
/// multiplicative operator, or a non-negative integer literal.
#[derive(Clone, Copy, Debug, PartialEq, Eq, Structural)]
pub enum Token {
    Plus,
    Multiply,
    Number(i64),
}

/// The three unrecoverable failures of the pipeline: an atom that is neither
/// an operator nor an in-range digit string, a token out of place in the
/// operand/operator alternation, and a program that needs more result
/// variables than the alphabet offers.
#[derive(Clone, Copy, Debug, PartialEq, Eq, Structural)]
pub enum ExpandError {
    Lexical,
    Grammar,
    Capacity,
}

/// True of operator tokens.
pub open spec fn is_op(t: Token) -> bool {
    t is Plus || t is Multiply
}

/// Every literal token carries a non-negative value, as the lexer produces
/// them.
pub open spec fn tokens_valid(ts: Seq<Token>) -> bool {
    forall|i: int| 0 <= i < ts.len() ==> (#[trigger] ts[i] matches Token::Number(n) ==> n >= 0)
}

} // verus!
