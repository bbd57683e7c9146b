//! Flattens a whitespace-separated arithmetic expression (non-negative
//! integer literals combined by binary `+` and `*`, strictly left to right,
//! no precedence) into a sequence of three-address instructions, each
//! assigning a fresh single-letter variable, followed by the name of the
//! variable that holds the final result.

use vstd::prelude::*;

mod flatten;
mod lexer;
mod numeral;
mod token;

pub use flatten::compile_from_flat_list;
pub use lexer::to_token;
pub use lexer::tokenize;

pub use token::ExpandError;
pub use token::Token;

use flatten::alphabet;
use flatten::num_instrs;
use flatten::program_text;
use flatten::wf_tokens;
use lexer::lemma_lex_atoms_valid;
use lexer::lex;
use lexer::split_ws;

verus! {

/// Turns a flat expression into its three-address program: each operator, in
/// textual order, becomes one instruction assigning a fresh variable, the
/// previous variable standing as the left operand from the second instruction
/// on; the last line names the variable that holds the result. Every failure
/// is reported: an unrecognizable atom as a lexical error, a broken
/// operand/operator alternation (an empty or single-literal expression too)
/// as a grammar error, and an expression needing more variables than the
/// alphabet has letters as a capacity error.
pub fn expand(expression: String) -> (r: Result<Vec<String>, ExpandError>)
    ensures
        match lex(expression@) {
            Some(ts) => {
                &&& !wf_tokens(ts) ==> r == Err::<Vec<String>, ExpandError>(ExpandError::Grammar)
                &&& wf_tokens(ts) && num_instrs(ts) > alphabet().len() ==> r == Err::<
                    Vec<String>,
                    ExpandError,
                >(ExpandError::Capacity)
                &&& wf_tokens(ts) && num_instrs(ts) <= alphabet().len() ==> (r matches Ok(out)
                    && out.deep_view() == program_text(ts))
            },
            None => r == Err::<Vec<String>, ExpandError>(ExpandError::Lexical),
        },
{
    let tokens = match tokenize(expression.as_str()) {
        Ok(ts) => ts,
        Err(e) => {
            return Err(e);
        },
    };
    proof {
        lemma_lex_atoms_valid(split_ws(expression@));
    }
    compile_from_flat_list(&tokens)
}

} // verus!
