use vstd::prelude::*;

use crate::numeral::dec_of;
use crate::numeral::push_decimal;
use crate::token::ExpandError;
use crate::token::Token;
use crate::token::is_op;
use crate::token::tokens_valid;
use vstd::string::StringExecFns;

verus! {

/// The fixed alphabet of result-variable names, in allocation order.
pub open spec fn alphabet() -> Seq<char> {
    seq![
        'a', 'b', 'c', 'd', 'e', 'f', 'g', 'h', 'i', 'j', 'k', 'l', 'm', 'n', 'o', 'p', 'q', 'r',
        's', 't', 'u', 'v', 'w', 'x', 'y', 'z',
    ]
}

/// The name assigned to instruction `j`'s result.
pub open spec fn var_char(j: int) -> char {
    alphabet()[j]
}

/// The literal a number token carries.
pub open spec fn lit_val(t: Token) -> int
    recommends
        t is Number,
{
    t->Number_0 as int
}

/// What the token at position `i` must be: literals on even positions,
/// operators on odd ones.
pub open spec fn fits_at(ts: Seq<Token>, i: int) -> bool {
    if i % 2 == 0 {
        ts[i] is Number
    } else {
        is_op(ts[i])
    }
}

/// A grammatical token sequence: literals and operators strictly alternate,
/// and there is at least one operator with an operand on each side.
pub open spec fn wf_tokens(ts: Seq<Token>) -> bool {
    &&& ts.len() >= 3
    &&& ts.len() % 2 == 1
    &&& forall|i: int| 0 <= i < ts.len() ==> #[trigger] fits_at(ts, i)
}

/// How many instructions a grammatical sequence yields: one per operator.
pub open spec fn num_instrs(ts: Seq<Token>) -> int {
    (ts.len() - 1) / 2
}

pub open spec fn op_char(t: Token) -> char
    recommends
        is_op(t),
{
    if t is Plus {
        '+'
    } else {
        '*'
    }
}

/// The text of instruction `j`: `<var> = <lhs> <op> <rhs>`, where the left
/// operand is the first literal for the first instruction and the previous
/// instruction's variable afterwards.
pub open spec fn instr_text(ts: Seq<Token>, j: int) -> Seq<char>
    recommends
        wf_tokens(ts),
        0 <= j < num_instrs(ts),
{
    seq![var_char(j), ' ', '=', ' ']
        + (if j == 0 {
        dec_of(lit_val(ts[0]))
    } else {
        seq![var_char(j - 1)]
    }) + seq![' ', op_char(ts[2 * j + 1]), ' '] + dec_of(lit_val(ts[2 * j + 2]))
}

/// The whole program: one line per instruction, then one line holding only
/// the last instruction's variable.
pub open spec fn program_text(ts: Seq<Token>) -> Seq<Seq<char>>
    recommends
        wf_tokens(ts),
{
    Seq::new(
        (num_instrs(ts) + 1) as nat,
        |j: int|
            if j < num_instrs(ts) {
                instr_text(ts, j)
            } else {
                seq![var_char(num_instrs(ts) - 1)]
            },
    )
}

/// Law: for a grammatical sequence within capacity the program has exactly
/// one line per operator plus one, the first `num_instrs` lines are the
/// instructions in order, and the final line is exactly the name of the
/// variable the last instruction assigns.
pub proof fn lemma_program_shape(ts: Seq<Token>)
    requires
        wf_tokens(ts),
        num_instrs(ts) <= alphabet().len(),
    ensures
        program_text(ts).len() == num_instrs(ts) + 1,
        forall|j: int|
            0 <= j < num_instrs(ts) ==> #[trigger] program_text(ts)[j] == instr_text(ts, j),
        program_text(ts).last() == seq![instr_text(ts, num_instrs(ts) - 1)[0]],
{
    let k = num_instrs(ts);
    assert(instr_text(ts, k - 1)[0] == var_char(k - 1));
    assert(program_text(ts).last() =~= seq![var_char(k - 1)]);
}

/// Law: instruction `j` assigns the `j`-th letter of the alphabet — strict
/// order, no gaps — and from the second instruction on its left operand is
/// the previous instruction's variable, never any other.
pub proof fn lemma_chain_and_alphabet(ts: Seq<Token>, j: int)
    requires
        wf_tokens(ts),
        num_instrs(ts) <= alphabet().len(),
        0 <= j < num_instrs(ts),
    ensures
        instr_text(ts, j)[0] == var_char(j),
        j >= 1 ==> instr_text(ts, j)[4] == var_char(j - 1),
        j >= 1 ==> instr_text(ts, j) == seq![
            var_char(j),
            ' ',
            '=',
            ' ',
            var_char(j - 1),
            ' ',
            op_char(ts[2 * j + 1]),
            ' ',
        ] + dec_of(lit_val(ts[2 * j + 2])),
{
    if j >= 1 {
        assert(instr_text(ts, j) =~= seq![
            var_char(j),
            ' ',
            '=',
            ' ',
            var_char(j - 1),
            ' ',
            op_char(ts[2 * j + 1]),
            ' ',
        ] + dec_of(lit_val(ts[2 * j + 2])));
    }
}

/// Law: the alphabet never repeats a letter, so no two instructions share a
/// result variable.
pub proof fn lemma_alphabet_distinct(i: int, j: int)
    requires
        0 <= i < 26,
        0 <= j < 26,
        i != j,
    ensures
        var_char(i) != var_char(j),
{
}

/// What the flattener waits for next.
enum FlattenState {
    NeedLeftOperand,
    NeedOperator,
    NeedRightOperand,
}

/// The state after `i` consumed tokens of a sequence that fits so far.
spec fn state_at(i: int) -> FlattenState {
    if i == 0 {
        FlattenState::NeedLeftOperand
    } else if i % 2 == 1 {
        FlattenState::NeedOperator
    } else {
        FlattenState::NeedRightOperand
    }
}

/// Runs the three-state machine over the tokens and reports whether they
/// form a grammatical expression.
fn check_grammar(tokens: &Vec<Token>) -> (ok: bool)
    ensures
        ok == wf_tokens(tokens@),
{
    let n = tokens.len();
    let mut state = FlattenState::NeedLeftOperand;
    let mut i: usize = 0;
    while i < n
        invariant
            i <= n == tokens@.len(),
            state == state_at(i as int),
            forall|m: int| 0 <= m < i ==> #[trigger] fits_at(tokens@, m),
        decreases n - i,
    {
        let t = tokens[i];
        match state {
            FlattenState::NeedLeftOperand => {
                match t {
                    Token::Number(_) => {
                        state = FlattenState::NeedOperator;
                    },
                    _ => {
                        assert(!fits_at(tokens@, i as int));
                        return false;
                    },
                }
            },
            FlattenState::NeedOperator => {
                match t {
                    Token::Plus | Token::Multiply => {
                        state = FlattenState::NeedRightOperand;
                    },
                    _ => {
                        assert(!fits_at(tokens@, i as int));
                        return false;
                    },
                }
            },
            FlattenState::NeedRightOperand => {
                match t {
                    Token::Number(_) => {
                        state = FlattenState::NeedOperator;
                    },
                    _ => {
                        assert(!fits_at(tokens@, i as int));
                        return false;
                    },
                }
            },
        }
        i = i + 1;
    }
    if n < 3 {
        return false;
    }
    match state {
        FlattenState::NeedOperator => true,
        _ => {
            assert(n % 2 == 0);
            false
        },
    }
}

/// The one-character string for the variable name of index `j`.
fn letter_str(j: usize) -> (t: &'static str)
    requires
        j < 26,
    ensures
        t@ == seq![var_char(j as int)],
{
    match j {
        0 => {
            proof {
                reveal_strlit("a");
                assert("a"@ =~= seq![var_char(0)]);
            }
            "a"
        },
        1 => {
            proof {
                reveal_strlit("b");
                assert("b"@ =~= seq![var_char(1)]);
            }
            "b"
        },
        2 => {
            proof {
                reveal_strlit("c");
                assert("c"@ =~= seq![var_char(2)]);
            }
            "c"
        },
        3 => {
            proof {
                reveal_strlit("d");
                assert("d"@ =~= seq![var_char(3)]);
            }
            "d"
        },
        4 => {
            proof {
                reveal_strlit("e");
                assert("e"@ =~= seq![var_char(4)]);
            }
            "e"
        },
        5 => {
            proof {
                reveal_strlit("f");
                assert("f"@ =~= seq![var_char(5)]);
            }
            "f"
        },
        6 => {
            proof {
                reveal_strlit("g");
                assert("g"@ =~= seq![var_char(6)]);
            }
            "g"
        },
        7 => {
            proof {
                reveal_strlit("h");
                assert("h"@ =~= seq![var_char(7)]);
            }
            "h"
        },
        8 => {
            proof {
                reveal_strlit("i");
                assert("i"@ =~= seq![var_char(8)]);
            }
            "i"
        },
        9 => {
            proof {
                reveal_strlit("j");
                assert("j"@ =~= seq![var_char(9)]);
            }
            "j"
        },
        10 => {
            proof {
                reveal_strlit("k");
                assert("k"@ =~= seq![var_char(10)]);
            }
            "k"
        },
        11 => {
            proof {
                reveal_strlit("l");
                assert("l"@ =~= seq![var_char(11)]);
            }
            "l"
        },
        12 => {
            proof {
                reveal_strlit("m");
                assert("m"@ =~= seq![var_char(12)]);
            }
            "m"
        },
        13 => {
            proof {
                reveal_strlit("n");
                assert("n"@ =~= seq![var_char(13)]);
            }
            "n"
        },
        14 => {
            proof {
                reveal_strlit("o");
                assert("o"@ =~= seq![var_char(14)]);
            }
            "o"
        },
        15 => {
            proof {
                reveal_strlit("p");
                assert("p"@ =~= seq![var_char(15)]);
            }
            "p"
        },
        16 => {
            proof {
                reveal_strlit("q");
                assert("q"@ =~= seq![var_char(16)]);
            }
            "q"
        },
        17 => {
            proof {
                reveal_strlit("r");
                assert("r"@ =~= seq![var_char(17)]);
            }
            "r"
        },
        18 => {
            proof {
                reveal_strlit("s");
                assert("s"@ =~= seq![var_char(18)]);
            }
            "s"
        },
        19 => {
            proof {
                reveal_strlit("t");
                assert("t"@ =~= seq![var_char(19)]);
            }
            "t"
        },
        20 => {
            proof {
                reveal_strlit("u");
                assert("u"@ =~= seq![var_char(20)]);
            }
            "u"
        },
        21 => {
            proof {
                reveal_strlit("v");
                assert("v"@ =~= seq![var_char(21)]);
            }
            "v"
        },
        22 => {
            proof {
                reveal_strlit("w");
                assert("w"@ =~= seq![var_char(22)]);
            }
            "w"
        },
        23 => {
            proof {
                reveal_strlit("x");
                assert("x"@ =~= seq![var_char(23)]);
            }
            "x"
        },
        24 => {
            proof {
                reveal_strlit("y");
                assert("y"@ =~= seq![var_char(24)]);
            }
            "y"
        },
        _ => {
            proof {
                reveal_strlit("z");
                assert("z"@ =~= seq![var_char(25)]);
            }
            "z"
        },
    }
}

/// The value of a number token.
fn number_value(t: Token) -> (v: i64)
    requires
        t is Number,
    ensures
        v as int == lit_val(t),
{
    match t {
        Token::Number(x) => x,
        _ => {
            proof {
                assert(false);
            }
            0
        },
    }
}

/// Builds the text of instruction `j`.
fn render_instr(tokens: &Vec<Token>, j: usize) -> (line: String)
    requires
        wf_tokens(tokens@),
        tokens_valid(tokens@),
        0 <= j < num_instrs(tokens@),
        num_instrs(tokens@) <= alphabet().len(),
    ensures
        line@ == instr_text(tokens@, j as int),
{
    proof {
        assert(fits_at(tokens@, 0));
        assert(fits_at(tokens@, 2 * j + 1));
        assert(fits_at(tokens@, 2 * j + 2));
        reveal_strlit(" = ");
        reveal_strlit(" + ");
        reveal_strlit(" * ");
    }
    let mut line = String::new();
    line.append(letter_str(j));
    line.append(" = ");
    if j == 0 {
        let v = number_value(tokens[0]);
        push_decimal(&mut line, v);
    } else {
        line.append(letter_str(j - 1));
    }
    match tokens[2 * j + 1] {
        Token::Plus => line.append(" + "),
        Token::Multiply => line.append(" * "),
        _ => {
            proof {
                assert(false);
            }
        },
    }
    let v = number_value(tokens[2 * j + 2]);
    push_decimal(&mut line, v);
    proof {
        assert(line@ =~= instr_text(tokens@, j as int));
    }
    line
}

/// Turns a grammatical token sequence into the program text: one
/// three-address instruction per operator, chained through fresh variables,
/// then the final variable's name. Ungrammatical input is a grammar error;
/// needing more instructions than the alphabet has letters is a capacity
/// error.
pub fn compile_from_flat_list(tokens: &Vec<Token>) -> (r: Result<Vec<String>, ExpandError>)
    requires
        tokens_valid(tokens@),
    ensures
        !wf_tokens(tokens@) ==> r == Err::<Vec<String>, ExpandError>(ExpandError::Grammar),
        wf_tokens(tokens@) && num_instrs(tokens@) > alphabet().len() ==> r == Err::<
            Vec<String>,
            ExpandError,
        >(ExpandError::Capacity),
        wf_tokens(tokens@) && num_instrs(tokens@) <= alphabet().len() ==> (r matches Ok(out)
            && out.deep_view() == program_text(tokens@)),
{
    if !check_grammar(tokens) {
        return Err(ExpandError::Grammar);
    }
    let n = tokens.len();
    let k = (n - 1) / 2;
    if k > 26 {
        return Err(ExpandError::Capacity);
    }
    let mut out: Vec<String> = Vec::new();
    let mut j: usize = 0;
    while j < k
        invariant
            wf_tokens(tokens@),
            tokens_valid(tokens@),
            k == num_instrs(tokens@),
            k <= 26,
            j <= k,
            out@.len() == j,
            forall|m: int| 0 <= m < j ==> (#[trigger] out@[m])@ == instr_text(tokens@, m),
        decreases k - j,
    {
        let line = render_instr(tokens, j);
        out.push(line);
        j = j + 1;
    }
    let mut last = String::new();
    last.append(letter_str(k - 1));
    out.push(last);
    proof {
        assert(out.deep_view() =~= program_text(tokens@)) by {
            assert(out@.len() == k + 1);
            assert forall|m: int| 0 <= m < k + 1 implies out.deep_view()[m] == program_text(
                tokens@,
            )[m] by {
                assert(out.deep_view()[m] == (out@[m])@);
                if m < k {
                    assert((out@[m])@ == instr_text(tokens@, m));
                } else {
                    assert((out@[m])@ =~= seq![var_char(k - 1)]);
                }
            }
        }
    }
    Ok(out)
}

} // verus!
