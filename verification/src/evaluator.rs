//! The evaluator: reduces a token sequence, by the operator-precedence
//! discipline, to a straight-line numeric program.
//!
//! Numbers are opaque to the engine, so the evaluator does not compute the
//! result itself: it runs the classic two-stack reduction over token kinds -
//! precedence, associativity (`^` chains to the right, everything else to
//! the left), unary minus, parenthesis matching, arity checks - and emits
//! the arithmetic as a postfix [`Instr`] program for the host to run over
//! its numeric domain. Everything the host is *not* allowed to decide is
//! decided and verified here; a program that comes out `Ok` is proved to
//! run without stack underflow to exactly one result ([`program_wf`]).
//!
//! Calls to built-in functions take literal numeric arguments and become
//! [`Instr::Call`] instructions. A call to a registered custom function is
//! resolved at this stage: its text is rebuilt, expanded by the macro
//! expander, re-tokenized, evaluated recursively (to a nesting cap), and
//! the resulting subprogram is spliced in.

use crate::functions::{spec_expand, spec_lookup, CustomFunctionV, ExpandError, FunctionTable};
use crate::parser::{
    lex_err_view, num_view, spec_tokenize, tok_view, toks_view, LexErrV, LexError, Numeral,
    NumeralV, TokV, Token,
};
use crate::text::{lower, spec_lower, string_push};
use vstd::prelude::*;
use vstd::string::StringExecFns;

verus! {

broadcast use vstd::std_specs::vec::group_vec_axioms, vstd::seq::group_seq_axioms;

/// A binary arithmetic operator.
#[derive(Debug, Clone, Copy, PartialEq, Eq, Structural)]
pub enum BinOp {
    Add,
    Subtract,
    Multiply,
    Divide,
    Modulo,
    Power,
}

/// A built-in function of the calculator.
#[derive(Debug, Clone, Copy, PartialEq, Eq, Structural)]
pub enum Builtin {
    Sin,
    Cos,
    Tan,
    ArcSin,
    ArcCos,
    ArcTan,
    Log,
    Exp,
    Factorial,
    Comb,
    Perm,
}

/// How many arguments a built-in function takes.
pub open spec fn builtin_arity(b: Builtin) -> int {
    match b {
        Builtin::Comb => 2,
        Builtin::Perm => 2,
        _ => 1,
    }
}

/// One instruction of the numeric program the evaluator emits. The host
/// runs the program over a stack of numbers: `Push` pushes a literal or a
/// constant, `Apply` pops the right then the left operand and pushes the
/// operation's result, `Negate` negates the top, and `Call` pops a built-in
/// function's arguments ([`builtin_arity`] many) and pushes its result.
#[derive(Debug, PartialEq)]
pub enum Instr {
    Push(Numeral),
    Apply(BinOp),
    Negate,
    Call(Builtin),
}

/// The mathematical image of an [`Instr`].
pub enum InstrV {
    Push(NumeralV),
    Apply(BinOp),
    Negate,
    Call(Builtin),
}

pub open spec fn instr_view(i: Instr) -> InstrV {
    match i {
        Instr::Push(n) => InstrV::Push(num_view(n)),
        Instr::Apply(b) => InstrV::Apply(b),
        Instr::Negate => InstrV::Negate,
        Instr::Call(b) => InstrV::Call(b),
    }
}

/// The mathematical image of a program.
pub open spec fn instrs_view(is: Seq<Instr>) -> Seq<InstrV> {
    is.map_values(|i: Instr| instr_view(i))
}

/// A pending operator on the evaluator's operator stack.
#[derive(Debug, Clone, Copy, PartialEq, Eq, Structural)]
pub enum OpTok {
    Bin(BinOp),
    LeftParen,
    UnaryMinus,
}

/// A failure of evaluation. The structural and function-call variants are
/// produced while the program is built; the arithmetic-domain variants are
/// produced by the host running it.
#[derive(Debug, Clone, PartialEq)]
pub enum EvalError {
    /// The token sequence is empty.
    EmptyExpression,
    /// A parenthesis without a partner.
    MismatchedParens,
    /// An operator with too few operands.
    MissingOperand,
    /// More than one value left at the end.
    StackImbalance,
    /// No value left at the end.
    NoResult,
    /// A call to a name that is neither built in nor registered.
    UndefinedFunction(String),
    /// A built-in call with the wrong number of arguments.
    WrongArgumentCount(String),
    /// A call whose arguments are not all literal numbers.
    NonNumericArgument(String),
    /// Macro expansion of a custom call failed.
    Expand(ExpandError),
    /// Re-tokenization of an expanded custom call failed.
    Lex(LexError),
    /// Custom calls nested deeper than the expansion cap.
    ExpansionDepthExceeded,
    /// Division with divisor zero.
    DivisionByZero,
    /// Modulo with an operand that is not an integer.
    NonIntegerModulo,
    /// Modulo with divisor zero.
    ModuloByZero,
    /// `0^0`.
    UndefinedZeroPowerZero,
    /// A negative base under a fractional exponent.
    NegativeFractionalPower,
    /// A power whose primitive result is not a number.
    InvalidPower,
    /// A built-in function applied outside its domain.
    ArgumentDomainError(String),
    /// Overflow computing a factorial.
    FactorialOverflow,
    /// Overflow computing a combination or permutation.
    CombinationOverflow,
}

impl EvalError {
    /// A human-readable description of the failure.
    pub fn message(&self) -> (r: String)
        ensures
            r@ == match *self {
                EvalError::EmptyExpression => "Empty expression"@,
                EvalError::MismatchedParens => "Mismatched parentheses"@,
                EvalError::MissingOperand => "Missing operand"@,
                EvalError::StackImbalance => "Too many values in the stack"@,
                EvalError::NoResult => "No result produced"@,
                EvalError::UndefinedFunction(name) => "Function is not defined: "@ + name@,
                EvalError::WrongArgumentCount(name) => "Wrong number of arguments: "@ + name@,
                EvalError::NonNumericArgument(name) => "Function arguments must be numbers: "@
                    + name@,
                EvalError::Expand(_) => "Custom function argument count mismatch"@,
                EvalError::Lex(le) => match le {
                    LexError::UnexpectedCharacter(c) => "Unexpected character: "@.push(c),
                    LexError::InvalidNumber => "Invalid number format"@,
                    LexError::UnknownIdentifier(name) => "Unexpected identifier: "@ + name@,
                    LexError::UnclosedArguments => "Unclosed function arguments"@,
                },
                EvalError::ExpansionDepthExceeded => "Custom function calls nest too deeply"@,
                EvalError::DivisionByZero => "Division by zero"@,
                EvalError::NonIntegerModulo => "Modulo operation requires integer operands"@,
                EvalError::ModuloByZero => "Modulo by zero"@,
                EvalError::UndefinedZeroPowerZero => "Undefined operation: 0^0"@,
                EvalError::NegativeFractionalPower => "Negative base with fractional exponent is undefined"@,
                EvalError::InvalidPower => "Invalid power operation"@,
                EvalError::ArgumentDomainError(name) => "Argument out of domain: "@ + name@,
                EvalError::FactorialOverflow => "Factorial overflow"@,
                EvalError::CombinationOverflow => "Combination overflow"@,
            },
    {
        match self {
            EvalError::EmptyExpression => "Empty expression".to_owned(),
            EvalError::MismatchedParens => "Mismatched parentheses".to_owned(),
            EvalError::MissingOperand => "Missing operand".to_owned(),
            EvalError::StackImbalance => "Too many values in the stack".to_owned(),
            EvalError::NoResult => "No result produced".to_owned(),
            EvalError::UndefinedFunction(name) => {
                let mut s = "Function is not defined: ".to_owned();
                s.append(name.as_str());
                s
            },
            EvalError::WrongArgumentCount(name) => {
                let mut s = "Wrong number of arguments: ".to_owned();
                s.append(name.as_str());
                s
            },
            EvalError::NonNumericArgument(name) => {
                let mut s = "Function arguments must be numbers: ".to_owned();
                s.append(name.as_str());
                s
            },
            EvalError::Expand(x) => x.message(),
            EvalError::Lex(le) => le.message(),
            EvalError::ExpansionDepthExceeded => "Custom function calls nest too deeply".to_owned(),
            EvalError::DivisionByZero => "Division by zero".to_owned(),
            EvalError::NonIntegerModulo => "Modulo operation requires integer operands".to_owned(),
            EvalError::ModuloByZero => "Modulo by zero".to_owned(),
            EvalError::UndefinedZeroPowerZero => "Undefined operation: 0^0".to_owned(),
            EvalError::NegativeFractionalPower => {
                "Negative base with fractional exponent is undefined".to_owned()
            },
            EvalError::InvalidPower => "Invalid power operation".to_owned(),
            EvalError::ArgumentDomainError(name) => {
                let mut s = "Argument out of domain: ".to_owned();
                s.append(name.as_str());
                s
            },
            EvalError::FactorialOverflow => "Factorial overflow".to_owned(),
            EvalError::CombinationOverflow => "Combination overflow".to_owned(),
        }
    }
}

/// The mathematical image of an [`EvalError`].
pub enum EvalErrV {
    EmptyExpression,
    MismatchedParens,
    MissingOperand,
    StackImbalance,
    NoResult,
    UndefinedFunction(Seq<char>),
    WrongArgumentCount(Seq<char>),
    NonNumericArgument(Seq<char>),
    Expand(ExpandError),
    Lex(LexErrV),
    ExpansionDepthExceeded,
    DivisionByZero,
    NonIntegerModulo,
    ModuloByZero,
    UndefinedZeroPowerZero,
    NegativeFractionalPower,
    InvalidPower,
    ArgumentDomainError(Seq<char>),
    FactorialOverflow,
    CombinationOverflow,
}

pub open spec fn eval_err_view(e: EvalError) -> EvalErrV {
    match e {
        EvalError::EmptyExpression => EvalErrV::EmptyExpression,
        EvalError::MismatchedParens => EvalErrV::MismatchedParens,
        EvalError::MissingOperand => EvalErrV::MissingOperand,
        EvalError::StackImbalance => EvalErrV::StackImbalance,
        EvalError::NoResult => EvalErrV::NoResult,
        EvalError::UndefinedFunction(s) => EvalErrV::UndefinedFunction(s@),
        EvalError::WrongArgumentCount(s) => EvalErrV::WrongArgumentCount(s@),
        EvalError::NonNumericArgument(s) => EvalErrV::NonNumericArgument(s@),
        EvalError::Expand(x) => EvalErrV::Expand(x),
        EvalError::Lex(x) => EvalErrV::Lex(lex_err_view(x)),
        EvalError::ExpansionDepthExceeded => EvalErrV::ExpansionDepthExceeded,
        EvalError::DivisionByZero => EvalErrV::DivisionByZero,
        EvalError::NonIntegerModulo => EvalErrV::NonIntegerModulo,
        EvalError::ModuloByZero => EvalErrV::ModuloByZero,
        EvalError::UndefinedZeroPowerZero => EvalErrV::UndefinedZeroPowerZero,
        EvalError::NegativeFractionalPower => EvalErrV::NegativeFractionalPower,
        EvalError::InvalidPower => EvalErrV::InvalidPower,
        EvalError::ArgumentDomainError(s) => EvalErrV::ArgumentDomainError(s@),
        EvalError::FactorialOverflow => EvalErrV::FactorialOverflow,
        EvalError::CombinationOverflow => EvalErrV::CombinationOverflow,
    }
}

/// The state of the reduction: the pending operators, how many values the
/// host's stack will hold at this point, and the program emitted so far.
pub struct EvalStV {
    pub ops: Seq<OpTok>,
    pub depth: int,
    pub prog: Seq<InstrV>,
}

/// Case-insensitive (ASCII) equality of a name against a lower-case word.
pub open spec fn lower_eq(name: Seq<char>, word: Seq<char>) -> bool {
    name.len() == word.len() && forall|k: int|
        0 <= k < name.len() ==> spec_lower(#[trigger] name[k]) == word[k] as u32
}

/// The built-in function a name denotes, compared without regard to ASCII
/// case. `fact` and `factorial` both name the factorial.
pub open spec fn builtin_of(name: Seq<char>) -> Option<Builtin> {
    if lower_eq(name, seq!['s', 'i', 'n']) {
        Some(Builtin::Sin)
    } else if lower_eq(name, seq!['c', 'o', 's']) {
        Some(Builtin::Cos)
    } else if lower_eq(name, seq!['t', 'a', 'n']) {
        Some(Builtin::Tan)
    } else if lower_eq(name, seq!['a', 'r', 'c', 's', 'i', 'n']) {
        Some(Builtin::ArcSin)
    } else if lower_eq(name, seq!['a', 'r', 'c', 'c', 'o', 's']) {
        Some(Builtin::ArcCos)
    } else if lower_eq(name, seq!['a', 'r', 'c', 't', 'a', 'n']) {
        Some(Builtin::ArcTan)
    } else if lower_eq(name, seq!['l', 'o', 'g']) {
        Some(Builtin::Log)
    } else if lower_eq(name, seq!['e', 'x', 'p']) {
        Some(Builtin::Exp)
    } else if lower_eq(name, seq!['f', 'a', 'c', 't']) || lower_eq(
        name,
        seq!['f', 'a', 'c', 't', 'o', 'r', 'i', 'a', 'l'],
    ) {
        Some(Builtin::Factorial)
    } else if lower_eq(name, seq!['c', 'o', 'm', 'b']) {
        Some(Builtin::Comb)
    } else if lower_eq(name, seq!['p', 'e', 'r', 'm']) {
        Some(Builtin::Perm)
    } else {
        None
    }
}

/// Pops the top pending operator and emits its instruction: a unary minus
/// becomes `Negate` (one operand), a binary operator becomes `Apply` (two
/// operands, net one fewer value). A left parenthesis still pending can only
/// be met in the final drain and is an unmatched parenthesis.
pub open spec fn spec_pop_apply(st: EvalStV) -> Result<EvalStV, EvalErrV> {
    if st.ops.len() == 0 {
        Err(EvalErrV::MissingOperand)
    } else {
        match st.ops.last() {
            OpTok::UnaryMinus => if st.depth >= 1 {
                Ok(
                    EvalStV {
                        ops: st.ops.drop_last(),
                        depth: st.depth,
                        prog: st.prog.push(InstrV::Negate),
                    },
                )
            } else {
                Err(EvalErrV::MissingOperand)
            },
            OpTok::Bin(b) => if st.depth >= 2 {
                Ok(
                    EvalStV {
                        ops: st.ops.drop_last(),
                        depth: st.depth - 1,
                        prog: st.prog.push(InstrV::Apply(b)),
                    },
                )
            } else {
                Err(EvalErrV::MissingOperand)
            },
            OpTok::LeftParen => Err(EvalErrV::MismatchedParens),
        }
    }
}

/// Which pending operators an incoming binary operator forces out first.
#[derive(Debug, Clone, Copy, PartialEq, Eq, Structural)]
pub enum PopClass {
    /// An incoming `+` or `-` (the lowest tier) pops every pending operator
    /// down to a left parenthesis.
    Additive,
    /// An incoming `*`, `/` or `%` pops pending `*`, `/`, `%` and `^` only:
    /// in particular a pending unary minus stays, binding the whole product
    /// to its left.
    Multiplicative,
}

pub open spec fn should_pop(class: PopClass, op: OpTok) -> bool {
    match class {
        PopClass::Additive => !(op is LeftParen),
        PopClass::Multiplicative => op matches OpTok::Bin(b) && (b is Multiply || b is Divide
            || b is Modulo || b is Power),
    }
}

/// Pops and applies pending operators while the top falls under `class`.
pub open spec fn spec_reduce(class: PopClass, st: EvalStV) -> Result<EvalStV, EvalErrV>
    decreases st.ops.len(),
{
    if st.ops.len() == 0 || !should_pop(class, st.ops.last()) {
        Ok(st)
    } else {
        match spec_pop_apply(st) {
            Ok(st2) => spec_reduce(class, st2),
            Err(e) => Err(e),
        }
    }
}

/// Handles a right parenthesis: pops and applies until the matching left
/// parenthesis (failing `MismatchedParens` if none is pending), removes it,
/// and applies a unary minus immediately wrapping the group, if any.
pub open spec fn spec_close_paren(st: EvalStV) -> Result<EvalStV, EvalErrV>
    decreases st.ops.len(),
{
    if st.ops.len() == 0 {
        Err(EvalErrV::MismatchedParens)
    } else if st.ops.last() is LeftParen {
        let st2 = EvalStV { ops: st.ops.drop_last(), depth: st.depth, prog: st.prog };
        if st2.ops.len() > 0 && st2.ops.last() is UnaryMinus {
            spec_pop_apply(st2)
        } else {
            Ok(st2)
        }
    } else {
        match spec_pop_apply(st) {
            Ok(st2) => spec_close_paren(st2),
            Err(e) => Err(e),
        }
    }
}

/// Drains the operator stack after the scan, applying in stack order; a left
/// parenthesis still pending is an unmatched parenthesis.
pub open spec fn spec_drain(st: EvalStV) -> Result<EvalStV, EvalErrV>
    decreases st.ops.len(),
{
    if st.ops.len() == 0 {
        Ok(st)
    } else {
        match spec_pop_apply(st) {
            Ok(st2) => spec_drain(st2),
            Err(e) => Err(e),
        }
    }
}

/// Whether every token of a call's argument list is a literal number.
pub open spec fn all_numbers(args: Seq<TokV>) -> bool {
    forall|k: int| 0 <= k < args.len() ==> (#[trigger] args[k]) is Number
}

/// The text a numeral reads back as.
pub open spec fn numeral_text(n: NumeralV) -> Seq<char> {
    match n {
        NumeralV::Literal(t) => t,
        NumeralV::Pi => seq!['p', 'i'],
        NumeralV::Euler => seq!['e'],
    }
}

/// The comma-separated texts of a call's literal arguments.
pub open spec fn args_text(args: Seq<TokV>, k: int) -> Seq<char>
    decreases args.len() - k,
{
    if !(0 <= k && k < args.len()) {
        Seq::empty()
    } else {
        (if k > 0 {
            seq![',']
        } else {
            Seq::empty()
        }) + numeral_text(args[k]->Number_0) + args_text(args, k + 1)
    }
}

/// The textual call rebuilt for the macro expander: `name(a1,a2,...)`.
pub open spec fn rebuild_call(name: Seq<char>, args: Seq<TokV>) -> Seq<char> {
    name + seq!['('] + args_text(args, 0) + seq![')']
}

/// The instructions that push a call's literal arguments, in order.
pub open spec fn args_pushes(args: Seq<TokV>, k: int) -> Seq<InstrV>
    decreases args.len() - k,
{
    if !(0 <= k && k < args.len()) {
        Seq::empty()
    } else {
        seq![InstrV::Push(args[k]->Number_0)] + args_pushes(args, k + 1)
    }
}

/// How deep custom-function calls may resolve through nested expansion.
/// The expander's pass cap bounds each textual expansion; this bounds the
/// recursion through rebuild-expand-tokenize-evaluate, which cyclic
/// definitions could otherwise drive forever.
pub const CALL_NESTING_LIMIT: u64 = 20;

/// The evaluation of one call token.
pub open spec fn spec_eval_call(
    name: Seq<char>,
    args: Seq<TokV>,
    st: EvalStV,
    fs: Seq<(Seq<char>, CustomFunctionV)>,
    fuel: nat,
) -> Result<EvalStV, EvalErrV>
    decreases fuel, 0int, 0int,
{
    match builtin_of(name) {
        Some(b) => {
            if args.len() != builtin_arity(b) {
                Err(EvalErrV::WrongArgumentCount(name))
            } else if !all_numbers(args) {
                Err(EvalErrV::NonNumericArgument(name))
            } else {
                Ok(
                    EvalStV {
                        ops: st.ops,
                        depth: st.depth + 1,
                        prog: st.prog + args_pushes(args, 0) + seq![InstrV::Call(b)],
                    },
                )
            }
        },
        None => match spec_lookup(fs, name) {
            None => Err(EvalErrV::UndefinedFunction(name)),
            Some(_) => if !all_numbers(args) {
                Err(EvalErrV::NonNumericArgument(name))
            } else if fuel == 0 {
                Err(EvalErrV::ExpansionDepthExceeded)
            } else {
                match spec_expand(rebuild_call(name, args), fs) {
                    Err(x) => Err(EvalErrV::Expand(x)),
                    Ok(ex) => match spec_tokenize(ex) {
                        Err(le) => Err(EvalErrV::Lex(le)),
                        Ok(toks2) => match spec_evaluate(toks2, fs, (fuel - 1) as nat) {
                            Err(e) => Err(e),
                            Ok(sub) => Ok(
                                EvalStV { ops: st.ops, depth: st.depth + 1, prog: st.prog + sub },
                            ),
                        },
                    },
                }
            },
        },
    }
}

/// The effect of one token on the reduction state.
pub open spec fn spec_step(
    t: TokV,
    st: EvalStV,
    fs: Seq<(Seq<char>, CustomFunctionV)>,
    fuel: nat,
) -> Result<EvalStV, EvalErrV>
    decreases fuel, 0int, 1int,
{
    match t {
        TokV::Number(n) => Ok(
            EvalStV { ops: st.ops, depth: st.depth + 1, prog: st.prog.push(InstrV::Push(n)) },
        ),
        TokV::LeftParen => Ok(
            EvalStV { ops: st.ops.push(OpTok::LeftParen), depth: st.depth, prog: st.prog },
        ),
        TokV::RightParen => spec_close_paren(st),
        TokV::UnaryMinus => Ok(
            EvalStV { ops: st.ops.push(OpTok::UnaryMinus), depth: st.depth, prog: st.prog },
        ),
        TokV::Add => match spec_reduce(PopClass::Additive, st) {
            Ok(st2) => Ok(
                EvalStV {
                    ops: st2.ops.push(OpTok::Bin(BinOp::Add)),
                    depth: st2.depth,
                    prog: st2.prog,
                },
            ),
            Err(e) => Err(e),
        },
        TokV::Subtract => match spec_reduce(PopClass::Additive, st) {
            Ok(st2) => Ok(
                EvalStV {
                    ops: st2.ops.push(OpTok::Bin(BinOp::Subtract)),
                    depth: st2.depth,
                    prog: st2.prog,
                },
            ),
            Err(e) => Err(e),
        },
        TokV::Multiply => match spec_reduce(PopClass::Multiplicative, st) {
            Ok(st2) => Ok(
                EvalStV {
                    ops: st2.ops.push(OpTok::Bin(BinOp::Multiply)),
                    depth: st2.depth,
                    prog: st2.prog,
                },
            ),
            Err(e) => Err(e),
        },
        TokV::Divide => match spec_reduce(PopClass::Multiplicative, st) {
            Ok(st2) => Ok(
                EvalStV {
                    ops: st2.ops.push(OpTok::Bin(BinOp::Divide)),
                    depth: st2.depth,
                    prog: st2.prog,
                },
            ),
            Err(e) => Err(e),
        },
        TokV::Modulo => match spec_reduce(PopClass::Multiplicative, st) {
            Ok(st2) => Ok(
                EvalStV {
                    ops: st2.ops.push(OpTok::Bin(BinOp::Modulo)),
                    depth: st2.depth,
                    prog: st2.prog,
                },
            ),
            Err(e) => Err(e),
        },
        TokV::Power => Ok(
            EvalStV { ops: st.ops.push(OpTok::Bin(BinOp::Power)), depth: st.depth, prog: st.prog },
        ),
        TokV::FunctionCall(name, args) => spec_eval_call(name, args, st, fs, fuel),
    }
}

/// The reduction, token by token, from state `st`.
pub open spec fn spec_eval_tokens(
    toks: Seq<TokV>,
    st: EvalStV,
    fs: Seq<(Seq<char>, CustomFunctionV)>,
    fuel: nat,
) -> Result<EvalStV, EvalErrV>
    decreases fuel, toks.len(), 0int,
{
    if toks.len() == 0 {
        Ok(st)
    } else {
        match spec_step(toks[0], st, fs, fuel) {
            Ok(st2) => spec_eval_tokens(toks.skip(1), st2, fs, fuel),
            Err(e) => Err(e),
        }
    }
}

/// Decides [`lower_eq`].
fn lower_matches(nm: &Vec<char>, word: &Vec<char>) -> (r: bool)
    ensures
        r == lower_eq(nm@, word@),
{
    let n = nm.len();
    if word.len() != n {
        return false;
    }
    let mut k: usize = 0;
    while k < n
        invariant
            k <= n == nm@.len() && n == word@.len(),
            forall|m: int| 0 <= m < k ==> spec_lower(#[trigger] nm@[m]) == word@[m] as u32,
        decreases n - k,
    {
        if lower(nm[k]) != word[k] as u32 {
            return false;
        }
        k = k + 1;
    }
    true
}

/// Decides [`builtin_of`].
fn builtin_lookup(nm: &Vec<char>) -> (r: Option<Builtin>)
    ensures
        r == builtin_of(nm@),
{
    if lower_matches(nm, &vec!['s', 'i', 'n']) {
        Some(Builtin::Sin)
    } else if lower_matches(nm, &vec!['c', 'o', 's']) {
        Some(Builtin::Cos)
    } else if lower_matches(nm, &vec!['t', 'a', 'n']) {
        Some(Builtin::Tan)
    } else if lower_matches(nm, &vec!['a', 'r', 'c', 's', 'i', 'n']) {
        Some(Builtin::ArcSin)
    } else if lower_matches(nm, &vec!['a', 'r', 'c', 'c', 'o', 's']) {
        Some(Builtin::ArcCos)
    } else if lower_matches(nm, &vec!['a', 'r', 'c', 't', 'a', 'n']) {
        Some(Builtin::ArcTan)
    } else if lower_matches(nm, &vec!['l', 'o', 'g']) {
        Some(Builtin::Log)
    } else if lower_matches(nm, &vec!['e', 'x', 'p']) {
        Some(Builtin::Exp)
    } else if lower_matches(nm, &vec!['f', 'a', 'c', 't']) || lower_matches(
        nm,
        &vec!['f', 'a', 'c', 't', 'o', 'r', 'i', 'a', 'l'],
    ) {
        Some(Builtin::Factorial)
    } else if lower_matches(nm, &vec!['c', 'o', 'm', 'b']) {
        Some(Builtin::Comb)
    } else if lower_matches(nm, &vec!['p', 'e', 'r', 'm']) {
        Some(Builtin::Perm)
    } else {
        None
    }
}

/// Decides [`builtin_arity`].
fn arity_of(b: Builtin) -> (r: usize)
    ensures
        r == builtin_arity(b),
{
    match b {
        Builtin::Comb => 2,
        Builtin::Perm => 2,
        _ => 1,
    }
}

/// Decides [`should_pop`].
fn should_pop_op(class: PopClass, op: OpTok) -> (r: bool)
    ensures
        r == should_pop(class, op),
{
    match class {
        PopClass::Additive => !matches!(op, OpTok::LeftParen),
        PopClass::Multiplicative => match op {
            OpTok::Bin(BinOp::Multiply) => true,
            OpTok::Bin(BinOp::Divide) => true,
            OpTok::Bin(BinOp::Modulo) => true,
            OpTok::Bin(BinOp::Power) => true,
            _ => false,
        },
    }
}

/// The current state of the exec reduction, as the spec sees it.
pub open spec fn st_of(ops: Seq<OpTok>, depth: int, prog: Seq<Instr>) -> EvalStV {
    EvalStV { ops: ops, depth: depth, prog: instrs_view(prog) }
}

/// Pops the top pending operator and emits its instruction: [`spec_pop_apply`].
fn pop_apply(ops: &mut Vec<OpTok>, depth: &mut usize, prog: &mut Vec<Instr>) -> (r: Result<
    (),
    EvalError,
>)
    requires
        old(ops)@.len() > 0,
    ensures
        match r {
            Ok(()) => *final(depth) <= *old(depth) && spec_pop_apply(
                st_of(old(ops)@, *old(depth) as int, old(prog)@),
            ) == Ok::<EvalStV, EvalErrV>(st_of(final(ops)@, *final(depth) as int, final(prog)@)),
            Err(e) => spec_pop_apply(st_of(old(ops)@, *old(depth) as int, old(prog)@)) == Err::<EvalStV, EvalErrV>(
                eval_err_view(e),
            ),
        },
{
    let op = ops[ops.len() - 1];
    match op {
        OpTok::UnaryMinus => {
            if *depth >= 1 {
                ops.pop();
                let ghost prog_old = prog@;
                prog.push(Instr::Negate);
                proof {
                    assert(instrs_view(prog@) =~= instrs_view(prog_old).push(InstrV::Negate));
                }
                Ok(())
            } else {
                Err(EvalError::MissingOperand)
            }
        },
        OpTok::Bin(b) => {
            if *depth >= 2 {
                ops.pop();
                *depth = *depth - 1;
                let ghost prog_old = prog@;
                prog.push(Instr::Apply(b));
                proof {
                    assert(instrs_view(prog@) =~= instrs_view(prog_old).push(InstrV::Apply(b)));
                }
                Ok(())
            } else {
                Err(EvalError::MissingOperand)
            }
        },
        OpTok::LeftParen => Err(EvalError::MismatchedParens),
    }
}

/// Pops and applies pending operators while the top falls under `class`:
/// [`spec_reduce`].
fn reduce(class: PopClass, ops: &mut Vec<OpTok>, depth: &mut usize, prog: &mut Vec<Instr>) -> (r:
    Result<(), EvalError>)
    ensures
        match r {
            Ok(()) => *final(depth) <= *old(depth) && spec_reduce(class, st_of(old(ops)@, *old(depth) as int, old(prog)@)) == Ok::<EvalStV, EvalErrV>(
                st_of(final(ops)@, *final(depth) as int, final(prog)@),
            ),
            Err(e) => spec_reduce(class, st_of(old(ops)@, *old(depth) as int, old(prog)@)) == Err::<EvalStV, EvalErrV>(
                eval_err_view(e),
            ),
        },
{
    loop
        invariant
            *depth <= *old(depth),
            spec_reduce(class, st_of(old(ops)@, *old(depth) as int, old(prog)@)) == spec_reduce(
                class,
                st_of(ops@, *depth as int, prog@),
            ),
        decreases ops@.len(),
    {
        if ops.len() == 0 {
            return Ok(());
        }
        let top = ops[ops.len() - 1];
        if !should_pop_op(class, top) {
            return Ok(());
        }
        match pop_apply(ops, depth, prog) {
            Ok(()) => {},
            Err(e) => {
                return Err(e);
            },
        }
    }
}

/// Handles a right parenthesis: [`spec_close_paren`].
fn close_paren(ops: &mut Vec<OpTok>, depth: &mut usize, prog: &mut Vec<Instr>) -> (r: Result<
    (),
    EvalError,
>)
    ensures
        match r {
            Ok(()) => *final(depth) <= *old(depth) && spec_close_paren(st_of(old(ops)@, *old(depth) as int, old(prog)@)) == Ok::<EvalStV, EvalErrV>(
                st_of(final(ops)@, *final(depth) as int, final(prog)@),
            ),
            Err(e) => spec_close_paren(st_of(old(ops)@, *old(depth) as int, old(prog)@)) == Err::<EvalStV, EvalErrV>(
                eval_err_view(e),
            ),
        },
{
    loop
        invariant
            *depth <= *old(depth),
            spec_close_paren(st_of(old(ops)@, *old(depth) as int, old(prog)@))
                == spec_close_paren(st_of(ops@, *depth as int, prog@)),
        decreases ops@.len(),
    {
        if ops.len() == 0 {
            return Err(EvalError::MismatchedParens);
        }
        let top = ops[ops.len() - 1];
        if matches!(top, OpTok::LeftParen) {
            ops.pop();
            if ops.len() > 0 && matches!(ops[ops.len() - 1], OpTok::UnaryMinus) {
                return pop_apply(ops, depth, prog);
            }
            return Ok(());
        }
        match pop_apply(ops, depth, prog) {
            Ok(()) => {},
            Err(e) => {
                return Err(e);
            },
        }
    }
}

/// Drains the operator stack after the scan: [`spec_drain`].
fn drain(ops: &mut Vec<OpTok>, depth: &mut usize, prog: &mut Vec<Instr>) -> (r: Result<
    (),
    EvalError,
>)
    ensures
        match r {
            Ok(()) => *final(depth) <= *old(depth) && spec_drain(st_of(old(ops)@, *old(depth) as int, old(prog)@)) == Ok::<EvalStV, EvalErrV>(
                st_of(final(ops)@, *final(depth) as int, final(prog)@),
            ),
            Err(e) => spec_drain(st_of(old(ops)@, *old(depth) as int, old(prog)@)) == Err::<EvalStV, EvalErrV>(
                eval_err_view(e),
            ),
        },
{
    loop
        invariant
            *depth <= *old(depth),
            spec_drain(st_of(old(ops)@, *old(depth) as int, old(prog)@)) == spec_drain(
                st_of(ops@, *depth as int, prog@),
            ),
        decreases ops@.len(),
    {
        if ops.len() == 0 {
            return Ok(());
        }
        match pop_apply(ops, depth, prog) {
            Ok(()) => {},
            Err(e) => {
                return Err(e);
            },
        }
    }
}

/// The program a token sequence evaluates to: the single left-to-right pass
/// from the empty state, the final drain of pending operators, and the check
/// that exactly one value remains.
pub open spec fn spec_evaluate(
    toks: Seq<TokV>,
    fs: Seq<(Seq<char>, CustomFunctionV)>,
    fuel: nat,
) -> Result<Seq<InstrV>, EvalErrV>
    decreases fuel, toks.len(), 1int,
{
    if toks.len() == 0 {
        Err(EvalErrV::EmptyExpression)
    } else {
        match spec_eval_tokens(
            toks,
            EvalStV { ops: Seq::empty(), depth: 0, prog: Seq::empty() },
            fs,
            fuel,
        ) {
            Err(e) => Err(e),
            Ok(st) => match spec_drain(st) {
                Err(e) => Err(e),
                Ok(st2) => if st2.depth == 1 {
                    Ok(st2.prog)
                } else if st2.depth == 0 {
                    Err(EvalErrV::NoResult)
                } else {
                    Err(EvalErrV::StackImbalance)
                },
            },
        }
    }
}

pub open spec fn eval_result_view(r: Result<Vec<Instr>, EvalError>) -> Result<
    Seq<InstrV>,
    EvalErrV,
> {
    match r {
        Ok(p) => Ok(instrs_view(p@)),
        Err(e) => Err(eval_err_view(e)),
    }
}

#[verifier::loop_isolation(false)]
#[verifier::rlimit(100)]
fn evaluate_with_fuel(tokens: &[Token], funcs: &FunctionTable, fuel: u64) -> (r: Result<
    Vec<Instr>,
    EvalError,
>)
    ensures
        eval_result_view(r) == spec_evaluate(toks_view(tokens@), funcs@, fuel as nat),
    decreases fuel,
{
    let ghost toksv = toks_view(tokens@);
    let ghost fs = funcs@;
    let ghost fueln = fuel as nat;
    let ghost st0 = EvalStV { ops: Seq::empty(), depth: 0, prog: Seq::empty() };
    let n = tokens.len();
    proof {
        crate::parser::lemma_toks_view(tokens@);
    }
    if n == 0 {
        return Err(EvalError::EmptyExpression);
    }
    let mut ops: Vec<OpTok> = Vec::new();
    let mut depth: usize = 0;
    let mut prog: Vec<Instr> = Vec::new();
    proof {
        assert(instrs_view(prog@) =~= Seq::<InstrV>::empty());
        assert(toksv.skip(0) =~= toksv);
        assert(st_of(ops@, 0, prog@) == st0);
    }
    let mut i: usize = 0;
    while i < n
        invariant
            i <= n == tokens@.len(),
            depth <= i,
            toksv == toks_view(tokens@),
            toksv.len() == n,
            fs == funcs@,
            fueln == fuel as nat,
            st0 == (EvalStV { ops: Seq::empty(), depth: 0, prog: Seq::empty() }),
            spec_eval_tokens(toksv, st0, fs, fueln) == spec_eval_tokens(
                toksv.skip(i as int),
                st_of(ops@, depth as int, prog@),
                fs,
                fueln,
            ),
        decreases n - i,
    {
        let ghost st_cur = st_of(ops@, depth as int, prog@);
        let ghost rest = toksv.skip(i as int);
        proof {
            crate::parser::lemma_toks_view(tokens@);
            assert(rest[0] == toksv[i as int]);
            assert(toksv[i as int] == tok_view(tokens@[i as int]));
            assert(rest.skip(1) =~= toksv.skip(i as int + 1));
        }
        match &tokens[i] {
            Token::Number(num) => {
                let ghost prog_old = prog@;
                prog.push(Instr::Push(num.clone()));
                depth = depth + 1;
                proof {
                    assert(instrs_view(prog@) =~= instrs_view(prog_old).push(
                        InstrV::Push(num_view(*num)),
                    ));
                    assert(spec_step(rest[0], st_cur, fs, fueln) == Ok::<EvalStV, EvalErrV>(
                        st_of(ops@, depth as int, prog@),
                    ));
                    assert(spec_eval_tokens(rest, st_cur, fs, fueln) == spec_eval_tokens(
                        rest.skip(1),
                        st_of(ops@, depth as int, prog@),
                        fs,
                        fueln,
                    ));
                }
                i = i + 1;
            },
            Token::LeftParen => {
                ops.push(OpTok::LeftParen);
                proof {
                    assert(spec_step(rest[0], st_cur, fs, fueln) == Ok::<EvalStV, EvalErrV>(
                        st_of(ops@, depth as int, prog@),
                    ));
                    assert(spec_eval_tokens(rest, st_cur, fs, fueln) == spec_eval_tokens(
                        rest.skip(1),
                        st_of(ops@, depth as int, prog@),
                        fs,
                        fueln,
                    ));
                }
                i = i + 1;
            },
            Token::UnaryMinus => {
                ops.push(OpTok::UnaryMinus);
                proof {
                    assert(spec_step(rest[0], st_cur, fs, fueln) == Ok::<EvalStV, EvalErrV>(
                        st_of(ops@, depth as int, prog@),
                    ));
                    assert(spec_eval_tokens(rest, st_cur, fs, fueln) == spec_eval_tokens(
                        rest.skip(1),
                        st_of(ops@, depth as int, prog@),
                        fs,
                        fueln,
                    ));
                }
                i = i + 1;
            },
            Token::RightParen => {
                match close_paren(&mut ops, &mut depth, &mut prog) {
                    Ok(()) => {
                        proof {
                            assert(spec_step(rest[0], st_cur, fs, fueln) == Ok::<EvalStV, EvalErrV>(
                        st_of(ops@, depth as int, prog@),
                    ));
                    assert(spec_eval_tokens(rest, st_cur, fs, fueln) == spec_eval_tokens(
                                rest.skip(1),
                                st_of(ops@, depth as int, prog@),
                                fs,
                                fueln,
                            ));
                        }
                        i = i + 1;
                    },
                    Err(e) => {
                        proof {
                            assert(spec_step(rest[0], st_cur, fs, fueln) == Err::<EvalStV, EvalErrV>(
                                eval_err_view(e),
                            ));
                            assert(spec_eval_tokens(rest, st_cur, fs, fueln) == Err::<
                                EvalStV,
                                EvalErrV,
                            >(eval_err_view(e)));
                        }
                        return Err(e);
                    },
                }
            },
            Token::Add => {
                match reduce(PopClass::Additive, &mut ops, &mut depth, &mut prog) {
                    Ok(()) => {
                        ops.push(OpTok::Bin(BinOp::Add));
                        proof {
                            assert(spec_step(rest[0], st_cur, fs, fueln) == Ok::<EvalStV, EvalErrV>(
                        st_of(ops@, depth as int, prog@),
                    ));
                    assert(spec_eval_tokens(rest, st_cur, fs, fueln) == spec_eval_tokens(
                                rest.skip(1),
                                st_of(ops@, depth as int, prog@),
                                fs,
                                fueln,
                            ));
                        }
                        i = i + 1;
                    },
                    Err(e) => {
                        proof {
                            assert(spec_step(rest[0], st_cur, fs, fueln) == Err::<EvalStV, EvalErrV>(
                                eval_err_view(e),
                            ));
                            assert(spec_eval_tokens(rest, st_cur, fs, fueln) == Err::<
                                EvalStV,
                                EvalErrV,
                            >(eval_err_view(e)));
                        }
                        return Err(e);
                    },
                }
            },
            Token::Subtract => {
                match reduce(PopClass::Additive, &mut ops, &mut depth, &mut prog) {
                    Ok(()) => {
                        ops.push(OpTok::Bin(BinOp::Subtract));
                        proof {
                            assert(spec_step(rest[0], st_cur, fs, fueln) == Ok::<EvalStV, EvalErrV>(
                        st_of(ops@, depth as int, prog@),
                    ));
                    assert(spec_eval_tokens(rest, st_cur, fs, fueln) == spec_eval_tokens(
                                rest.skip(1),
                                st_of(ops@, depth as int, prog@),
                                fs,
                                fueln,
                            ));
                        }
                        i = i + 1;
                    },
                    Err(e) => {
                        proof {
                            assert(spec_step(rest[0], st_cur, fs, fueln) == Err::<EvalStV, EvalErrV>(
                                eval_err_view(e),
                            ));
                            assert(spec_eval_tokens(rest, st_cur, fs, fueln) == Err::<
                                EvalStV,
                                EvalErrV,
                            >(eval_err_view(e)));
                        }
                        return Err(e);
                    },
                }
            },
            Token::Multiply => {
                match reduce(PopClass::Multiplicative, &mut ops, &mut depth, &mut prog) {
                    Ok(()) => {
                        ops.push(OpTok::Bin(BinOp::Multiply));
                        proof {
                            assert(spec_step(rest[0], st_cur, fs, fueln) == Ok::<EvalStV, EvalErrV>(
                        st_of(ops@, depth as int, prog@),
                    ));
                    assert(spec_eval_tokens(rest, st_cur, fs, fueln) == spec_eval_tokens(
                                rest.skip(1),
                                st_of(ops@, depth as int, prog@),
                                fs,
                                fueln,
                            ));
                        }
                        i = i + 1;
                    },
                    Err(e) => {
                        proof {
                            assert(spec_step(rest[0], st_cur, fs, fueln) == Err::<EvalStV, EvalErrV>(
                                eval_err_view(e),
                            ));
                            assert(spec_eval_tokens(rest, st_cur, fs, fueln) == Err::<
                                EvalStV,
                                EvalErrV,
                            >(eval_err_view(e)));
                        }
                        return Err(e);
                    },
                }
            },
            Token::Divide => {
                match reduce(PopClass::Multiplicative, &mut ops, &mut depth, &mut prog) {
                    Ok(()) => {
                        ops.push(OpTok::Bin(BinOp::Divide));
                        proof {
                            assert(spec_step(rest[0], st_cur, fs, fueln) == Ok::<EvalStV, EvalErrV>(
                        st_of(ops@, depth as int, prog@),
                    ));
                    assert(spec_eval_tokens(rest, st_cur, fs, fueln) == spec_eval_tokens(
                                rest.skip(1),
                                st_of(ops@, depth as int, prog@),
                                fs,
                                fueln,
                            ));
                        }
                        i = i + 1;
                    },
                    Err(e) => {
                        proof {
                            assert(spec_step(rest[0], st_cur, fs, fueln) == Err::<EvalStV, EvalErrV>(
                                eval_err_view(e),
                            ));
                            assert(spec_eval_tokens(rest, st_cur, fs, fueln) == Err::<
                                EvalStV,
                                EvalErrV,
                            >(eval_err_view(e)));
                        }
                        return Err(e);
                    },
                }
            },
            Token::Modulo => {
                match reduce(PopClass::Multiplicative, &mut ops, &mut depth, &mut prog) {
                    Ok(()) => {
                        ops.push(OpTok::Bin(BinOp::Modulo));
                        proof {
                            assert(spec_step(rest[0], st_cur, fs, fueln) == Ok::<EvalStV, EvalErrV>(
                        st_of(ops@, depth as int, prog@),
                    ));
                    assert(spec_eval_tokens(rest, st_cur, fs, fueln) == spec_eval_tokens(
                                rest.skip(1),
                                st_of(ops@, depth as int, prog@),
                                fs,
                                fueln,
                            ));
                        }
                        i = i + 1;
                    },
                    Err(e) => {
                        proof {
                            assert(spec_step(rest[0], st_cur, fs, fueln) == Err::<EvalStV, EvalErrV>(
                                eval_err_view(e),
                            ));
                            assert(spec_eval_tokens(rest, st_cur, fs, fueln) == Err::<
                                EvalStV,
                                EvalErrV,
                            >(eval_err_view(e)));
                        }
                        return Err(e);
                    },
                }
            },
            Token::Power => {
                ops.push(OpTok::Bin(BinOp::Power));
                proof {
                    assert(spec_step(rest[0], st_cur, fs, fueln) == Ok::<EvalStV, EvalErrV>(
                        st_of(ops@, depth as int, prog@),
                    ));
                    assert(spec_eval_tokens(rest, st_cur, fs, fueln) == spec_eval_tokens(
                        rest.skip(1),
                        st_of(ops@, depth as int, prog@),
                        fs,
                        fueln,
                    ));
                }
                i = i + 1;
            },
            Token::FunctionCall(name, args) => {
                let ghost namev = name@;
                let ghost argsv = toks_view(args@);
                proof {
                    crate::parser::lemma_toks_view(args@);
                    assert(rest[0] == TokV::FunctionCall(namev, argsv));
                }
                let nm = crate::text::str_to_chars(name.as_str());
                match builtin_lookup(&nm) {
                    Some(b) => {
                        let arity = arity_of(b);
                        if args.len() != arity {
                            proof {
                                assert(spec_step(rest[0], st_cur, fs, fueln) == spec_eval_call(
                                    namev,
                                    argsv,
                                    st_cur,
                                    fs,
                                    fueln,
                                ));
                                assert(spec_eval_call(namev, argsv, st_cur, fs, fueln) == Err::<
                                    EvalStV,
                                    EvalErrV,
                                >(EvalErrV::WrongArgumentCount(namev)));
                            }
                            return Err(EvalError::WrongArgumentCount(name.clone()));
                        }
                        let ghost prog_old = prog@;
                        let ghost mut pushed: Seq<InstrV> = Seq::empty();
                        let mut k: usize = 0;
                        proof {
                            assert(pushed + args_pushes(argsv, 0) =~= args_pushes(argsv, 0));
                            assert(instrs_view(prog@) =~= instrs_view(prog_old) + pushed);
                        }
                        while k < args.len()
                            invariant
                                k <= args@.len(),
                                argsv == toks_view(args@),
                                argsv.len() == args@.len(),
                                forall|m: int| 0 <= m < k ==> (#[trigger] argsv[m]) is Number,
                                args_pushes(argsv, 0) == pushed + args_pushes(argsv, k as int),
                                instrs_view(prog@) == instrs_view(prog_old) + pushed,
                            decreases args@.len() - k,
                        {
                            proof {
                                crate::parser::lemma_toks_view(args@);
                                assert(argsv[k as int] == tok_view(args@[k as int]));
                            }
                            match &args[k] {
                                Token::Number(nn) => {
                                    let ghost pv = prog@;
                                    prog.push(Instr::Push(nn.clone()));
                                    proof {
                                        assert(instrs_view(prog@) =~= instrs_view(pv).push(
                                            InstrV::Push(num_view(*nn)),
                                        ));
                                        assert(args_pushes(argsv, k as int) == seq![
                                            InstrV::Push(argsv[k as int]->Number_0)] + args_pushes(
                                            argsv,
                                            k as int + 1,
                                        ));
                                        pushed = pushed.push(InstrV::Push(num_view(*nn)));
                                        assert(instrs_view(prog@) =~= instrs_view(prog_old)
                                            + pushed);
                                        assert(pushed + args_pushes(argsv, k as int + 1)
                                            =~= args_pushes(argsv, 0));
                                    }
                                    k = k + 1;
                                },
                                _ => {
                                    proof {
                                        assert(!all_numbers(argsv));
                                        assert(spec_step(rest[0], st_cur, fs, fueln)
                                            == spec_eval_call(namev, argsv, st_cur, fs, fueln));
                                        assert(spec_eval_call(namev, argsv, st_cur, fs, fueln)
                                            == Err::<EvalStV, EvalErrV>(
                                            EvalErrV::NonNumericArgument(namev),
                                        ));
                                    }
                                    return Err(EvalError::NonNumericArgument(name.clone()));
                                },
                            }
                        }
                        let ghost pv2 = prog@;
                        prog.push(Instr::Call(b));
                        depth = depth + 1;
                        proof {
                            assert(all_numbers(argsv));
                            assert(args_pushes(argsv, k as int) =~= Seq::<InstrV>::empty());
                            assert(pushed =~= args_pushes(argsv, 0));
                            assert(instrs_view(prog@) =~= instrs_view(pv2).push(InstrV::Call(b)));
                            assert(instrs_view(prog@) =~= instrs_view(prog_old) + args_pushes(
                                argsv,
                                0,
                            ) + seq![InstrV::Call(b)]);
                            assert(spec_eval_call(namev, argsv, st_cur, fs, fueln) == Ok::<
                                EvalStV,
                                EvalErrV,
                            >(st_of(ops@, depth as int, prog@)));
                            assert(spec_step(rest[0], st_cur, fs, fueln) == Ok::<EvalStV, EvalErrV>(
                        st_of(ops@, depth as int, prog@),
                    ));
                    assert(spec_eval_tokens(rest, st_cur, fs, fueln) == spec_eval_tokens(
                                rest.skip(1),
                                st_of(ops@, depth as int, prog@),
                                fs,
                                fueln,
                            ));
                        }
                        i = i + 1;
                    },
                    None => {
                        if funcs.lookup(name.as_str()).is_none() {
                            proof {
                                assert(spec_step(rest[0], st_cur, fs, fueln) == spec_eval_call(
                                    namev,
                                    argsv,
                                    st_cur,
                                    fs,
                                    fueln,
                                ));
                                assert(spec_eval_call(namev, argsv, st_cur, fs, fueln) == Err::<
                                    EvalStV,
                                    EvalErrV,
                                >(EvalErrV::UndefinedFunction(namev)));
                            }
                            return Err(EvalError::UndefinedFunction(name.clone()));
                        }
                        // rebuild the call's text for the macro expander,
                        // checking along the way that every argument is a
                        // literal number
                        let mut call_text = name.clone();
                        string_push(&mut call_text, '(');
                        let ghost mut txt: Seq<char> = Seq::empty();
                        let mut k: usize = 0;
                        proof {
                            assert(txt + args_text(argsv, 0) =~= args_text(argsv, 0));
                            assert(call_text@ =~= namev + seq!['('] + txt);
                        }
                        while k < args.len()
                            invariant
                                k <= args@.len(),
                                argsv == toks_view(args@),
                                argsv.len() == args@.len(),
                                namev == name@,
                                forall|m: int| 0 <= m < k ==> (#[trigger] argsv[m]) is Number,
                                args_text(argsv, 0) == txt + args_text(argsv, k as int),
                                call_text@ == namev + seq!['('] + txt,
                            decreases args@.len() - k,
                        {
                            proof {
                                crate::parser::lemma_toks_view(args@);
                                assert(argsv[k as int] == tok_view(args@[k as int]));
                            }
                            match &args[k] {
                                Token::Number(nn) => {
                                    if k > 0 {
                                        string_push(&mut call_text, ',');
                                    }
                                    match nn {
                                        Numeral::Literal(t) => {
                                            call_text.append(t.as_str());
                                        },
                                        Numeral::Pi => {
                                            call_text.append("pi");
                                            proof {
                                                reveal_strlit("pi");
                                                assert("pi"@ =~= seq!['p', 'i']);
                                            }
                                        },
                                        Numeral::Euler => {
                                            call_text.append("e");
                                            proof {
                                                reveal_strlit("e");
                                                assert("e"@ =~= seq!['e']);
                                            }
                                        },
                                    }
                                    proof {
                                        let sep: Seq<char> = if k > 0 {
                                            seq![',']
                                        } else {
                                            Seq::empty()
                                        };
                                        assert(args_text(argsv, k as int) == sep + numeral_text(
                                            argsv[k as int]->Number_0,
                                        ) + args_text(argsv, k as int + 1));
                                        txt = txt + sep + numeral_text(num_view(*nn));
                                        assert(call_text@ =~= namev + seq!['('] + txt);
                                        assert(txt + args_text(argsv, k as int + 1) =~= args_text(
                                            argsv,
                                            0,
                                        ));
                                    }
                                    k = k + 1;
                                },
                                _ => {
                                    proof {
                                        assert(!all_numbers(argsv));
                                        assert(spec_step(rest[0], st_cur, fs, fueln)
                                            == spec_eval_call(namev, argsv, st_cur, fs, fueln));
                                        assert(spec_eval_call(namev, argsv, st_cur, fs, fueln)
                                            == Err::<EvalStV, EvalErrV>(
                                            EvalErrV::NonNumericArgument(namev),
                                        ));
                                    }
                                    return Err(EvalError::NonNumericArgument(name.clone()));
                                },
                            }
                        }
                        string_push(&mut call_text, ')');
                        proof {
                            assert(all_numbers(argsv));
                            assert(args_text(argsv, k as int) =~= Seq::<char>::empty());
                            assert(txt =~= args_text(argsv, 0));
                            assert(call_text@ =~= rebuild_call(namev, argsv));
                        }
                        if fuel == 0 {
                            proof {
                                assert(spec_step(rest[0], st_cur, fs, fueln) == spec_eval_call(
                                    namev,
                                    argsv,
                                    st_cur,
                                    fs,
                                    fueln,
                                ));
                                assert(spec_eval_call(namev, argsv, st_cur, fs, fueln) == Err::<
                                    EvalStV,
                                    EvalErrV,
                                >(EvalErrV::ExpansionDepthExceeded));
                            }
                            return Err(EvalError::ExpansionDepthExceeded);
                        }
                        match crate::functions::expand_custom_functions(call_text.as_str(), funcs) {
                            Err(x) => {
                                proof {
                                    assert(spec_step(rest[0], st_cur, fs, fueln) == spec_eval_call(
                                        namev,
                                        argsv,
                                        st_cur,
                                        fs,
                                        fueln,
                                    ));
                                    assert(spec_eval_call(namev, argsv, st_cur, fs, fueln) == Err::<
                                        EvalStV,
                                        EvalErrV,
                                    >(EvalErrV::Expand(x)));
                                }
                                return Err(EvalError::Expand(x));
                            },
                            Ok(ex) => {
                                let mut lx = crate::parser::Lexer::new(ex.as_str());
                                match lx.tokenize() {
                                    Err(le) => {
                                        proof {
                                            assert(spec_step(rest[0], st_cur, fs, fueln)
                                                == spec_eval_call(namev, argsv, st_cur, fs, fueln));
                                            assert(spec_eval_call(namev, argsv, st_cur, fs, fueln)
                                                == Err::<EvalStV, EvalErrV>(
                                                EvalErrV::Lex(lex_err_view(le)),
                                            ));
                                        }
                                        return Err(EvalError::Lex(le));
                                    },
                                    Ok(toks2) => {
                                        match evaluate_with_fuel(toks2.as_slice(), funcs, fuel
                                            - 1) {
                                            Err(e) => {
                                                proof {
                                                    assert(spec_step(rest[0], st_cur, fs, fueln)
                                                        == spec_eval_call(
                                                        namev,
                                                        argsv,
                                                        st_cur,
                                                        fs,
                                                        fueln,
                                                    ));
                                                    assert(spec_eval_call(
                                                        namev,
                                                        argsv,
                                                        st_cur,
                                                        fs,
                                                        fueln,
                                                    ) == Err::<EvalStV, EvalErrV>(
                                                        eval_err_view(e),
                                                    ));
                                                }
                                                return Err(e);
                                            },
                                            Ok(mut sub) => {
                                                let ghost subv = instrs_view(sub@);
                                                let ghost prog_old2 = prog@;
                                                prog.append(&mut sub);
                                                depth = depth + 1;
                                                proof {
                                                    assert(instrs_view(prog@) =~= instrs_view(
                                                        prog_old2,
                                                    ) + subv);
                                                    assert(spec_eval_call(
                                                        namev,
                                                        argsv,
                                                        st_cur,
                                                        fs,
                                                        fueln,
                                                    ) == Ok::<EvalStV, EvalErrV>(
                                                        st_of(ops@, depth as int, prog@),
                                                    ));
                                                    assert(spec_eval_tokens(rest, st_cur, fs, fueln)
                                                        == spec_eval_tokens(
                                                        rest.skip(1),
                                                        st_of(ops@, depth as int, prog@),
                                                        fs,
                                                        fueln,
                                                    ));
                                                }
                                                i = i + 1;
                                            },
                                        }
                                    },
                                }
                            },
                        }
                    },
                }
            },
        }
    }
    proof {
        assert(toksv.skip(n as int) =~= Seq::<TokV>::empty());
        assert(spec_eval_tokens(toksv, st0, fs, fueln) == Ok::<EvalStV, EvalErrV>(
            st_of(ops@, depth as int, prog@),
        ));
    }
    match drain(&mut ops, &mut depth, &mut prog) {
        Err(e) => {
            return Err(e);
        },
        Ok(()) => {},
    }
    if depth == 1 {
        Ok(prog)
    } else if depth == 0 {
        Err(EvalError::NoResult)
    } else {
        Err(EvalError::StackImbalance)
    }
}

/// The number of values on the host's stack after running `p` from a stack
/// holding `d` values, or `None` if some instruction finds too few.
pub open spec fn prog_depth(p: Seq<InstrV>, d: int) -> Option<int>
    decreases p.len(),
{
    if p.len() == 0 {
        Some(d)
    } else {
        match p[0] {
            InstrV::Push(_) => prog_depth(p.skip(1), d + 1),
            InstrV::Negate => if d >= 1 {
                prog_depth(p.skip(1), d)
            } else {
                None
            },
            InstrV::Apply(_) => if d >= 2 {
                prog_depth(p.skip(1), d - 1)
            } else {
                None
            },
            InstrV::Call(b) => if d >= builtin_arity(b) {
                prog_depth(p.skip(1), d - builtin_arity(b) + 1)
            } else {
                None
            },
        }
    }
}

/// A well-formed program: run on an empty stack, no instruction ever finds
/// too few values, and exactly one value remains at the end.
pub open spec fn program_wf(p: Seq<InstrV>) -> bool {
    prog_depth(p, 0) == Some(1int)
}

pub proof fn lemma_prog_depth_concat(a: Seq<InstrV>, b: Seq<InstrV>, d: int)
    ensures
        prog_depth(a + b, d) == match prog_depth(a, d) {
            Some(m) => prog_depth(b, m),
            None => None,
        },
    decreases a.len(),
{
    if a.len() == 0 {
        assert(a + b =~= b);
    } else {
        assert((a + b)[0] == a[0]);
        assert((a + b).skip(1) =~= a.skip(1) + b);
        match a[0] {
            InstrV::Push(_) => lemma_prog_depth_concat(a.skip(1), b, d + 1),
            InstrV::Negate => if d >= 1 {
                lemma_prog_depth_concat(a.skip(1), b, d)
            },
            InstrV::Apply(_) => if d >= 2 {
                lemma_prog_depth_concat(a.skip(1), b, d - 1)
            },
            InstrV::Call(bi) => if d >= builtin_arity(bi) {
                lemma_prog_depth_concat(a.skip(1), b, d - builtin_arity(bi) + 1)
            },
        }
    }
}

/// Running from a deeper stack needs no more values and ends deeper by the
/// same difference.
pub proof fn lemma_prog_depth_mono(p: Seq<InstrV>, d: int, d2: int)
    requires
        d <= d2,
        prog_depth(p, d) is Some,
    ensures
        prog_depth(p, d2) == Some(prog_depth(p, d)->Some_0 + d2 - d),
    decreases p.len(),
{
    if p.len() > 0 {
        match p[0] {
            InstrV::Push(_) => lemma_prog_depth_mono(p.skip(1), d + 1, d2 + 1),
            InstrV::Negate => lemma_prog_depth_mono(p.skip(1), d, d2),
            InstrV::Apply(_) => lemma_prog_depth_mono(p.skip(1), d - 1, d2 - 1),
            InstrV::Call(b) => lemma_prog_depth_mono(
                p.skip(1),
                d - builtin_arity(b) + 1,
                d2 - builtin_arity(b) + 1,
            ),
        }
    }
}

proof fn lemma_prog_depth_snoc(p: Seq<InstrV>, x: InstrV, d: int)
    ensures
        prog_depth(p.push(x), d) == match prog_depth(p, d) {
            Some(m) => prog_depth(seq![x], m),
            None => None,
        },
{
    assert(p.push(x) =~= p + seq![x]);
    lemma_prog_depth_concat(p, seq![x], d);
}

proof fn lemma_singleton_depth(x: InstrV, d: int)
    ensures
        prog_depth(seq![x], d) == match x {
            InstrV::Push(_) => Some(d + 1),
            InstrV::Negate => if d >= 1 {
                Some(d)
            } else {
                None
            },
            InstrV::Apply(_) => if d >= 2 {
                Some(d - 1)
            } else {
                None
            },
            InstrV::Call(b) => if d >= builtin_arity(b) {
                Some(d - builtin_arity(b) + 1)
            } else {
                None
            },
        },
{
    reveal_with_fuel(prog_depth, 2);
    let s = seq![x];
    assert(s.skip(1) =~= Seq::<InstrV>::empty());
}

/// A state is coherent when its program, run from the empty stack, leaves
/// exactly the `depth` values the reduction accounts for.
pub open spec fn st_wf(st: EvalStV) -> bool {
    st.depth >= 0 && prog_depth(st.prog, 0) == Some(st.depth)
}

proof fn lemma_pop_apply_wf(st: EvalStV)
    requires
        st_wf(st),
    ensures
        spec_pop_apply(st) matches Ok(st2) ==> st_wf(st2),
{
    if st.ops.len() > 0 {
        match st.ops.last() {
            OpTok::UnaryMinus => {
                if st.depth >= 1 {
                    lemma_prog_depth_snoc(st.prog, InstrV::Negate, 0);
                    lemma_singleton_depth(InstrV::Negate, st.depth);
                }
            },
            OpTok::Bin(b) => {
                if st.depth >= 2 {
                    lemma_prog_depth_snoc(st.prog, InstrV::Apply(b), 0);
                    lemma_singleton_depth(InstrV::Apply(b), st.depth);
                }
            },
            OpTok::LeftParen => {},
        }
    }
}

proof fn lemma_reduce_wf(class: PopClass, st: EvalStV)
    requires
        st_wf(st),
    ensures
        spec_reduce(class, st) matches Ok(st2) ==> st_wf(st2),
    decreases st.ops.len(),
{
    if st.ops.len() == 0 || !should_pop(class, st.ops.last()) {
    } else {
        lemma_pop_apply_wf(st);
        match spec_pop_apply(st) {
            Ok(st2) => lemma_reduce_wf(class, st2),
            Err(_) => {},
        }
    }
}

proof fn lemma_close_paren_wf(st: EvalStV)
    requires
        st_wf(st),
    ensures
        spec_close_paren(st) matches Ok(st2) ==> st_wf(st2),
    decreases st.ops.len(),
{
    if st.ops.len() == 0 {
    } else if st.ops.last() is LeftParen {
        let st2 = EvalStV { ops: st.ops.drop_last(), depth: st.depth, prog: st.prog };
        lemma_pop_apply_wf(st2);
    } else {
        lemma_pop_apply_wf(st);
        match spec_pop_apply(st) {
            Ok(st2) => lemma_close_paren_wf(st2),
            Err(_) => {},
        }
    }
}

proof fn lemma_drain_wf(st: EvalStV)
    requires
        st_wf(st),
    ensures
        spec_drain(st) matches Ok(st2) ==> st_wf(st2),
    decreases st.ops.len(),
{
    if st.ops.len() > 0 {
        lemma_pop_apply_wf(st);
        match spec_pop_apply(st) {
            Ok(st2) => lemma_drain_wf(st2),
            Err(_) => {},
        }
    }
}

proof fn lemma_args_pushes_depth(args: Seq<TokV>, k: int, d: int)
    requires
        0 <= k <= args.len(),
    ensures
        prog_depth(args_pushes(args, k), d) == Some(d + args.len() - k),
    decreases args.len() - k,
{
    if k < args.len() {
        lemma_args_pushes_depth(args, k + 1, d + 1);
        assert(args_pushes(args, k) == seq![InstrV::Push(args[k]->Number_0)] + args_pushes(
            args,
            k + 1,
        ));
        lemma_prog_depth_concat(seq![InstrV::Push(args[k]->Number_0)], args_pushes(args, k + 1), d);
        lemma_singleton_depth(InstrV::Push(args[k]->Number_0), d);
    } else {
        assert(args_pushes(args, k) =~= Seq::<InstrV>::empty());
    }
}

proof fn lemma_eval_call_wf(
    name: Seq<char>,
    args: Seq<TokV>,
    st: EvalStV,
    fs: Seq<(Seq<char>, CustomFunctionV)>,
    fuel: nat,
)
    requires
        st_wf(st),
    ensures
        spec_eval_call(name, args, st, fs, fuel) matches Ok(st2) ==> st_wf(st2),
    decreases fuel, 0int, 1int,
{
    match builtin_of(name) {
        Some(b) => {
            if args.len() == builtin_arity(b) && all_numbers(args) {
                lemma_args_pushes_depth(args, 0, st.depth);
                lemma_prog_depth_concat(st.prog, args_pushes(args, 0), 0);
                lemma_prog_depth_concat(
                    st.prog + args_pushes(args, 0),
                    seq![InstrV::Call(b)],
                    0,
                );
                lemma_singleton_depth(InstrV::Call(b), st.depth + args.len());
            }
        },
        None => {
            if spec_lookup(fs, name) is Some && all_numbers(args) && fuel > 0 {
                match spec_expand(rebuild_call(name, args), fs) {
                    Err(_) => {},
                    Ok(ex) => match spec_tokenize(ex) {
                        Err(_) => {},
                        Ok(toks2) => {
                            lemma_evaluate_wf(toks2, fs, (fuel - 1) as nat);
                            match spec_evaluate(toks2, fs, (fuel - 1) as nat) {
                                Err(_) => {},
                                Ok(sub) => {
                                    lemma_prog_depth_concat(st.prog, sub, 0);
                                    lemma_prog_depth_mono(sub, 0, st.depth);
                                },
                            }
                        },
                    },
                }
            }
        },
    }
}

proof fn lemma_eval_tokens_wf(
    toks: Seq<TokV>,
    st: EvalStV,
    fs: Seq<(Seq<char>, CustomFunctionV)>,
    fuel: nat,
)
    requires
        st_wf(st),
    ensures
        spec_eval_tokens(toks, st, fs, fuel) matches Ok(st2) ==> st_wf(st2),
    decreases fuel, toks.len(), 2int,
{
    if toks.len() > 0 {
        let step = spec_step(toks[0], st, fs, fuel);
        match toks[0] {
            TokV::Number(n) => {
                lemma_prog_depth_snoc(st.prog, InstrV::Push(n), 0);
                lemma_singleton_depth(InstrV::Push(n), st.depth);
            },
            TokV::RightParen => {
                lemma_close_paren_wf(st);
            },
            TokV::Add | TokV::Subtract => {
                lemma_reduce_wf(PopClass::Additive, st);
            },
            TokV::Multiply | TokV::Divide | TokV::Modulo => {
                lemma_reduce_wf(PopClass::Multiplicative, st);
            },
            TokV::FunctionCall(name, args) => {
                lemma_eval_call_wf(name, args, st, fs, fuel);
            },
            _ => {},
        }
        match step {
            Ok(st2) => {
                lemma_eval_tokens_wf(toks.skip(1), st2, fs, fuel);
            },
            Err(_) => {},
        }
    }
}

/// Every program the evaluator hands out is well formed: the host can run
/// it with no check of its own, it never underflows, and it ends with
/// exactly the one result.
pub proof fn lemma_evaluate_wf(toks: Seq<TokV>, fs: Seq<(Seq<char>, CustomFunctionV)>, fuel: nat)
    ensures
        spec_evaluate(toks, fs, fuel) matches Ok(p) ==> program_wf(p),
    decreases fuel, toks.len(), 3int,
{
    if toks.len() > 0 {
        let st0 = EvalStV { ops: Seq::empty(), depth: 0, prog: Seq::empty() };
        assert(prog_depth(st0.prog, 0) == Some(0int));
        lemma_eval_tokens_wf(toks, st0, fs, fuel);
        match spec_eval_tokens(toks, st0, fs, fuel) {
            Err(_) => {},
            Ok(st) => {
                lemma_drain_wf(st);
            },
        }
    }
}

/// The evaluator. It holds no state of its own: evaluation is a function of
/// the tokens and the registry alone.
pub struct Evaluator;

impl Evaluator {
    pub fn new() -> Evaluator {
        Evaluator
    }

    /// Reduces a token sequence against a registry to a numeric program:
    /// exactly [`spec_evaluate`] at the standard nesting allowance. A
    /// program handed out is well formed ([`program_wf`]).
    pub fn evaluate(&mut self, tokens: &[Token], funcs: &FunctionTable) -> (r: Result<
        Vec<Instr>,
        EvalError,
    >)
        ensures
            eval_result_view(r) == spec_evaluate(
                toks_view(tokens@),
                funcs@,
                CALL_NESTING_LIMIT as nat,
            ),
            r matches Ok(p) ==> program_wf(instrs_view(p@)),
    {
        let r = evaluate_with_fuel(tokens, funcs, CALL_NESTING_LIMIT);
        proof {
            lemma_evaluate_wf(toks_view(tokens@), funcs@, CALL_NESTING_LIMIT as nat);
        }
        r
    }
}

/// Reduces a token sequence against a registry to a numeric program; see
/// [`Evaluator::evaluate`].
pub fn evaluate(tokens: &[Token], funcs: &FunctionTable) -> (r: Result<Vec<Instr>, EvalError>)
    ensures
        eval_result_view(r) == spec_evaluate(
            toks_view(tokens@),
            funcs@,
            CALL_NESTING_LIMIT as nat,
        ),
        r matches Ok(p) ==> program_wf(instrs_view(p@)),
{
    let mut e = Evaluator::new();
    e.evaluate(tokens, funcs)
}

/// The composed pipeline for an expression that may call custom functions:
/// macro expansion, tokenization, evaluation.
pub open spec fn spec_expand_and_evaluate(
    s: Seq<char>,
    fs: Seq<(Seq<char>, CustomFunctionV)>,
) -> Result<Seq<InstrV>, EvalErrV> {
    match spec_expand(s, fs) {
        Err(x) => Err(EvalErrV::Expand(x)),
        Ok(ex) => match spec_tokenize(ex) {
            Err(le) => Err(EvalErrV::Lex(le)),
            Ok(toks) => spec_evaluate(toks, fs, CALL_NESTING_LIMIT as nat),
        },
    }
}

/// The state as the reduction sees it inside one more enclosing pair of
/// parentheses: the same, with a left parenthesis below all pending
/// operators.
pub open spec fn lift_st(st: EvalStV) -> EvalStV {
    EvalStV { ops: seq![OpTok::LeftParen] + st.ops, depth: st.depth, prog: st.prog }
}

proof fn lemma_pop_apply_lift(st: EvalStV)
    requires
        st.ops.len() > 0,
    ensures
        spec_pop_apply(lift_st(st)) == match spec_pop_apply(st) {
            Ok(st2) => Ok::<EvalStV, EvalErrV>(lift_st(st2)),
            Err(e) => Err(e),
        },
{
    assert((seq![OpTok::LeftParen] + st.ops).last() == st.ops.last());
    assert((seq![OpTok::LeftParen] + st.ops).drop_last() =~= seq![OpTok::LeftParen]
        + st.ops.drop_last());
}

proof fn lemma_reduce_lift(class: PopClass, st: EvalStV)
    requires
        spec_reduce(class, st) is Ok,
    ensures
        spec_reduce(class, lift_st(st)) == Ok::<EvalStV, EvalErrV>(
            lift_st(spec_reduce(class, st)->Ok_0),
        ),
    decreases st.ops.len(),
{
    if st.ops.len() == 0 {
        assert((seq![OpTok::LeftParen] + st.ops).last() == OpTok::LeftParen);
    } else {
        assert((seq![OpTok::LeftParen] + st.ops).last() == st.ops.last());
        if should_pop(class, st.ops.last()) {
            lemma_pop_apply_lift(st);
            match spec_pop_apply(st) {
                Ok(st2) => lemma_reduce_lift(class, st2),
                Err(_) => {},
            }
        }
    }
}

proof fn lemma_close_paren_lift(st: EvalStV)
    requires
        spec_close_paren(st) is Ok,
    ensures
        spec_close_paren(lift_st(st)) == Ok::<EvalStV, EvalErrV>(
            lift_st(spec_close_paren(st)->Ok_0),
        ),
    decreases st.ops.len(),
{
    assert(st.ops.len() > 0);
    assert((seq![OpTok::LeftParen] + st.ops).last() == st.ops.last());
    if st.ops.last() is LeftParen {
        let st2 = EvalStV { ops: st.ops.drop_last(), depth: st.depth, prog: st.prog };
        assert((seq![OpTok::LeftParen] + st.ops).drop_last() =~= seq![OpTok::LeftParen]
            + st.ops.drop_last());
        if st2.ops.len() > 0 {
            assert((seq![OpTok::LeftParen] + st2.ops).last() == st2.ops.last());
            if st2.ops.last() is UnaryMinus {
                lemma_pop_apply_lift(st2);
            }
        } else {
            assert((seq![OpTok::LeftParen] + st2.ops).last() == OpTok::LeftParen);
        }
    } else {
        lemma_pop_apply_lift(st);
        match spec_pop_apply(st) {
            Ok(st2) => lemma_close_paren_lift(st2),
            Err(_) => {},
        }
    }
}

proof fn lemma_call_lift(
    name: Seq<char>,
    args: Seq<TokV>,
    st: EvalStV,
    fs: Seq<(Seq<char>, CustomFunctionV)>,
    fuel: nat,
)
    requires
        spec_eval_call(name, args, st, fs, fuel) is Ok,
    ensures
        spec_eval_call(name, args, lift_st(st), fs, fuel) == Ok::<EvalStV, EvalErrV>(
            lift_st(spec_eval_call(name, args, st, fs, fuel)->Ok_0),
        ),
{
}

proof fn lemma_step_lift(t: TokV, st: EvalStV, fs: Seq<(Seq<char>, CustomFunctionV)>, fuel: nat)
    requires
        spec_step(t, st, fs, fuel) is Ok,
    ensures
        spec_step(t, lift_st(st), fs, fuel) == Ok::<EvalStV, EvalErrV>(
            lift_st(spec_step(t, st, fs, fuel)->Ok_0),
        ),
{
    let lp = seq![OpTok::LeftParen];
    match t {
        TokV::Number(_) => {},
        TokV::LeftParen => {
            assert((lp + st.ops).push(OpTok::LeftParen) =~= lp + st.ops.push(OpTok::LeftParen));
        },
        TokV::UnaryMinus => {
            assert((lp + st.ops).push(OpTok::UnaryMinus) =~= lp + st.ops.push(OpTok::UnaryMinus));
        },
        TokV::Power => {
            assert((lp + st.ops).push(OpTok::Bin(BinOp::Power)) =~= lp + st.ops.push(
                OpTok::Bin(BinOp::Power),
            ));
        },
        TokV::RightParen => {
            lemma_close_paren_lift(st);
        },
        TokV::Add => {
            lemma_reduce_lift(PopClass::Additive, st);
            let red = spec_reduce(PopClass::Additive, st)->Ok_0;
            assert((lp + red.ops).push(OpTok::Bin(BinOp::Add)) =~= lp + red.ops.push(
                OpTok::Bin(BinOp::Add),
            ));
        },
        TokV::Subtract => {
            lemma_reduce_lift(PopClass::Additive, st);
            let red = spec_reduce(PopClass::Additive, st)->Ok_0;
            assert((lp + red.ops).push(OpTok::Bin(BinOp::Subtract)) =~= lp + red.ops.push(
                OpTok::Bin(BinOp::Subtract),
            ));
        },
        TokV::Multiply => {
            lemma_reduce_lift(PopClass::Multiplicative, st);
            let red = spec_reduce(PopClass::Multiplicative, st)->Ok_0;
            assert((lp + red.ops).push(OpTok::Bin(BinOp::Multiply)) =~= lp + red.ops.push(
                OpTok::Bin(BinOp::Multiply),
            ));
        },
        TokV::Divide => {
            lemma_reduce_lift(PopClass::Multiplicative, st);
            let red = spec_reduce(PopClass::Multiplicative, st)->Ok_0;
            assert((lp + red.ops).push(OpTok::Bin(BinOp::Divide)) =~= lp + red.ops.push(
                OpTok::Bin(BinOp::Divide),
            ));
        },
        TokV::Modulo => {
            lemma_reduce_lift(PopClass::Multiplicative, st);
            let red = spec_reduce(PopClass::Multiplicative, st)->Ok_0;
            assert((lp + red.ops).push(OpTok::Bin(BinOp::Modulo)) =~= lp + red.ops.push(
                OpTok::Bin(BinOp::Modulo),
            ));
        },
        TokV::FunctionCall(name, args) => {
            lemma_call_lift(name, args, st, fs, fuel);
        },
    }
}

proof fn lemma_eval_tokens_lift(
    toks: Seq<TokV>,
    st: EvalStV,
    fs: Seq<(Seq<char>, CustomFunctionV)>,
    fuel: nat,
)
    requires
        spec_eval_tokens(toks, st, fs, fuel) is Ok,
    ensures
        spec_eval_tokens(toks, lift_st(st), fs, fuel) == Ok::<EvalStV, EvalErrV>(
            lift_st(spec_eval_tokens(toks, st, fs, fuel)->Ok_0),
        ),
    decreases toks.len(),
{
    if toks.len() > 0 {
        lemma_step_lift(toks[0], st, fs, fuel);
        match spec_step(toks[0], st, fs, fuel) {
            Ok(st2) => {
                lemma_eval_tokens_lift(toks.skip(1), st2, fs, fuel);
            },
            Err(_) => {},
        }
    }
}

/// Splitting the token stream splits the reduction.
proof fn lemma_eval_tokens_append(
    a: Seq<TokV>,
    b: Seq<TokV>,
    st: EvalStV,
    fs: Seq<(Seq<char>, CustomFunctionV)>,
    fuel: nat,
)
    ensures
        spec_eval_tokens(a + b, st, fs, fuel) == match spec_eval_tokens(a, st, fs, fuel) {
            Ok(m) => spec_eval_tokens(b, m, fs, fuel),
            Err(e) => Err(e),
        },
    decreases a.len(),
{
    if a.len() == 0 {
        assert(a + b =~= b);
    } else {
        assert((a + b)[0] == a[0]);
        assert((a + b).skip(1) =~= a.skip(1) + b);
        match spec_step(a[0], st, fs, fuel) {
            Ok(st2) => lemma_eval_tokens_append(a.skip(1), b, st2, fs, fuel),
            Err(_) => {},
        }
    }
}

/// Closing the enclosing parenthesis does exactly what the final drain of
/// the unwrapped expression does.
proof fn lemma_close_drain(st: EvalStV)
    requires
        spec_drain(st) is Ok,
    ensures
        spec_close_paren(lift_st(st)) == Ok::<EvalStV, EvalErrV>(
            EvalStV {
                ops: Seq::empty(),
                depth: spec_drain(st)->Ok_0.depth,
                prog: spec_drain(st)->Ok_0.prog,
            },
        ),
    decreases st.ops.len(),
{
    if st.ops.len() == 0 {
        assert((seq![OpTok::LeftParen] + st.ops).last() == OpTok::LeftParen);
        assert((seq![OpTok::LeftParen] + st.ops).drop_last() =~= Seq::<OpTok>::empty());
    } else {
        assert((seq![OpTok::LeftParen] + st.ops).last() == st.ops.last());
        lemma_pop_apply_lift(st);
        match spec_pop_apply(st) {
            Ok(stp) => lemma_close_drain(stp),
            Err(_) => {},
        }
    }
}

/// Wrapping a whole expression in parentheses changes nothing: a token
/// sequence that evaluates to a program evaluates, wrapped in a
/// parenthesis pair, to the very same program.
pub proof fn lemma_paren_wrap(toks: Seq<TokV>, fs: Seq<(Seq<char>, CustomFunctionV)>, fuel: nat)
    requires
        spec_evaluate(toks, fs, fuel) is Ok,
    ensures
        spec_evaluate(seq![TokV::LeftParen] + toks + seq![TokV::RightParen], fs, fuel)
            == spec_evaluate(toks, fs, fuel),
{
    let w = seq![TokV::LeftParen] + toks + seq![TokV::RightParen];
    let st0 = EvalStV { ops: Seq::empty(), depth: 0, prog: Seq::empty() };
    assert(toks.len() > 0);
    match spec_eval_tokens(toks, st0, fs, fuel) {
        Err(_) => {},
        Ok(st_m) => {
            match spec_drain(st_m) {
                Err(_) => {},
                Ok(st_d) => {
                    assert(w.len() == toks.len() + 2);
                    assert(w[0] == TokV::LeftParen);
                    assert(st0.ops.push(OpTok::LeftParen) =~= lift_st(st0).ops);
                    assert(spec_step(w[0], st0, fs, fuel) == Ok::<EvalStV, EvalErrV>(lift_st(st0)));
                    assert(w.skip(1) =~= toks + seq![TokV::RightParen]);
                    lemma_eval_tokens_append(toks, seq![TokV::RightParen], lift_st(st0), fs, fuel);
                    lemma_eval_tokens_lift(toks, st0, fs, fuel);
                    lemma_close_drain(st_m);
                    let st_f = EvalStV { ops: Seq::empty(), depth: st_d.depth, prog: st_d.prog };
                    assert(spec_step(TokV::RightParen, lift_st(st_m), fs, fuel) == Ok::<
                        EvalStV,
                        EvalErrV,
                    >(st_f));
                    assert(seq![TokV::RightParen].skip(1) =~= Seq::<TokV>::empty());
                    assert(seq![TokV::RightParen][0] == TokV::RightParen);
                    assert(spec_eval_tokens(Seq::<TokV>::empty(), st_f, fs, fuel) == Ok::<
                        EvalStV,
                        EvalErrV,
                    >(st_f));
                    assert(spec_eval_tokens(seq![TokV::RightParen], lift_st(st_m), fs, fuel)
                        == Ok::<EvalStV, EvalErrV>(st_f));
                    assert(spec_eval_tokens(w, st0, fs, fuel) == Ok::<EvalStV, EvalErrV>(st_f));
                    assert(spec_drain(st_f) == Ok::<EvalStV, EvalErrV>(st_f));
                },
            }
        },
    }
}

/// Expands, tokenizes and evaluates an expression: exactly
/// [`spec_expand_and_evaluate`]. A program handed out is well formed.
pub fn expand_and_evaluate(expr: &str, funcs: &FunctionTable) -> (r: Result<Vec<Instr>, EvalError>)
    ensures
        eval_result_view(r) == spec_expand_and_evaluate(expr@, funcs@),
        r matches Ok(p) ==> program_wf(instrs_view(p@)),
{
    match crate::functions::expand_custom_functions(expr, funcs) {
        Err(x) => Err(EvalError::Expand(x)),
        Ok(ex) => {
            let mut lx = crate::parser::Lexer::new(ex.as_str());
            match lx.tokenize() {
                Err(le) => Err(EvalError::Lex(le)),
                Ok(toks) => evaluate(toks.as_slice(), funcs),
            }
        },
    }
}

} // verus!
