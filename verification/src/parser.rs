//! The tokenizer: turns an expression string into a sequence of [`Token`]s.
//!
//! A numeric literal is kept as its text; the named constants `pi` and `e`
//! (case-insensitive) become dedicated [`Numeral`] variants. A `-` is
//! classified as unary or binary by looking back at the token just produced.
//! An identifier followed by `(` becomes a [`Token::FunctionCall`] whose
//! argument list is split on commas outside nested parentheses, each
//! non-empty argument being tokenized recursively; the call token holds the
//! concatenation of its arguments' tokens.

use crate::text::{
    chars_to_string, is_digit, is_ident_start, is_lex_space, is_numeric, is_word, lower,
    spec_is_digit, spec_is_ident_start, spec_is_lex_space, spec_is_numeric, spec_is_word,
    spec_lower, str_to_chars,
};
use vstd::prelude::*;
use vstd::string::StringExecFns;

verus! {

broadcast use vstd::std_specs::vec::group_vec_axioms, vstd::seq::group_seq_axioms;

/// The numeric payload of a [`Token::Number`]: a literal's text, or one of
/// the two named constants. The engine never interprets the value; the host
/// maps it into its numeric domain.
#[derive(Debug, PartialEq)]
pub enum Numeral {
    /// A numeric literal, kept exactly as written (digits and at most one
    /// decimal point, at least one digit).
    Literal(String),
    /// The constant `pi`.
    Pi,
    /// The constant `e`.
    Euler,
}

/// The mathematical image of a [`Numeral`].
pub enum NumeralV {
    Literal(Seq<char>),
    Pi,
    Euler,
}

pub open spec fn num_view(n: Numeral) -> NumeralV {
    match n {
        Numeral::Literal(s) => NumeralV::Literal(s@),
        Numeral::Pi => NumeralV::Pi,
        Numeral::Euler => NumeralV::Euler,
    }
}

impl Clone for Numeral {
    fn clone(&self) -> (r: Self)
        ensures
            num_view(r) == num_view(*self),
    {
        match self {
            Numeral::Literal(s) => Numeral::Literal(s.clone()),
            Numeral::Pi => Numeral::Pi,
            Numeral::Euler => Numeral::Euler,
        }
    }
}

/// A single classified lexical unit.
#[derive(Debug, PartialEq)]
pub enum Token {
    Number(Numeral),
    Add,
    Subtract,
    Multiply,
    Divide,
    LeftParen,
    RightParen,
    UnaryMinus,
    Modulo,
    Power,
    /// A function call: the name, and the concatenation of the token
    /// sequences of its arguments.
    FunctionCall(String, Vec<Token>),
}

/// The mathematical image of a [`Token`].
pub enum TokV {
    Number(NumeralV),
    Add,
    Subtract,
    Multiply,
    Divide,
    LeftParen,
    RightParen,
    UnaryMinus,
    Modulo,
    Power,
    FunctionCall(Seq<char>, Seq<TokV>),
}

pub open spec fn tok_view(t: Token) -> TokV
    decreases t, 0int,
{
    match t {
        Token::Number(n) => TokV::Number(num_view(n)),
        Token::Add => TokV::Add,
        Token::Subtract => TokV::Subtract,
        Token::Multiply => TokV::Multiply,
        Token::Divide => TokV::Divide,
        Token::LeftParen => TokV::LeftParen,
        Token::RightParen => TokV::RightParen,
        Token::UnaryMinus => TokV::UnaryMinus,
        Token::Modulo => TokV::Modulo,
        Token::Power => TokV::Power,
        Token::FunctionCall(name, args) => TokV::FunctionCall(name@, toks_view_from(args@, 0)),
    }
}

pub open spec fn toks_view_from(ts: Seq<Token>, i: int) -> Seq<TokV>
    decreases ts, ts.len() - i + 1int,
{
    if i < 0 || i >= ts.len() {
        Seq::empty()
    } else {
        seq![tok_view(ts[i])] + toks_view_from(ts, i + 1)
    }
}

/// The mathematical image of a token sequence.
pub open spec fn toks_view(ts: Seq<Token>) -> Seq<TokV> {
    toks_view_from(ts, 0)
}

pub proof fn lemma_toks_view_from(ts: Seq<Token>, i: int)
    requires
        0 <= i <= ts.len(),
    ensures
        toks_view_from(ts, i).len() == ts.len() - i,
        forall|k: int|
            i <= k < ts.len() ==> toks_view_from(ts, i)[k - i] == #[trigger] tok_view(ts[k]),
    decreases ts.len() - i,
{
    if i < ts.len() {
        lemma_toks_view_from(ts, i + 1);
    }
}

/// A token sequence's image is the element-wise image.
pub proof fn lemma_toks_view(ts: Seq<Token>)
    ensures
        toks_view(ts).len() == ts.len(),
        forall|k: int| 0 <= k < ts.len() ==> toks_view(ts)[k] == #[trigger] tok_view(ts[k]),
{
    lemma_toks_view_from(ts, 0);
}

/// Appending one token to a sequence appends its image.
pub proof fn lemma_toks_view_push(ts: Seq<Token>, t: Token)
    ensures
        toks_view(ts.push(t)) == toks_view(ts).push(tok_view(t)),
{
    lemma_toks_view(ts);
    lemma_toks_view(ts.push(t));
    assert forall|k: int| 0 <= k < ts.len() + 1 implies toks_view(ts.push(t))[k] == toks_view(
        ts,
    ).push(tok_view(t))[k] by {
        assert(toks_view(ts.push(t))[k] == tok_view(ts.push(t)[k]));
        if k < ts.len() {
            assert(ts.push(t)[k] == ts[k]);
            assert(toks_view(ts)[k] == tok_view(ts[k]));
        } else {
            assert(ts.push(t)[k] == t);
        }
    }
    assert(toks_view(ts.push(t)) =~= toks_view(ts).push(tok_view(t)));
}

/// Concatenating token sequences concatenates their images.
pub proof fn lemma_toks_view_add(a: Seq<Token>, b: Seq<Token>)
    ensures
        toks_view(a + b) == toks_view(a) + toks_view(b),
{
    lemma_toks_view(a);
    lemma_toks_view(b);
    lemma_toks_view(a + b);
    assert forall|k: int| 0 <= k < a.len() + b.len() implies toks_view(a + b)[k] == (toks_view(a)
        + toks_view(b))[k] by {
        assert(toks_view(a + b)[k] == tok_view((a + b)[k]));
        if k < a.len() {
            assert((a + b)[k] == a[k]);
            assert(toks_view(a)[k] == tok_view(a[k]));
        } else {
            assert((a + b)[k] == b[k - a.len()]);
            assert(toks_view(b)[k - a.len()] == tok_view(b[k - a.len()]));
        }
    }
    assert(toks_view(a + b) =~= toks_view(a) + toks_view(b));
}

/// A failure of the tokenizer.
#[derive(Debug, Clone, PartialEq)]
pub enum LexError {
    /// A character outside the expression alphabet, with the character.
    UnexpectedCharacter(char),
    /// A numeric literal with no digit or more than one decimal point.
    InvalidNumber,
    /// An identifier that is neither a constant nor followed by `(`.
    UnknownIdentifier(String),
    /// A function-call argument list with no closing parenthesis.
    UnclosedArguments,
}

impl LexError {
    /// A human-readable description of the failure.
    pub fn message(&self) -> (r: String)
        ensures
            r@ == match *self {
                LexError::UnexpectedCharacter(c) => "Unexpected character: "@.push(c),
                LexError::InvalidNumber => "Invalid number format"@,
                LexError::UnknownIdentifier(name) => "Unexpected identifier: "@ + name@,
                LexError::UnclosedArguments => "Unclosed function arguments"@,
            },
    {
        match self {
            LexError::UnexpectedCharacter(c) => {
                let mut s = "Unexpected character: ".to_owned();
                crate::text::string_push(&mut s, *c);
                s
            },
            LexError::InvalidNumber => "Invalid number format".to_owned(),
            LexError::UnknownIdentifier(name) => {
                let mut s = "Unexpected identifier: ".to_owned();
                s.append(name.as_str());
                s
            },
            LexError::UnclosedArguments => "Unclosed function arguments".to_owned(),
        }
    }
}

/// The mathematical image of a [`LexError`].
pub enum LexErrV {
    UnexpectedCharacter(char),
    InvalidNumber,
    UnknownIdentifier(Seq<char>),
    UnclosedArguments,
}

pub open spec fn lex_err_view(e: LexError) -> LexErrV {
    match e {
        LexError::UnexpectedCharacter(c) => LexErrV::UnexpectedCharacter(c),
        LexError::InvalidNumber => LexErrV::InvalidNumber,
        LexError::UnknownIdentifier(s) => LexErrV::UnknownIdentifier(s@),
        LexError::UnclosedArguments => LexErrV::UnclosedArguments,
    }
}

pub open spec fn lex_result_view(r: Result<Vec<Token>, LexError>) -> Result<Seq<TokV>, LexErrV> {
    match r {
        Ok(ts) => Ok(toks_view(ts@)),
        Err(e) => Err(lex_err_view(e)),
    }
}

/// The end of the maximal run of numeric-literal characters starting at `i`:
/// the first position in `[i, end)` holding neither a digit nor `.`, or `end`.
pub open spec fn numeric_run_end(s: Seq<char>, i: int, end: int) -> int
    decreases end - i,
{
    if !(0 <= i && i < end && end <= s.len()) {
        i
    } else if spec_is_numeric(s[i]) {
        numeric_run_end(s, i + 1, end)
    } else {
        i
    }
}

/// The end of the maximal run of identifier characters starting at `i`.
pub open spec fn word_run_end(s: Seq<char>, i: int, end: int) -> int
    decreases end - i,
{
    if !(0 <= i && i < end && end <= s.len()) {
        i
    } else if spec_is_word(s[i]) {
        word_run_end(s, i + 1, end)
    } else {
        i
    }
}

pub proof fn lemma_numeric_run_end_bounds(s: Seq<char>, i: int, end: int)
    requires
        0 <= i <= end <= s.len(),
    ensures
        i <= numeric_run_end(s, i, end) <= end,
    decreases end - i,
{
    if i < end && spec_is_numeric(s[i]) {
        lemma_numeric_run_end_bounds(s, i + 1, end);
    }
}

pub proof fn lemma_word_run_end_bounds(s: Seq<char>, i: int, end: int)
    requires
        0 <= i <= end <= s.len(),
    ensures
        i <= word_run_end(s, i, end) <= end,
    decreases end - i,
{
    if i < end && spec_is_word(s[i]) {
        lemma_word_run_end_bounds(s, i + 1, end);
    }
}

/// The first position in `[i, end)` holding a comma at parenthesis depth zero
/// or the closing parenthesis of the argument list (a `)` at depth zero), or
/// `end` if there is none: parentheses opened inside the arguments nest, and
/// commas inside them do not split.
pub open spec fn arg_split(s: Seq<char>, i: int, end: int, depth: int) -> int
    decreases end - i,
{
    if !(0 <= i && i < end && end <= s.len()) {
        end
    } else if s[i] == ')' {
        if depth == 0 {
            i
        } else {
            arg_split(s, i + 1, end, depth - 1)
        }
    } else if s[i] == ',' && depth == 0 {
        i
    } else if s[i] == '(' {
        arg_split(s, i + 1, end, depth + 1)
    } else {
        arg_split(s, i + 1, end, depth)
    }
}

pub proof fn lemma_arg_split_bounds(s: Seq<char>, i: int, end: int, depth: int)
    requires
        0 <= i <= end <= s.len(),
    ensures
        i <= arg_split(s, i, end, depth) <= end,
        arg_split(s, i, end, depth) < end ==> (s[arg_split(s, i, end, depth)] == ')' || s[
            arg_split(s, i, end, depth)
        ] == ','),
    decreases end - i,
{
    if i < end {
        if s[i] == ')' {
            if depth != 0 {
                lemma_arg_split_bounds(s, i + 1, end, depth - 1);
            }
        } else if s[i] == ',' && depth == 0 {
        } else if s[i] == '(' {
            lemma_arg_split_bounds(s, i + 1, end, depth + 1);
        } else {
            lemma_arg_split_bounds(s, i + 1, end, depth);
        }
    }
}

/// A token after which a `-` is unary: any operator, a left parenthesis, or
/// another unary minus. After a number, a right parenthesis or a function
/// call, `-` is binary subtraction.
pub open spec fn spec_is_unary_context(t: TokV) -> bool {
    ||| t is Add
    ||| t is Subtract
    ||| t is Multiply
    ||| t is Divide
    ||| t is LeftParen
    ||| t is UnaryMinus
    ||| t is Modulo
    ||| t is Power
}

/// A well-formed numeric literal: only digits and decimal points, at least
/// one digit, and at most one decimal point.
pub open spec fn spec_valid_numeral(s: Seq<char>) -> bool {
    &&& s.len() >= 1
    &&& forall|k: int| 0 <= k < s.len() ==> spec_is_numeric(#[trigger] s[k])
    &&& exists|k: int| 0 <= k < s.len() && spec_is_digit(#[trigger] s[k])
    &&& forall|k1: int, k2: int|
        0 <= k1 < k2 < s.len() && #[trigger] s[k1] == '.' ==> #[trigger] s[k2] != '.'
}

/// The name of the constant `pi`, compared without regard to ASCII case.
pub open spec fn spec_name_is_pi(nm: Seq<char>) -> bool {
    nm.len() == 2 && spec_lower(nm[0]) == 'p' as u32 && spec_lower(nm[1]) == 'i' as u32
}

/// The name of the constant `e`, compared without regard to ASCII case.
pub open spec fn spec_name_is_euler(nm: Seq<char>) -> bool {
    nm.len() == 1 && spec_lower(nm[0]) == 'e' as u32
}

/// One step of tokenization from position `i`, with `acc` the tokens already
/// produced (the last of which classifies a following `-`).
pub open spec fn spec_lex(s: Seq<char>, i: int, end: int, acc: Seq<TokV>) -> Result<
    Seq<TokV>,
    LexErrV,
>
    decreases end - i, 1int,
        via spec_lex_dec
{
    if !(0 <= i && i < end && end <= s.len()) {
        Ok(acc)
    } else {
        let c = s[i];
        if spec_is_lex_space(c) {
            spec_lex(s, i + 1, end, acc)
        } else if c == '+' {
            spec_lex(s, i + 1, end, acc.push(TokV::Add))
        } else if c == '-' {
            if acc.len() == 0 || spec_is_unary_context(acc.last()) {
                spec_lex(s, i + 1, end, acc.push(TokV::UnaryMinus))
            } else {
                spec_lex(s, i + 1, end, acc.push(TokV::Subtract))
            }
        } else if c == '*' {
            spec_lex(s, i + 1, end, acc.push(TokV::Multiply))
        } else if c == '/' {
            spec_lex(s, i + 1, end, acc.push(TokV::Divide))
        } else if c == '%' {
            spec_lex(s, i + 1, end, acc.push(TokV::Modulo))
        } else if c == '^' {
            spec_lex(s, i + 1, end, acc.push(TokV::Power))
        } else if c == '(' {
            spec_lex(s, i + 1, end, acc.push(TokV::LeftParen))
        } else if c == ')' {
            spec_lex(s, i + 1, end, acc.push(TokV::RightParen))
        } else if spec_is_ident_start(c) {
            let w = word_run_end(s, i, end);
            let name = s.subrange(i, w);
            if spec_name_is_pi(name) {
                spec_lex(s, w, end, acc.push(TokV::Number(NumeralV::Pi)))
            } else if spec_name_is_euler(name) {
                spec_lex(s, w, end, acc.push(TokV::Number(NumeralV::Euler)))
            } else if w < end && s[w] == '(' {
                spec_args(s, w + 1, end, name, Seq::empty(), acc)
            } else {
                Err(LexErrV::UnknownIdentifier(name))
            }
        } else if spec_is_numeric(c) {
            let w = numeric_run_end(s, i, end);
            let lit = s.subrange(i, w);
            if spec_valid_numeral(lit) {
                spec_lex(s, w, end, acc.push(TokV::Number(NumeralV::Literal(lit))))
            } else {
                Err(LexErrV::InvalidNumber)
            }
        } else {
            Err(LexErrV::UnexpectedCharacter(c))
        }
    }
}

#[via_fn]
proof fn spec_lex_dec(s: Seq<char>, i: int, end: int, acc: Seq<TokV>) {
    if 0 <= i && i < end && end <= s.len() {
        lemma_word_run_end_bounds(s, i + 1, end);
        lemma_numeric_run_end_bounds(s, i + 1, end);
    }
}

/// Scanning of a function call's argument list from position `i` (just after
/// the name's `(`): `args` holds the tokens of the arguments already split
/// off, `acc` the tokens produced before the call. Each non-empty argument
/// substring is tokenized on its own; the call token holds the concatenation.
pub open spec fn spec_args(
    s: Seq<char>,
    i: int,
    end: int,
    name: Seq<char>,
    args: Seq<TokV>,
    acc: Seq<TokV>,
) -> Result<Seq<TokV>, LexErrV>
    decreases end - i, 0int,
        via spec_args_dec
{
    if !(0 <= i && i <= end && end <= s.len()) {
        Err(LexErrV::UnclosedArguments)
    } else {
        let j = arg_split(s, i, end, 0);
        if j >= end {
            Err(LexErrV::UnclosedArguments)
        } else if s[j] == ',' {
            if j == i {
                spec_args(s, j + 1, end, name, args, acc)
            } else {
                match spec_lex(s, i, j, Seq::empty()) {
                    Ok(ts) => spec_args(s, j + 1, end, name, args + ts, acc),
                    Err(e) => Err(e),
                }
            }
        } else {
            if j == i {
                spec_lex(s, j + 1, end, acc.push(TokV::FunctionCall(name, args)))
            } else {
                match spec_lex(s, i, j, Seq::empty()) {
                    Ok(ts) => spec_lex(s, j + 1, end, acc.push(TokV::FunctionCall(name, args + ts))),
                    Err(e) => Err(e),
                }
            }
        }
    }
}

#[via_fn]
proof fn spec_args_dec(s: Seq<char>, i: int, end: int, name: Seq<char>, args: Seq<TokV>, acc: Seq<TokV>) {
    if 0 <= i && i <= end && end <= s.len() {
        lemma_arg_split_bounds(s, i, end, 0);
    }
}

/// The token sequence of an input, or the first lexical failure.
pub open spec fn spec_tokenize(s: Seq<char>) -> Result<Seq<TokV>, LexErrV> {
    spec_lex(s, 0, s.len() as int, Seq::empty())
}

/// Decides [`spec_valid_numeral`] for the literal `chars[start..end]`, whose
/// characters are already known to be digits or decimal points.
fn check_numeral(chars: &Vec<char>, start: usize, end: usize) -> (r: bool)
    requires
        start < end <= chars@.len(),
        forall|k: int| start <= k < end ==> spec_is_numeric(#[trigger] chars@[k]),
    ensures
        r == spec_valid_numeral(chars@.subrange(start as int, end as int)),
{
    let ghost lit = chars@.subrange(start as int, end as int);
    let mut j = start;
    let mut seen_digit = false;
    let mut seen_dot = false;
    let mut double_dot = false;
    while j < end
        invariant
            start <= j <= end <= chars@.len(),
            forall|k: int| start <= k < end ==> spec_is_numeric(#[trigger] chars@[k]),
            lit == chars@.subrange(start as int, end as int),
            seen_digit <==> exists|k: int| 0 <= k < j - start && spec_is_digit(#[trigger] lit[k]),
            seen_dot <==> exists|k: int| 0 <= k < j - start && #[trigger] lit[k] == '.',
            double_dot <==> exists|k1: int, k2: int|
                0 <= k1 < k2 < j - start && #[trigger] lit[k1] == '.' && #[trigger] lit[k2] == '.',
        decreases end - j,
    {
        let c = chars[j];
        proof {
            assert(lit[j - start] == chars@[j as int]);
        }
        if is_digit(c) {
            seen_digit = true;
            proof {
                assert(spec_is_digit(lit[j - start]));
            }
        } else {
            proof {
                assert(lit[j - start] == '.');
            }
            if seen_dot {
                proof {
                    let k1 = choose|k: int| 0 <= k < j - start && #[trigger] lit[k] == '.';
                    assert(lit[k1] == '.' && lit[j - start] == '.');
                }
                double_dot = true;
            }
            seen_dot = true;
        }
        j = j + 1;
    }
    proof {
        assert(lit.len() == end - start);
        assert forall|k: int| 0 <= k < lit.len() implies spec_is_numeric(#[trigger] lit[k]) by {
            assert(lit[k] == chars@[start + k]);
        }
    }
    seen_digit && !double_dot
}

/// Decides whether the identifier `chars[start..end]` names the constant
/// `pi`, without regard to ASCII case.
fn check_pi(chars: &Vec<char>, start: usize, end: usize) -> (r: bool)
    requires
        start <= end <= chars@.len(),
    ensures
        r == spec_name_is_pi(chars@.subrange(start as int, end as int)),
{
    let ghost nm = chars@.subrange(start as int, end as int);
    if end - start == 2 {
        let r = lower(chars[start]) == 'p' as u32 && lower(chars[start + 1]) == 'i' as u32;
        proof {
            assert(nm[0] == chars@[start as int]);
            assert(nm[1] == chars@[start + 1]);
        }
        r
    } else {
        false
    }
}

/// Decides whether the identifier `chars[start..end]` names the constant
/// `e`, without regard to ASCII case.
fn check_euler(chars: &Vec<char>, start: usize, end: usize) -> (r: bool)
    requires
        start <= end <= chars@.len(),
    ensures
        r == spec_name_is_euler(chars@.subrange(start as int, end as int)),
{
    let ghost nm = chars@.subrange(start as int, end as int);
    if end - start == 1 {
        let r = lower(chars[start]) == 'e' as u32;
        proof {
            assert(nm[0] == chars@[start as int]);
        }
        r
    } else {
        false
    }
}

/// Tokenizes `chars[start..end]`.
fn lex_range(chars: &Vec<char>, start: usize, end: usize) -> (r: Result<Vec<Token>, LexError>)
    requires
        start <= end <= chars@.len(),
    ensures
        lex_result_view(r) == spec_lex(chars@, start as int, end as int, Seq::empty()),
    decreases end - start, 1int,
{
    let ghost s = chars@;
    let mut tokens: Vec<Token> = Vec::new();
    let mut cur = start;
    proof {
        assert(toks_view_from(tokens@, 0) =~= Seq::<TokV>::empty());
    }
    while cur < end
        invariant
            start <= cur <= end <= chars@.len(),
            s == chars@,
            spec_lex(s, start as int, end as int, Seq::empty()) == spec_lex(
                s,
                cur as int,
                end as int,
                toks_view(tokens@),
            ),
        decreases end - cur,
    {
        let ghost acc = toks_view(tokens@);
        let ghost cur0 = cur as int;
        let c = chars[cur];
        if is_lex_space(c) {
            cur = cur + 1;
        } else if c == '+' {
            proof {
                lemma_toks_view_push(tokens@, Token::Add);
            }
            tokens.push(Token::Add);
            cur = cur + 1;
        } else if c == '-' {
            let unary = if tokens.len() == 0 {
                true
            } else {
                let last_is_context = match &tokens[tokens.len() - 1] {
                    Token::Add => true,
                    Token::Subtract => true,
                    Token::Multiply => true,
                    Token::Divide => true,
                    Token::LeftParen => true,
                    Token::UnaryMinus => true,
                    Token::Modulo => true,
                    Token::Power => true,
                    _ => false,
                };
                proof {
                    lemma_toks_view(tokens@);
                    assert(acc.last() == tok_view(tokens@[tokens@.len() - 1]));
                }
                last_is_context
            };
            let t = if unary {
                Token::UnaryMinus
            } else {
                Token::Subtract
            };
            proof {
                lemma_toks_view(tokens@);
                lemma_toks_view_push(tokens@, t);
            }
            tokens.push(t);
            cur = cur + 1;
        } else if c == '*' {
            proof {
                lemma_toks_view_push(tokens@, Token::Multiply);
            }
            tokens.push(Token::Multiply);
            cur = cur + 1;
        } else if c == '/' {
            proof {
                lemma_toks_view_push(tokens@, Token::Divide);
            }
            tokens.push(Token::Divide);
            cur = cur + 1;
        } else if c == '%' {
            proof {
                lemma_toks_view_push(tokens@, Token::Modulo);
            }
            tokens.push(Token::Modulo);
            cur = cur + 1;
        } else if c == '^' {
            proof {
                lemma_toks_view_push(tokens@, Token::Power);
            }
            tokens.push(Token::Power);
            cur = cur + 1;
        } else if c == '(' {
            proof {
                lemma_toks_view_push(tokens@, Token::LeftParen);
            }
            tokens.push(Token::LeftParen);
            cur = cur + 1;
        } else if c == ')' {
            proof {
                lemma_toks_view_push(tokens@, Token::RightParen);
            }
            tokens.push(Token::RightParen);
            cur = cur + 1;
        } else if is_ident_start(c) {
            let mut w = cur + 1;
            proof {
                assert(word_run_end(s, cur0, end as int) == word_run_end(s, cur0 + 1, end as int));
            }
            while w < end && is_word(chars[w])
                invariant
                    cur < w <= end <= chars@.len(),
                    s == chars@,
                    word_run_end(s, cur as int, end as int) == word_run_end(
                        s,
                        w as int,
                        end as int,
                    ),
                decreases end - w,
            {
                w = w + 1;
            }
            proof {
                assert(word_run_end(s, w as int, end as int) == w);
            }
            let ghost name = s.subrange(cur as int, w as int);
            if check_pi(chars, cur, w) {
                proof {
                    lemma_toks_view_push(tokens@, Token::Number(Numeral::Pi));
                }
                tokens.push(Token::Number(Numeral::Pi));
                cur = w;
            } else if check_euler(chars, cur, w) {
                proof {
                    lemma_toks_view_push(tokens@, Token::Number(Numeral::Euler));
                }
                tokens.push(Token::Number(Numeral::Euler));
                cur = w;
            } else if w < end && chars[w] == '(' {
                match parse_function_args(chars, w + 1, end) {
                    Ok((args, next)) => {
                        let name_s = chars_to_string(chars, cur, w);
                        let ghost args_v = toks_view(args@);
                        proof {
                            assert(spec_args(s, w + 1, end as int, name, Seq::empty(), acc)
                                == spec_lex(
                                s,
                                next as int,
                                end as int,
                                acc.push(TokV::FunctionCall(name, Seq::empty() + args_v)),
                            ));
                            assert(Seq::empty() + args_v =~= args_v);
                        }
                        let t = Token::FunctionCall(name_s, args);
                        proof {
                            lemma_toks_view_push(tokens@, t);
                        }
                        tokens.push(t);
                        cur = next;
                    },
                    Err(e) => {
                        proof {
                            assert(spec_args(s, w + 1, end as int, name, Seq::empty(), acc)
                                == Err::<Seq<TokV>, LexErrV>(lex_err_view(e)));
                        }
                        return Err(e);
                    },
                }
            } else {
                let name_s = chars_to_string(chars, cur, w);
                return Err(LexError::UnknownIdentifier(name_s));
            }
        } else if is_numeric(c) {
            let mut w = cur + 1;
            proof {
                assert(numeric_run_end(s, cur0, end as int) == numeric_run_end(
                    s,
                    cur0 + 1,
                    end as int,
                ));
            }
            while w < end && is_numeric(chars[w])
                invariant
                    cur < w <= end <= chars@.len(),
                    s == chars@,
                    numeric_run_end(s, cur as int, end as int) == numeric_run_end(
                        s,
                        w as int,
                        end as int,
                    ),
                    forall|k: int| cur <= k < w ==> spec_is_numeric(#[trigger] s[k]),
                decreases end - w,
            {
                w = w + 1;
            }
            proof {
                assert(numeric_run_end(s, w as int, end as int) == w);
            }
            if check_numeral(chars, cur, w) {
                let lit_s = chars_to_string(chars, cur, w);
                let t = Token::Number(Numeral::Literal(lit_s));
                proof {
                    lemma_toks_view_push(tokens@, t);
                }
                tokens.push(t);
                cur = w;
            } else {
                return Err(LexError::InvalidNumber);
            }
        } else {
            return Err(LexError::UnexpectedCharacter(c));
        }
    }
    Ok(tokens)
}

/// Scans a function call's argument list starting just after the opening
/// parenthesis; returns the concatenated tokens of the arguments and the
/// position just after the closing parenthesis.
fn parse_function_args(chars: &Vec<char>, start: usize, end: usize) -> (r: Result<
    (Vec<Token>, usize),
    LexError,
>)
    requires
        start <= end <= chars@.len(),
    ensures
        match r {
            Ok(p) => start <= p.1 <= end && forall|name: Seq<char>, args0: Seq<TokV>, acc: Seq<
                TokV,
            >|
                #[trigger] spec_args(chars@, start as int, end as int, name, args0, acc)
                    == spec_lex(
                    chars@,
                    p.1 as int,
                    end as int,
                    acc.push(TokV::FunctionCall(name, args0 + toks_view(p.0@))),
                ),
            Err(e) => forall|name: Seq<char>, args0: Seq<TokV>, acc: Seq<TokV>|
                #[trigger] spec_args(chars@, start as int, end as int, name, args0, acc) == Err::<
                    Seq<TokV>,
                    LexErrV,
                >(lex_err_view(e)),
        },
    decreases end - start, 0int,
{
    let ghost s = chars@;
    let mut i = start;
    let mut args: Vec<Token> = Vec::new();
    proof {
        assert(toks_view_from(args@, 0) =~= Seq::<TokV>::empty());
    }
    loop
        invariant
            start <= i <= end <= chars@.len(),
            s == chars@,
            forall|name: Seq<char>, args0: Seq<TokV>, acc: Seq<TokV>|
                #[trigger] spec_args(s, start as int, end as int, name, args0, acc) == spec_args(
                    s,
                    i as int,
                    end as int,
                    name,
                    args0 + toks_view(args@),
                    acc,
                ),
        decreases end - i,
    {
        // find the next split point: a comma or the closing parenthesis at
        // nesting depth zero
        let mut j = i;
        let mut depth: usize = 0;
        while j < end && !(chars[j] == ')' && depth == 0) && !(chars[j] == ',' && depth == 0)
            invariant
                i <= j <= end <= chars@.len(),
                depth <= j - i,
                s == chars@,
                arg_split(s, i as int, end as int, 0) == arg_split(
                    s,
                    j as int,
                    end as int,
                    depth as int,
                ),
            decreases end - j,
        {
            let c = chars[j];
            if c == ')' {
                depth = depth - 1;
            } else if c == '(' {
                depth = depth + 1;
            }
            j = j + 1;
        }
        proof {
            assert(arg_split(s, j as int, end as int, depth as int) == if j < end {
                j as int
            } else {
                end as int
            });
        }
        if j >= end {
            proof {
                assert forall|name: Seq<char>, args0: Seq<TokV>, acc: Seq<TokV>|
                    #[trigger] spec_args(s, start as int, end as int, name, args0, acc) == Err::<
                        Seq<TokV>,
                        LexErrV,
                    >(lex_err_view(LexError::UnclosedArguments)) by {
                    assert(spec_args(s, start as int, end as int, name, args0, acc) == spec_args(
                        s,
                        i as int,
                        end as int,
                        name,
                        args0 + toks_view(args@),
                        acc,
                    ));
                }
            }
            return Err(LexError::UnclosedArguments);
        }
        let ghost args_old = args@;
        let ghost i0 = i as int;
        let ghost mut segv: Seq<TokV> = Seq::empty();
        let is_comma = chars[j] == ',';
        if j > i {
            match lex_range(chars, i, j) {
                Ok(mut ts) => {
                    let ghost ts_seq = ts@;
                    args.append(&mut ts);
                    proof {
                        segv = toks_view(ts_seq);
                        lemma_toks_view_add(args_old, ts_seq);
                        assert(toks_view(args@) == toks_view(args_old) + segv);
                    }
                },
                Err(e) => {
                    proof {
                        assert forall|name: Seq<char>, args0: Seq<TokV>, acc: Seq<TokV>|
                            #[trigger] spec_args(s, start as int, end as int, name, args0, acc)
                                == Err::<Seq<TokV>, LexErrV>(lex_err_view(e)) by {
                            assert(spec_args(s, start as int, end as int, name, args0, acc)
                                == spec_args(
                                s,
                                i0,
                                end as int,
                                name,
                                args0 + toks_view(args_old),
                                acc,
                            ));
                        }
                    }
                    return Err(e);
                },
            }
        }
        if is_comma {
            proof {
                assert forall|name: Seq<char>, args0: Seq<TokV>, acc: Seq<TokV>|
                    #[trigger] spec_args(s, start as int, end as int, name, args0, acc)
                        == spec_args(
                    s,
                    j as int + 1,
                    end as int,
                    name,
                    args0 + toks_view(args@),
                    acc,
                ) by {
                    assert(spec_args(s, start as int, end as int, name, args0, acc) == spec_args(
                        s,
                        i0,
                        end as int,
                        name,
                        args0 + toks_view(args_old),
                        acc,
                    ));
                    assert(toks_view(args@) == toks_view(args_old) + segv);
                    assert((args0 + toks_view(args_old)) + segv =~= args0 + toks_view(args@));
                }
            }
            i = j + 1;
        } else {
            proof {
                assert forall|name: Seq<char>, args0: Seq<TokV>, acc: Seq<TokV>|
                    #[trigger] spec_args(s, start as int, end as int, name, args0, acc) == spec_lex(
                    s,
                    j as int + 1,
                    end as int,
                    acc.push(TokV::FunctionCall(name, args0 + toks_view(args@))),
                ) by {
                    assert(spec_args(s, start as int, end as int, name, args0, acc) == spec_args(
                        s,
                        i0,
                        end as int,
                        name,
                        args0 + toks_view(args_old),
                        acc,
                    ));
                    assert(toks_view(args@) == toks_view(args_old) + segv);
                    assert((args0 + toks_view(args_old)) + segv =~= args0 + toks_view(args@));
                }
            }
            return Ok((args, j + 1));
        }
    }
}

/// The tokenizer over an input string. [`Lexer::new`] captures the input's
/// characters; [`Lexer::tokenize`] consumes them and produces the tokens.
pub struct Lexer {
    chars: Vec<char>,
}

impl View for Lexer {
    type V = Seq<char>;

    closed spec fn view(&self) -> Seq<char> {
        self.chars@
    }
}

impl Lexer {
    /// A lexer over the characters of `input`.
    pub fn new(input: &str) -> (l: Lexer)
        ensures
            l@ == input@,
    {
        Lexer { chars: str_to_chars(input) }
    }

    /// Tokenizes the remaining input: exactly [`spec_tokenize`] of the
    /// lexer's characters, which are consumed.
    pub fn tokenize(&mut self) -> (r: Result<Vec<Token>, LexError>)
        ensures
            lex_result_view(r) == spec_tokenize(old(self)@),
            final(self)@.len() == 0,
    {
        let n = self.chars.len();
        let r = lex_range(&self.chars, 0, n);
        self.chars.clear();
        r
    }
}

} // verus!
