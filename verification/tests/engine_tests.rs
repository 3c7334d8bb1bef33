//! End-to-end tests: tokenize and evaluate with the verified engine, then
//! run the emitted numeric program over `f64` with the executor below, which
//! plays the host's part.

use rcalc::arith::{combinations, factorial, permutations};
use rcalc::evaluator::{evaluate, expand_and_evaluate, BinOp, Builtin, EvalError, Instr};
use rcalc::functions::{
    expand_custom_functions, is_function_defined, list_custom_functions, parse_definition,
    CustomFunction, DefineError, ExpandError, FunctionTable,
};
use rcalc::history::{HistoryEntry, HistoryManager};
use rcalc::parser::{LexError, Lexer, Numeral, Token};

fn num_value(n: &Numeral) -> f64 {
    match n {
        Numeral::Literal(t) => t.parse::<f64>().unwrap(),
        Numeral::Pi => std::f64::consts::PI,
        Numeral::Euler => std::f64::consts::E,
    }
}

fn zero_if_tiny(v: f64) -> f64 {
    if v.abs() < 1e-8 {
        0.0
    } else {
        v
    }
}

fn apply_bin(op: BinOp, a: f64, b: f64) -> Result<f64, EvalError> {
    match op {
        BinOp::Add => Ok(a + b),
        BinOp::Subtract => Ok(a - b),
        BinOp::Multiply => Ok(a * b),
        BinOp::Divide => {
            if b == 0.0 {
                Err(EvalError::DivisionByZero)
            } else {
                Ok(a / b)
            }
        }
        BinOp::Modulo => {
            if a.fract() != 0.0 || b.fract() != 0.0 {
                Err(EvalError::NonIntegerModulo)
            } else if b == 0.0 {
                Err(EvalError::ModuloByZero)
            } else {
                Ok(((a as i64) % (b as i64)) as f64)
            }
        }
        BinOp::Power => {
            if a == 0.0 && b == 0.0 {
                Err(EvalError::UndefinedZeroPowerZero)
            } else if a < 0.0 && b.fract() != 0.0 {
                Err(EvalError::NegativeFractionalPower)
            } else {
                let r = a.powf(b);
                if r.is_nan() {
                    Err(EvalError::InvalidPower)
                } else {
                    Ok(r)
                }
            }
        }
    }
}

fn call_builtin(b: Builtin, args: &[f64]) -> Result<f64, EvalError> {
    match b {
        Builtin::Sin => Ok(zero_if_tiny(args[0].sin())),
        Builtin::Cos => Ok(zero_if_tiny(args[0].cos())),
        Builtin::Tan => Ok(zero_if_tiny(args[0].tan())),
        Builtin::ArcSin => Ok(zero_if_tiny(args[0].asin())),
        Builtin::ArcCos => Ok(zero_if_tiny(args[0].acos())),
        Builtin::ArcTan => Ok(zero_if_tiny(args[0].atan())),
        Builtin::Exp => Ok(zero_if_tiny(args[0].exp())),
        Builtin::Log => {
            if args[0] <= 0.0 {
                Err(EvalError::ArgumentDomainError("log".to_string()))
            } else {
                Ok(zero_if_tiny(args[0].ln()))
            }
        }
        Builtin::Factorial => {
            let n = args[0];
            if n < 0.0 || n.fract() != 0.0 {
                Err(EvalError::ArgumentDomainError("fact".to_string()))
            } else {
                match factorial(n as u128) {
                    Some(v) => Ok(v as f64),
                    None => Err(EvalError::FactorialOverflow),
                }
            }
        }
        Builtin::Comb => {
            let (n, k) = (args[0], args[1]);
            if n < 0.0 || k < 0.0 || n.fract() != 0.0 || k.fract() != 0.0 || k > n {
                Err(EvalError::ArgumentDomainError("comb".to_string()))
            } else {
                match combinations(n as u128, k as u128) {
                    Some(v) => Ok(v as f64),
                    None => Err(EvalError::CombinationOverflow),
                }
            }
        }
        Builtin::Perm => {
            let (n, k) = (args[0], args[1]);
            if n < 0.0 || k < 0.0 || n.fract() != 0.0 || k.fract() != 0.0 || k > n {
                Err(EvalError::ArgumentDomainError("perm".to_string()))
            } else {
                match permutations(n as u128, k as u128) {
                    Some(v) => Ok(v as f64),
                    None => Err(EvalError::CombinationOverflow),
                }
            }
        }
    }
}

/// Runs a program the evaluator emitted. The engine's well-formedness
/// theorem guarantees the stack never underflows and one value remains.
fn run_program(prog: &[Instr]) -> Result<f64, EvalError> {
    let mut stack: Vec<f64> = Vec::new();
    for ins in prog {
        match ins {
            Instr::Push(n) => stack.push(num_value(n)),
            Instr::Negate => {
                let v = stack.pop().unwrap();
                stack.push(-v);
            }
            Instr::Apply(op) => {
                let b = stack.pop().unwrap();
                let a = stack.pop().unwrap();
                stack.push(apply_bin(*op, a, b)?);
            }
            Instr::Call(b) => {
                let arity = match b {
                    Builtin::Comb | Builtin::Perm => 2,
                    _ => 1,
                };
                let mut args = vec![0.0; arity];
                for i in (0..arity).rev() {
                    args[i] = stack.pop().unwrap();
                }
                stack.push(call_builtin(*b, &args)?);
            }
        }
    }
    Ok(stack.pop().unwrap())
}

fn eval_with(expr: &str, funcs: &FunctionTable) -> Result<f64, EvalError> {
    let mut lexer = Lexer::new(expr);
    let tokens = lexer.tokenize().map_err(EvalError::Lex)?;
    let prog = evaluate(&tokens, funcs)?;
    run_program(&prog)
}

fn eval_expr(expr: &str) -> Result<f64, EvalError> {
    let funcs = FunctionTable::new();
    eval_with(expr, &funcs)
}

/// The composed path for expressions with custom calls: expand first, as the
/// host's custom-call entry point does.
fn eval_custom(expr: &str, funcs: &FunctionTable) -> Result<f64, EvalError> {
    let prog = expand_and_evaluate(expr, funcs)?;
    run_program(&prog)
}

fn table_with(name: &str, params: &[&str], body: &str) -> FunctionTable {
    let mut t = FunctionTable::new();
    let f = CustomFunction {
        parameters: params.iter().map(|p| p.to_string()).collect(),
        expression: body.to_string(),
    };
    t.register(name, f).unwrap();
    t
}

#[test]
fn test_unary_minus() {
    assert_eq!(eval_expr("-5").unwrap(), -5.0);
    assert_eq!(eval_expr("-(-5)").unwrap(), 5.0);
    assert_eq!(eval_expr("-(-(-5))").unwrap(), -5.0);
    assert_eq!(eval_expr("-(-(-(-5)))").unwrap(), 5.0);

    assert_eq!(eval_expr("--5").unwrap(), 5.0);
    assert_eq!(eval_expr("---5").unwrap(), -5.0);
    assert_eq!(eval_expr("----5").unwrap(), 5.0);

    assert_eq!(eval_expr("3 + -5").unwrap(), -2.0);
    assert_eq!(eval_expr("3 * -5").unwrap(), -15.0);

    assert_eq!(eval_expr("-(3 + 5)").unwrap(), -8.0);
    assert_eq!(eval_expr("-(3 * 5)").unwrap(), -15.0);
    assert_eq!(eval_expr("-(-(3 + 5))").unwrap(), 8.0);

    assert_eq!(eval_expr("-(3 + 5) * -2").unwrap(), 16.0);
    assert_eq!(eval_expr("3 * -(5 + 2)").unwrap(), -21.0);
    assert_eq!(eval_expr("-(-3 * 4) + -(10 / 2)").unwrap(), 7.0);
    assert_eq!(eval_expr("-(3 * -(5 + 2))").unwrap(), 21.0);
    assert_eq!(eval_expr("-(-2 ^ 3)").unwrap(), 8.0);
    assert_eq!(eval_expr("-(3 + -(-5))").unwrap(), -8.0);
}

#[test]
fn test_complex_expression() {
    assert_eq!(eval_expr("-(-3 * 4) + -(10 / 2)").unwrap(), 7.0);
    assert_eq!(eval_expr("-(-3 * 4) * -(10 / 2)").unwrap(), -60.0);
    assert_eq!(eval_expr("-(-3 * -4) + -(10 / 2)").unwrap(), -17.0);
    assert_eq!(eval_expr("-(2 * 3) + -(-4 / 2)").unwrap(), -4.0);
}

#[test]
fn test_unary_minus_errors() {
    assert!(eval_expr("-").is_err());
    assert!(eval_expr("3 + -").is_err());
    assert!(eval_expr("-( )").is_err());

    assert!(eval_expr("3 -").is_err());
}

#[test]
fn test_unary_minus_priority() {
    assert_eq!(eval_expr("-2+4").unwrap(), 2.0);
    assert_eq!(eval_expr("-2-4").unwrap(), -6.0);
    assert_eq!(eval_expr("2+-4").unwrap(), -2.0);
    assert_eq!(eval_expr("2--4").unwrap(), 6.0);
    assert_eq!(eval_expr("-2*3").unwrap(), -6.0);
    assert_eq!(eval_expr("-2/4").unwrap(), -0.5);
    assert_eq!(eval_expr("2*-4").unwrap(), -8.0);
    assert_eq!(eval_expr("2/-4").unwrap(), -0.5);
    assert_eq!(eval_expr("-2^3").unwrap(), -8.0);
    assert_eq!(eval_expr("(-2)^3").unwrap(), -8.0);
    assert_eq!(eval_expr("(-2)^2").unwrap(), 4.0);

    assert_eq!(eval_expr("-3*4+5").unwrap(), -7.0);
    assert_eq!(eval_expr("3*-4+5").unwrap(), -7.0);
    assert_eq!(eval_expr("3+4*-5").unwrap(), -17.0);
    assert_eq!(eval_expr("(3+4)*-5").unwrap(), -35.0);
    assert_eq!(eval_expr("-3+4*5").unwrap(), 17.0);
    assert_eq!(eval_expr("3+-4*5").unwrap(), -17.0);
}

#[test]
fn test_modulo_operations() {
    assert_eq!(eval_expr("10 % 3").unwrap(), 1.0);
    assert_eq!(eval_expr("15 % 4").unwrap(), 3.0);

    assert_eq!(eval_expr("-10 % 3").unwrap(), -1.0);
    assert_eq!(eval_expr("10 % -3").unwrap(), 1.0);
    assert_eq!(eval_expr("-10 % -3").unwrap(), -1.0);

    assert_eq!(eval_expr("10 + 8 % 3").unwrap(), 12.0);
    assert_eq!(eval_expr("10 * 8 % 3").unwrap(), 2.0);
    assert_eq!(eval_expr("(10 + 8) % 3").unwrap(), 0.0);

    assert!(eval_expr("10 % 0").is_err());

    assert!(eval_expr("7.5 % 3.2").is_err());
    assert!(eval_expr("10.5 % 3.5").is_err());
}

#[test]
fn test_mixed_operations() {
    assert_eq!(eval_expr("2 ^ 3 + 10 % 3").unwrap(), 9.0);
    assert_eq!(eval_expr("(5 + 3) % 4 * 2 ^ 2").unwrap(), 0.0);
    assert_eq!(eval_expr("10 % 3 ^ 2").unwrap(), 1.0);
    assert_eq!(eval_expr("2 ^ (3 % 2)").unwrap(), 2.0);

    assert!(eval_expr("10.5 % 3 + 2").is_err());
    assert!(eval_expr("2 * (10 % 3.5)").is_err());
}

#[test]
fn test_power_operations() {
    assert_eq!(eval_expr("2 ^ 3").unwrap(), 8.0);
    assert_eq!(eval_expr("3 ^ 2").unwrap(), 9.0);
    assert_eq!(eval_expr("4 ^ 0.5").unwrap(), 2.0);

    assert_eq!(eval_expr("2 ^ -2").unwrap(), 0.25);
    assert_eq!(eval_expr("-2 ^ 3").unwrap(), -8.0);
    assert_eq!(eval_expr("(-2) ^ 3").unwrap(), -8.0);
    assert_eq!(eval_expr("(-2) ^ 2").unwrap(), 4.0);

    assert_eq!(eval_expr("2 * 3 ^ 2").unwrap(), 18.0);
    assert_eq!(eval_expr("(2 * 3) ^ 2").unwrap(), 36.0);
    assert_eq!(eval_expr("2 ^ 3 ^ 2").unwrap(), 512.0);
    assert_eq!(eval_expr("4 ^ -0.5").unwrap(), 0.5);

    assert_eq!(eval_expr("0 ^ 5").unwrap(), 0.0);
    assert_eq!(eval_expr("5 ^ 0").unwrap(), 1.0);

    assert!(eval_expr("0 ^ 0").is_err());
    assert!(eval_expr("(-2) ^ 0.5").is_err());
}

#[test]
fn test_nan_handling() {
    assert!(eval_expr("(-2) ^ 0.5").is_err());
    assert!(eval_expr("(-1) ^ 0.5").is_err());
    assert!(eval_expr("(-4) ^ (1/2)").is_err());
    assert!(eval_expr("(-8) ^ (1/3)").is_err());

    assert_eq!(eval_expr("(-8) ^ (1/1)").unwrap(), -8.0);
    assert_eq!(eval_expr("(-8) ^ 1").unwrap(), -8.0);
    assert_eq!(eval_expr("(-8) ^ 2").unwrap(), 64.0);
    assert_eq!(eval_expr("(-8) ^ -1").unwrap(), -0.125);
}

#[test]
fn test_power_mixed_operations() {
    assert_eq!(eval_expr("2 ^ 3 + 10 % 3").unwrap(), 9.0);
    assert_eq!(eval_expr("(5 + 3) % 4 * 2 ^ 2").unwrap(), 0.0);
    assert_eq!(eval_expr("10 % 3 ^ 2").unwrap(), 1.0);
    assert_eq!(eval_expr("2 ^ (3 % 2)").unwrap(), 2.0);
}

#[test]
fn test_power_right_associativity() {
    assert_eq!(eval_expr("2 ^ 3 ^ 2").unwrap(), 512.0);
    assert_eq!(eval_expr("2 ^ (3 ^ 2)").unwrap(), 512.0);
    assert_eq!(eval_expr("(2 ^ 3) ^ 2").unwrap(), 64.0);
    assert_eq!(eval_expr("3 ^ 2 ^ 2").unwrap(), 81.0);
    assert_eq!(eval_expr("4 ^ 3 ^ 2").unwrap(), 262144.0);
    assert_eq!(eval_expr("2 ^ 3 ^ 4").unwrap(), 2417851639229258349412352.0);
}

#[test]
fn test_integration() {
    let input = "3+5*2-8/4";
    let mut lexer = Lexer::new(input);
    let tokens = lexer.tokenize().unwrap();
    let funcs = FunctionTable::new();
    let prog = evaluate(&tokens, &funcs).unwrap();
    assert_eq!(run_program(&prog).unwrap(), 11.0);
}

#[test]
fn test_precedence_and_associativity() {
    assert_eq!(eval_expr("3+5*2").unwrap(), 13.0);
    assert_eq!(eval_expr("2*3^2").unwrap(), 18.0);
    assert_eq!(eval_expr("10-3-2").unwrap(), 5.0);
    assert_eq!(eval_expr("16/4/2").unwrap(), 2.0);
}

#[test]
fn test_paren_wrapping_changes_nothing() {
    for e in ["3+5*2", "10-3-2", "2^3^2", "-(-3 * 4) + -(10 / 2)"] {
        let wrapped = format!("({})", e);
        assert_eq!(eval_expr(e).unwrap(), eval_expr(&wrapped).unwrap());
    }
}

#[test]
fn test_domain_failures() {
    assert_eq!(eval_expr("10/0"), Err(EvalError::DivisionByZero));
    assert_eq!(eval_expr("10%0"), Err(EvalError::ModuloByZero));
    assert_eq!(eval_expr("7.5%3.2"), Err(EvalError::NonIntegerModulo));
    assert_eq!(eval_expr("0^0"), Err(EvalError::UndefinedZeroPowerZero));
    assert_eq!(
        eval_expr("(-2)^0.5"),
        Err(EvalError::NegativeFractionalPower)
    );
}

#[test]
fn test_structural_failures() {
    assert_eq!(eval_expr(""), Err(EvalError::EmptyExpression));
    assert_eq!(eval_expr("(3+5"), Err(EvalError::MismatchedParens));
    assert_eq!(eval_expr("3+5)"), Err(EvalError::MismatchedParens));
    assert_eq!(eval_expr("3 -"), Err(EvalError::MissingOperand));
    assert_eq!(eval_expr("()"), Err(EvalError::NoResult));
    assert_eq!(
        eval_expr("3 $"),
        Err(EvalError::Lex(LexError::UnexpectedCharacter('$')))
    );

    // two adjacent values cannot come from the tokenizer, but a hand-built
    // token sequence must still be rejected rather than half-evaluated
    let funcs = FunctionTable::new();
    let tokens = vec![
        Token::Number(Numeral::Literal("1".to_string())),
        Token::Number(Numeral::Literal("2".to_string())),
    ];
    assert_eq!(evaluate(&tokens, &funcs), Err(EvalError::StackImbalance));
}

#[test]
fn test_builtin_functions() {
    assert_eq!(eval_expr("sin(0)").unwrap(), 0.0);
    assert_eq!(eval_expr("cos(0)").unwrap(), 1.0);
    assert_eq!(eval_expr("sin(pi)").unwrap(), 0.0); // snapped below 1e-8
    assert_eq!(eval_expr("exp(0)").unwrap(), 1.0);
    assert_eq!(eval_expr("log(e)").unwrap(), 1.0);
    assert_eq!(eval_expr("fact(5)").unwrap(), 120.0);
    assert_eq!(eval_expr("factorial(5)").unwrap(), 120.0);
    assert_eq!(eval_expr("comb(5, 2)").unwrap(), 10.0);
    assert_eq!(eval_expr("perm(5, 2)").unwrap(), 20.0);
    assert_eq!(eval_expr("SIN(0)").unwrap(), 0.0); // names fold case

    assert_eq!(
        eval_expr("log(0)"),
        Err(EvalError::ArgumentDomainError("log".to_string()))
    );
    assert_eq!(
        eval_expr("fact(1.5)"),
        Err(EvalError::ArgumentDomainError("fact".to_string()))
    );
    assert_eq!(eval_expr("fact(35)"), Err(EvalError::FactorialOverflow));
    assert_eq!(
        eval_expr("comb(200, 100)"),
        Err(EvalError::CombinationOverflow)
    );
    assert_eq!(
        eval_expr("sin(1, 2)"),
        Err(EvalError::WrongArgumentCount("sin".to_string()))
    );
    // an argument list of three tokens is a wrong argument count: a call
    // takes literal numbers
    assert_eq!(
        eval_expr("sin(1+2)"),
        Err(EvalError::WrongArgumentCount("sin".to_string()))
    );
    assert_eq!(
        eval_expr("sin(+)"),
        Err(EvalError::NonNumericArgument("sin".to_string()))
    );
    assert_eq!(
        eval_expr("nosuch(1)"),
        Err(EvalError::UndefinedFunction("nosuch".to_string()))
    );
}

#[test]
fn test_custom_function_round_trip() {
    let funcs = table_with("f", &["x"], "x*2");
    assert_eq!(eval_with("f(3)", &funcs).unwrap(), 6.0);
    assert_eq!(eval_with("f(3) + 1", &funcs).unwrap(), 7.0);
}

#[test]
fn test_custom_function_redefinition_fails() {
    let mut funcs = table_with("f", &["x"], "x*2");
    let again = CustomFunction {
        parameters: vec!["y".to_string()],
        expression: "y+1".to_string(),
    };
    assert_eq!(funcs.register("f", again), Err(DefineError::AlreadyDefined));
    // the first definition still stands
    assert_eq!(eval_with("f(3)", &funcs).unwrap(), 6.0);
}

#[test]
fn test_custom_function_wrong_arity() {
    let funcs = table_with("f", &["x"], "x*2");
    assert_eq!(
        eval_with("f(1, 2)", &funcs),
        Err(EvalError::Expand(ExpandError::ArgumentCountMismatch))
    );
    assert_eq!(
        expand_custom_functions("f(1, 2)", &funcs),
        Err(ExpandError::ArgumentCountMismatch)
    );
}

#[test]
fn test_expansion_substitution() {
    let funcs = table_with("f", &["x"], "x*2");
    assert_eq!(
        expand_custom_functions("f(3)", &funcs).unwrap(),
        "((3)*2)".to_string()
    );
    // substitution is word-boundary-safe: the x of exp stays
    let funcs2 = table_with("g", &["x"], "exp(0)+x");
    assert_eq!(eval_with("g(2)", &funcs2).unwrap(), 3.0);
    // an unregistered call is left alone
    let funcs3 = FunctionTable::new();
    assert_eq!(
        expand_custom_functions("sin(1)", &funcs3).unwrap(),
        "sin(1)".to_string()
    );
}

#[test]
fn test_custom_functions_with_two_parameters() {
    let funcs = table_with("add2", &["a", "b"], "a+b");
    assert_eq!(eval_with("add2(3, 4)", &funcs).unwrap(), 7.0);
    // a call token carries its arguments' tokens concatenated, so a compound
    // argument is not a literal number and the direct path refuses it ...
    assert_eq!(
        eval_with("add2(2*3, 4) + 1", &funcs),
        Err(EvalError::NonNumericArgument("add2".to_string()))
    );
    // ... while the expand-first path substitutes it textually
    assert_eq!(eval_custom("add2(2*3, 4) + 1", &funcs).unwrap(), 11.0);
}

#[test]
fn test_cyclic_definitions_are_cut_off() {
    let mut funcs = FunctionTable::new();
    funcs
        .register(
            "f",
            CustomFunction {
                parameters: vec!["x".to_string()],
                expression: "g(5)".to_string(),
            },
        )
        .unwrap();
    funcs
        .register(
            "g",
            CustomFunction {
                parameters: vec!["x".to_string()],
                expression: "f(5)".to_string(),
            },
        )
        .unwrap();
    assert_eq!(
        eval_with("f(5)", &funcs),
        Err(EvalError::ExpansionDepthExceeded)
    );
}

#[test]
fn test_registry() {
    let mut funcs = FunctionTable::new();
    assert!(!is_function_defined(&funcs, "f"));
    assert_eq!(list_custom_functions(&funcs).len(), 0);
    funcs
        .register(
            "f",
            CustomFunction {
                parameters: vec!["x".to_string()],
                expression: "x*2".to_string(),
            },
        )
        .unwrap();
    assert!(is_function_defined(&funcs, "f"));
    assert!(!is_function_defined(&funcs, "F"));
    let listed = list_custom_functions(&funcs);
    assert_eq!(listed.len(), 1);
    assert_eq!(listed[0].0, "f".to_string());
    assert_eq!(listed[0].1.expression, "x*2".to_string());
}

#[test]
fn test_parse_definition() {
    let (name, params, body) = parse_definition("f(x, y) = x + y").unwrap();
    assert_eq!(name, "f".to_string());
    assert_eq!(params, vec!["x".to_string(), "y".to_string()]);
    assert_eq!(body, "x + y".to_string());

    let (name, params, body) = parse_definition("  g () = 41+1  ").unwrap();
    assert_eq!(name, "g".to_string());
    assert_eq!(params, Vec::<String>::new());
    assert_eq!(body, "41+1".to_string());

    assert_eq!(parse_definition("f(x)"), Err(DefineError::Malformed));
    assert_eq!(parse_definition("= x"), Err(DefineError::Malformed));
    assert_eq!(parse_definition("f(x) ="), Err(DefineError::Malformed));
    assert_eq!(
        parse_definition("f(x, x) = x"),
        Err(DefineError::DuplicateParameter)
    );
}

#[test]
fn test_history_trimming() {
    let manager = HistoryManager::new("history/calc_history.json", 3);
    assert_eq!(manager.max_entries(), 3);
    assert_eq!(manager.file_path(), "history/calc_history.json");
    let clone = manager.clone_manager();
    assert_eq!(clone.max_entries(), 3);
    assert_eq!(clone.file_path(), "history/calc_history.json");

    let entry = |i: usize| HistoryEntry {
        expression: format!("{}+{}", i, i),
        result: format!("{}", i * 2),
        timestamp: format!("t{}", i),
    };
    let mut history: Vec<HistoryEntry> = Vec::new();
    for i in 0..5 {
        history = manager.push_entry(history, entry(i));
    }
    // at most three entries stay, the oldest dropped first
    assert_eq!(history.len(), 3);
    assert_eq!(history[0].expression, "2+2".to_string());
    assert_eq!(history[2].expression, "4+4".to_string());
}

#[test]
fn test_combinatorics() {
    assert_eq!(factorial(0), Some(1));
    assert_eq!(factorial(5), Some(120));
    assert_eq!(factorial(34).is_some(), true);
    assert_eq!(factorial(35), None);
    assert_eq!(permutations(5, 0), Some(1));
    assert_eq!(permutations(5, 2), Some(20));
    assert_eq!(combinations(5, 2), Some(10));
    assert_eq!(combinations(52, 5), Some(2598960));
    assert_eq!(combinations(200, 100), None);
}
