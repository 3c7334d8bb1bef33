use rcalc::parser::{LexError, Lexer, Numeral, Token};

fn lit(s: &str) -> Token {
    Token::Number(Numeral::Literal(s.to_string()))
}

fn tokenize(input: &str) -> Result<Vec<Token>, LexError> {
    let mut lexer = Lexer::new(input);
    lexer.tokenize()
}

#[test]
fn test_negative_with_parentheses() {
    let input = "-(-5)";
    let mut lexer = Lexer::new(input);
    let tokens = lexer.tokenize().unwrap();
    assert_eq!(
        tokens,
        vec![
            Token::UnaryMinus,
            Token::LeftParen,
            Token::UnaryMinus,
            lit("5"),
            Token::RightParen
        ]
    );

    let input = "-(3 + 5)";
    let mut lexer = Lexer::new(input);
    let tokens = lexer.tokenize().unwrap();
    assert_eq!(
        tokens,
        vec![
            Token::UnaryMinus,
            Token::LeftParen,
            lit("3"),
            Token::Add,
            lit("5"),
            Token::RightParen
        ]
    );
}

#[test]
fn test_complex_negatives() {
    let input = "3 + -(-5 * 2)";
    let mut lexer = Lexer::new(input);
    let tokens = lexer.tokenize().unwrap();
    assert_eq!(
        tokens,
        vec![
            lit("3"),
            Token::Add,
            Token::UnaryMinus,
            Token::LeftParen,
            Token::UnaryMinus,
            lit("5"),
            Token::Multiply,
            lit("2"),
            Token::RightParen
        ]
    );
}

#[test]
fn test_modulo_and_power() {
    let input = "10 % 3";
    let mut lexer = Lexer::new(input);
    let tokens = lexer.tokenize().unwrap();
    assert_eq!(tokens, vec![lit("10"), Token::Modulo, lit("3")]);

    let input = "2 ^ 3";
    let mut lexer = Lexer::new(input);
    let tokens = lexer.tokenize().unwrap();
    assert_eq!(tokens, vec![lit("2"), Token::Power, lit("3")]);

    let input = "2 * 3 ^ 2 % 4";
    let mut lexer = Lexer::new(input);
    let tokens = lexer.tokenize().unwrap();
    assert_eq!(
        tokens,
        vec![
            lit("2"),
            Token::Multiply,
            lit("3"),
            Token::Power,
            lit("2"),
            Token::Modulo,
            lit("4")
        ]
    );
}

#[test]
fn test_constants_and_decimals() {
    let tokens = tokenize("pi + E * 3.14").unwrap();
    assert_eq!(
        tokens,
        vec![
            Token::Number(Numeral::Pi),
            Token::Add,
            Token::Number(Numeral::Euler),
            Token::Multiply,
            lit("3.14")
        ]
    );
}

#[test]
fn test_function_call_tokens() {
    let tokens = tokenize("comb(5, 2)").unwrap();
    assert_eq!(
        tokens,
        vec![Token::FunctionCall("comb".to_string(), vec![lit("5"), lit("2")])]
    );

    // arguments are tokenized recursively and concatenated
    let tokens = tokenize("sin(1+2)").unwrap();
    assert_eq!(
        tokens,
        vec![Token::FunctionCall(
            "sin".to_string(),
            vec![lit("1"), Token::Add, lit("2")]
        )]
    );

    // a comma inside nested parentheses does not split the argument list,
    // and the argument tokens are concatenated in order
    let tokens = tokenize("f((1+2),3)").unwrap();
    assert_eq!(
        tokens,
        vec![Token::FunctionCall(
            "f".to_string(),
            vec![
                Token::LeftParen,
                lit("1"),
                Token::Add,
                lit("2"),
                Token::RightParen,
                lit("3")
            ]
        )]
    );
}

#[test]
fn test_lexical_errors() {
    assert_eq!(
        tokenize("3 $ 4"),
        Err(LexError::UnexpectedCharacter('$'))
    );
    assert_eq!(tokenize("1..2"), Err(LexError::InvalidNumber));
    assert_eq!(tokenize("."), Err(LexError::InvalidNumber));
    assert_eq!(
        tokenize("foo + 1"),
        Err(LexError::UnknownIdentifier("foo".to_string()))
    );
    assert_eq!(tokenize("sin(1"), Err(LexError::UnclosedArguments));
}

#[test]
fn test_tokenize_deterministic() {
    // the same input always yields the same token sequence
    let a = tokenize("3 + sin(2*pi) - 4.5").unwrap();
    let b = tokenize("3 + sin(2*pi) - 4.5").unwrap();
    assert_eq!(a, b);
}

#[test]
fn test_error_messages() {
    assert_eq!(
        LexError::InvalidNumber.message(),
        "Invalid number format".to_string()
    );
    assert_eq!(
        LexError::UnknownIdentifier("abc".to_string()).message(),
        "Unexpected identifier: abc".to_string()
    );
}
