use calc::compile::{compile, Instr};
use calc::lexer::Lexer;
use calc::token::Token;

/// Runs a compiled program on an operand stack. Arithmetic instructions are
/// only ever emitted with two operands pending, so the pops cannot fail.
fn run_program(program: &[Instr]) -> f64 {
    let mut stack: Vec<f64> = Vec::new();
    for instr in program {
        match instr {
            Instr::Literal(text) => stack.push(text.parse().unwrap_or(0.0)),
            Instr::Zero => stack.push(0.0),
            _ => {
                let right = stack.pop().expect("compiled programs never underflow");
                let left = stack.pop().expect("compiled programs never underflow");
                let value = match instr {
                    Instr::Add => left + right,
                    Instr::Sub => left - right,
                    Instr::Mul => left * right,
                    Instr::Div => left / right,
                    _ => 0.0,
                };
                stack.push(value);
            }
        }
    }
    stack.pop().unwrap_or(0.0)
}

fn evaluate(input: &str) -> f64 {
    run_program(&compile(input))
}

#[test]
fn test_unary_minus() {
    assert_eq!(evaluate("-5 + 3"), -2.0);
    assert_eq!(evaluate("5 + -3"), 2.0);
    assert_eq!(evaluate("-(5 + 5)"), -10.0);
}

#[test]
fn test_complex_precedence() {
    assert_eq!(evaluate("2 + 3 * (8 / 4)"), 8.0);
    assert_eq!(evaluate("-2 * 3 + 4"), -2.0);
}

#[test]
fn precedence_binds_products_first() {
    assert_eq!(evaluate("2+3*4"), 14.0);
    assert_eq!(evaluate("2*3+4"), 10.0);
}

#[test]
fn left_associative_subtraction() {
    assert_eq!(evaluate("8 - 3 - 2"), 3.0);
}

#[test]
fn left_associative_division() {
    assert_eq!(evaluate("16/4/2"), 2.0);
}

#[test]
fn whitespace_between_tokens_is_immaterial() {
    assert_eq!(compile("1+2"), compile(" 1 + 2 "));
    assert_eq!(evaluate("1+2"), evaluate(" 1 + 2 "));
    assert_eq!(compile("12.5*(3-4)"), compile("\t12.5 * ( 3\n- 4 )\t"));
}

#[test]
fn blank_input_is_zero() {
    assert_eq!(evaluate(""), 0.0);
    assert_eq!(evaluate("   \t  "), 0.0);
    assert!(compile("").is_empty());
    assert!(compile(" \t\n").is_empty());
}

#[test]
fn division_by_zero_follows_ieee() {
    assert!(evaluate("1/0").is_infinite());
    assert!(evaluate("1/0") > 0.0);
    assert_eq!(evaluate("-1/0"), f64::NEG_INFINITY);
    assert!(evaluate("0/0").is_nan());
}

#[test]
fn nested_parentheses() {
    assert_eq!(evaluate("((1+2))*3"), 9.0);
    assert_eq!(evaluate("((((7))))"), 7.0);
}

#[test]
fn compiled_program_shape() {
    let expected = vec![
        Instr::Literal("1".to_string()),
        Instr::Literal("2".to_string()),
        Instr::Literal("3".to_string()),
        Instr::Mul,
        Instr::Add,
    ];
    assert_eq!(compile("1+2*3"), expected);
    let negated = vec![
        Instr::Zero,
        Instr::Literal("5".to_string()),
        Instr::Sub,
    ];
    assert_eq!(compile("-5"), negated);
}

#[test]
fn lexer_scans_numbers_and_operators() {
    let mut lexer = Lexer::new(" 12.5+x");
    assert_eq!(lexer.next_token(), Token::Number("12.5".to_string()));
    assert_eq!(lexer.next_token(), Token::Plus);
    assert_eq!(lexer.next_token(), Token::Eof);
}

#[test]
fn lexer_stops_at_unrecognized_characters() {
    let mut lexer = Lexer::new("1 @ 2");
    assert_eq!(lexer.next_token(), Token::Number("1".to_string()));
    assert_eq!(lexer.next_token(), Token::Eof);
    assert_eq!(evaluate("1 @ 2"), 1.0);
    assert_eq!(evaluate("abc"), 0.0);
    assert_eq!(evaluate(".5"), 0.0);
}

#[test]
fn unary_minus_through_products() {
    assert_eq!(evaluate("-5 * 3"), -15.0);
    assert_eq!(evaluate("5 * -3"), -15.0);
    assert_eq!(evaluate("-6 / 3 + 1"), -1.0);
}

#[test]
fn malformed_input_degrades_silently() {
    assert_eq!(evaluate("2 3"), 3.0);
    assert_eq!(evaluate("(1"), 1.0);
    assert_eq!(evaluate("1)"), 1.0);
    assert_eq!(evaluate("+"), 0.0);
    assert_eq!(evaluate("--5"), -5.0);
    assert_eq!(evaluate("1 + + 2"), 3.0);
    assert_eq!(evaluate("1.2.3"), 0.0);
}

#[test]
fn stray_open_paren_over_two_operands() {
    assert_eq!(compile("1 (2").last(), Some(&Instr::Paren));
    assert_eq!(evaluate("1 (2"), 0.0);
}

#[test]
fn fractional_literals() {
    assert_eq!(evaluate("5 + 3.5"), 8.5);
    assert_eq!(evaluate("2.5*4"), 10.0);
}
