use std::collections::VecDeque;

use logo::evaluator::Value;
use logo::lexer::{process, Token};
use logo::parser::{parse, Command, ParseErr};
use logo::rat::{
    rat_add, rat_div, rat_eq_val, rat_floor_clamped, rat_lt, rat_mul, rat_neg, rat_sub, Rat,
};
use logo::trig::rat_cos_sin;

#[test]
fn lexer_splits_every_token_kind() {
    let toks = process("fd 2.5 :ab hello + - * / < = ( ) [ ] TO END").unwrap();
    let expected: Vec<Token> = vec![
        Token::Forward,
        Token::Number(Rat::new(25, 10)),
        Token::Variable(":ab".to_string()),
        Token::Function("hello".to_string()),
        Token::Add,
        Token::Sub,
        Token::Mul,
        Token::Div,
        Token::Lt,
        Token::Eq,
        Token::LParen,
        Token::RParen,
        Token::LBracket,
        Token::RBracket,
        Token::To,
        Token::End,
    ];
    assert_eq!(toks, expected);
}

#[test]
fn lexer_prefers_keywords_and_longest_match() {
    let toks = process("forward forwardx backs back").unwrap();
    let expected: Vec<Token> = vec![
        Token::Forward,
        Token::Function("forwardx".to_string()),
        Token::Function("backs".to_string()),
        Token::Backward,
    ];
    assert_eq!(toks, expected);
}

#[test]
fn lexer_needs_no_spaces_between_operators() {
    let toks = process("30+60").unwrap();
    let expected: Vec<Token> = vec![
        Token::Number(Rat::from_int(30)),
        Token::Add,
        Token::Number(Rat::from_int(60)),
    ];
    assert_eq!(toks, expected);
}

#[test]
fn lexer_rejects_unknown_characters() {
    let e = process("fd @5").unwrap_err();
    assert_eq!(e.pos, 3);
}

#[test]
fn lexer_rejects_bare_sigil() {
    assert!(process("show :").is_err());
}

#[test]
fn lexer_rejects_oversized_literals() {
    assert!(process("show 1234567890123456789").is_err());
    assert!(process("show 123456789012345678").is_ok());
    assert!(process("show 1.0000000000000000001").is_err());
}

#[test]
fn lexer_accepts_empty_input() {
    assert_eq!(process("").unwrap(), VecDeque::<Token>::new());
}

#[test]
fn parser_reports_each_syntax_error() {
    let check = |src: &str, want: ParseErr| {
        let mut toks = process(src).unwrap();
        assert_eq!(parse(&mut toks).unwrap_err(), want, "for {:?}", src);
    };
    check("repeat 2 [fd 5", ParseErr::MissingRBracket);
    check("repeat 2 fd 5", ParseErr::MissingLBracket);
    check("to f fd 5", ParseErr::MissingEnd);
    check("show (1+2", ParseErr::MissingRParen);
    check("to 5 end", ParseErr::MissingName);
    check("fd +", ParseErr::BadExpression);
    check("5", ParseErr::BadCommand);
}

#[test]
fn parser_leaves_a_stray_terminator_in_the_queue() {
    let mut toks = process("fd 5 ]").unwrap();
    let ast = parse(&mut toks).unwrap();
    assert_eq!(ast.len(), 1);
    assert_eq!(toks, vec![Token::RBracket]);
}

#[test]
fn parser_gathers_call_arguments_greedily() {
    let mut toks = process("f 1 red pick [1] show 2").unwrap();
    let ast = parse(&mut toks).unwrap();
    assert_eq!(ast.len(), 2);
    match &ast[0] {
        Command::FunctionCall(name, args) => {
            assert_eq!(name, "f");
            assert_eq!(args.len(), 3);
        }
        other => panic!("expected a call, got {:?}", other),
    }
    assert!(matches!(&ast[1], Command::Show(_)));
}

#[test]
fn rational_arithmetic_is_exact() {
    let half = Rat::new(1, 2);
    let third = Rat::new(1, 3);
    assert_eq!(rat_add(half, third), Some(Rat::new(5, 6)));
    assert_eq!(rat_sub(half, third), Some(Rat::new(1, 6)));
    assert_eq!(rat_mul(half, third), Some(Rat::new(1, 6)));
    assert_eq!(rat_div(half, third), Some(Rat::new(3, 2)));
    assert_eq!(rat_neg(half), Some(Rat::new(-1, 2)));
}

#[test]
fn rational_division_keeps_the_denominator_positive() {
    let r = rat_div(Rat::from_int(1), Rat::from_int(-2)).unwrap();
    assert_eq!((r.num, r.den), (-1, 2));
}

#[test]
fn rational_comparison_sees_through_representations() {
    assert!(rat_eq_val(Rat::new(2, 4), Rat::new(1, 2)));
    assert!(rat_lt(Rat::new(1, 3), Rat::new(1, 2)));
    assert!(!rat_lt(Rat::new(1, 2), Rat::new(1, 2)));
}

#[test]
fn rational_overflow_is_reported() {
    let big = Rat::from_int(i64::MAX);
    assert_eq!(rat_mul(big, big), None);
    assert_eq!(rat_neg(Rat::new(i64::MIN, 1)), None);
}

#[test]
fn floor_clamps_below_zero() {
    assert_eq!(rat_floor_clamped(Rat::new(29, 10)), 2);
    assert_eq!(rat_floor_clamped(Rat::from_int(3)), 3);
    assert_eq!(rat_floor_clamped(Rat::new(-5, 2)), 0);
    assert_eq!(rat_floor_clamped(Rat::new(0, 1)), 0);
}

#[test]
fn trig_is_exact_at_right_angles() {
    let cases: Vec<(i64, i64, i64)> = vec![
        (0, 1_000_000_000, 0),
        (90, 0, 1_000_000_000),
        (180, -1_000_000_000, 0),
        (270, 0, -1_000_000_000),
        (360, 1_000_000_000, 0),
        (-90, 0, -1_000_000_000),
        (450, 0, 1_000_000_000),
    ];
    for (deg, cn, sn) in cases {
        let (c, s) = rat_cos_sin(Rat::from_int(deg));
        assert_eq!((c.num, s.num), (cn, sn), "at {} degrees", deg);
        assert_eq!((c.den, s.den), (1_000_000_000, 1_000_000_000));
    }
}

#[test]
fn trig_approximates_other_angles_closely() {
    let (c, s) = rat_cos_sin(Rat::from_int(60));
    assert!((c.num - 500_000_000).abs() <= 10, "cos 60 = {}", c.num);
    assert!((s.num - 866_025_404).abs() <= 10, "sin 60 = {}", s.num);
    let (c2, s2) = rat_cos_sin(Rat::new(-45, 1));
    assert!((c2.num - 707_106_781).abs() <= 10);
    assert!((s2.num + 707_106_781).abs() <= 10);
}

#[test]
fn value_reports_its_number() {
    assert_eq!(Value::Number(Rat::from_int(4)).get_number(), Some(Rat::from_int(4)));
    assert_eq!(Value::Color("red".to_string()).get_number(), None);
}
