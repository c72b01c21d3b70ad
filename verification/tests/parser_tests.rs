use std::collections::VecDeque;

use logo::lexer::process;
use logo::parser::{parse, Command, Expr};
use logo::rat::Rat;

fn vec_to_vecdeque(vec: Vec<Command>) -> VecDeque<Command> {
    let mut deque = VecDeque::new();
    deque.extend(vec);
    deque
}

fn num(n: i64) -> Expr {
    Expr::Number(Rat::from_int(n))
}

#[test]
fn test_parser_1() {
    let input = "forward 3 right 30+60 backward 4.5 left 40+4*5 show 6+2*8+5*9";
    let mut tokens = process(input).unwrap();
    let ast = parse(&mut tokens).unwrap();

    let expected = vec![
        Command::Forward(num(3)),
        Command::Right(Expr::Add(Box::new(num(30)), Box::new(num(60)))),
        Command::Backward(Expr::Number(Rat::new(45, 10))),
        Command::Left(Expr::Add(
            Box::new(num(40)),
            Box::new(Expr::Mul(Box::new(num(4)), Box::new(num(5)))),
        )),
        Command::Show(Expr::Add(
            Box::new(Expr::Add(
                Box::new(num(6)),
                Box::new(Expr::Mul(Box::new(num(2)), Box::new(num(8)))),
            )),
            Box::new(Expr::Mul(Box::new(num(5)), Box::new(num(9)))),
        )),
    ];

    assert_eq!(ast, expected);
}

#[test]
fn test_parser_2() {
    let input = "repeat 2 [fd 50 rt 90 to square :size repeat 4 [fd :size rt 90] end] end";
    let mut tokens = process(input).unwrap();
    let ast = parse(&mut tokens).unwrap();

    let expected = vec_to_vecdeque(vec![Command::Repeat(
        num(2),
        vec_to_vecdeque(vec![
            Command::Forward(num(50)),
            Command::Right(num(90)),
            Command::FunctionDeclaration(
                "square".to_string(),
                vec![":size".to_string()],
                vec_to_vecdeque(vec![Command::Repeat(
                    num(4),
                    vec_to_vecdeque(vec![
                        Command::Forward(Expr::Variable(":size".to_string())),
                        Command::Right(num(90)),
                    ]),
                )]),
            ),
        ]),
    )]);

    assert_eq!(ast, expected);
}

#[test]
fn test_parser_3() {
    let input = "repeat 3 [to triangle fd 50 rt 120 end triangle]";
    let mut tokens = process(input).unwrap();
    let ast = parse(&mut tokens).unwrap();

    let expected = vec_to_vecdeque(vec![Command::Repeat(
        num(3),
        vec_to_vecdeque(vec![
            Command::FunctionDeclaration(
                "triangle".to_string(),
                vec![],
                vec_to_vecdeque(vec![
                    Command::Forward(num(50)),
                    Command::Right(num(120)),
                ]),
            ),
            Command::FunctionCall("triangle".to_string(), vec![]),
        ]),
    )]);

    assert_eq!(ast, expected);
}

#[test]
fn test_parser_4() {
    let input = "fd 2 * 3 + 4 / 2 - :size";
    let mut tokens = process(input).unwrap();
    let ast = parse(&mut tokens).unwrap();

    let expected = vec_to_vecdeque(vec![Command::Forward(Expr::Sub(
        Box::new(Expr::Add(
            Box::new(Expr::Mul(Box::new(num(2)), Box::new(num(3)))),
            Box::new(Expr::Div(Box::new(num(4)), Box::new(num(2)))),
        )),
        Box::new(Expr::Variable(":size".to_string())),
    ))]);

    assert_eq!(ast, expected);
}

#[test]
fn test_parser_5() {
    // Test case with a repeat block containing multiple commands
    let input = "repeat 5 [fd 100 rt 144]";
    let mut tokens = process(input).unwrap();
    let ast = parse(&mut tokens).unwrap();

    let expected = vec_to_vecdeque(vec![Command::Repeat(
        num(5),
        vec_to_vecdeque(vec![Command::Forward(num(100)), Command::Right(num(144))]),
    )]);

    assert_eq!(ast, expected);
}

#[test]
fn test_parser_6() {
    // Test case with a function declaration and a repeat block inside
    let input = "to star :len repeat 5 [fd :len rt 144] end";
    let mut tokens = process(input).unwrap();
    let ast = parse(&mut tokens).unwrap();

    let expected = vec_to_vecdeque(vec![Command::FunctionDeclaration(
        "star".to_string(),
        vec![":len".to_string()],
        vec_to_vecdeque(vec![Command::Repeat(
            num(5),
            vec_to_vecdeque(vec![
                Command::Forward(Expr::Variable(":len".to_string())),
                Command::Right(num(144)),
            ]),
        )]),
    )]);

    assert_eq!(ast, expected);
}

#[test]
fn test_parser_7() {
    // Test case with a function declaration, fd command, repeat block, and function call
    let input =
        "to funkcyja :xd :xdd fd 20 rt 3+6+(4+6)*8 end fd 23 repeat 123 [lt 1] funkcyja 3 4";
    let mut tokens = process(input).unwrap();
    let ast = parse(&mut tokens).unwrap();

    let expected = vec_to_vecdeque(vec![
        Command::FunctionDeclaration(
            "funkcyja".to_string(),
            vec![":xd".to_string(), ":xdd".to_string()],
            vec_to_vecdeque(vec![
                Command::Forward(num(20)),
                Command::Right(Expr::Add(
                    Box::new(Expr::Add(Box::new(num(3)), Box::new(num(6)))),
                    Box::new(Expr::Mul(
                        Box::new(Expr::Add(Box::new(num(4)), Box::new(num(6)))),
                        Box::new(num(8)),
                    )),
                )),
            ]),
        ),
        Command::Forward(num(23)),
        Command::Repeat(
            num(123),
            vec_to_vecdeque(vec![Command::Left(num(1))]),
        ),
        Command::FunctionCall("funkcyja".to_string(), vec![num(3), num(4)]),
    ]);

    assert_eq!(ast, expected);
}

#[test]
fn test_parser_8() {
    // Test case with a complex function declaration for a tree pattern
    let input = "to tree :size forward :size*0.333 left 30 tree :size*2*0.333 right 30 forward :size*0.666 right 25 tree :size*0.5 left 25 forward :size*0.333 right 25 tree :size*0.5 left 25 forward :size*0.666 back :size end tree 150";
    let mut tokens = process(input).unwrap();
    let ast = parse(&mut tokens).unwrap();

    let frac333 = || Expr::Number(Rat::new(333, 1000));
    let frac666 = || Expr::Number(Rat::new(666, 1000));
    let frac5 = || Expr::Number(Rat::new(5, 10));
    let size = || Expr::Variable(":size".to_string());

    let expected = vec_to_vecdeque(vec![
        Command::FunctionDeclaration(
            "tree".to_string(),
            vec![":size".to_string()],
            vec_to_vecdeque(vec![
                Command::Forward(Expr::Mul(Box::new(size()), Box::new(frac333()))),
                Command::Left(num(30)),
                Command::FunctionCall(
                    "tree".to_string(),
                    vec![Expr::Mul(
                        Box::new(Expr::Mul(Box::new(size()), Box::new(num(2)))),
                        Box::new(frac333()),
                    )],
                ),
                Command::Right(num(30)),
                Command::Forward(Expr::Mul(Box::new(size()), Box::new(frac666()))),
                Command::Right(num(25)),
                Command::FunctionCall(
                    "tree".to_string(),
                    vec![Expr::Mul(Box::new(size()), Box::new(frac5()))],
                ),
                Command::Left(num(25)),
                Command::Forward(Expr::Mul(Box::new(size()), Box::new(frac333()))),
                Command::Right(num(25)),
                Command::FunctionCall(
                    "tree".to_string(),
                    vec![Expr::Mul(Box::new(size()), Box::new(frac5()))],
                ),
                Command::Left(num(25)),
                Command::Forward(Expr::Mul(Box::new(size()), Box::new(frac666()))),
                Command::Backward(size()),
            ]),
        ),
        Command::FunctionCall("tree".to_string(), vec![num(150)]),
    ]);

    assert_eq!(ast, expected);
}

#[test]
fn test_parser_if_statement() {
    // Test case with if statement
    let input = "if 4 [show 9]";
    let mut tokens = process(input).unwrap();
    let ast = parse(&mut tokens).unwrap();

    let expected = vec_to_vecdeque(vec![Command::If(
        num(4),
        vec_to_vecdeque(vec![Command::Show(num(9))]),
    )]);

    assert_eq!(ast, expected);
}

#[test]
fn test_parser_ifelse_statement() {
    // Test case with ifelse statement
    let input = "ifelse 3-3 [show 12] [show 2137]";
    let mut tokens = process(input).unwrap();
    let ast = parse(&mut tokens).unwrap();

    let expected = vec_to_vecdeque(vec![Command::IfElse(
        Expr::Sub(Box::new(num(3)), Box::new(num(3))),
        vec_to_vecdeque(vec![Command::Show(num(12))]),
        vec_to_vecdeque(vec![Command::Show(num(2137))]),
    )]);

    assert_eq!(ast, expected);
}
