use vstd::prelude::*;
use std::collections::VecDeque;
use crate::rat::Rat;
use crate::lexer::{tokens_model, Token, TokenM};
use crate::expr_parser::{eq_s, next_pos};

verus! {

broadcast use vstd::std_specs::vecdeque::group_vec_dequeue_axioms;

/// An expression of the surface language.
#[derive(Debug, PartialEq)]
pub enum Expr {
    Variable(String),
    Number(Rat),
    Minus(Box<Expr>),
    Mul(Box<Expr>, Box<Expr>),
    Add(Box<Expr>, Box<Expr>),
    Div(Box<Expr>, Box<Expr>),
    Sub(Box<Expr>, Box<Expr>),
    Lt(Box<Expr>, Box<Expr>),
    Eq(Box<Expr>, Box<Expr>),
    Rand(Box<Expr>),
    Color(String),
    Pick(VecDeque<Expr>),
}

/// A command of the surface language.  A body is an ordered command list.
#[derive(Debug, PartialEq)]
pub enum Command {
    Forward(Expr),
    Backward(Expr),
    Right(Expr),
    Left(Expr),
    Show(Expr),
    Repeat(Expr, VecDeque<Command>),
    FunctionDeclaration(String, Vec<String>, VecDeque<Command>),
    FunctionCall(String, Vec<Expr>),
    If(Expr, VecDeque<Command>),
    IfElse(Expr, VecDeque<Command>, VecDeque<Command>),
    Clearscreen,
    Stop,
    Setcolor(Expr),
    PenUp,
    PenDown,
    ShowTurtle,
    HideTurtle,
}

/// The mathematical shape of an expression: names as character sequences,
/// lists as `Seq`.  The specification parser below produces these.
pub ghost enum ExprM {
    Variable(Seq<char>),
    Number(Rat),
    Minus(Box<ExprM>),
    Mul(Box<ExprM>, Box<ExprM>),
    Add(Box<ExprM>, Box<ExprM>),
    Div(Box<ExprM>, Box<ExprM>),
    Sub(Box<ExprM>, Box<ExprM>),
    Lt(Box<ExprM>, Box<ExprM>),
    Eq(Box<ExprM>, Box<ExprM>),
    Rand(Box<ExprM>),
    Color(Seq<char>),
    Pick(Seq<ExprM>),
}

/// The mathematical shape of a command.
pub ghost enum CommandM {
    Forward(ExprM),
    Backward(ExprM),
    Right(ExprM),
    Left(ExprM),
    Show(ExprM),
    Repeat(ExprM, Seq<CommandM>),
    FunctionDeclaration(Seq<char>, Seq<Seq<char>>, Seq<CommandM>),
    FunctionCall(Seq<char>, Seq<ExprM>),
    If(ExprM, Seq<CommandM>),
    IfElse(ExprM, Seq<CommandM>, Seq<CommandM>),
    Clearscreen,
    Stop,
    Setcolor(ExprM),
    PenUp,
    PenDown,
    ShowTurtle,
    HideTurtle,
}

pub open spec fn expr_model(e: Expr) -> ExprM
    decreases e,
{
    match e {
        Expr::Variable(name) => ExprM::Variable(name@),
        Expr::Number(r) => ExprM::Number(r),
        Expr::Minus(a) => ExprM::Minus(Box::new(expr_model(*a))),
        Expr::Mul(a, b) => ExprM::Mul(Box::new(expr_model(*a)), Box::new(expr_model(*b))),
        Expr::Add(a, b) => ExprM::Add(Box::new(expr_model(*a)), Box::new(expr_model(*b))),
        Expr::Div(a, b) => ExprM::Div(Box::new(expr_model(*a)), Box::new(expr_model(*b))),
        Expr::Sub(a, b) => ExprM::Sub(Box::new(expr_model(*a)), Box::new(expr_model(*b))),
        Expr::Lt(a, b) => ExprM::Lt(Box::new(expr_model(*a)), Box::new(expr_model(*b))),
        Expr::Eq(a, b) => ExprM::Eq(Box::new(expr_model(*a)), Box::new(expr_model(*b))),
        Expr::Rand(a) => ExprM::Rand(Box::new(expr_model(*a))),
        Expr::Color(name) => ExprM::Color(name@),
        Expr::Pick(es) => ExprM::Pick(vd_exprs_model(es)),
    }
}

/// The model of an expression list, element by element.
pub open spec fn vd_exprs_model(es: VecDeque<Expr>) -> Seq<ExprM>
    decreases es,
{
    Seq::new(
        es@.len(),
        |k: int|
            if 0 <= k < es@.len() {
                expr_model(es@[k])
            } else {
                ExprM::Number(Rat { num: 0, den: 1 })
            },
    )
}

/// The model of an argument list, element by element.
pub open spec fn vec_exprs_model(es: Vec<Expr>) -> Seq<ExprM>
    decreases es,
{
    Seq::new(
        es@.len(),
        |k: int|
            if 0 <= k < es@.len() {
                expr_model(es@[k])
            } else {
                ExprM::Number(Rat { num: 0, den: 1 })
            },
    )
}

pub open spec fn names_model(s: Seq<String>) -> Seq<Seq<char>> {
    Seq::new(s.len(), |k: int| s[k]@)
}

pub open spec fn command_model(c: Command) -> CommandM
    decreases c,
{
    match c {
        Command::Forward(e) => CommandM::Forward(expr_model(e)),
        Command::Backward(e) => CommandM::Backward(expr_model(e)),
        Command::Right(e) => CommandM::Right(expr_model(e)),
        Command::Left(e) => CommandM::Left(expr_model(e)),
        Command::Show(e) => CommandM::Show(expr_model(e)),
        Command::Repeat(e, body) => CommandM::Repeat(expr_model(e), vd_commands_model(body)),
        Command::FunctionDeclaration(name, params, body) => CommandM::FunctionDeclaration(
            name@,
            names_model(params@),
            vd_commands_model(body),
        ),
        Command::FunctionCall(name, args) => CommandM::FunctionCall(name@, vec_exprs_model(args)),
        Command::If(e, body) => CommandM::If(expr_model(e), vd_commands_model(body)),
        Command::IfElse(e, tb, eb) => CommandM::IfElse(
            expr_model(e),
            vd_commands_model(tb),
            vd_commands_model(eb),
        ),
        Command::Clearscreen => CommandM::Clearscreen,
        Command::Stop => CommandM::Stop,
        Command::Setcolor(e) => CommandM::Setcolor(expr_model(e)),
        Command::PenUp => CommandM::PenUp,
        Command::PenDown => CommandM::PenDown,
        Command::ShowTurtle => CommandM::ShowTurtle,
        Command::HideTurtle => CommandM::HideTurtle,
    }
}

/// The model of a command list, element by element.
pub open spec fn vd_commands_model(cs: VecDeque<Command>) -> Seq<CommandM>
    decreases cs,
{
    Seq::new(
        cs@.len(),
        |k: int|
            if 0 <= k < cs@.len() {
                command_model(cs@[k])
            } else {
                CommandM::Stop
            },
    )
}

/// Why parsing failed.  Parsing is not resumable: the first violation is
/// fatal, as in the surface language's tradition.
#[derive(Debug, Clone, Copy, PartialEq, Eq, Structural)]
pub enum ParseErr {
    /// `(` without a matching `)`.
    MissingRParen,
    /// A bracketed body without its closing `]`.
    MissingRBracket,
    /// A `repeat`/`if`/`ifelse` body that does not start with `[`.
    MissingLBracket,
    /// A procedure body without its `end`.
    MissingEnd,
    /// `to` not followed by a procedure name.
    MissingName,
    /// A token no expression can begin with, where an expression was needed.
    BadExpression,
    /// A token no command can begin with, at statement level.
    BadCommand,
}

// ---------------------------------------------------------------------------
// Specification statement parser
// ---------------------------------------------------------------------------

/// Tokens that may begin an expression; a procedure call gathers arguments
/// for as long as the next token is one of these.
pub open spec fn is_expr_start(t: TokenM) -> bool {
    match t {
        TokenM::Number(_) => true,
        TokenM::Variable(_) => true,
        TokenM::LParen => true,
        TokenM::Random => true,
        TokenM::Pick => true,
        TokenM::Red => true,
        TokenM::Orange => true,
        TokenM::Yellow => true,
        TokenM::Green => true,
        TokenM::Blue => true,
        TokenM::Violet => true,
        TokenM::Black => true,
        _ => false,
    }
}

/// `to` parameter list: the run of variable tokens after the name.
pub open spec fn args_s(t: Seq<TokenM>, i: int) -> (Seq<Seq<char>>, int)
    recommends
        0 <= i <= t.len(),
    decreases t.len() - i,
        when 0 <= i <= t.len()
{
    if i < t.len() && t[i] is Variable {
        let name = t[i]->Variable_0;
        let (rest, j) = args_s(t, i + 1);
        (seq![name] + rest, j)
    } else {
        (Seq::empty(), i)
    }
}

/// Greedy argument expressions of a procedure call.
pub open spec fn expr_seq_s(t: Seq<TokenM>, i: int) -> Result<(Seq<ExprM>, int), ParseErr>
    recommends
        0 <= i <= t.len(),
    decreases t.len() - i, 11int,
        when 0 <= i <= t.len()
{
    if i < t.len() && is_expr_start(t[i]) {
        match eq_s(t, i) {
            Ok((e, j)) => match expr_seq_s(t, next_pos(j, i + 1, t.len() as int)) {
                Ok((rest, j2)) => Ok((seq![e] + rest, j2)),
                Err(pe) => Err(pe),
            },
            Err(pe) => Err(pe),
        }
    } else {
        Ok((Seq::empty(), i))
    }
}

/// One command, dispatched on its first token.
pub open spec fn cmd_s(t: Seq<TokenM>, i: int) -> Result<(CommandM, int), ParseErr>
    recommends
        0 <= i < t.len(),
    decreases t.len() - i, 12int,
        when 0 <= i < t.len()
{
    let n = t.len() as int;
    match t[i] {
        TokenM::Forward => match eq_s(t, i + 1) {
            Ok((e, j)) => Ok((CommandM::Forward(e), j)),
            Err(pe) => Err(pe),
        },
        TokenM::Backward => match eq_s(t, i + 1) {
            Ok((e, j)) => Ok((CommandM::Backward(e), j)),
            Err(pe) => Err(pe),
        },
        TokenM::Right => match eq_s(t, i + 1) {
            Ok((e, j)) => Ok((CommandM::Right(e), j)),
            Err(pe) => Err(pe),
        },
        TokenM::Left => match eq_s(t, i + 1) {
            Ok((e, j)) => Ok((CommandM::Left(e), j)),
            Err(pe) => Err(pe),
        },
        TokenM::Show => match eq_s(t, i + 1) {
            Ok((e, j)) => Ok((CommandM::Show(e), j)),
            Err(pe) => Err(pe),
        },
        TokenM::Setcolor => match eq_s(t, i + 1) {
            Ok((e, j)) => Ok((CommandM::Setcolor(e), j)),
            Err(pe) => Err(pe),
        },
        TokenM::Repeat => match eq_s(t, i + 1) {
            Ok((e, j)) => match block_brackets_s(t, next_pos(j, i + 1, n)) {
                Ok((body, j2)) => Ok((CommandM::Repeat(e, body), j2)),
                Err(pe) => Err(pe),
            },
            Err(pe) => Err(pe),
        },
        TokenM::If => match eq_s(t, i + 1) {
            Ok((e, j)) => match block_brackets_s(t, next_pos(j, i + 1, n)) {
                Ok((body, j2)) => Ok((CommandM::If(e, body), j2)),
                Err(pe) => Err(pe),
            },
            Err(pe) => Err(pe),
        },
        TokenM::IfElse => match eq_s(t, i + 1) {
            Ok((e, j)) => match block_brackets_s(t, next_pos(j, i + 1, n)) {
                Ok((tb, j2)) => match block_brackets_s(t, next_pos(j2, i + 1, n)) {
                    Ok((eb, j3)) => Ok((CommandM::IfElse(e, tb, eb), j3)),
                    Err(pe) => Err(pe),
                },
                Err(pe) => Err(pe),
            },
            Err(pe) => Err(pe),
        },
        TokenM::To => {
            if i + 1 < n && t[i + 1] is Function {
                let name = t[i + 1]->Function_0;
                let (params, j) = args_s(t, i + 2);
                match block_end_s(t, next_pos(j, i + 2, n)) {
                    Ok((body, j2)) => Ok((CommandM::FunctionDeclaration(name, params, body), j2)),
                    Err(pe) => Err(pe),
                }
            } else {
                Err(ParseErr::MissingName)
            }
        },
        TokenM::Function(name) => match expr_seq_s(t, i + 1) {
            Ok((es, j)) => Ok((CommandM::FunctionCall(name, es), j)),
            Err(pe) => Err(pe),
        },
        TokenM::PenDown => Ok((CommandM::PenDown, i + 1)),
        TokenM::PenUp => Ok((CommandM::PenUp, i + 1)),
        TokenM::Clearscreen => Ok((CommandM::Clearscreen, i + 1)),
        TokenM::Stop => Ok((CommandM::Stop, i + 1)),
        TokenM::ShowTurtle => Ok((CommandM::ShowTurtle, i + 1)),
        TokenM::HideTurtle => Ok((CommandM::HideTurtle, i + 1)),
        _ => Err(ParseErr::BadCommand),
    }
}

/// A command list, ending at `]`, `end` or the end of input.  The
/// terminating token is left for the caller to check and consume.  The
/// reserved words `wait` and `setturtle` are accepted and produce nothing.
pub open spec fn cmds_s(t: Seq<TokenM>, i: int) -> Result<(Seq<CommandM>, int), ParseErr>
    recommends
        0 <= i <= t.len(),
    decreases t.len() - i, 13int,
        when 0 <= i <= t.len()
{
    if i >= t.len() {
        Ok((Seq::empty(), i))
    } else {
        match t[i] {
            TokenM::RBracket => Ok((Seq::empty(), i)),
            TokenM::End => Ok((Seq::empty(), i)),
            TokenM::Wait => cmds_s(t, i + 1),
            TokenM::SetTurtle => cmds_s(t, i + 1),
            _ => match cmd_s(t, i) {
                Ok((c, j)) => match cmds_s(t, next_pos(j, i + 1, t.len() as int)) {
                    Ok((rest, j2)) => Ok((seq![c] + rest, j2)),
                    Err(pe) => Err(pe),
                },
                Err(pe) => Err(pe),
            },
        }
    }
}

/// A `[` ... `]` body.
pub open spec fn block_brackets_s(t: Seq<TokenM>, i: int) -> Result<(Seq<CommandM>, int), ParseErr>
    recommends
        0 <= i <= t.len(),
    decreases t.len() - i, 14int,
        when 0 <= i <= t.len()
{
    if i < t.len() && t[i] is LBracket {
        match cmds_s(t, i + 1) {
            Ok((body, j)) => {
                if j < t.len() && t[j] is RBracket {
                    Ok((body, j + 1))
                } else {
                    Err(ParseErr::MissingRBracket)
                }
            },
            Err(pe) => Err(pe),
        }
    } else {
        Err(ParseErr::MissingLBracket)
    }
}

/// A body terminated by `end`.
pub open spec fn block_end_s(t: Seq<TokenM>, i: int) -> Result<(Seq<CommandM>, int), ParseErr>
    recommends
        0 <= i <= t.len(),
    decreases t.len() - i, 14int,
        when 0 <= i <= t.len()
{
    match cmds_s(t, i) {
        Ok((body, j)) => {
            if j < t.len() && t[j] is End {
                Ok((body, j + 1))
            } else {
                Err(ParseErr::MissingEnd)
            }
        },
        Err(pe) => Err(pe),
    }
}

// ---------------------------------------------------------------------------
// Executable statement parser
// ---------------------------------------------------------------------------

fn expr_start_tok(t: &Token) -> (r: bool)
    ensures
        r == is_expr_start(t.deep_view()),
{
    match t {
        Token::Number(_) => true,
        Token::Variable(_) => true,
        Token::LParen => true,
        Token::Random => true,
        Token::Pick => true,
        Token::Red => true,
        Token::Orange => true,
        Token::Yellow => true,
        Token::Green => true,
        Token::Blue => true,
        Token::Violet => true,
        Token::Black => true,
        _ => false,
    }
}

fn p_args(t: &Vec<Token>, i: usize) -> (r: (Vec<String>, usize))
    requires
        i <= t@.len(),
    ensures
        i <= r.1 <= t@.len(),
        args_s(tokens_model(t@), i as int) == (names_model(r.0@), r.1 as int),
    decreases t@.len() - i,
{
    let n = t.len();
    if i < n {
        if let Token::Variable(name) = &t[i] {
            let (mut rest, j) = p_args(t, i + 1);
            let ghost rest_m = names_model(rest@);
            rest.insert(0, name.clone());
            proof {
                assert(names_model(rest@) =~= seq![name@] + rest_m);
            }
            return (rest, j);
        }
    }
    let empty: Vec<String> = Vec::new();
    proof {
        assert(names_model(empty@) =~= Seq::<Seq<char>>::empty());
    }
    (empty, i)
}

fn p_expr_seq(t: &Vec<Token>, i: usize) -> (r: Result<(Vec<Expr>, usize), ParseErr>)
    requires
        i <= t@.len(),
    ensures
        r matches Ok((es, j)) ==> i <= j <= t@.len() && expr_seq_s(tokens_model(t@), i as int)
            == Ok::<_, ParseErr>((vec_exprs_model(es), j as int)),
        r matches Err(pe) ==> expr_seq_s(tokens_model(t@), i as int) == Err::<
            (Seq<ExprM>, int),
            _,
        >(pe),
    decreases t@.len() - i, 11int,
{
    let n = t.len();
    if i < n && expr_start_tok(&t[i]) {
        let (e, j) = match crate::expr_parser::p_eq(t, i) {
            Ok(v) => v,
            Err(pe) => {
                return Err(pe);
            },
        };
        let (mut rest, j2) = match p_expr_seq(t, j) {
            Ok(v) => v,
            Err(pe) => {
                return Err(pe);
            },
        };
        let ghost rest_m = vec_exprs_model(rest);
        let ghost em = expr_model(e);
        rest.insert(0, e);
        proof {
            assert(vec_exprs_model(rest) =~= seq![em] + rest_m);
        }
        Ok((rest, j2))
    } else {
        let empty: Vec<Expr> = Vec::new();
        proof {
            assert(vec_exprs_model(empty) =~= Seq::<ExprM>::empty());
        }
        Ok((empty, i))
    }
}

#[verifier::rlimit(100)]
#[verifier::spinoff_prover]
fn p_cmd_repeat(t: &Vec<Token>, i: usize) -> (r: Result<(Command, usize), ParseErr>)
    requires
        i < t@.len(),
        tokens_model(t@)[i as int] is Repeat,
    ensures
        r matches Ok((c, j)) ==> i < j <= t@.len() && cmd_s(tokens_model(t@), i as int)
            == Ok::<_, ParseErr>((command_model(c), j as int)),
        r matches Err(pe) ==> cmd_s(tokens_model(t@), i as int) == Err::<(CommandM, int), _>(pe),
    decreases t@.len() - i, 11int,
{
    let n = t.len();
    let (e, j) = match crate::expr_parser::p_eq(t, i + 1) {
        Ok(v) => v,
        Err(pe) => {
            return Err(pe);
        },
    };
    let (body, j2) = match p_block_brackets(t, j) {
        Ok(v) => v,
        Err(pe) => {
            return Err(pe);
        },
    };
    Ok((Command::Repeat(e, body), j2))
}

#[verifier::rlimit(100)]
#[verifier::spinoff_prover]
fn p_cmd_if(t: &Vec<Token>, i: usize) -> (r: Result<(Command, usize), ParseErr>)
    requires
        i < t@.len(),
        tokens_model(t@)[i as int] is If,
    ensures
        r matches Ok((c, j)) ==> i < j <= t@.len() && cmd_s(tokens_model(t@), i as int)
            == Ok::<_, ParseErr>((command_model(c), j as int)),
        r matches Err(pe) ==> cmd_s(tokens_model(t@), i as int) == Err::<(CommandM, int), _>(pe),
    decreases t@.len() - i, 11int,
{
    let n = t.len();
    let (e, j) = match crate::expr_parser::p_eq(t, i + 1) {
        Ok(v) => v,
        Err(pe) => {
            return Err(pe);
        },
    };
    let (body, j2) = match p_block_brackets(t, j) {
        Ok(v) => v,
        Err(pe) => {
            return Err(pe);
        },
    };
    Ok((Command::If(e, body), j2))
}

#[verifier::rlimit(100)]
#[verifier::spinoff_prover]
fn p_cmd_ifelse(t: &Vec<Token>, i: usize) -> (r: Result<(Command, usize), ParseErr>)
    requires
        i < t@.len(),
        tokens_model(t@)[i as int] is IfElse,
    ensures
        r matches Ok((c, j)) ==> i < j <= t@.len() && cmd_s(tokens_model(t@), i as int)
            == Ok::<_, ParseErr>((command_model(c), j as int)),
        r matches Err(pe) ==> cmd_s(tokens_model(t@), i as int) == Err::<(CommandM, int), _>(pe),
    decreases t@.len() - i, 11int,
{
    let n = t.len();
    let (e, j) = match crate::expr_parser::p_eq(t, i + 1) {
        Ok(v) => v,
        Err(pe) => {
            return Err(pe);
        },
    };
    let (tb, j2) = match p_block_brackets(t, j) {
        Ok(v) => v,
        Err(pe) => {
            return Err(pe);
        },
    };
    let (eb, j3) = match p_block_brackets(t, j2) {
        Ok(v) => v,
        Err(pe) => {
            return Err(pe);
        },
    };
    Ok((Command::IfElse(e, tb, eb), j3))
}

#[verifier::rlimit(100)]
#[verifier::spinoff_prover]
fn p_cmd_to(t: &Vec<Token>, i: usize) -> (r: Result<(Command, usize), ParseErr>)
    requires
        i < t@.len(),
        tokens_model(t@)[i as int] is To,
    ensures
        r matches Ok((c, j)) ==> i < j <= t@.len() && cmd_s(tokens_model(t@), i as int)
            == Ok::<_, ParseErr>((command_model(c), j as int)),
        r matches Err(pe) ==> cmd_s(tokens_model(t@), i as int) == Err::<(CommandM, int), _>(pe),
    decreases t@.len() - i, 11int,
{
    let n = t.len();
    if i + 1 < n {
        if let Token::Function(name) = &t[i + 1] {
            let (params, j) = p_args(t, i + 2);
            let (body, j2) = match p_block_end(t, j) {
                Ok(v) => v,
                Err(pe) => {
                    return Err(pe);
                },
            };
            return Ok((Command::FunctionDeclaration(name.clone(), params, body), j2));
        }
    }
    Err(ParseErr::MissingName)
}

#[verifier::rlimit(100)]
#[verifier::spinoff_prover]
fn p_cmd(t: &Vec<Token>, i: usize) -> (r: Result<(Command, usize), ParseErr>)
    requires
        i < t@.len(),
    ensures
        r matches Ok((c, j)) ==> i < j <= t@.len() && cmd_s(tokens_model(t@), i as int)
            == Ok::<_, ParseErr>((command_model(c), j as int)),
        r matches Err(pe) ==> cmd_s(tokens_model(t@), i as int) == Err::<(CommandM, int), _>(pe),
    decreases t@.len() - i, 12int,
{
    let n = t.len();
    match &t[i] {
        Token::Forward => {
            let (e, j) = match crate::expr_parser::p_eq(t, i + 1) {
                Ok(v) => v,
                Err(pe) => {
                    return Err(pe);
                },
            };
            Ok((Command::Forward(e), j))
        },
        Token::Backward => {
            let (e, j) = match crate::expr_parser::p_eq(t, i + 1) {
                Ok(v) => v,
                Err(pe) => {
                    return Err(pe);
                },
            };
            Ok((Command::Backward(e), j))
        },
        Token::Right => {
            let (e, j) = match crate::expr_parser::p_eq(t, i + 1) {
                Ok(v) => v,
                Err(pe) => {
                    return Err(pe);
                },
            };
            Ok((Command::Right(e), j))
        },
        Token::Left => {
            let (e, j) = match crate::expr_parser::p_eq(t, i + 1) {
                Ok(v) => v,
                Err(pe) => {
                    return Err(pe);
                },
            };
            Ok((Command::Left(e), j))
        },
        Token::Show => {
            let (e, j) = match crate::expr_parser::p_eq(t, i + 1) {
                Ok(v) => v,
                Err(pe) => {
                    return Err(pe);
                },
            };
            Ok((Command::Show(e), j))
        },
        Token::Setcolor => {
            let (e, j) = match crate::expr_parser::p_eq(t, i + 1) {
                Ok(v) => v,
                Err(pe) => {
                    return Err(pe);
                },
            };
            Ok((Command::Setcolor(e), j))
        },
        Token::Repeat => p_cmd_repeat(t, i),
        Token::If => p_cmd_if(t, i),
        Token::IfElse => p_cmd_ifelse(t, i),
        Token::To => p_cmd_to(t, i),
        Token::Function(name) => {
            let (es, j) = match p_expr_seq(t, i + 1) {
                Ok(v) => v,
                Err(pe) => {
                    return Err(pe);
                },
            };
            Ok((Command::FunctionCall(name.clone(), es), j))
        },
        Token::PenDown => Ok((Command::PenDown, i + 1)),
        Token::PenUp => Ok((Command::PenUp, i + 1)),
        Token::Clearscreen => Ok((Command::Clearscreen, i + 1)),
        Token::Stop => Ok((Command::Stop, i + 1)),
        Token::ShowTurtle => Ok((Command::ShowTurtle, i + 1)),
        Token::HideTurtle => Ok((Command::HideTurtle, i + 1)),
        _ => Err(ParseErr::BadCommand),
    }
}

fn p_cmds(t: &Vec<Token>, i: usize) -> (r: Result<(VecDeque<Command>, usize), ParseErr>)
    requires
        i <= t@.len(),
    ensures
        r matches Ok((cs, j)) ==> i <= j <= t@.len() && cmds_s(tokens_model(t@), i as int)
            == Ok::<_, ParseErr>((vd_commands_model(cs), j as int)),
        r matches Err(pe) ==> cmds_s(tokens_model(t@), i as int) == Err::<
            (Seq<CommandM>, int),
            _,
        >(pe),
    decreases t@.len() - i, 13int,
{
    let n = t.len();
    if i >= n {
        let empty: VecDeque<Command> = VecDeque::new();
        proof {
            assert(vd_commands_model(empty) =~= Seq::<CommandM>::empty());
        }
        return Ok((empty, i));
    }
    match &t[i] {
        Token::RBracket | Token::End => {
            let empty: VecDeque<Command> = VecDeque::new();
            proof {
                assert(vd_commands_model(empty) =~= Seq::<CommandM>::empty());
            }
            Ok((empty, i))
        },
        Token::Wait | Token::SetTurtle => p_cmds(t, i + 1),
        _ => {
            let (c, j) = match p_cmd(t, i) {
                Ok(v) => v,
                Err(pe) => {
                    return Err(pe);
                },
            };
            let (mut rest, j2) = match p_cmds(t, j) {
                Ok(v) => v,
                Err(pe) => {
                    return Err(pe);
                },
            };
            let ghost rest_m = vd_commands_model(rest);
            let ghost cm = command_model(c);
            rest.push_front(c);
            proof {
                assert(vd_commands_model(rest) =~= seq![cm] + rest_m);
            }
            Ok((rest, j2))
        },
    }
}

fn p_block_brackets(t: &Vec<Token>, i: usize) -> (r: Result<(VecDeque<Command>, usize), ParseErr>)
    requires
        i <= t@.len(),
    ensures
        r matches Ok((cs, j)) ==> i < j <= t@.len() && block_brackets_s(tokens_model(t@), i as int)
            == Ok::<_, ParseErr>((vd_commands_model(cs), j as int)),
        r matches Err(pe) ==> block_brackets_s(tokens_model(t@), i as int) == Err::<
            (Seq<CommandM>, int),
            _,
        >(pe),
    decreases t@.len() - i, 14int,
{
    let n = t.len();
    if i < n && matches!(&t[i], Token::LBracket) {
        let (body, j) = match p_cmds(t, i + 1) {
            Ok(v) => v,
            Err(pe) => {
                return Err(pe);
            },
        };
        if j < n && matches!(&t[j], Token::RBracket) {
            Ok((body, j + 1))
        } else {
            Err(ParseErr::MissingRBracket)
        }
    } else {
        Err(ParseErr::MissingLBracket)
    }
}

fn p_block_end(t: &Vec<Token>, i: usize) -> (r: Result<(VecDeque<Command>, usize), ParseErr>)
    requires
        i <= t@.len(),
    ensures
        r matches Ok((cs, j)) ==> i < j <= t@.len() && block_end_s(tokens_model(t@), i as int)
            == Ok::<_, ParseErr>((vd_commands_model(cs), j as int)),
        r matches Err(pe) ==> block_end_s(tokens_model(t@), i as int) == Err::<
            (Seq<CommandM>, int),
            _,
        >(pe),
    decreases t@.len() - i, 14int,
{
    let n = t.len();
    let (body, j) = match p_cmds(t, i) {
        Ok(v) => v,
        Err(pe) => {
            return Err(pe);
        },
    };
    if j < n && matches!(&t[j], Token::End) {
        Ok((body, j + 1))
    } else {
        Err(ParseErr::MissingEnd)
    }
}

/// Parse a command list from the front of the token queue, stopping at the
/// end of input or at an unconsumed `]`/`end` terminator, which is left in
/// the queue for the caller.
///
/// On success the result is exactly what the specification parser
/// [`cmds_s`] yields on the queue's tokens, and the queue keeps the
/// unconsumed suffix; on failure the queue is left in an unspecified
/// intermediate state, as parsing is not resumable.
pub fn parse(tokens: &mut VecDeque<Token>) -> (r: Result<VecDeque<Command>, ParseErr>)
    ensures
        match cmds_s(tokens_model(old(tokens)@), 0) {
            Ok((m, j)) => r matches Ok(cmds) && vd_commands_model(cmds) == m && final(tokens)@
                == old(tokens)@.skip(j),
            Err(pe) => r == Err::<VecDeque<Command>, ParseErr>(pe),
        },
{
    let v = crate::expr_parser::drain_tokens(tokens);
    match p_cmds(&v, 0) {
        Ok((cmds, j)) => {
            crate::expr_parser::restore_tokens(tokens, &v, j);
            Ok(cmds)
        },
        Err(pe) => Err(pe),
    }
}

} // verus!
