use vstd::prelude::*;
use std::collections::VecDeque;
use crate::lexer::{tokens_model, Token, TokenM};
use crate::parser::{expr_model, vd_exprs_model, Expr, ExprM, ParseErr};

verus! {

/// The position a recursive descent continues from: the callee's cursor
/// where it lies in `[lo, n]`, else `lo`.  A healthy parse always advances
/// and stays inside the input, so the fallback never fires; the floor only
/// keeps the descent well-founded.
pub open spec fn next_pos(j: int, lo: int, n: int) -> int {
    if lo <= j <= n {
        j
    } else {
        lo
    }
}

// ---------------------------------------------------------------------------
// Specification expression parser
//
// Precedence climbs from comparison (`<`, `=`) through additive (`+`, `-`)
// and multiplicative (`*`, `/`) to operands; a parenthesized expression
// re-enters the grammar at comparison level.  Binary operators are
// left-associative.
// ---------------------------------------------------------------------------

/// An operand: a literal, variable, color, parenthesized expression, unary
/// minus, `random e`, or `pick [ ... ]`.
pub open spec fn operand_s(t: Seq<TokenM>, i: int) -> Result<(ExprM, int), ParseErr>
    recommends
        0 <= i <= t.len(),
    decreases t.len() - i, 1int,
        when 0 <= i <= t.len()
{
    if i >= t.len() {
        Err(ParseErr::BadExpression)
    } else {
        match t[i] {
            TokenM::Number(r) => Ok((ExprM::Number(r), i + 1)),
            TokenM::Variable(name) => Ok((ExprM::Variable(name), i + 1)),
            TokenM::LParen => match eq_s(t, i + 1) {
                Ok((e, j)) => {
                    if j < t.len() && t[j] is RParen {
                        Ok((e, j + 1))
                    } else {
                        Err(ParseErr::MissingRParen)
                    }
                },
                Err(pe) => Err(pe),
            },
            TokenM::Sub => match operand_s(t, i + 1) {
                Ok((e, j)) => Ok((ExprM::Minus(Box::new(e)), j)),
                Err(pe) => Err(pe),
            },
            TokenM::Random => match operand_s(t, i + 1) {
                Ok((e, j)) => Ok((ExprM::Rand(Box::new(e)), j)),
                Err(pe) => Err(pe),
            },
            TokenM::Pick => list_s(t, i + 1),
            TokenM::Red => Ok((ExprM::Color("red"@), i + 1)),
            TokenM::Orange => Ok((ExprM::Color("orange"@), i + 1)),
            TokenM::Yellow => Ok((ExprM::Color("yellow"@), i + 1)),
            TokenM::Green => Ok((ExprM::Color("green"@), i + 1)),
            TokenM::Blue => Ok((ExprM::Color("blue"@), i + 1)),
            TokenM::Violet => Ok((ExprM::Color("violet"@), i + 1)),
            TokenM::Black => Ok((ExprM::Color("black"@), i + 1)),
            _ => Err(ParseErr::BadExpression),
        }
    }
}

/// The element list of `pick [ e1 e2 ... ]`, the `[` already consumed by
/// the caller's position.
pub open spec fn list_s(t: Seq<TokenM>, i: int) -> Result<(ExprM, int), ParseErr>
    recommends
        0 <= i <= t.len(),
    decreases t.len() - i, 10int,
        when 0 <= i <= t.len()
{
    if i < t.len() && t[i] is LBracket {
        match list_elems_s(t, i + 1) {
            Ok((es, j)) => Ok((ExprM::Pick(es), j)),
            Err(pe) => Err(pe),
        }
    } else {
        Err(ParseErr::MissingLBracket)
    }
}

pub open spec fn list_elems_s(t: Seq<TokenM>, i: int) -> Result<(Seq<ExprM>, int), ParseErr>
    recommends
        0 <= i <= t.len(),
    decreases t.len() - i, 9int,
        when 0 <= i <= t.len()
{
    if i >= t.len() {
        Err(ParseErr::MissingRBracket)
    } else if t[i] is RBracket {
        Ok((Seq::empty(), i + 1))
    } else {
        match eq_s(t, i) {
            Ok((e, j)) => match list_elems_s(t, next_pos(j, i + 1, t.len() as int)) {
                Ok((rest, j2)) => Ok((seq![e] + rest, j2)),
                Err(pe) => Err(pe),
            },
            Err(pe) => Err(pe),
        }
    }
}

/// Multiplicative level: left-associative `*` and `/` over operands.
pub open spec fn mul_s(t: Seq<TokenM>, i: int) -> Result<(ExprM, int), ParseErr>
    recommends
        0 <= i <= t.len(),
    decreases t.len() - i, 4int,
        when 0 <= i <= t.len()
{
    match operand_s(t, i) {
        Ok((e, j)) => mul_more_s(t, next_pos(j, i, t.len() as int), e),
        Err(pe) => Err(pe),
    }
}

pub open spec fn mul_more_s(t: Seq<TokenM>, i: int, e: ExprM) -> Result<(ExprM, int), ParseErr>
    recommends
        0 <= i <= t.len(),
    decreases t.len() - i, 3int,
        when 0 <= i <= t.len()
{
    if i < t.len() && t[i] is Mul {
        match operand_s(t, i + 1) {
            Ok((e2, j)) => mul_more_s(
                t,
                next_pos(j, i + 1, t.len() as int),
                ExprM::Mul(Box::new(e), Box::new(e2)),
            ),
            Err(pe) => Err(pe),
        }
    } else if i < t.len() && t[i] is Div {
        match operand_s(t, i + 1) {
            Ok((e2, j)) => mul_more_s(
                t,
                next_pos(j, i + 1, t.len() as int),
                ExprM::Div(Box::new(e), Box::new(e2)),
            ),
            Err(pe) => Err(pe),
        }
    } else {
        Ok((e, i))
    }
}

/// Additive level: left-associative `+` and `-`.
pub open spec fn add_s(t: Seq<TokenM>, i: int) -> Result<(ExprM, int), ParseErr>
    recommends
        0 <= i <= t.len(),
    decreases t.len() - i, 6int,
        when 0 <= i <= t.len()
{
    match mul_s(t, i) {
        Ok((e, j)) => add_more_s(t, next_pos(j, i, t.len() as int), e),
        Err(pe) => Err(pe),
    }
}

pub open spec fn add_more_s(t: Seq<TokenM>, i: int, e: ExprM) -> Result<(ExprM, int), ParseErr>
    recommends
        0 <= i <= t.len(),
    decreases t.len() - i, 5int,
        when 0 <= i <= t.len()
{
    if i < t.len() && t[i] is Add {
        match mul_s(t, i + 1) {
            Ok((e2, j)) => add_more_s(
                t,
                next_pos(j, i + 1, t.len() as int),
                ExprM::Add(Box::new(e), Box::new(e2)),
            ),
            Err(pe) => Err(pe),
        }
    } else if i < t.len() && t[i] is Sub {
        match mul_s(t, i + 1) {
            Ok((e2, j)) => add_more_s(
                t,
                next_pos(j, i + 1, t.len() as int),
                ExprM::Sub(Box::new(e), Box::new(e2)),
            ),
            Err(pe) => Err(pe),
        }
    } else {
        Ok((e, i))
    }
}

/// Comparison level, the entry point of the expression grammar:
/// left-associative `<` and `=`.
pub open spec fn eq_s(t: Seq<TokenM>, i: int) -> Result<(ExprM, int), ParseErr>
    recommends
        0 <= i <= t.len(),
    decreases t.len() - i, 8int,
        when 0 <= i <= t.len()
{
    match add_s(t, i) {
        Ok((e, j)) => eq_more_s(t, next_pos(j, i, t.len() as int), e),
        Err(pe) => Err(pe),
    }
}

pub open spec fn eq_more_s(t: Seq<TokenM>, i: int, e: ExprM) -> Result<(ExprM, int), ParseErr>
    recommends
        0 <= i <= t.len(),
    decreases t.len() - i, 7int,
        when 0 <= i <= t.len()
{
    if i < t.len() && t[i] is Lt {
        match add_s(t, i + 1) {
            Ok((e2, j)) => eq_more_s(
                t,
                next_pos(j, i + 1, t.len() as int),
                ExprM::Lt(Box::new(e), Box::new(e2)),
            ),
            Err(pe) => Err(pe),
        }
    } else if i < t.len() && t[i] is Eq {
        match add_s(t, i + 1) {
            Ok((e2, j)) => eq_more_s(
                t,
                next_pos(j, i + 1, t.len() as int),
                ExprM::Eq(Box::new(e), Box::new(e2)),
            ),
            Err(pe) => Err(pe),
        }
    } else {
        Ok((e, i))
    }
}

// ---------------------------------------------------------------------------
// Executable expression parser
// ---------------------------------------------------------------------------

pub(crate) fn p_operand(t: &Vec<Token>, i: usize) -> (r: Result<(Expr, usize), ParseErr>)
    requires
        i <= t@.len(),
    ensures
        r matches Ok((e, j)) ==> i < j <= t@.len() && operand_s(tokens_model(t@), i as int)
            == Ok::<_, ParseErr>((expr_model(e), j as int)),
        r matches Err(pe) ==> operand_s(tokens_model(t@), i as int) == Err::<(ExprM, int), _>(pe),
    decreases t@.len() - i, 1int,
{
    let n = t.len();
    if i >= n {
        return Err(ParseErr::BadExpression);
    }
    match &t[i] {
        Token::Number(r) => Ok((Expr::Number(*r), i + 1)),
        Token::Variable(name) => Ok((Expr::Variable(name.clone()), i + 1)),
        Token::LParen => {
            let (e, j) = match p_eq(t, i + 1) {
                Ok(v) => v,
                Err(pe) => {
                    return Err(pe);
                },
            };
            if j < n && matches!(&t[j], Token::RParen) {
                Ok((e, j + 1))
            } else {
                Err(ParseErr::MissingRParen)
            }
        },
        Token::Sub => {
            let (e, j) = match p_operand(t, i + 1) {
                Ok(v) => v,
                Err(pe) => {
                    return Err(pe);
                },
            };
            Ok((Expr::Minus(Box::new(e)), j))
        },
        Token::Random => {
            let (e, j) = match p_operand(t, i + 1) {
                Ok(v) => v,
                Err(pe) => {
                    return Err(pe);
                },
            };
            Ok((Expr::Rand(Box::new(e)), j))
        },
        Token::Pick => p_list(t, i + 1),
        Token::Red => Ok((Expr::Color(String::from_str("red")), i + 1)),
        Token::Orange => Ok((Expr::Color(String::from_str("orange")), i + 1)),
        Token::Yellow => Ok((Expr::Color(String::from_str("yellow")), i + 1)),
        Token::Green => Ok((Expr::Color(String::from_str("green")), i + 1)),
        Token::Blue => Ok((Expr::Color(String::from_str("blue")), i + 1)),
        Token::Violet => Ok((Expr::Color(String::from_str("violet")), i + 1)),
        Token::Black => Ok((Expr::Color(String::from_str("black")), i + 1)),
        _ => Err(ParseErr::BadExpression),
    }
}

pub(crate) fn p_list(t: &Vec<Token>, i: usize) -> (r: Result<(Expr, usize), ParseErr>)
    requires
        i <= t@.len(),
    ensures
        r matches Ok((e, j)) ==> i < j <= t@.len() && list_s(tokens_model(t@), i as int)
            == Ok::<_, ParseErr>((expr_model(e), j as int)),
        r matches Err(pe) ==> list_s(tokens_model(t@), i as int) == Err::<(ExprM, int), _>(pe),
    decreases t@.len() - i, 10int,
{
    let n = t.len();
    if i < n && matches!(&t[i], Token::LBracket) {
        let (es, j) = match p_list_elems(t, i + 1) {
            Ok(v) => v,
            Err(pe) => {
                return Err(pe);
            },
        };
        Ok((Expr::Pick(es), j))
    } else {
        Err(ParseErr::MissingLBracket)
    }
}

pub(crate) fn p_list_elems(t: &Vec<Token>, i: usize) -> (r: Result<
    (VecDeque<Expr>, usize),
    ParseErr,
>)
    requires
        i <= t@.len(),
    ensures
        r matches Ok((es, j)) ==> i < j <= t@.len() && list_elems_s(tokens_model(t@), i as int)
            == Ok::<_, ParseErr>((vd_exprs_model(es), j as int)),
        r matches Err(pe) ==> list_elems_s(tokens_model(t@), i as int) == Err::<
            (Seq<ExprM>, int),
            _,
        >(pe),
    decreases t@.len() - i, 9int,
{
    let n = t.len();
    if i >= n {
        return Err(ParseErr::MissingRBracket);
    }
    if matches!(&t[i], Token::RBracket) {
        let es: VecDeque<Expr> = VecDeque::new();
        proof {
            assert(vd_exprs_model(es) =~= Seq::<ExprM>::empty());
        }
        return Ok((es, i + 1));
    }
    let (e, j) = match p_eq(t, i) {
        Ok(v) => v,
        Err(pe) => {
            return Err(pe);
        },
    };
    let (mut rest, j2) = match p_list_elems(t, j) {
        Ok(v) => v,
        Err(pe) => {
            return Err(pe);
        },
    };
    let ghost rest_m = vd_exprs_model(rest);
    let ghost em = expr_model(e);
    rest.push_front(e);
    proof {
        assert(vd_exprs_model(rest) =~= seq![em] + rest_m);
    }
    Ok((rest, j2))
}

pub(crate) fn p_mul(t: &Vec<Token>, i: usize) -> (r: Result<(Expr, usize), ParseErr>)
    requires
        i <= t@.len(),
    ensures
        r matches Ok((e, j)) ==> i < j <= t@.len() && mul_s(tokens_model(t@), i as int)
            == Ok::<_, ParseErr>((expr_model(e), j as int)),
        r matches Err(pe) ==> mul_s(tokens_model(t@), i as int) == Err::<(ExprM, int), _>(pe),
    decreases t@.len() - i, 4int,
{
    let (e, j) = match p_operand(t, i) {
        Ok(v) => v,
        Err(pe) => {
            return Err(pe);
        },
    };
    p_mul_more(t, j, e)
}

pub(crate) fn p_mul_more(t: &Vec<Token>, i: usize, e: Expr) -> (r: Result<
    (Expr, usize),
    ParseErr,
>)
    requires
        i <= t@.len(),
    ensures
        r matches Ok((e2, j)) ==> i <= j <= t@.len() && mul_more_s(
            tokens_model(t@),
            i as int,
            expr_model(e),
        ) == Ok::<_, ParseErr>((expr_model(e2), j as int)),
        r matches Err(pe) ==> mul_more_s(tokens_model(t@), i as int, expr_model(e)) == Err::<
            (ExprM, int),
            _,
        >(pe),
    decreases t@.len() - i, 3int,
{
    let n = t.len();
    if i < n && matches!(&t[i], Token::Mul) {
        let (e2, j) = match p_operand(t, i + 1) {
            Ok(v) => v,
            Err(pe) => {
                return Err(pe);
            },
        };
        p_mul_more(t, j, Expr::Mul(Box::new(e), Box::new(e2)))
    } else if i < n && matches!(&t[i], Token::Div) {
        let (e2, j) = match p_operand(t, i + 1) {
            Ok(v) => v,
            Err(pe) => {
                return Err(pe);
            },
        };
        p_mul_more(t, j, Expr::Div(Box::new(e), Box::new(e2)))
    } else {
        Ok((e, i))
    }
}

pub(crate) fn p_add(t: &Vec<Token>, i: usize) -> (r: Result<(Expr, usize), ParseErr>)
    requires
        i <= t@.len(),
    ensures
        r matches Ok((e, j)) ==> i < j <= t@.len() && add_s(tokens_model(t@), i as int)
            == Ok::<_, ParseErr>((expr_model(e), j as int)),
        r matches Err(pe) ==> add_s(tokens_model(t@), i as int) == Err::<(ExprM, int), _>(pe),
    decreases t@.len() - i, 6int,
{
    let (e, j) = match p_mul(t, i) {
        Ok(v) => v,
        Err(pe) => {
            return Err(pe);
        },
    };
    p_add_more(t, j, e)
}

pub(crate) fn p_add_more(t: &Vec<Token>, i: usize, e: Expr) -> (r: Result<
    (Expr, usize),
    ParseErr,
>)
    requires
        i <= t@.len(),
    ensures
        r matches Ok((e2, j)) ==> i <= j <= t@.len() && add_more_s(
            tokens_model(t@),
            i as int,
            expr_model(e),
        ) == Ok::<_, ParseErr>((expr_model(e2), j as int)),
        r matches Err(pe) ==> add_more_s(tokens_model(t@), i as int, expr_model(e)) == Err::<
            (ExprM, int),
            _,
        >(pe),
    decreases t@.len() - i, 5int,
{
    let n = t.len();
    if i < n && matches!(&t[i], Token::Add) {
        let (e2, j) = match p_mul(t, i + 1) {
            Ok(v) => v,
            Err(pe) => {
                return Err(pe);
            },
        };
        p_add_more(t, j, Expr::Add(Box::new(e), Box::new(e2)))
    } else if i < n && matches!(&t[i], Token::Sub) {
        let (e2, j) = match p_mul(t, i + 1) {
            Ok(v) => v,
            Err(pe) => {
                return Err(pe);
            },
        };
        p_add_more(t, j, Expr::Sub(Box::new(e), Box::new(e2)))
    } else {
        Ok((e, i))
    }
}

pub(crate) fn p_eq(t: &Vec<Token>, i: usize) -> (r: Result<(Expr, usize), ParseErr>)
    requires
        i <= t@.len(),
    ensures
        r matches Ok((e, j)) ==> i < j <= t@.len() && eq_s(tokens_model(t@), i as int)
            == Ok::<_, ParseErr>((expr_model(e), j as int)),
        r matches Err(pe) ==> eq_s(tokens_model(t@), i as int) == Err::<(ExprM, int), _>(pe),
    decreases t@.len() - i, 8int,
{
    let (e, j) = match p_add(t, i) {
        Ok(v) => v,
        Err(pe) => {
            return Err(pe);
        },
    };
    p_eq_more(t, j, e)
}

pub(crate) fn p_eq_more(t: &Vec<Token>, i: usize, e: Expr) -> (r: Result<(Expr, usize), ParseErr>)
    requires
        i <= t@.len(),
    ensures
        r matches Ok((e2, j)) ==> i <= j <= t@.len() && eq_more_s(
            tokens_model(t@),
            i as int,
            expr_model(e),
        ) == Ok::<_, ParseErr>((expr_model(e2), j as int)),
        r matches Err(pe) ==> eq_more_s(tokens_model(t@), i as int, expr_model(e)) == Err::<
            (ExprM, int),
            _,
        >(pe),
    decreases t@.len() - i, 7int,
{
    let n = t.len();
    if i < n && matches!(&t[i], Token::Lt) {
        let (e2, j) = match p_add(t, i + 1) {
            Ok(v) => v,
            Err(pe) => {
                return Err(pe);
            },
        };
        p_eq_more(t, j, Expr::Lt(Box::new(e), Box::new(e2)))
    } else if i < n && matches!(&t[i], Token::Eq) {
        let (e2, j) = match p_add(t, i + 1) {
            Ok(v) => v,
            Err(pe) => {
                return Err(pe);
            },
        };
        p_eq_more(t, j, Expr::Eq(Box::new(e), Box::new(e2)))
    } else {
        Ok((e, i))
    }
}

/// Parse one expression from the front of the token queue.
///
/// On success the parsed tokens are consumed and the rest are left in the
/// queue; on failure the queue is left in an unspecified intermediate
/// state, as parsing is not resumable.
pub fn parse(tokens: &mut VecDeque<Token>) -> (r: Result<Box<Expr>, ParseErr>)
    ensures
        match eq_s(tokens_model(old(tokens)@), 0) {
            Ok((em, j)) => r matches Ok(e) && expr_model(*e) == em && final(tokens)@
                == old(tokens)@.skip(j),
            Err(pe) => r == Err::<Box<Expr>, ParseErr>(pe),
        },
{
    let v = drain_tokens(tokens);
    match p_eq(&v, 0) {
        Ok((e, j)) => {
            restore_tokens(tokens, &v, j);
            Ok(Box::new(e))
        },
        Err(pe) => Err(pe),
    }
}

/// Move the whole queue into a vector, front first.
pub(crate) fn drain_tokens(tokens: &mut VecDeque<Token>) -> (v: Vec<Token>)
    ensures
        v@ == old(tokens)@,
        final(tokens)@.len() == 0,
{
    let mut v: Vec<Token> = Vec::new();
    loop
        invariant
            v@ + tokens@ == old(tokens)@,
        ensures
            v@ == old(tokens)@,
            tokens@.len() == 0,
        decreases tokens@.len(),
    {
        match tokens.pop_front() {
            Some(tok) => {
                v.push(tok);
                proof {
                    assert(v@ + tokens@ =~= old(tokens)@);
                }
            },
            None => {
                proof {
                    assert(v@ + tokens@ =~= v@);
                }
                break ;
            },
        }
    }
    v
}

/// Refill the queue with the tokens of `v` from position `j` on.
pub(crate) fn restore_tokens(tokens: &mut VecDeque<Token>, v: &Vec<Token>, j: usize)
    requires
        old(tokens)@.len() == 0,
        j <= v@.len(),
    ensures
        final(tokens)@ == v@.skip(j as int),
{
    let mut k: usize = j;
    while k < v.len()
        invariant
            j <= k <= v@.len(),
            tokens@ == v@.subrange(j as int, k as int),
        decreases v@.len() - k,
    {
        tokens.push_back(clone_token(&v[k]));
        proof {
            assert(v@.subrange(j as int, k as int).push(v@[k as int]) =~= v@.subrange(
                j as int,
                (k + 1) as int,
            ));
        }
        k = k + 1;
    }
    proof {
        assert(v@.subrange(j as int, v@.len() as int) =~= v@.skip(j as int));
    }
}

/// A copy of a token, equal to the original.
pub(crate) fn clone_token(t: &Token) -> (r: Token)
    ensures
        r == *t,
{
    match t {
        Token::Mul => Token::Mul,
        Token::Add => Token::Add,
        Token::Sub => Token::Sub,
        Token::Div => Token::Div,
        Token::Lt => Token::Lt,
        Token::Eq => Token::Eq,
        Token::LParen => Token::LParen,
        Token::RParen => Token::RParen,
        Token::LBracket => Token::LBracket,
        Token::RBracket => Token::RBracket,
        Token::Repeat => Token::Repeat,
        Token::Stop => Token::Stop,
        Token::If => Token::If,
        Token::IfElse => Token::IfElse,
        Token::To => Token::To,
        Token::End => Token::End,
        Token::Show => Token::Show,
        Token::Wait => Token::Wait,
        Token::Pick => Token::Pick,
        Token::Random => Token::Random,
        Token::Red => Token::Red,
        Token::Orange => Token::Orange,
        Token::Yellow => Token::Yellow,
        Token::Green => Token::Green,
        Token::Blue => Token::Blue,
        Token::Violet => Token::Violet,
        Token::Black => Token::Black,
        Token::Clearscreen => Token::Clearscreen,
        Token::Setcolor => Token::Setcolor,
        Token::Forward => Token::Forward,
        Token::Backward => Token::Backward,
        Token::Left => Token::Left,
        Token::Right => Token::Right,
        Token::PenUp => Token::PenUp,
        Token::PenDown => Token::PenDown,
        Token::ShowTurtle => Token::ShowTurtle,
        Token::HideTurtle => Token::HideTurtle,
        Token::SetTurtle => Token::SetTurtle,
        Token::Number(r) => Token::Number(*r),
        Token::Variable(s) => Token::Variable(s.clone()),
        Token::Function(s) => Token::Function(s.clone()),
    }
}

} // verus!
