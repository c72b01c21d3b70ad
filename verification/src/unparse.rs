use vstd::prelude::*;
use crate::lexer::TokenM;
use crate::parser::{
    block_brackets_s, block_end_s, cmd_s, cmds_s, expr_seq_s, is_expr_start, args_s, CommandM,
    ExprM, ParseErr,
};
use crate::expr_parser::{
    add_more_s, add_s, eq_more_s, eq_s, list_elems_s, list_s, mul_more_s, mul_s, next_pos,
    operand_s,
};

verus! {

// A textual unparser, at the token level.  Every compound expression is
// printed inside parentheses, so an operand is self-delimiting and the
// grammar's precedence and the greedy argument gathering cannot regroup a
// reprinted tree.  Rendering the tokens as text is then mechanical: each
// token has a fixed spelling and whitespace separates them.

/// The token of a color name.  A canonical tree only holds the seven
/// recognized names, which this maps back to their keywords.
pub open spec fn color_token(s: Seq<char>) -> TokenM {
    if s == "red"@ {
        TokenM::Red
    } else if s == "orange"@ {
        TokenM::Orange
    } else if s == "yellow"@ {
        TokenM::Yellow
    } else if s == "green"@ {
        TokenM::Green
    } else if s == "blue"@ {
        TokenM::Blue
    } else if s == "violet"@ {
        TokenM::Violet
    } else {
        TokenM::Black
    }
}

/// Whether a color name is one of the seven the language recognizes.
pub open spec fn color_canon(s: Seq<char>) -> bool {
    s == "red"@ || s == "orange"@ || s == "yellow"@ || s == "green"@ || s == "blue"@ || s
        == "violet"@ || s == "black"@
}

/// A canonical expression: every color node holds a recognized name.  The
/// parser only ever produces such trees.
pub open spec fn expr_canon(m: ExprM) -> bool
    decreases m,
{
    match m {
        ExprM::Variable(_) => true,
        ExprM::Number(_) => true,
        ExprM::Color(s) => color_canon(s),
        ExprM::Minus(a) => expr_canon(*a),
        ExprM::Mul(a, b) => expr_canon(*a) && expr_canon(*b),
        ExprM::Add(a, b) => expr_canon(*a) && expr_canon(*b),
        ExprM::Div(a, b) => expr_canon(*a) && expr_canon(*b),
        ExprM::Sub(a, b) => expr_canon(*a) && expr_canon(*b),
        ExprM::Lt(a, b) => expr_canon(*a) && expr_canon(*b),
        ExprM::Eq(a, b) => expr_canon(*a) && expr_canon(*b),
        ExprM::Rand(a) => expr_canon(*a),
        ExprM::Pick(es) => exprs_canon(es),
    }
}

pub open spec fn exprs_canon(s: Seq<ExprM>) -> bool
    decreases s,
{
    s.len() == 0 || (expr_canon(s[0]) && exprs_canon(s.subrange(1, s.len() as int)))
}

pub open spec fn cmd_canon(m: CommandM) -> bool
    decreases m,
{
    match m {
        CommandM::Forward(e) => expr_canon(e),
        CommandM::Backward(e) => expr_canon(e),
        CommandM::Right(e) => expr_canon(e),
        CommandM::Left(e) => expr_canon(e),
        CommandM::Show(e) => expr_canon(e),
        CommandM::Setcolor(e) => expr_canon(e),
        CommandM::Repeat(e, b) => expr_canon(e) && cmds_canon(b),
        CommandM::If(e, b) => expr_canon(e) && cmds_canon(b),
        CommandM::IfElse(e, t, el) => expr_canon(e) && cmds_canon(t) && cmds_canon(el),
        CommandM::FunctionDeclaration(_, _, b) => cmds_canon(b),
        CommandM::FunctionCall(_, args) => exprs_canon(args),
        _ => true,
    }
}

pub open spec fn cmds_canon(s: Seq<CommandM>) -> bool
    decreases s,
{
    s.len() == 0 || (cmd_canon(s[0]) && cmds_canon(s.subrange(1, s.len() as int)))
}

/// The tokens of an expression.  Atoms stand alone; everything compound is
/// wrapped in parentheses.
pub open spec fn unparse_expr(m: ExprM) -> Seq<TokenM>
    decreases m,
{
    match m {
        ExprM::Variable(name) => seq![TokenM::Variable(name)],
        ExprM::Number(r) => seq![TokenM::Number(r)],
        ExprM::Color(s) => seq![color_token(s)],
        ExprM::Minus(a) => seq![TokenM::LParen, TokenM::Sub] + unparse_expr(*a)
            + seq![TokenM::RParen],
        ExprM::Mul(a, b) => seq![TokenM::LParen] + unparse_expr(*a) + seq![TokenM::Mul]
            + unparse_expr(*b) + seq![TokenM::RParen],
        ExprM::Add(a, b) => seq![TokenM::LParen] + unparse_expr(*a) + seq![TokenM::Add]
            + unparse_expr(*b) + seq![TokenM::RParen],
        ExprM::Div(a, b) => seq![TokenM::LParen] + unparse_expr(*a) + seq![TokenM::Div]
            + unparse_expr(*b) + seq![TokenM::RParen],
        ExprM::Sub(a, b) => seq![TokenM::LParen] + unparse_expr(*a) + seq![TokenM::Sub]
            + unparse_expr(*b) + seq![TokenM::RParen],
        ExprM::Lt(a, b) => seq![TokenM::LParen] + unparse_expr(*a) + seq![TokenM::Lt]
            + unparse_expr(*b) + seq![TokenM::RParen],
        ExprM::Eq(a, b) => seq![TokenM::LParen] + unparse_expr(*a) + seq![TokenM::Eq]
            + unparse_expr(*b) + seq![TokenM::RParen],
        ExprM::Rand(a) => seq![TokenM::LParen, TokenM::Random] + unparse_expr(*a)
            + seq![TokenM::RParen],
        ExprM::Pick(es) => seq![TokenM::LParen, TokenM::Pick, TokenM::LBracket]
            + unparse_exprs(es) + seq![TokenM::RBracket, TokenM::RParen],
    }
}

/// The tokens of an expression list, in order.
pub open spec fn unparse_exprs(s: Seq<ExprM>) -> Seq<TokenM>
    decreases s,
{
    if s.len() == 0 {
        Seq::empty()
    } else {
        unparse_expr(s[0]) + unparse_exprs(s.subrange(1, s.len() as int))
    }
}

/// The tokens of a parameter list.
pub open spec fn unparse_params(ps: Seq<Seq<char>>) -> Seq<TokenM>
    decreases ps.len(),
{
    if ps.len() == 0 {
        Seq::empty()
    } else {
        seq![TokenM::Variable(ps[0])] + unparse_params(ps.subrange(1, ps.len() as int))
    }
}

/// The tokens of one command.
pub open spec fn unparse_cmd(m: CommandM) -> Seq<TokenM>
    decreases m,
{
    match m {
        CommandM::Forward(e) => seq![TokenM::Forward] + unparse_expr(e),
        CommandM::Backward(e) => seq![TokenM::Backward] + unparse_expr(e),
        CommandM::Right(e) => seq![TokenM::Right] + unparse_expr(e),
        CommandM::Left(e) => seq![TokenM::Left] + unparse_expr(e),
        CommandM::Show(e) => seq![TokenM::Show] + unparse_expr(e),
        CommandM::Setcolor(e) => seq![TokenM::Setcolor] + unparse_expr(e),
        CommandM::Repeat(e, b) => seq![TokenM::Repeat] + unparse_expr(e) + seq![TokenM::LBracket]
            + unparse_cmds(b) + seq![TokenM::RBracket],
        CommandM::If(e, b) => seq![TokenM::If] + unparse_expr(e) + seq![TokenM::LBracket]
            + unparse_cmds(b) + seq![TokenM::RBracket],
        CommandM::IfElse(e, t, el) => seq![TokenM::IfElse] + unparse_expr(e)
            + seq![TokenM::LBracket] + unparse_cmds(t) + seq![TokenM::RBracket, TokenM::LBracket]
            + unparse_cmds(el) + seq![TokenM::RBracket],
        CommandM::FunctionDeclaration(name, ps, b) => seq![TokenM::To, TokenM::Function(name)]
            + unparse_params(ps) + unparse_cmds(b) + seq![TokenM::End],
        CommandM::FunctionCall(name, args) => seq![TokenM::Function(name)] + unparse_exprs(args),
        CommandM::Clearscreen => seq![TokenM::Clearscreen],
        CommandM::Stop => seq![TokenM::Stop],
        CommandM::PenUp => seq![TokenM::PenUp],
        CommandM::PenDown => seq![TokenM::PenDown],
        CommandM::ShowTurtle => seq![TokenM::ShowTurtle],
        CommandM::HideTurtle => seq![TokenM::HideTurtle],
    }
}

/// The tokens of a command list: the program text, token by token.
pub open spec fn unparse_cmds(s: Seq<CommandM>) -> Seq<TokenM>
    decreases s,
{
    if s.len() == 0 {
        Seq::empty()
    } else {
        unparse_cmd(s[0]) + unparse_cmds(s.subrange(1, s.len() as int))
    }
}

// ---------------------------------------------------------------------------
// The round trip: parsing inverts unparsing
// ---------------------------------------------------------------------------

/// An infix operator token: what keeps the expression tails climbing.
pub open spec fn is_op_tok(t: TokenM) -> bool {
    match t {
        TokenM::Mul => true,
        TokenM::Div => true,
        TokenM::Add => true,
        TokenM::Sub => true,
        TokenM::Lt => true,
        TokenM::Eq => true,
        _ => false,
    }
}

/// The window `w` lies in `t` at position `i`.
pub open spec fn embedded<T>(t: Seq<T>, i: int, w: Seq<T>) -> bool {
    &&& 0 <= i
    &&& i + w.len() <= t.len()
    &&& forall|k: int| 0 <= k < w.len() ==> t[i + k] == #[trigger] w[k]
}

pub(crate) proof fn lemma_embed_split<T>(t: Seq<T>, i: int, w1: Seq<T>, w2: Seq<T>)
    requires
        embedded(t, i, w1 + w2),
    ensures
        embedded(t, i, w1),
        embedded(t, i + w1.len(), w2),
{
    assert forall|k: int| 0 <= k < w1.len() implies t[i + k] == #[trigger] w1[k] by {
        assert((w1 + w2)[k] == w1[k]);
    }
    assert forall|k: int| 0 <= k < w2.len() implies t[i + w1.len() + k] == #[trigger] w2[k] by {
        assert((w1 + w2)[w1.len() + k] == w2[k]);
    }
}

/// The element at offset `k` of an embedded window.
pub(crate) proof fn lemma_embed_at<T>(t: Seq<T>, i: int, w: Seq<T>, k: int)
    requires
        embedded(t, i, w),
        0 <= k < w.len(),
    ensures
        t[i + k] == w[k],
{
    assert(t[i + k] == w[k]);
}

/// The first token of an expression starts an expression and is not an
/// operator; the window is never empty.
proof fn lemma_expr_first(m: ExprM)
    ensures
        unparse_expr(m).len() >= 1,
        is_expr_start(unparse_expr(m)[0]),
        !is_op_tok(unparse_expr(m)[0]),
{
    match m {
        ExprM::Variable(_) => {},
        ExprM::Number(_) => {},
        ExprM::Color(_) => {},
        _ => {},
    }
}

/// An operand is self-delimiting: wherever its tokens lie, the operand
/// parser reads exactly them and yields the tree back.
proof fn lemma_operand_round(t: Seq<TokenM>, i: int, m: ExprM)
    requires
        expr_canon(m),
        embedded(t, i, unparse_expr(m)),
    ensures
        operand_s(t, i) == Ok::<(ExprM, int), ParseErr>((m, i + unparse_expr(m).len())),
    decreases m, 2int,
{
    match m {
        ExprM::Variable(name) => {
            lemma_embed_at(t, i, unparse_expr(m), 0);
            assert(t[i] == TokenM::Variable(name));
        },
        ExprM::Number(r) => {
            lemma_embed_at(t, i, unparse_expr(m), 0);
            assert(t[i] == TokenM::Number(r));
        },
        ExprM::Color(s) => {
            lemma_embed_at(t, i, unparse_expr(m), 0);
            assert(t[i] == color_token(s));
        },
        ExprM::Minus(a) => {
            lemma_unary_round(t, i, m, *a, TokenM::Sub);
        },
        ExprM::Rand(a) => {
            lemma_unary_round(t, i, m, *a, TokenM::Random);
        },
        ExprM::Mul(a, b) => {
            lemma_binary_round(t, i, m, *a, *b, TokenM::Mul);
        },
        ExprM::Div(a, b) => {
            lemma_binary_round(t, i, m, *a, *b, TokenM::Div);
        },
        ExprM::Add(a, b) => {
            lemma_binary_round(t, i, m, *a, *b, TokenM::Add);
        },
        ExprM::Sub(a, b) => {
            lemma_binary_round(t, i, m, *a, *b, TokenM::Sub);
        },
        ExprM::Lt(a, b) => {
            lemma_binary_round(t, i, m, *a, *b, TokenM::Lt);
        },
        ExprM::Eq(a, b) => {
            lemma_binary_round(t, i, m, *a, *b, TokenM::Eq);
        },
        ExprM::Pick(es) => {
            lemma_pick_round(t, i, m, es);
        },
    }
}

/// `( - a )` and `( random a )`: the prefix operator binds its operand and
/// the climb stops at the closing parenthesis.
#[verifier::spinoff_prover]
#[verifier::rlimit(100)]
proof fn lemma_unary_round(t: Seq<TokenM>, i: int, m: ExprM, a: ExprM, pre: TokenM)
    requires
        expr_canon(m),
        embedded(t, i, unparse_expr(m)),
        match m {
            ExprM::Minus(x) => pre == TokenM::Sub && a == *x,
            ExprM::Rand(x) => pre == TokenM::Random && a == *x,
            _ => false,
        },
    ensures
        operand_s(t, i) == Ok::<(ExprM, int), ParseErr>((m, i + unparse_expr(m).len())),
    decreases m, 1int,
{
    let wa = unparse_expr(a);
    let la = wa.len() as int;
    assert(unparse_expr(m) =~= seq![TokenM::LParen, pre] + (wa + seq![TokenM::RParen]));
    lemma_embed_split(t, i, seq![TokenM::LParen, pre], wa + seq![TokenM::RParen]);
    lemma_embed_split(t, i + 2, wa, seq![TokenM::RParen]);
    lemma_embed_at(t, i, seq![TokenM::LParen, pre], 0);
    lemma_embed_at(t, i, seq![TokenM::LParen, pre], 1);
    lemma_embed_at(t, i + 2 + la, seq![TokenM::RParen], 0);
    assert(t[i] == TokenM::LParen);
    assert(t[i + 1] == pre);
    assert(t[i + 2 + la] == TokenM::RParen);
    lemma_operand_round(t, i + 2, a);
    let jb = i + 2 + la;
    assert(operand_s(t, i + 1) == Ok::<(ExprM, int), ParseErr>((m, jb)));
    assert(mul_more_s(t, jb, m) == Ok::<(ExprM, int), ParseErr>((m, jb)));
    assert(mul_s(t, i + 1) == Ok::<(ExprM, int), ParseErr>((m, jb)));
    assert(add_more_s(t, jb, m) == Ok::<(ExprM, int), ParseErr>((m, jb)));
    assert(add_s(t, i + 1) == Ok::<(ExprM, int), ParseErr>((m, jb)));
    assert(eq_more_s(t, jb, m) == Ok::<(ExprM, int), ParseErr>((m, jb)));
    assert(eq_s(t, i + 1) == Ok::<(ExprM, int), ParseErr>((m, jb)));
    assert(operand_s(t, i) == Ok::<(ExprM, int), ParseErr>((m, jb + 1)));
    assert(jb + 1 == i + unparse_expr(m).len());
}

/// The shared step for the six infix constructors: `( a op b )` climbs to
/// the level of `op`, takes the operator once, and stops at `)`.
#[verifier::spinoff_prover]
#[verifier::rlimit(100)]
proof fn lemma_binary_round(t: Seq<TokenM>, i: int, m: ExprM, a: ExprM, b: ExprM, op: TokenM)
    requires
        expr_canon(m),
        embedded(t, i, unparse_expr(m)),
        match m {
            ExprM::Mul(x, y) => op == TokenM::Mul && a == *x && b == *y,
            ExprM::Div(x, y) => op == TokenM::Div && a == *x && b == *y,
            ExprM::Add(x, y) => op == TokenM::Add && a == *x && b == *y,
            ExprM::Sub(x, y) => op == TokenM::Sub && a == *x && b == *y,
            ExprM::Lt(x, y) => op == TokenM::Lt && a == *x && b == *y,
            ExprM::Eq(x, y) => op == TokenM::Eq && a == *x && b == *y,
            _ => false,
        },
    ensures
        operand_s(t, i) == Ok::<(ExprM, int), ParseErr>((m, i + unparse_expr(m).len())),
    decreases m, 1int,
{
    let wa = unparse_expr(a);
    let wb = unparse_expr(b);
    let la = wa.len() as int;
    let lb = wb.len() as int;
    assert(unparse_expr(m) =~= seq![TokenM::LParen] + (wa + (seq![op] + (wb + seq![
        TokenM::RParen,
    ]))));
    lemma_embed_split(t, i, seq![TokenM::LParen], wa + (seq![op] + (wb + seq![TokenM::RParen])));
    lemma_embed_split(t, i + 1, wa, seq![op] + (wb + seq![TokenM::RParen]));
    lemma_embed_split(t, i + 1 + la, seq![op], wb + seq![TokenM::RParen]);
    lemma_embed_split(t, i + 2 + la, wb, seq![TokenM::RParen]);
    lemma_embed_at(t, i, seq![TokenM::LParen], 0);
    lemma_embed_at(t, i + 1 + la, seq![op], 0);
    lemma_embed_at(t, i + 2 + la + lb, seq![TokenM::RParen], 0);
    assert(t[i] == TokenM::LParen);
    assert(t[i + 1 + la] == op);
    assert(t[i + 2 + la + lb] == TokenM::RParen);
    let ja = i + 1 + la;
    let jb = i + 2 + la + lb;
    lemma_operand_round(t, i + 1, a);
    lemma_operand_round(t, ja + 1, b);
    if op == TokenM::Mul || op == TokenM::Div {
        assert(mul_more_s(t, jb, m) == Ok::<(ExprM, int), ParseErr>((m, jb)));
        assert(mul_more_s(t, ja, a) == Ok::<(ExprM, int), ParseErr>((m, jb)));
        assert(mul_s(t, i + 1) == Ok::<(ExprM, int), ParseErr>((m, jb)));
        assert(add_more_s(t, jb, m) == Ok::<(ExprM, int), ParseErr>((m, jb)));
        assert(add_s(t, i + 1) == Ok::<(ExprM, int), ParseErr>((m, jb)));
        assert(eq_more_s(t, jb, m) == Ok::<(ExprM, int), ParseErr>((m, jb)));
        assert(eq_s(t, i + 1) == Ok::<(ExprM, int), ParseErr>((m, jb)));
    } else if op == TokenM::Add || op == TokenM::Sub {
        assert(mul_more_s(t, ja, a) == Ok::<(ExprM, int), ParseErr>((a, ja)));
        assert(mul_s(t, i + 1) == Ok::<(ExprM, int), ParseErr>((a, ja)));
        assert(mul_more_s(t, jb, b) == Ok::<(ExprM, int), ParseErr>((b, jb)));
        assert(mul_s(t, ja + 1) == Ok::<(ExprM, int), ParseErr>((b, jb)));
        assert(add_more_s(t, jb, m) == Ok::<(ExprM, int), ParseErr>((m, jb)));
        assert(add_more_s(t, ja, a) == Ok::<(ExprM, int), ParseErr>((m, jb)));
        assert(add_s(t, i + 1) == Ok::<(ExprM, int), ParseErr>((m, jb)));
        assert(eq_more_s(t, jb, m) == Ok::<(ExprM, int), ParseErr>((m, jb)));
        assert(eq_s(t, i + 1) == Ok::<(ExprM, int), ParseErr>((m, jb)));
    } else {
        assert(mul_more_s(t, ja, a) == Ok::<(ExprM, int), ParseErr>((a, ja)));
        assert(mul_s(t, i + 1) == Ok::<(ExprM, int), ParseErr>((a, ja)));
        assert(add_more_s(t, ja, a) == Ok::<(ExprM, int), ParseErr>((a, ja)));
        assert(add_s(t, i + 1) == Ok::<(ExprM, int), ParseErr>((a, ja)));
        assert(mul_more_s(t, jb, b) == Ok::<(ExprM, int), ParseErr>((b, jb)));
        assert(mul_s(t, ja + 1) == Ok::<(ExprM, int), ParseErr>((b, jb)));
        assert(add_more_s(t, jb, b) == Ok::<(ExprM, int), ParseErr>((b, jb)));
        assert(add_s(t, ja + 1) == Ok::<(ExprM, int), ParseErr>((b, jb)));
        assert(eq_more_s(t, jb, m) == Ok::<(ExprM, int), ParseErr>((m, jb)));
        assert(eq_more_s(t, ja, a) == Ok::<(ExprM, int), ParseErr>((m, jb)));
        assert(eq_s(t, i + 1) == Ok::<(ExprM, int), ParseErr>((m, jb)));
    }
    assert(operand_s(t, i) == Ok::<(ExprM, int), ParseErr>((m, jb + 1)));
    assert(jb + 1 == i + unparse_expr(m).len());
}

/// `( pick [ e1 ... ] )` reads its list and stops at `)`.
#[verifier::spinoff_prover]
#[verifier::rlimit(100)]
proof fn lemma_pick_round(t: Seq<TokenM>, i: int, m: ExprM, es: Seq<ExprM>)
    requires
        expr_canon(m),
        embedded(t, i, unparse_expr(m)),
        m == ExprM::Pick(es),
    ensures
        operand_s(t, i) == Ok::<(ExprM, int), ParseErr>((m, i + unparse_expr(m).len())),
    decreases m, 1int,
{
    let we = unparse_exprs(es);
    let le = we.len() as int;
    assert(unparse_expr(m) =~= seq![TokenM::LParen, TokenM::Pick, TokenM::LBracket] + ((we + seq![
        TokenM::RBracket,
    ]) + seq![TokenM::RParen]));
    lemma_embed_split(
        t,
        i,
        seq![TokenM::LParen, TokenM::Pick, TokenM::LBracket],
        (we + seq![TokenM::RBracket]) + seq![TokenM::RParen],
    );
    lemma_embed_split(t, i + 3, we + seq![TokenM::RBracket], seq![TokenM::RParen]);
    lemma_embed_at(t, i, seq![TokenM::LParen, TokenM::Pick, TokenM::LBracket], 0);
    lemma_embed_at(t, i, seq![TokenM::LParen, TokenM::Pick, TokenM::LBracket], 1);
    lemma_embed_at(t, i, seq![TokenM::LParen, TokenM::Pick, TokenM::LBracket], 2);
    lemma_embed_at(t, i + 3 + le + 1, seq![TokenM::RParen], 0);
    assert(t[i] == TokenM::LParen);
    assert(t[i + 1] == TokenM::Pick);
    assert(t[i + 2] == TokenM::LBracket);
    assert(t[i + 4 + le] == TokenM::RParen);
    lemma_list_round(t, i + 3, es);
    let jb = i + 4 + le;
    assert(list_s(t, i + 2) == Ok::<(ExprM, int), ParseErr>((m, jb)));
    assert(operand_s(t, i + 1) == Ok::<(ExprM, int), ParseErr>((m, jb)));
    assert(mul_more_s(t, jb, m) == Ok::<(ExprM, int), ParseErr>((m, jb)));
    assert(mul_s(t, i + 1) == Ok::<(ExprM, int), ParseErr>((m, jb)));
    assert(add_more_s(t, jb, m) == Ok::<(ExprM, int), ParseErr>((m, jb)));
    assert(add_s(t, i + 1) == Ok::<(ExprM, int), ParseErr>((m, jb)));
    assert(eq_more_s(t, jb, m) == Ok::<(ExprM, int), ParseErr>((m, jb)));
    assert(eq_s(t, i + 1) == Ok::<(ExprM, int), ParseErr>((m, jb)));
    assert(operand_s(t, i) == Ok::<(ExprM, int), ParseErr>((m, jb + 1)));
    assert(jb + 1 == i + unparse_expr(m).len());
}

/// A whole expression, wherever its tokens lie, parses back to itself
/// when the next token is no infix operator.
proof fn lemma_eq_round(t: Seq<TokenM>, i: int, m: ExprM)
    requires
        expr_canon(m),
        embedded(t, i, unparse_expr(m)),
        i + unparse_expr(m).len() == t.len() || !is_op_tok(t[i + unparse_expr(m).len()]),
    ensures
        eq_s(t, i) == Ok::<(ExprM, int), ParseErr>((m, i + unparse_expr(m).len())),
    decreases m, 3int,
{
    let j = i + unparse_expr(m).len() as int;
    lemma_operand_round(t, i, m);
    assert(mul_more_s(t, j, m) == Ok::<(ExprM, int), ParseErr>((m, j)));
    assert(mul_s(t, i) == Ok::<(ExprM, int), ParseErr>((m, j)));
    assert(add_more_s(t, j, m) == Ok::<(ExprM, int), ParseErr>((m, j)));
    assert(add_s(t, i) == Ok::<(ExprM, int), ParseErr>((m, j)));
    assert(eq_more_s(t, j, m) == Ok::<(ExprM, int), ParseErr>((m, j)));
}

/// A reprinted element list parses element by element up to its `]`.
#[verifier::spinoff_prover]
#[verifier::rlimit(100)]
proof fn lemma_list_round(t: Seq<TokenM>, i: int, es: Seq<ExprM>)
    requires
        exprs_canon(es),
        embedded(t, i, unparse_exprs(es) + seq![TokenM::RBracket]),
    ensures
        list_elems_s(t, i) == Ok::<(Seq<ExprM>, int), ParseErr>(
            (es, i + unparse_exprs(es).len() + 1),
        ),
    decreases es, 2int,
{
    let le = unparse_exprs(es).len() as int;
    if es.len() == 0 {
        assert(unparse_exprs(es) + seq![TokenM::RBracket] =~= seq![TokenM::RBracket]);
        lemma_embed_at(t, i, seq![TokenM::RBracket], 0);
        assert(t[i] == TokenM::RBracket);
        assert(es =~= Seq::<ExprM>::empty());
    } else {
        let e0 = es[0];
        let rest = es.subrange(1, es.len() as int);
        let w0 = unparse_expr(e0);
        let l0 = w0.len() as int;
        assert(unparse_exprs(es) + seq![TokenM::RBracket] =~= w0 + (unparse_exprs(rest) + seq![
            TokenM::RBracket,
        ]));
        lemma_embed_split(t, i, w0, unparse_exprs(rest) + seq![TokenM::RBracket]);
        lemma_expr_first(e0);
        lemma_embed_at(t, i, w0, 0);
        assert(t[i] == w0[0]);
        // the token after the element is the head of the rest or `]`
        if rest.len() == 0 {
            lemma_embed_at(t, i + l0, unparse_exprs(rest) + seq![TokenM::RBracket], 0);
            assert((unparse_exprs(rest) + seq![TokenM::RBracket])[0] == TokenM::RBracket);
            assert(t[i + l0] == TokenM::RBracket);
        } else {
            lemma_expr_first(rest[0]);
            assert(unparse_exprs(rest) =~= unparse_expr(rest[0]) + unparse_exprs(
                rest.subrange(1, rest.len() as int),
            ));
            lemma_embed_at(t, i + l0, unparse_exprs(rest) + seq![TokenM::RBracket], 0);
            assert((unparse_exprs(rest) + seq![TokenM::RBracket])[0] == unparse_expr(rest[0])[0]);
            assert(t[i + l0] == unparse_expr(rest[0])[0]);
        }
        assert(!is_op_tok(t[i + l0]));
        lemma_eq_round(t, i, e0);
        lemma_list_round(t, i + l0, rest);
        assert(!(t[i] is RBracket));
        assert(list_elems_s(t, i) == Ok::<(Seq<ExprM>, int), ParseErr>((seq![e0] + rest, i + le
            + 1)));
        assert(seq![e0] + rest =~= es);
    }
}

/// A position where a command may end: the end of input, or a token that
/// neither continues an expression nor begins one.
pub open spec fn at_cmd_stop(t: Seq<TokenM>, j: int) -> bool {
    j == t.len() || (!is_op_tok(t[j]) && !is_expr_start(t[j]))
}

/// A position where a command list may end: the end of input or a closing
/// delimiter.
pub open spec fn at_body_stop(t: Seq<TokenM>, j: int) -> bool {
    j == t.len() || t[j] is RBracket || t[j] is End
}

/// The first token of a reprinted command: never empty, and never a token
/// that an expression, a parameter list or a command list would take for
/// its own.
proof fn lemma_cmd_first(m: CommandM)
    ensures
        unparse_cmd(m).len() >= 1,
        !is_op_tok(unparse_cmd(m)[0]),
        !is_expr_start(unparse_cmd(m)[0]),
        !(unparse_cmd(m)[0] is RBracket),
        !(unparse_cmd(m)[0] is End),
        !(unparse_cmd(m)[0] is Wait),
        !(unparse_cmd(m)[0] is SetTurtle),
        !(unparse_cmd(m)[0] is Variable),
{
    match m {
        CommandM::Forward(e) => {
            assert(unparse_cmd(m)[0] == TokenM::Forward);
        },
        CommandM::Backward(e) => {
            assert(unparse_cmd(m)[0] == TokenM::Backward);
        },
        CommandM::Right(e) => {
            assert(unparse_cmd(m)[0] == TokenM::Right);
        },
        CommandM::Left(e) => {
            assert(unparse_cmd(m)[0] == TokenM::Left);
        },
        CommandM::Show(e) => {
            assert(unparse_cmd(m)[0] == TokenM::Show);
        },
        CommandM::Setcolor(e) => {
            assert(unparse_cmd(m)[0] == TokenM::Setcolor);
        },
        CommandM::Repeat(e, b) => {
            assert(unparse_cmd(m)[0] == TokenM::Repeat);
        },
        CommandM::If(e, b) => {
            assert(unparse_cmd(m)[0] == TokenM::If);
        },
        CommandM::IfElse(e, tb, eb) => {
            assert(unparse_cmd(m)[0] == TokenM::IfElse);
        },
        CommandM::FunctionDeclaration(name, ps, b) => {
            assert(unparse_cmd(m)[0] == TokenM::To);
        },
        CommandM::FunctionCall(name, args) => {
            assert(unparse_cmd(m)[0] == TokenM::Function(name));
        },
        CommandM::Clearscreen => {},
        CommandM::Stop => {},
        CommandM::PenUp => {},
        CommandM::PenDown => {},
        CommandM::ShowTurtle => {},
        CommandM::HideTurtle => {},
    }
}

/// A reprinted parameter list is collected name by name.
proof fn lemma_params_round(t: Seq<TokenM>, i: int, ps: Seq<Seq<char>>)
    requires
        embedded(t, i, unparse_params(ps)),
        i + unparse_params(ps).len() == t.len() || !(t[i + unparse_params(ps).len()] is Variable),
    ensures
        args_s(t, i) == (ps, i + unparse_params(ps).len()),
    decreases ps.len(),
{
    let lp = unparse_params(ps).len() as int;
    if ps.len() == 0 {
        assert(ps =~= Seq::<Seq<char>>::empty());
    } else {
        let rest = ps.subrange(1, ps.len() as int);
        assert(unparse_params(ps) =~= seq![TokenM::Variable(ps[0])] + unparse_params(rest));
        lemma_embed_split(t, i, seq![TokenM::Variable(ps[0])], unparse_params(rest));
        lemma_embed_at(t, i, seq![TokenM::Variable(ps[0])], 0);
        assert(t[i] == TokenM::Variable(ps[0]));
        lemma_params_round(t, i + 1, rest);
        assert(args_s(t, i) == (seq![ps[0]] + rest, i + lp));
        assert(seq![ps[0]] + rest =~= ps);
    }
}

/// A reprinted argument list is gathered greedily and stops exactly at a
/// command boundary.
proof fn lemma_expr_seq_round(t: Seq<TokenM>, i: int, args: Seq<ExprM>)
    requires
        exprs_canon(args),
        embedded(t, i, unparse_exprs(args)),
        at_cmd_stop(t, i + unparse_exprs(args).len()),
    ensures
        expr_seq_s(t, i) == Ok::<(Seq<ExprM>, int), ParseErr>(
            (args, i + unparse_exprs(args).len()),
        ),
    decreases args,
{
    let la = unparse_exprs(args).len() as int;
    let n = t.len() as int;
    if args.len() == 0 {
        assert(args =~= Seq::<ExprM>::empty());
    } else {
        let a0 = args[0];
        let rest = args.subrange(1, args.len() as int);
        let w0 = unparse_expr(a0);
        let l0 = w0.len() as int;
        assert(unparse_exprs(args) =~= w0 + unparse_exprs(rest));
        lemma_embed_split(t, i, w0, unparse_exprs(rest));
        lemma_expr_first(a0);
        lemma_embed_at(t, i, w0, 0);
        assert(t[i] == w0[0]);
        assert(is_expr_start(t[i]));
        // the token after the argument is the head of the rest or the stop
        if rest.len() == 0 {
            assert(i + l0 == i + la);
        } else {
            lemma_expr_first(rest[0]);
            assert(unparse_exprs(rest) =~= unparse_expr(rest[0]) + unparse_exprs(
                rest.subrange(1, rest.len() as int),
            ));
            lemma_embed_at(t, i + l0, unparse_exprs(rest), 0);
            assert(t[i + l0] == unparse_expr(rest[0])[0]);
        }
        assert(i + l0 == n || !is_op_tok(t[i + l0]));
        lemma_eq_round(t, i, a0);
        lemma_expr_seq_round(t, i + l0, rest);
        assert(next_pos(i + l0, i + 1, n) == i + l0);
        assert(expr_seq_s(t, i) == Ok::<(Seq<ExprM>, int), ParseErr>((seq![a0] + rest, i + la)));
        assert(seq![a0] + rest =~= args);
    }
}

/// A reprinted command, wherever its tokens lie, parses back to itself
/// when it is followed by a command boundary.
proof fn lemma_cmd_round(t: Seq<TokenM>, i: int, m: CommandM)
    requires
        cmd_canon(m),
        embedded(t, i, unparse_cmd(m)),
        at_cmd_stop(t, i + unparse_cmd(m).len()),
    ensures
        cmd_s(t, i) == Ok::<(CommandM, int), ParseErr>((m, i + unparse_cmd(m).len())),
    decreases m, 1int,
{
    let n = t.len() as int;
    match m {
        CommandM::Forward(e) => {
            lemma_cmd_expr_round(t, i, m, e, TokenM::Forward);
        },
        CommandM::Backward(e) => {
            lemma_cmd_expr_round(t, i, m, e, TokenM::Backward);
        },
        CommandM::Right(e) => {
            lemma_cmd_expr_round(t, i, m, e, TokenM::Right);
        },
        CommandM::Left(e) => {
            lemma_cmd_expr_round(t, i, m, e, TokenM::Left);
        },
        CommandM::Show(e) => {
            lemma_cmd_expr_round(t, i, m, e, TokenM::Show);
        },
        CommandM::Setcolor(e) => {
            lemma_cmd_expr_round(t, i, m, e, TokenM::Setcolor);
        },
        CommandM::Repeat(e, b) => {
            lemma_cmd_block_round(t, i, m, e, b, TokenM::Repeat);
        },
        CommandM::If(e, b) => {
            lemma_cmd_block_round(t, i, m, e, b, TokenM::If);
        },
        CommandM::IfElse(e, tb, eb) => {
            lemma_cmd_ifelse_round(t, i, m, e, tb, eb);
        },
        CommandM::FunctionDeclaration(name, ps, b) => {
            lemma_cmd_decl_round(t, i, m, name, ps, b);
        },
        CommandM::FunctionCall(name, args) => {
            let wa = unparse_exprs(args);
            assert(unparse_cmd(m) =~= seq![TokenM::Function(name)] + wa);
            lemma_embed_split(t, i, seq![TokenM::Function(name)], wa);
            lemma_embed_at(t, i, seq![TokenM::Function(name)], 0);
            assert(t[i] == TokenM::Function(name));
            lemma_expr_seq_round(t, i + 1, args);
        },
        CommandM::Clearscreen => {
            lemma_embed_at(t, i, unparse_cmd(m), 0);
            assert(t[i] == TokenM::Clearscreen);
        },
        CommandM::Stop => {
            lemma_embed_at(t, i, unparse_cmd(m), 0);
            assert(t[i] == TokenM::Stop);
        },
        CommandM::PenUp => {
            lemma_embed_at(t, i, unparse_cmd(m), 0);
            assert(t[i] == TokenM::PenUp);
        },
        CommandM::PenDown => {
            lemma_embed_at(t, i, unparse_cmd(m), 0);
            assert(t[i] == TokenM::PenDown);
        },
        CommandM::ShowTurtle => {
            lemma_embed_at(t, i, unparse_cmd(m), 0);
            assert(t[i] == TokenM::ShowTurtle);
        },
        CommandM::HideTurtle => {
            lemma_embed_at(t, i, unparse_cmd(m), 0);
            assert(t[i] == TokenM::HideTurtle);
        },
    }
}

/// The shared step for the six commands that take one expression.
#[verifier::spinoff_prover]
#[verifier::rlimit(100)]
proof fn lemma_cmd_expr_round(t: Seq<TokenM>, i: int, m: CommandM, e: ExprM, kw: TokenM)
    requires
        cmd_canon(m),
        embedded(t, i, unparse_cmd(m)),
        at_cmd_stop(t, i + unparse_cmd(m).len()),
        match m {
            CommandM::Forward(x) => kw == TokenM::Forward && e == x,
            CommandM::Backward(x) => kw == TokenM::Backward && e == x,
            CommandM::Right(x) => kw == TokenM::Right && e == x,
            CommandM::Left(x) => kw == TokenM::Left && e == x,
            CommandM::Show(x) => kw == TokenM::Show && e == x,
            CommandM::Setcolor(x) => kw == TokenM::Setcolor && e == x,
            _ => false,
        },
    ensures
        cmd_s(t, i) == Ok::<(CommandM, int), ParseErr>((m, i + unparse_cmd(m).len())),
    decreases m, 0int,
{
    let we = unparse_expr(e);
    let le = we.len() as int;
    assert(unparse_cmd(m) =~= seq![kw] + we);
    lemma_embed_split(t, i, seq![kw], we);
    lemma_embed_at(t, i, seq![kw], 0);
    assert(t[i] == kw);
    lemma_eq_round(t, i + 1, e);
}

/// The shared step for `repeat` and `if`: keyword, count or predicate,
/// then one bracketed body.
#[verifier::spinoff_prover]
#[verifier::rlimit(100)]
proof fn lemma_cmd_block_round(
    t: Seq<TokenM>,
    i: int,
    m: CommandM,
    e: ExprM,
    b: Seq<CommandM>,
    kw: TokenM,
)
    requires
        cmd_canon(m),
        embedded(t, i, unparse_cmd(m)),
        match m {
            CommandM::Repeat(x, bb) => kw == TokenM::Repeat && e == x && b == bb,
            CommandM::If(x, bb) => kw == TokenM::If && e == x && b == bb,
            _ => false,
        },
    ensures
        cmd_s(t, i) == Ok::<(CommandM, int), ParseErr>((m, i + unparse_cmd(m).len())),
    decreases m, 0int,
{
    let we = unparse_expr(e);
    let wb = unparse_cmds(b);
    let le = we.len() as int;
    let lb = wb.len() as int;
    let n = t.len() as int;
    assert(unparse_cmd(m) =~= seq![kw] + (we + (seq![TokenM::LBracket] + (wb + seq![
        TokenM::RBracket,
    ]))));
    lemma_embed_split(t, i, seq![kw], we + (seq![TokenM::LBracket] + (wb + seq![
        TokenM::RBracket,
    ])));
    lemma_embed_split(t, i + 1, we, seq![TokenM::LBracket] + (wb + seq![TokenM::RBracket]));
    lemma_embed_split(t, i + 1 + le, seq![TokenM::LBracket], wb + seq![TokenM::RBracket]);
    lemma_embed_split(t, i + 2 + le, wb, seq![TokenM::RBracket]);
    lemma_embed_at(t, i, seq![kw], 0);
    lemma_embed_at(t, i + 1 + le, seq![TokenM::LBracket], 0);
    lemma_embed_at(t, i + 2 + le + lb, seq![TokenM::RBracket], 0);
    assert(t[i] == kw);
    assert(t[i + 1 + le] == TokenM::LBracket);
    assert(t[i + 2 + le + lb] == TokenM::RBracket);
    lemma_eq_round(t, i + 1, e);
    lemma_cmds_round(t, i + 2 + le, b);
    assert(next_pos(i + 1 + le, i + 1, n) == i + 1 + le);
    assert(block_brackets_s(t, i + 1 + le) == Ok::<(Seq<CommandM>, int), ParseErr>((b, i + 3 + le
        + lb)));
}

/// `ifelse` with its two bracketed bodies.
#[verifier::spinoff_prover]
#[verifier::rlimit(100)]
proof fn lemma_cmd_ifelse_round(
    t: Seq<TokenM>,
    i: int,
    m: CommandM,
    e: ExprM,
    tb: Seq<CommandM>,
    eb: Seq<CommandM>,
)
    requires
        cmd_canon(m),
        embedded(t, i, unparse_cmd(m)),
        m == CommandM::IfElse(e, tb, eb),
    ensures
        cmd_s(t, i) == Ok::<(CommandM, int), ParseErr>((m, i + unparse_cmd(m).len())),
    decreases m, 0int,
{
    let we = unparse_expr(e);
    let wt = unparse_cmds(tb);
    let wl = unparse_cmds(eb);
    let le = we.len() as int;
    let lt = wt.len() as int;
    let ll = wl.len() as int;
    let n = t.len() as int;
    assert(unparse_cmd(m) =~= seq![TokenM::IfElse] + (we + (seq![TokenM::LBracket] + (wt + (seq![
        TokenM::RBracket,
        TokenM::LBracket,
    ] + (wl + seq![TokenM::RBracket]))))));
    lemma_embed_split(t, i, seq![TokenM::IfElse], we + (seq![TokenM::LBracket] + (wt + (seq![
        TokenM::RBracket,
        TokenM::LBracket,
    ] + (wl + seq![TokenM::RBracket])))));
    lemma_embed_split(t, i + 1, we, seq![TokenM::LBracket] + (wt + (seq![
        TokenM::RBracket,
        TokenM::LBracket,
    ] + (wl + seq![TokenM::RBracket]))));
    lemma_embed_split(t, i + 1 + le, seq![TokenM::LBracket], wt + (seq![
        TokenM::RBracket,
        TokenM::LBracket,
    ] + (wl + seq![TokenM::RBracket])));
    lemma_embed_split(t, i + 2 + le, wt, seq![TokenM::RBracket, TokenM::LBracket] + (wl + seq![
        TokenM::RBracket,
    ]));
    lemma_embed_split(t, i + 2 + le + lt, seq![TokenM::RBracket, TokenM::LBracket], wl + seq![
        TokenM::RBracket,
    ]);
    lemma_embed_split(t, i + 4 + le + lt, wl, seq![TokenM::RBracket]);
    lemma_embed_at(t, i, seq![TokenM::IfElse], 0);
    lemma_embed_at(t, i + 1 + le, seq![TokenM::LBracket], 0);
    lemma_embed_at(t, i + 2 + le + lt, seq![TokenM::RBracket, TokenM::LBracket], 0);
    lemma_embed_at(t, i + 2 + le + lt, seq![TokenM::RBracket, TokenM::LBracket], 1);
    lemma_embed_at(t, i + 4 + le + lt + ll, seq![TokenM::RBracket], 0);
    assert(t[i] == TokenM::IfElse);
    assert(t[i + 1 + le] == TokenM::LBracket);
    assert(t[i + 2 + le + lt] == TokenM::RBracket);
    assert(t[i + 3 + le + lt] == TokenM::LBracket);
    assert(t[i + 4 + le + lt + ll] == TokenM::RBracket);
    lemma_eq_round(t, i + 1, e);
    lemma_cmds_round(t, i + 2 + le, tb);
    lemma_cmds_round(t, i + 4 + le + lt, eb);
    assert(next_pos(i + 1 + le, i + 1, n) == i + 1 + le);
    assert(block_brackets_s(t, i + 1 + le) == Ok::<(Seq<CommandM>, int), ParseErr>((tb, i + 3 + le
        + lt)));
    assert(next_pos(i + 3 + le + lt, i + 1, n) == i + 3 + le + lt);
    assert(block_brackets_s(t, i + 3 + le + lt) == Ok::<(Seq<CommandM>, int), ParseErr>((eb, i + 5
        + le + lt + ll)));
}

/// `to name :params body end`.
#[verifier::spinoff_prover]
#[verifier::rlimit(100)]
proof fn lemma_cmd_decl_round(
    t: Seq<TokenM>,
    i: int,
    m: CommandM,
    name: Seq<char>,
    ps: Seq<Seq<char>>,
    b: Seq<CommandM>,
)
    requires
        cmd_canon(m),
        embedded(t, i, unparse_cmd(m)),
        m == CommandM::FunctionDeclaration(name, ps, b),
    ensures
        cmd_s(t, i) == Ok::<(CommandM, int), ParseErr>((m, i + unparse_cmd(m).len())),
    decreases m, 0int,
{
    let wp = unparse_params(ps);
    let wb = unparse_cmds(b);
    let lp = wp.len() as int;
    let lb = wb.len() as int;
    let n = t.len() as int;
    assert(unparse_cmd(m) =~= seq![TokenM::To, TokenM::Function(name)] + (wp + (wb + seq![
        TokenM::End,
    ])));
    lemma_embed_split(t, i, seq![TokenM::To, TokenM::Function(name)], wp + (wb + seq![
        TokenM::End,
    ]));
    lemma_embed_split(t, i + 2, wp, wb + seq![TokenM::End]);
    lemma_embed_split(t, i + 2 + lp, wb, seq![TokenM::End]);
    lemma_embed_at(t, i, seq![TokenM::To, TokenM::Function(name)], 0);
    lemma_embed_at(t, i, seq![TokenM::To, TokenM::Function(name)], 1);
    lemma_embed_at(t, i + 2 + lp + lb, seq![TokenM::End], 0);
    assert(t[i] == TokenM::To);
    assert(t[i + 1] == TokenM::Function(name));
    assert(t[i + 2 + lp + lb] == TokenM::End);
    // the token after the parameters is no variable: a command keyword or `end`
    if b.len() == 0 {
        lemma_embed_at(t, i + 2 + lp, wb + seq![TokenM::End], 0);
        assert((wb + seq![TokenM::End])[0] == TokenM::End);
        assert(!(t[i + 2 + lp] is Variable));
    } else {
        lemma_cmd_first(b[0]);
        assert(unparse_cmds(b) =~= unparse_cmd(b[0]) + unparse_cmds(
            b.subrange(1, b.len() as int),
        ));
        lemma_embed_at(t, i + 2 + lp, wb + seq![TokenM::End], 0);
        assert((wb + seq![TokenM::End])[0] == unparse_cmd(b[0])[0]);
        assert(!(t[i + 2 + lp] is Variable));
    }
    lemma_params_round(t, i + 2, ps);
    lemma_cmds_round(t, i + 2 + lp, b);
    assert(next_pos(i + 2 + lp, i + 2, n) == i + 2 + lp);
    assert(block_end_s(t, i + 2 + lp) == Ok::<(Seq<CommandM>, int), ParseErr>((b, i + 3 + lp
        + lb)));
}

/// A reprinted command list parses back to itself, ending exactly at the
/// closing delimiter or the end of input.
proof fn lemma_cmds_round(t: Seq<TokenM>, i: int, s: Seq<CommandM>)
    requires
        cmds_canon(s),
        embedded(t, i, unparse_cmds(s)),
        at_body_stop(t, i + unparse_cmds(s).len()),
    ensures
        cmds_s(t, i) == Ok::<(Seq<CommandM>, int), ParseErr>((s, i + unparse_cmds(s).len())),
    decreases s, 2int,
{
    let ls = unparse_cmds(s).len() as int;
    let n = t.len() as int;
    if s.len() == 0 {
        assert(s =~= Seq::<CommandM>::empty());
    } else {
        let c0 = s[0];
        let rest = s.subrange(1, s.len() as int);
        let w0 = unparse_cmd(c0);
        let l0 = w0.len() as int;
        assert(unparse_cmds(s) =~= w0 + unparse_cmds(rest));
        lemma_embed_split(t, i, w0, unparse_cmds(rest));
        lemma_cmd_first(c0);
        lemma_embed_at(t, i, w0, 0);
        assert(t[i] == w0[0]);
        // the token after the command is the head of the rest or the terminator
        if rest.len() == 0 {
            assert(i + l0 == i + ls);
        } else {
            lemma_cmd_first(rest[0]);
            assert(unparse_cmds(rest) =~= unparse_cmd(rest[0]) + unparse_cmds(
                rest.subrange(1, rest.len() as int),
            ));
            lemma_embed_at(t, i + l0, unparse_cmds(rest), 0);
            assert(t[i + l0] == unparse_cmd(rest[0])[0]);
        }
        assert(at_cmd_stop(t, i + l0));
        lemma_cmd_round(t, i, c0);
        lemma_cmds_round(t, i + l0, rest);
        assert(next_pos(i + l0, i + 1, n) == i + l0);
        assert(cmds_s(t, i) == Ok::<(Seq<CommandM>, int), ParseErr>((seq![c0] + rest, i + ls)));
        assert(seq![c0] + rest =~= s);
    }
}

/// Parsing is the inverse of unparsing: reprinting any canonical command
/// tree as tokens and parsing those tokens gives the very same tree, with
/// every token consumed.  Together with the exactness of the executable
/// parser and lexer this pins the round trip
/// `parse(tokens(unparse(parse(tokens(P))))) == parse(tokens(P))` on the
/// canonical subset.
pub proof fn lemma_parse_unparse(cmds: Seq<CommandM>)
    requires
        cmds_canon(cmds),
    ensures
        cmds_s(unparse_cmds(cmds), 0) == Ok::<(Seq<CommandM>, int), ParseErr>(
            (cmds, unparse_cmds(cmds).len() as int),
        ),
{
    let t = unparse_cmds(cmds);
    assert(embedded(t, 0, t)) by {
        assert(forall|k: int| 0 <= k < t.len() ==> t[0 + k] == #[trigger] t[k]);
    }
    lemma_cmds_round(t, 0, cmds);
}

// ---------------------------------------------------------------------------
// The parser only produces canonical trees: its color nodes come from the
// seven keywords.  With that, the round trip holds of every parse.
// ---------------------------------------------------------------------------

proof fn lemma_operand_canon(t: Seq<TokenM>, i: int)
    requires
        0 <= i <= t.len(),
    ensures
        operand_s(t, i) matches Ok(r) ==> expr_canon(r.0),
    decreases t.len() - i, 1int,
{
    if i < t.len() {
        match t[i] {
            TokenM::LParen => {
                lemma_eq_canon(t, i + 1);
            },
            TokenM::Sub => {
                lemma_operand_canon(t, i + 1);
            },
            TokenM::Random => {
                lemma_operand_canon(t, i + 1);
            },
            TokenM::Pick => {
                lemma_list_canon(t, i + 1);
            },
            _ => {},
        }
    }
}

proof fn lemma_list_canon(t: Seq<TokenM>, i: int)
    requires
        0 <= i <= t.len(),
    ensures
        list_s(t, i) matches Ok(r) ==> expr_canon(r.0),
    decreases t.len() - i, 10int,
{
    if i < t.len() && t[i] is LBracket {
        lemma_list_elems_canon(t, i + 1);
    }
}

proof fn lemma_list_elems_canon(t: Seq<TokenM>, i: int)
    requires
        0 <= i <= t.len(),
    ensures
        list_elems_s(t, i) matches Ok(r) ==> exprs_canon(r.0),
    decreases t.len() - i, 9int,
{
    let n = t.len() as int;
    if i < n && !(t[i] is RBracket) {
        lemma_eq_canon(t, i);
        match eq_s(t, i) {
            Ok((e, j)) => {
                lemma_list_elems_canon(t, next_pos(j, i + 1, n));
                match list_elems_s(t, next_pos(j, i + 1, n)) {
                    Ok((rest, j2)) => {
                        assert((seq![e] + rest)[0] == e);
                        assert((seq![e] + rest).subrange(1, (seq![e] + rest).len() as int)
                            =~= rest);
                    },
                    _ => {},
                }
            },
            _ => {},
        }
    }
}

proof fn lemma_mul_canon(t: Seq<TokenM>, i: int)
    requires
        0 <= i <= t.len(),
    ensures
        mul_s(t, i) matches Ok(r) ==> expr_canon(r.0),
    decreases t.len() - i, 4int,
{
    lemma_operand_canon(t, i);
    match operand_s(t, i) {
        Ok((e, j)) => {
            lemma_mul_more_canon(t, next_pos(j, i, t.len() as int), e);
        },
        _ => {},
    }
}

proof fn lemma_mul_more_canon(t: Seq<TokenM>, i: int, e: ExprM)
    requires
        0 <= i <= t.len(),
        expr_canon(e),
    ensures
        mul_more_s(t, i, e) matches Ok(r) ==> expr_canon(r.0),
    decreases t.len() - i, 3int,
{
    let n = t.len() as int;
    if i < n && (t[i] is Mul || t[i] is Div) {
        lemma_operand_canon(t, i + 1);
        match operand_s(t, i + 1) {
            Ok((e2, j)) => {
                if t[i] is Mul {
                    lemma_mul_more_canon(
                        t,
                        next_pos(j, i + 1, n),
                        ExprM::Mul(Box::new(e), Box::new(e2)),
                    );
                } else {
                    lemma_mul_more_canon(
                        t,
                        next_pos(j, i + 1, n),
                        ExprM::Div(Box::new(e), Box::new(e2)),
                    );
                }
            },
            _ => {},
        }
    }
}

proof fn lemma_add_canon(t: Seq<TokenM>, i: int)
    requires
        0 <= i <= t.len(),
    ensures
        add_s(t, i) matches Ok(r) ==> expr_canon(r.0),
    decreases t.len() - i, 6int,
{
    lemma_mul_canon(t, i);
    match mul_s(t, i) {
        Ok((e, j)) => {
            lemma_add_more_canon(t, next_pos(j, i, t.len() as int), e);
        },
        _ => {},
    }
}

proof fn lemma_add_more_canon(t: Seq<TokenM>, i: int, e: ExprM)
    requires
        0 <= i <= t.len(),
        expr_canon(e),
    ensures
        add_more_s(t, i, e) matches Ok(r) ==> expr_canon(r.0),
    decreases t.len() - i, 5int,
{
    let n = t.len() as int;
    if i < n && (t[i] is Add || t[i] is Sub) {
        lemma_mul_canon(t, i + 1);
        match mul_s(t, i + 1) {
            Ok((e2, j)) => {
                if t[i] is Add {
                    lemma_add_more_canon(
                        t,
                        next_pos(j, i + 1, n),
                        ExprM::Add(Box::new(e), Box::new(e2)),
                    );
                } else {
                    lemma_add_more_canon(
                        t,
                        next_pos(j, i + 1, n),
                        ExprM::Sub(Box::new(e), Box::new(e2)),
                    );
                }
            },
            _ => {},
        }
    }
}

proof fn lemma_eq_canon(t: Seq<TokenM>, i: int)
    requires
        0 <= i <= t.len(),
    ensures
        eq_s(t, i) matches Ok(r) ==> expr_canon(r.0),
    decreases t.len() - i, 8int,
{
    lemma_add_canon(t, i);
    match add_s(t, i) {
        Ok((e, j)) => {
            lemma_eq_more_canon(t, next_pos(j, i, t.len() as int), e);
        },
        _ => {},
    }
}

proof fn lemma_eq_more_canon(t: Seq<TokenM>, i: int, e: ExprM)
    requires
        0 <= i <= t.len(),
        expr_canon(e),
    ensures
        eq_more_s(t, i, e) matches Ok(r) ==> expr_canon(r.0),
    decreases t.len() - i, 7int,
{
    let n = t.len() as int;
    if i < n && (t[i] is Lt || t[i] is Eq) {
        lemma_add_canon(t, i + 1);
        match add_s(t, i + 1) {
            Ok((e2, j)) => {
                if t[i] is Lt {
                    lemma_eq_more_canon(
                        t,
                        next_pos(j, i + 1, n),
                        ExprM::Lt(Box::new(e), Box::new(e2)),
                    );
                } else {
                    lemma_eq_more_canon(
                        t,
                        next_pos(j, i + 1, n),
                        ExprM::Eq(Box::new(e), Box::new(e2)),
                    );
                }
            },
            _ => {},
        }
    }
}

proof fn lemma_expr_seq_canon(t: Seq<TokenM>, i: int)
    requires
        0 <= i <= t.len(),
    ensures
        expr_seq_s(t, i) matches Ok(r) ==> exprs_canon(r.0),
    decreases t.len() - i, 11int,
{
    let n = t.len() as int;
    if i < n && is_expr_start(t[i]) {
        lemma_eq_canon(t, i);
        match eq_s(t, i) {
            Ok((e, j)) => {
                lemma_expr_seq_canon(t, next_pos(j, i + 1, n));
                match expr_seq_s(t, next_pos(j, i + 1, n)) {
                    Ok((rest, j2)) => {
                        assert((seq![e] + rest)[0] == e);
                        assert((seq![e] + rest).subrange(1, (seq![e] + rest).len() as int)
                            =~= rest);
                    },
                    _ => {},
                }
            },
            _ => {},
        }
    }
}

#[verifier::spinoff_prover]
#[verifier::rlimit(100)]
proof fn lemma_cmd_s_canon(t: Seq<TokenM>, i: int)
    requires
        0 <= i < t.len(),
    ensures
        cmd_s(t, i) matches Ok(r) ==> cmd_canon(r.0),
    decreases t.len() - i, 12int,
{
    let n = t.len() as int;
    match t[i] {
        TokenM::Forward => {
            lemma_eq_canon(t, i + 1);
        },
        TokenM::Backward => {
            lemma_eq_canon(t, i + 1);
        },
        TokenM::Right => {
            lemma_eq_canon(t, i + 1);
        },
        TokenM::Left => {
            lemma_eq_canon(t, i + 1);
        },
        TokenM::Show => {
            lemma_eq_canon(t, i + 1);
        },
        TokenM::Setcolor => {
            lemma_eq_canon(t, i + 1);
        },
        TokenM::Repeat => {
            lemma_eq_canon(t, i + 1);
            match eq_s(t, i + 1) {
                Ok((e, j)) => {
                    lemma_bb_canon(t, next_pos(j, i + 1, n));
                },
                _ => {},
            }
        },
        TokenM::If => {
            lemma_eq_canon(t, i + 1);
            match eq_s(t, i + 1) {
                Ok((e, j)) => {
                    lemma_bb_canon(t, next_pos(j, i + 1, n));
                },
                _ => {},
            }
        },
        TokenM::IfElse => {
            lemma_eq_canon(t, i + 1);
            match eq_s(t, i + 1) {
                Ok((e, j)) => {
                    lemma_bb_canon(t, next_pos(j, i + 1, n));
                    match block_brackets_s(t, next_pos(j, i + 1, n)) {
                        Ok((tb, j2)) => {
                            lemma_bb_canon(t, next_pos(j2, i + 1, n));
                        },
                        _ => {},
                    }
                },
                _ => {},
            }
        },
        TokenM::To => {
            if i + 1 < n && t[i + 1] is Function {
                let pj = args_s(t, i + 2).1;
                lemma_be_canon(t, next_pos(pj, i + 2, n));
            }
        },
        TokenM::Function(name) => {
            lemma_expr_seq_canon(t, i + 1);
        },
        _ => {},
    }
}

proof fn lemma_cmds_s_canon(t: Seq<TokenM>, i: int)
    requires
        0 <= i <= t.len(),
    ensures
        cmds_s(t, i) matches Ok(r) ==> cmds_canon(r.0),
    decreases t.len() - i, 13int,
{
    let n = t.len() as int;
    if i < n {
        match t[i] {
            TokenM::RBracket => {},
            TokenM::End => {},
            TokenM::Wait => {
                lemma_cmds_s_canon(t, i + 1);
            },
            TokenM::SetTurtle => {
                lemma_cmds_s_canon(t, i + 1);
            },
            _ => {
                lemma_cmd_s_canon(t, i);
                match cmd_s(t, i) {
                    Ok((c, j)) => {
                        lemma_cmds_s_canon(t, next_pos(j, i + 1, n));
                        match cmds_s(t, next_pos(j, i + 1, n)) {
                            Ok((rest, j2)) => {
                                assert((seq![c] + rest)[0] == c);
                                assert((seq![c] + rest).subrange(
                                    1,
                                    (seq![c] + rest).len() as int,
                                ) =~= rest);
                            },
                            _ => {},
                        }
                    },
                    _ => {},
                }
            },
        }
    }
}

proof fn lemma_bb_canon(t: Seq<TokenM>, i: int)
    requires
        0 <= i <= t.len(),
    ensures
        block_brackets_s(t, i) matches Ok(r) ==> cmds_canon(r.0),
    decreases t.len() - i, 14int,
{
    if i < t.len() && t[i] is LBracket {
        lemma_cmds_s_canon(t, i + 1);
    }
}

proof fn lemma_be_canon(t: Seq<TokenM>, i: int)
    requires
        0 <= i <= t.len(),
    ensures
        block_end_s(t, i) matches Ok(r) ==> cmds_canon(r.0),
    decreases t.len() - i, 14int,
{
    lemma_cmds_s_canon(t, i);
}

/// Every tree the parser yields is canonical: its color nodes come from
/// the seven color keywords.
pub proof fn lemma_parse_output_canon(t: Seq<TokenM>)
    ensures
        cmds_s(t, 0) matches Ok(r) ==> cmds_canon(r.0),
{
    if t.len() > 0 {
        lemma_cmds_s_canon(t, 0);
    }
}

/// Parsing is idempotent through the unparser, for every token sequence:
/// when tokens parse to a tree, reprinting and reparsing that tree gives
/// the same tree.
pub proof fn lemma_parse_roundtrip(toks: Seq<TokenM>, cmds: Seq<CommandM>, j: int)
    requires
        cmds_s(toks, 0) == Ok::<(Seq<CommandM>, int), ParseErr>((cmds, j)),
    ensures
        cmds_s(unparse_cmds(cmds), 0) == Ok::<(Seq<CommandM>, int), ParseErr>(
            (cmds, unparse_cmds(cmds).len() as int),
        ),
{
    lemma_parse_output_canon(toks);
    lemma_parse_unparse(cmds);
}

} // verus!
