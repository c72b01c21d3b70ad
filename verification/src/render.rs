use vstd::prelude::*;
use crate::lexer::{
    classify, digit_val, digits_end, digits_val, head, is_digit, is_lower, is_ws, lex, lex_from,
    lemma_digits_val_bound, lemma_head_advances, lemma_pow10_18, lemma_pow10_mono, lower_end,
    pow10, Scan, TokenM,
};
use crate::expr_parser::{
    add_more_s, add_s, eq_more_s, eq_s, list_elems_s, list_s, mul_more_s, mul_s, next_pos,
    operand_s,
};
use crate::parser::{
    args_s, block_brackets_s, block_end_s, cmd_s, cmds_s, expr_seq_s, is_expr_start, CommandM,
    ExprM, ParseErr,
};
use crate::rat::Rat;
use crate::unparse::{
    cmds_canon, color_token, embedded, lemma_embed_at, lemma_embed_split, lemma_parse_unparse,
    unparse_cmd, unparse_cmds, unparse_expr, unparse_exprs, unparse_params,
};
use vstd::arithmetic::div_mod::lemma_fundamental_div_mod;

verus! {

// Rendering tokens as text.  Each token has a fixed spelling; whitespace
// separates neighbours.  The lemmas here show that the lexer reads a
// rendered token sequence back unchanged, which closes the textual round
// trip on top of the token-level one.

/// The character of one decimal digit.
pub open spec fn digit_char_of(d: int) -> char {
    if d == 0 {
        '0'
    } else if d == 1 {
        '1'
    } else if d == 2 {
        '2'
    } else if d == 3 {
        '3'
    } else if d == 4 {
        '4'
    } else if d == 5 {
        '5'
    } else if d == 6 {
        '6'
    } else if d == 7 {
        '7'
    } else if d == 8 {
        '8'
    } else {
        '9'
    }
}

/// The value of a standalone digit string, most significant first.
pub open spec fn val_of_digits(w: Seq<char>) -> int
    decreases w.len(),
{
    if w.len() == 0 {
        0
    } else {
        val_of_digits(w.drop_last()) * 10 + digit_val(w.last())
    }
}

/// The minimal decimal spelling of a nonnegative number.
pub open spec fn digits_of(n: int) -> Seq<char>
    recommends
        n >= 0,
    decreases n,
        when n >= 0
    via digits_of_decreases
{
    if n < 10 {
        seq![digit_char_of(n)]
    } else {
        digits_of(n / 10).push(digit_char_of(n % 10))
    }
}

#[via_fn]
proof fn digits_of_decreases(n: int) {
    if n >= 10 {
        vstd::arithmetic::div_mod::lemma_div_decreases(n, 10);
        vstd::arithmetic::div_mod::lemma_div_pos_is_pos(n, 10);
    }
}

/// The fixed-width decimal spelling of a fraction numerator: exactly `k`
/// digits, zero padded.
pub open spec fn frac_digits(x: int, k: nat) -> Seq<char>
    recommends
        x >= 0,
    decreases k,
{
    if k == 0 {
        Seq::empty()
    } else {
        frac_digits(x / 10, (k - 1) as nat).push(digit_char_of(x % 10))
    }
}

proof fn lemma_digit_char(d: int)
    requires
        0 <= d <= 9,
    ensures
        is_digit(digit_char_of(d)),
        digit_val(digit_char_of(d)) == d,
{
}

/// The spelling of `n` is nonempty, all digits, and reads back as `n`.
proof fn lemma_digits_of(n: int)
    requires
        n >= 0,
    ensures
        digits_of(n).len() >= 1,
        forall|k: int| 0 <= k < digits_of(n).len() ==> is_digit(#[trigger] digits_of(n)[k]),
        val_of_digits(digits_of(n)) == n,
    decreases n,
{
    if n < 10 {
        lemma_digit_char(n);
        let w = digits_of(n);
        assert(w.drop_last() =~= Seq::<char>::empty());
        assert(val_of_digits(Seq::<char>::empty()) == 0);
        assert(w.last() == digit_char_of(n));
        assert(val_of_digits(w) == 0 * 10 + digit_val(w.last()));
    } else {
        vstd::arithmetic::div_mod::lemma_div_decreases(n, 10);
        vstd::arithmetic::div_mod::lemma_div_pos_is_pos(n, 10);
        lemma_digits_of(n / 10);
        lemma_fundamental_div_mod(n, 10);
        lemma_digit_char(n % 10);
        let w = digits_of(n);
        assert(w.drop_last() =~= digits_of(n / 10));
        assert(w.last() == digit_char_of(n % 10));
        assert(val_of_digits(w) == val_of_digits(digits_of(n / 10)) * 10 + digit_val(w.last()));
        assert((n / 10) * 10 == 10 * (n / 10)) by (nonlinear_arith);
        assert(forall|k: int|
            0 <= k < w.len() - 1 ==> #[trigger] w[k] == digits_of(n / 10)[k]);
    }
}

/// A number below `pow10(d)` spells with at most `d` digits.
proof fn lemma_digits_of_len(n: int, d: nat)
    requires
        0 <= n < pow10(d),
        d >= 1,
    ensures
        digits_of(n).len() <= d,
    decreases n,
{
    if n >= 10 {
        vstd::arithmetic::div_mod::lemma_div_decreases(n, 10);
        vstd::arithmetic::div_mod::lemma_div_pos_is_pos(n, 10);
        lemma_fundamental_div_mod(n, 10);
        if d == 1 {
            assert(pow10(0) == 1);
            assert(pow10(1) == 10);
            assert(false);
        }
        assert(pow10(d) == 10 * pow10((d - 1) as nat));
        assert(n / 10 < pow10((d - 1) as nat)) by {
            if n / 10 >= pow10((d - 1) as nat) {
                assert(10 * (n / 10) >= 10 * pow10((d - 1) as nat)) by (nonlinear_arith)
                    requires
                        n / 10 >= pow10((d - 1) as nat),
                ;
                assert(n >= 10 * (n / 10));
                assert(false);
            }
        }
        lemma_digits_of_len(n / 10, (d - 1) as nat);
    }
}

/// A zero-padded fraction spelling has exactly `k` digits and reads back
/// as its numerator.
proof fn lemma_frac_digits(x: int, k: nat)
    requires
        0 <= x < pow10(k),
    ensures
        frac_digits(x, k).len() == k,
        forall|j: int| 0 <= j < k ==> is_digit(#[trigger] frac_digits(x, k)[j]),
        val_of_digits(frac_digits(x, k)) == x,
    decreases k,
{
    if k > 0 {
        lemma_fundamental_div_mod(x, 10);
        vstd::arithmetic::div_mod::lemma_div_pos_is_pos(x, 10);
        assert(pow10(k) == 10 * pow10((k - 1) as nat));
        assert(x / 10 < pow10((k - 1) as nat)) by {
            if x / 10 >= pow10((k - 1) as nat) {
                assert(10 * (x / 10) >= 10 * pow10((k - 1) as nat)) by (nonlinear_arith)
                    requires
                        x / 10 >= pow10((k - 1) as nat),
                ;
                assert(x >= 10 * (x / 10));
                assert(false);
            }
        }
        lemma_frac_digits(x / 10, (k - 1) as nat);
        lemma_digit_char(x % 10);
        let w = frac_digits(x, k);
        assert(w.drop_last() =~= frac_digits(x / 10, (k - 1) as nat));
        assert(forall|j: int|
            0 <= j < w.len() - 1 ==> #[trigger] w[j] == frac_digits(x / 10, (k - 1) as nat)[j]);
    }
}

/// A digit window inside a larger text has the standalone value.
proof fn lemma_digits_val_embed(s: Seq<char>, a: int, w: Seq<char>)
    requires
        embedded(s, a, w),
    ensures
        digits_val(s, a, a + w.len()) == val_of_digits(w),
    decreases w.len(),
{
    if w.len() > 0 {
        assert(embedded(s, a, w.drop_last())) by {
            assert(forall|k: int|
                0 <= k < w.len() - 1 ==> #[trigger] w.drop_last()[k] == w[k]);
        }
        lemma_digits_val_embed(s, a, w.drop_last());
        lemma_embed_at(s, a, w, w.len() - 1);
    }
}

/// The number of trailing zeros of a power of ten, and zero for one.
pub open spec fn pow_width(d: int) -> nat
    decreases d,
        when d >= 0
    via pow_width_decreases
{
    if d <= 1 {
        0
    } else {
        1 + pow_width(d / 10)
    }
}

#[via_fn]
proof fn pow_width_decreases(d: int) {
    if d > 1 {
        vstd::arithmetic::div_mod::lemma_div_decreases(d, 10);
        vstd::arithmetic::div_mod::lemma_div_pos_is_pos(d, 10);
    }
}

proof fn lemma_pow10_ge_one(k: nat)
    ensures
        pow10(k) >= 1,
    decreases k,
{
    if k > 0 {
        lemma_pow10_ge_one((k - 1) as nat);
    }
}

proof fn lemma_pow_width(k: nat)
    ensures
        pow_width(pow10(k)) == k,
    decreases k,
{
    lemma_pow10_ge_one(k);
    if k > 0 {
        lemma_pow10_ge_one((k - 1) as nat);
        assert(pow10(k) == 10 * pow10((k - 1) as nat));
        vstd::arithmetic::div_mod::lemma_div_multiples_vanish(pow10((k - 1) as nat), 10);
        assert(pow10(k) / 10 == pow10((k - 1) as nat));
        assert(pow10(k) > 1) by (nonlinear_arith)
            requires
                pow10(k) == 10 * pow10((k - 1) as nat),
                pow10((k - 1) as nat) >= 1,
        ;
        lemma_pow_width((k - 1) as nat);
    }
}

/// `pow10` splits over a sum of exponents.
proof fn lemma_pow10_add(a: nat, b: nat)
    ensures
        pow10(a + b) == pow10(a) * pow10(b),
    decreases a,
{
    if a == 0 {
        assert(pow10(0 + b) == 1 * pow10(b)) by (nonlinear_arith)
            requires
                pow10((0 + b) as nat) == pow10(b),
        ;
    } else {
        lemma_pow10_add((a - 1) as nat, b);
        assert(pow10((a + b) as nat) == 10 * pow10((a - 1 + b) as nat));
        assert(10 * (pow10((a - 1) as nat) * pow10(b)) == (10 * pow10((a - 1) as nat)) * pow10(
            b,
        )) by (nonlinear_arith);
    }
}

/// A quotient by a power of ten keeps its bound: `x < A * B` gives
/// `x / A < B` for positive `A`.
proof fn lemma_div_bound(x: int, a: int, b: int)
    requires
        0 <= x,
        0 < a,
        0 < b,
        x < a * b,
    ensures
        0 <= x / a < b,
{
    vstd::arithmetic::div_mod::lemma_div_pos_is_pos(x, a);
    lemma_fundamental_div_mod(x, a);
    if x / a >= b {
        assert(a * (x / a) >= a * b) by (nonlinear_arith)
            requires
                x / a >= b,
                a > 0,
        ;
        assert(false);
    }
}

/// The spelling of a numeric literal: the integer digits, then, when the
/// denominator is a proper power of ten, a point and the zero-padded
/// fraction digits.
pub open spec fn num_text(r: Rat) -> Seq<char> {
    let k = pow_width(r.den as int);
    if k == 0 {
        digits_of(r.num as int)
    } else {
        digits_of(r.num as int / pow10(k)) + seq!['.'] + frac_digits(r.num as int % pow10(k), k)
    }
}

/// A number token the lexer could have made: nonnegative, below `10^18`,
/// with a power-of-ten denominator of at most seventeen places.
pub open spec fn num_wf(r: Rat) -> bool {
    &&& 0 <= r.num
    &&& (r.num as int) < pow10(18)
    &&& pow_width(r.den as int) <= 17
    &&& (r.den as int) == pow10(pow_width(r.den as int))
}

/// The fixed spelling of one token.
pub open spec fn token_text(tm: TokenM) -> Seq<char> {
    match tm {
        TokenM::Mul => seq!['*'],
        TokenM::Add => seq!['+'],
        TokenM::Sub => seq!['-'],
        TokenM::Div => seq!['/'],
        TokenM::Lt => seq!['<'],
        TokenM::Eq => seq!['='],
        TokenM::LParen => seq!['('],
        TokenM::RParen => seq![')'],
        TokenM::LBracket => seq!['['],
        TokenM::RBracket => seq![']'],
        TokenM::Repeat => "repeat"@,
        TokenM::Stop => "stop"@,
        TokenM::If => "if"@,
        TokenM::IfElse => "ifelse"@,
        TokenM::To => "to"@,
        TokenM::End => "end"@,
        TokenM::Show => "show"@,
        TokenM::Wait => "wait"@,
        TokenM::Pick => "pick"@,
        TokenM::Random => "random"@,
        TokenM::Red => "red"@,
        TokenM::Orange => "orange"@,
        TokenM::Yellow => "yellow"@,
        TokenM::Green => "green"@,
        TokenM::Blue => "blue"@,
        TokenM::Violet => "violet"@,
        TokenM::Black => "black"@,
        TokenM::Clearscreen => "clearscreen"@,
        TokenM::Setcolor => "setcolor"@,
        TokenM::Forward => "forward"@,
        TokenM::Backward => "backward"@,
        TokenM::Left => "left"@,
        TokenM::Right => "right"@,
        TokenM::PenUp => "penup"@,
        TokenM::PenDown => "pendown"@,
        TokenM::ShowTurtle => "showturtle"@,
        TokenM::HideTurtle => "hideturtle"@,
        TokenM::SetTurtle => "setturtle"@,
        TokenM::Number(r) => num_text(r),
        TokenM::Variable(s) => s,
        TokenM::Function(s) => s,
    }
}

/// A token whose spelling the lexer reads back: names are proper, numeric
/// literals within the representable range.
pub open spec fn token_wf(tm: TokenM) -> bool {
    match tm {
        TokenM::Number(r) => num_wf(r),
        TokenM::Variable(s) => s.len() >= 2 && s[0] == ':' && (forall|j: int|
            1 <= j < s.len() ==> is_lower(#[trigger] s[j])),
        TokenM::Function(s) => s.len() >= 1 && (forall|j: int|
            0 <= j < s.len() ==> is_lower(#[trigger] s[j])) && classify(s) == TokenM::Function(s),
        _ => true,
    }
}

/// The text of a token sequence: the spellings joined by single spaces.
pub open spec fn render_text(ts: Seq<TokenM>) -> Seq<char>
    decreases ts,
{
    if ts.len() == 0 {
        Seq::empty()
    } else {
        token_text(ts[0]) + rest_text(ts.subrange(1, ts.len() as int))
    }
}

pub open spec fn rest_text(ts: Seq<TokenM>) -> Seq<char>
    decreases ts,
{
    if ts.len() == 0 {
        Seq::empty()
    } else {
        seq![' '] + token_text(ts[0]) + rest_text(ts.subrange(1, ts.len() as int))
    }
}

// ---------------------------------------------------------------------------
// The lexer reads a rendered token back
// ---------------------------------------------------------------------------

proof fn lemma_lower_end_is(s: Seq<char>, a: int, b: int)
    requires
        0 <= a <= b <= s.len(),
        forall|k: int| a <= k < b ==> is_lower(#[trigger] s[k]),
        b == s.len() || !is_lower(s[b]),
    ensures
        lower_end(s, a) == b,
    decreases b - a,
{
    if a < b {
        lemma_lower_end_is(s, a + 1, b);
    }
}

proof fn lemma_digits_end_is(s: Seq<char>, a: int, b: int)
    requires
        0 <= a <= b <= s.len(),
        forall|k: int| a <= k < b ==> is_digit(#[trigger] s[k]),
        b == s.len() || !is_digit(s[b]),
    ensures
        digits_end(s, a) == b,
    decreases b - a,
{
    if a < b {
        lemma_digits_end_is(s, a + 1, b);
    }
}

/// A keyword spelling: nonempty, lowercase throughout, classified back to
/// its own token.
pub open spec fn kw_ok(w: Seq<char>, tm: TokenM) -> bool {
    &&& w.len() >= 1
    &&& forall|j: int| 0 <= j < w.len() ==> is_lower(#[trigger] w[j])
    &&& classify(w) == tm
}

/// The spellings the renderer uses are read back by the keyword table.
proof fn lemma_keyword_facts()
    ensures
        kw_ok("repeat"@, TokenM::Repeat),
        kw_ok("stop"@, TokenM::Stop),
        kw_ok("if"@, TokenM::If),
        kw_ok("ifelse"@, TokenM::IfElse),
        kw_ok("to"@, TokenM::To),
        kw_ok("end"@, TokenM::End),
        kw_ok("show"@, TokenM::Show),
        kw_ok("wait"@, TokenM::Wait),
        kw_ok("pick"@, TokenM::Pick),
        kw_ok("random"@, TokenM::Random),
        kw_ok("red"@, TokenM::Red),
        kw_ok("orange"@, TokenM::Orange),
        kw_ok("yellow"@, TokenM::Yellow),
        kw_ok("green"@, TokenM::Green),
        kw_ok("blue"@, TokenM::Blue),
        kw_ok("violet"@, TokenM::Violet),
        kw_ok("black"@, TokenM::Black),
        kw_ok("clearscreen"@, TokenM::Clearscreen),
        kw_ok("setcolor"@, TokenM::Setcolor),
        kw_ok("forward"@, TokenM::Forward),
        kw_ok("backward"@, TokenM::Backward),
        kw_ok("left"@, TokenM::Left),
        kw_ok("right"@, TokenM::Right),
        kw_ok("penup"@, TokenM::PenUp),
        kw_ok("pendown"@, TokenM::PenDown),
        kw_ok("showturtle"@, TokenM::ShowTurtle),
        kw_ok("hideturtle"@, TokenM::HideTurtle),
        kw_ok("setturtle"@, TokenM::SetTurtle),
{
    lemma_keyword_facts_control();
    lemma_keyword_facts_colors();
    lemma_keyword_facts_motion();
    lemma_keyword_facts_pen();
}

#[verifier::spinoff_prover]
#[verifier::rlimit(100)]
proof fn lemma_keyword_facts_control()
    ensures
        kw_ok("repeat"@, TokenM::Repeat),
        kw_ok("stop"@, TokenM::Stop),
        kw_ok("if"@, TokenM::If),
        kw_ok("ifelse"@, TokenM::IfElse),
        kw_ok("to"@, TokenM::To),
        kw_ok("end"@, TokenM::End),
        kw_ok("show"@, TokenM::Show),
        kw_ok("wait"@, TokenM::Wait),
        kw_ok("pick"@, TokenM::Pick),
        kw_ok("random"@, TokenM::Random),
{
    reveal_strlit("repeat");
    reveal_strlit("stop");
    reveal_strlit("if");
    reveal_strlit("ifelse");
    reveal_strlit("to");
    reveal_strlit("end");
    reveal_strlit("show");
    reveal_strlit("wait");
    reveal_strlit("pick");
    reveal_strlit("random");
    reveal_strlit("red");
    reveal_strlit("orange");
    reveal_strlit("yellow");
    reveal_strlit("green");
    reveal_strlit("blue");
    reveal_strlit("violet");
    reveal_strlit("black");
    reveal_strlit("clearscreen");
    reveal_strlit("setcolor");
    reveal_strlit("fd");
    reveal_strlit("forward");
    reveal_strlit("bk");
    reveal_strlit("back");
    reveal_strlit("backward");
    reveal_strlit("lt");
    reveal_strlit("left");
    reveal_strlit("rt");
    reveal_strlit("right");
    reveal_strlit("pu");
    reveal_strlit("penup");
    reveal_strlit("pd");
    reveal_strlit("pendown");
    reveal_strlit("st");
    reveal_strlit("showturtle");
    reveal_strlit("ht");
    reveal_strlit("hideturtle");
    reveal_strlit("setturtle");
    assert(("repeat"@).len() == 6);
    assert(("repeat"@)[0] == 'r');
    assert(("repeat"@)[1] == 'e');
    assert(("stop"@).len() == 4);
    assert(("stop"@)[0] == 's');
    assert(("stop"@)[1] == 't');
    assert(("if"@).len() == 2);
    assert(("if"@)[0] == 'i');
    assert(("if"@)[1] == 'f');
    assert(("ifelse"@).len() == 6);
    assert(("ifelse"@)[0] == 'i');
    assert(("ifelse"@)[1] == 'f');
    assert(("to"@).len() == 2);
    assert(("to"@)[0] == 't');
    assert(("to"@)[1] == 'o');
    assert(("end"@).len() == 3);
    assert(("end"@)[0] == 'e');
    assert(("end"@)[1] == 'n');
    assert(("show"@).len() == 4);
    assert(("show"@)[0] == 's');
    assert(("show"@)[1] == 'h');
    assert(("wait"@).len() == 4);
    assert(("wait"@)[0] == 'w');
    assert(("wait"@)[1] == 'a');
    assert(("pick"@).len() == 4);
    assert(("pick"@)[0] == 'p');
    assert(("pick"@)[1] == 'i');
    assert(("random"@).len() == 6);
    assert(("random"@)[0] == 'r');
    assert(("random"@)[1] == 'a');
    assert(("red"@).len() == 3);
    assert(("red"@)[0] == 'r');
    assert(("red"@)[1] == 'e');
    assert(("orange"@).len() == 6);
    assert(("orange"@)[0] == 'o');
    assert(("orange"@)[1] == 'r');
    assert(("yellow"@).len() == 6);
    assert(("yellow"@)[0] == 'y');
    assert(("yellow"@)[1] == 'e');
    assert(("green"@).len() == 5);
    assert(("green"@)[0] == 'g');
    assert(("green"@)[1] == 'r');
    assert(("blue"@).len() == 4);
    assert(("blue"@)[0] == 'b');
    assert(("blue"@)[1] == 'l');
    assert(("violet"@).len() == 6);
    assert(("violet"@)[0] == 'v');
    assert(("violet"@)[1] == 'i');
    assert(("black"@).len() == 5);
    assert(("black"@)[0] == 'b');
    assert(("black"@)[1] == 'l');
    assert(("clearscreen"@).len() == 11);
    assert(("clearscreen"@)[0] == 'c');
    assert(("clearscreen"@)[1] == 'l');
    assert(("setcolor"@).len() == 8);
    assert(("setcolor"@)[0] == 's');
    assert(("setcolor"@)[1] == 'e');
    assert(("fd"@).len() == 2);
    assert(("fd"@)[0] == 'f');
    assert(("fd"@)[1] == 'd');
    assert(("forward"@).len() == 7);
    assert(("forward"@)[0] == 'f');
    assert(("forward"@)[1] == 'o');
    assert(("bk"@).len() == 2);
    assert(("bk"@)[0] == 'b');
    assert(("bk"@)[1] == 'k');
    assert(("back"@).len() == 4);
    assert(("back"@)[0] == 'b');
    assert(("back"@)[1] == 'a');
    assert(("backward"@).len() == 8);
    assert(("backward"@)[0] == 'b');
    assert(("backward"@)[1] == 'a');
    assert(("lt"@).len() == 2);
    assert(("lt"@)[0] == 'l');
    assert(("lt"@)[1] == 't');
    assert(("left"@).len() == 4);
    assert(("left"@)[0] == 'l');
    assert(("left"@)[1] == 'e');
    assert(("rt"@).len() == 2);
    assert(("rt"@)[0] == 'r');
    assert(("rt"@)[1] == 't');
    assert(("right"@).len() == 5);
    assert(("right"@)[0] == 'r');
    assert(("right"@)[1] == 'i');
    assert(("pu"@).len() == 2);
    assert(("pu"@)[0] == 'p');
    assert(("pu"@)[1] == 'u');
    assert(("penup"@).len() == 5);
    assert(("penup"@)[0] == 'p');
    assert(("penup"@)[1] == 'e');
    assert(("pd"@).len() == 2);
    assert(("pd"@)[0] == 'p');
    assert(("pd"@)[1] == 'd');
    assert(("pendown"@).len() == 7);
    assert(("pendown"@)[0] == 'p');
    assert(("pendown"@)[1] == 'e');
    assert(("st"@).len() == 2);
    assert(("st"@)[0] == 's');
    assert(("st"@)[1] == 't');
    assert(("showturtle"@).len() == 10);
    assert(("showturtle"@)[0] == 's');
    assert(("showturtle"@)[1] == 'h');
    assert(("ht"@).len() == 2);
    assert(("ht"@)[0] == 'h');
    assert(("ht"@)[1] == 't');
    assert(("hideturtle"@).len() == 10);
    assert(("hideturtle"@)[0] == 'h');
    assert(("hideturtle"@)[1] == 'i');
    assert(("setturtle"@).len() == 9);
    assert(("setturtle"@)[0] == 's');
    assert(("setturtle"@)[1] == 'e');
    assert(("stop"@) != ("repeat"@));
    assert(("if"@) != ("repeat"@));
    assert(("if"@) != ("stop"@));
    assert(("ifelse"@) != ("repeat"@));
    assert(("ifelse"@) != ("stop"@));
    assert(("ifelse"@) != ("if"@));
    assert(("to"@) != ("repeat"@));
    assert(("to"@) != ("stop"@));
    assert(("to"@) != ("if"@));
    assert(("to"@) != ("ifelse"@));
    assert(("end"@) != ("repeat"@));
    assert(("end"@) != ("stop"@));
    assert(("end"@) != ("if"@));
    assert(("end"@) != ("ifelse"@));
    assert(("end"@) != ("to"@));
    assert(("show"@) != ("repeat"@));
    assert(("show"@) != ("stop"@));
    assert(("show"@) != ("if"@));
    assert(("show"@) != ("ifelse"@));
    assert(("show"@) != ("to"@));
    assert(("show"@) != ("end"@));
    assert(("wait"@) != ("repeat"@));
    assert(("wait"@) != ("stop"@));
    assert(("wait"@) != ("if"@));
    assert(("wait"@) != ("ifelse"@));
    assert(("wait"@) != ("to"@));
    assert(("wait"@) != ("end"@));
    assert(("wait"@) != ("show"@));
    assert(("pick"@) != ("repeat"@));
    assert(("pick"@) != ("stop"@));
    assert(("pick"@) != ("if"@));
    assert(("pick"@) != ("ifelse"@));
    assert(("pick"@) != ("to"@));
    assert(("pick"@) != ("end"@));
    assert(("pick"@) != ("show"@));
    assert(("pick"@) != ("wait"@));
    assert(("random"@) != ("repeat"@));
    assert(("random"@) != ("stop"@));
    assert(("random"@) != ("if"@));
    assert(("random"@) != ("ifelse"@));
    assert(("random"@) != ("to"@));
    assert(("random"@) != ("end"@));
    assert(("random"@) != ("show"@));
    assert(("random"@) != ("wait"@));
    assert(("random"@) != ("pick"@));
}

#[verifier::spinoff_prover]
#[verifier::rlimit(100)]
proof fn lemma_keyword_facts_colors()
    ensures
        kw_ok("red"@, TokenM::Red),
        kw_ok("orange"@, TokenM::Orange),
        kw_ok("yellow"@, TokenM::Yellow),
        kw_ok("green"@, TokenM::Green),
        kw_ok("blue"@, TokenM::Blue),
        kw_ok("violet"@, TokenM::Violet),
        kw_ok("black"@, TokenM::Black),
{
    reveal_strlit("repeat");
    reveal_strlit("stop");
    reveal_strlit("if");
    reveal_strlit("ifelse");
    reveal_strlit("to");
    reveal_strlit("end");
    reveal_strlit("show");
    reveal_strlit("wait");
    reveal_strlit("pick");
    reveal_strlit("random");
    reveal_strlit("red");
    reveal_strlit("orange");
    reveal_strlit("yellow");
    reveal_strlit("green");
    reveal_strlit("blue");
    reveal_strlit("violet");
    reveal_strlit("black");
    reveal_strlit("clearscreen");
    reveal_strlit("setcolor");
    reveal_strlit("fd");
    reveal_strlit("forward");
    reveal_strlit("bk");
    reveal_strlit("back");
    reveal_strlit("backward");
    reveal_strlit("lt");
    reveal_strlit("left");
    reveal_strlit("rt");
    reveal_strlit("right");
    reveal_strlit("pu");
    reveal_strlit("penup");
    reveal_strlit("pd");
    reveal_strlit("pendown");
    reveal_strlit("st");
    reveal_strlit("showturtle");
    reveal_strlit("ht");
    reveal_strlit("hideturtle");
    reveal_strlit("setturtle");
    assert(("repeat"@).len() == 6);
    assert(("repeat"@)[0] == 'r');
    assert(("repeat"@)[1] == 'e');
    assert(("stop"@).len() == 4);
    assert(("stop"@)[0] == 's');
    assert(("stop"@)[1] == 't');
    assert(("if"@).len() == 2);
    assert(("if"@)[0] == 'i');
    assert(("if"@)[1] == 'f');
    assert(("ifelse"@).len() == 6);
    assert(("ifelse"@)[0] == 'i');
    assert(("ifelse"@)[1] == 'f');
    assert(("to"@).len() == 2);
    assert(("to"@)[0] == 't');
    assert(("to"@)[1] == 'o');
    assert(("end"@).len() == 3);
    assert(("end"@)[0] == 'e');
    assert(("end"@)[1] == 'n');
    assert(("show"@).len() == 4);
    assert(("show"@)[0] == 's');
    assert(("show"@)[1] == 'h');
    assert(("wait"@).len() == 4);
    assert(("wait"@)[0] == 'w');
    assert(("wait"@)[1] == 'a');
    assert(("pick"@).len() == 4);
    assert(("pick"@)[0] == 'p');
    assert(("pick"@)[1] == 'i');
    assert(("random"@).len() == 6);
    assert(("random"@)[0] == 'r');
    assert(("random"@)[1] == 'a');
    assert(("red"@).len() == 3);
    assert(("red"@)[0] == 'r');
    assert(("red"@)[1] == 'e');
    assert(("orange"@).len() == 6);
    assert(("orange"@)[0] == 'o');
    assert(("orange"@)[1] == 'r');
    assert(("yellow"@).len() == 6);
    assert(("yellow"@)[0] == 'y');
    assert(("yellow"@)[1] == 'e');
    assert(("green"@).len() == 5);
    assert(("green"@)[0] == 'g');
    assert(("green"@)[1] == 'r');
    assert(("blue"@).len() == 4);
    assert(("blue"@)[0] == 'b');
    assert(("blue"@)[1] == 'l');
    assert(("violet"@).len() == 6);
    assert(("violet"@)[0] == 'v');
    assert(("violet"@)[1] == 'i');
    assert(("black"@).len() == 5);
    assert(("black"@)[0] == 'b');
    assert(("black"@)[1] == 'l');
    assert(("clearscreen"@).len() == 11);
    assert(("clearscreen"@)[0] == 'c');
    assert(("clearscreen"@)[1] == 'l');
    assert(("setcolor"@).len() == 8);
    assert(("setcolor"@)[0] == 's');
    assert(("setcolor"@)[1] == 'e');
    assert(("fd"@).len() == 2);
    assert(("fd"@)[0] == 'f');
    assert(("fd"@)[1] == 'd');
    assert(("forward"@).len() == 7);
    assert(("forward"@)[0] == 'f');
    assert(("forward"@)[1] == 'o');
    assert(("bk"@).len() == 2);
    assert(("bk"@)[0] == 'b');
    assert(("bk"@)[1] == 'k');
    assert(("back"@).len() == 4);
    assert(("back"@)[0] == 'b');
    assert(("back"@)[1] == 'a');
    assert(("backward"@).len() == 8);
    assert(("backward"@)[0] == 'b');
    assert(("backward"@)[1] == 'a');
    assert(("lt"@).len() == 2);
    assert(("lt"@)[0] == 'l');
    assert(("lt"@)[1] == 't');
    assert(("left"@).len() == 4);
    assert(("left"@)[0] == 'l');
    assert(("left"@)[1] == 'e');
    assert(("rt"@).len() == 2);
    assert(("rt"@)[0] == 'r');
    assert(("rt"@)[1] == 't');
    assert(("right"@).len() == 5);
    assert(("right"@)[0] == 'r');
    assert(("right"@)[1] == 'i');
    assert(("pu"@).len() == 2);
    assert(("pu"@)[0] == 'p');
    assert(("pu"@)[1] == 'u');
    assert(("penup"@).len() == 5);
    assert(("penup"@)[0] == 'p');
    assert(("penup"@)[1] == 'e');
    assert(("pd"@).len() == 2);
    assert(("pd"@)[0] == 'p');
    assert(("pd"@)[1] == 'd');
    assert(("pendown"@).len() == 7);
    assert(("pendown"@)[0] == 'p');
    assert(("pendown"@)[1] == 'e');
    assert(("st"@).len() == 2);
    assert(("st"@)[0] == 's');
    assert(("st"@)[1] == 't');
    assert(("showturtle"@).len() == 10);
    assert(("showturtle"@)[0] == 's');
    assert(("showturtle"@)[1] == 'h');
    assert(("ht"@).len() == 2);
    assert(("ht"@)[0] == 'h');
    assert(("ht"@)[1] == 't');
    assert(("hideturtle"@).len() == 10);
    assert(("hideturtle"@)[0] == 'h');
    assert(("hideturtle"@)[1] == 'i');
    assert(("setturtle"@).len() == 9);
    assert(("setturtle"@)[0] == 's');
    assert(("setturtle"@)[1] == 'e');
    assert(("red"@) != ("repeat"@));
    assert(("red"@) != ("stop"@));
    assert(("red"@) != ("if"@));
    assert(("red"@) != ("ifelse"@));
    assert(("red"@) != ("to"@));
    assert(("red"@) != ("end"@));
    assert(("red"@) != ("show"@));
    assert(("red"@) != ("wait"@));
    assert(("red"@) != ("pick"@));
    assert(("red"@) != ("random"@));
    assert(("orange"@) != ("repeat"@));
    assert(("orange"@) != ("stop"@));
    assert(("orange"@) != ("if"@));
    assert(("orange"@) != ("ifelse"@));
    assert(("orange"@) != ("to"@));
    assert(("orange"@) != ("end"@));
    assert(("orange"@) != ("show"@));
    assert(("orange"@) != ("wait"@));
    assert(("orange"@) != ("pick"@));
    assert(("orange"@) != ("random"@));
    assert(("orange"@) != ("red"@));
    assert(("yellow"@) != ("repeat"@));
    assert(("yellow"@) != ("stop"@));
    assert(("yellow"@) != ("if"@));
    assert(("yellow"@) != ("ifelse"@));
    assert(("yellow"@) != ("to"@));
    assert(("yellow"@) != ("end"@));
    assert(("yellow"@) != ("show"@));
    assert(("yellow"@) != ("wait"@));
    assert(("yellow"@) != ("pick"@));
    assert(("yellow"@) != ("random"@));
    assert(("yellow"@) != ("red"@));
    assert(("yellow"@) != ("orange"@));
    assert(("green"@) != ("repeat"@));
    assert(("green"@) != ("stop"@));
    assert(("green"@) != ("if"@));
    assert(("green"@) != ("ifelse"@));
    assert(("green"@) != ("to"@));
    assert(("green"@) != ("end"@));
    assert(("green"@) != ("show"@));
    assert(("green"@) != ("wait"@));
    assert(("green"@) != ("pick"@));
    assert(("green"@) != ("random"@));
    assert(("green"@) != ("red"@));
    assert(("green"@) != ("orange"@));
    assert(("green"@) != ("yellow"@));
    assert(("blue"@) != ("repeat"@));
    assert(("blue"@) != ("stop"@));
    assert(("blue"@) != ("if"@));
    assert(("blue"@) != ("ifelse"@));
    assert(("blue"@) != ("to"@));
    assert(("blue"@) != ("end"@));
    assert(("blue"@) != ("show"@));
    assert(("blue"@) != ("wait"@));
    assert(("blue"@) != ("pick"@));
    assert(("blue"@) != ("random"@));
    assert(("blue"@) != ("red"@));
    assert(("blue"@) != ("orange"@));
    assert(("blue"@) != ("yellow"@));
    assert(("blue"@) != ("green"@));
    assert(("violet"@) != ("repeat"@));
    assert(("violet"@) != ("stop"@));
    assert(("violet"@) != ("if"@));
    assert(("violet"@) != ("ifelse"@));
    assert(("violet"@) != ("to"@));
    assert(("violet"@) != ("end"@));
    assert(("violet"@) != ("show"@));
    assert(("violet"@) != ("wait"@));
    assert(("violet"@) != ("pick"@));
    assert(("violet"@) != ("random"@));
    assert(("violet"@) != ("red"@));
    assert(("violet"@) != ("orange"@));
    assert(("violet"@) != ("yellow"@));
    assert(("violet"@) != ("green"@));
    assert(("violet"@) != ("blue"@));
    assert(("black"@) != ("repeat"@));
    assert(("black"@) != ("stop"@));
    assert(("black"@) != ("if"@));
    assert(("black"@) != ("ifelse"@));
    assert(("black"@) != ("to"@));
    assert(("black"@) != ("end"@));
    assert(("black"@) != ("show"@));
    assert(("black"@) != ("wait"@));
    assert(("black"@) != ("pick"@));
    assert(("black"@) != ("random"@));
    assert(("black"@) != ("red"@));
    assert(("black"@) != ("orange"@));
    assert(("black"@) != ("yellow"@));
    assert(("black"@) != ("green"@));
    assert(("black"@) != ("blue"@));
    assert(("black"@) != ("violet"@));
}

#[verifier::spinoff_prover]
#[verifier::rlimit(100)]
proof fn lemma_keyword_facts_motion()
    ensures
        kw_ok("clearscreen"@, TokenM::Clearscreen),
        kw_ok("setcolor"@, TokenM::Setcolor),
        kw_ok("forward"@, TokenM::Forward),
        kw_ok("backward"@, TokenM::Backward),
        kw_ok("left"@, TokenM::Left),
        kw_ok("right"@, TokenM::Right),
{
    reveal_strlit("repeat");
    reveal_strlit("stop");
    reveal_strlit("if");
    reveal_strlit("ifelse");
    reveal_strlit("to");
    reveal_strlit("end");
    reveal_strlit("show");
    reveal_strlit("wait");
    reveal_strlit("pick");
    reveal_strlit("random");
    reveal_strlit("red");
    reveal_strlit("orange");
    reveal_strlit("yellow");
    reveal_strlit("green");
    reveal_strlit("blue");
    reveal_strlit("violet");
    reveal_strlit("black");
    reveal_strlit("clearscreen");
    reveal_strlit("setcolor");
    reveal_strlit("fd");
    reveal_strlit("forward");
    reveal_strlit("bk");
    reveal_strlit("back");
    reveal_strlit("backward");
    reveal_strlit("lt");
    reveal_strlit("left");
    reveal_strlit("rt");
    reveal_strlit("right");
    reveal_strlit("pu");
    reveal_strlit("penup");
    reveal_strlit("pd");
    reveal_strlit("pendown");
    reveal_strlit("st");
    reveal_strlit("showturtle");
    reveal_strlit("ht");
    reveal_strlit("hideturtle");
    reveal_strlit("setturtle");
    assert(("repeat"@).len() == 6);
    assert(("repeat"@)[0] == 'r');
    assert(("repeat"@)[1] == 'e');
    assert(("stop"@).len() == 4);
    assert(("stop"@)[0] == 's');
    assert(("stop"@)[1] == 't');
    assert(("if"@).len() == 2);
    assert(("if"@)[0] == 'i');
    assert(("if"@)[1] == 'f');
    assert(("ifelse"@).len() == 6);
    assert(("ifelse"@)[0] == 'i');
    assert(("ifelse"@)[1] == 'f');
    assert(("to"@).len() == 2);
    assert(("to"@)[0] == 't');
    assert(("to"@)[1] == 'o');
    assert(("end"@).len() == 3);
    assert(("end"@)[0] == 'e');
    assert(("end"@)[1] == 'n');
    assert(("show"@).len() == 4);
    assert(("show"@)[0] == 's');
    assert(("show"@)[1] == 'h');
    assert(("wait"@).len() == 4);
    assert(("wait"@)[0] == 'w');
    assert(("wait"@)[1] == 'a');
    assert(("pick"@).len() == 4);
    assert(("pick"@)[0] == 'p');
    assert(("pick"@)[1] == 'i');
    assert(("random"@).len() == 6);
    assert(("random"@)[0] == 'r');
    assert(("random"@)[1] == 'a');
    assert(("red"@).len() == 3);
    assert(("red"@)[0] == 'r');
    assert(("red"@)[1] == 'e');
    assert(("orange"@).len() == 6);
    assert(("orange"@)[0] == 'o');
    assert(("orange"@)[1] == 'r');
    assert(("yellow"@).len() == 6);
    assert(("yellow"@)[0] == 'y');
    assert(("yellow"@)[1] == 'e');
    assert(("green"@).len() == 5);
    assert(("green"@)[0] == 'g');
    assert(("green"@)[1] == 'r');
    assert(("blue"@).len() == 4);
    assert(("blue"@)[0] == 'b');
    assert(("blue"@)[1] == 'l');
    assert(("violet"@).len() == 6);
    assert(("violet"@)[0] == 'v');
    assert(("violet"@)[1] == 'i');
    assert(("black"@).len() == 5);
    assert(("black"@)[0] == 'b');
    assert(("black"@)[1] == 'l');
    assert(("clearscreen"@).len() == 11);
    assert(("clearscreen"@)[0] == 'c');
    assert(("clearscreen"@)[1] == 'l');
    assert(("setcolor"@).len() == 8);
    assert(("setcolor"@)[0] == 's');
    assert(("setcolor"@)[1] == 'e');
    assert(("fd"@).len() == 2);
    assert(("fd"@)[0] == 'f');
    assert(("fd"@)[1] == 'd');
    assert(("forward"@).len() == 7);
    assert(("forward"@)[0] == 'f');
    assert(("forward"@)[1] == 'o');
    assert(("bk"@).len() == 2);
    assert(("bk"@)[0] == 'b');
    assert(("bk"@)[1] == 'k');
    assert(("back"@).len() == 4);
    assert(("back"@)[0] == 'b');
    assert(("back"@)[1] == 'a');
    assert(("backward"@).len() == 8);
    assert(("backward"@)[0] == 'b');
    assert(("backward"@)[1] == 'a');
    assert(("lt"@).len() == 2);
    assert(("lt"@)[0] == 'l');
    assert(("lt"@)[1] == 't');
    assert(("left"@).len() == 4);
    assert(("left"@)[0] == 'l');
    assert(("left"@)[1] == 'e');
    assert(("rt"@).len() == 2);
    assert(("rt"@)[0] == 'r');
    assert(("rt"@)[1] == 't');
    assert(("right"@).len() == 5);
    assert(("right"@)[0] == 'r');
    assert(("right"@)[1] == 'i');
    assert(("pu"@).len() == 2);
    assert(("pu"@)[0] == 'p');
    assert(("pu"@)[1] == 'u');
    assert(("penup"@).len() == 5);
    assert(("penup"@)[0] == 'p');
    assert(("penup"@)[1] == 'e');
    assert(("pd"@).len() == 2);
    assert(("pd"@)[0] == 'p');
    assert(("pd"@)[1] == 'd');
    assert(("pendown"@).len() == 7);
    assert(("pendown"@)[0] == 'p');
    assert(("pendown"@)[1] == 'e');
    assert(("st"@).len() == 2);
    assert(("st"@)[0] == 's');
    assert(("st"@)[1] == 't');
    assert(("showturtle"@).len() == 10);
    assert(("showturtle"@)[0] == 's');
    assert(("showturtle"@)[1] == 'h');
    assert(("ht"@).len() == 2);
    assert(("ht"@)[0] == 'h');
    assert(("ht"@)[1] == 't');
    assert(("hideturtle"@).len() == 10);
    assert(("hideturtle"@)[0] == 'h');
    assert(("hideturtle"@)[1] == 'i');
    assert(("setturtle"@).len() == 9);
    assert(("setturtle"@)[0] == 's');
    assert(("setturtle"@)[1] == 'e');
    assert(("clearscreen"@) != ("repeat"@));
    assert(("clearscreen"@) != ("stop"@));
    assert(("clearscreen"@) != ("if"@));
    assert(("clearscreen"@) != ("ifelse"@));
    assert(("clearscreen"@) != ("to"@));
    assert(("clearscreen"@) != ("end"@));
    assert(("clearscreen"@) != ("show"@));
    assert(("clearscreen"@) != ("wait"@));
    assert(("clearscreen"@) != ("pick"@));
    assert(("clearscreen"@) != ("random"@));
    assert(("clearscreen"@) != ("red"@));
    assert(("clearscreen"@) != ("orange"@));
    assert(("clearscreen"@) != ("yellow"@));
    assert(("clearscreen"@) != ("green"@));
    assert(("clearscreen"@) != ("blue"@));
    assert(("clearscreen"@) != ("violet"@));
    assert(("clearscreen"@) != ("black"@));
    assert(("setcolor"@) != ("repeat"@));
    assert(("setcolor"@) != ("stop"@));
    assert(("setcolor"@) != ("if"@));
    assert(("setcolor"@) != ("ifelse"@));
    assert(("setcolor"@) != ("to"@));
    assert(("setcolor"@) != ("end"@));
    assert(("setcolor"@) != ("show"@));
    assert(("setcolor"@) != ("wait"@));
    assert(("setcolor"@) != ("pick"@));
    assert(("setcolor"@) != ("random"@));
    assert(("setcolor"@) != ("red"@));
    assert(("setcolor"@) != ("orange"@));
    assert(("setcolor"@) != ("yellow"@));
    assert(("setcolor"@) != ("green"@));
    assert(("setcolor"@) != ("blue"@));
    assert(("setcolor"@) != ("violet"@));
    assert(("setcolor"@) != ("black"@));
    assert(("setcolor"@) != ("clearscreen"@));
    assert(("forward"@) != ("repeat"@));
    assert(("forward"@) != ("stop"@));
    assert(("forward"@) != ("if"@));
    assert(("forward"@) != ("ifelse"@));
    assert(("forward"@) != ("to"@));
    assert(("forward"@) != ("end"@));
    assert(("forward"@) != ("show"@));
    assert(("forward"@) != ("wait"@));
    assert(("forward"@) != ("pick"@));
    assert(("forward"@) != ("random"@));
    assert(("forward"@) != ("red"@));
    assert(("forward"@) != ("orange"@));
    assert(("forward"@) != ("yellow"@));
    assert(("forward"@) != ("green"@));
    assert(("forward"@) != ("blue"@));
    assert(("forward"@) != ("violet"@));
    assert(("forward"@) != ("black"@));
    assert(("forward"@) != ("clearscreen"@));
    assert(("forward"@) != ("setcolor"@));
    assert(("backward"@) != ("repeat"@));
    assert(("backward"@) != ("stop"@));
    assert(("backward"@) != ("if"@));
    assert(("backward"@) != ("ifelse"@));
    assert(("backward"@) != ("to"@));
    assert(("backward"@) != ("end"@));
    assert(("backward"@) != ("show"@));
    assert(("backward"@) != ("wait"@));
    assert(("backward"@) != ("pick"@));
    assert(("backward"@) != ("random"@));
    assert(("backward"@) != ("red"@));
    assert(("backward"@) != ("orange"@));
    assert(("backward"@) != ("yellow"@));
    assert(("backward"@) != ("green"@));
    assert(("backward"@) != ("blue"@));
    assert(("backward"@) != ("violet"@));
    assert(("backward"@) != ("black"@));
    assert(("backward"@) != ("clearscreen"@));
    assert(("backward"@) != ("setcolor"@));
    assert(("backward"@) != ("fd"@));
    assert(("backward"@) != ("forward"@));
    assert(("left"@) != ("repeat"@));
    assert(("left"@) != ("stop"@));
    assert(("left"@) != ("if"@));
    assert(("left"@) != ("ifelse"@));
    assert(("left"@) != ("to"@));
    assert(("left"@) != ("end"@));
    assert(("left"@) != ("show"@));
    assert(("left"@) != ("wait"@));
    assert(("left"@) != ("pick"@));
    assert(("left"@) != ("random"@));
    assert(("left"@) != ("red"@));
    assert(("left"@) != ("orange"@));
    assert(("left"@) != ("yellow"@));
    assert(("left"@) != ("green"@));
    assert(("left"@) != ("blue"@));
    assert(("left"@) != ("violet"@));
    assert(("left"@) != ("black"@));
    assert(("left"@) != ("clearscreen"@));
    assert(("left"@) != ("setcolor"@));
    assert(("left"@) != ("fd"@));
    assert(("left"@) != ("forward"@));
    assert(("left"@) != ("bk"@));
    assert(("left"@) != ("back"@));
    assert(("left"@) != ("backward"@));
    assert(("right"@) != ("repeat"@));
    assert(("right"@) != ("stop"@));
    assert(("right"@) != ("if"@));
    assert(("right"@) != ("ifelse"@));
    assert(("right"@) != ("to"@));
    assert(("right"@) != ("end"@));
    assert(("right"@) != ("show"@));
    assert(("right"@) != ("wait"@));
    assert(("right"@) != ("pick"@));
    assert(("right"@) != ("random"@));
    assert(("right"@) != ("red"@));
    assert(("right"@) != ("orange"@));
    assert(("right"@) != ("yellow"@));
    assert(("right"@) != ("green"@));
    assert(("right"@) != ("blue"@));
    assert(("right"@) != ("violet"@));
    assert(("right"@) != ("black"@));
    assert(("right"@) != ("clearscreen"@));
    assert(("right"@) != ("setcolor"@));
    assert(("right"@) != ("fd"@));
    assert(("right"@) != ("forward"@));
    assert(("right"@) != ("bk"@));
    assert(("right"@) != ("back"@));
    assert(("right"@) != ("backward"@));
    assert(("right"@) != ("lt"@));
    assert(("right"@) != ("left"@));
}

#[verifier::spinoff_prover]
#[verifier::rlimit(100)]
proof fn lemma_keyword_facts_pen()
    ensures
        kw_ok("penup"@, TokenM::PenUp),
        kw_ok("pendown"@, TokenM::PenDown),
        kw_ok("showturtle"@, TokenM::ShowTurtle),
        kw_ok("hideturtle"@, TokenM::HideTurtle),
        kw_ok("setturtle"@, TokenM::SetTurtle),
{
    reveal_strlit("repeat");
    reveal_strlit("stop");
    reveal_strlit("if");
    reveal_strlit("ifelse");
    reveal_strlit("to");
    reveal_strlit("end");
    reveal_strlit("show");
    reveal_strlit("wait");
    reveal_strlit("pick");
    reveal_strlit("random");
    reveal_strlit("red");
    reveal_strlit("orange");
    reveal_strlit("yellow");
    reveal_strlit("green");
    reveal_strlit("blue");
    reveal_strlit("violet");
    reveal_strlit("black");
    reveal_strlit("clearscreen");
    reveal_strlit("setcolor");
    reveal_strlit("fd");
    reveal_strlit("forward");
    reveal_strlit("bk");
    reveal_strlit("back");
    reveal_strlit("backward");
    reveal_strlit("lt");
    reveal_strlit("left");
    reveal_strlit("rt");
    reveal_strlit("right");
    reveal_strlit("pu");
    reveal_strlit("penup");
    reveal_strlit("pd");
    reveal_strlit("pendown");
    reveal_strlit("st");
    reveal_strlit("showturtle");
    reveal_strlit("ht");
    reveal_strlit("hideturtle");
    reveal_strlit("setturtle");
    assert(("repeat"@).len() == 6);
    assert(("repeat"@)[0] == 'r');
    assert(("repeat"@)[1] == 'e');
    assert(("stop"@).len() == 4);
    assert(("stop"@)[0] == 's');
    assert(("stop"@)[1] == 't');
    assert(("if"@).len() == 2);
    assert(("if"@)[0] == 'i');
    assert(("if"@)[1] == 'f');
    assert(("ifelse"@).len() == 6);
    assert(("ifelse"@)[0] == 'i');
    assert(("ifelse"@)[1] == 'f');
    assert(("to"@).len() == 2);
    assert(("to"@)[0] == 't');
    assert(("to"@)[1] == 'o');
    assert(("end"@).len() == 3);
    assert(("end"@)[0] == 'e');
    assert(("end"@)[1] == 'n');
    assert(("show"@).len() == 4);
    assert(("show"@)[0] == 's');
    assert(("show"@)[1] == 'h');
    assert(("wait"@).len() == 4);
    assert(("wait"@)[0] == 'w');
    assert(("wait"@)[1] == 'a');
    assert(("pick"@).len() == 4);
    assert(("pick"@)[0] == 'p');
    assert(("pick"@)[1] == 'i');
    assert(("random"@).len() == 6);
    assert(("random"@)[0] == 'r');
    assert(("random"@)[1] == 'a');
    assert(("red"@).len() == 3);
    assert(("red"@)[0] == 'r');
    assert(("red"@)[1] == 'e');
    assert(("orange"@).len() == 6);
    assert(("orange"@)[0] == 'o');
    assert(("orange"@)[1] == 'r');
    assert(("yellow"@).len() == 6);
    assert(("yellow"@)[0] == 'y');
    assert(("yellow"@)[1] == 'e');
    assert(("green"@).len() == 5);
    assert(("green"@)[0] == 'g');
    assert(("green"@)[1] == 'r');
    assert(("blue"@).len() == 4);
    assert(("blue"@)[0] == 'b');
    assert(("blue"@)[1] == 'l');
    assert(("violet"@).len() == 6);
    assert(("violet"@)[0] == 'v');
    assert(("violet"@)[1] == 'i');
    assert(("black"@).len() == 5);
    assert(("black"@)[0] == 'b');
    assert(("black"@)[1] == 'l');
    assert(("clearscreen"@).len() == 11);
    assert(("clearscreen"@)[0] == 'c');
    assert(("clearscreen"@)[1] == 'l');
    assert(("setcolor"@).len() == 8);
    assert(("setcolor"@)[0] == 's');
    assert(("setcolor"@)[1] == 'e');
    assert(("fd"@).len() == 2);
    assert(("fd"@)[0] == 'f');
    assert(("fd"@)[1] == 'd');
    assert(("forward"@).len() == 7);
    assert(("forward"@)[0] == 'f');
    assert(("forward"@)[1] == 'o');
    assert(("bk"@).len() == 2);
    assert(("bk"@)[0] == 'b');
    assert(("bk"@)[1] == 'k');
    assert(("back"@).len() == 4);
    assert(("back"@)[0] == 'b');
    assert(("back"@)[1] == 'a');
    assert(("backward"@).len() == 8);
    assert(("backward"@)[0] == 'b');
    assert(("backward"@)[1] == 'a');
    assert(("lt"@).len() == 2);
    assert(("lt"@)[0] == 'l');
    assert(("lt"@)[1] == 't');
    assert(("left"@).len() == 4);
    assert(("left"@)[0] == 'l');
    assert(("left"@)[1] == 'e');
    assert(("rt"@).len() == 2);
    assert(("rt"@)[0] == 'r');
    assert(("rt"@)[1] == 't');
    assert(("right"@).len() == 5);
    assert(("right"@)[0] == 'r');
    assert(("right"@)[1] == 'i');
    assert(("pu"@).len() == 2);
    assert(("pu"@)[0] == 'p');
    assert(("pu"@)[1] == 'u');
    assert(("penup"@).len() == 5);
    assert(("penup"@)[0] == 'p');
    assert(("penup"@)[1] == 'e');
    assert(("pd"@).len() == 2);
    assert(("pd"@)[0] == 'p');
    assert(("pd"@)[1] == 'd');
    assert(("pendown"@).len() == 7);
    assert(("pendown"@)[0] == 'p');
    assert(("pendown"@)[1] == 'e');
    assert(("st"@).len() == 2);
    assert(("st"@)[0] == 's');
    assert(("st"@)[1] == 't');
    assert(("showturtle"@).len() == 10);
    assert(("showturtle"@)[0] == 's');
    assert(("showturtle"@)[1] == 'h');
    assert(("ht"@).len() == 2);
    assert(("ht"@)[0] == 'h');
    assert(("ht"@)[1] == 't');
    assert(("hideturtle"@).len() == 10);
    assert(("hideturtle"@)[0] == 'h');
    assert(("hideturtle"@)[1] == 'i');
    assert(("setturtle"@).len() == 9);
    assert(("setturtle"@)[0] == 's');
    assert(("setturtle"@)[1] == 'e');
    assert(("penup"@) != ("repeat"@));
    assert(("penup"@) != ("stop"@));
    assert(("penup"@) != ("if"@));
    assert(("penup"@) != ("ifelse"@));
    assert(("penup"@) != ("to"@));
    assert(("penup"@) != ("end"@));
    assert(("penup"@) != ("show"@));
    assert(("penup"@) != ("wait"@));
    assert(("penup"@) != ("pick"@));
    assert(("penup"@) != ("random"@));
    assert(("penup"@) != ("red"@));
    assert(("penup"@) != ("orange"@));
    assert(("penup"@) != ("yellow"@));
    assert(("penup"@) != ("green"@));
    assert(("penup"@) != ("blue"@));
    assert(("penup"@) != ("violet"@));
    assert(("penup"@) != ("black"@));
    assert(("penup"@) != ("clearscreen"@));
    assert(("penup"@) != ("setcolor"@));
    assert(("penup"@) != ("fd"@));
    assert(("penup"@) != ("forward"@));
    assert(("penup"@) != ("bk"@));
    assert(("penup"@) != ("back"@));
    assert(("penup"@) != ("backward"@));
    assert(("penup"@) != ("lt"@));
    assert(("penup"@) != ("left"@));
    assert(("penup"@) != ("rt"@));
    assert(("penup"@) != ("right"@));
    assert(("pendown"@) != ("repeat"@));
    assert(("pendown"@) != ("stop"@));
    assert(("pendown"@) != ("if"@));
    assert(("pendown"@) != ("ifelse"@));
    assert(("pendown"@) != ("to"@));
    assert(("pendown"@) != ("end"@));
    assert(("pendown"@) != ("show"@));
    assert(("pendown"@) != ("wait"@));
    assert(("pendown"@) != ("pick"@));
    assert(("pendown"@) != ("random"@));
    assert(("pendown"@) != ("red"@));
    assert(("pendown"@) != ("orange"@));
    assert(("pendown"@) != ("yellow"@));
    assert(("pendown"@) != ("green"@));
    assert(("pendown"@) != ("blue"@));
    assert(("pendown"@) != ("violet"@));
    assert(("pendown"@) != ("black"@));
    assert(("pendown"@) != ("clearscreen"@));
    assert(("pendown"@) != ("setcolor"@));
    assert(("pendown"@) != ("fd"@));
    assert(("pendown"@) != ("forward"@));
    assert(("pendown"@) != ("bk"@));
    assert(("pendown"@) != ("back"@));
    assert(("pendown"@) != ("backward"@));
    assert(("pendown"@) != ("lt"@));
    assert(("pendown"@) != ("left"@));
    assert(("pendown"@) != ("rt"@));
    assert(("pendown"@) != ("right"@));
    assert(("pendown"@) != ("pu"@));
    assert(("pendown"@) != ("penup"@));
    assert(("showturtle"@) != ("repeat"@));
    assert(("showturtle"@) != ("stop"@));
    assert(("showturtle"@) != ("if"@));
    assert(("showturtle"@) != ("ifelse"@));
    assert(("showturtle"@) != ("to"@));
    assert(("showturtle"@) != ("end"@));
    assert(("showturtle"@) != ("show"@));
    assert(("showturtle"@) != ("wait"@));
    assert(("showturtle"@) != ("pick"@));
    assert(("showturtle"@) != ("random"@));
    assert(("showturtle"@) != ("red"@));
    assert(("showturtle"@) != ("orange"@));
    assert(("showturtle"@) != ("yellow"@));
    assert(("showturtle"@) != ("green"@));
    assert(("showturtle"@) != ("blue"@));
    assert(("showturtle"@) != ("violet"@));
    assert(("showturtle"@) != ("black"@));
    assert(("showturtle"@) != ("clearscreen"@));
    assert(("showturtle"@) != ("setcolor"@));
    assert(("showturtle"@) != ("fd"@));
    assert(("showturtle"@) != ("forward"@));
    assert(("showturtle"@) != ("bk"@));
    assert(("showturtle"@) != ("back"@));
    assert(("showturtle"@) != ("backward"@));
    assert(("showturtle"@) != ("lt"@));
    assert(("showturtle"@) != ("left"@));
    assert(("showturtle"@) != ("rt"@));
    assert(("showturtle"@) != ("right"@));
    assert(("showturtle"@) != ("pu"@));
    assert(("showturtle"@) != ("penup"@));
    assert(("showturtle"@) != ("pd"@));
    assert(("showturtle"@) != ("pendown"@));
    assert(("hideturtle"@) != ("repeat"@));
    assert(("hideturtle"@) != ("stop"@));
    assert(("hideturtle"@) != ("if"@));
    assert(("hideturtle"@) != ("ifelse"@));
    assert(("hideturtle"@) != ("to"@));
    assert(("hideturtle"@) != ("end"@));
    assert(("hideturtle"@) != ("show"@));
    assert(("hideturtle"@) != ("wait"@));
    assert(("hideturtle"@) != ("pick"@));
    assert(("hideturtle"@) != ("random"@));
    assert(("hideturtle"@) != ("red"@));
    assert(("hideturtle"@) != ("orange"@));
    assert(("hideturtle"@) != ("yellow"@));
    assert(("hideturtle"@) != ("green"@));
    assert(("hideturtle"@) != ("blue"@));
    assert(("hideturtle"@) != ("violet"@));
    assert(("hideturtle"@) != ("black"@));
    assert(("hideturtle"@) != ("clearscreen"@));
    assert(("hideturtle"@) != ("setcolor"@));
    assert(("hideturtle"@) != ("fd"@));
    assert(("hideturtle"@) != ("forward"@));
    assert(("hideturtle"@) != ("bk"@));
    assert(("hideturtle"@) != ("back"@));
    assert(("hideturtle"@) != ("backward"@));
    assert(("hideturtle"@) != ("lt"@));
    assert(("hideturtle"@) != ("left"@));
    assert(("hideturtle"@) != ("rt"@));
    assert(("hideturtle"@) != ("right"@));
    assert(("hideturtle"@) != ("pu"@));
    assert(("hideturtle"@) != ("penup"@));
    assert(("hideturtle"@) != ("pd"@));
    assert(("hideturtle"@) != ("pendown"@));
    assert(("hideturtle"@) != ("st"@));
    assert(("hideturtle"@) != ("showturtle"@));
    assert(("setturtle"@) != ("repeat"@));
    assert(("setturtle"@) != ("stop"@));
    assert(("setturtle"@) != ("if"@));
    assert(("setturtle"@) != ("ifelse"@));
    assert(("setturtle"@) != ("to"@));
    assert(("setturtle"@) != ("end"@));
    assert(("setturtle"@) != ("show"@));
    assert(("setturtle"@) != ("wait"@));
    assert(("setturtle"@) != ("pick"@));
    assert(("setturtle"@) != ("random"@));
    assert(("setturtle"@) != ("red"@));
    assert(("setturtle"@) != ("orange"@));
    assert(("setturtle"@) != ("yellow"@));
    assert(("setturtle"@) != ("green"@));
    assert(("setturtle"@) != ("blue"@));
    assert(("setturtle"@) != ("violet"@));
    assert(("setturtle"@) != ("black"@));
    assert(("setturtle"@) != ("clearscreen"@));
    assert(("setturtle"@) != ("setcolor"@));
    assert(("setturtle"@) != ("fd"@));
    assert(("setturtle"@) != ("forward"@));
    assert(("setturtle"@) != ("bk"@));
    assert(("setturtle"@) != ("back"@));
    assert(("setturtle"@) != ("backward"@));
    assert(("setturtle"@) != ("lt"@));
    assert(("setturtle"@) != ("left"@));
    assert(("setturtle"@) != ("rt"@));
    assert(("setturtle"@) != ("right"@));
    assert(("setturtle"@) != ("pu"@));
    assert(("setturtle"@) != ("penup"@));
    assert(("setturtle"@) != ("pd"@));
    assert(("setturtle"@) != ("pendown"@));
    assert(("setturtle"@) != ("st"@));
    assert(("setturtle"@) != ("showturtle"@));
    assert(("setturtle"@) != ("ht"@));
    assert(("setturtle"@) != ("hideturtle"@));
}


/// A lowercase word at `i`, bounded by a space or the end, is read as the
/// token its spelling classifies to.
proof fn lemma_word_token(s: Seq<char>, i: int, w: Seq<char>, tm: TokenM)
    requires
        kw_ok(w, tm),
        embedded(s, i, w),
        i + w.len() == s.len() || s[i + w.len()] == ' ',
    ensures
        head(s, i) == Scan::Emit(tm, i + w.len()),
{
    let b = i + w.len() as int;
    assert forall|k: int| i <= k < b implies is_lower(#[trigger] s[k]) by {
        lemma_embed_at(s, i, w, k - i);
    }
    lemma_lower_end_is(s, i, b);
    lemma_embed_at(s, i, w, 0);
    assert(is_lower(s[i]));
    assert(s.subrange(i, b) =~= w) by {
        assert(forall|k: int| 0 <= k < w.len() ==> s.subrange(i, b)[k] == s[i + k]);
    }
}

/// A variable reference at `i`: the sigil, then the lowercase name.
proof fn lemma_var_token(s: Seq<char>, i: int, name: Seq<char>)
    requires
        name.len() >= 2,
        name[0] == ':',
        forall|j: int| 1 <= j < name.len() ==> is_lower(#[trigger] name[j]),
        embedded(s, i, name),
        i + name.len() == s.len() || s[i + name.len()] == ' ',
    ensures
        head(s, i) == Scan::Emit(TokenM::Variable(name), i + name.len()),
{
    let b = i + name.len() as int;
    lemma_embed_at(s, i, name, 0);
    assert(s[i] == ':');
    assert forall|k: int| i + 1 <= k < b implies is_lower(#[trigger] s[k]) by {
        lemma_embed_at(s, i, name, k - i);
    }
    lemma_lower_end_is(s, i + 1, b);
    assert(s.subrange(i, b) =~= name) by {
        assert(forall|k: int| 0 <= k < name.len() ==> s.subrange(i, b)[k] == s[i + k]);
    }
}

/// A numeric literal at `i`: its digits, and the point when there is a
/// fraction, are scanned back to the same rational.
#[verifier::spinoff_prover]
#[verifier::rlimit(100)]
proof fn lemma_num_token(s: Seq<char>, i: int, r: Rat)
    requires
        num_wf(r),
        embedded(s, i, num_text(r)),
        i + num_text(r).len() == s.len() || s[i + num_text(r).len()] == ' ',
    ensures
        head(s, i) == Scan::Emit(TokenM::Number(r), i + num_text(r).len()),
{
    let n = r.num as int;
    let k = pow_width(r.den as int);
    lemma_pow10_ge_one(k);
    if k == 0 {
        let w = digits_of(n);
        lemma_digits_of(n);
        lemma_digits_of_len(n, 18);
        let b = i + w.len() as int;
        assert forall|j: int| i <= j < b implies is_digit(#[trigger] s[j]) by {
            lemma_embed_at(s, i, w, j - i);
        }
        lemma_embed_at(s, i, w, 0);
        lemma_digits_end_is(s, i, b);
        lemma_digits_val_embed(s, i, w);
        assert(head(s, i) == Scan::Emit(
            TokenM::Number(Rat { num: digits_val(s, i, b) as i64, den: 1 }),
            b,
        ));
        assert(Rat { num: digits_val(s, i, b) as i64, den: 1 } == r);
    } else {
        let ip = n / pow10(k);
        let fp = n % pow10(k);
        let wi = digits_of(ip);
        let wf = frac_digits(fp, k);
        lemma_pow10_ge_one((18 - k) as nat);
        lemma_pow10_add((18 - k) as nat, k);
        assert(pow10((18 - k) as nat) * pow10(k) == pow10(k) * pow10((18 - k) as nat))
            by (nonlinear_arith);
        lemma_div_bound(n, pow10(k), pow10((18 - k) as nat));
        lemma_digits_of(ip);
        lemma_digits_of_len(ip, (18 - k) as nat);
        vstd::arithmetic::div_mod::lemma_mod_pos_bound(n, pow10(k));
        lemma_frac_digits(fp, k);
        assert(num_text(r) =~= wi + (seq!['.'] + wf));
        lemma_embed_split(s, i, wi, seq!['.'] + wf);
        lemma_embed_split(s, i + wi.len(), seq!['.'], wf);
        let j1 = i + wi.len() as int;
        let j2 = j1 + 1 + k as int;
        assert forall|j: int| i <= j < j1 implies is_digit(#[trigger] s[j]) by {
            lemma_embed_at(s, i, wi, j - i);
        }
        lemma_embed_at(s, i + wi.len(), seq!['.'], 0);
        assert(s[j1] == '.');
        assert(!is_digit('.'));
        lemma_digits_end_is(s, i, j1);
        assert forall|j: int| j1 + 1 <= j < j2 implies is_digit(#[trigger] s[j]) by {
            lemma_embed_at(s, j1 + 1, wf, j - (j1 + 1));
        }
        lemma_digits_end_is(s, j1 + 1, j2);
        lemma_embed_at(s, i, wi, 0);
        lemma_embed_at(s, j1 + 1, wf, 0);
        lemma_digits_val_embed(s, i, wi);
        lemma_digits_val_embed(s, j1 + 1, wf);
        lemma_fundamental_div_mod(n, pow10(k));
        assert(digits_val(s, i, j1) * pow10(k) + digits_val(s, j1 + 1, j2) == n)
            by (nonlinear_arith)
            requires
                digits_val(s, i, j1) == ip,
                digits_val(s, j1 + 1, j2) == fp,
                n == pow10(k) * ip + fp,
        ;
        assert((j1 - i) + (j2 - (j1 + 1)) <= 18);
        assert(head(s, i) == Scan::Emit(
            TokenM::Number(
                Rat {
                    num: (digits_val(s, i, j1) * pow10(k) + digits_val(s, j1 + 1, j2)) as i64,
                    den: pow10(k) as i64,
                },
            ),
            j2,
        ));
        assert(Rat {
            num: (digits_val(s, i, j1) * pow10(k) + digits_val(s, j1 + 1, j2)) as i64,
            den: pow10(k) as i64,
        } == r);
    }
}

/// Whatever well-formed token stands rendered at `i`, the lexer reads it
/// and only it.
#[verifier::spinoff_prover]
#[verifier::rlimit(100)]
proof fn lemma_head_token(s: Seq<char>, i: int, tm: TokenM)
    requires
        token_wf(tm),
        embedded(s, i, token_text(tm)),
        i + token_text(tm).len() == s.len() || s[i + token_text(tm).len()] == ' ',
    ensures
        token_text(tm).len() >= 1,
        head(s, i) == Scan::Emit(tm, i + token_text(tm).len()),
{
    lemma_keyword_facts();
    match tm {
        TokenM::Number(r) => {
            lemma_num_token(s, i, r);
            let k = pow_width(r.den as int);
            if k == 0 {
                lemma_digits_of(r.num as int);
            } else {
                lemma_pow10_ge_one(k);
                vstd::arithmetic::div_mod::lemma_div_pos_is_pos(r.num as int, pow10(k));
                lemma_digits_of(r.num as int / pow10(k));
            }
        },
        TokenM::Variable(name) => {
            lemma_var_token(s, i, name);
        },
        TokenM::Function(name) => {
            lemma_word_token(s, i, name, tm);
        },
        TokenM::Mul => {
            lemma_embed_at(s, i, token_text(tm), 0);
        },
        TokenM::Add => {
            lemma_embed_at(s, i, token_text(tm), 0);
        },
        TokenM::Sub => {
            lemma_embed_at(s, i, token_text(tm), 0);
        },
        TokenM::Div => {
            lemma_embed_at(s, i, token_text(tm), 0);
        },
        TokenM::Lt => {
            lemma_embed_at(s, i, token_text(tm), 0);
        },
        TokenM::Eq => {
            lemma_embed_at(s, i, token_text(tm), 0);
        },
        TokenM::LParen => {
            lemma_embed_at(s, i, token_text(tm), 0);
        },
        TokenM::RParen => {
            lemma_embed_at(s, i, token_text(tm), 0);
        },
        TokenM::LBracket => {
            lemma_embed_at(s, i, token_text(tm), 0);
        },
        TokenM::RBracket => {
            lemma_embed_at(s, i, token_text(tm), 0);
        },
        _ => {
            lemma_word_token(s, i, token_text(tm), tm);
        },
    }
}

/// The lexer splits a rendered token sequence back into exactly those
/// tokens.
proof fn lemma_lex_render(s: Seq<char>, i: int, ts: Seq<TokenM>, leading_space: bool)
    requires
        forall|j: int| 0 <= j < ts.len() ==> token_wf(#[trigger] ts[j]),
        0 <= i,
        !leading_space ==> s.len() == i + render_text(ts).len() && embedded(s, i, render_text(ts)),
        leading_space ==> s.len() == i + rest_text(ts).len() && embedded(s, i, rest_text(ts)),
    ensures
        lex_from(s, i) == Some(ts),
    decreases ts.len(), (if leading_space { 1int } else { 0int }),
{
    if ts.len() == 0 {
        assert(lex_from(s, i) == Some(Seq::<TokenM>::empty()));
        assert(ts =~= Seq::<TokenM>::empty());
    } else if leading_space {
        assert(rest_text(ts) =~= seq![' '] + render_text(ts)) by {
            assert(render_text(ts) == token_text(ts[0]) + rest_text(
                ts.subrange(1, ts.len() as int),
            ));
        }
        lemma_embed_split(s, i, seq![' '], render_text(ts));
        lemma_embed_at(s, i, seq![' '], 0);
        assert(s[i] == ' ');
        assert(head(s, i) == Scan::Skip(i + 1));
        lemma_lex_render(s, i + 1, ts, false);
    } else {
        let t0 = ts[0];
        let rest = ts.subrange(1, ts.len() as int);
        let w0 = token_text(t0);
        assert(render_text(ts) == w0 + rest_text(rest));
        lemma_embed_split(s, i, w0, rest_text(rest));
        if rest.len() == 0 {
            assert(rest_text(rest).len() == 0);
        } else {
            assert(rest_text(rest) =~= seq![' '] + (token_text(rest[0]) + rest_text(
                rest.subrange(1, rest.len() as int),
            )));
            lemma_embed_at(s, i + w0.len(), rest_text(rest), 0);
        }
        lemma_head_token(s, i, t0);
        lemma_lex_render(s, i + w0.len(), rest, true);
        assert(lex_from(s, i) == Some(seq![t0] + rest));
        assert(seq![t0] + rest =~= ts);
    }
}

/// The lexer inverts the renderer: splitting the rendered text of any
/// sequence of well-formed tokens gives those tokens back.  Chained with
/// the parser's round trip this closes the textual law
/// `parse(tokens(unparse(parse(tokens(P))))) == parse(tokens(P))`.
pub proof fn lemma_lex_render_text(ts: Seq<TokenM>)
    requires
        forall|j: int| 0 <= j < ts.len() ==> token_wf(#[trigger] ts[j]),
    ensures
        lex(render_text(ts)) == Some(ts),
{
    let s = render_text(ts);
    assert(embedded(s, 0, s)) by {
        assert(forall|k: int| 0 <= k < s.len() ==> s[0 + k] == #[trigger] s[k]);
    }
    lemma_lex_render(s, 0, ts, false);
}

// ---------------------------------------------------------------------------
// The full textual round trip
// ---------------------------------------------------------------------------

pub open spec fn tokens_wf(ts: Seq<TokenM>) -> bool {
    forall|j: int| 0 <= j < ts.len() ==> token_wf(#[trigger] ts[j])
}

proof fn lemma_tokens_wf_concat(a: Seq<TokenM>, b: Seq<TokenM>)
    requires
        tokens_wf(a),
        tokens_wf(b),
    ensures
        tokens_wf(a + b),
{
    assert forall|j: int| 0 <= j < (a + b).len() implies token_wf(#[trigger] (a + b)[j]) by {
        if j < a.len() {
            assert((a + b)[j] == a[j]);
        } else {
            assert((a + b)[j] == b[j - a.len()]);
        }
    }
}

/// A procedure or variable name the lexer could have made.
pub open spec fn name_wf(s: Seq<char>) -> bool {
    s.len() >= 1 && (forall|j: int| 0 <= j < s.len() ==> is_lower(#[trigger] s[j])) && classify(s)
        == TokenM::Function(s)
}

pub open spec fn var_wf(s: Seq<char>) -> bool {
    s.len() >= 2 && s[0] == ':' && (forall|j: int| 1 <= j < s.len() ==> is_lower(#[trigger] s[j]))
}

/// An expression whose leaves would all survive the lexer: names proper,
/// numeric literals within the representable spellings.  Every parsed
/// expression is of this shape.
pub open spec fn expr_text_wf(m: ExprM) -> bool
    decreases m,
{
    match m {
        ExprM::Variable(s) => var_wf(s),
        ExprM::Number(r) => num_wf(r),
        ExprM::Color(_) => true,
        ExprM::Minus(a) => expr_text_wf(*a),
        ExprM::Mul(a, b) => expr_text_wf(*a) && expr_text_wf(*b),
        ExprM::Add(a, b) => expr_text_wf(*a) && expr_text_wf(*b),
        ExprM::Div(a, b) => expr_text_wf(*a) && expr_text_wf(*b),
        ExprM::Sub(a, b) => expr_text_wf(*a) && expr_text_wf(*b),
        ExprM::Lt(a, b) => expr_text_wf(*a) && expr_text_wf(*b),
        ExprM::Eq(a, b) => expr_text_wf(*a) && expr_text_wf(*b),
        ExprM::Rand(a) => expr_text_wf(*a),
        ExprM::Pick(es) => exprs_text_wf(es),
    }
}

pub open spec fn exprs_text_wf(s: Seq<ExprM>) -> bool
    decreases s,
{
    s.len() == 0 || (expr_text_wf(s[0]) && exprs_text_wf(s.subrange(1, s.len() as int)))
}

pub open spec fn params_text_wf(ps: Seq<Seq<char>>) -> bool {
    forall|j: int| 0 <= j < ps.len() ==> var_wf(#[trigger] ps[j])
}

pub open spec fn cmd_text_wf(m: CommandM) -> bool
    decreases m,
{
    match m {
        CommandM::Forward(e) => expr_text_wf(e),
        CommandM::Backward(e) => expr_text_wf(e),
        CommandM::Right(e) => expr_text_wf(e),
        CommandM::Left(e) => expr_text_wf(e),
        CommandM::Show(e) => expr_text_wf(e),
        CommandM::Setcolor(e) => expr_text_wf(e),
        CommandM::Repeat(e, b) => expr_text_wf(e) && cmds_text_wf(b),
        CommandM::If(e, b) => expr_text_wf(e) && cmds_text_wf(b),
        CommandM::IfElse(e, t, el) => expr_text_wf(e) && cmds_text_wf(t) && cmds_text_wf(el),
        CommandM::FunctionDeclaration(name, ps, b) => name_wf(name) && params_text_wf(ps)
            && cmds_text_wf(b),
        CommandM::FunctionCall(name, args) => name_wf(name) && exprs_text_wf(args),
        _ => true,
    }
}

pub open spec fn cmds_text_wf(s: Seq<CommandM>) -> bool
    decreases s,
{
    s.len() == 0 || (cmd_text_wf(s[0]) && cmds_text_wf(s.subrange(1, s.len() as int)))
}

proof fn lemma_unparse_expr_wf(m: ExprM)
    requires
        expr_text_wf(m),
    ensures
        tokens_wf(unparse_expr(m)),
    decreases m, 1int,
{
    match m {
        ExprM::Variable(s) => {},
        ExprM::Number(r) => {},
        ExprM::Color(s) => {},
        ExprM::Minus(a) => {
            lemma_unparse_expr_wf(*a);
            lemma_tokens_wf_concat(seq![TokenM::LParen, TokenM::Sub], unparse_expr(*a));
            lemma_tokens_wf_concat(
                seq![TokenM::LParen, TokenM::Sub] + unparse_expr(*a),
                seq![TokenM::RParen],
            );
        },
        ExprM::Rand(a) => {
            lemma_unparse_expr_wf(*a);
            lemma_tokens_wf_concat(seq![TokenM::LParen, TokenM::Random], unparse_expr(*a));
            lemma_tokens_wf_concat(
                seq![TokenM::LParen, TokenM::Random] + unparse_expr(*a),
                seq![TokenM::RParen],
            );
        },
        ExprM::Mul(a, b) => {
            lemma_unparse_binary_wf(m, *a, *b, TokenM::Mul);
        },
        ExprM::Add(a, b) => {
            lemma_unparse_binary_wf(m, *a, *b, TokenM::Add);
        },
        ExprM::Div(a, b) => {
            lemma_unparse_binary_wf(m, *a, *b, TokenM::Div);
        },
        ExprM::Sub(a, b) => {
            lemma_unparse_binary_wf(m, *a, *b, TokenM::Sub);
        },
        ExprM::Lt(a, b) => {
            lemma_unparse_binary_wf(m, *a, *b, TokenM::Lt);
        },
        ExprM::Eq(a, b) => {
            lemma_unparse_binary_wf(m, *a, *b, TokenM::Eq);
        },
        ExprM::Pick(es) => {
            lemma_unparse_exprs_wf(es);
            lemma_tokens_wf_concat(
                seq![TokenM::LParen, TokenM::Pick, TokenM::LBracket],
                unparse_exprs(es),
            );
            lemma_tokens_wf_concat(
                seq![TokenM::LParen, TokenM::Pick, TokenM::LBracket] + unparse_exprs(es),
                seq![TokenM::RBracket, TokenM::RParen],
            );
        },
    }
}

proof fn lemma_unparse_binary_wf(m: ExprM, a: ExprM, b: ExprM, op: TokenM)
    requires
        expr_text_wf(a),
        expr_text_wf(b),
        token_wf(op),
        (m matches ExprM::Mul(x, y) && a == *x && b == *y) || (m matches ExprM::Add(x, y) && a
            == *x && b == *y) || (m matches ExprM::Div(x, y) && a == *x && b == *y) || (
        m matches ExprM::Sub(x, y) && a == *x && b == *y) || (m matches ExprM::Lt(x, y) && a == *x
            && b == *y) || (m matches ExprM::Eq(x, y) && a == *x && b == *y),
    ensures
        tokens_wf(
            seq![TokenM::LParen] + unparse_expr(a) + seq![op] + unparse_expr(b) + seq![
                TokenM::RParen,
            ],
        ),
    decreases m, 0int,
{
    lemma_unparse_expr_wf(a);
    lemma_unparse_expr_wf(b);
    lemma_tokens_wf_concat(seq![TokenM::LParen], unparse_expr(a));
    lemma_tokens_wf_concat(seq![TokenM::LParen] + unparse_expr(a), seq![op]);
    lemma_tokens_wf_concat(seq![TokenM::LParen] + unparse_expr(a) + seq![op], unparse_expr(b));
    lemma_tokens_wf_concat(
        seq![TokenM::LParen] + unparse_expr(a) + seq![op] + unparse_expr(b),
        seq![TokenM::RParen],
    );
}

proof fn lemma_unparse_exprs_wf(s: Seq<ExprM>)
    requires
        exprs_text_wf(s),
    ensures
        tokens_wf(unparse_exprs(s)),
    decreases s, 2int,
{
    if s.len() > 0 {
        lemma_unparse_expr_wf(s[0]);
        lemma_unparse_exprs_wf(s.subrange(1, s.len() as int));
        lemma_tokens_wf_concat(
            unparse_expr(s[0]),
            unparse_exprs(s.subrange(1, s.len() as int)),
        );
    }
}

proof fn lemma_unparse_params_wf(ps: Seq<Seq<char>>)
    requires
        params_text_wf(ps),
    ensures
        tokens_wf(unparse_params(ps)),
    decreases ps.len(),
{
    if ps.len() > 0 {
        assert(params_text_wf(ps.subrange(1, ps.len() as int))) by {
            assert(forall|j: int|
                0 <= j < ps.len() - 1 ==> #[trigger] ps.subrange(1, ps.len() as int)[j] == ps[j
                    + 1]);
        }
        lemma_unparse_params_wf(ps.subrange(1, ps.len() as int));
        lemma_tokens_wf_concat(
            seq![TokenM::Variable(ps[0])],
            unparse_params(ps.subrange(1, ps.len() as int)),
        );
    }
}

proof fn lemma_unparse_cmd_wf(m: CommandM)
    requires
        cmd_text_wf(m),
    ensures
        tokens_wf(unparse_cmd(m)),
    decreases m, 1int,
{
    match m {
        CommandM::Forward(e) => {
            lemma_unparse_expr_wf(e);
            lemma_tokens_wf_concat(seq![TokenM::Forward], unparse_expr(e));
        },
        CommandM::Backward(e) => {
            lemma_unparse_expr_wf(e);
            lemma_tokens_wf_concat(seq![TokenM::Backward], unparse_expr(e));
        },
        CommandM::Right(e) => {
            lemma_unparse_expr_wf(e);
            lemma_tokens_wf_concat(seq![TokenM::Right], unparse_expr(e));
        },
        CommandM::Left(e) => {
            lemma_unparse_expr_wf(e);
            lemma_tokens_wf_concat(seq![TokenM::Left], unparse_expr(e));
        },
        CommandM::Show(e) => {
            lemma_unparse_expr_wf(e);
            lemma_tokens_wf_concat(seq![TokenM::Show], unparse_expr(e));
        },
        CommandM::Setcolor(e) => {
            lemma_unparse_expr_wf(e);
            lemma_tokens_wf_concat(seq![TokenM::Setcolor], unparse_expr(e));
        },
        CommandM::Repeat(e, b) => {
            lemma_unparse_expr_wf(e);
            lemma_unparse_cmds_wf(b);
            lemma_tokens_wf_concat(seq![TokenM::Repeat], unparse_expr(e));
            lemma_tokens_wf_concat(
                seq![TokenM::Repeat] + unparse_expr(e),
                seq![TokenM::LBracket],
            );
            lemma_tokens_wf_concat(
                seq![TokenM::Repeat] + unparse_expr(e) + seq![TokenM::LBracket],
                unparse_cmds(b),
            );
            lemma_tokens_wf_concat(
                seq![TokenM::Repeat] + unparse_expr(e) + seq![TokenM::LBracket] + unparse_cmds(b),
                seq![TokenM::RBracket],
            );
        },
        CommandM::If(e, b) => {
            lemma_unparse_expr_wf(e);
            lemma_unparse_cmds_wf(b);
            lemma_tokens_wf_concat(seq![TokenM::If], unparse_expr(e));
            lemma_tokens_wf_concat(seq![TokenM::If] + unparse_expr(e), seq![TokenM::LBracket]);
            lemma_tokens_wf_concat(
                seq![TokenM::If] + unparse_expr(e) + seq![TokenM::LBracket],
                unparse_cmds(b),
            );
            lemma_tokens_wf_concat(
                seq![TokenM::If] + unparse_expr(e) + seq![TokenM::LBracket] + unparse_cmds(b),
                seq![TokenM::RBracket],
            );
        },
        CommandM::IfElse(e, t, el) => {
            lemma_unparse_expr_wf(e);
            lemma_unparse_cmds_wf(t);
            lemma_unparse_cmds_wf(el);
            lemma_tokens_wf_concat(seq![TokenM::IfElse], unparse_expr(e));
            lemma_tokens_wf_concat(
                seq![TokenM::IfElse] + unparse_expr(e),
                seq![TokenM::LBracket],
            );
            lemma_tokens_wf_concat(
                seq![TokenM::IfElse] + unparse_expr(e) + seq![TokenM::LBracket],
                unparse_cmds(t),
            );
            lemma_tokens_wf_concat(
                seq![TokenM::IfElse] + unparse_expr(e) + seq![TokenM::LBracket] + unparse_cmds(t),
                seq![TokenM::RBracket, TokenM::LBracket],
            );
            lemma_tokens_wf_concat(
                seq![TokenM::IfElse] + unparse_expr(e) + seq![TokenM::LBracket] + unparse_cmds(t)
                    + seq![TokenM::RBracket, TokenM::LBracket],
                unparse_cmds(el),
            );
            lemma_tokens_wf_concat(
                seq![TokenM::IfElse] + unparse_expr(e) + seq![TokenM::LBracket] + unparse_cmds(t)
                    + seq![TokenM::RBracket, TokenM::LBracket] + unparse_cmds(el),
                seq![TokenM::RBracket],
            );
        },
        CommandM::FunctionDeclaration(name, ps, b) => {
            lemma_unparse_params_wf(ps);
            lemma_unparse_cmds_wf(b);
            assert(token_wf(TokenM::Function(name)));
            lemma_tokens_wf_concat(
                seq![TokenM::To, TokenM::Function(name)],
                unparse_params(ps),
            );
            lemma_tokens_wf_concat(
                seq![TokenM::To, TokenM::Function(name)] + unparse_params(ps),
                unparse_cmds(b),
            );
            lemma_tokens_wf_concat(
                seq![TokenM::To, TokenM::Function(name)] + unparse_params(ps) + unparse_cmds(b),
                seq![TokenM::End],
            );
        },
        CommandM::FunctionCall(name, args) => {
            lemma_unparse_exprs_wf(args);
            assert(token_wf(TokenM::Function(name)));
            lemma_tokens_wf_concat(seq![TokenM::Function(name)], unparse_exprs(args));
        },
        _ => {},
    }
}

proof fn lemma_unparse_cmds_wf(s: Seq<CommandM>)
    requires
        cmds_text_wf(s),
    ensures
        tokens_wf(unparse_cmds(s)),
    decreases s, 2int,
{
    if s.len() > 0 {
        lemma_unparse_cmd_wf(s[0]);
        lemma_unparse_cmds_wf(s.subrange(1, s.len() as int));
        lemma_tokens_wf_concat(unparse_cmd(s[0]), unparse_cmds(s.subrange(1, s.len() as int)));
    }
}

/// The whole textual round trip.  For any canonical command tree whose
/// names and literals are well formed -- which every parsed tree's are --
/// reprinting it as text, splitting that text into tokens and parsing them
/// yields the very same tree: parsing is idempotent through the textual
/// unparser.
pub proof fn lemma_text_roundtrip(cmds: Seq<CommandM>)
    requires
        cmds_canon(cmds),
        cmds_text_wf(cmds),
    ensures
        lex(render_text(unparse_cmds(cmds))) == Some(unparse_cmds(cmds)),
        cmds_s(unparse_cmds(cmds), 0) == Ok::<(Seq<CommandM>, int), ParseErr>(
            (cmds, unparse_cmds(cmds).len() as int),
        ),
{
    lemma_unparse_cmds_wf(cmds);
    lemma_lex_render_text(unparse_cmds(cmds));
    lemma_parse_unparse(cmds);
}

// ---------------------------------------------------------------------------
// Every token the lexer emits is well formed
// ---------------------------------------------------------------------------

proof fn lemma_lower_region(s: Seq<char>, a: int)
    requires
        0 <= a <= s.len(),
    ensures
        a <= lower_end(s, a) <= s.len(),
        forall|k: int| a <= k < lower_end(s, a) ==> is_lower(#[trigger] s[k]),
    decreases s.len() - a,
{
    if a < s.len() && is_lower(s[a]) {
        lemma_lower_region(s, a + 1);
    }
}

proof fn lemma_digit_region(s: Seq<char>, a: int)
    requires
        0 <= a <= s.len(),
    ensures
        a <= digits_end(s, a) <= s.len(),
        forall|k: int| a <= k < digits_end(s, a) ==> is_digit(#[trigger] s[k]),
    decreases s.len() - a,
{
    if a < s.len() && is_digit(s[a]) {
        lemma_digit_region(s, a + 1);
    }
}

/// Whatever token the lexer emits is well formed: its names are proper
/// and its numeric literal fits the representable spellings.
#[verifier::spinoff_prover]
#[verifier::rlimit(100)]
proof fn lemma_head_wf(s: Seq<char>, i: int)
    requires
        0 <= i <= s.len(),
    ensures
        head(s, i) matches Scan::Emit(tm, j) ==> token_wf(tm),
{
    if i < s.len() {
        let c = s[i];
        if c == ':' {
            lemma_lower_region(s, i + 1);
            let j = lower_end(s, i + 1);
            if j > i + 1 {
                let w = s.subrange(i, j);
                assert(w[0] == ':');
                assert(forall|k: int| 1 <= k < w.len() ==> is_lower(#[trigger] w[k]));
            }
        } else if is_digit(c) {
            lemma_digit_region(s, i + 1);
            assert(digits_end(s, i) == digits_end(s, i + 1));
            let j1 = digits_end(s, i);
            assert(forall|k: int| i <= k < j1 ==> is_digit(#[trigger] s[k]));
            lemma_digits_val_bound(s, i, j1);
            lemma_pow10_18();
            if j1 < s.len() && s[j1] == '.' && j1 + 1 < s.len() && is_digit(s[j1 + 1]) {
                lemma_digit_region(s, j1 + 2);
                assert(digits_end(s, j1 + 1) == digits_end(s, j1 + 2));
                let j2 = digits_end(s, j1 + 1);
                let k = (j2 - (j1 + 1)) as nat;
                let ilen = (j1 - i) as nat;
                if ilen + k <= 18 {
                    assert(forall|q: int| j1 + 1 <= q < j2 ==> is_digit(#[trigger] s[q]));
                    lemma_digits_val_bound(s, j1 + 1, j2);
                    let iv = digits_val(s, i, j1);
                    let fv = digits_val(s, j1 + 1, j2);
                    let num = iv * pow10(k) + fv;
                    lemma_pow10_ge_one(k);
                    lemma_pow10_add(ilen, k);
                    lemma_pow10_mono(ilen + k, 18);
                    lemma_pow10_mono(k, 17);
                    assert(num < pow10(ilen) * pow10(k)) by (nonlinear_arith)
                        requires
                            iv < pow10(ilen),
                            fv < pow10(k),
                            pow10(k) >= 1,
                            num == iv * pow10(k) + fv,
                    ;
                    lemma_pow_width(k);
                    assert(pow10(k) <= pow10(17));
                    let tm = TokenM::Number(Rat { num: num as i64, den: pow10(k) as i64 });
                    assert(num_wf(Rat { num: num as i64, den: pow10(k) as i64 }));
                }
            } else {
                if j1 - i <= 18 {
                    lemma_pow10_mono((j1 - i) as nat, 18);
                    assert(pow_width(1) == 0);
                    assert(pow10(0) == 1);
                    assert(num_wf(Rat { num: digits_val(s, i, j1) as i64, den: 1 }));
                }
            }
        } else if is_lower(c) {
            lemma_lower_region(s, i);
            let j = lower_end(s, i);
            assert(lower_end(s, i) == lower_end(s, i + 1));
            lemma_lower_region(s, i + 1);
            let w = s.subrange(i, j);
            assert(w.len() >= 1);
            assert(forall|k: int| 0 <= k < w.len() ==> is_lower(#[trigger] w[k]));
            match classify(w) {
                TokenM::Function(name) => {
                    assert(name == w);
                },
                _ => {},
            }
        }
    }
}

/// Every token sequence the lexer yields is well formed throughout.
pub proof fn lemma_lex_output_wf(s: Seq<char>, i: int)
    requires
        0 <= i <= s.len(),
    ensures
        lex_from(s, i) matches Some(ts) ==> tokens_wf(ts),
    decreases s.len() - i,
{
    lemma_head_advances(s, i);
    lemma_head_wf(s, i);
    match head(s, i) {
        Scan::Skip(j) => {
            lemma_lex_output_wf(s, j);
        },
        Scan::Emit(tm, j) => {
            lemma_lex_output_wf(s, j);
            match lex_from(s, j) {
                Some(rest) => {
                    assert(tokens_wf(seq![tm])) by {
                        assert(seq![tm][0] == tm);
                    }
                    lemma_tokens_wf_concat(seq![tm], rest);
                },
                None => {},
            }
        },
        _ => {},
    }
}

// ---------------------------------------------------------------------------
// The parser keeps names and literals well formed
// ---------------------------------------------------------------------------

proof fn lemma_operand_twf(t: Seq<TokenM>, i: int)
    requires
        tokens_wf(t),
        0 <= i <= t.len(),
    ensures
        operand_s(t, i) matches Ok(r) ==> expr_text_wf(r.0),
    decreases t.len() - i, 1int,
{
    if i < t.len() {
        match t[i] {
            TokenM::LParen => {
                lemma_eq_twf(t, i + 1);
            },
            TokenM::Sub => {
                lemma_operand_twf(t, i + 1);
            },
            TokenM::Random => {
                lemma_operand_twf(t, i + 1);
            },
            TokenM::Pick => {
                lemma_list_twf(t, i + 1);
            },
            _ => {},
        }
    }
}

proof fn lemma_list_twf(t: Seq<TokenM>, i: int)
    requires
        tokens_wf(t),
        0 <= i <= t.len(),
    ensures
        list_s(t, i) matches Ok(r) ==> expr_text_wf(r.0),
    decreases t.len() - i, 10int,
{
    if i < t.len() && t[i] is LBracket {
        lemma_list_elems_twf(t, i + 1);
    }
}

proof fn lemma_list_elems_twf(t: Seq<TokenM>, i: int)
    requires
        tokens_wf(t),
        0 <= i <= t.len(),
    ensures
        list_elems_s(t, i) matches Ok(r) ==> exprs_text_wf(r.0),
    decreases t.len() - i, 9int,
{
    let n = t.len() as int;
    if i < n && !(t[i] is RBracket) {
        lemma_eq_twf(t, i);
        match eq_s(t, i) {
            Ok((e, j)) => {
                lemma_list_elems_twf(t, next_pos(j, i + 1, n));
                match list_elems_s(t, next_pos(j, i + 1, n)) {
                    Ok((rest, j2)) => {
                        assert((seq![e] + rest)[0] == e);
                        assert((seq![e] + rest).subrange(1, (seq![e] + rest).len() as int)
                            =~= rest);
                    },
                    _ => {},
                }
            },
            _ => {},
        }
    }
}

proof fn lemma_mul_twf(t: Seq<TokenM>, i: int)
    requires
        tokens_wf(t),
        0 <= i <= t.len(),
    ensures
        mul_s(t, i) matches Ok(r) ==> expr_text_wf(r.0),
    decreases t.len() - i, 4int,
{
    lemma_operand_twf(t, i);
    match operand_s(t, i) {
        Ok((e, j)) => {
            lemma_mul_more_twf(t, next_pos(j, i, t.len() as int), e);
        },
        _ => {},
    }
}

proof fn lemma_mul_more_twf(t: Seq<TokenM>, i: int, e: ExprM)
    requires
        tokens_wf(t),
        0 <= i <= t.len(),
        expr_text_wf(e),
    ensures
        mul_more_s(t, i, e) matches Ok(r) ==> expr_text_wf(r.0),
    decreases t.len() - i, 3int,
{
    let n = t.len() as int;
    if i < n && (t[i] is Mul || t[i] is Div) {
        lemma_operand_twf(t, i + 1);
        match operand_s(t, i + 1) {
            Ok((e2, j)) => {
                if t[i] is Mul {
                    lemma_mul_more_twf(
                        t,
                        next_pos(j, i + 1, n),
                        ExprM::Mul(Box::new(e), Box::new(e2)),
                    );
                } else {
                    lemma_mul_more_twf(
                        t,
                        next_pos(j, i + 1, n),
                        ExprM::Div(Box::new(e), Box::new(e2)),
                    );
                }
            },
            _ => {},
        }
    }
}

proof fn lemma_add_twf(t: Seq<TokenM>, i: int)
    requires
        tokens_wf(t),
        0 <= i <= t.len(),
    ensures
        add_s(t, i) matches Ok(r) ==> expr_text_wf(r.0),
    decreases t.len() - i, 6int,
{
    lemma_mul_twf(t, i);
    match mul_s(t, i) {
        Ok((e, j)) => {
            lemma_add_more_twf(t, next_pos(j, i, t.len() as int), e);
        },
        _ => {},
    }
}

proof fn lemma_add_more_twf(t: Seq<TokenM>, i: int, e: ExprM)
    requires
        tokens_wf(t),
        0 <= i <= t.len(),
        expr_text_wf(e),
    ensures
        add_more_s(t, i, e) matches Ok(r) ==> expr_text_wf(r.0),
    decreases t.len() - i, 5int,
{
    let n = t.len() as int;
    if i < n && (t[i] is Add || t[i] is Sub) {
        lemma_mul_twf(t, i + 1);
        match mul_s(t, i + 1) {
            Ok((e2, j)) => {
                if t[i] is Add {
                    lemma_add_more_twf(
                        t,
                        next_pos(j, i + 1, n),
                        ExprM::Add(Box::new(e), Box::new(e2)),
                    );
                } else {
                    lemma_add_more_twf(
                        t,
                        next_pos(j, i + 1, n),
                        ExprM::Sub(Box::new(e), Box::new(e2)),
                    );
                }
            },
            _ => {},
        }
    }
}

proof fn lemma_eq_twf(t: Seq<TokenM>, i: int)
    requires
        tokens_wf(t),
        0 <= i <= t.len(),
    ensures
        eq_s(t, i) matches Ok(r) ==> expr_text_wf(r.0),
    decreases t.len() - i, 8int,
{
    lemma_add_twf(t, i);
    match add_s(t, i) {
        Ok((e, j)) => {
            lemma_eq_more_twf(t, next_pos(j, i, t.len() as int), e);
        },
        _ => {},
    }
}

proof fn lemma_eq_more_twf(t: Seq<TokenM>, i: int, e: ExprM)
    requires
        tokens_wf(t),
        0 <= i <= t.len(),
        expr_text_wf(e),
    ensures
        eq_more_s(t, i, e) matches Ok(r) ==> expr_text_wf(r.0),
    decreases t.len() - i, 7int,
{
    let n = t.len() as int;
    if i < n && (t[i] is Lt || t[i] is Eq) {
        lemma_add_twf(t, i + 1);
        match add_s(t, i + 1) {
            Ok((e2, j)) => {
                if t[i] is Lt {
                    lemma_eq_more_twf(
                        t,
                        next_pos(j, i + 1, n),
                        ExprM::Lt(Box::new(e), Box::new(e2)),
                    );
                } else {
                    lemma_eq_more_twf(
                        t,
                        next_pos(j, i + 1, n),
                        ExprM::Eq(Box::new(e), Box::new(e2)),
                    );
                }
            },
            _ => {},
        }
    }
}

proof fn lemma_expr_seq_twf(t: Seq<TokenM>, i: int)
    requires
        tokens_wf(t),
        0 <= i <= t.len(),
    ensures
        expr_seq_s(t, i) matches Ok(r) ==> exprs_text_wf(r.0),
    decreases t.len() - i, 11int,
{
    let n = t.len() as int;
    if i < n && is_expr_start(t[i]) {
        lemma_eq_twf(t, i);
        match eq_s(t, i) {
            Ok((e, j)) => {
                lemma_expr_seq_twf(t, next_pos(j, i + 1, n));
                match expr_seq_s(t, next_pos(j, i + 1, n)) {
                    Ok((rest, j2)) => {
                        assert((seq![e] + rest)[0] == e);
                        assert((seq![e] + rest).subrange(1, (seq![e] + rest).len() as int)
                            =~= rest);
                    },
                    _ => {},
                }
            },
            _ => {},
        }
    }
}

proof fn lemma_args_twf(t: Seq<TokenM>, i: int)
    requires
        tokens_wf(t),
        0 <= i <= t.len(),
    ensures
        params_text_wf(args_s(t, i).0),
    decreases t.len() - i,
{
    if i < t.len() && t[i] is Variable {
        let name = t[i]->Variable_0;
        lemma_args_twf(t, i + 1);
        let rest = args_s(t, i + 1).0;
        assert forall|j: int| 0 <= j < (seq![name] + rest).len() implies var_wf(
            #[trigger] (seq![name] + rest)[j],
        ) by {
            if j == 0 {
                assert((seq![name] + rest)[0] == name);
            } else {
                assert((seq![name] + rest)[j] == rest[j - 1]);
            }
        }
    }
}

#[verifier::spinoff_prover]
#[verifier::rlimit(100)]
proof fn lemma_cmd_twf(t: Seq<TokenM>, i: int)
    requires
        tokens_wf(t),
        0 <= i < t.len(),
    ensures
        cmd_s(t, i) matches Ok(r) ==> cmd_text_wf(r.0),
    decreases t.len() - i, 12int,
{
    let n = t.len() as int;
    match t[i] {
        TokenM::Forward => {
            lemma_eq_twf(t, i + 1);
        },
        TokenM::Backward => {
            lemma_eq_twf(t, i + 1);
        },
        TokenM::Right => {
            lemma_eq_twf(t, i + 1);
        },
        TokenM::Left => {
            lemma_eq_twf(t, i + 1);
        },
        TokenM::Show => {
            lemma_eq_twf(t, i + 1);
        },
        TokenM::Setcolor => {
            lemma_eq_twf(t, i + 1);
        },
        TokenM::Repeat => {
            lemma_eq_twf(t, i + 1);
            match eq_s(t, i + 1) {
                Ok((e, j)) => {
                    lemma_bb_twf(t, next_pos(j, i + 1, n));
                },
                _ => {},
            }
        },
        TokenM::If => {
            lemma_eq_twf(t, i + 1);
            match eq_s(t, i + 1) {
                Ok((e, j)) => {
                    lemma_bb_twf(t, next_pos(j, i + 1, n));
                },
                _ => {},
            }
        },
        TokenM::IfElse => {
            lemma_eq_twf(t, i + 1);
            match eq_s(t, i + 1) {
                Ok((e, j)) => {
                    lemma_bb_twf(t, next_pos(j, i + 1, n));
                    match block_brackets_s(t, next_pos(j, i + 1, n)) {
                        Ok((tb, j2)) => {
                            lemma_bb_twf(t, next_pos(j2, i + 1, n));
                        },
                        _ => {},
                    }
                },
                _ => {},
            }
        },
        TokenM::To => {
            if i + 1 < n && t[i + 1] is Function {
                lemma_args_twf(t, i + 2);
                let pj = args_s(t, i + 2).1;
                lemma_be_twf(t, next_pos(pj, i + 2, n));
            }
        },
        TokenM::Function(name) => {
            lemma_expr_seq_twf(t, i + 1);
        },
        _ => {},
    }
}

proof fn lemma_cmds_twf(t: Seq<TokenM>, i: int)
    requires
        tokens_wf(t),
        0 <= i <= t.len(),
    ensures
        cmds_s(t, i) matches Ok(r) ==> cmds_text_wf(r.0),
    decreases t.len() - i, 13int,
{
    let n = t.len() as int;
    if i < n {
        match t[i] {
            TokenM::RBracket => {},
            TokenM::End => {},
            TokenM::Wait => {
                lemma_cmds_twf(t, i + 1);
            },
            TokenM::SetTurtle => {
                lemma_cmds_twf(t, i + 1);
            },
            _ => {
                lemma_cmd_twf(t, i);
                match cmd_s(t, i) {
                    Ok((c, j)) => {
                        lemma_cmds_twf(t, next_pos(j, i + 1, n));
                        match cmds_s(t, next_pos(j, i + 1, n)) {
                            Ok((rest, j2)) => {
                                assert((seq![c] + rest)[0] == c);
                                assert((seq![c] + rest).subrange(
                                    1,
                                    (seq![c] + rest).len() as int,
                                ) =~= rest);
                            },
                            _ => {},
                        }
                    },
                    _ => {},
                }
            },
        }
    }
}

proof fn lemma_bb_twf(t: Seq<TokenM>, i: int)
    requires
        tokens_wf(t),
        0 <= i <= t.len(),
    ensures
        block_brackets_s(t, i) matches Ok(r) ==> cmds_text_wf(r.0),
    decreases t.len() - i, 14int,
{
    if i < t.len() && t[i] is LBracket {
        lemma_cmds_twf(t, i + 1);
    }
}

proof fn lemma_be_twf(t: Seq<TokenM>, i: int)
    requires
        tokens_wf(t),
        0 <= i <= t.len(),
    ensures
        block_end_s(t, i) matches Ok(r) ==> cmds_text_wf(r.0),
    decreases t.len() - i, 14int,
{
    lemma_cmds_twf(t, i);
}

/// The law of the whole pipeline: for every program text that splits into
/// tokens and parses, unparsing the parsed tree, splitting the rendered
/// text and parsing again gives the very same tree.  In short:
/// `parse(tokens(unparse(parse(tokens(P))))) == parse(tokens(P))`.
pub proof fn lemma_pipeline_roundtrip(text: Seq<char>, ts: Seq<TokenM>, cmds: Seq<CommandM>, j: int)
    requires
        lex(text) == Some(ts),
        cmds_s(ts, 0) == Ok::<(Seq<CommandM>, int), ParseErr>((cmds, j)),
    ensures
        lex(render_text(unparse_cmds(cmds))) == Some(unparse_cmds(cmds)),
        cmds_s(unparse_cmds(cmds), 0) == Ok::<(Seq<CommandM>, int), ParseErr>(
            (cmds, unparse_cmds(cmds).len() as int),
        ),
{
    lemma_lex_output_wf(text, 0);
    lemma_cmds_twf(ts, 0);
    crate::unparse::lemma_parse_output_canon(ts);
    lemma_text_roundtrip(cmds);
}

} // verus!
