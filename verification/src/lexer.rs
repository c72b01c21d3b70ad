use vstd::prelude::*;
use std::collections::VecDeque;
use crate::rat::Rat;

verus! {

/// A lexical token of the surface language.
///
/// Keywords and their aliases (`fd`/`forward`, `bk`/`back`/`backward`, ...)
/// map to one token each.  A numeric literal is stored as the exact rational
/// it denotes; a variable reference keeps its `:` sigil as part of the
/// payload; a bare lowercase word that is no keyword is a procedure name.
#[derive(Debug, PartialEq)]
pub enum Token {
    Mul,
    Add,
    Sub,
    Div,
    Lt,
    Eq,
    LParen,
    RParen,
    LBracket,
    RBracket,
    Repeat,
    Stop,
    If,
    IfElse,
    To,
    End,
    Show,
    Wait,
    Pick,
    Random,
    Red,
    Orange,
    Yellow,
    Green,
    Blue,
    Violet,
    Black,
    Clearscreen,
    Setcolor,
    Forward,
    Backward,
    Left,
    Right,
    PenUp,
    PenDown,
    ShowTurtle,
    HideTurtle,
    SetTurtle,
    Number(Rat),
    Variable(String),
    Function(String),
}

/// The mathematical shape of a token: names are plain character sequences.
/// The specification lexer below produces these.
pub ghost enum TokenM {
    Mul,
    Add,
    Sub,
    Div,
    Lt,
    Eq,
    LParen,
    RParen,
    LBracket,
    RBracket,
    Repeat,
    Stop,
    If,
    IfElse,
    To,
    End,
    Show,
    Wait,
    Pick,
    Random,
    Red,
    Orange,
    Yellow,
    Green,
    Blue,
    Violet,
    Black,
    Clearscreen,
    Setcolor,
    Forward,
    Backward,
    Left,
    Right,
    PenUp,
    PenDown,
    ShowTurtle,
    HideTurtle,
    SetTurtle,
    Number(Rat),
    Variable(Seq<char>),
    Function(Seq<char>),
}

impl DeepView for Token {
    type V = TokenM;

    open spec fn deep_view(&self) -> TokenM {
        match self {
            Token::Mul => TokenM::Mul,
            Token::Add => TokenM::Add,
            Token::Sub => TokenM::Sub,
            Token::Div => TokenM::Div,
            Token::Lt => TokenM::Lt,
            Token::Eq => TokenM::Eq,
            Token::LParen => TokenM::LParen,
            Token::RParen => TokenM::RParen,
            Token::LBracket => TokenM::LBracket,
            Token::RBracket => TokenM::RBracket,
            Token::Repeat => TokenM::Repeat,
            Token::Stop => TokenM::Stop,
            Token::If => TokenM::If,
            Token::IfElse => TokenM::IfElse,
            Token::To => TokenM::To,
            Token::End => TokenM::End,
            Token::Show => TokenM::Show,
            Token::Wait => TokenM::Wait,
            Token::Pick => TokenM::Pick,
            Token::Random => TokenM::Random,
            Token::Red => TokenM::Red,
            Token::Orange => TokenM::Orange,
            Token::Yellow => TokenM::Yellow,
            Token::Green => TokenM::Green,
            Token::Blue => TokenM::Blue,
            Token::Violet => TokenM::Violet,
            Token::Black => TokenM::Black,
            Token::Clearscreen => TokenM::Clearscreen,
            Token::Setcolor => TokenM::Setcolor,
            Token::Forward => TokenM::Forward,
            Token::Backward => TokenM::Backward,
            Token::Left => TokenM::Left,
            Token::Right => TokenM::Right,
            Token::PenUp => TokenM::PenUp,
            Token::PenDown => TokenM::PenDown,
            Token::ShowTurtle => TokenM::ShowTurtle,
            Token::HideTurtle => TokenM::HideTurtle,
            Token::SetTurtle => TokenM::SetTurtle,
            Token::Number(r) => TokenM::Number(*r),
            Token::Variable(s) => TokenM::Variable(s@),
            Token::Function(s) => TokenM::Function(s@),
        }
    }
}

/// The model of a token sequence, element by element.
pub open spec fn tokens_model(s: Seq<Token>) -> Seq<TokenM> {
    Seq::new(s.len(), |k: int| s[k].deep_view())
}

// ---------------------------------------------------------------------------
// Character classes
// ---------------------------------------------------------------------------

/// Whitespace separates tokens: space, tab, newline, formfeed.
pub open spec fn is_ws(c: char) -> bool {
    c == ' ' || c == '\t' || c == '\n' || c == '\u{c}'
}

pub open spec fn is_digit(c: char) -> bool {
    48 <= c as u32 <= 57
}

pub open spec fn is_lower(c: char) -> bool {
    97 <= c as u32 <= 122
}

pub open spec fn digit_val(c: char) -> int {
    c as u32 - 48
}

// ---------------------------------------------------------------------------
// Specification lexer
// ---------------------------------------------------------------------------

/// First position at or after `i` that does not hold a digit.
pub open spec fn digits_end(s: Seq<char>, i: int) -> int
    decreases s.len() - i,
{
    if 0 <= i < s.len() && is_digit(s[i]) {
        digits_end(s, i + 1)
    } else {
        i
    }
}

/// First position at or after `i` that does not hold a lowercase letter.
pub open spec fn lower_end(s: Seq<char>, i: int) -> int
    decreases s.len() - i,
{
    if 0 <= i < s.len() && is_lower(s[i]) {
        lower_end(s, i + 1)
    } else {
        i
    }
}

/// The value of the digit run `s[i..j)`, most significant digit first.
pub open spec fn digits_val(s: Seq<char>, i: int, j: int) -> int
    decreases j - i,
{
    if i < j {
        digits_val(s, i, j - 1) * 10 + digit_val(s[j - 1])
    } else {
        0
    }
}

pub open spec fn pow10(k: nat) -> int
    decreases k,
{
    if k == 0 {
        1
    } else {
        10 * pow10((k - 1) as nat)
    }
}

/// A numeric literal may carry at most this many digits in all; it keeps
/// every representable value within the machine words of `Rat`.
pub open spec fn max_literal_digits() -> int {
    18
}

/// Keyword table for a lowercase word; anything else is a procedure name.
pub open spec fn classify(w: Seq<char>) -> TokenM {
    if w == "repeat"@ {
        TokenM::Repeat
    } else if w == "stop"@ {
        TokenM::Stop
    } else if w == "if"@ {
        TokenM::If
    } else if w == "ifelse"@ {
        TokenM::IfElse
    } else if w == "to"@ {
        TokenM::To
    } else if w == "end"@ {
        TokenM::End
    } else if w == "show"@ {
        TokenM::Show
    } else if w == "wait"@ {
        TokenM::Wait
    } else if w == "pick"@ {
        TokenM::Pick
    } else if w == "random"@ {
        TokenM::Random
    } else if w == "red"@ {
        TokenM::Red
    } else if w == "orange"@ {
        TokenM::Orange
    } else if w == "yellow"@ {
        TokenM::Yellow
    } else if w == "green"@ {
        TokenM::Green
    } else if w == "blue"@ {
        TokenM::Blue
    } else if w == "violet"@ {
        TokenM::Violet
    } else if w == "black"@ {
        TokenM::Black
    } else if w == "clearscreen"@ {
        TokenM::Clearscreen
    } else if w == "setcolor"@ {
        TokenM::Setcolor
    } else if w == "fd"@ || w == "forward"@ {
        TokenM::Forward
    } else if w == "bk"@ || w == "back"@ || w == "backward"@ {
        TokenM::Backward
    } else if w == "lt"@ || w == "left"@ {
        TokenM::Left
    } else if w == "rt"@ || w == "right"@ {
        TokenM::Right
    } else if w == "pu"@ || w == "penup"@ {
        TokenM::PenUp
    } else if w == "pd"@ || w == "pendown"@ {
        TokenM::PenDown
    } else if w == "st"@ || w == "showturtle"@ {
        TokenM::ShowTurtle
    } else if w == "ht"@ || w == "hideturtle"@ {
        TokenM::HideTurtle
    } else if w == "setturtle"@ {
        TokenM::SetTurtle
    } else {
        TokenM::Function(w)
    }
}

/// One step of the specification lexer at position `i`.
pub ghost enum Scan {
    /// A token, and the position just past it.
    Emit(TokenM, int),
    /// Whitespace; continue at the given position.
    Skip(int),
    /// A character no token can begin with, or an oversized literal.
    Fail,
    /// End of input.
    Done,
}

/// The token beginning at position `i` of `s`, by longest match.
pub open spec fn head(s: Seq<char>, i: int) -> Scan {
    if i >= s.len() {
        Scan::Done
    } else {
        let c = s[i];
        if is_ws(c) {
            Scan::Skip(i + 1)
        } else if c == '+' {
            Scan::Emit(TokenM::Add, i + 1)
        } else if c == '-' {
            Scan::Emit(TokenM::Sub, i + 1)
        } else if c == '*' {
            Scan::Emit(TokenM::Mul, i + 1)
        } else if c == '/' {
            Scan::Emit(TokenM::Div, i + 1)
        } else if c == '<' {
            Scan::Emit(TokenM::Lt, i + 1)
        } else if c == '=' {
            Scan::Emit(TokenM::Eq, i + 1)
        } else if c == '(' {
            Scan::Emit(TokenM::LParen, i + 1)
        } else if c == ')' {
            Scan::Emit(TokenM::RParen, i + 1)
        } else if c == '[' {
            Scan::Emit(TokenM::LBracket, i + 1)
        } else if c == ']' {
            Scan::Emit(TokenM::RBracket, i + 1)
        } else if c == ':' {
            let j = lower_end(s, i + 1);
            if j > i + 1 {
                Scan::Emit(TokenM::Variable(s.subrange(i, j)), j)
            } else {
                Scan::Fail
            }
        } else if is_digit(c) {
            let j1 = digits_end(s, i);
            if j1 < s.len() && s[j1] == '.' && j1 + 1 < s.len() && is_digit(s[j1 + 1]) {
                let j2 = digits_end(s, j1 + 1);
                let k = j2 - (j1 + 1);
                if (j1 - i) + k <= max_literal_digits() {
                    let num = digits_val(s, i, j1) * pow10(k as nat) + digits_val(s, j1 + 1, j2);
                    Scan::Emit(
                        TokenM::Number(Rat { num: num as i64, den: pow10(k as nat) as i64 }),
                        j2,
                    )
                } else {
                    Scan::Fail
                }
            } else {
                if j1 - i <= max_literal_digits() {
                    Scan::Emit(
                        TokenM::Number(Rat { num: digits_val(s, i, j1) as i64, den: 1 }),
                        j1,
                    )
                } else {
                    Scan::Fail
                }
            }
        } else if is_lower(c) {
            let j = lower_end(s, i);
            Scan::Emit(classify(s.subrange(i, j)), j)
        } else if c == 'T' && i + 1 < s.len() && s[i + 1] == 'O' {
            Scan::Emit(TokenM::To, i + 2)
        } else if c == 'E' && i + 2 < s.len() && s[i + 1] == 'N' && s[i + 2] == 'D' {
            Scan::Emit(TokenM::End, i + 3)
        } else {
            Scan::Fail
        }
    }
}

proof fn lemma_digits_end_bounds(s: Seq<char>, i: int)
    requires
        0 <= i <= s.len(),
    ensures
        i <= digits_end(s, i) <= s.len(),
    decreases s.len() - i,
{
    if i < s.len() && is_digit(s[i]) {
        lemma_digits_end_bounds(s, i + 1);
    }
}

proof fn lemma_lower_end_bounds(s: Seq<char>, i: int)
    requires
        0 <= i <= s.len(),
    ensures
        i <= lower_end(s, i) <= s.len(),
    decreases s.len() - i,
{
    if i < s.len() && is_lower(s[i]) {
        lemma_lower_end_bounds(s, i + 1);
    }
}

/// Every emitted or skipped token moves the cursor strictly forward and
/// stays within the input.
pub(crate) proof fn lemma_head_advances(s: Seq<char>, i: int)
    requires
        0 <= i <= s.len(),
    ensures
        head(s, i) matches Scan::Emit(_, j) ==> i < j <= s.len(),
        head(s, i) matches Scan::Skip(j) ==> i < j <= s.len(),
{
    if i < s.len() {
        let c = s[i];
        if c == ':' {
            lemma_lower_end_bounds(s, i + 1);
        } else if is_digit(c) {
            lemma_digits_end_bounds(s, i + 1);
            assert(digits_end(s, i) == digits_end(s, i + 1));
            let j1 = digits_end(s, i);
            if j1 < s.len() && s[j1] == '.' && j1 + 1 < s.len() && is_digit(s[j1 + 1]) {
                lemma_digits_end_bounds(s, j1 + 2);
                assert(digits_end(s, j1 + 1) == digits_end(s, j1 + 2));
            }
        } else if is_lower(c) {
            lemma_lower_end_bounds(s, i + 1);
            assert(lower_end(s, i) == lower_end(s, i + 1));
        }
    }
}

/// The specification lexer: the token sequence of `s[i..]`, or `None` on a
/// lexical error.
pub open spec fn lex_from(s: Seq<char>, i: int) -> Option<Seq<TokenM>>
    recommends
        0 <= i <= s.len(),
    decreases s.len() - i,
        when 0 <= i <= s.len()
    via lex_from_decreases
{
    match head(s, i) {
        Scan::Done => Some(Seq::empty()),
        Scan::Skip(j) => lex_from(s, j),
        Scan::Emit(t, j) => match lex_from(s, j) {
            Some(rest) => Some(Seq::empty().push(t) + rest),
            None => None,
        },
        Scan::Fail => None,
    }
}

#[via_fn]
proof fn lex_from_decreases(s: Seq<char>, i: int) {
    lemma_head_advances(s, i);
}

/// The tokens of a whole input.
pub open spec fn lex(s: Seq<char>) -> Option<Seq<TokenM>> {
    lex_from(s, 0)
}

// ---------------------------------------------------------------------------
// Arithmetic facts about digit runs
// ---------------------------------------------------------------------------

pub(crate) proof fn lemma_pow10_pos(k: nat)
    ensures
        pow10(k) >= 1,
    decreases k,
{
    if k > 0 {
        lemma_pow10_pos((k - 1) as nat);
    }
}

pub(crate) proof fn lemma_pow10_mono(a: nat, b: nat)
    requires
        a <= b,
    ensures
        pow10(a) <= pow10(b),
    decreases b,
{
    if a < b {
        lemma_pow10_mono(a, (b - 1) as nat);
        lemma_pow10_pos((b - 1) as nat);
    }
}

pub(crate) proof fn lemma_pow10_18()
    ensures
        pow10(18) == 1000000000000000000,
{
    reveal_with_fuel(pow10, 19);
}

/// A run of `j - i` digits has a value below `pow10(j - i)`.
pub(crate) proof fn lemma_digits_val_bound(s: Seq<char>, i: int, j: int)
    requires
        0 <= i <= j <= s.len(),
        forall|k: int| i <= k < j ==> is_digit(#[trigger] s[k]),
    ensures
        0 <= digits_val(s, i, j) < pow10((j - i) as nat),
    decreases j - i,
{
    if i < j {
        lemma_digits_val_bound(s, i, j - 1);
        lemma_pow10_pos((j - 1 - i) as nat);
        assert(is_digit(s[j - 1]));
        assert(0 <= digit_val(s[j - 1]) <= 9);
    }
}

// ---------------------------------------------------------------------------
// Errors
// ---------------------------------------------------------------------------

/// A lexical error: a character no token can begin with, or a numeric
/// literal with more digits than the machine representation admits.  The
/// position is the character index where scanning stopped.
#[derive(Debug, Clone, Copy, PartialEq, Eq, Structural)]
pub struct LexError {
    pub pos: usize,
}

// ---------------------------------------------------------------------------
// Executable lexer
// ---------------------------------------------------------------------------

/// Relies on String::push: appends exactly the given character.
#[verifier::external_body]
fn push_char(s: &mut String, c: char)
    ensures
        final(s)@ == old(s)@.push(c),
{
    s.push(c);
}

/// The characters `s[i..j)` as a fresh `String`.
fn chars_to_string(s: &Vec<char>, i: usize, j: usize) -> (r: String)
    requires
        i <= j <= s@.len(),
    ensures
        r@ == s@.subrange(i as int, j as int),
{
    let mut r = String::new();
    let mut k: usize = i;
    while k < j
        invariant
            i <= k <= j <= s@.len(),
            r@ == s@.subrange(i as int, k as int),
        decreases j - k,
    {
        push_char(&mut r, s[k]);
        proof {
            assert(s@.subrange(i as int, k as int).push(s@[k as int]) =~= s@.subrange(
                i as int,
                (k + 1) as int,
            ));
        }
        k = k + 1;
    }
    r
}

/// The characters of a `&str`, in order.
fn str_to_chars(input: &str) -> (r: Vec<char>)
    ensures
        r@ == input@,
{
    let n = input.unicode_len();
    let mut r: Vec<char> = Vec::new();
    let mut i: usize = 0;
    while i < n
        invariant
            n == input@.len(),
            i <= n,
            r@ == input@.subrange(0, i as int),
        decreases n - i,
    {
        let c = input.get_char(i);
        r.push(c);
        proof {
            assert(input@.subrange(0, i as int).push(input@[i as int]) =~= input@.subrange(
                0,
                (i + 1) as int,
            ));
        }
        i = i + 1;
    }
    proof {
        assert(input@.subrange(0, n as int) =~= input@);
    }
    r
}

fn ws_char(c: char) -> (r: bool)
    ensures
        r == is_ws(c),
{
    c == ' ' || c == '\t' || c == '\n' || c == '\u{c}'
}

fn digit_char(c: char) -> (r: bool)
    ensures
        r == is_digit(c),
{
    let u = c as u32;
    48 <= u && u <= 57
}

fn lower_char(c: char) -> (r: bool)
    ensures
        r == is_lower(c),
{
    let u = c as u32;
    97 <= u && u <= 122
}

fn scan_digits_end(s: &Vec<char>, i: usize) -> (j: usize)
    requires
        i <= s@.len(),
    ensures
        j == digits_end(s@, i as int),
        i <= j <= s@.len(),
        forall|k: int| i <= k < j ==> is_digit(#[trigger] s@[k]),
{
    let mut j: usize = i;
    loop
        invariant
            i <= j <= s@.len(),
            digits_end(s@, i as int) == digits_end(s@, j as int),
            forall|k: int| i <= k < j ==> is_digit(#[trigger] s@[k]),
        ensures
            i <= j <= s@.len(),
            digits_end(s@, i as int) == j,
            forall|k: int| i <= k < j ==> is_digit(#[trigger] s@[k]),
        decreases s@.len() - j,
    {
        if j >= s.len() {
            break;
        }
        if !digit_char(s[j]) {
            break;
        }
        j = j + 1;
    }
    j
}

fn scan_lower_end(s: &Vec<char>, i: usize) -> (j: usize)
    requires
        i <= s@.len(),
    ensures
        j == lower_end(s@, i as int),
        i <= j <= s@.len(),
        forall|k: int| i <= k < j ==> is_lower(#[trigger] s@[k]),
{
    let mut j: usize = i;
    loop
        invariant
            i <= j <= s@.len(),
            lower_end(s@, i as int) == lower_end(s@, j as int),
            forall|k: int| i <= k < j ==> is_lower(#[trigger] s@[k]),
        ensures
            i <= j <= s@.len(),
            lower_end(s@, i as int) == j,
            forall|k: int| i <= k < j ==> is_lower(#[trigger] s@[k]),
        decreases s@.len() - j,
    {
        if j >= s.len() {
            break;
        }
        if !lower_char(s[j]) {
            break;
        }
        j = j + 1;
    }
    j
}

fn word_is(w: &String, lit: &str) -> (r: bool)
    ensures
        r == (w@ == lit@),
{
    let l = String::from_str(lit);
    *w == l
}

/// The token of a lowercase word: the keyword table, with procedure names
/// as the fallback.
fn classify_word(w: String) -> (t: Token)
    ensures
        t.deep_view() == classify(w@),
{
    if word_is(&w, "repeat") {
        Token::Repeat
    } else if word_is(&w, "stop") {
        Token::Stop
    } else if word_is(&w, "if") {
        Token::If
    } else if word_is(&w, "ifelse") {
        Token::IfElse
    } else if word_is(&w, "to") {
        Token::To
    } else if word_is(&w, "end") {
        Token::End
    } else if word_is(&w, "show") {
        Token::Show
    } else if word_is(&w, "wait") {
        Token::Wait
    } else if word_is(&w, "pick") {
        Token::Pick
    } else if word_is(&w, "random") {
        Token::Random
    } else if word_is(&w, "red") {
        Token::Red
    } else if word_is(&w, "orange") {
        Token::Orange
    } else if word_is(&w, "yellow") {
        Token::Yellow
    } else if word_is(&w, "green") {
        Token::Green
    } else if word_is(&w, "blue") {
        Token::Blue
    } else if word_is(&w, "violet") {
        Token::Violet
    } else if word_is(&w, "black") {
        Token::Black
    } else if word_is(&w, "clearscreen") {
        Token::Clearscreen
    } else if word_is(&w, "setcolor") {
        Token::Setcolor
    } else if word_is(&w, "fd") || word_is(&w, "forward") {
        Token::Forward
    } else if word_is(&w, "bk") || word_is(&w, "back") || word_is(&w, "backward") {
        Token::Backward
    } else if word_is(&w, "lt") || word_is(&w, "left") {
        Token::Left
    } else if word_is(&w, "rt") || word_is(&w, "right") {
        Token::Right
    } else if word_is(&w, "pu") || word_is(&w, "penup") {
        Token::PenUp
    } else if word_is(&w, "pd") || word_is(&w, "pendown") {
        Token::PenDown
    } else if word_is(&w, "st") || word_is(&w, "showturtle") {
        Token::ShowTurtle
    } else if word_is(&w, "ht") || word_is(&w, "hideturtle") {
        Token::HideTurtle
    } else if word_is(&w, "setturtle") {
        Token::SetTurtle
    } else {
        Token::Function(w)
    }
}

/// Scan the digit run `s[lo..hi)` onto `acc`; `total` digits fit in all.
fn accum_digits(s: &Vec<char>, lo: usize, hi: usize, acc0: u64, Ghost(width0): Ghost<nat>) -> (acc:
    u64)
    requires
        lo <= hi <= s@.len(),
        forall|k: int| lo <= k < hi ==> is_digit(#[trigger] s@[k]),
        0 <= acc0 < pow10(width0),
        width0 + (hi - lo) <= 18,
    ensures
        acc == acc0 * pow10((hi - lo) as nat) + digits_val(s@, lo as int, hi as int),
        0 <= acc < pow10((width0 + (hi - lo)) as nat),
{
    let mut acc: u64 = acc0;
    let mut p: usize = lo;
    proof {
        lemma_pow10_18();
    }
    while p < hi
        invariant
            lo <= p <= hi <= s@.len(),
            forall|k: int| lo <= k < hi ==> is_digit(#[trigger] s@[k]),
            0 <= acc0 < pow10(width0),
            width0 + (hi - lo) <= 18,
            pow10(18) == 1000000000000000000,
            acc == acc0 * pow10((p - lo) as nat) + digits_val(s@, lo as int, p as int),
            0 <= acc < pow10((width0 + (p - lo)) as nat),
        decreases hi - p,
    {
        let d = ((s[p] as u32) - 48) as u64;
        proof {
            let w = (width0 + (p - lo)) as nat;
            lemma_pow10_mono(w + 1, 18);
            lemma_digits_val_bound(s@, lo as int, p as int);
            assert(acc * 10 + d < pow10(w + 1)) by {
                assert(pow10(w + 1) == 10 * pow10(w));
                assert(acc <= pow10(w) - 1);
                assert(d <= 9);
            }
            vstd::arithmetic::mul::lemma_mul_is_associative(
                acc0 as int,
                pow10((p - lo) as nat),
                10,
            );
            assert(pow10(((p - lo) + 1) as nat) == 10 * pow10((p - lo) as nat));
        }
        acc = acc * 10 + d;
        p = p + 1;
    }
    acc
}

/// Compute `pow10(k)` for `k <= 18`.
fn pow10_exec(k: usize) -> (r: u64)
    requires
        k <= 18,
    ensures
        r == pow10(k as nat),
{
    proof {
        lemma_pow10_18();
    }
    let mut r: u64 = 1;
    let mut c: usize = 0;
    while c < k
        invariant
            c <= k <= 18,
            pow10(18) == 1000000000000000000,
            r == pow10(c as nat),
        decreases k - c,
    {
        proof {
            lemma_pow10_mono((c + 1) as nat, 18);
            assert(pow10((c + 1) as nat) == 10 * pow10(c as nat));
        }
        r = r * 10;
        c = c + 1;
    }
    r
}

/// Scan a numeric literal beginning at `i`.
fn scan_number(s: &Vec<char>, i: usize) -> (r: Result<(Token, usize), LexError>)
    requires
        i < s@.len(),
        is_digit(s@[i as int]),
    ensures
        r matches Ok((t, j)) ==> head(s@, i as int) == Scan::Emit(t.deep_view(), j as int) && i
            < j <= s@.len(),
        r is Err ==> head(s@, i as int) == Scan::Fail,
{
    proof {
        lemma_pow10_18();
    }
    let j1 = scan_digits_end(s, i);
    proof {
        assert(digits_end(s@, i as int) == digits_end(s@, (i + 1) as int));
        lemma_digits_end_bounds(s@, (i + 1) as int);
    }
    let has_frac = j1 < s.len() && s[j1] == '.' && j1 + 1 < s.len() && digit_char(s[j1 + 1]);
    if has_frac {
        let j2 = scan_digits_end(s, j1 + 1);
        proof {
            assert(digits_end(s@, (j1 + 1) as int) == digits_end(s@, (j1 + 2) as int));
            lemma_digits_end_bounds(s@, (j1 + 2) as int);
        }
        let ilen = j1 - i;
        let k = j2 - (j1 + 1);
        if ilen + k > 18 {
            return Err(LexError { pos: i });
        }
        let int_part = accum_digits(s, i, j1, 0, Ghost(0nat));
        let num = accum_digits(s, j1 + 1, j2, int_part, Ghost(ilen as nat));
        let den = pow10_exec(k);
        proof {
            lemma_pow10_mono((ilen + k) as nat, 18);
            lemma_pow10_mono(k as nat, 18);
            lemma_pow10_pos(k as nat);
            assert(int_part == digits_val(s@, i as int, j1 as int)) by {
                assert(0 * pow10((j1 - i) as nat) == 0) by (nonlinear_arith);
            }
        }
        let t = Token::Number(Rat { num: num as i64, den: den as i64 });
        Ok((t, j2))
    } else {
        let ilen = j1 - i;
        if ilen > 18 {
            return Err(LexError { pos: i });
        }
        let num = accum_digits(s, i, j1, 0, Ghost(0nat));
        proof {
            lemma_pow10_mono(ilen as nat, 18);
            assert(num == digits_val(s@, i as int, j1 as int)) by {
                assert(0 * pow10((j1 - i) as nat) == 0) by (nonlinear_arith);
            }
        }
        let t = Token::Number(Rat { num: num as i64, den: 1 });
        Ok((t, j1))
    }
}

/// Scan the token beginning at position `i`, which holds no whitespace.
fn scan_token(s: &Vec<char>, i: usize) -> (r: Result<(Token, usize), LexError>)
    requires
        i < s@.len(),
        !is_ws(s@[i as int]),
    ensures
        r matches Ok((t, j)) ==> head(s@, i as int) == Scan::Emit(t.deep_view(), j as int) && i
            < j <= s@.len(),
        r is Err ==> head(s@, i as int) == Scan::Fail,
{
    let n = s.len();
    let c = s[i];
    if c == '+' {
        Ok((Token::Add, i + 1))
    } else if c == '-' {
        Ok((Token::Sub, i + 1))
    } else if c == '*' {
        Ok((Token::Mul, i + 1))
    } else if c == '/' {
        Ok((Token::Div, i + 1))
    } else if c == '<' {
        Ok((Token::Lt, i + 1))
    } else if c == '=' {
        Ok((Token::Eq, i + 1))
    } else if c == '(' {
        Ok((Token::LParen, i + 1))
    } else if c == ')' {
        Ok((Token::RParen, i + 1))
    } else if c == '[' {
        Ok((Token::LBracket, i + 1))
    } else if c == ']' {
        Ok((Token::RBracket, i + 1))
    } else if c == ':' {
        let j = scan_lower_end(s, i + 1);
        if j > i + 1 {
            let name = chars_to_string(s, i, j);
            Ok((Token::Variable(name), j))
        } else {
            Err(LexError { pos: i })
        }
    } else if digit_char(c) {
        scan_number(s, i)
    } else if lower_char(c) {
        let j = scan_lower_end(s, i);
        proof {
            assert(lower_end(s@, i as int) == lower_end(s@, (i + 1) as int));
            lemma_lower_end_bounds(s@, (i + 1) as int);
        }
        let w = chars_to_string(s, i, j);
        let t = classify_word(w);
        Ok((t, j))
    } else if c == 'T' {
        if i + 1 < s.len() && s[i + 1] == 'O' {
            Ok((Token::To, i + 2))
        } else {
            Err(LexError { pos: i })
        }
    } else if c == 'E' {
        if i + 1 < s.len() && i + 2 < s.len() && s[i + 1] == 'N' && s[i + 2] == 'D' {
            Ok((Token::End, i + 3))
        } else {
            Err(LexError { pos: i })
        }
    } else {
        Err(LexError { pos: i })
    }
}

/// Split program text into tokens.
///
/// `Ok` holds exactly the tokens of the specification lexer [`lex`]; `Err`
/// reports the position of the first character no token can begin with (or
/// of an oversized numeric literal), exactly when [`lex`] fails.
pub fn process(input: &str) -> (r: Result<VecDeque<Token>, LexError>)
    ensures
        r matches Ok(toks) ==> lex(input@) == Some(toks.deep_view()),
        r is Ok <==> lex(input@) is Some,
{
    let s = str_to_chars(input);
    let mut out: VecDeque<Token> = VecDeque::new();
    let mut i: usize = 0;
    loop
        invariant
            i <= s@.len(),
            s@ == input@,
            match lex_from(s@, i as int) {
                Some(rest) => lex_from(s@, 0) == Some(out.deep_view() + rest),
                None => lex_from(s@, 0) is None,
            },
        ensures
            i == s@.len(),
            s@ == input@,
            match lex_from(s@, i as int) {
                Some(rest) => lex_from(s@, 0) == Some(out.deep_view() + rest),
                None => lex_from(s@, 0) is None,
            },
        decreases s@.len() - i,
    {
        if i >= s.len() {
            break;
        }
        if ws_char(s[i]) {
            proof {
                assert(head(s@, i as int) == Scan::Skip(i + 1));
            }
            i = i + 1;
        } else {
            match scan_token(&s, i) {
                Ok((t, j)) => {
                    proof {
                        assert(head(s@, i as int) == Scan::Emit(t.deep_view(), j as int));
                        if lex_from(s@, j as int) is Some {
                            let rest = lex_from(s@, j as int)->Some_0;
                            assert(lex_from(s@, i as int) == Some(
                                Seq::empty().push(t.deep_view()) + rest,
                            ));
                            assert(out.deep_view() + (Seq::empty().push(t.deep_view()) + rest)
                                =~= out.deep_view().push(t.deep_view()) + rest);
                        }
                    }
                    let ghost old_out = out.deep_view();
                    out.push_back(t);
                    proof {
                        assert(out.deep_view() =~= old_out.push(t.deep_view()));
                    }
                    i = j;
                }
                Err(e) => {
                    proof {
                        assert(head(s@, i as int) == Scan::Fail);
                        assert(lex_from(s@, i as int) is None);
                    }
                    return Err(e);
                }
            }
        }
    }
    proof {
        assert(head(s@, i as int) == Scan::Done);
        assert(lex_from(s@, i as int) == Some(Seq::<TokenM>::empty()));
        assert(out.deep_view() + Seq::<TokenM>::empty() =~= out.deep_view());
    }
    Ok(out)
}

} // verus!
