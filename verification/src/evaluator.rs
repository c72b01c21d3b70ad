use vstd::prelude::*;
use std::collections::VecDeque;
use crate::rat::{
    q_add, q_div, q_eqv, q_fits, q_floor_clamped, q_lt, q_mul, q_neg, q_sub, rat_add, rat_div,
    rat_eq_val, rat_floor_clamped, rat_is_zero, rat_lt, rat_mul, rat_neg, rat_sub, Q, Rat,
};
use crate::parser::{
    command_model, expr_model, names_model, vd_commands_model, vd_exprs_model, vec_exprs_model,
    Command, CommandM, Expr, ExprM,
};
use crate::turtle::{
    im_backward, im_clear, im_forward, im_left, im_pendown, im_penup, im_right, im_setcolor,
    img_model, Image, ImageM,
};

verus! {

broadcast use vstd::std_specs::vecdeque::group_vec_dequeue_axioms;

/// The runtime result of evaluating an expression: a number or a color.
#[derive(Debug, PartialEq)]
pub enum Value {
    Number(Rat),
    Color(String),
}

/// The mathematical shape of a runtime value.
pub ghost enum ValueM {
    Number(Rat),
    Color(Seq<char>),
}

pub open spec fn value_model(v: Value) -> ValueM {
    match v {
        Value::Number(r) => ValueM::Number(r),
        Value::Color(c) => ValueM::Color(c@),
    }
}

pub open spec fn value_wf(v: Value) -> bool {
    match v {
        Value::Number(r) => r.wf(),
        Value::Color(_) => true,
    }
}

impl Value {
    /// The number a value holds, if it is one.
    pub fn get_number(&self) -> (r: Option<Rat>)
        ensures
            self matches Value::Number(x) ==> r == Some(*x),
            self matches Value::Color(_) ==> r is None,
    {
        match self {
            Value::Number(x) => Some(*x),
            Value::Color(_) => None,
        }
    }
}

/// A copy of a value, equal to the original.
fn clone_value(v: &Value) -> (r: Value)
    ensures
        r == *v,
{
    match v {
        Value::Number(x) => Value::Number(*x),
        Value::Color(c) => Value::Color(c.clone()),
    }
}

/// Why evaluation ended early.  `Stop` is not a failure: it is the
/// non-local exit that `stop` raises, consumed at the nearest procedure
/// boundary.  Every other variant is a fatal runtime error.
#[derive(Debug, Clone, Copy, PartialEq, Eq, Structural)]
pub enum LogoErr {
    /// The `stop` signal, unwinding to the enclosing procedure call.
    Stop,
    /// A call to a procedure that was never declared.
    UndefinedProcedure,
    /// A call whose argument count differs from the declared parameters.
    ArityMismatch,
    /// A `:variable` that is not a parameter of the running procedure.
    UndefinedVariable,
    /// A number where a color was needed, or the other way round.
    TypeMismatch,
    /// Division by zero.
    DivisionByZero,
    /// `pick` over an empty list.
    EmptyPick,
    /// `random` of a value below one.
    BadRandomBound,
    /// Exact rational arithmetic left the machine words.
    Overflow,
    /// The procedure call recursion budget is exhausted.
    DepthExceeded,
}

/// The errors an expression can raise: never `Stop`, never the
/// procedure-level errors.
pub open spec fn is_expr_err(e: LogoErr) -> bool {
    match e {
        LogoErr::UndefinedVariable => true,
        LogoErr::TypeMismatch => true,
        LogoErr::DivisionByZero => true,
        LogoErr::EmptyPick => true,
        LogoErr::BadRandomBound => true,
        LogoErr::Overflow => true,
        _ => false,
    }
}

// ---------------------------------------------------------------------------
// Variable scope
// ---------------------------------------------------------------------------

/// The variable scope of one procedure activation: parameter names (sigil
/// included) bound to values.  Lookup takes the latest binding of a name.
pub struct Env {
    pairs: Vec<(String, Value)>,
}

/// Lookup in a scope model, latest binding first.
pub open spec fn env_lookup(s: Seq<(Seq<char>, ValueM)>, name: Seq<char>) -> Option<ValueM>
    decreases s.len(),
{
    if s.len() == 0 {
        None
    } else if s.last().0 == name {
        Some(s.last().1)
    } else {
        env_lookup(s.drop_last(), name)
    }
}

impl Env {
    pub closed spec fn model(self) -> Seq<(Seq<char>, ValueM)> {
        Seq::new(self.pairs@.len(), |k: int| (self.pairs@[k].0@, value_model(self.pairs@[k].1)))
    }

    pub closed spec fn wf(self) -> bool {
        forall|k: int| 0 <= k < self.pairs@.len() ==> value_wf(#[trigger] self.pairs@[k].1)
    }

    /// The empty scope: that of the top level.
    pub fn new() -> (r: Env)
        ensures
            r.wf(),
            r.model() == Seq::<(Seq<char>, ValueM)>::empty(),
    {
        let r = Env { pairs: Vec::new() };
        proof {
            assert(r.model() =~= Seq::<(Seq<char>, ValueM)>::empty());
        }
        r
    }

    /// Bind one more name; later bindings shadow earlier ones.
    fn bind(&mut self, name: String, v: Value)
        requires
            old(self).wf(),
            value_wf(v),
        ensures
            final (self).wf(),
            final (self).model() == old(self).model().push((name@, value_model(v))),
    {
        let ghost oldm = self.model();
        self.pairs.push((name, v));
        proof {
            assert(self.model() =~= oldm.push((self.pairs@.last().0@, value_model(
                self.pairs@.last().1,
            ))));
        }
    }

    /// The value bound to `name`, exactly as the model lookup gives it.
    fn get(&self, name: &String) -> (r: Option<Value>)
        requires
            self.wf(),
        ensures
            match env_lookup(self.model(), name@) {
                Some(m) => r matches Some(v) && value_model(v) == m && value_wf(v),
                None => r is None,
            },
    {
        let mut i: usize = self.pairs.len();
        proof {
            assert(self.model().take(i as int) =~= self.model());
        }
        while i > 0
            invariant
                i <= self.pairs@.len(),
                self.wf(),
                env_lookup(self.model(), name@) == env_lookup(
                    self.model().take(i as int),
                    name@,
                ),
            decreases i,
        {
            i = i - 1;
            let p = &self.pairs[i];
            if p.0 == *name {
                proof {
                    assert(self.model().take((i + 1) as int).last() == self.model()[i as int]);
                }
                return Some(clone_value(&p.1));
            }
            proof {
                assert(self.model().take((i + 1) as int).last() == self.model()[i as int]);
                assert(self.model().take((i + 1) as int).drop_last() =~= self.model().take(
                    i as int,
                ));
            }
        }
        proof {
            assert(self.model().take(0).len() == 0);
        }
        None
    }
}

// ---------------------------------------------------------------------------
// Procedure table
// ---------------------------------------------------------------------------

/// A declared procedure: its name, parameter names and body.
pub struct Proc {
    pub name: String,
    pub params: Vec<String>,
    pub body: VecDeque<Command>,
}

pub open spec fn proc_model(p: Proc) -> (Seq<char>, Seq<Seq<char>>, Seq<CommandM>) {
    (p.name@, names_model(p.params@), vd_commands_model(p.body))
}

/// The procedure table: name to parameters and body, later declarations of
/// a name shadowing earlier ones.  Declarations persist for the session.
pub struct Procs {
    procs: Vec<Proc>,
}

/// Lookup in a table model, latest declaration first.
pub open spec fn procs_lookup(
    s: Seq<(Seq<char>, Seq<Seq<char>>, Seq<CommandM>)>,
    name: Seq<char>,
) -> Option<(Seq<Seq<char>>, Seq<CommandM>)>
    decreases s.len(),
{
    if s.len() == 0 {
        None
    } else if s.last().0 == name {
        Some((s.last().1, s.last().2))
    } else {
        procs_lookup(s.drop_last(), name)
    }
}

impl Procs {
    pub closed spec fn model(self) -> Seq<(Seq<char>, Seq<Seq<char>>, Seq<CommandM>)> {
        Seq::new(self.procs@.len(), |k: int| proc_model(self.procs@[k]))
    }

    /// The empty table: no procedure is declared at session start.
    pub fn new() -> (r: Procs)
        ensures
            r.model() == Seq::<(Seq<char>, Seq<Seq<char>>, Seq<CommandM>)>::empty(),
    {
        let r = Procs { procs: Vec::new() };
        proof {
            assert(r.model() =~= Seq::<(Seq<char>, Seq<Seq<char>>, Seq<CommandM>)>::empty());
        }
        r
    }

    /// Record a declaration; it shadows any earlier one of the same name.
    fn insert(&mut self, p: Proc)
        ensures
            final (self).model() == old(self).model().push(proc_model(p)),
    {
        let ghost oldm = self.model();
        self.procs.push(p);
        proof {
            assert(self.model() =~= oldm.push(proc_model(self.procs@.last())));
        }
    }

    /// The parameters and a fresh copy of the body of `name`, exactly as
    /// the model lookup gives them.
    fn get_clone(&self, name: &String) -> (r: Option<(Vec<String>, VecDeque<Command>)>)
        ensures
            match procs_lookup(self.model(), name@) {
                Some(pb) => r matches Some((params, body)) && names_model(params@) == pb.0
                    && vd_commands_model(body) == pb.1,
                None => r is None,
            },
    {
        let mut i: usize = self.procs.len();
        proof {
            assert(self.model().take(i as int) =~= self.model());
        }
        while i > 0
            invariant
                i <= self.procs@.len(),
                procs_lookup(self.model(), name@) == procs_lookup(
                    self.model().take(i as int),
                    name@,
                ),
            decreases i,
        {
            i = i - 1;
            let p = &self.procs[i];
            if p.name == *name {
                proof {
                    assert(self.model().take((i + 1) as int).last() == self.model()[i as int]);
                }
                return Some((copy_strings(&p.params), copy_commands(&p.body)));
            }
            proof {
                assert(self.model().take((i + 1) as int).last() == self.model()[i as int]);
                assert(self.model().take((i + 1) as int).drop_last() =~= self.model().take(
                    i as int,
                ));
            }
        }
        proof {
            assert(self.model().take(0).len() == 0);
        }
        None
    }
}

// ---------------------------------------------------------------------------
// Deep copies (bodies are read-only: a call runs a copy of the body so the
// table stays free for declarations made inside it)
// ---------------------------------------------------------------------------

/// A copy of a string list, equal to the original.
fn copy_strings(v: &Vec<String>) -> (r: Vec<String>)
    ensures
        r@ == v@,
{
    let mut r: Vec<String> = Vec::new();
    let mut k: usize = 0;
    while k < v.len()
        invariant
            k <= v@.len(),
            r@ == v@.subrange(0, k as int),
        decreases v@.len() - k,
    {
        r.push(v[k].clone());
        proof {
            assert(v@.subrange(0, k as int).push(v@[k as int]) =~= v@.subrange(
                0,
                (k + 1) as int,
            ));
        }
        k = k + 1;
    }
    proof {
        assert(v@.subrange(0, v@.len() as int) =~= v@);
    }
    r
}

/// A copy of an expression with the same model.
fn copy_expr(e: &Expr) -> (r: Expr)
    ensures
        expr_model(r) == expr_model(*e),
    decreases *e,
{
    match e {
        Expr::Variable(name) => Expr::Variable(name.clone()),
        Expr::Number(r) => Expr::Number(*r),
        Expr::Minus(a) => Expr::Minus(Box::new(copy_expr(a))),
        Expr::Mul(a, b) => Expr::Mul(Box::new(copy_expr(a)), Box::new(copy_expr(b))),
        Expr::Add(a, b) => Expr::Add(Box::new(copy_expr(a)), Box::new(copy_expr(b))),
        Expr::Div(a, b) => Expr::Div(Box::new(copy_expr(a)), Box::new(copy_expr(b))),
        Expr::Sub(a, b) => Expr::Sub(Box::new(copy_expr(a)), Box::new(copy_expr(b))),
        Expr::Lt(a, b) => Expr::Lt(Box::new(copy_expr(a)), Box::new(copy_expr(b))),
        Expr::Eq(a, b) => Expr::Eq(Box::new(copy_expr(a)), Box::new(copy_expr(b))),
        Expr::Rand(a) => Expr::Rand(Box::new(copy_expr(a))),
        Expr::Color(name) => Expr::Color(name.clone()),
        Expr::Pick(es) => Expr::Pick(copy_exprs(es)),
    }
}

/// A copy of an expression list with the same model.
fn copy_exprs(es: &VecDeque<Expr>) -> (r: VecDeque<Expr>)
    ensures
        vd_exprs_model(r) == vd_exprs_model(*es),
    decreases *es,
{
    let mut r: VecDeque<Expr> = VecDeque::new();
    let mut k: usize = 0;
    proof {
        assert(vd_exprs_model(r) =~= vd_exprs_model(*es).subrange(0, 0));
    }
    while k < es.len()
        invariant
            k <= es@.len(),
            vd_exprs_model(r) == vd_exprs_model(*es).subrange(0, k as int),
            r@.len() == k,
        decreases es@.len() - k,
    {
        let ghost oldm = vd_exprs_model(r);
        r.push_back(copy_expr(&es[k]));
        proof {
            assert(vd_exprs_model(r) =~= oldm.push(expr_model(r@.last())));
            assert(vd_exprs_model(*es).subrange(0, k as int).push(
                vd_exprs_model(*es)[k as int],
            ) =~= vd_exprs_model(*es).subrange(0, (k + 1) as int));
        }
        k = k + 1;
    }
    proof {
        assert(vd_exprs_model(*es).subrange(0, es@.len() as int) =~= vd_exprs_model(*es));
    }
    r
}

/// A copy of an argument list with the same model.
fn copy_exprs_vec(es: &Vec<Expr>) -> (r: Vec<Expr>)
    ensures
        vec_exprs_model(r) == vec_exprs_model(*es),
    decreases *es,
{
    let mut r: Vec<Expr> = Vec::new();
    let mut k: usize = 0;
    proof {
        assert(vec_exprs_model(r) =~= vec_exprs_model(*es).subrange(0, 0));
    }
    while k < es.len()
        invariant
            k <= es@.len(),
            vec_exprs_model(r) == vec_exprs_model(*es).subrange(0, k as int),
            r@.len() == k,
        decreases es@.len() - k,
    {
        let ghost oldm = vec_exprs_model(r);
        r.push(copy_expr(&es[k]));
        proof {
            assert(vec_exprs_model(r) =~= oldm.push(expr_model(r@.last())));
            assert(vec_exprs_model(*es).subrange(0, k as int).push(
                vec_exprs_model(*es)[k as int],
            ) =~= vec_exprs_model(*es).subrange(0, (k + 1) as int));
        }
        k = k + 1;
    }
    proof {
        assert(vec_exprs_model(*es).subrange(0, es@.len() as int) =~= vec_exprs_model(*es));
    }
    r
}

/// A copy of a command with the same model.
fn copy_command(c: &Command) -> (r: Command)
    ensures
        command_model(r) == command_model(*c),
    decreases *c,
{
    match c {
        Command::Forward(e) => Command::Forward(copy_expr(e)),
        Command::Backward(e) => Command::Backward(copy_expr(e)),
        Command::Right(e) => Command::Right(copy_expr(e)),
        Command::Left(e) => Command::Left(copy_expr(e)),
        Command::Show(e) => Command::Show(copy_expr(e)),
        Command::Repeat(e, body) => Command::Repeat(copy_expr(e), copy_commands(body)),
        Command::FunctionDeclaration(name, params, body) => Command::FunctionDeclaration(
            name.clone(),
            copy_strings(params),
            copy_commands(body),
        ),
        Command::FunctionCall(name, args) => Command::FunctionCall(
            name.clone(),
            copy_exprs_vec(args),
        ),
        Command::If(e, body) => Command::If(copy_expr(e), copy_commands(body)),
        Command::IfElse(e, tb, eb) => Command::IfElse(
            copy_expr(e),
            copy_commands(tb),
            copy_commands(eb),
        ),
        Command::Clearscreen => Command::Clearscreen,
        Command::Stop => Command::Stop,
        Command::Setcolor(e) => Command::Setcolor(copy_expr(e)),
        Command::PenUp => Command::PenUp,
        Command::PenDown => Command::PenDown,
        Command::ShowTurtle => Command::ShowTurtle,
        Command::HideTurtle => Command::HideTurtle,
    }
}

/// A copy of a command list with the same model.
fn copy_commands(cs: &VecDeque<Command>) -> (r: VecDeque<Command>)
    ensures
        vd_commands_model(r) == vd_commands_model(*cs),
    decreases *cs,
{
    let mut r: VecDeque<Command> = VecDeque::new();
    let mut k: usize = 0;
    proof {
        assert(vd_commands_model(r) =~= vd_commands_model(*cs).subrange(0, 0));
    }
    while k < cs.len()
        invariant
            k <= cs@.len(),
            vd_commands_model(r) == vd_commands_model(*cs).subrange(0, k as int),
            r@.len() == k,
        decreases cs@.len() - k,
    {
        let ghost oldm = vd_commands_model(r);
        r.push_back(copy_command(&cs[k]));
        proof {
            assert(vd_commands_model(r) =~= oldm.push(command_model(r@.last())));
            assert(vd_commands_model(*cs).subrange(0, k as int).push(
                vd_commands_model(*cs)[k as int],
            ) =~= vd_commands_model(*cs).subrange(0, (k + 1) as int));
        }
        k = k + 1;
    }
    proof {
        assert(vd_commands_model(*cs).subrange(0, cs@.len() as int) =~= vd_commands_model(*cs));
    }
    r
}

// ---------------------------------------------------------------------------
// Expression evaluation
// ---------------------------------------------------------------------------

/// Whether the expression consults the random source; the value of such an
/// expression is not a function of the program text.
pub open spec fn has_rand(m: ExprM) -> bool
    decreases m,
{
    match m {
        ExprM::Variable(_) => false,
        ExprM::Number(_) => false,
        ExprM::Color(_) => false,
        ExprM::Minus(a) => has_rand(*a),
        ExprM::Mul(a, b) => has_rand(*a) || has_rand(*b),
        ExprM::Add(a, b) => has_rand(*a) || has_rand(*b),
        ExprM::Div(a, b) => has_rand(*a) || has_rand(*b),
        ExprM::Sub(a, b) => has_rand(*a) || has_rand(*b),
        ExprM::Lt(a, b) => has_rand(*a) || has_rand(*b),
        ExprM::Eq(a, b) => has_rand(*a) || has_rand(*b),
        ExprM::Rand(_) => true,
        ExprM::Pick(_) => true,
    }
}

/// The machine rational of an exactly computed pair that fits.
pub open spec fn rat_of(q: Q) -> Rat {
    Rat { num: q.n as i64, den: q.d as i64 }
}

/// An arithmetic result: the exact value if it fits the machine words.
pub open spec fn num_result(q: Q) -> Result<ValueM, LogoErr> {
    if q_fits(q) {
        Ok(ValueM::Number(rat_of(q)))
    } else {
        Err(LogoErr::Overflow)
    }
}

/// The value of an expression without random sources, over a scope model.
/// Arithmetic needs numbers on both sides; division by zero and exact
/// results beyond the machine words are the errors the evaluator reports.
/// Random expressions are given an arbitrary placeholder here; the
/// evaluator's contract excludes them.
pub open spec fn eval_expr_spec(m: ExprM, env: Seq<(Seq<char>, ValueM)>) -> Result<
    ValueM,
    LogoErr,
>
    decreases m,
{
    match m {
        ExprM::Number(r) => if r.wf() {
            Ok(ValueM::Number(r))
        } else {
            Err(LogoErr::Overflow)
        },
        ExprM::Variable(name) => match env_lookup(env, name) {
            Some(v) => Ok(v),
            None => Err(LogoErr::UndefinedVariable),
        },
        ExprM::Color(c) => Ok(ValueM::Color(c)),
        ExprM::Minus(a) => match eval_expr_spec(*a, env) {
            Ok(ValueM::Number(x)) => if x.num == i64::MIN {
                Err(LogoErr::Overflow)
            } else {
                Ok(ValueM::Number(rat_of(q_neg(x.q()))))
            },
            Ok(_) => Err(LogoErr::TypeMismatch),
            Err(e) => Err(e),
        },
        ExprM::Add(a, b) => match (eval_expr_spec(*a, env), eval_expr_spec(*b, env)) {
            (Err(e), _) => Err(e),
            (Ok(_), Err(e)) => Err(e),
            (Ok(ValueM::Number(x)), Ok(ValueM::Number(y))) => num_result(q_add(x.q(), y.q())),
            _ => Err(LogoErr::TypeMismatch),
        },
        ExprM::Sub(a, b) => match (eval_expr_spec(*a, env), eval_expr_spec(*b, env)) {
            (Err(e), _) => Err(e),
            (Ok(_), Err(e)) => Err(e),
            (Ok(ValueM::Number(x)), Ok(ValueM::Number(y))) => num_result(q_sub(x.q(), y.q())),
            _ => Err(LogoErr::TypeMismatch),
        },
        ExprM::Mul(a, b) => match (eval_expr_spec(*a, env), eval_expr_spec(*b, env)) {
            (Err(e), _) => Err(e),
            (Ok(_), Err(e)) => Err(e),
            (Ok(ValueM::Number(x)), Ok(ValueM::Number(y))) => num_result(q_mul(x.q(), y.q())),
            _ => Err(LogoErr::TypeMismatch),
        },
        ExprM::Div(a, b) => match (eval_expr_spec(*a, env), eval_expr_spec(*b, env)) {
            (Err(e), _) => Err(e),
            (Ok(_), Err(e)) => Err(e),
            (Ok(ValueM::Number(x)), Ok(ValueM::Number(y))) => if y.num == 0 {
                Err(LogoErr::DivisionByZero)
            } else {
                num_result(q_div(x.q(), y.q()))
            },
            _ => Err(LogoErr::TypeMismatch),
        },
        ExprM::Lt(a, b) => match (eval_expr_spec(*a, env), eval_expr_spec(*b, env)) {
            (Err(e), _) => Err(e),
            (Ok(_), Err(e)) => Err(e),
            (Ok(ValueM::Number(x)), Ok(ValueM::Number(y))) => if q_lt(x.q(), y.q()) {
                Ok(ValueM::Number(Rat { num: 1, den: 1 }))
            } else {
                Ok(ValueM::Number(Rat { num: 0, den: 1 }))
            },
            _ => Err(LogoErr::TypeMismatch),
        },
        ExprM::Eq(a, b) => match (eval_expr_spec(*a, env), eval_expr_spec(*b, env)) {
            (Err(e), _) => Err(e),
            (Ok(_), Err(e)) => Err(e),
            (Ok(ValueM::Number(x)), Ok(ValueM::Number(y))) => if q_eqv(x.q(), y.q()) {
                Ok(ValueM::Number(Rat { num: 1, den: 1 }))
            } else {
                Ok(ValueM::Number(Rat { num: 0, den: 1 }))
            },
            _ => Err(LogoErr::TypeMismatch),
        },
        ExprM::Rand(_) => arbitrary(),
        ExprM::Pick(_) => arbitrary(),
    }
}

/// Relies on rand::random_range: a uniformly chosen value of the given
/// (nonempty) range; it panics only on an empty range, which the bound
/// rules out.
#[verifier::external_body]
fn random_below(n: u64) -> (r: u64)
    requires
        n > 0,
    ensures
        r < n,
{
    rand::random_range(0..n)
}

/// Evaluate an expression in the given scope.  For an expression without
/// random sources the result is exactly [`eval_expr_spec`]; a random
/// expression yields a well-formed value whatever the random source
/// returned.  Expressions never raise `Stop` or a procedure-level error.
fn eval_expr(e: &Expr, variables: &Env) -> (r: Result<Value, LogoErr>)
    requires
        variables.wf(),
    ensures
        r matches Ok(v) ==> value_wf(v),
        r matches Err(err) ==> is_expr_err(err),
        !has_rand(expr_model(*e)) ==> match r {
            Ok(v) => eval_expr_spec(expr_model(*e), variables.model()) == Ok::<ValueM, LogoErr>(
                value_model(v),
            ),
            Err(err) => eval_expr_spec(expr_model(*e), variables.model()) == Err::<
                ValueM,
                LogoErr,
            >(err),
        },
        expr_model(*e) matches ExprM::Rand(a) ==> !has_rand(*a) ==> match eval_expr_spec(
            *a,
            variables.model(),
        ) {
            Err(er) => r == Err::<Value, LogoErr>(er),
            Ok(ValueM::Number(x)) => if q_floor_clamped(x.q()) == 0 {
                r == Err::<Value, LogoErr>(LogoErr::BadRandomBound)
            } else {
                r matches Ok(v) && (v matches Value::Number(kd) && kd.den == 1 && 0 <= kd.num
                    < q_floor_clamped(x.q()))
            },
            Ok(_) => r == Err::<Value, LogoErr>(LogoErr::TypeMismatch),
        },
        expr_model(*e) matches ExprM::Pick(ms) ==> !list_has_rand(ms) ==> match eval_list_spec(
            ms,
            variables.model(),
        ) {
            Err(er) => r == Err::<Value, LogoErr>(er),
            Ok(vs) => if vs.len() == 0 {
                r == Err::<Value, LogoErr>(LogoErr::EmptyPick)
            } else {
                r matches Ok(v) && (exists|i: int| 0 <= i < vs.len() && value_model(v) == vs[i])
            },
        },
    decreases *e,
{
    match e {
        Expr::Number(r) => {
            if r.den >= 1 {
                Ok(Value::Number(*r))
            } else {
                Err(LogoErr::Overflow)
            }
        },
        Expr::Variable(name) => match variables.get(name) {
            Some(v) => Ok(v),
            None => Err(LogoErr::UndefinedVariable),
        },
        Expr::Color(c) => Ok(Value::Color(c.clone())),
        Expr::Minus(a) => {
            let v = eval_expr(a, variables)?;
            match v {
                Value::Number(x) => match rat_neg(x) {
                    Some(nx) => Ok(Value::Number(nx)),
                    None => Err(LogoErr::Overflow),
                },
                Value::Color(_) => Err(LogoErr::TypeMismatch),
            }
        },
        Expr::Add(a, b) => {
            let va = eval_expr(a, variables)?;
            let vb = eval_expr(b, variables)?;
            match (va, vb) {
                (Value::Number(x), Value::Number(y)) => match rat_add(x, y) {
                    Some(v) => Ok(Value::Number(v)),
                    None => Err(LogoErr::Overflow),
                },
                _ => Err(LogoErr::TypeMismatch),
            }
        },
        Expr::Sub(a, b) => {
            let va = eval_expr(a, variables)?;
            let vb = eval_expr(b, variables)?;
            match (va, vb) {
                (Value::Number(x), Value::Number(y)) => match rat_sub(x, y) {
                    Some(v) => Ok(Value::Number(v)),
                    None => Err(LogoErr::Overflow),
                },
                _ => Err(LogoErr::TypeMismatch),
            }
        },
        Expr::Mul(a, b) => {
            let va = eval_expr(a, variables)?;
            let vb = eval_expr(b, variables)?;
            match (va, vb) {
                (Value::Number(x), Value::Number(y)) => match rat_mul(x, y) {
                    Some(v) => Ok(Value::Number(v)),
                    None => Err(LogoErr::Overflow),
                },
                _ => Err(LogoErr::TypeMismatch),
            }
        },
        Expr::Div(a, b) => {
            let va = eval_expr(a, variables)?;
            let vb = eval_expr(b, variables)?;
            match (va, vb) {
                (Value::Number(x), Value::Number(y)) => {
                    if rat_is_zero(y) {
                        Err(LogoErr::DivisionByZero)
                    } else {
                        match rat_div(x, y) {
                            Some(v) => Ok(Value::Number(v)),
                            None => Err(LogoErr::Overflow),
                        }
                    }
                },
                _ => Err(LogoErr::TypeMismatch),
            }
        },
        Expr::Lt(a, b) => {
            let va = eval_expr(a, variables)?;
            let vb = eval_expr(b, variables)?;
            match (va, vb) {
                (Value::Number(x), Value::Number(y)) => {
                    if rat_lt(x, y) {
                        Ok(Value::Number(Rat { num: 1, den: 1 }))
                    } else {
                        Ok(Value::Number(Rat { num: 0, den: 1 }))
                    }
                },
                _ => Err(LogoErr::TypeMismatch),
            }
        },
        Expr::Eq(a, b) => {
            let va = eval_expr(a, variables)?;
            let vb = eval_expr(b, variables)?;
            match (va, vb) {
                (Value::Number(x), Value::Number(y)) => {
                    if rat_eq_val(x, y) {
                        Ok(Value::Number(Rat { num: 1, den: 1 }))
                    } else {
                        Ok(Value::Number(Rat { num: 0, den: 1 }))
                    }
                },
                _ => Err(LogoErr::TypeMismatch),
            }
        },
        Expr::Rand(a) => {
            let v = eval_expr(a, variables)?;
            match v {
                Value::Number(x) => {
                    let bound = rat_floor_clamped(x);
                    if bound == 0 {
                        Err(LogoErr::BadRandomBound)
                    } else {
                        let drawn = random_below(bound);
                        Ok(Value::Number(Rat::from_int(drawn as i64)))
                    }
                },
                Value::Color(_) => Err(LogoErr::TypeMismatch),
            }
        },
        Expr::Pick(es) => {
            let vals = eval_list(es, variables)?;
            if vals.len() == 0 {
                Err(LogoErr::EmptyPick)
            } else {
                let idx = random_below(vals.len() as u64);
                let picked = clone_value(&vals[idx as usize]);
                proof {
                    assert(value_model(picked) == outs_model(vals@)[idx as int]);
                }
                Ok(picked)
            }
        },
    }
}

/// Evaluate each element of a list, left to right.
fn eval_list(es: &VecDeque<Expr>, variables: &Env) -> (r: Result<Vec<Value>, LogoErr>)
    requires
        variables.wf(),
    ensures
        r matches Ok(vs) ==> forall|k: int| 0 <= k < vs@.len() ==> value_wf(#[trigger] vs@[k]),
        r matches Err(err) ==> is_expr_err(err),
        !list_has_rand(vd_exprs_model(*es)) ==> match r {
            Ok(vs) => eval_list_spec(vd_exprs_model(*es), variables.model()) == Ok::<
                Seq<ValueM>,
                LogoErr,
            >(outs_model(vs@)),
            Err(err) => eval_list_spec(vd_exprs_model(*es), variables.model()) == Err::<
                Seq<ValueM>,
                LogoErr,
            >(err),
        },
    decreases *es,
{
    let ghost msm = vd_exprs_model(*es);
    let ghost env = variables.model();
    let n = es.len();
    let mut vals: Vec<Value> = Vec::new();
    let mut k: usize = 0;
    proof {
        assert(msm.subrange(0, n as int) =~= msm);
        assert(outs_model(vals@) =~= Seq::<ValueM>::empty());
    }
    while k < n
        invariant
            k <= n,
            n == es@.len(),
            msm == vd_exprs_model(*es),
            env == variables.model(),
            variables.wf(),
            forall|j: int| 0 <= j < vals@.len() ==> value_wf(#[trigger] vals@[j]),
            !list_has_rand(msm) ==> match eval_list_spec(msm.subrange(k as int, n as int), env) {
                Ok(rest) => eval_list_spec(msm, env) == Ok::<Seq<ValueM>, LogoErr>(
                    outs_model(vals@) + rest,
                ),
                Err(e) => eval_list_spec(msm, env) == Err::<Seq<ValueM>, LogoErr>(e),
            },
        decreases es@.len() - k,
    {
        proof {
            if !list_has_rand(msm) {
                lemma_list_rand_elem(msm, k as int);
                assert(msm.subrange(k as int, n as int)[0] == msm[k as int]);
            }
        }
        let v = eval_expr(&es[k], variables)?;
        let ghost vals0 = outs_model(vals@);
        vals.push(v);
        proof {
            assert(outs_model(vals@) =~= vals0.push(value_model(v)));
            if !list_has_rand(msm) {
                assert(msm.subrange(k as int, n as int).subrange(
                    1,
                    msm.subrange(k as int, n as int).len() as int,
                ) =~= msm.subrange((k + 1) as int, n as int));
                match eval_list_spec(msm.subrange((k + 1) as int, n as int), env) {
                    Ok(rest) => {
                        assert(vals0 + (seq![value_model(v)] + rest) =~= outs_model(vals@)
                            + rest);
                    },
                    Err(_) => {},
                }
            }
        }
        k = k + 1;
    }
    proof {
        assert(msm.subrange(n as int, n as int) =~= Seq::<ExprM>::empty());
        assert(outs_model(vals@) + Seq::<ValueM>::empty() =~= outs_model(vals@));
    }
    Ok(vals)
}

// ---------------------------------------------------------------------------
// Command evaluation
// ---------------------------------------------------------------------------

/// A structural size, the measure of the tree-walking recursion.  A
/// command that re-walks a body weighs more than the body; a call weighs
/// one, since calls spend recursion budget instead.
pub open spec fn cmdm_size(m: CommandM) -> nat
    decreases m,
{
    match m {
        CommandM::Repeat(_, b) => 2 + cmds_size(b),
        CommandM::If(_, b) => 2 + cmds_size(b),
        CommandM::IfElse(_, t, e) => 2 + cmds_size(t) + cmds_size(e),
        _ => 1,
    }
}

pub open spec fn cmds_size(s: Seq<CommandM>) -> nat
    decreases s,
{
    if s.len() == 0 {
        0
    } else {
        cmdm_size(s[0]) + cmds_size(s.subrange(1, s.len() as int))
    }
}

proof fn lemma_cmds_size_elem(s: Seq<CommandM>, k: int)
    requires
        0 <= k < s.len(),
    ensures
        cmdm_size(s[k]) <= cmds_size(s),
    decreases k,
{
    if k > 0 {
        lemma_cmds_size_elem(s.subrange(1, s.len() as int), k - 1);
    }
}

/// Whether running the command can never empty the drawing buffer: it is
/// not `clearscreen`, holds no body with one, and is no procedure call (a
/// called body is looked up at run time and may clear).
pub open spec fn no_clear_cmd(m: CommandM) -> bool
    decreases m,
{
    match m {
        CommandM::Clearscreen => false,
        CommandM::FunctionCall(_, _) => false,
        CommandM::Repeat(_, b) => no_clear_seq(b),
        CommandM::If(_, b) => no_clear_seq(b),
        CommandM::IfElse(_, t, e) => no_clear_seq(t) && no_clear_seq(e),
        _ => true,
    }
}

pub open spec fn no_clear_seq(s: Seq<CommandM>) -> bool
    decreases s,
{
    s.len() == 0 || (no_clear_cmd(s[0]) && no_clear_seq(s.subrange(1, s.len() as int)))
}

proof fn lemma_no_clear_elem(s: Seq<CommandM>, k: int)
    requires
        no_clear_seq(s),
        0 <= k < s.len(),
    ensures
        no_clear_cmd(s[k]),
    decreases k,
{
    if k > 0 {
        lemma_no_clear_elem(s.subrange(1, s.len() as int), k - 1);
    }
}

/// Whether running the command can never touch the drawing buffer at all:
/// no motion, no `clearscreen`, no body with one, and no procedure call (a
/// called body is looked up at run time and may draw).
pub open spec fn keeps_buffer_cmd(m: CommandM) -> bool
    decreases m,
{
    match m {
        CommandM::Forward(_) => false,
        CommandM::Backward(_) => false,
        CommandM::Clearscreen => false,
        CommandM::FunctionCall(_, _) => false,
        CommandM::Repeat(_, b) => keeps_buffer_seq(b),
        CommandM::If(_, b) => keeps_buffer_seq(b),
        CommandM::IfElse(_, t, e) => keeps_buffer_seq(t) && keeps_buffer_seq(e),
        _ => true,
    }
}

pub open spec fn keeps_buffer_seq(s: Seq<CommandM>) -> bool
    decreases s,
{
    s.len() == 0 || (keeps_buffer_cmd(s[0]) && keeps_buffer_seq(s.subrange(1, s.len() as int)))
}

proof fn lemma_keeps_buffer_elem(s: Seq<CommandM>, k: int)
    requires
        keeps_buffer_seq(s),
        0 <= k < s.len(),
    ensures
        keeps_buffer_cmd(s[k]),
    decreases k,
{
    if k > 0 {
        lemma_keeps_buffer_elem(s.subrange(1, s.len() as int), k - 1);
    }
}

/// The models of the shown values, in order.
pub open spec fn outs_model(s: Seq<Value>) -> Seq<ValueM> {
    Seq::new(s.len(), |k: int| value_model(s[k]))
}

/// Whether any expression of the list consults the random source.
pub open spec fn list_has_rand(s: Seq<ExprM>) -> bool
    decreases s,
{
    s.len() > 0 && (has_rand(s[0]) || list_has_rand(s.subrange(1, s.len() as int)))
}

proof fn lemma_list_rand_elem(s: Seq<ExprM>, k: int)
    requires
        !list_has_rand(s),
        0 <= k < s.len(),
    ensures
        !has_rand(s[k]),
    decreases k,
{
    if k > 0 {
        lemma_list_rand_elem(s.subrange(1, s.len() as int), k - 1);
    }
}

/// The values of an expression list, left to right, stopping at the first
/// error.
pub open spec fn eval_list_spec(ms: Seq<ExprM>, env: Seq<(Seq<char>, ValueM)>) -> Result<
    Seq<ValueM>,
    LogoErr,
>
    decreases ms,
{
    if ms.len() == 0 {
        Ok(Seq::empty())
    } else {
        match eval_expr_spec(ms[0], env) {
            Err(er) => Err(er),
            Ok(v) => match eval_list_spec(ms.subrange(1, ms.len() as int), env) {
                Ok(rest) => Ok(seq![v] + rest),
                Err(er) => Err(er),
            },
        }
    }
}

/// The fresh scope of a call: parameter names bound to argument values.
pub open spec fn zip_scope(ps: Seq<Seq<char>>, vals: Seq<ValueM>) -> Seq<(Seq<char>, ValueM)> {
    Seq::new(ps.len(), |i: int| (ps[i], vals[i]))
}

/// The whole mutable state evaluation threads: the procedure table, the
/// turtle, and the shown values.
pub ghost struct StateM {
    pub table: Seq<(Seq<char>, Seq<Seq<char>>, Seq<CommandM>)>,
    pub image: ImageM,
    pub out: Seq<ValueM>,
}

/// The model of the state a set of executable values holds.
pub open spec fn state_of(functions: Procs, image: Image, out: Seq<Value>) -> StateM {
    StateM { table: functions.model(), image: img_model(image), out: outs_model(out) }
}

/// How one step of the specification evaluator ends: normally, with the
/// `Stop` signal or an error, or at a random source, past which nothing
/// further is claimed.
pub ghost enum RunM {
    Done(StateM),
    Fail(StateM, LogoErr),
    Rand,
}

/// The specification evaluator for one command: the counterpart of
/// [`eval_expr_spec`] at the command level.  It walks in lockstep with the
/// executable evaluator -- the same dispatch, the same first-failure
/// order, the same turtle arithmetic -- and yields `Rand` as soon as an
/// expression consults the random source.
pub open spec fn st_eval(
    c: CommandM,
    scope: Seq<(Seq<char>, ValueM)>,
    st: StateM,
    fuel: nat,
) -> RunM
    decreases fuel, cmdm_size(c), 0int, 0int,
{
    match c {
        CommandM::Forward(e) => if has_rand(e) {
            RunM::Rand
        } else {
            match eval_expr_spec(e, scope) {
                Err(er) => RunM::Fail(st, er),
                Ok(ValueM::Number(x)) => match im_forward(st.image, x) {
                    Ok(mi) => RunM::Done(StateM { image: mi, ..st }),
                    Err(er) => RunM::Fail(st, er),
                },
                Ok(_) => RunM::Fail(st, LogoErr::TypeMismatch),
            }
        },
        CommandM::Backward(e) => if has_rand(e) {
            RunM::Rand
        } else {
            match eval_expr_spec(e, scope) {
                Err(er) => RunM::Fail(st, er),
                Ok(ValueM::Number(x)) => match im_backward(st.image, x) {
                    Ok(mi) => RunM::Done(StateM { image: mi, ..st }),
                    Err(er) => RunM::Fail(st, er),
                },
                Ok(_) => RunM::Fail(st, LogoErr::TypeMismatch),
            }
        },
        CommandM::Right(e) => if has_rand(e) {
            RunM::Rand
        } else {
            match eval_expr_spec(e, scope) {
                Err(er) => RunM::Fail(st, er),
                Ok(ValueM::Number(x)) => match im_right(st.image, x) {
                    Ok(mi) => RunM::Done(StateM { image: mi, ..st }),
                    Err(er) => RunM::Fail(st, er),
                },
                Ok(_) => RunM::Fail(st, LogoErr::TypeMismatch),
            }
        },
        CommandM::Left(e) => if has_rand(e) {
            RunM::Rand
        } else {
            match eval_expr_spec(e, scope) {
                Err(er) => RunM::Fail(st, er),
                Ok(ValueM::Number(x)) => match im_left(st.image, x) {
                    Ok(mi) => RunM::Done(StateM { image: mi, ..st }),
                    Err(er) => RunM::Fail(st, er),
                },
                Ok(_) => RunM::Fail(st, LogoErr::TypeMismatch),
            }
        },
        CommandM::Show(e) => if has_rand(e) {
            RunM::Rand
        } else {
            match eval_expr_spec(e, scope) {
                Err(er) => RunM::Fail(st, er),
                Ok(v) => RunM::Done(StateM { out: st.out.push(v), ..st }),
            }
        },
        CommandM::Setcolor(e) => if has_rand(e) {
            RunM::Rand
        } else {
            match eval_expr_spec(e, scope) {
                Err(er) => RunM::Fail(st, er),
                Ok(ValueM::Color(cn)) => RunM::Done(
                    StateM { image: im_setcolor(st.image, cn), ..st },
                ),
                Ok(_) => RunM::Fail(st, LogoErr::TypeMismatch),
            }
        },
        CommandM::Repeat(e, b) => if has_rand(e) {
            RunM::Rand
        } else {
            match eval_expr_spec(e, scope) {
                Err(er) => RunM::Fail(st, er),
                Ok(ValueM::Number(x)) => st_eval_loop(q_floor_clamped(x.q()), b, scope, st, fuel),
                Ok(_) => RunM::Fail(st, LogoErr::TypeMismatch),
            }
        },
        CommandM::If(e, b) => if has_rand(e) {
            RunM::Rand
        } else {
            match eval_expr_spec(e, scope) {
                Err(er) => RunM::Fail(st, er),
                Ok(ValueM::Number(x)) => if x.num != 0 {
                    st_eval_cmds(b, scope, st, fuel)
                } else {
                    RunM::Done(st)
                },
                Ok(_) => RunM::Fail(st, LogoErr::TypeMismatch),
            }
        },
        CommandM::IfElse(e, t, el) => if has_rand(e) {
            RunM::Rand
        } else {
            match eval_expr_spec(e, scope) {
                Err(er) => RunM::Fail(st, er),
                Ok(ValueM::Number(x)) => if x.num != 0 {
                    st_eval_cmds(t, scope, st, fuel)
                } else {
                    st_eval_cmds(el, scope, st, fuel)
                },
                Ok(_) => RunM::Fail(st, LogoErr::TypeMismatch),
            }
        },
        CommandM::FunctionCall(name, args) => st_call(name, args, scope, st, fuel),
        CommandM::FunctionDeclaration(name, ps, b) => RunM::Done(
            StateM { table: st.table.push((name, ps, b)), ..st },
        ),
        CommandM::Clearscreen => RunM::Done(StateM { image: im_clear(st.image), ..st }),
        CommandM::Stop => RunM::Fail(st, LogoErr::Stop),
        CommandM::PenUp => RunM::Done(StateM { image: im_penup(st.image), ..st }),
        CommandM::PenDown => RunM::Done(StateM { image: im_pendown(st.image), ..st }),
        CommandM::ShowTurtle => RunM::Done(st),
        CommandM::HideTurtle => RunM::Done(st),
    }
}

/// The specification evaluator for a command list, in source order,
/// stopping at the first signal or error.
pub open spec fn st_eval_cmds(
    cs: Seq<CommandM>,
    scope: Seq<(Seq<char>, ValueM)>,
    st: StateM,
    fuel: nat,
) -> RunM
    decreases fuel, cmds_size(cs), 1int, 0int,
        when true
    via st_eval_cmds_decreases
{
    if cs.len() == 0 {
        RunM::Done(st)
    } else {
        match st_eval(cs[0], scope, st, fuel) {
            RunM::Done(st2) => st_eval_cmds(cs.subrange(1, cs.len() as int), scope, st2, fuel),
            other => other,
        }
    }
}

#[via_fn]
proof fn st_eval_cmds_decreases(
    cs: Seq<CommandM>,
    scope: Seq<(Seq<char>, ValueM)>,
    st: StateM,
    fuel: nat,
) {
    if cs.len() > 0 {
        lemma_cmds_size_elem(cs, 0);
        lemma_cmdm_size_pos(cs[0]);
    }
}

proof fn lemma_cmdm_size_pos(m: CommandM)
    ensures
        cmdm_size(m) >= 1,
{
    match m {
        CommandM::Repeat(_, b) => {},
        CommandM::If(_, b) => {},
        CommandM::IfElse(_, t, e) => {},
        _ => {},
    }
}

/// The specification evaluator for `count` walks of a repeat body.
pub open spec fn st_eval_loop(
    count: int,
    body: Seq<CommandM>,
    scope: Seq<(Seq<char>, ValueM)>,
    st: StateM,
    fuel: nat,
) -> RunM
    decreases fuel, cmds_size(body), 2int, count,
{
    if count <= 0 {
        RunM::Done(st)
    } else {
        match st_eval_cmds(body, scope, st, fuel) {
            RunM::Done(st2) => st_eval_loop(count - 1, body, scope, st2, fuel),
            other => other,
        }
    }
}

/// The specification evaluator for a procedure call: look the name up,
/// check the argument count and the recursion budget, evaluate the
/// arguments in the caller's scope, and walk the body one level deeper
/// under the fresh scope; the `Stop` signal is consumed at this boundary.
pub open spec fn st_call(
    name: Seq<char>,
    args: Seq<ExprM>,
    scope: Seq<(Seq<char>, ValueM)>,
    st: StateM,
    fuel: nat,
) -> RunM
    decreases fuel, 0int, 0int, 0int,
{
    match procs_lookup(st.table, name) {
        None => RunM::Fail(st, LogoErr::UndefinedProcedure),
        Some(pb) => if pb.0.len() != args.len() {
            RunM::Fail(st, LogoErr::ArityMismatch)
        } else if fuel == 0 {
            RunM::Fail(st, LogoErr::DepthExceeded)
        } else if list_has_rand(args) {
            RunM::Rand
        } else {
            match eval_list_spec(args, scope) {
                Err(er) => RunM::Fail(st, er),
                Ok(vals) => match st_eval_cmds(pb.1, zip_scope(pb.0, vals), st, (fuel - 1) as nat) {
                    RunM::Fail(st2, LogoErr::Stop) => RunM::Done(st2),
                    other => other,
                },
            }
        },
    }
}

proof fn lemma_prefix_trans<T>(a: Seq<T>, b: Seq<T>, c: Seq<T>)
    requires
        a.is_prefix_of(b),
        b.is_prefix_of(c),
    ensures
        a.is_prefix_of(c),
{
    assert(a =~= c.subrange(0, a.len() as int));
}

proof fn lemma_prefix_refl<T>(a: Seq<T>)
    ensures
        a.is_prefix_of(a),
{
    assert(a =~= a.subrange(0, a.len() as int));
}

proof fn lemma_prefix_push<T>(a: Seq<T>, x: T)
    ensures
        a.is_prefix_of(a.push(x)),
{
    assert(a =~= a.push(x).subrange(0, a.len() as int));
}

/// How many procedure calls may be nested before evaluation reports that
/// its recursion budget is exhausted.
pub const MAX_CALL_DEPTH: u32 = 1000;

/// Evaluate one command.
///
/// For a command whose expressions are free of random sources, the effect
/// is exactly one step of the specification evaluator [`st_eval`].
/// Always: the scope is untouched, the procedure table only grows, shown
/// values are only appended, and a command that cannot clear the screen
/// only appends to the drawing buffer.  A `repeat` whose random-free count
/// evaluates to a value with floor at most zero changes nothing.
#[verifier::spinoff_prover]
#[verifier::rlimit(100)]
fn eval(
    cmd: &Command,
    functions: &mut Procs,
    variables: &Env,
    image: &mut crate::turtle::Image,
    out: &mut Vec<Value>,
    fuel: u32,
) -> (r: Result<(), LogoErr>)
    requires
        old(image).wf(),
        variables.wf(),
    ensures
        final (image).wf(),
        old(functions).model().is_prefix_of(final (functions).model()),
        old(out)@.is_prefix_of(final (out)@),
        no_clear_cmd(command_model(*cmd)) ==> old(image).segments@.is_prefix_of(
            final (image).segments@,
        ),
        keeps_buffer_cmd(command_model(*cmd)) ==> final (image).segments@ == old(image).segments@,
        (command_model(*cmd) matches CommandM::Repeat(em, _) && !has_rand(em) && (eval_expr_spec(
            em,
            variables.model(),
        ) matches Ok(ValueM::Number(x)) && q_floor_clamped(x.q()) == 0)) ==> {
            &&& r is Ok
            &&& *final (image) == *old(image)
            &&& final (functions).model() == old(functions).model()
            &&& final (out)@ == old(out)@
        },
        command_model(*cmd) is Stop ==> {
            &&& r == Err::<(), LogoErr>(LogoErr::Stop)
            &&& *final (image) == *old(image)
            &&& final (functions).model() == old(functions).model()
            &&& final (out)@ == old(out)@
        },
        match st_eval(
            command_model(*cmd),
            variables.model(),
            state_of(*old(functions), *old(image), old(out)@),
            fuel as nat,
        ) {
            RunM::Done(st2) => r is Ok && state_of(*final (functions), *final (image), final (out)@)
                == st2,
            RunM::Fail(st2, er) => r == Err::<(), LogoErr>(er) && state_of(
                *final (functions),
                *final (image),
                final (out)@,
            ) == st2,
            RunM::Rand => true,
        },
    decreases fuel, cmdm_size(command_model(*cmd)), 0int,
{
    match cmd {
        Command::Forward(e) => {
            let v = eval_expr(e, variables)?;
            match v {
                Value::Number(x) => {
                    let ghost segs0 = image.segments@;
                    image.forward(x)?;
                    proof {
                        if image.segments@ != segs0 {
                            lemma_prefix_push(segs0, image.segments@.last());
                        }
                    }
                    Ok(())
                },
                Value::Color(_) => Err(LogoErr::TypeMismatch),
            }
        },
        Command::Backward(e) => {
            let v = eval_expr(e, variables)?;
            match v {
                Value::Number(x) => {
                    let ghost segs0 = image.segments@;
                    image.backward(x)?;
                    proof {
                        if image.segments@ != segs0 {
                            lemma_prefix_push(segs0, image.segments@.last());
                        }
                    }
                    Ok(())
                },
                Value::Color(_) => Err(LogoErr::TypeMismatch),
            }
        },
        Command::Right(e) => {
            let v = eval_expr(e, variables)?;
            match v {
                Value::Number(x) => {
                    image.right(x)?;
                    Ok(())
                },
                Value::Color(_) => Err(LogoErr::TypeMismatch),
            }
        },
        Command::Left(e) => {
            let v = eval_expr(e, variables)?;
            match v {
                Value::Number(x) => {
                    image.left(x)?;
                    Ok(())
                },
                Value::Color(_) => Err(LogoErr::TypeMismatch),
            }
        },
        Command::Show(e) => {
            let v = eval_expr(e, variables)?;
            let ghost out0 = out@;
            out.push(v);
            proof {
                lemma_prefix_push(out0, out@.last());
                assert(outs_model(out@) =~= outs_model(out0).push(value_model(v)));
            }
            Ok(())
        },
        Command::Repeat(e, body) => {
            let v = eval_expr(e, variables)?;
            match v {
                Value::Number(x) => {
                    let count = rat_floor_clamped(x);
                    eval_loop(count, body, functions, variables, image, out, fuel)
                },
                Value::Color(_) => Err(LogoErr::TypeMismatch),
            }
        },
        Command::If(e, body) => {
            let v = eval_expr(e, variables)?;
            match v {
                Value::Number(x) => {
                    let empty: VecDeque<Command> = VecDeque::new();
                    proof {
                        assert(vd_commands_model(empty) =~= Seq::<CommandM>::empty());
                    }
                    eval_ifelse(x, body, &empty, functions, variables, image, out, fuel)
                },
                Value::Color(_) => Err(LogoErr::TypeMismatch),
            }
        },
        Command::IfElse(e, tb, eb) => {
            let v = eval_expr(e, variables)?;
            match v {
                Value::Number(x) => eval_ifelse(x, tb, eb, functions, variables, image, out, fuel),
                Value::Color(_) => Err(LogoErr::TypeMismatch),
            }
        },
        Command::FunctionCall(name, args) => call_function(
            name,
            args,
            functions,
            variables,
            image,
            out,
            fuel,
        ),
        Command::FunctionDeclaration(name, params, body) => {
            let ghost procs0 = functions.model();
            let p = Proc {
                name: name.clone(),
                params: copy_strings(params),
                body: copy_commands(body),
            };
            proof {
                assert(proc_model(p) == (name@, names_model(params@), vd_commands_model(*body)));
            }
            functions.insert(p);
            proof {
                lemma_prefix_push(procs0, functions.model().last());
            }
            Ok(())
        },
        Command::Clearscreen => {
            image.clear();
            Ok(())
        },
        Command::Stop => Err(LogoErr::Stop),
        Command::Setcolor(e) => {
            let v = eval_expr(e, variables)?;
            match v {
                Value::Color(c) => {
                    image.setcolor(c);
                    Ok(())
                },
                Value::Number(_) => Err(LogoErr::TypeMismatch),
            }
        },
        Command::PenUp => {
            image.penup();
            Ok(())
        },
        Command::PenDown => {
            image.pendown();
            Ok(())
        },
        Command::ShowTurtle => Ok(()),
        Command::HideTurtle => Ok(()),
    }
}

/// Evaluate a command list in order, stopping at the first signal or
/// error.  The same framing holds as for [`eval`], over the whole list.
fn eval_cmds(
    cmds: &VecDeque<Command>,
    functions: &mut Procs,
    variables: &Env,
    image: &mut crate::turtle::Image,
    out: &mut Vec<Value>,
    fuel: u32,
) -> (r: Result<(), LogoErr>)
    requires
        old(image).wf(),
        variables.wf(),
    ensures
        final (image).wf(),
        old(functions).model().is_prefix_of(final (functions).model()),
        old(out)@.is_prefix_of(final (out)@),
        no_clear_seq(vd_commands_model(*cmds)) ==> old(image).segments@.is_prefix_of(
            final (image).segments@,
        ),
        keeps_buffer_seq(vd_commands_model(*cmds)) ==> final (image).segments@ == old(
            image,
        ).segments@,
        match st_eval_cmds(
            vd_commands_model(*cmds),
            variables.model(),
            state_of(*old(functions), *old(image), old(out)@),
            fuel as nat,
        ) {
            RunM::Done(st2) => r is Ok && state_of(*final (functions), *final (image), final (out)@)
                == st2,
            RunM::Fail(st2, er) => r == Err::<(), LogoErr>(er) && state_of(
                *final (functions),
                *final (image),
                final (out)@,
            ) == st2,
            RunM::Rand => true,
        },
    decreases fuel, cmds_size(vd_commands_model(*cmds)), 1int,
{
    let ghost csm = vd_commands_model(*cmds);
    let ghost scope = variables.model();
    let ghost full = st_eval_cmds(
        csm,
        scope,
        state_of(*old(functions), *old(image), old(out)@),
        fuel as nat,
    );
    let n = cmds.len();
    proof {
        assert(csm.subrange(0, n as int) =~= csm);
    }
    let mut k: usize = 0;
    while k < n
        invariant
            k <= n,
            n == cmds@.len(),
            csm == vd_commands_model(*cmds),
            scope == variables.model(),
            full == st_eval_cmds(
                csm,
                scope,
                state_of(*old(functions), *old(image), old(out)@),
                fuel as nat,
            ),
            variables.wf(),
            image.wf(),
            old(functions).model().is_prefix_of(functions.model()),
            old(out)@.is_prefix_of(out@),
            no_clear_seq(csm) ==> old(image).segments@.is_prefix_of(image.segments@),
            keeps_buffer_seq(csm) ==> image.segments@ == old(image).segments@,
            !(full is Rand) ==> full == st_eval_cmds(
                csm.subrange(k as int, n as int),
                scope,
                state_of(*functions, *image, out@),
                fuel as nat,
            ),
        decreases cmds@.len() - k,
    {
        proof {
            lemma_cmds_size_elem(csm, k as int);
            if keeps_buffer_seq(csm) {
                lemma_keeps_buffer_elem(csm, k as int);
            }
            if !(full is Rand) {
                assert(csm.subrange(k as int, n as int)[0] == csm[k as int]);
            }
        }
        let ghost procs1 = functions.model();
        let ghost out1 = out@;
        let ghost segs1 = image.segments@;
        let res = eval(&cmds[k], functions, variables, image, out, fuel);
        proof {
            lemma_prefix_trans(old(functions).model(), procs1, functions.model());
            lemma_prefix_trans(old(out)@, out1, out@);
            if no_clear_seq(csm) {
                lemma_no_clear_elem(csm, k as int);
                lemma_prefix_trans(old(image).segments@, segs1, image.segments@);
            }
            if !(full is Rand) {
                assert(csm.subrange(k as int, n as int).subrange(
                    1,
                    csm.subrange(k as int, n as int).len() as int,
                ) =~= csm.subrange((k + 1) as int, n as int));
            }
        }
        match res {
            Ok(()) => {},
            Err(e) => {
                return Err(e);
            },
        }
        k = k + 1;
    }
    proof {
        assert(csm.subrange(n as int, n as int) =~= Seq::<CommandM>::empty());
    }
    Ok(())
}

/// Run a body `count` times.  A count of zero changes nothing at all.
fn eval_loop(
    count: u64,
    commands: &VecDeque<Command>,
    functions: &mut Procs,
    variables: &Env,
    image: &mut crate::turtle::Image,
    out: &mut Vec<Value>,
    fuel: u32,
) -> (r: Result<(), LogoErr>)
    requires
        old(image).wf(),
        variables.wf(),
    ensures
        final (image).wf(),
        old(functions).model().is_prefix_of(final (functions).model()),
        old(out)@.is_prefix_of(final (out)@),
        no_clear_seq(vd_commands_model(*commands)) ==> old(image).segments@.is_prefix_of(
            final (image).segments@,
        ),
        keeps_buffer_seq(vd_commands_model(*commands)) ==> final (image).segments@ == old(
            image,
        ).segments@,
        count == 0 ==> (r is Ok && *final (image) == *old(image) && final (functions).model()
            == old(functions).model() && final (out)@ == old(out)@),
        match st_eval_loop(
            count as int,
            vd_commands_model(*commands),
            variables.model(),
            state_of(*old(functions), *old(image), old(out)@),
            fuel as nat,
        ) {
            RunM::Done(st2) => r is Ok && state_of(*final (functions), *final (image), final (out)@)
                == st2,
            RunM::Fail(st2, er) => r == Err::<(), LogoErr>(er) && state_of(
                *final (functions),
                *final (image),
                final (out)@,
            ) == st2,
            RunM::Rand => true,
        },
    decreases fuel, cmds_size(vd_commands_model(*commands)), 2int,
{
    let ghost csm = vd_commands_model(*commands);
    let ghost scope = variables.model();
    let ghost full = st_eval_loop(
        count as int,
        csm,
        scope,
        state_of(*old(functions), *old(image), old(out)@),
        fuel as nat,
    );
    if count == 0 {
        return Ok(());
    }
    let mut i: u64 = 0;
    while i < count
        invariant
            i <= count,
            csm == vd_commands_model(*commands),
            scope == variables.model(),
            full == st_eval_loop(
                count as int,
                csm,
                scope,
                state_of(*old(functions), *old(image), old(out)@),
                fuel as nat,
            ),
            variables.wf(),
            image.wf(),
            old(functions).model().is_prefix_of(functions.model()),
            old(out)@.is_prefix_of(out@),
            no_clear_seq(csm) ==> old(image).segments@.is_prefix_of(image.segments@),
            keeps_buffer_seq(csm) ==> image.segments@ == old(image).segments@,
            !(full is Rand) ==> full == st_eval_loop(
                count - i,
                csm,
                scope,
                state_of(*functions, *image, out@),
                fuel as nat,
            ),
        decreases count - i,
    {
        let ghost procs1 = functions.model();
        let ghost out1 = out@;
        let ghost segs1 = image.segments@;
        let res = eval_cmds(commands, functions, variables, image, out, fuel);
        proof {
            lemma_prefix_trans(old(functions).model(), procs1, functions.model());
            lemma_prefix_trans(old(out)@, out1, out@);
            if no_clear_seq(csm) {
                lemma_prefix_trans(old(image).segments@, segs1, image.segments@);
            }
        }
        match res {
            Ok(()) => {},
            Err(e) => {
                return Err(e);
            },
        }
        i = i + 1;
    }
    Ok(())
}

/// Run one of the two bodies: the first when the predicate is nonzero.
fn eval_ifelse(
    pred: Rat,
    ifcommands: &VecDeque<Command>,
    elsecommands: &VecDeque<Command>,
    functions: &mut Procs,
    variables: &Env,
    image: &mut crate::turtle::Image,
    out: &mut Vec<Value>,
    fuel: u32,
) -> (r: Result<(), LogoErr>)
    requires
        old(image).wf(),
        variables.wf(),
    ensures
        final (image).wf(),
        old(functions).model().is_prefix_of(final (functions).model()),
        old(out)@.is_prefix_of(final (out)@),
        (no_clear_seq(vd_commands_model(*ifcommands)) && no_clear_seq(
            vd_commands_model(*elsecommands),
        )) ==> old(image).segments@.is_prefix_of(final (image).segments@),
        (keeps_buffer_seq(vd_commands_model(*ifcommands)) && keeps_buffer_seq(
            vd_commands_model(*elsecommands),
        )) ==> final (image).segments@ == old(image).segments@,
        pred.num != 0 ==> match st_eval_cmds(
            vd_commands_model(*ifcommands),
            variables.model(),
            state_of(*old(functions), *old(image), old(out)@),
            fuel as nat,
        ) {
            RunM::Done(st2) => r is Ok && state_of(*final (functions), *final (image), final (out)@)
                == st2,
            RunM::Fail(st2, er) => r == Err::<(), LogoErr>(er) && state_of(
                *final (functions),
                *final (image),
                final (out)@,
            ) == st2,
            RunM::Rand => true,
        },
        pred.num == 0 ==> match st_eval_cmds(
            vd_commands_model(*elsecommands),
            variables.model(),
            state_of(*old(functions), *old(image), old(out)@),
            fuel as nat,
        ) {
            RunM::Done(st2) => r is Ok && state_of(*final (functions), *final (image), final (out)@)
                == st2,
            RunM::Fail(st2, er) => r == Err::<(), LogoErr>(er) && state_of(
                *final (functions),
                *final (image),
                final (out)@,
            ) == st2,
            RunM::Rand => true,
        },
    decreases fuel,
        cmds_size(vd_commands_model(*ifcommands)) + cmds_size(vd_commands_model(*elsecommands)),
        2int,
{
    if pred.num != 0 {
        eval_cmds(ifcommands, functions, variables, image, out, fuel)
    } else {
        eval_cmds(elsecommands, functions, variables, image, out, fuel)
    }
}

/// Call a declared procedure: evaluate the arguments in the caller's
/// scope, bind them to the parameters in a fresh scope, and run a copy of
/// the body one recursion level deeper.  The `Stop` signal is consumed
/// here and never escapes a call; an undeclared name or a wrong argument
/// count is reported before anything runs.
fn call_function(
    name: &String,
    arg_exprs: &Vec<Expr>,
    functions: &mut Procs,
    variables: &Env,
    image: &mut crate::turtle::Image,
    out: &mut Vec<Value>,
    fuel: u32,
) -> (r: Result<(), LogoErr>)
    requires
        old(image).wf(),
        variables.wf(),
    ensures
        final (image).wf(),
        old(functions).model().is_prefix_of(final (functions).model()),
        old(out)@.is_prefix_of(final (out)@),
        !(r == Err::<(), LogoErr>(LogoErr::Stop)),
        procs_lookup(old(functions).model(), name@) is None ==> r == Err::<(), LogoErr>(
            LogoErr::UndefinedProcedure,
        ),
        (procs_lookup(old(functions).model(), name@) matches Some(pb) && pb.0.len()
            != arg_exprs@.len()) ==> r == Err::<(), LogoErr>(LogoErr::ArityMismatch),
        r is Ok ==> (procs_lookup(old(functions).model(), name@) matches Some(pb) && pb.0.len()
            == arg_exprs@.len()),
        match st_call(
            name@,
            vec_exprs_model(*arg_exprs),
            variables.model(),
            state_of(*old(functions), *old(image), old(out)@),
            fuel as nat,
        ) {
            RunM::Done(st2) => r is Ok && state_of(*final (functions), *final (image), final (out)@)
                == st2,
            RunM::Fail(st2, er) => r == Err::<(), LogoErr>(er) && state_of(
                *final (functions),
                *final (image),
                final (out)@,
            ) == st2,
            RunM::Rand => true,
        },
    decreases fuel, 0int, 0int,
{
    let looked = functions.get_clone(name);
    match looked {
        None => Err(LogoErr::UndefinedProcedure),
        Some((params, body)) => {
            if params.len() != arg_exprs.len() {
                return Err(LogoErr::ArityMismatch);
            }
            if fuel == 0 {
                return Err(LogoErr::DepthExceeded);
            }
            let ghost argsm = vec_exprs_model(*arg_exprs);
            let ghost scope = variables.model();
            let ghost psm = names_model(params@);
            let n = arg_exprs.len();
            let mut local = Env::new();
            let ghost mut vals: Seq<ValueM> = Seq::empty();
            proof {
                assert(argsm.subrange(0, n as int) =~= argsm);
                assert(local.model() =~= zip_scope(psm.subrange(0, 0), vals));
            }
            let mut k: usize = 0;
            while k < n
                invariant
                    k <= n,
                    n == arg_exprs@.len(),
                    argsm == vec_exprs_model(*arg_exprs),
                    scope == variables.model(),
                    psm == names_model(params@),
                    params@.len() == arg_exprs@.len(),
                    local.wf(),
                    variables.wf(),
                    image.wf(),
                    *image == *old(image),
                    functions.model() == old(functions).model(),
                    out@ == old(out)@,
                    procs_lookup(old(functions).model(), name@) matches Some(pb) && pb.0.len()
                        == arg_exprs@.len(),
                    fuel >= 1,
                    vals.len() == k,
                    local.model() == zip_scope(psm.subrange(0, k as int), vals),
                    !list_has_rand(argsm) ==> match eval_list_spec(
                        argsm.subrange(k as int, n as int),
                        scope,
                    ) {
                        Ok(rest) => eval_list_spec(argsm, scope) == Ok::<Seq<ValueM>, LogoErr>(
                            vals + rest,
                        ),
                        Err(e) => eval_list_spec(argsm, scope) == Err::<Seq<ValueM>, LogoErr>(e),
                    },
                decreases arg_exprs@.len() - k,
            {
                proof {
                    if !list_has_rand(argsm) {
                        lemma_list_rand_elem(argsm, k as int);
                        assert(argsm.subrange(k as int, n as int)[0] == argsm[k as int]);
                        assert(argsm[k as int] == expr_model(arg_exprs@[k as int]));
                    }
                }
                let v = match eval_expr(&arg_exprs[k], variables) {
                    Ok(v) => v,
                    Err(e) => {
                        proof {
                            lemma_prefix_refl(functions.model());
                            lemma_prefix_refl(out@);
                            if !list_has_rand(argsm) {
                                assert(eval_list_spec(argsm.subrange(k as int, n as int), scope)
                                    == Err::<Seq<ValueM>, LogoErr>(e));
                            }
                        }
                        return Err(e);
                    },
                };
                local.bind(params[k].clone(), v);
                proof {
                    let vals0 = vals;
                    vals = vals.push(value_model(v));
                    assert(local.model() =~= zip_scope(psm.subrange(0, (k + 1) as int), vals));
                    if !list_has_rand(argsm) {
                        assert(argsm.subrange(k as int, n as int).subrange(
                            1,
                            argsm.subrange(k as int, n as int).len() as int,
                        ) =~= argsm.subrange((k + 1) as int, n as int));
                        match eval_list_spec(argsm.subrange((k + 1) as int, n as int), scope) {
                            Ok(rest) => {
                                assert(vals0 + (seq![value_model(v)] + rest) =~= vals + rest);
                            },
                            Err(_) => {},
                        }
                    }
                }
                k = k + 1;
            }
            proof {
                assert(argsm.subrange(n as int, n as int) =~= Seq::<ExprM>::empty());
                if !list_has_rand(argsm) {
                    assert(vals + Seq::<ValueM>::empty() =~= vals);
                }
                assert(psm.subrange(0, n as int) =~= psm);
                assert(zip_scope(psm.subrange(0, n as int), vals) =~= zip_scope(psm, vals));
            }
            let res = eval_cmds(&body, functions, &local, image, out, fuel - 1);
            match res {
                Ok(()) => Ok(()),
                Err(LogoErr::Stop) => Ok(()),
                Err(e) => Err(e),
            }
        },
    }
}

/// A `repeat` whose count floors to zero or below runs its body not at
/// all: the state comes back untouched, whatever the body holds.
pub proof fn lemma_repeat_nonpositive(
    count: int,
    body: Seq<CommandM>,
    scope: Seq<(Seq<char>, ValueM)>,
    st: StateM,
    fuel: nat,
)
    requires
        count <= 0,
    ensures
        st_eval_loop(count, body, scope, st, fuel) == RunM::Done(st),
{
}

/// Evaluate a program: each command in order, against the procedure table,
/// the scope of the current activation, the turtle, and the sink of shown
/// values.
///
/// For a program free of random sources the outcome is exactly that of
/// the specification evaluator [`st_eval_cmds`] under the library's
/// recursion budget: the final table, turtle and shown values are a
/// function of the inputs, and a failing program fails with the first
/// command's error, the rest unevaluated.  Always: the scope is untouched,
/// the table only grows, shown values are only appended, a program that
/// cannot clear the screen only appends to the drawing buffer, and one
/// that can neither draw nor clear leaves it untouched.  A `stop` at this
/// level ends the run with `Err(Stop)`, which the caller treats as a
/// clean end.
pub fn eval_all(
    ast: &VecDeque<Command>,
    functions: &mut Procs,
    variables: &Env,
    image: &mut crate::turtle::Image,
    out: &mut Vec<Value>,
) -> (r: Result<(), LogoErr>)
    requires
        old(image).wf(),
        variables.wf(),
    ensures
        final (image).wf(),
        old(functions).model().is_prefix_of(final (functions).model()),
        old(out)@.is_prefix_of(final (out)@),
        no_clear_seq(vd_commands_model(*ast)) ==> old(image).segments@.is_prefix_of(
            final (image).segments@,
        ),
        keeps_buffer_seq(vd_commands_model(*ast)) ==> final (image).segments@ == old(
            image,
        ).segments@,
        match st_eval_cmds(
            vd_commands_model(*ast),
            variables.model(),
            state_of(*old(functions), *old(image), old(out)@),
            MAX_CALL_DEPTH as nat,
        ) {
            RunM::Done(st2) => r is Ok && state_of(*final (functions), *final (image), final (out)@)
                == st2,
            RunM::Fail(st2, er) => r == Err::<(), LogoErr>(er) && state_of(
                *final (functions),
                *final (image),
                final (out)@,
            ) == st2,
            RunM::Rand => true,
        },
{
    eval_cmds(ast, functions, variables, image, out, MAX_CALL_DEPTH)
}

} // verus!
