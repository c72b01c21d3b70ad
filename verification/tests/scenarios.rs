use logo::evaluator::{eval_all, Env, LogoErr, Procs, Value};
use logo::lexer::process;
use logo::parser::parse;
use logo::rat::Rat;
use logo::turtle::Image;

struct Session {
    image: Image,
    functions: Procs,
    out: Vec<Value>,
}

fn session(w: u32, h: u32) -> Session {
    Session { image: Image::new(w, h), functions: Procs::new(), out: Vec::new() }
}

fn run(s: &mut Session, src: &str) -> Result<(), LogoErr> {
    let mut tokens = process(src).unwrap();
    let ast = parse(&mut tokens).unwrap();
    assert!(tokens.is_empty(), "program left unconsumed tokens");
    eval_all(&ast, &mut s.functions, &Env::new(), &mut s.image, &mut s.out)
}

fn val(r: Rat) -> f64 {
    r.num as f64 / r.den as f64
}

fn seg_ends(s: &Session, i: usize) -> (f64, f64, f64, f64) {
    let seg = &s.image.segments[i];
    (val(seg.x1), val(seg.y1), val(seg.x2), val(seg.y2))
}

fn seg_len(s: &Session, i: usize) -> f64 {
    let (x1, y1, x2, y2) = seg_ends(s, i);
    ((x2 - x1).powi(2) + (y2 - y1).powi(2)).sqrt()
}

#[test]
fn forward_draws_one_segment_upward() {
    let mut s = session(200, 200);
    run(&mut s, "forward 100").unwrap();
    assert_eq!(s.image.segments.len(), 1);
    assert_eq!(seg_ends(&s, 0), (100.0, 100.0, 100.0, 0.0));
    assert_eq!(s.image.segments[0].color, "black");
    assert_eq!(val(s.image.segments[0].width), 1.0);
}

#[test]
fn repeat_four_draws_a_square() {
    let mut s = session(200, 200);
    run(&mut s, "repeat 4 [forward 50 right 90]").unwrap();
    assert_eq!(s.image.segments.len(), 4);
    assert_eq!(seg_ends(&s, 0), (100.0, 100.0, 100.0, 50.0));
    assert_eq!(seg_ends(&s, 1), (100.0, 50.0, 150.0, 50.0));
    assert_eq!(seg_ends(&s, 2), (150.0, 50.0, 150.0, 100.0));
    assert_eq!(seg_ends(&s, 3), (150.0, 100.0, 100.0, 100.0));
    for i in 0..4 {
        assert_eq!(s.image.segments[i].color, "black");
    }
}

#[test]
fn procedure_draws_two_squares() {
    let mut s = session(200, 200);
    run(&mut s, "to sq :s repeat 4 [forward :s right 90] end sq 30 sq 60").unwrap();
    assert_eq!(s.image.segments.len(), 8);
    for i in 0..4 {
        assert!((seg_len(&s, i) - 30.0).abs() < 1e-9);
    }
    for i in 4..8 {
        assert!((seg_len(&s, i) - 60.0).abs() < 1e-9);
    }
    // each square closes, so the second starts where the first ended
    let (x1, y1, _, _) = seg_ends(&s, 4);
    let (_, _, x2, y2) = seg_ends(&s, 3);
    assert_eq!((x1, y1), (x2, y2));
}

#[test]
fn show_evaluates_operator_chain() {
    let mut s = session(200, 200);
    run(&mut s, "show 3+5*8+9+9/8/1-2-6+5+3-4*2/3").unwrap();
    assert_eq!(s.out.len(), 1);
    match &s.out[0] {
        Value::Number(r) => {
            // exactly 1211/24 = 50.45833...
            assert_eq!(r.num as i128 * 24, 1211 * r.den as i128);
            assert!((val(*r) - 50.458333333).abs() < 1e-6);
        }
        other => panic!("expected a number, got {:?}", other),
    }
}

#[test]
fn ifelse_runs_exactly_one_branch() {
    let mut s = session(200, 200);
    run(&mut s, "ifelse 1<2 [show 1] [show 0]").unwrap();
    assert_eq!(s.out, vec![Value::Number(Rat::from_int(1))]);

    let mut s2 = session(200, 200);
    run(&mut s2, "ifelse 2<1 [show 1] [show 0]").unwrap();
    assert_eq!(s2.out, vec![Value::Number(Rat::from_int(0))]);
}

#[test]
fn stop_unwinds_to_the_procedure_boundary() {
    let mut s = session(200, 200);
    run(&mut s, "to t repeat 10 [forward 10 stop] end t forward 5").unwrap();
    assert_eq!(s.image.segments.len(), 2);
    assert!((seg_len(&s, 0) - 10.0).abs() < 1e-9);
    assert!((seg_len(&s, 1) - 5.0).abs() < 1e-9);
}

#[test]
fn repeat_zero_has_no_effect() {
    let mut s = session(200, 200);
    run(&mut s, "repeat 0 [forward 10 show 1]").unwrap();
    assert!(s.image.segments.is_empty());
    assert!(s.out.is_empty());
    assert_eq!(val(s.image.x), 100.0);
    assert_eq!(val(s.image.y), 100.0);
}

#[test]
fn repeat_negative_has_no_effect() {
    let mut s = session(200, 200);
    run(&mut s, "repeat 0-3 [forward 10]").unwrap();
    assert!(s.image.segments.is_empty());
}

#[test]
fn repeat_count_is_floored() {
    let mut s = session(200, 200);
    run(&mut s, "repeat 2.9 [forward 10]").unwrap();
    assert_eq!(s.image.segments.len(), 2);
}

#[test]
fn backward_equals_forward_of_negation() {
    let mut s = session(200, 200);
    run(&mut s, "backward 10").unwrap();
    let mut s2 = session(200, 200);
    run(&mut s2, "forward 0-10").unwrap();
    assert_eq!(seg_ends(&s, 0), seg_ends(&s2, 0));
    assert_eq!(val(s.image.y), 110.0);
}

#[test]
fn penup_moves_without_drawing() {
    let mut s = session(200, 200);
    run(&mut s, "penup forward 10 pendown forward 10").unwrap();
    assert_eq!(s.image.segments.len(), 1);
    assert_eq!(seg_ends(&s, 0), (100.0, 90.0, 100.0, 80.0));
}

#[test]
fn clearscreen_empties_the_buffer() {
    let mut s = session(200, 200);
    run(&mut s, "forward 10 clearscreen forward 5").unwrap();
    assert_eq!(s.image.segments.len(), 1);
    assert!((seg_len(&s, 0) - 5.0).abs() < 1e-9);
}

#[test]
fn setcolor_strokes_later_segments() {
    let mut s = session(200, 200);
    run(&mut s, "forward 5 setcolor red forward 5").unwrap();
    assert_eq!(s.image.segments[0].color, "black");
    assert_eq!(s.image.segments[1].color, "red");
}

#[test]
fn show_color_keyword() {
    let mut s = session(200, 200);
    run(&mut s, "show blue").unwrap();
    assert_eq!(s.out, vec![Value::Color("blue".to_string())]);
}

#[test]
fn declarations_persist_between_lines() {
    let mut s = session(200, 200);
    run(&mut s, "to f forward 7 end").unwrap();
    assert!(s.image.segments.is_empty());
    run(&mut s, "f").unwrap();
    assert_eq!(s.image.segments.len(), 1);
    assert!((seg_len(&s, 0) - 7.0).abs() < 1e-9);
}

#[test]
fn later_declaration_shadows_earlier() {
    let mut s = session(200, 200);
    run(&mut s, "to f forward 5 end to f forward 9 end f").unwrap();
    assert_eq!(s.image.segments.len(), 1);
    assert!((seg_len(&s, 0) - 9.0).abs() < 1e-9);
}

#[test]
fn star_segments_have_equal_length() {
    let mut s = session(400, 400);
    run(&mut s, "repeat 5 [fd 100 rt 144]").unwrap();
    assert_eq!(s.image.segments.len(), 5);
    for i in 0..5 {
        assert!((seg_len(&s, i) - 100.0).abs() < 1e-5);
    }
    // the star closes up to the trigonometric approximation
    let (x0, y0, _, _) = seg_ends(&s, 0);
    let (_, _, x4, y4) = seg_ends(&s, 4);
    assert!((x0 - x4).abs() < 1e-4 && (y0 - y4).abs() < 1e-4);
}

#[test]
fn random_value_is_within_bound() {
    let mut s = session(200, 200);
    run(&mut s, "show random 5").unwrap();
    match &s.out[0] {
        Value::Number(r) => {
            let v = val(*r);
            assert!(v >= 0.0 && v < 5.0 && v.fract() == 0.0);
        }
        other => panic!("expected a number, got {:?}", other),
    }
}

#[test]
fn pick_draws_one_of_the_elements() {
    let mut s = session(200, 200);
    run(&mut s, "show pick [1 2]").unwrap();
    let one = Value::Number(Rat::from_int(1));
    let two = Value::Number(Rat::from_int(2));
    assert!(s.out[0] == one || s.out[0] == two);
}

#[test]
fn uppercase_to_end_declare_a_procedure() {
    let mut s = session(200, 200);
    run(&mut s, "TO f forward 4 END f").unwrap();
    assert_eq!(s.image.segments.len(), 1);
}

#[test]
fn reserved_words_are_accepted_and_do_nothing() {
    let mut s = session(200, 200);
    run(&mut s, "wait setturtle showturtle hideturtle forward 3").unwrap();
    assert_eq!(s.image.segments.len(), 1);
}

#[test]
fn stop_at_top_level_skips_the_rest() {
    let mut s = session(200, 200);
    let r = run(&mut s, "forward 5 stop forward 5");
    assert_eq!(r, Err(LogoErr::Stop));
    assert_eq!(s.image.segments.len(), 1);
}

#[test]
fn division_by_zero_is_fatal() {
    let mut s = session(200, 200);
    assert_eq!(run(&mut s, "show 1/0"), Err(LogoErr::DivisionByZero));
}

#[test]
fn undefined_procedure_is_fatal() {
    let mut s = session(200, 200);
    assert_eq!(run(&mut s, "foo 1"), Err(LogoErr::UndefinedProcedure));
}

#[test]
fn wrong_arity_is_fatal() {
    let mut s = session(200, 200);
    assert_eq!(
        run(&mut s, "to f :x forward :x end f 1 2"),
        Err(LogoErr::ArityMismatch)
    );
}

#[test]
fn undefined_variable_is_fatal() {
    let mut s = session(200, 200);
    assert_eq!(run(&mut s, "show :x"), Err(LogoErr::UndefinedVariable));
}

#[test]
fn arithmetic_on_a_color_is_fatal() {
    let mut s = session(200, 200);
    assert_eq!(run(&mut s, "show red+1"), Err(LogoErr::TypeMismatch));
}

#[test]
fn setcolor_of_a_number_is_fatal() {
    let mut s = session(200, 200);
    assert_eq!(run(&mut s, "setcolor 3"), Err(LogoErr::TypeMismatch));
}

#[test]
fn pick_of_nothing_is_fatal() {
    let mut s = session(200, 200);
    assert_eq!(run(&mut s, "show pick [ ]"), Err(LogoErr::EmptyPick));
}

#[test]
fn random_below_one_is_fatal() {
    let mut s = session(200, 200);
    assert_eq!(run(&mut s, "show random 0"), Err(LogoErr::BadRandomBound));
}

#[test]
fn oversized_arithmetic_is_fatal() {
    let mut s = session(200, 200);
    assert_eq!(
        run(&mut s, "show 999999999999999999*999999999999999999"),
        Err(LogoErr::Overflow)
    );
}

#[test]
fn unbounded_recursion_exhausts_the_budget() {
    let mut s = session(200, 200);
    assert_eq!(run(&mut s, "to f f end f"), Err(LogoErr::DepthExceeded));
}

#[test]
fn scope_is_confined_to_the_call() {
    let mut s = session(200, 200);
    // :x is bound inside f only; the later top-level use is fatal
    run(&mut s, "to f :x show :x end f 3").unwrap();
    assert_eq!(s.out, vec![Value::Number(Rat::from_int(3))]);
    assert_eq!(run(&mut s, "show :x"), Err(LogoErr::UndefinedVariable));
}

#[test]
fn variables_reach_only_their_own_procedure() {
    let mut s = session(200, 200);
    // g does not see f's parameter
    let r = run(&mut s, "to g show :x end to f :x g end f 1");
    assert_eq!(r, Err(LogoErr::UndefinedVariable));
}
