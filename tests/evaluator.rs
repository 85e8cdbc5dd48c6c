use tiny_lisp::{eval, Envs, ErrorKind, EvalError, FloatOp, Kind, Object, ROOT};

fn arith(op: FloatOp, a: u64, b: u64) -> u64 {
    let (x, y) = (f64::from_bits(a), f64::from_bits(b));
    let r = match op {
        FloatOp::Add => x + y,
        FloatOp::Sub => x - y,
        FloatOp::Mul => x * y,
        FloatOp::Div => x / y,
    };
    r.to_bits()
}

fn num(n: i64) -> Object {
    Object::Integer(n)
}

fn float(x: f64) -> Object {
    Object::Float(x.to_bits())
}

fn sym(s: &str) -> Object {
    Object::Symbol(s.to_string())
}

fn list(items: Vec<Object>) -> Object {
    Object::List(items)
}

fn fail(kind: ErrorKind) -> Result<Object, EvalError> {
    Err(EvalError { kind })
}

fn run(envs: &mut Envs, e: Object) -> Result<Object, EvalError> {
    eval(e, ROOT, envs, &arith)
}

fn run_fresh(e: Object) -> Result<Object, EvalError> {
    let mut envs = Envs::new();
    run(&mut envs, e)
}

#[test]
fn atoms_evaluate_to_themselves() {
    assert_eq!(run_fresh(num(7)), Ok(num(7)));
    assert_eq!(run_fresh(Object::Bool(true)), Ok(Object::Bool(true)));
    assert_eq!(run_fresh(Object::Void), Ok(Object::Void));
    assert_eq!(run_fresh(float(2.5)), Ok(float(2.5)));
}

#[test]
fn lambda_literal_evaluates_to_void() {
    let lam = Object::Lambda(vec!["x".to_string()], vec![sym("x")]);
    assert_eq!(run_fresh(lam), Ok(Object::Void));
}

#[test]
fn resolve_finds_nearest_binding() {
    let mut envs = Envs::new();
    envs.define(ROOT, "x".to_string(), num(1));
    envs.define(ROOT, "y".to_string(), num(2));
    let child = envs.push_frame(ROOT, vec![("x".to_string(), num(10))]);
    assert_eq!(envs.resolve(child, &"x".to_string()), Some(&num(10)));
    assert_eq!(envs.resolve(child, &"y".to_string()), Some(&num(2)));
    assert_eq!(envs.resolve(ROOT, &"x".to_string()), Some(&num(1)));
    assert_eq!(envs.resolve(child, &"z".to_string()), None);
}

#[test]
fn define_overwrites_in_same_frame() {
    let mut envs = Envs::new();
    assert_eq!(run(&mut envs, list(vec![sym("define"), sym("a"), num(1)])), Ok(Object::Void));
    assert_eq!(run(&mut envs, list(vec![sym("define"), sym("a"), num(2)])), Ok(Object::Void));
    assert_eq!(run(&mut envs, sym("a")), Ok(num(2)));
    assert_eq!(envs.frames[0].defs.len(), 1);
}

#[test]
fn unknown_symbol_fails() {
    assert_eq!(run_fresh(sym("nope")), fail(ErrorKind::SymbolNotFound("nope".to_string())));
}

#[test]
fn define_in_call_frame_is_not_visible_to_caller() {
    let mut envs = Envs::new();
    // (define f (lambda () (define x 5)))
    let body = list(vec![sym("define"), sym("x"), num(5)]);
    let lam = list(vec![sym("lambda"), list(vec![]), body]);
    assert_eq!(run(&mut envs, list(vec![sym("define"), sym("f"), lam])), Ok(Object::Void));
    assert_eq!(run(&mut envs, list(vec![sym("f")])), Ok(Object::Void));
    assert_eq!(run(&mut envs, sym("x")), fail(ErrorKind::SymbolNotFound("x".to_string())));
    assert_eq!(envs.frames.len(), 1);
}

#[test]
fn if_false_skips_then_branch() {
    let mut envs = Envs::new();
    let e = list(vec![sym("if"), Object::Bool(false), list(vec![sym("define"), sym("z"), num(1)])]);
    assert_eq!(run(&mut envs, e), Ok(Object::Void));
    assert_eq!(run(&mut envs, sym("z")), fail(ErrorKind::SymbolNotFound("z".to_string())));
}

#[test]
fn if_true_takes_then_branch() {
    assert_eq!(run_fresh(list(vec![sym("if"), Object::Bool(true), num(5), num(6)])), Ok(num(5)));
    assert_eq!(run_fresh(list(vec![sym("if"), Object::Bool(true)])), Ok(Object::Void));
}

#[test]
fn if_errors() {
    assert_eq!(run_fresh(list(vec![sym("if"), num(1), num(2)])), fail(ErrorKind::ExpectedBoolean));
    assert_eq!(run_fresh(list(vec![sym("if")])), fail(ErrorKind::ExpectedExpression));
}

#[test]
fn arithmetic_folder() {
    assert_eq!(run_fresh(list(vec![sym("+")])), Ok(Object::Void));
    assert_eq!(run_fresh(list(vec![sym("+"), num(5)])), Ok(num(5)));
    assert_eq!(run_fresh(list(vec![sym("+"), num(2), num(3), num(4)])), Ok(num(9)));
    assert_eq!(run_fresh(list(vec![sym("+."), float(1.5), float(2.5)])), Ok(float(4.0)));
    assert_eq!(
        run_fresh(list(vec![sym("+"), num(1), float(1.0)])),
        fail(ErrorKind::IncompatibleType(Kind::Integer, Kind::Float))
    );
}

#[test]
fn subtraction_and_multiplication() {
    assert_eq!(run_fresh(list(vec![sym("-"), num(10), num(3), num(2)])), Ok(num(5)));
    assert_eq!(run_fresh(list(vec![sym("*"), num(2), num(3), num(4)])), Ok(num(24)));
    assert_eq!(run_fresh(list(vec![sym("-."), float(1.0), float(0.25)])), Ok(float(0.75)));
    assert_eq!(run_fresh(list(vec![sym("*."), float(1.5), float(2.0)])), Ok(float(3.0)));
}

#[test]
fn integer_operator_rejects_floats() {
    assert_eq!(
        run_fresh(list(vec![sym("+"), float(1.0), float(2.0)])),
        fail(ErrorKind::IncompatibleType(Kind::Integer, Kind::Float))
    );
    assert_eq!(
        run_fresh(list(vec![sym("+."), num(1), num(2)])),
        fail(ErrorKind::IncompatibleType(Kind::Float, Kind::Integer))
    );
}

#[test]
fn single_operand_is_returned_unchanged() {
    assert_eq!(run_fresh(list(vec![sym("+"), Object::Bool(true)])), Ok(Object::Bool(true)));
}

#[test]
fn division() {
    assert_eq!(run_fresh(list(vec![sym("/"), num(7), num(2)])), Ok(num(3)));
    assert_eq!(run_fresh(list(vec![sym("/"), num(-7), num(2)])), Ok(num(-3)));
    assert_eq!(run_fresh(list(vec![sym("/."), float(1.0), float(0.0)])), Ok(float(f64::INFINITY)));
}

#[test]
fn integer_faults() {
    assert_eq!(run_fresh(list(vec![sym("/"), num(1), num(0)])), fail(ErrorKind::DivisionByZero));
    assert_eq!(run_fresh(list(vec![sym("+"), num(i64::MAX), num(1)])), fail(ErrorKind::Overflow));
    assert_eq!(run_fresh(list(vec![sym("/"), num(i64::MIN), num(-1)])), fail(ErrorKind::Overflow));
}

#[test]
fn comparisons_on_booleans() {
    let t = || Object::Bool(true);
    let f = || Object::Bool(false);
    assert_eq!(run_fresh(list(vec![sym("="), t(), f()])), Ok(f()));
    assert_eq!(run_fresh(list(vec![sym("<"), f(), t()])), Ok(t()));
    assert_eq!(run_fresh(list(vec![sym(">"), t(), f()])), Ok(t()));
    assert_eq!(run_fresh(list(vec![sym(">="), f(), t()])), Ok(f()));
    assert_eq!(run_fresh(list(vec![sym("<="), f(), t()])), Ok(t()));
    assert_eq!(
        run_fresh(list(vec![sym("="), num(1), num(1)])),
        fail(ErrorKind::IncompatibleType(Kind::Bool, Kind::Integer))
    );
}

#[test]
fn immediate_lambda_application() {
    // ((lambda (x) (+ x 1)) 5)
    let lam = list(vec![
        sym("lambda"),
        list(vec![sym("x")]),
        list(vec![sym("+"), sym("x"), num(1)]),
    ]);
    let mut envs = Envs::new();
    assert_eq!(run(&mut envs, list(vec![lam, num(5)])), Ok(num(6)));
    assert_eq!(envs.frames.len(), 1);
}

#[test]
fn arity_mismatch() {
    let mut envs = Envs::new();
    let lam = list(vec![sym("lambda"), list(vec![sym("x")]), list(vec![sym("+"), sym("x")])]);
    run(&mut envs, list(vec![sym("define"), sym("f"), lam])).unwrap();
    assert_eq!(run(&mut envs, list(vec![sym("f"), num(1), num(2)])), fail(ErrorKind::ArityMismatch(1, 2)));
    assert_eq!(run(&mut envs, list(vec![sym("f")])), fail(ErrorKind::ArityMismatch(1, 0)));
    assert_eq!(run(&mut envs, list(vec![sym("f"), num(4)])), Ok(num(4)));
}

#[test]
fn list_drops_void() {
    let e = list(vec![sym("list"), list(vec![sym("define"), sym("y"), num(1)]), num(2), num(3)]);
    let mut envs = Envs::new();
    assert_eq!(run(&mut envs, e), Ok(list(vec![num(2), num(3)])));
    assert_eq!(run(&mut envs, sym("y")), Ok(num(1)));
}

#[test]
fn arguments_are_passed_unevaluated() {
    let mut envs = Envs::new();
    let lam = list(vec![sym("lambda"), list(vec![sym("x")]), list(vec![sym("+"), sym("x"), num(1)])]);
    run(&mut envs, list(vec![sym("define"), sym("g"), lam])).unwrap();
    assert_eq!(
        run(&mut envs, list(vec![sym("g"), list(vec![sym("+"), num(1), num(2)])])),
        fail(ErrorKind::IncompatibleType(Kind::Integer, Kind::List))
    );
}

#[test]
fn calls_see_the_callers_frame() {
    let mut envs = Envs::new();
    // (define h (lambda () (+ y 1)))
    let h = list(vec![sym("lambda"), list(vec![]), list(vec![sym("+"), sym("y"), num(1)])]);
    run(&mut envs, list(vec![sym("define"), sym("h"), h])).unwrap();
    // (define k (lambda (y) (h)))
    let k = list(vec![sym("lambda"), list(vec![sym("y")]), list(vec![sym("h")])]);
    run(&mut envs, list(vec![sym("define"), sym("k"), k])).unwrap();
    assert_eq!(run(&mut envs, list(vec![sym("k"), num(5)])), Ok(num(6)));
}

#[test]
fn special_form_errors() {
    assert_eq!(run_fresh(list(vec![])), fail(ErrorKind::EmptyExpression));
    assert_eq!(run_fresh(list(vec![sym("define"), num(1), num(2)])), fail(ErrorKind::ExpectedSymbol));
    assert_eq!(run_fresh(list(vec![sym("define"), sym("x")])), fail(ErrorKind::ExpectedExpression));
    assert_eq!(
        run_fresh(list(vec![sym("lambda"), sym("x"), list(vec![sym("x")])])),
        fail(ErrorKind::ExpectedParameterList)
    );
    assert_eq!(
        run_fresh(list(vec![sym("lambda"), list(vec![num(1)]), list(vec![sym("x")])])),
        fail(ErrorKind::ExpectedParameterList)
    );
    assert_eq!(
        run_fresh(list(vec![sym("lambda"), list(vec![sym("x")]), num(5)])),
        fail(ErrorKind::ExpectedBody)
    );
    assert_eq!(run_fresh(list(vec![num(1), num(2)])), fail(ErrorKind::ExpectedSymbolOrApplicable));
}

#[test]
fn lambda_form_builds_function() {
    let e = list(vec![sym("lambda"), list(vec![sym("a"), sym("b")]), list(vec![sym("a")])]);
    assert_eq!(
        run_fresh(e),
        Ok(Object::Lambda(vec!["a".to_string(), "b".to_string()], vec![sym("a")]))
    );
}

#[test]
fn boolean_head_passes_through() {
    let e = list(vec![list(vec![sym("="), Object::Bool(true), Object::Bool(true)]), num(1)]);
    assert_eq!(run_fresh(e), Ok(Object::Bool(true)));
}

#[test]
fn calling_a_non_function_fails() {
    let mut envs = Envs::new();
    run(&mut envs, list(vec![sym("define"), sym("v"), num(3)])).unwrap();
    assert_eq!(run(&mut envs, list(vec![sym("v")])), fail(ErrorKind::NotApplicable));
    assert_eq!(
        run(&mut envs, list(vec![sym("w")])),
        fail(ErrorKind::SymbolNotFound("w".to_string()))
    );
}

#[test]
fn unbounded_recursion_fails_with_depth_error() {
    let mut envs = Envs::new();
    let f = list(vec![sym("lambda"), list(vec![]), list(vec![sym("f")])]);
    run(&mut envs, list(vec![sym("define"), sym("f"), f])).unwrap();
    assert_eq!(run(&mut envs, list(vec![sym("f")])), fail(ErrorKind::DepthExceeded));
    assert_eq!(envs.frames.len(), 1);
}

#[test]
fn failed_evaluation_keeps_root_bindings() {
    let mut envs = Envs::new();
    run(&mut envs, list(vec![sym("define"), sym("a"), num(1)])).unwrap();
    assert!(run(&mut envs, list(vec![sym("+"), sym("a"), sym("missing")])).is_err());
    assert_eq!(run(&mut envs, sym("a")), Ok(num(1)));
}
