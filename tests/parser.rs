use tiny_lisp::{
    eval, get_next_symbol, parse, parse_i64, tokenize, Envs, ErrorKind, EvalError, FloatOp, Kind,
    Object, ParseError, ParseErrorKind, Token, ROOT,
};

fn float_of(cs: &Vec<char>) -> Option<u64> {
    cs.iter().collect::<String>().parse::<f64>().ok().map(|f| f.to_bits())
}

fn arith(op: FloatOp, a: u64, b: u64) -> u64 {
    let (x, y) = (f64::from_bits(a), f64::from_bits(b));
    let r = match op {
        FloatOp::Add => x + y,
        FloatOp::Sub => x - y,
        FloatOp::Mul => x * y,
        FloatOp::Div => x / y,
    };
    r.to_bits()
}

fn chars(s: &str) -> Vec<char> {
    s.chars().collect()
}

fn lex(s: &str) -> Vec<Token> {
    tokenize(&chars(s), &float_of)
}

fn read(s: &str) -> Result<Object, ParseError> {
    parse(&lex(s))
}

fn run(envs: &mut Envs, s: &str) -> Result<Object, EvalError> {
    eval(read(s).unwrap(), ROOT, envs, &arith)
}

fn sym(s: &str) -> Object {
    Object::Symbol(s.to_string())
}

#[test]
fn tokenize_simple_expression() {
    assert_eq!(
        lex("(+ 2 3)"),
        vec![Token::Lparen, Token::Symbol("+".to_string()), Token::Integer(2), Token::Integer(3), Token::Rparen]
    );
}

#[test]
fn tokenize_numbers_and_dotted_operators() {
    assert_eq!(
        lex("(+. 1.5 -2)"),
        vec![
            Token::Lparen,
            Token::Symbol("+.".to_string()),
            Token::Float(1.5f64.to_bits()),
            Token::Integer(-2),
            Token::Rparen
        ]
    );
}

#[test]
fn tokenize_splits_operator_at_non_symbol_char() {
    assert_eq!(
        lex(">="),
        vec![Token::Symbol(">".to_string()), Token::Symbol("=".to_string())]
    );
}

#[test]
fn tokenize_out_of_range_integer_reads_as_float() {
    assert_eq!(lex("9223372036854775808"), vec![Token::Float(9223372036854775808f64.to_bits())]);
}

#[test]
fn next_symbol_end() {
    let cs = chars("abc_d.e f");
    assert_eq!(get_next_symbol(&cs, 0), 6);
    assert_eq!(get_next_symbol(&cs, 8), 8);
    let cs = chars("+x)");
    assert_eq!(get_next_symbol(&cs, 0), 1);
}

#[test]
fn integer_texts() {
    assert_eq!(parse_i64(&chars("123")), Some(123));
    assert_eq!(parse_i64(&chars("-5")), Some(-5));
    assert_eq!(parse_i64(&chars("+7")), Some(7));
    assert_eq!(parse_i64(&chars("9223372036854775807")), Some(i64::MAX));
    assert_eq!(parse_i64(&chars("9223372036854775808")), None);
    assert_eq!(parse_i64(&chars("-9223372036854775808")), Some(i64::MIN));
    assert_eq!(parse_i64(&chars("-9223372036854775809")), None);
    assert_eq!(parse_i64(&chars("1a")), None);
    assert_eq!(parse_i64(&chars("-")), None);
    assert_eq!(parse_i64(&chars("")), None);
}

#[test]
fn parse_nested_list() {
    assert_eq!(
        read("(define x (+ 1 2))"),
        Ok(Object::List(vec![
            sym("define"),
            sym("x"),
            Object::List(vec![sym("+"), Object::Integer(1), Object::Integer(2)])
        ]))
    );
}

#[test]
fn parse_booleans() {
    assert_eq!(
        read("(if true false)"),
        Ok(Object::List(vec![sym("if"), Object::Bool(true), Object::Bool(false)]))
    );
}

#[test]
fn parse_errors() {
    assert_eq!(read(""), Err(ParseError { kind: ParseErrorKind::ExpectedLparen }));
    assert_eq!(read("1"), Err(ParseError { kind: ParseErrorKind::ExpectedLparen }));
    assert_eq!(read("(+ 1"), Err(ParseError { kind: ParseErrorKind::InsufficientTokens }));
    assert_eq!(read("(+ (1 2)"), Err(ParseError { kind: ParseErrorKind::InsufficientTokens }));
}

#[test]
fn text_lambda_application() {
    let mut envs = Envs::new();
    assert_eq!(run(&mut envs, "((lambda (x) (+ x 1)) 5)"), Ok(Object::Integer(6)));
}

#[test]
fn text_arithmetic() {
    let mut envs = Envs::new();
    assert_eq!(run(&mut envs, "(+)"), Ok(Object::Void));
    assert_eq!(run(&mut envs, "(+ 5)"), Ok(Object::Integer(5)));
    assert_eq!(run(&mut envs, "(+ 2 3 4)"), Ok(Object::Integer(9)));
    assert_eq!(run(&mut envs, "(+. 1.5 2.5)"), Ok(Object::Float(4.0f64.to_bits())));
    assert_eq!(
        run(&mut envs, "(+ 1 1.0)"),
        Err(EvalError { kind: ErrorKind::IncompatibleType(Kind::Integer, Kind::Float) })
    );
    assert_eq!(run(&mut envs, "(/ 7 2)"), Ok(Object::Integer(3)));
    assert_eq!(run(&mut envs, "(/. 1.0 0.0)"), Ok(Object::Float(f64::INFINITY.to_bits())));
}

#[test]
fn text_session() {
    let mut envs = Envs::new();
    assert_eq!(run(&mut envs, "(define f (lambda (x) (+ x 1)))"), Ok(Object::Void));
    assert_eq!(run(&mut envs, "(f 41)"), Ok(Object::Integer(42)));
    assert_eq!(
        run(&mut envs, "(f 1 2)"),
        Err(EvalError { kind: ErrorKind::ArityMismatch(1, 2) })
    );
    assert_eq!(
        run(&mut envs, "(list (define y 1) 2 3)"),
        Ok(Object::List(vec![Object::Integer(2), Object::Integer(3)]))
    );
}
