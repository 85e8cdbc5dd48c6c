use vstd::prelude::*;
use crate::env::{defs_map, EnvType, Envs};
use crate::semantics::{
    abs, bind, bool_combine, combine, float_op_of, int_combine, kind_of, op_of, operand_kind, trunc_div, Fault,
    FloatFn, FloatOp, Kind, Op, ev, ev_apply, ev_call, ev_collect, ev_define, ev_fold, ev_head, ev_if,
    ev_list, lambda_spec, all_symbols, symbol_names,
};
use crate::value::{
    duplicate_objects, lemma_objects_view, objects_view, strings_view, Object, Val,
};

verus! {

/// What went wrong in a failed evaluation.
#[derive(Debug, PartialEq)]
pub enum ErrorKind {
    SymbolNotFound(String),
    ExpectedSymbol,
    ExpectedExpression,
    ExpectedBoolean,
    ExpectedParameterList,
    ExpectedBody,
    ExpectedSymbolOrApplicable,
    NotApplicable,
    /// The number of parameters, then the number of arguments.
    ArityMismatch(usize, usize),
    /// The kind that the operator combines, then the kind it was given.
    IncompatibleType(Kind, Kind),
    EmptyExpression,
    /// An integer result that does not fit in 64 bits.
    Overflow,
    DivisionByZero,
    /// Evaluation nested deeper than its budget allows.
    DepthExceeded,
}

/// A failed evaluation.
#[derive(Debug, PartialEq)]
pub struct EvalError {
    pub kind: ErrorKind,
}

impl EvalError {
    pub open spec fn view(&self) -> Fault {
        self.kind@
    }

    pub fn new(kind: ErrorKind) -> (r: EvalError)
        ensures
            r.kind == kind,
    {
        EvalError { kind }
    }
}

impl ErrorKind {
    pub open spec fn view(&self) -> Fault {
        match self {
            ErrorKind::SymbolNotFound(s) => Fault::SymbolNotFound(s@),
            ErrorKind::ExpectedSymbol => Fault::ExpectedSymbol,
            ErrorKind::ExpectedExpression => Fault::ExpectedExpression,
            ErrorKind::ExpectedBoolean => Fault::ExpectedBoolean,
            ErrorKind::ExpectedParameterList => Fault::ExpectedParameterList,
            ErrorKind::ExpectedBody => Fault::ExpectedBody,
            ErrorKind::ExpectedSymbolOrApplicable => Fault::ExpectedSymbolOrApplicable,
            ErrorKind::NotApplicable => Fault::NotApplicable,
            ErrorKind::ArityMismatch(n, k) => Fault::ArityMismatch(*n as nat, *k as nat),
            ErrorKind::IncompatibleType(a, b) => Fault::IncompatibleType(*a, *b),
            ErrorKind::EmptyExpression => Fault::EmptyExpression,
            ErrorKind::Overflow => Fault::Overflow,
            ErrorKind::DivisionByZero => Fault::DivisionByZero,
            ErrorKind::DepthExceeded => Fault::DepthExceeded,
        }
    }
}

pub open spec fn result_view(r: Result<Object, EvalError>) -> Result<Val, Fault> {
    match r {
        Ok(o) => Ok(o@),
        Err(e) => Err(e@),
    }
}

/// The caller's float arithmetic can be called on any operands and gives one
/// result for each.
pub open spec fn arith_ok<F: Fn(FloatOp, u64, u64) -> u64>(f: F) -> bool {
    &&& forall|op: FloatOp, a: u64, b: u64| #[trigger] f.requires((op, a, b))
    &&& forall|op: FloatOp, a: u64, b: u64, r1: u64, r2: u64|
        #[trigger] f.ensures((op, a, b), r1) && #[trigger] f.ensures((op, a, b), r2) ==> r1 == r2
}

/// The float arithmetic that a closure computes.
pub open spec fn float_fn<F: Fn(FloatOp, u64, u64) -> u64>(f: F) -> FloatFn {
    |op: FloatOp, a: u64, b: u64| choose|r: u64| f.ensures((op, a, b), r)
}

/// How many evaluations may nest in one call of `eval`.
pub const MAX_DEPTH: u64 = 256;

/// Whether `s` holds exactly the characters of `w`.
fn is_word(s: &String, w: &str) -> (r: bool)
    ensures
        r == (s@ == w@),
{
    let t = w.to_owned();
    *s == t
}

/// The operator that a symbol names, if any.
pub fn op_of_symbol(s: &String) -> (r: Option<Op>)
    ensures
        r == op_of(s@),
{
    if is_word(s, "+") {
        Some(Op::Add)
    } else if is_word(s, "-") {
        Some(Op::Sub)
    } else if is_word(s, "*") {
        Some(Op::Mul)
    } else if is_word(s, "/") {
        Some(Op::Div)
    } else if is_word(s, "+.") {
        Some(Op::FloatAdd)
    } else if is_word(s, "-.") {
        Some(Op::FloatSub)
    } else if is_word(s, "*.") {
        Some(Op::FloatMul)
    } else if is_word(s, "/.") {
        Some(Op::FloatDiv)
    } else if is_word(s, "=") {
        Some(Op::Eq)
    } else if is_word(s, ">=") {
        Some(Op::Ge)
    } else if is_word(s, "<=") {
        Some(Op::Le)
    } else if is_word(s, "<") {
        Some(Op::Lt)
    } else if is_word(s, ">") {
        Some(Op::Gt)
    } else {
        None
    }
}

impl Object {
    /// The kind of this value.
    pub fn kind(&self) -> (r: Kind)
        ensures
            r == kind_of(self@),
    {
        match self {
            Object::Integer(_) => Kind::Integer,
            Object::Bool(_) => Kind::Bool,
            Object::Float(_) => Kind::Float,
            Object::Void => Kind::Void,
            Object::Symbol(_) => Kind::Symbol,
            Object::List(_) => Kind::List,
            Object::Lambda(_, _) => Kind::Lambda,
        }
    }
}

fn operand_kind_of(op: Op) -> (r: Kind)
    ensures
        r == operand_kind(op),
{
    match op {
        Op::Add | Op::Sub | Op::Mul | Op::Div => Kind::Integer,
        Op::FloatAdd | Op::FloatSub | Op::FloatMul | Op::FloatDiv => Kind::Float,
        _ => Kind::Bool,
    }
}

proof fn lemma_checked_div(x: i64, y: i64)
    requires
        y != 0,
    ensures
        x.checked_div(y) == (if i64::MIN <= trunc_div(x as int, y as int) <= i64::MAX {
            Some(trunc_div(x as int, y as int) as i64)
        } else {
            None
        }),
{
    if x == 0 {
        assert(0int / abs(y as int) == 0) by (nonlinear_arith)
            requires
                abs(y as int) > 0,
        ;
    }
}

fn int_combine_exec(op: Op, x: i64, y: i64) -> (r: Result<Object, EvalError>)
    requires
        operand_kind(op) == Kind::Integer,
    ensures
        result_view(r) == int_combine(op, x, y),
{
    let c = match op {
        Op::Add => x.checked_add(y),
        Op::Sub => x.checked_sub(y),
        Op::Mul => x.checked_mul(y),
        _ => {
            if y == 0 {
                return Err(EvalError::new(ErrorKind::DivisionByZero));
            }
            proof {
                lemma_checked_div(x, y);
            }
            x.checked_div(y)
        },
    };
    match c {
        Some(n) => Ok(Object::Integer(n)),
        None => Err(EvalError::new(ErrorKind::Overflow)),
    }
}

fn float_op_exec(op: Op) -> (r: FloatOp)
    ensures
        r == float_op_of(op),
{
    match op {
        Op::FloatAdd => FloatOp::Add,
        Op::FloatSub => FloatOp::Sub,
        Op::FloatMul => FloatOp::Mul,
        _ => FloatOp::Div,
    }
}

fn bool_combine_exec(op: Op, a: bool, b: bool) -> (r: bool)
    ensures
        r == bool_combine(op, a, b),
{
    match op {
        Op::Eq => a == b,
        Op::Ge => a || !b,
        Op::Le => !a || b,
        Op::Lt => !a && b,
        _ => a && !b,
    }
}

/// Combines the accumulator `a` with the next operand `b` under `op`.
pub fn combine_values<F: Fn(FloatOp, u64, u64) -> u64>(op: Op, a: &Object, b: &Object, arith: &F) -> (r: Result<Object, EvalError>)
    requires
        arith_ok(*arith),
    ensures
        result_view(r) == combine(float_fn(*arith), op, a@, b@),
{
    let k = operand_kind_of(op);
    let ka = a.kind();
    if ka != k {
        return Err(EvalError::new(ErrorKind::IncompatibleType(k, ka)));
    }
    let kb = b.kind();
    if kb != k {
        return Err(EvalError::new(ErrorKind::IncompatibleType(k, kb)));
    }
    match (a, b) {
        (Object::Integer(x), Object::Integer(y)) => int_combine_exec(op, *x, *y),
        (Object::Float(x), Object::Float(y)) => {
            let fop = float_op_exec(op);
            let c = arith(fop, *x, *y);
            proof {
                let w = choose|w: u64| arith.ensures((fop, *x, *y), w);
                assert(arith.ensures((fop, *x, *y), w));
                assert(float_fn(*arith)(fop, *x, *y) == w);
            }
            Ok(Object::Float(c))
        },
        (Object::Bool(x), Object::Bool(y)) => Ok(Object::Bool(bool_combine_exec(op, *x, *y))),
        _ => Err(EvalError::new(ErrorKind::IncompatibleType(k, ka))),
    }
}

/// Evaluates `obj` in frame `env`, allowing `fuel` nested evaluations.
pub fn eval_depth<F: Fn(FloatOp, u64, u64) -> u64>(
    obj: &Object,
    env: EnvType,
    envs: &mut Envs,
    arith: &F,
    fuel: u64,
) -> (r: Result<Object, EvalError>)
    requires
        old(envs).wf(),
        env < old(envs)@.len(),
        arith_ok(*arith),
    ensures
        final(envs).wf(),
        final(envs)@.len() == old(envs)@.len(),
        (result_view(r), final(envs)@) == ev(float_fn(*arith), fuel as nat, obj@, old(envs)@, env as int),
    decreases fuel, 0nat, 0int,
{
    if fuel == 0 {
        return Err(EvalError::new(ErrorKind::DepthExceeded));
    }
    match obj {
        Object::Lambda(_, _) => Ok(Object::Void),
        Object::Symbol(n) => match envs.resolve(env, n) {
            Some(v) => Ok(v.duplicate()),
            None => Err(EvalError::new(ErrorKind::SymbolNotFound(n.clone()))),
        },
        Object::List(items) => eval_list(items, env, envs, arith, fuel - 1),
        Object::Integer(n) => Ok(Object::Integer(*n)),
        Object::Bool(b) => Ok(Object::Bool(*b)),
        Object::Float(f) => Ok(Object::Float(*f)),
        Object::Void => Ok(Object::Void),
    }
}

/// Evaluates the list expression `items`: a special form, an operator, or a
/// call.
fn eval_list<F: Fn(FloatOp, u64, u64) -> u64>(
    items: &Vec<Object>,
    env: EnvType,
    envs: &mut Envs,
    arith: &F,
    fuel: u64,
) -> (r: Result<Object, EvalError>)
    requires
        old(envs).wf(),
        env < old(envs)@.len(),
        arith_ok(*arith),
    ensures
        final(envs).wf(),
        final(envs)@.len() == old(envs)@.len(),
        (result_view(r), final(envs)@) == ev_list(
            float_fn(*arith),
            fuel as nat,
            objects_view(items@),
            old(envs)@,
            env as int,
        ),
    decreases fuel, 4nat, 0int,
{
    proof {
        lemma_objects_view(items@);
    }
    if items.len() == 0 {
        return Err(EvalError::new(ErrorKind::EmptyExpression));
    }
    match &items[0] {
        Object::Symbol(s) => {
            match op_of_symbol(s) {
                Some(op) => {
                    return eval_binary_op(op, items, env, envs, arith, fuel);
                },
                None => {},
            }
            if is_word(s, "if") {
                eval_if(items, env, envs, arith, fuel)
            } else if is_word(s, "define") {
                eval_define(items, env, envs, arith, fuel)
            } else if is_word(s, "lambda") {
                eval_lambda(items)
            } else if is_word(s, "list") {
                eval_collect(items, env, envs, arith, fuel)
            } else {
                eval_function_call(s, items, env, envs, arith, fuel)
            }
        },
        _ => eval_head(items, env, envs, arith, fuel),
    }
}

/// Folds the operands `items[1..]` under `op`, left to right.
fn eval_binary_op<F: Fn(FloatOp, u64, u64) -> u64>(
    op: Op,
    items: &Vec<Object>,
    env: EnvType,
    envs: &mut Envs,
    arith: &F,
    fuel: u64,
) -> (r: Result<Object, EvalError>)
    requires
        old(envs).wf(),
        env < old(envs)@.len(),
        arith_ok(*arith),
        items@.len() >= 1,
    ensures
        final(envs).wf(),
        final(envs)@.len() == old(envs)@.len(),
        (result_view(r), final(envs)@) == ev_fold(
            float_fn(*arith),
            fuel as nat,
            op,
            objects_view(items@).drop_first(),
            0,
            None,
            old(envs)@,
            env as int,
        ),
    decreases fuel, 1nat, 0int,
{
    let ghost fl = float_fn(*arith);
    let ghost rest = objects_view(items@).drop_first();
    proof {
        lemma_objects_view(items@);
    }
    let mut acc: Option<Object> = None;
    let mut i: usize = 1;
    while i < items.len()
        invariant
            1 <= i <= items.len(),
            envs.wf(),
            env < envs@.len(),
            envs@.len() == old(envs)@.len(),
            arith_ok(*arith),
            fl == float_fn(*arith),
            rest == objects_view(items@).drop_first(),
            rest.len() == items@.len() - 1,
            forall|j: int| 0 <= j < rest.len() ==> rest[j] == #[trigger] items@[j + 1]@,
            ev_fold(fl, fuel as nat, op, rest, 0, None, old(envs)@, env as int) == ev_fold(
                fl,
                fuel as nat,
                op,
                rest,
                i - 1,
                match acc {
                    Some(a) => Some(a@),
                    None => None,
                },
                envs@,
                env as int,
            ),
        decreases items.len() - i,
    {
        assert(rest[i - 1] == items@[i as int]@);
        let v = match eval_depth(&items[i], env, envs, arith, fuel) {
            Ok(v) => v,
            Err(e) => {
                return Err(e);
            },
        };
        let next = match acc {
            None => v,
            Some(a) => match combine_values(op, &a, &v, arith) {
                Ok(c) => c,
                Err(e) => {
                    return Err(e);
                },
            },
        };
        acc = Some(next);
        i += 1;
    }
    match acc {
        Some(a) => Ok(a),
        None => Ok(Object::Void),
    }
}

/// Evaluates `items[1..]` in order and collects every result that is not
/// `Void` into a list.
fn eval_collect<F: Fn(FloatOp, u64, u64) -> u64>(
    items: &Vec<Object>,
    env: EnvType,
    envs: &mut Envs,
    arith: &F,
    fuel: u64,
) -> (r: Result<Object, EvalError>)
    requires
        old(envs).wf(),
        env < old(envs)@.len(),
        arith_ok(*arith),
        items@.len() >= 1,
    ensures
        final(envs).wf(),
        final(envs)@.len() == old(envs)@.len(),
        (result_view(r), final(envs)@) == ev_collect(
            float_fn(*arith),
            fuel as nat,
            objects_view(items@).drop_first(),
            0,
            Seq::empty(),
            old(envs)@,
            env as int,
        ),
    decreases fuel, 1nat, 0int,
{
    let ghost fl = float_fn(*arith);
    let ghost rest = objects_view(items@).drop_first();
    proof {
        lemma_objects_view(items@);
        assert(objects_view(Seq::<Object>::empty()) == Seq::<Val>::empty());
    }
    let mut acc: Vec<Object> = Vec::new();
    let mut i: usize = 1;
    while i < items.len()
        invariant
            1 <= i <= items.len(),
            envs.wf(),
            env < envs@.len(),
            envs@.len() == old(envs)@.len(),
            arith_ok(*arith),
            fl == float_fn(*arith),
            rest == objects_view(items@).drop_first(),
            rest.len() == items@.len() - 1,
            forall|j: int| 0 <= j < rest.len() ==> rest[j] == #[trigger] items@[j + 1]@,
            ev_collect(fl, fuel as nat, rest, 0, Seq::empty(), old(envs)@, env as int) == ev_collect(
                fl,
                fuel as nat,
                rest,
                i - 1,
                objects_view(acc@),
                envs@,
                env as int,
            ),
        decreases items.len() - i,
    {
        assert(rest[i - 1] == items@[i as int]@);
        let v = match eval_depth(&items[i], env, envs, arith, fuel) {
            Ok(v) => v,
            Err(e) => {
                return Err(e);
            },
        };
        match v {
            Object::Void => {},
            _ => {
                let ghost prev = acc@;
                acc.push(v);
                assert(acc@.drop_last() == prev);
            },
        }
        i += 1;
    }
    Ok(Object::List(acc))
}

/// The `if` form: `items[1]` is the condition, `items[2]` the branch taken
/// when it is true.
fn eval_if<F: Fn(FloatOp, u64, u64) -> u64>(
    items: &Vec<Object>,
    env: EnvType,
    envs: &mut Envs,
    arith: &F,
    fuel: u64,
) -> (r: Result<Object, EvalError>)
    requires
        old(envs).wf(),
        env < old(envs)@.len(),
        arith_ok(*arith),
        items@.len() >= 1,
    ensures
        final(envs).wf(),
        final(envs)@.len() == old(envs)@.len(),
        (result_view(r), final(envs)@) == ev_if(
            float_fn(*arith),
            fuel as nat,
            objects_view(items@).drop_first(),
            old(envs)@,
            env as int,
        ),
    decreases fuel, 2nat, 0int,
{
    proof {
        lemma_objects_view(items@);
    }
    if items.len() < 2 {
        return Err(EvalError::new(ErrorKind::ExpectedExpression));
    }
    match eval_depth(&items[1], env, envs, arith, fuel) {
        Err(e) => Err(e),
        Ok(Object::Bool(true)) => {
            if items.len() < 3 {
                Ok(Object::Void)
            } else {
                eval_depth(&items[2], env, envs, arith, fuel)
            }
        },
        Ok(Object::Bool(false)) => Ok(Object::Void),
        Ok(_) => Err(EvalError::new(ErrorKind::ExpectedBoolean)),
    }
}

/// The `define` form: binds the symbol `items[1]` to the value of `items[2]`
/// in frame `env`.
fn eval_define<F: Fn(FloatOp, u64, u64) -> u64>(
    items: &Vec<Object>,
    env: EnvType,
    envs: &mut Envs,
    arith: &F,
    fuel: u64,
) -> (r: Result<Object, EvalError>)
    requires
        old(envs).wf(),
        env < old(envs)@.len(),
        arith_ok(*arith),
        items@.len() >= 1,
    ensures
        final(envs).wf(),
        final(envs)@.len() == old(envs)@.len(),
        (result_view(r), final(envs)@) == ev_define(
            float_fn(*arith),
            fuel as nat,
            objects_view(items@).drop_first(),
            old(envs)@,
            env as int,
        ),
    decreases fuel, 2nat, 0int,
{
    proof {
        lemma_objects_view(items@);
    }
    if items.len() < 2 {
        return Err(EvalError::new(ErrorKind::ExpectedSymbol));
    }
    match &items[1] {
        Object::Symbol(name) => {
            if items.len() < 3 {
                return Err(EvalError::new(ErrorKind::ExpectedExpression));
            }
            match eval_depth(&items[2], env, envs, arith, fuel) {
                Err(e) => Err(e),
                Ok(v) => {
                    envs.define(env, name.clone(), v);
                    Ok(Object::Void)
                },
            }
        },
        _ => Err(EvalError::new(ErrorKind::ExpectedSymbol)),
    }
}

/// The `lambda` form: `items[1]` is the list of parameter symbols, `items[2]`
/// the body.
fn eval_lambda(items: &Vec<Object>) -> (r: Result<Object, EvalError>)
    requires
        items@.len() >= 1,
    ensures
        result_view(r) == lambda_spec(objects_view(items@).drop_first()),
{
    proof {
        lemma_objects_view(items@);
    }
    if items.len() < 2 {
        return Err(EvalError::new(ErrorKind::ExpectedParameterList));
    }
    match &items[1] {
        Object::List(ps) => {
            let ghost pv = objects_view(ps@);
            proof {
                lemma_objects_view(ps@);
                assert(objects_view(items@).drop_first()[0] == items@[1]@);
            }
            let mut names: Vec<String> = Vec::new();
            let mut i: usize = 0;
            while i < ps.len()
                invariant
                    i <= ps.len(),
                    pv == objects_view(ps@),
                    pv.len() == ps@.len(),
                    items@.len() >= 2,
                    objects_view(items@).drop_first()[0] == Val::List(pv),
                    forall|j: int| 0 <= j < ps@.len() ==> pv[j] == #[trigger] ps@[j]@,
                    names@.len() == i,
                    forall|j: int| 0 <= j < i ==> pv[j] == Val::Symbol(#[trigger] names@[j]@),
                decreases ps.len() - i,
            {
                assert(pv[i as int] == ps@[i as int]@);
                match &ps[i] {
                    Object::Symbol(s) => {
                        names.push(s.clone());
                    },
                    _ => {
                        assert(!(pv[i as int] is Symbol));
                        assert(!all_symbols(pv));
                        return Err(EvalError::new(ErrorKind::ExpectedParameterList));
                    },
                }
                i += 1;
            }
            assert forall|j: int| 0 <= j < pv.len() implies #[trigger] pv[j] is Symbol by {
                assert(pv[j] == Val::Symbol(names@[j]@));
            }
            assert(strings_view(names@) =~= symbol_names(pv));
            if items.len() < 3 {
                return Err(EvalError::new(ErrorKind::ExpectedBody));
            }
            match &items[2] {
                Object::List(body) => Ok(Object::Lambda(names, duplicate_objects(body))),
                _ => Err(EvalError::new(ErrorKind::ExpectedBody)),
            }
        },
        _ => Err(EvalError::new(ErrorKind::ExpectedParameterList)),
    }
}

/// Applies the function with parameters `ps` and body `body` to the
/// unevaluated arguments `items[1..]`, in a new frame whose parent is `env`.
fn eval_apply<F: Fn(FloatOp, u64, u64) -> u64>(
    ps: &Vec<String>,
    body: &Vec<Object>,
    items: &Vec<Object>,
    env: EnvType,
    envs: &mut Envs,
    arith: &F,
    fuel: u64,
) -> (r: Result<Object, EvalError>)
    requires
        old(envs).wf(),
        env < old(envs)@.len(),
        arith_ok(*arith),
        items@.len() >= 1,
    ensures
        final(envs).wf(),
        final(envs)@.len() == old(envs)@.len(),
        (result_view(r), final(envs)@) == ev_apply(
            float_fn(*arith),
            fuel as nat,
            strings_view(ps@),
            objects_view(body@),
            objects_view(items@).drop_first(),
            old(envs)@,
            env as int,
        ),
    decreases fuel, 1nat, 0int,
{
    let ghost pv = strings_view(ps@);
    let ghost args = objects_view(items@).drop_first();
    proof {
        lemma_objects_view(items@);
    }
    let nargs = items.len() - 1;
    if ps.len() != nargs {
        return Err(EvalError::new(ErrorKind::ArityMismatch(ps.len(), nargs)));
    }
    let mut defs: Vec<(String, Object)> = Vec::new();
    let mut i: usize = 0;
    while i < ps.len()
        invariant
            i <= ps.len(),
            ps.len() == nargs,
            nargs == items@.len() - 1,
            pv == strings_view(ps@),
            args == objects_view(items@).drop_first(),
            args.len() == nargs,
            forall|j: int| 0 <= j < args.len() ==> args[j] == #[trigger] items@[j + 1]@,
            defs_map(defs@) == bind(pv.take(i as int), args.take(i as int)),
        decreases ps.len() - i,
    {
        let ghost prev = defs@;
        defs.push((ps[i].clone(), items[i + 1].duplicate()));
        proof {
            assert(defs@.drop_last() == prev);
            assert(pv.take(i + 1).drop_last() == pv.take(i as int));
            assert(args.take(i + 1).drop_last() == args.take(i as int));
        }
        i += 1;
    }
    proof {
        assert(pv.take(i as int) == pv);
        assert(args.take(i as int) == args);
    }
    let len = envs.len();
    let frame = envs.push_frame(env, defs);
    let r = if fuel == 0 {
        Err(EvalError::new(ErrorKind::DepthExceeded))
    } else {
        eval_list(body, frame, envs, arith, fuel - 1)
    };
    envs.drop_frames(len);
    r
}

/// Calls the function that `name` is bound to, seen from frame `env`, with
/// the unevaluated arguments `items[1..]`.
fn eval_function_call<F: Fn(FloatOp, u64, u64) -> u64>(
    name: &String,
    items: &Vec<Object>,
    env: EnvType,
    envs: &mut Envs,
    arith: &F,
    fuel: u64,
) -> (r: Result<Object, EvalError>)
    requires
        old(envs).wf(),
        env < old(envs)@.len(),
        arith_ok(*arith),
        items@.len() >= 1,
    ensures
        final(envs).wf(),
        final(envs)@.len() == old(envs)@.len(),
        (result_view(r), final(envs)@) == ev_call(
            float_fn(*arith),
            fuel as nat,
            name@,
            objects_view(items@).drop_first(),
            old(envs)@,
            env as int,
        ),
    decreases fuel, 2nat, 0int,
{
    let f = match envs.resolve(env, name) {
        Some(v) => v.duplicate(),
        None => {
            return Err(EvalError::new(ErrorKind::SymbolNotFound(name.clone())));
        },
    };
    match f {
        Object::Lambda(ps, body) => eval_apply(&ps, &body, items, env, envs, arith, fuel),
        _ => Err(EvalError::new(ErrorKind::NotApplicable)),
    }
}

/// A list whose head is not a symbol: a function that the head evaluates to
/// is bound to `lambda` in a new frame and called from there.
fn eval_head<F: Fn(FloatOp, u64, u64) -> u64>(
    items: &Vec<Object>,
    env: EnvType,
    envs: &mut Envs,
    arith: &F,
    fuel: u64,
) -> (r: Result<Object, EvalError>)
    requires
        old(envs).wf(),
        env < old(envs)@.len(),
        arith_ok(*arith),
        items@.len() >= 1,
    ensures
        final(envs).wf(),
        final(envs)@.len() == old(envs)@.len(),
        (result_view(r), final(envs)@) == ev_head(
            float_fn(*arith),
            fuel as nat,
            objects_view(items@),
            old(envs)@,
            env as int,
        ),
    decreases fuel, 3nat, 0int,
{
    proof {
        lemma_objects_view(items@);
    }
    match eval_depth(&items[0], env, envs, arith, fuel) {
        Err(e) => Err(e),
        Ok(Object::Lambda(ps, body)) => {
            let len = envs.len();
            let name = "lambda".to_owned();
            let mut defs: Vec<(String, Object)> = Vec::new();
            defs.push((name.clone(), Object::Lambda(ps, body)));
            let ghost fv = defs@[0].1@;
            proof {
                assert(defs@.drop_last() == Seq::<(String, Object)>::empty());
                assert(defs_map(Seq::<(String, Object)>::empty()) == Map::<Seq<char>, Val>::empty());
                assert(defs@.last().0@ == "lambda"@);
                assert(defs_map(defs@) == Map::<Seq<char>, Val>::empty().insert("lambda"@, fv));
            }
            let frame = envs.push_frame(env, defs);
            let r = eval_function_call(&name, items, frame, envs, arith, fuel);
            envs.drop_frames(len);
            r
        },
        Ok(Object::Bool(b)) => Ok(Object::Bool(b)),
        Ok(_) => Err(EvalError::new(ErrorKind::ExpectedSymbolOrApplicable)),
    }
}

/// Evaluates `obj` in frame `env`, allowing `MAX_DEPTH` nested evaluations.
pub fn eval<F: Fn(FloatOp, u64, u64) -> u64>(
    obj: Object,
    env: EnvType,
    envs: &mut Envs,
    arith: &F,
) -> (r: Result<Object, EvalError>)
    requires
        old(envs).wf(),
        env < old(envs)@.len(),
        arith_ok(*arith),
    ensures
        final(envs).wf(),
        final(envs)@.len() == old(envs)@.len(),
        (result_view(r), final(envs)@) == ev(
            float_fn(*arith),
            MAX_DEPTH as nat,
            obj@,
            old(envs)@,
            env as int,
        ),
{
    eval_depth(&obj, env, envs, arith, MAX_DEPTH)
}

} // verus!
