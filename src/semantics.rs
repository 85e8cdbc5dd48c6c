use vstd::prelude::*;
use crate::env::{resolve_spec, Frame};
use crate::value::Val;

verus! {

/// The kind of a value, as named in type errors.
#[derive(Debug, Clone, Copy, PartialEq, Eq, Structural)]
pub enum Kind {
    Void,
    Integer,
    Float,
    Bool,
    Symbol,
    List,
    Lambda,
}

/// The operators that the binary-operator folder handles.
#[derive(Debug, Clone, Copy, PartialEq, Eq, Structural)]
pub enum Op {
    Add,
    Sub,
    Mul,
    Div,
    FloatAdd,
    FloatSub,
    FloatMul,
    FloatDiv,
    Eq,
    Ge,
    Le,
    Lt,
    Gt,
}

/// The four float operations, handed to the caller's float arithmetic.
#[derive(Debug, Clone, Copy, PartialEq, Eq, Structural)]
pub enum FloatOp {
    Add,
    Sub,
    Mul,
    Div,
}

/// The model of an evaluation failure.
pub enum Fault {
    SymbolNotFound(Seq<char>),
    ExpectedSymbol,
    ExpectedExpression,
    ExpectedBoolean,
    ExpectedParameterList,
    ExpectedBody,
    ExpectedSymbolOrApplicable,
    NotApplicable,
    ArityMismatch(nat, nat),
    IncompatibleType(Kind, Kind),
    EmptyExpression,
    Overflow,
    DivisionByZero,
    DepthExceeded,
}

/// Float arithmetic on IEEE-754 bit patterns, as the evaluator sees it.
pub type FloatFn = spec_fn(FloatOp, u64, u64) -> u64;

/// What an evaluation returns, with the frames as they stand after it.
pub type Outcome = (Result<Val, Fault>, Seq<Frame>);

pub open spec fn kind_of(v: Val) -> Kind {
    match v {
        Val::Void => Kind::Void,
        Val::Integer(_) => Kind::Integer,
        Val::Float(_) => Kind::Float,
        Val::Bool(_) => Kind::Bool,
        Val::Symbol(_) => Kind::Symbol,
        Val::List(_) => Kind::List,
        Val::Lambda(_, _) => Kind::Lambda,
    }
}

pub open spec fn op_of(name: Seq<char>) -> Option<Op> {
    if name == "+"@ {
        Some(Op::Add)
    } else if name == "-"@ {
        Some(Op::Sub)
    } else if name == "*"@ {
        Some(Op::Mul)
    } else if name == "/"@ {
        Some(Op::Div)
    } else if name == "+."@ {
        Some(Op::FloatAdd)
    } else if name == "-."@ {
        Some(Op::FloatSub)
    } else if name == "*."@ {
        Some(Op::FloatMul)
    } else if name == "/."@ {
        Some(Op::FloatDiv)
    } else if name == "="@ {
        Some(Op::Eq)
    } else if name == ">="@ {
        Some(Op::Ge)
    } else if name == "<="@ {
        Some(Op::Le)
    } else if name == "<"@ {
        Some(Op::Lt)
    } else if name == ">"@ {
        Some(Op::Gt)
    } else {
        None
    }
}

/// The kind of operand that an operator combines.
pub open spec fn operand_kind(op: Op) -> Kind {
    match op {
        Op::Add | Op::Sub | Op::Mul | Op::Div => Kind::Integer,
        Op::FloatAdd | Op::FloatSub | Op::FloatMul | Op::FloatDiv => Kind::Float,
        _ => Kind::Bool,
    }
}

/// Integer division that truncates toward zero.
pub open spec fn trunc_div(x: int, y: int) -> int {
    let q = abs(x) / abs(y);
    if (x < 0) == (y < 0) {
        q
    } else {
        -q
    }
}

pub open spec fn abs(x: int) -> int {
    if x < 0 {
        -x
    } else {
        x
    }
}

pub open spec fn int_result(n: int) -> Result<Val, Fault> {
    if i64::MIN <= n <= i64::MAX {
        Ok(Val::Integer(n as i64))
    } else {
        Err(Fault::Overflow)
    }
}

pub open spec fn int_combine(op: Op, x: i64, y: i64) -> Result<Val, Fault> {
    match op {
        Op::Add => int_result(x + y),
        Op::Sub => int_result(x - y),
        Op::Mul => int_result(x * y),
        _ => if y == 0 {
            Err(Fault::DivisionByZero)
        } else {
            int_result(trunc_div(x as int, y as int))
        },
    }
}

pub open spec fn float_op_of(op: Op) -> FloatOp {
    match op {
        Op::FloatAdd => FloatOp::Add,
        Op::FloatSub => FloatOp::Sub,
        Op::FloatMul => FloatOp::Mul,
        _ => FloatOp::Div,
    }
}

pub open spec fn bool_combine(op: Op, a: bool, b: bool) -> bool {
    match op {
        Op::Eq => a == b,
        Op::Ge => a || !b,
        Op::Le => !a || b,
        Op::Lt => !a && b,
        _ => a && !b,
    }
}

/// Combines the accumulator `a` with the next operand `b`.
pub open spec fn combine(fl: FloatFn, op: Op, a: Val, b: Val) -> Result<Val, Fault> {
    let k = operand_kind(op);
    if kind_of(a) != k {
        Err(Fault::IncompatibleType(k, kind_of(a)))
    } else if kind_of(b) != k {
        Err(Fault::IncompatibleType(k, kind_of(b)))
    } else {
        match (a, b) {
            (Val::Integer(x), Val::Integer(y)) => int_combine(op, x, y),
            (Val::Float(x), Val::Float(y)) => Ok(Val::Float(fl(float_op_of(op), x, y))),
            (Val::Bool(x), Val::Bool(y)) => Ok(Val::Bool(bool_combine(op, x, y))),
            _ => Err(Fault::IncompatibleType(k, kind_of(a))),
        }
    }
}

/// The bindings of a call frame: each parameter to its argument, a later
/// parameter of the same name winning.
pub open spec fn bind(ps: Seq<Seq<char>>, args: Seq<Val>) -> Map<Seq<char>, Val>
    decreases ps.len(),
{
    if ps.len() == 0 || args.len() == 0 {
        Map::empty()
    } else {
        bind(ps.drop_last(), args.drop_last()).insert(ps.last(), args.last())
    }
}

/// Frame `env` after binding `name` to `v` in it.
pub open spec fn define_spec(st: Seq<Frame>, env: int, name: Seq<char>, v: Val) -> Seq<Frame> {
    st.update(env, Frame { parent: st[env].parent, defs: st[env].defs.insert(name, v) })
}

pub open spec fn all_symbols(s: Seq<Val>) -> bool {
    forall|i: int| 0 <= i < s.len() ==> #[trigger] s[i] is Symbol
}

pub open spec fn symbol_names(s: Seq<Val>) -> Seq<Seq<char>> {
    s.map_values(|v: Val| v->Symbol_0)
}

/// The `lambda` form over the items after its head.
pub open spec fn lambda_spec(rest: Seq<Val>) -> Result<Val, Fault> {
    if rest.len() == 0 {
        Err(Fault::ExpectedParameterList)
    } else {
        match rest[0] {
            Val::List(ps) => if !all_symbols(ps) {
                Err(Fault::ExpectedParameterList)
            } else if rest.len() < 2 || !(rest[1] is List) {
                Err(Fault::ExpectedBody)
            } else {
                Ok(Val::Lambda(symbol_names(ps), rest[1]->List_0))
            },
            _ => Err(Fault::ExpectedParameterList),
        }
    }
}

/// Evaluates `e` in frame `env`, with at most `fuel` nested evaluations.
pub open spec fn ev(fl: FloatFn, fuel: nat, e: Val, st: Seq<Frame>, env: int) -> Outcome
    decreases fuel, 0nat, 0nat,
{
    if fuel == 0 {
        (Err(Fault::DepthExceeded), st)
    } else {
        match e {
            Val::Lambda(_, _) => (Ok(Val::Void), st),
            Val::Symbol(n) => match resolve_spec(st, env, n) {
                Some(v) => (Ok(v), st),
                None => (Err(Fault::SymbolNotFound(n)), st),
            },
            Val::List(items) => ev_list(fl, (fuel - 1) as nat, items, st, env),
            _ => (Ok(e), st),
        }
    }
}

/// Evaluates the operands `items[i..]` of `op` left to right, folding them
/// into the accumulator `acc`.
pub open spec fn ev_fold(
    fl: FloatFn,
    fuel: nat,
    op: Op,
    items: Seq<Val>,
    i: int,
    acc: Option<Val>,
    st: Seq<Frame>,
    env: int,
) -> Outcome
    decreases fuel, 1nat, items.len() - i,
{
    if i < 0 || i >= items.len() {
        (
            Ok(
                match acc {
                    Some(a) => a,
                    None => Val::Void,
                },
            ),
            st,
        )
    } else {
        let (r, st1) = ev(fl, fuel, items[i], st, env);
        match r {
            Err(f) => (Err(f), st1),
            Ok(v) => match acc {
                None => ev_fold(fl, fuel, op, items, i + 1, Some(v), st1, env),
                Some(a) => match combine(fl, op, a, v) {
                    Ok(c) => ev_fold(fl, fuel, op, items, i + 1, Some(c), st1, env),
                    Err(f) => (Err(f), st1),
                },
            },
        }
    }
}

/// Evaluates `items[i..]` in order for the `list` form, appending to `acc`
/// every result that is not `Void`.
pub open spec fn ev_collect(
    fl: FloatFn,
    fuel: nat,
    items: Seq<Val>,
    i: int,
    acc: Seq<Val>,
    st: Seq<Frame>,
    env: int,
) -> Outcome
    decreases fuel, 1nat, items.len() - i,
{
    if i < 0 || i >= items.len() {
        (Ok(Val::List(acc)), st)
    } else {
        let (r, st1) = ev(fl, fuel, items[i], st, env);
        match r {
            Err(f) => (Err(f), st1),
            Ok(v) => if v is Void {
                ev_collect(fl, fuel, items, i + 1, acc, st1, env)
            } else {
                ev_collect(fl, fuel, items, i + 1, acc.push(v), st1, env)
            },
        }
    }
}

/// Applies the function with parameters `ps` and body `body` to the
/// unevaluated `args`, in a new frame whose parent is `env`; the frame is gone
/// afterwards.
pub open spec fn ev_apply(
    fl: FloatFn,
    fuel: nat,
    ps: Seq<Seq<char>>,
    body: Seq<Val>,
    args: Seq<Val>,
    st: Seq<Frame>,
    env: int,
) -> Outcome
    decreases fuel, 1nat, 0int,
{
    if ps.len() != args.len() {
        (Err(Fault::ArityMismatch(ps.len(), args.len())), st)
    } else {
        let st1 = st.push(Frame { parent: Some(env), defs: bind(ps, args) });
        let (r, st2) = ev(fl, fuel, Val::List(body), st1, st.len() as int);
        (r, st2.take(st.len() as int))
    }
}

/// Calls the function that `name` is bound to.
pub open spec fn ev_call(
    fl: FloatFn,
    fuel: nat,
    name: Seq<char>,
    args: Seq<Val>,
    st: Seq<Frame>,
    env: int,
) -> Outcome
    decreases fuel, 2nat, 0int,
{
    match resolve_spec(st, env, name) {
        None => (Err(Fault::SymbolNotFound(name)), st),
        Some(Val::Lambda(ps, body)) => ev_apply(fl, fuel, ps, body, args, st, env),
        Some(_) => (Err(Fault::NotApplicable), st),
    }
}

/// The `if` form over the items after its head.
pub open spec fn ev_if(fl: FloatFn, fuel: nat, rest: Seq<Val>, st: Seq<Frame>, env: int) -> Outcome
    decreases fuel, 2nat, 0int,
{
    if rest.len() == 0 {
        (Err(Fault::ExpectedExpression), st)
    } else {
        let (r, st1) = ev(fl, fuel, rest[0], st, env);
        match r {
            Err(f) => (Err(f), st1),
            Ok(Val::Bool(true)) => if rest.len() < 2 {
                (Ok(Val::Void), st1)
            } else {
                ev(fl, fuel, rest[1], st1, env)
            },
            Ok(Val::Bool(false)) => (Ok(Val::Void), st1),
            Ok(_) => (Err(Fault::ExpectedBoolean), st1),
        }
    }
}

/// The `define` form over the items after its head.
pub open spec fn ev_define(fl: FloatFn, fuel: nat, rest: Seq<Val>, st: Seq<Frame>, env: int) -> Outcome
    decreases fuel, 2nat, 0int,
{
    if rest.len() == 0 || !(rest[0] is Symbol) {
        (Err(Fault::ExpectedSymbol), st)
    } else if rest.len() < 2 {
        (Err(Fault::ExpectedExpression), st)
    } else {
        let (r, st1) = ev(fl, fuel, rest[1], st, env);
        match r {
            Err(f) => (Err(f), st1),
            Ok(v) => (Ok(Val::Void), define_spec(st1, env, rest[0]->Symbol_0, v)),
        }
    }
}

/// A list whose head is not a symbol: the head is evaluated, and a function
/// that comes out is applied to the rest through a frame that binds it to
/// `lambda`.
pub open spec fn ev_head(fl: FloatFn, fuel: nat, items: Seq<Val>, st: Seq<Frame>, env: int) -> Outcome
    decreases fuel, 3nat, 0int,
{
    let (r, st1) = ev(fl, fuel, items[0], st, env);
    match r {
        Err(f) => (Err(f), st1),
        Ok(Val::Lambda(ps, body)) => {
            let defs = Map::empty().insert("lambda"@, Val::Lambda(ps, body));
            let st2 = st1.push(Frame { parent: Some(env), defs });
            let (r2, st3) = ev_call(fl, fuel, "lambda"@, items.drop_first(), st2, st1.len() as int);
            (r2, st3.take(st1.len() as int))
        },
        Ok(Val::Bool(b)) => (Ok(Val::Bool(b)), st1),
        Ok(_) => (Err(Fault::ExpectedSymbolOrApplicable), st1),
    }
}

/// Evaluates a list expression: a special form, an operator, or a call.
pub open spec fn ev_list(fl: FloatFn, fuel: nat, items: Seq<Val>, st: Seq<Frame>, env: int) -> Outcome
    decreases fuel, 4nat, 0int,
{
    if items.len() == 0 {
        (Err(Fault::EmptyExpression), st)
    } else {
        let rest = items.drop_first();
        match items[0] {
            Val::Symbol(s) => if op_of(s) is Some {
                ev_fold(fl, fuel, op_of(s)->0, rest, 0, None, st, env)
            } else if s == "if"@ {
                ev_if(fl, fuel, rest, st, env)
            } else if s == "define"@ {
                ev_define(fl, fuel, rest, st, env)
            } else if s == "lambda"@ {
                (lambda_spec(rest), st)
            } else if s == "list"@ {
                ev_collect(fl, fuel, rest, 0, Seq::empty(), st, env)
            } else {
                ev_call(fl, fuel, s, rest, st, env)
            },
            _ => ev_head(fl, fuel, items, st, env),
        }
    }
}

} // verus!
