use vstd::prelude::*;
use crate::env::{frames_wf, resolve_spec, Frame};
use crate::semantics::{
    ev, ev_apply, ev_call, ev_collect, ev_define, ev_fold, ev_head, ev_if, ev_list,
    op_of, FloatFn, Op,
};
use crate::value::Val;

verus! {

/// The frame `k` steps up the parent chain from `env`, if the chain is that
/// long.
pub open spec fn ancestor(st: Seq<Frame>, env: int, k: nat) -> Option<int>
    decreases k,
{
    if !(0 <= env < st.len()) {
        None
    } else if k == 0 {
        Some(env)
    } else {
        match st[env].parent {
            Some(p) => if 0 <= p < env {
                ancestor(st, p, (k - 1) as nat)
            } else {
                None
            },
            None => None,
        }
    }
}

/// Whether the frame `k` steps up from `env` exists and binds `name`.
pub open spec fn binds_at(st: Seq<Frame>, env: int, k: nat, name: Seq<char>) -> bool {
    &&& ancestor(st, env, k) is Some
    &&& st[ancestor(st, env, k)->0].defs.contains_key(name)
}

/// Resolution returns the binding of the nearest frame up the parent chain
/// that binds the name; it finds nothing exactly when no frame on the chain
/// binds it.
pub proof fn law_resolve_nearest(st: Seq<Frame>, env: int, name: Seq<char>)
    requires
        frames_wf(st),
        0 <= env < st.len(),
    ensures
        match resolve_spec(st, env, name) {
            Some(v) => exists|k: nat|
                {
                    &&& #[trigger] binds_at(st, env, k, name)
                    &&& st[ancestor(st, env, k)->0].defs[name] == v
                    &&& forall|j: nat| j < k ==> !#[trigger] binds_at(st, env, j, name)
                },
            None => forall|k: nat| !#[trigger] binds_at(st, env, k, name),
        },
    decreases env,
{
    assert(ancestor(st, env, 0) == Some(env));
    if st[env].defs.contains_key(name) {
        assert(binds_at(st, env, 0, name));
    } else {
        assert(!binds_at(st, env, 0, name));
        match st[env].parent {
            Some(p) => {
                assert(0 <= p < env);
                law_resolve_nearest(st, p, name);
                assert forall|k: nat| #[trigger] ancestor(st, env, k + 1) == ancestor(st, p, k) by {}
                assert forall|k: nat| k > 0 implies #[trigger] binds_at(st, env, k, name)
                    == binds_at(st, p, (k - 1) as nat, name) by {
                    if k > 0 {
                        assert(ancestor(st, env, k) == ancestor(st, p, (k - 1) as nat));
                    }
                }
                match resolve_spec(st, p, name) {
                    Some(v) => {
                        let k = choose|k: nat|
                            {
                                &&& #[trigger] binds_at(st, p, k, name)
                                &&& st[ancestor(st, p, k)->0].defs[name] == v
                                &&& forall|j: nat| j < k ==> !#[trigger] binds_at(st, p, j, name)
                            };
                        assert(binds_at(st, env, k + 1, name));
                        assert(ancestor(st, env, k + 1) == ancestor(st, p, k));
                        assert forall|j: nat| j < k + 1 implies !#[trigger] binds_at(st, env, j, name) by {
                            if j > 0 {
                                assert(binds_at(st, env, j, name) == binds_at(st, p, (j - 1) as nat, name));
                            }
                        }
                    },
                    None => {
                        assert forall|k: nat| !#[trigger] binds_at(st, env, k, name) by {
                            if k > 0 {
                                assert(binds_at(st, env, k, name) == binds_at(st, p, (k - 1) as nat, name));
                            }
                        }
                    },
                }
            },
            None => {
                assert forall|k: nat| !#[trigger] binds_at(st, env, k, name) by {
                    if k > 0 {
                        assert(ancestor(st, env, k) is None);
                    }
                }
            },
        }
    }
}

/// `st2` has as many frames as `st`, and the same frames below index `k`.
pub open spec fn keeps_below(st: Seq<Frame>, st2: Seq<Frame>, k: int) -> bool {
    &&& st2.len() == st.len()
    &&& forall|i: int| 0 <= i < k ==> #[trigger] st2[i] == st[i]
}

proof fn lemma_ev_keeps(fl: FloatFn, fuel: nat, e: Val, st: Seq<Frame>, env: int, k: int)
    requires
        0 <= k <= env < st.len(),
    ensures
        keeps_below(st, ev(fl, fuel, e, st, env).1, k),
    decreases fuel, 0nat, 0int,
{
    if fuel > 0 {
        if let Val::List(items) = e {
            lemma_list_keeps(fl, (fuel - 1) as nat, items, st, env, k);
        }
    }
}

proof fn lemma_list_keeps(fl: FloatFn, fuel: nat, items: Seq<Val>, st: Seq<Frame>, env: int, k: int)
    requires
        0 <= k <= env < st.len(),
    ensures
        keeps_below(st, ev_list(fl, fuel, items, st, env).1, k),
    decreases fuel, 4nat, 0int,
{
    if items.len() > 0 {
        let rest = items.drop_first();
        match items[0] {
            Val::Symbol(s) => {
                if op_of(s) is Some {
                    lemma_fold_keeps(fl, fuel, op_of(s)->0, rest, 0, None, st, env, k);
                } else if s == "if"@ {
                    lemma_if_keeps(fl, fuel, rest, st, env, k);
                } else if s == "define"@ {
                    lemma_define_keeps(fl, fuel, rest, st, env, k);
                } else if s == "lambda"@ {
                } else if s == "list"@ {
                    lemma_collect_keeps(fl, fuel, rest, 0, Seq::empty(), st, env, k);
                } else {
                    lemma_call_restores(fl, fuel, s, rest, st, env);
                }
            },
            _ => {
                lemma_head_keeps(fl, fuel, items, st, env, k);
            },
        }
    }
}

proof fn lemma_fold_keeps(
    fl: FloatFn,
    fuel: nat,
    op: Op,
    items: Seq<Val>,
    i: int,
    acc: Option<Val>,
    st: Seq<Frame>,
    env: int,
    k: int,
)
    requires
        0 <= k <= env < st.len(),
    ensures
        keeps_below(st, ev_fold(fl, fuel, op, items, i, acc, st, env).1, k),
    decreases fuel, 1nat, items.len() - i,
{
    if 0 <= i < items.len() {
        lemma_ev_keeps(fl, fuel, items[i], st, env, k);
        let (r, st1) = ev(fl, fuel, items[i], st, env);
        if let Ok(v) = r {
            match acc {
                None => lemma_fold_keeps(fl, fuel, op, items, i + 1, Some(v), st1, env, k),
                Some(a) => if let Ok(c) = crate::semantics::combine(fl, op, a, v) {
                    lemma_fold_keeps(fl, fuel, op, items, i + 1, Some(c), st1, env, k);
                },
            }
        }
    }
}

proof fn lemma_collect_keeps(
    fl: FloatFn,
    fuel: nat,
    items: Seq<Val>,
    i: int,
    acc: Seq<Val>,
    st: Seq<Frame>,
    env: int,
    k: int,
)
    requires
        0 <= k <= env < st.len(),
    ensures
        keeps_below(st, ev_collect(fl, fuel, items, i, acc, st, env).1, k),
    decreases fuel, 1nat, items.len() - i,
{
    if 0 <= i < items.len() {
        lemma_ev_keeps(fl, fuel, items[i], st, env, k);
        let (r, st1) = ev(fl, fuel, items[i], st, env);
        if let Ok(v) = r {
            if v is Void {
                lemma_collect_keeps(fl, fuel, items, i + 1, acc, st1, env, k);
            } else {
                lemma_collect_keeps(fl, fuel, items, i + 1, acc.push(v), st1, env, k);
            }
        }
    }
}

proof fn lemma_if_keeps(fl: FloatFn, fuel: nat, rest: Seq<Val>, st: Seq<Frame>, env: int, k: int)
    requires
        0 <= k <= env < st.len(),
    ensures
        keeps_below(st, ev_if(fl, fuel, rest, st, env).1, k),
    decreases fuel, 2nat, 0int,
{
    if rest.len() > 0 {
        lemma_ev_keeps(fl, fuel, rest[0], st, env, k);
        let st1 = ev(fl, fuel, rest[0], st, env).1;
        if rest.len() >= 2 {
            lemma_ev_keeps(fl, fuel, rest[1], st1, env, k);
        }
    }
}

proof fn lemma_define_keeps(fl: FloatFn, fuel: nat, rest: Seq<Val>, st: Seq<Frame>, env: int, k: int)
    requires
        0 <= k <= env < st.len(),
    ensures
        keeps_below(st, ev_define(fl, fuel, rest, st, env).1, k),
    decreases fuel, 2nat, 0int,
{
    if rest.len() >= 2 && rest[0] is Symbol {
        lemma_ev_keeps(fl, fuel, rest[1], st, env, k);
    }
}

proof fn lemma_head_keeps(fl: FloatFn, fuel: nat, items: Seq<Val>, st: Seq<Frame>, env: int, k: int)
    requires
        0 <= k <= env < st.len(),
        items.len() > 0,
    ensures
        keeps_below(st, ev_head(fl, fuel, items, st, env).1, k),
    decreases fuel, 3nat, 0int,
{
    lemma_ev_keeps(fl, fuel, items[0], st, env, k);
    let (r, st1) = ev(fl, fuel, items[0], st, env);
    if let Ok(Val::Lambda(ps, body)) = r {
        let defs = Map::empty().insert("lambda"@, Val::Lambda(ps, body));
        let st2 = st1.push(Frame { parent: Some(env), defs });
        lemma_call_restores(fl, fuel, "lambda"@, items.drop_first(), st2, st1.len() as int);
        assert(st2.take(st1.len() as int) =~= st1);
    }
}

proof fn lemma_call_restores(
    fl: FloatFn,
    fuel: nat,
    name: Seq<char>,
    args: Seq<Val>,
    st: Seq<Frame>,
    env: int,
)
    requires
        0 <= env < st.len(),
    ensures
        ev_call(fl, fuel, name, args, st, env).1 == st,
    decreases fuel, 2nat, 0int,
{
    if let Some(Val::Lambda(ps, body)) = resolve_spec(st, env, name) {
        lemma_apply_restores(fl, fuel, ps, body, args, st, env);
    }
}

proof fn lemma_apply_restores(
    fl: FloatFn,
    fuel: nat,
    ps: Seq<Seq<char>>,
    body: Seq<Val>,
    args: Seq<Val>,
    st: Seq<Frame>,
    env: int,
)
    requires
        0 <= env < st.len(),
    ensures
        ev_apply(fl, fuel, ps, body, args, st, env).1 == st,
    decreases fuel, 1nat, 0int,
{
    if ps.len() == args.len() {
        let st1 = st.push(Frame { parent: Some(env), defs: crate::semantics::bind(ps, args) });
        lemma_ev_keeps(fl, fuel, Val::List(body), st1, st.len() as int, st.len() as int);
        let st2 = ev(fl, fuel, Val::List(body), st1, st.len() as int).1;
        assert(st2.take(st.len() as int) =~= st);
    }
}

/// A function call leaves every frame of its caller as it was: what the body
/// defines goes into the call's own frame, which is gone once the call
/// returns.
pub proof fn law_call_is_frame_local(
    fl: FloatFn,
    fuel: nat,
    name: Seq<char>,
    args: Seq<Val>,
    st: Seq<Frame>,
    env: int,
)
    requires
        0 <= env < st.len(),
    ensures
        ev_call(fl, fuel, name, args, st, env).1 == st,
{
    lemma_call_restores(fl, fuel, name, args, st, env);
}

/// Evaluation never changes a frame below the one it runs in, and keeps the
/// number of frames.
pub proof fn law_eval_keeps_outer_frames(
    fl: FloatFn,
    fuel: nat,
    e: Val,
    st: Seq<Frame>,
    env: int,
)
    requires
        0 <= env < st.len(),
    ensures
        keeps_below(st, ev(fl, fuel, e, st, env).1, env),
{
    lemma_ev_keeps(fl, fuel, e, st, env, env);
}

/// `if` names none of the folded operators.
proof fn lemma_if_is_no_operator()
    ensures
        op_of("if"@) is None,
{
    reveal_strlit("if");
    reveal_strlit("+");
    assert("if"@ != "+"@) by {
        assert("if"@.len() != "+"@.len() || "if"@[0] != "+"@[0]);
    }
    reveal_strlit("-");
    assert("if"@ != "-"@) by {
        assert("if"@.len() != "-"@.len() || "if"@[0] != "-"@[0]);
    }
    reveal_strlit("*");
    assert("if"@ != "*"@) by {
        assert("if"@.len() != "*"@.len() || "if"@[0] != "*"@[0]);
    }
    reveal_strlit("/");
    assert("if"@ != "/"@) by {
        assert("if"@.len() != "/"@.len() || "if"@[0] != "/"@[0]);
    }
    reveal_strlit("+.");
    assert("if"@ != "+."@) by {
        assert("if"@.len() != "+."@.len() || "if"@[0] != "+."@[0]);
    }
    reveal_strlit("-.");
    assert("if"@ != "-."@) by {
        assert("if"@.len() != "-."@.len() || "if"@[0] != "-."@[0]);
    }
    reveal_strlit("*.");
    assert("if"@ != "*."@) by {
        assert("if"@.len() != "*."@.len() || "if"@[0] != "*."@[0]);
    }
    reveal_strlit("/.");
    assert("if"@ != "/."@) by {
        assert("if"@.len() != "/."@.len() || "if"@[0] != "/."@[0]);
    }
    reveal_strlit("=");
    assert("if"@ != "="@) by {
        assert("if"@.len() != "="@.len() || "if"@[0] != "="@[0]);
    }
    reveal_strlit(">=");
    assert("if"@ != ">="@) by {
        assert("if"@.len() != ">="@.len() || "if"@[0] != ">="@[0]);
    }
    reveal_strlit("<=");
    assert("if"@ != "<="@) by {
        assert("if"@.len() != "<="@.len() || "if"@[0] != "<="@[0]);
    }
    reveal_strlit("<");
    assert("if"@ != "<"@) by {
        assert("if"@.len() != "<"@.len() || "if"@[0] != "<"@[0]);
    }
    reveal_strlit(">");
    assert("if"@ != ">"@) by {
        assert("if"@.len() != ">"@.len() || "if"@[0] != ">"@[0]);
    }
}

/// An `if` whose condition is false gives `Void` and leaves the frames as the
/// condition left them: the branch after it is never evaluated.
pub proof fn law_if_false_skips_branch(
    fl: FloatFn,
    fuel: nat,
    items: Seq<Val>,
    st: Seq<Frame>,
    env: int,
    st1: Seq<Frame>,
)
    requires
        items.len() >= 2,
        items[0] == Val::Symbol("if"@),
        ev(fl, fuel, items[1], st, env) == (Ok::<Val, crate::semantics::Fault>(Val::Bool(false)), st1),
    ensures
        ev_list(fl, fuel, items, st, env) == (Ok::<Val, crate::semantics::Fault>(Val::Void), st1),
{
    lemma_if_is_no_operator();
    assert(items.drop_first()[0] == items[1]);
}

proof fn lemma_collect_no_void(
    fl: FloatFn,
    fuel: nat,
    items: Seq<Val>,
    i: int,
    acc: Seq<Val>,
    st: Seq<Frame>,
    env: int,
)
    requires
        forall|j: int| 0 <= j < acc.len() ==> !(#[trigger] acc[j] is Void),
    ensures
        ev_collect(fl, fuel, items, i, acc, st, env).0 matches Ok(Val::List(vs))
            ==> forall|j: int| 0 <= j < vs.len() ==> !(#[trigger] vs[j] is Void),
    decreases items.len() - i,
{
    if 0 <= i < items.len() {
        let (r, st1) = ev(fl, fuel, items[i], st, env);
        if let Ok(v) = r {
            if v is Void {
                lemma_collect_no_void(fl, fuel, items, i + 1, acc, st1, env);
            } else {
                assert forall|j: int| 0 <= j < acc.push(v).len() implies !(#[trigger] acc.push(v)[j] is Void) by {
                    if j < acc.len() {
                        assert(acc.push(v)[j] == acc[j]);
                    }
                }
                lemma_collect_no_void(fl, fuel, items, i + 1, acc.push(v), st1, env);
            }
        }
    }
}

/// The `list` form keeps no `Void` among the values it collects.
pub proof fn law_list_drops_void(fl: FloatFn, fuel: nat, items: Seq<Val>, st: Seq<Frame>, env: int)
    requires
        items.len() >= 1,
        items[0] == Val::Symbol("list"@),
    ensures
        ev_list(fl, fuel, items, st, env).0 matches Ok(Val::List(vs))
            ==> forall|j: int| 0 <= j < vs.len() ==> !(#[trigger] vs[j] is Void),
{
    reveal_strlit("list");
    reveal_strlit("+");
    assert("list"@ != "+"@) by {
        assert("list"@.len() != "+"@.len());
    }
    reveal_strlit("-");
    assert("list"@ != "-"@) by {
        assert("list"@.len() != "-"@.len());
    }
    reveal_strlit("*");
    assert("list"@ != "*"@) by {
        assert("list"@.len() != "*"@.len());
    }
    reveal_strlit("/");
    assert("list"@ != "/"@) by {
        assert("list"@.len() != "/"@.len());
    }
    reveal_strlit("+.");
    assert("list"@ != "+."@) by {
        assert("list"@.len() != "+."@.len());
    }
    reveal_strlit("-.");
    assert("list"@ != "-."@) by {
        assert("list"@.len() != "-."@.len());
    }
    reveal_strlit("*.");
    assert("list"@ != "*."@) by {
        assert("list"@.len() != "*."@.len());
    }
    reveal_strlit("/.");
    assert("list"@ != "/."@) by {
        assert("list"@.len() != "/."@.len());
    }
    reveal_strlit("=");
    assert("list"@ != "="@) by {
        assert("list"@.len() != "="@.len());
    }
    reveal_strlit(">=");
    assert("list"@ != ">="@) by {
        assert("list"@.len() != ">="@.len());
    }
    reveal_strlit("<=");
    assert("list"@ != "<="@) by {
        assert("list"@.len() != "<="@.len());
    }
    reveal_strlit("<");
    assert("list"@ != "<"@) by {
        assert("list"@.len() != "<"@.len());
    }
    reveal_strlit(">");
    assert("list"@ != ">"@) by {
        assert("list"@.len() != ">"@.len());
    }
    reveal_strlit("if");
    assert("list"@ != "if"@) by {
        assert("list"@.len() != "if"@.len());
    }
    reveal_strlit("define");
    assert("list"@ != "define"@) by {
        assert("list"@.len() != "define"@.len());
    }
    reveal_strlit("lambda");
    assert("list"@ != "lambda"@) by {
        assert("list"@.len() != "lambda"@.len());
    }
    assert(op_of("list"@) is None);
    lemma_collect_no_void(fl, fuel, items.drop_first(), 0, Seq::empty(), st, env);
}

} // verus!
