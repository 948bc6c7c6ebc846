use vstd::prelude::*;
use crate::builtins::items_of;
use crate::builtins::plain_value;
use crate::env::bind_env;
use crate::env::bind_from;
use crate::env::find_env;
use crate::env::get_env;
use crate::env::new_frame;
use crate::env::set_env;
use crate::eval::apply_fn;
use crate::eval::caught;
use crate::eval::eval_seq;
use crate::eval::form_try;
use crate::eval::item;
use crate::eval::run;
use crate::eval::step_form;
use crate::eval::Step;
use crate::interp::Frame;
use crate::table::lookup;
use crate::table::place;
use crate::table::put;
use crate::types::fail;
use crate::types::Builtin;
use crate::types::Fault;
use crate::eval::expand;
use crate::eval::macro_call;
use crate::interp::Machine;
use crate::types::Env;
use crate::types::Value;

verus! {

/// Macro expansion is idempotent: where expanding a form succeeds, the
/// result is fully expanded, so expanding it once more, in the state that
/// the first expansion left, gives the same form back, changes nothing and
/// reports that nothing was expanded, whatever the limits of the second
/// expansion are.
pub proof fn lemma_macroexpand_idempotent(
    m: Machine,
    ast: Value,
    env: Env,
    k: nat,
    s: nat,
    f: nat,
    k2: nat,
    s2: nat,
    f2: nat,
)
    requires
        expand(m, ast, env, k, s, f).1 is Ok,
    ensures
        expand(
            expand(m, ast, env, k, s, f).0,
            expand(m, ast, env, k, s, f).1->Ok_0,
            env,
            k2,
            s2,
            f2,
        ) == (expand(m, ast, env, k, s, f).0, expand(m, ast, env, k, s, f).1, false),
    decreases f,
{
    match macro_call(m, ast, env) {
        Some((mf, args)) => {
            if f > 0 {
                let (m1, r) = apply_fn(m, mf, args, k, s);
                match r {
                    Ok(a) => {
                        lemma_macroexpand_idempotent(m1, a, env, k, s, (f - 1) as nat, k2, s2, f2);
                    },
                    Err(_) => {},
                }
            }
        },
        None => {},
    }
}

/// `nth` gives the item at an index that lies in the sequence; for every
/// other index, a negative one too, it fails with a message.
pub proof fn lemma_nth(seq: Value, i: i64)
    requires
        items_of(seq) is Some,
    ensures
        plain_value(Builtin::Nth, seq![seq, Value::Int(i)]) == (if 0 <= i < items_of(
            seq,
        )->Some_0.len() {
            Ok::<Value, Fault>(items_of(seq)->Some_0[i as int])
        } else {
            fail("nth:index out of range"@)
        }),
{
}

/// An error stops what is around it: where a form of a sequence fails, the
/// sequence fails with the error of that form, in the state in which the
/// form failed, and no form after it is evaluated.
pub proof fn lemma_error_propagates(
    m: Machine,
    items: Seq<Value>,
    env: Env,
    k: nat,
    s: nat,
    i: nat,
    acc: Seq<Value>,
)
    requires
        i < items.len(),
        run(m, items[i as int], env, k, s, s).1 is Err,
    ensures
        eval_seq(m, items, env, k, s, i, acc) == (
            run(m, items[i as int], env, k, s, s).0,
            Err::<Seq<Value>, Fault>(run(m, items[i as int], env, k, s, s).1->Err_0),
        ),
{
}

/// An error can be caught: where the form that `try*` protects fails and a
/// catch block names a symbol and a handler, the result is that of the
/// handler in a new frame. That frame lies under the current one and binds
/// only the symbol, to the error: a message as a string, a thrown value as
/// it is. Every frame that was there before, the current one too, is as the
/// failed form left it.
pub proof fn lemma_try_catches(
    m: Machine,
    l: Seq<Value>,
    env: Env,
    k: nat,
    s: nat,
    head: Value,
    name: Seq<char>,
    handler: Value,
)
    requires
        l.len() >= 3,
        l[0] == Value::Sym("try*"@),
        l[2] == Value::List(seq![head, Value::Sym(name), handler]),
        name != "&"@,
        run(m, l[1], env, k, s, s).1 is Err,
        run(m, l[1], env, k, s, s).0.envs.len() < usize::MAX,
    ensures
        ({
            let (m1, r) = run(m, l[1], env, k, s, s);
            let inner = m1.envs.len() as Env;
            let m2 = Machine {
                envs: m1.envs.push(
                    Frame { data: seq![(name, caught(r->Err_0))], outer: Some(env) },
                ),
                ..m1
            };
            &&& step_form(m, l, env, k, s) == Step::Done(
                run(m2, handler, inner, k, s, s).0,
                run(m2, handler, inner, k, s, s).1,
            )
            &&& get_env(m2, inner, Value::Sym(name)) == Ok::<Value, Fault>(caught(r->Err_0))
            &&& forall|e: int| 0 <= e < m1.envs.len() ==> m2.envs[e] == m1.envs[e]
        }),
{
    reveal_strlit("try*");
    reveal_strlit("def!");
    reveal_strlit("let*");
    reveal_strlit("lambda");
    reveal_strlit("if");
    reveal_strlit("do");
    reveal_strlit("quote");
    reveal_strlit("quasiquote");
    reveal_strlit("eval");
    let h = "try*"@;
    assert(h.len() == 4);
    assert(h[0] == 't');
    assert(h != "def!"@) by {
        assert("def!"@[0] == 'd');
    }
    assert(h != "let*"@) by {
        assert("let*"@[0] == 'l');
    }
    assert(h != "lambda"@) by {
        assert("lambda"@.len() == 6);
    }
    assert(h != "if"@) by {
        assert("if"@.len() == 2);
    }
    assert(h != "do"@) by {
        assert("do"@.len() == 2);
    }
    assert(h != "quote"@) by {
        assert("quote"@.len() == 5);
    }
    assert(h != "quasiquote"@) by {
        assert("quasiquote"@.len() == 10);
    }
    assert(h != "eval"@) by {
        assert("eval"@[0] == 'e');
    }
    assert(item(l, 0) == l[0]);
    assert(step_form(m, l, env, k, s) == form_try(m, l, env, k, s));
    let (m1, r) = run(m, l[1], env, k, s, s);
    let e = r->Err_0;
    let c = seq![head, Value::Sym(name), handler];
    let binds = seq![c[1]];
    let exprs = seq![caught(e)];
    let (m1f, inner) = new_frame(m1, Some(env));
    assert(inner == m1.envs.len());
    let frame = Frame { data: Seq::<(Seq<char>, Value)>::empty(), outer: Some(env) };
    assert(m1f.envs == m1.envs.push(frame));
    assert(m1f.envs[inner as int] == frame);
    assert(place(frame.data, name) is None);
    assert(put(frame.data, name, caught(e)) =~= seq![(name, caught(e))]);
    let bound = set_env(m1f, inner, name, caught(e));
    let m2 = Machine {
        envs: m1.envs.push(Frame { data: seq![(name, caught(e))], outer: Some(env) }),
        ..m1
    };
    assert(bound.envs =~= m2.envs);
    assert(bound == m2);
    assert(binds[0] == Value::Sym(name));
    assert(bind_from(bound, inner, binds, exprs, 1) == (bound, Ok::<Env, Fault>(inner)));
    assert(bind_from(m1f, inner, binds, exprs, 0) == (bound, Ok::<Env, Fault>(inner)));
    assert(bind_env(m1, Some(env), Value::List(binds), exprs) == (
        m2,
        Ok::<Env, Fault>(inner),
    ));
    let data = m2.envs[inner as int].data;
    assert(data == seq![(name, caught(e))]);
    assert(data.last() == (name, caught(e)));
    assert(lookup(data, name) == Some(caught(e)));
    assert(find_env(m2, inner, name) == Some(inner));
}

} // verus!
