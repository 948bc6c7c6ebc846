use vstd::prelude::*;
use vstd::string::StringExecFns;
use std::rc::Rc;
use crate::builtins::arity;
use crate::builtins::call_pure;
use crate::builtins::get_items;
use crate::builtins::is_effectful;
use crate::builtins::items_of;
use crate::builtins::pure_value;
use crate::console::colored;
use crate::console::print_in_color;
use crate::env::bind_env;
use crate::env::env_bind;
use crate::env::env_get;
use crate::env::env_new;
use crate::env::env_sets;
use crate::env::get_env;
use crate::env::new_frame;
use crate::env::set_env;
use crate::interp::Interp;
use crate::interp::Machine;
use crate::printer::pr_seq;
use crate::printer::pr_text;
use crate::printer::seq_text;
use crate::reader::read_str;
use crate::reader::read_text;
use crate::table::put;
use crate::table::Table;
use crate::text::text_eq;
use crate::types::error;
use crate::types::fail;
use crate::types::lemma_views;
use crate::types::lemma_views_add;
use crate::types::lemma_views_push;
use crate::types::lemma_views_subrange;
use crate::types::lemma_views_update;
use crate::types::list;
use crate::types::ret_view;
use crate::types::sym;
use crate::types::tail_of;
use crate::types::vector;
use crate::types::views;
use crate::types::Builtin;
use crate::types::Env;
use crate::types::Fault;
use crate::types::MalArgs;
use crate::types::MalErr;
use crate::types::MalRet;
use crate::types::MalVal;
use crate::types::Value;

verus! {

/// What one turn of the evaluator comes to: a final result, or a form and a
/// frame to go on with.
pub enum Step {
    Done(Machine, Result<Value, Fault>),
    Next(Machine, Value, Env),
}

/// The error for an evaluation that nests deeper than the interpreter
/// allows.
pub open spec fn too_deep() -> Result<Value, Fault> {
    fail("evaluation nests too deep"@)
}

/// The error for an evaluation that takes more steps than the interpreter
/// allows.
pub open spec fn too_long() -> Result<Value, Fault> {
    fail("evaluation takes too many steps"@)
}

/// The list of the three given values.
pub open spec fn list3(a: Value, b: Value, c: Value) -> Value {
    Value::List(seq![a, b, c])
}

/// The item at place `i`, or `nil` where the sequence has none there.
pub open spec fn item(v: Seq<Value>, i: int) -> Value {
    if 0 <= i < v.len() {
        v[i]
    } else {
        Value::Nil
    }
}

/// The expansion of a quasiquoted form.
pub open spec fn quasi(ast: Value) -> Value
    decreases ast, 0nat,
{
    match ast {
        Value::List(v) => if v.len() > 0 {
            quasi_from(v, 0)
        } else {
            Value::List(seq![Value::Sym("quote"@), ast])
        },
        Value::Vector(v) => if v.len() > 0 {
            quasi_from(v, 0)
        } else {
            Value::List(seq![Value::Sym("quote"@), ast])
        },
        _ => Value::List(seq![Value::Sym("quote"@), ast]),
    }
}

/// The expansion of the quasiquoted list that the items `v[i..]` make up:
/// the argument of a leading `unquote`; else a `concat` of a spliced first
/// item, or a `cons` of the expanded first item, with the expansion of the
/// items after it; and the quoted empty list where no item is left.
pub open spec fn quasi_from(v: Seq<Value>, i: nat) -> Value
    decreases v, v.len() - i,
{
    if i >= v.len() {
        Value::List(seq![Value::Sym("quote"@), Value::List(Seq::empty())])
    } else if v[i as int] == Value::Sym("unquote"@) {
        item(v, i as int + 1)
    } else {
        match splice_of(v[i as int]) {
            Some(x) => list3(Value::Sym("concat"@), x, quasi_from(v, i + 1)),
            None => list3(Value::Sym("cons"@), quasi(v[i as int]), quasi_from(v, i + 1)),
        }
    }
}

/// The argument of a form `(splice-unquote x)`.
pub open spec fn splice_of(a: Value) -> Option<Value> {
    match items_of(a) {
        Some(v0) => if v0.len() > 0 && v0[0] == Value::Sym("splice-unquote"@) {
            Some(item(v0, 1))
        } else {
            None
        },
        None => None,
    }
}

/// The outermost frame that the chain of `env` leads to.
pub open spec fn root_env(m: Machine, env: Env) -> Env
    decreases env,
{
    if env < m.envs.len() {
        match m.envs[env as int].outer {
            Some(o) => if o < env {
                root_env(m, o)
            } else {
                env
            },
            None => env,
        }
    } else {
        env
    }
}

/// The macro and its unevaluated arguments, where the form is a list whose
/// head is a symbol bound to a macro.
pub open spec fn macro_call(m: Machine, ast: Value, env: Env) -> Option<(Value, Seq<Value>)> {
    match ast {
        Value::List(v) => if v.len() > 0 && v[0] is Sym {
            match get_env(m, env, v[0]) {
                Ok(f) => match f {
                    Value::MalFunc { is_macro, .. } => if is_macro {
                        Some((f, v.subrange(1, v.len() as int)))
                    } else {
                        None
                    },
                    _ => None,
                },
                Err(_) => None,
            }
        } else {
            None
        },
        _ => None,
    }
}

/// The value of a form in a frame: the evaluator's turns, one after
/// another, until one comes to a result. `d` is how deep the evaluation may
/// still nest, `s` how many turns an evaluation may take at each level, and
/// `f` how many turns are left at this level. A tail call is one more turn
/// at the same level; any other evaluation inside a turn is one level
/// deeper.
pub open spec fn run(m: Machine, ast: Value, env: Env, d: nat, s: nat, f: nat) -> (
    Machine,
    Result<Value, Fault>,
)
    decreases d, f, 0nat, 0nat,
{
    if d == 0 {
        (m, too_deep())
    } else if f == 0 {
        (m, too_long())
    } else {
        match step(m, ast, env, d, s) {
            Step::Done(m2, r) => (m2, r),
            Step::Next(m2, a2, e2) => run(m2, a2, e2, d, s, (f - 1) as nat),
        }
    }
}

/// One turn of the evaluator on a form.
pub open spec fn step(m: Machine, ast: Value, env: Env, d: nat, s: nat) -> Step
    decreases d, 0nat, 9nat, 0nat,
{
    if d == 0 {
        Step::Done(m, too_deep())
    } else {
        let k = (d - 1) as nat;
        match ast {
            Value::Sym(_) => Step::Done(m, get_env(m, env, ast)),
            Value::Vector(v) => {
                let (m1, r) = eval_seq(m, v, env, k, s, 0, Seq::empty());
                match r {
                    Ok(vs) => Step::Done(m1, Ok(Value::Vector(vs))),
                    Err(e) => Step::Done(m1, Err(e)),
                }
            },
            Value::Hash(h) => {
                let (m1, r) = eval_vals(m, h, env, k, s, 0, Seq::empty());
                match r {
                    Ok(hs) => Step::Done(m1, Ok(Value::Hash(hs))),
                    Err(e) => Step::Done(m1, Err(e)),
                }
            },
            Value::List(l) => if l.len() == 0 {
                Step::Done(m, Ok(ast))
            } else {
                let (m1, r, was) = expand(m, ast, env, k, s, s);
                match r {
                    Ok(a1) => if was {
                        Step::Next(m1, a1, env)
                    } else {
                        step_form(m1, l, env, k, s)
                    },
                    Err(e) => Step::Done(m1, Err(e)),
                }
            },
            _ => Step::Done(m, Ok(ast)),
        }
    }
}

/// Macro expansion of a form: while its head names a macro, the macro is
/// applied to the unevaluated arguments and its result takes the form's
/// place. The flag says that the form was expanded and no error came up.
pub open spec fn expand(m: Machine, ast: Value, env: Env, k: nat, s: nat, f: nat) -> (
    Machine,
    Result<Value, Fault>,
    bool,
)
    decreases k, s + 1, 7nat, f,
{
    match macro_call(m, ast, env) {
        Some((mf, args)) => if f == 0 {
            (m, too_long(), false)
        } else {
            let (m1, r) = apply_fn(m, mf, args, k, s);
            match r {
                Ok(a) => {
                    let (m2, r2, _) = expand(m1, a, env, k, s, (f - 1) as nat);
                    (m2, r2, r2 is Ok)
                },
                Err(e) => (m1, Err(e), false),
            }
        },
        None => (m, Ok(ast), false),
    }
}

/// The application of a function value to arguments.
pub open spec fn apply_fn(m: Machine, f: Value, args: Seq<Value>, k: nat, s: nat) -> (
    Machine,
    Result<Value, Fault>,
)
    decreases k, s + 1, 5nat, 0nat,
{
    match f {
        Value::Func(b) => call_builtin(m, b, args, k, s),
        Value::MalFunc { ast, env, params, .. } => {
            let (m1, r) = bind_env(m, Some(env), *params, args);
            match r {
                Ok(fe) => run(m1, *ast, fe, k, s, s),
                Err(e) => (m1, Err(e)),
            }
        },
        _ => (m, fail("attempt to call non-function"@)),
    }
}

/// The state after the contents of cell `i` were set to `v`; a place that
/// names no cell changes nothing.
pub open spec fn set_atom(m: Machine, i: usize, v: Value) -> Machine {
    if i < m.atoms.len() {
        Machine { atoms: m.atoms.update(i as int, v), ..m }
    } else {
        m
    }
}

/// The call of a primitive.
pub open spec fn call_builtin(m: Machine, b: Builtin, a: Seq<Value>, k: nat, s: nat) -> (
    Machine,
    Result<Value, Fault>,
)
    decreases k, s + 1, 4nat, 0nat,
{
    if !is_effectful(b) {
        (m, pure_value(m, b, a))
    } else if a.len() < arity(b) {
        (m, fail("not enough arguments"@))
    } else {
        match b {
            Builtin::Prn => (
                Machine {
                    out: m.out + colored(93, seq_text(a, true, ""@, m.atoms, m.atoms.len())),
                    ..m
                },
                Ok(Value::Nil),
            ),
            Builtin::Atom => (
                Machine { atoms: m.atoms.push(a[0]), ..m },
                Ok(Value::Atom(m.atoms.len() as usize)),
            ),
            Builtin::ResetBang => match a[0] {
                Value::Atom(i) => if i < m.atoms.len() {
                    (set_atom(m, i, a[1]), Ok(a[1]))
                } else {
                    (m, fail("attempt to reset! a non-Atom"@))
                },
                _ => (m, fail("attempt to reset! a non-Atom"@)),
            },
            Builtin::SwapBang => match a[0] {
                Value::Atom(i) => if i >= m.atoms.len() {
                    (m, fail("attempt to swap! a non-Atom"@))
                } else if k == 0 {
                    (m, too_deep())
                } else {
                    let (m1, r) = apply_fn(
                        m,
                        a[1],
                        seq![m.atoms[i as int]] + a.subrange(2, a.len() as int),
                        (k - 1) as nat,
                        s,
                    );
                    match r {
                        Ok(v) => (set_atom(m1, i, v), Ok(v)),
                        Err(e) => (m1, Err(e)),
                    }
                },
                _ => (m, fail("attempt to swap! a non-Atom"@)),
            },
            Builtin::Apply => match items_of(a.last()) {
                Some(v) => if k == 0 {
                    (m, too_deep())
                } else {
                    apply_fn(m, a[0], a.subrange(1, a.len() - 1) + v, (k - 1) as nat, s)
                },
                None => (m, fail("apply called with no-seq"@)),
            },
            _ => match items_of(a[1]) {
                Some(v) => if k == 0 {
                    (m, too_deep())
                } else {
                    let (m1, r) = map_from(m, a[0], v, 0, Seq::empty(), (k - 1) as nat, s);
                    match r {
                        Ok(vs) => (m1, Ok(Value::List(vs))),
                        Err(e) => (m1, Err(e)),
                    }
                },
                None => (m, fail("map called with no-seq"@)),
            },
        }
    }
}

/// The results of applying `f` to each of the items `items[i..]` in turn,
/// put after `acc`.
pub open spec fn map_from(
    m: Machine,
    f: Value,
    items: Seq<Value>,
    i: nat,
    acc: Seq<Value>,
    k: nat,
    s: nat,
) -> (Machine, Result<Seq<Value>, Fault>)
    decreases k, s + 1, 6nat, items.len() - i,
{
    if i >= items.len() {
        (m, Ok(acc))
    } else {
        let (m1, r) = apply_fn(m, f, seq![items[i as int]], k, s);
        match r {
            Ok(v) => map_from(m1, f, items, i + 1, acc.push(v), k, s),
            Err(e) => (m1, Err(e)),
        }
    }
}

/// The values of the forms `items[i..]`, evaluated from left to right, put
/// after `acc`.
pub open spec fn eval_seq(
    m: Machine,
    items: Seq<Value>,
    env: Env,
    k: nat,
    s: nat,
    i: nat,
    acc: Seq<Value>,
) -> (Machine, Result<Seq<Value>, Fault>)
    decreases k, s + 1, 6nat, items.len() - i,
{
    if i >= items.len() {
        (m, Ok(acc))
    } else {
        let (m1, r) = run(m, items[i as int], env, k, s, s);
        match r {
            Ok(v) => eval_seq(m1, items, env, k, s, i + 1, acc.push(v)),
            Err(e) => (m1, Err(e)),
        }
    }
}

/// The entries `h[i..]` with their values evaluated in order, set in `acc`.
pub open spec fn eval_vals(
    m: Machine,
    h: Seq<(Seq<char>, Value)>,
    env: Env,
    k: nat,
    s: nat,
    i: nat,
    acc: Seq<(Seq<char>, Value)>,
) -> (Machine, Result<Seq<(Seq<char>, Value)>, Fault>)
    decreases k, s + 1, 6nat, h.len() - i,
{
    if i >= h.len() {
        (m, Ok(acc))
    } else {
        let (m1, r) = run(m, h[i as int].1, env, k, s, s);
        match r {
            Ok(v) => eval_vals(m1, h, env, k, s, i + 1, put(acc, h[i as int].0, v)),
            Err(e) => (m1, Err(e)),
        }
    }
}

/// The bindings `binds[i..]` of a `let*`, taken in pairs: each form is
/// evaluated in the new frame and bound there to the symbol before it.
pub open spec fn let_from(m: Machine, env: Env, binds: Seq<Value>, i: nat, k: nat, s: nat) -> (
    Machine,
    Result<Value, Fault>,
)
    decreases k, s + 1, 6nat, binds.len() - i,
{
    if i >= binds.len() {
        (m, Ok(Value::Nil))
    } else if i + 1 >= binds.len() {
        (m, fail("let* with non-Sym binding"@))
    } else {
        let (m1, r) = run(m, binds[i as int + 1], env, k, s, s);
        match r {
            Ok(v) => {
                let m2 = match binds[i as int] {
                    Value::Sym(name) => set_env(m1, env, name, v),
                    _ => m1,
                };
                let_from(m2, env, binds, i + 2, k, s)
            },
            Err(e) => (m1, Err(e)),
        }
    }
}

/// The error for a special form that lacks some of its parts.
pub open spec fn malformed() -> Result<Value, Fault> {
    fail("special form lacks an argument"@)
}

/// `(def! name form)`: the value of the form, bound to the name in the
/// current frame.
pub open spec fn form_def(m: Machine, l: Seq<Value>, env: Env, k: nat, s: nat) -> Step
    decreases k, s + 1, 8nat, 0nat,
{
    if l.len() < 3 {
        Step::Done(m, malformed())
    } else {
        let (m1, r) = run(m, l[2], env, k, s, s);
        match r {
            Ok(v) => match l[1] {
                Value::Sym(name) => Step::Done(set_env(m1, env, name, v), Ok(v)),
                _ => Step::Done(m1, fail("Env.set called with non-Str"@)),
            },
            Err(e) => Step::Done(m1, Err(e)),
        }
    }
}

/// `(let* bindings body)`: the body goes on in a new frame that holds the
/// bindings.
pub open spec fn form_let(m: Machine, l: Seq<Value>, env: Env, k: nat, s: nat) -> Step
    decreases k, s + 1, 8nat, 0nat,
{
    if l.len() < 3 {
        Step::Done(m, malformed())
    } else {
        let (m1, inner) = new_frame(m, Some(env));
        match items_of(l[1]) {
            Some(binds) => {
                let (m2, r) = let_from(m1, inner, binds, 0, k, s);
                match r {
                    Ok(_) => Step::Next(m2, l[2], inner),
                    Err(e) => Step::Done(m2, Err(e)),
                }
            },
            None => Step::Done(m1, fail("let* with non-List bindings"@)),
        }
    }
}

/// `(if cond then else)`: the branch that the condition selects goes on;
/// `false` and `nil` select the else-branch, and a branch that is not there
/// gives `nil`.
pub open spec fn form_if(m: Machine, l: Seq<Value>, env: Env, k: nat, s: nat) -> Step
    decreases k, s + 1, 8nat, 0nat,
{
    if l.len() < 2 {
        Step::Done(m, malformed())
    } else {
        let (m1, r) = run(m, l[1], env, k, s, s);
        match r {
            Ok(c) => if c == Value::Bool(false) || c is Nil {
                if l.len() >= 4 {
                    Step::Next(m1, l[3], env)
                } else {
                    Step::Done(m1, Ok(Value::Nil))
                }
            } else if l.len() >= 3 {
                Step::Next(m1, l[2], env)
            } else {
                Step::Done(m1, Ok(Value::Nil))
            },
            Err(e) => Step::Done(m1, Err(e)),
        }
    }
}

/// `(do form ... last)`: the forms before the last are evaluated for their
/// effect, and the last goes on.
pub open spec fn form_do(m: Machine, l: Seq<Value>, env: Env, k: nat, s: nat) -> Step
    decreases k, s + 1, 8nat, 0nat,
{
    if l.len() < 2 {
        Step::Next(m, l.last(), env)
    } else {
        let (m1, r) = eval_seq(m, l.subrange(1, l.len() - 1), env, k, s, 0, Seq::empty());
        match r {
            Ok(_) => Step::Next(m1, l.last(), env),
            Err(e) => Step::Done(m1, Err(e)),
        }
    }
}

/// `(eval form)`: the value of the form goes on as a form in the outermost
/// frame.
pub open spec fn form_eval(m: Machine, l: Seq<Value>, env: Env, k: nat, s: nat) -> Step
    decreases k, s + 1, 8nat, 0nat,
{
    if l.len() < 2 {
        Step::Done(m, malformed())
    } else {
        let (m1, r) = run(m, l[1], env, k, s, s);
        match r {
            Ok(a) => Step::Next(m1, a, root_env(m1, env)),
            Err(e) => Step::Done(m1, Err(e)),
        }
    }
}

/// The value that a catch block sees of an error: a thrown value itself, a
/// message as a string.
pub open spec fn caught(e: Fault) -> Value {
    match e {
        Fault::Val(v) => v,
        Fault::Msg(t) => Value::Str(t),
    }
}

/// `(try* form (catch* name handler))`: the value of the form; where the
/// form fails and a catch block is there, the value of the handler in a new
/// frame that binds the name to the error.
pub open spec fn form_try(m: Machine, l: Seq<Value>, env: Env, k: nat, s: nat) -> Step
    decreases k, s + 1, 8nat, 0nat,
{
    if l.len() < 2 {
        Step::Done(m, malformed())
    } else {
        let (m1, r) = run(m, l[1], env, k, s, s);
        match r {
            Ok(v) => Step::Done(m1, Ok(v)),
            Err(e) => if l.len() >= 3 {
                match l[2] {
                    Value::List(c) => if c.len() < 3 {
                        Step::Done(m1, fail("invalid catch block"@))
                    } else {
                        let (m2, b) = bind_env(
                            m1,
                            Some(env),
                            Value::List(seq![c[1]]),
                            seq![caught(e)],
                        );
                        match b {
                            Ok(ce) => {
                                let (m3, r3) = run(m2, c[2], ce, k, s, s);
                                Step::Done(m3, r3)
                            },
                            Err(e2) => Step::Done(m2, Err(e2)),
                        }
                    },
                    _ => Step::Done(m1, fail("invalid catch block"@)),
                }
            } else {
                Step::Done(m1, Err(e))
            },
        }
    }
}

/// `(defmacro! name form)`: the closure that the form gives, flagged as a
/// macro and bound to the name in the current frame.
pub open spec fn form_defmacro(m: Machine, l: Seq<Value>, env: Env, k: nat, s: nat) -> Step
    decreases k, s + 1, 8nat, 0nat,
{
    if l.len() < 3 {
        Step::Done(m, malformed())
    } else {
        let (m1, r) = run(m, l[2], env, k, s, s);
        match r {
            Ok(v) => match v {
                Value::MalFunc { ast, env: fenv, params, .. } => {
                    let mac = Value::MalFunc {
                        ast: ast,
                        env: fenv,
                        params: params,
                        is_macro: true,
                        meta: Box::new(Value::Nil),
                    };
                    match l[1] {
                        Value::Sym(name) => Step::Done(set_env(m1, env, name, mac), Ok(mac)),
                        _ => Step::Done(m1, fail("Env.set called with non-Str"@)),
                    }
                },
                _ => Step::Done(m1, fail("set_macro on non-function"@)),
            },
            Err(e) => Step::Done(m1, Err(e)),
        }
    }
}

/// A call: the items of the list are evaluated from left to right; a
/// primitive at the head is called, and the body of a closure at the head
/// goes on in a new frame that binds its parameters to the arguments.
pub open spec fn form_call(m: Machine, l: Seq<Value>, env: Env, k: nat, s: nat) -> Step
    decreases k, s + 1, 8nat, 0nat,
{
    let (m1, r) = eval_seq(m, l, env, k, s, 0, Seq::empty());
    match r {
        Ok(el) => if el.len() == 0 {
            Step::Done(m1, fail("expected a list"@))
        } else {
            let args = el.subrange(1, el.len() as int);
            match el[0] {
                Value::Func(b) => {
                    let (m2, r2) = call_builtin(m1, b, args, k, s);
                    Step::Done(m2, r2)
                },
                Value::MalFunc { ast, env: fenv, params, .. } => {
                    let (m2, b) = bind_env(m1, Some(fenv), *params, args);
                    match b {
                        Ok(fe) => Step::Next(m2, *ast, fe),
                        Err(e) => Step::Done(m2, Err(e)),
                    }
                },
                _ => Step::Done(m1, fail("attempt to call non-function"@)),
            }
        },
        Err(e) => Step::Done(m1, Err(e)),
    }
}

/// One turn of the evaluator on a list that is no macro call: the special
/// form that its head names, or a call.
pub open spec fn step_form(m: Machine, l: Seq<Value>, env: Env, k: nat, s: nat) -> Step
    decreases k, s + 1, 10nat, 0nat,
{
    match item(l, 0) {
        Value::Sym(h) => if h == "def!"@ {
            form_def(m, l, env, k, s)
        } else if h == "let*"@ {
            form_let(m, l, env, k, s)
        } else if h == "lambda"@ {
            if l.len() < 3 {
                Step::Done(m, malformed())
            } else {
                Step::Done(
                    m,
                    Ok(
                        Value::MalFunc {
                            ast: Box::new(l[2]),
                            env: env,
                            params: Box::new(l[1]),
                            is_macro: false,
                            meta: Box::new(Value::Nil),
                        },
                    ),
                )
            }
        } else if h == "if"@ {
            form_if(m, l, env, k, s)
        } else if h == "do"@ {
            form_do(m, l, env, k, s)
        } else if h == "quote"@ {
            if l.len() < 2 {
                Step::Done(m, malformed())
            } else {
                Step::Done(m, Ok(l[1]))
            }
        } else if h == "quasiquote"@ {
            if l.len() < 2 {
                Step::Done(m, malformed())
            } else {
                Step::Next(m, quasi(l[1]), env)
            }
        } else if h == "eval"@ {
            form_eval(m, l, env, k, s)
        } else if h == "try*"@ {
            form_try(m, l, env, k, s)
        } else if h == "defmacro!"@ {
            form_defmacro(m, l, env, k, s)
        } else if h == "macroexpand"@ {
            if l.len() < 2 {
                Step::Done(m, malformed())
            } else {
                let (m1, r, _) = expand(m, l[1], env, k, s, s);
                Step::Done(m1, r)
            }
        } else {
            form_call(m, l, env, k, s)
        },
        _ => form_call(m, l, env, k, s),
    }
}

/// What one turn of the evaluator came to.
pub enum Turn {
    Done(MalRet),
    Next(MalVal, Env),
}

/// What a turn denotes in the state in which it ended.
pub open spec fn turn_view(m: Machine, t: Turn) -> Step {
    match t {
        Turn::Done(r) => Step::Done(m, ret_view(r)),
        Turn::Next(a, e) => Step::Next(m, a@, e),
    }
}

/// What a result that carries a sequence of values denotes.
pub open spec fn seq_view(r: Result<Vec<MalVal>, MalErr>) -> Result<Seq<Value>, Fault> {
    match r {
        Ok(v) => Ok(views(v@)),
        Err(e) => Err(e@),
    }
}

/// What a result that carries a table denotes.
pub open spec fn table_view(r: Result<Table, MalErr>) -> Result<Seq<(Seq<char>, Value)>, Fault> {
    match r {
        Ok(t) => Ok(t@),
        Err(e) => Err(e@),
    }
}

fn list2(a: MalVal, b: MalVal) -> (r: MalVal)
    ensures
        r@ == Value::List(seq![a@, b@]),
{
    let mut v: Vec<MalVal> = Vec::new();
    v.push(a);
    v.push(b);
    proof {
        lemma_views(v@);
        assert(views(v@) =~= seq![a@, b@]);
    }
    list(v)
}

fn list_of3(a: MalVal, b: MalVal, c: MalVal) -> (r: MalVal)
    ensures
        r@ == list3(a@, b@, c@),
{
    let mut v: Vec<MalVal> = Vec::new();
    v.push(a);
    v.push(b);
    v.push(c);
    proof {
        lemma_views(v@);
        assert(views(v@) =~= seq![a@, b@, c@]);
    }
    list(v)
}

fn item_at(v: &Vec<MalVal>, i: usize) -> (r: MalVal)
    ensures
        r@ == item(views(v@), i as int),
{
    proof {
        lemma_views(v@);
    }
    if i < v.len() {
        v[i].clone()
    } else {
        MalVal::Nil
    }
}

fn is_sym(v: &MalVal, name: &str) -> (r: bool)
    ensures
        r == (v@ == Value::Sym(name@)),
{
    match v {
        MalVal::Sym(s) => text_eq(s.as_str(), name),
        _ => false,
    }
}

fn splice_arg(a: &MalVal) -> (r: Option<MalVal>)
    ensures
        match r {
            Some(x) => splice_of(a@) == Some(x@),
            None => splice_of(a@) is None,
        },
{
    let v0 = match a {
        MalVal::List(v) => v,
        MalVal::Vector(v) => v,
        _ => {
            return None;
        },
    };
    proof {
        lemma_views(v0@);
    }
    if v0.len() > 0 && is_sym(&v0[0], "splice-unquote") {
        Some(item_at(v0, 1))
    } else {
        None
    }
}

fn quasi_items(v: &Vec<MalVal>, i: usize) -> (r: MalVal)
    ensures
        r@ == quasi_from(views(v@), i as nat),
    decreases v, v.len() - i,
{
    proof {
        lemma_views(v@);
    }
    if i >= v.len() {
        let e = list(Vec::new());
        assert(views(Seq::<MalVal>::empty()) =~= Seq::<Value>::empty());
        list2(sym("quote"), e)
    } else if is_sym(&v[i], "unquote") {
        item_at(v, i + 1)
    } else {
        match splice_arg(&v[i]) {
            Some(x) => list_of3(sym("concat"), x, quasi_items(v, i + 1)),
            None => list_of3(sym("cons"), quasiquote(&v[i]), quasi_items(v, i + 1)),
        }
    }
}

/// Expands a quasiquoted form into calls of `cons` and `concat`.
pub fn quasiquote(ast: &MalVal) -> (r: MalVal)
    ensures
        r@ == quasi(ast@),
    decreases ast, 0nat,
{
    match ast {
        MalVal::List(v) => {
            proof {
                lemma_views(v@);
            }
            if v.len() > 0 {
                quasi_items(v, 0)
            } else {
                list2(sym("quote"), ast.clone())
            }
        },
        MalVal::Vector(v) => {
            proof {
                lemma_views(v@);
            }
            if v.len() > 0 {
                quasi_items(v, 0)
            } else {
                list2(sym("quote"), ast.clone())
            }
        },
        _ => list2(sym("quote"), ast.clone()),
    }
}

fn root_of(ctx: &Interp, env: Env) -> (r: Env)
    ensures
        r == root_env(ctx@, env),
{
    let mut cur = env;
    loop
        invariant
            root_env(ctx@, env) == root_env(ctx@, cur),
        decreases cur,
    {
        if cur >= ctx.envs.len() {
            return cur;
        }
        match ctx.envs[cur].outer {
            Some(o) => {
                if o < cur {
                    cur = o;
                } else {
                    return cur;
                }
            },
            None => {
                return cur;
            },
        }
    }
}

/// What a found macro call denotes.
pub open spec fn call_view(r: Option<(MalVal, MalArgs)>) -> Option<(Value, Seq<Value>)> {
    match r {
        Some((f, a)) => Some((f@, views(a@))),
        None => None,
    }
}

/// Whether a form is a call of a macro; if so, the macro and the
/// unevaluated arguments.
pub fn is_macro_call(ctx: &Interp, ast: &MalVal, env: Env) -> (r: Option<(MalVal, MalArgs)>)
    ensures
        call_view(r) == macro_call(ctx@, ast@, env),
{
    match ast {
        MalVal::List(v) => {
            proof {
                lemma_views(v@);
            }
            if v.len() == 0 {
                return None;
            }
            match &v[0] {
                MalVal::Sym(_) => match env_get(ctx, env, &v[0]) {
                    Ok(f) => {
                        let is_mac = match &f {
                            MalVal::MalFunc { is_macro, .. } => *is_macro,
                            _ => false,
                        };
                        if is_mac {
                            proof {
                                lemma_views_subrange(v@, 1, v.len() as int);
                            }
                            Some((f, tail_of(v, 1)))
                        } else {
                            None
                        }
                    },
                    Err(_) => None,
                },
                _ => None,
            }
        },
        _ => None,
    }
}

/// Makes a reference cell that holds the given value.
pub fn atom(ctx: &mut Interp, mv: &MalVal) -> (r: MalVal)
    ensures
        (final(ctx)@, Ok::<Value, Fault>(r@)) == call_builtin(
            old(ctx)@,
            Builtin::Atom,
            seq![mv@],
            0,
            0,
        ),
{
    let i = ctx.atoms.len();
    proof {
        lemma_views(ctx.atoms@);
        lemma_views_push(ctx.atoms@, *mv);
    }
    ctx.atoms.push(mv.clone());
    MalVal::Atom(i)
}

impl MalVal {
    /// Sets the contents of a reference cell, and gives the new contents
    /// back.
    pub fn reset_bang(&self, ctx: &mut Interp, new: &MalVal) -> (r: MalRet)
        ensures
            (final(ctx)@, ret_view(r)) == call_builtin(
                old(ctx)@,
                Builtin::ResetBang,
                seq![self@, new@],
                0,
                0,
            ),
    {
        proof {
            lemma_views(ctx.atoms@);
        }
        match self {
            MalVal::Atom(i) => {
                if *i < ctx.atoms.len() {
                    proof {
                        lemma_views_update(ctx.atoms@, *i as int, *new);
                    }
                    ctx.atoms.set(*i, new.clone());
                    Ok(new.clone())
                } else {
                    error("attempt to reset! a non-Atom")
                }
            },
            _ => error("attempt to reset! a non-Atom"),
        }
    }
}

fn store_atom(ctx: &mut Interp, i: usize, v: &MalVal)
    ensures
        final(ctx)@ == set_atom(old(ctx)@, i, v@),
{
    proof {
        lemma_views(ctx.atoms@);
    }
    if i < ctx.atoms.len() {
        proof {
            lemma_views_update(ctx.atoms@, i as int, *v);
        }
        ctx.atoms.set(i, v.clone());
    }
}

fn prn(ctx: &mut Interp, a: &MalArgs)
    ensures
        (final(ctx)@, Ok::<Value, Fault>(Value::Nil)) == call_builtin(
            old(ctx)@,
            Builtin::Prn,
            views(a@),
            0,
            0,
        ),
{
    let t = pr_seq(a, true, "", "", "", ctx);
    proof {
        reveal_strlit("");
        assert(t@ =~= seq_text(views(a@), true, ""@, ctx@.atoms, ctx@.atoms.len()));
    }
    print_in_color(&mut ctx.out, 93, t.as_str());
}

fn effectful(b: Builtin) -> (r: bool)
    ensures
        r == is_effectful(b),
{
    match b {
        Builtin::Prn | Builtin::Atom | Builtin::ResetBang | Builtin::SwapBang | Builtin::Apply
        | Builtin::MapEach => true,
        _ => false,
    }
}

fn run_at(ctx: &mut Interp, ast: MalVal, env: Env, d: usize, s: usize) -> (r: MalRet)
    ensures
        (final(ctx)@, ret_view(r)) == run(old(ctx)@, ast@, env, d as nat, s as nat, s as nat),
    decreases d, s, 0nat, 0nat,
{
    if d == 0 {
        return error("evaluation nests too deep");
    }
    let ghost goal = run(ctx@, ast@, env, d as nat, s as nat, s as nat);
    let mut cur = ast;
    let mut cur_env = env;
    let mut f = s;
    loop
        invariant
            d > 0,
            f <= s,
            goal == run(old(ctx)@, ast@, env, d as nat, s as nat, s as nat),
            goal == run(ctx@, cur@, cur_env, d as nat, s as nat, f as nat),
        decreases f,
    {
        if f == 0 {
            return error("evaluation takes too many steps");
        }
        match step_at(ctx, &cur, cur_env, d, s) {
            Turn::Done(r) => {
                return r;
            },
            Turn::Next(a, e) => {
                cur = a;
                cur_env = e;
                f = f - 1;
            },
        }
    }
}

fn step_at(ctx: &mut Interp, ast: &MalVal, env: Env, d: usize, s: usize) -> (r: Turn)
    ensures
        turn_view(final(ctx)@, r) == step(old(ctx)@, ast@, env, d as nat, s as nat),
    decreases d, 0nat, 9nat, 0nat,
{
    if d == 0 {
        return Turn::Done(error("evaluation nests too deep"));
    }
    let k = d - 1;
    match ast {
        MalVal::Sym(_) => Turn::Done(env_get(ctx, env, ast)),
        MalVal::Vector(v) => match eval_items(ctx, v, env, k, s) {
            Ok(vs) => Turn::Done(Ok(vector(vs))),
            Err(e) => Turn::Done(Err(e)),
        },
        MalVal::Hash(t) => match eval_table(ctx, t, env, k, s) {
            Ok(t2) => Turn::Done(Ok(MalVal::Hash(Rc::new(t2)))),
            Err(e) => Turn::Done(Err(e)),
        },
        MalVal::List(l) => {
            proof {
                lemma_views(l@);
            }
            if l.len() == 0 {
                Turn::Done(Ok(ast.clone()))
            } else {
                let (was, r) = macroexpand_at(ctx, ast.clone(), env, k, s);
                match r {
                    Ok(a1) => {
                        if was {
                            Turn::Next(a1, env)
                        } else {
                            step_form_at(ctx, l, env, k, s)
                        }
                    },
                    Err(e) => Turn::Done(Err(e)),
                }
            }
        },
        _ => Turn::Done(Ok(ast.clone())),
    }
}

fn eval_items(ctx: &mut Interp, items: &Vec<MalVal>, env: Env, k: usize, s: usize) -> (r: Result<
    Vec<MalVal>,
    MalErr,
>)
    ensures
        (final(ctx)@, seq_view(r)) == eval_seq(
            old(ctx)@,
            views(items@),
            env,
            k as nat,
            s as nat,
            0,
            Seq::empty(),
        ),
    decreases k, s + 1, 6nat, 0nat,
{
    let ghost goal = eval_seq(ctx@, views(items@), env, k as nat, s as nat, 0, Seq::empty());
    let mut out: Vec<MalVal> = Vec::new();
    let mut i: usize = 0;
    proof {
        lemma_views(items@);
        assert(views(out@) =~= Seq::<Value>::empty());
    }
    while i < items.len()
        invariant
            i <= items.len(),
            views(items@).len() == items.len(),
            forall|j: int| 0 <= j < items.len() ==> (#[trigger] views(items@)[j]) == items@[j]@,
            goal == eval_seq(old(ctx)@, views(items@), env, k as nat, s as nat, 0, Seq::empty()),
            goal == eval_seq(ctx@, views(items@), env, k as nat, s as nat, i as nat, views(out@)),
        decreases items.len() - i,
    {
        assert(views(items@)[i as int] == items@[i as int]@);
        match run_at(ctx, items[i].clone(), env, k, s) {
            Ok(v) => {
                proof {
                    lemma_views_push(out@, v);
                }
                out.push(v);
            },
            Err(e) => {
                return Err(e);
            },
        }
        i += 1;
    }
    Ok(out)
}

fn eval_table(ctx: &mut Interp, t: &Table, env: Env, k: usize, s: usize) -> (r: Result<
    Table,
    MalErr,
>)
    ensures
        (final(ctx)@, table_view(r)) == eval_vals(
            old(ctx)@,
            t@,
            env,
            k as nat,
            s as nat,
            0,
            Seq::empty(),
        ),
    decreases k, s + 1, 6nat, 0nat,
{
    let ghost goal = eval_vals(ctx@, t@, env, k as nat, s as nat, 0, Seq::empty());
    let mut out = Table::new();
    let n = t.len();
    let mut i: usize = 0;
    while i < n
        invariant
            i <= n,
            n == t@.len(),
            goal == eval_vals(old(ctx)@, t@, env, k as nat, s as nat, 0, Seq::empty()),
            goal == eval_vals(ctx@, t@, env, k as nat, s as nat, i as nat, out@),
        decreases n - i,
    {
        match run_at(ctx, t.val_at(i).clone(), env, k, s) {
            Ok(v) => {
                out.insert(t.key_at(i).clone(), v);
            },
            Err(e) => {
                return Err(e);
            },
        }
        i += 1;
    }
    Ok(out)
}

fn let_binds(ctx: &mut Interp, env: Env, binds: &Vec<MalVal>, k: usize, s: usize) -> (r: MalRet)
    ensures
        (final(ctx)@, ret_view(r)) == let_from(
            old(ctx)@,
            env,
            views(binds@),
            0,
            k as nat,
            s as nat,
        ),
    decreases k, s + 1, 6nat, 0nat,
{
    let ghost goal = let_from(ctx@, env, views(binds@), 0, k as nat, s as nat);
    let mut i: usize = 0;
    proof {
        lemma_views(binds@);
    }
    while i < binds.len()
        invariant
            i <= binds.len(),
            views(binds@).len() == binds.len(),
            forall|j: int| 0 <= j < binds.len() ==> (#[trigger] views(binds@)[j]) == binds@[j]@,
            goal == let_from(old(ctx)@, env, views(binds@), 0, k as nat, s as nat),
            goal == let_from(ctx@, env, views(binds@), i as nat, k as nat, s as nat),
        decreases binds.len() - i,
    {
        if i + 1 >= binds.len() {
            return error("let* with non-Sym binding");
        }
        assert(views(binds@)[i as int] == binds@[i as int]@);
        assert(views(binds@)[i + 1] == binds@[i + 1]@);
        match run_at(ctx, binds[i + 1].clone(), env, k, s) {
            Ok(v) => {
                match &binds[i] {
                    MalVal::Sym(name) => {
                        env_sets(ctx, env, name.as_str(), v);
                    },
                    _ => {},
                }
            },
            Err(e) => {
                return Err(e);
            },
        }
        i += 2;
    }
    Ok(MalVal::Nil)
}

fn macroexpand_at(ctx: &mut Interp, ast: MalVal, env: Env, k: usize, s: usize) -> (r: (
    bool,
    MalRet,
))
    ensures
        (final(ctx)@, ret_view(r.1), r.0) == expand(
            old(ctx)@,
            ast@,
            env,
            k as nat,
            s as nat,
            s as nat,
        ),
    decreases k, s + 1, 7nat, 0nat,
{
    let ghost goal = expand(ctx@, ast@, env, k as nat, s as nat, s as nat);
    let mut cur = ast;
    let mut was = false;
    let mut f = s;
    loop
        invariant
            f <= s,
            goal == expand(old(ctx)@, ast@, env, k as nat, s as nat, s as nat),
            goal == expanded(was, expand(ctx@, cur@, env, k as nat, s as nat, f as nat)),
        decreases f,
    {
        match is_macro_call(ctx, &cur, env) {
            Some((mf, args)) => {
                if f == 0 {
                    return (false, error("evaluation takes too many steps"));
                }
                match apply_at(ctx, &mf, args, k, s) {
                    Ok(a) => {
                        cur = a;
                        was = true;
                        f = f - 1;
                    },
                    Err(e) => {
                        return (false, Err(e));
                    },
                }
            },
            None => {
                return (was, Ok(cur));
            },
        }
    }
}

/// What an expansion comes to after earlier rounds: once a round has
/// expanded the form, the flag says whether the rest succeeded.
pub open spec fn expanded(was: bool, r: (Machine, Result<Value, Fault>, bool)) -> (
    Machine,
    Result<Value, Fault>,
    bool,
) {
    (
        r.0,
        r.1,
        if was {
            r.1 is Ok
        } else {
            r.2
        },
    )
}

fn apply_at(ctx: &mut Interp, f: &MalVal, args: MalArgs, k: usize, s: usize) -> (r: MalRet)
    ensures
        (final(ctx)@, ret_view(r)) == apply_fn(
            old(ctx)@,
            f@,
            views(args@),
            k as nat,
            s as nat,
        ),
    decreases k, s + 1, 5nat, 0nat,
{
    match f {
        MalVal::Func(b) => call_builtin_at(ctx, *b, &args, k, s),
        MalVal::MalFunc { ast, env, params, .. } => {
            let p: &MalVal = params;
            let a: &MalVal = ast;
            match env_bind(ctx, Some(*env), p.clone(), args) {
                Ok(fe) => run_at(ctx, a.clone(), fe, k, s),
                Err(e) => Err(e),
            }
        },
        _ => error("attempt to call non-function"),
    }
}

fn map_items(ctx: &mut Interp, f: &MalVal, items: &Vec<MalVal>, k: usize, s: usize) -> (r: Result<
    Vec<MalVal>,
    MalErr,
>)
    ensures
        (final(ctx)@, seq_view(r)) == map_from(
            old(ctx)@,
            f@,
            views(items@),
            0,
            Seq::empty(),
            k as nat,
            s as nat,
        ),
    decreases k, s + 1, 6nat, 0nat,
{
    let ghost goal = map_from(ctx@, f@, views(items@), 0, Seq::empty(), k as nat, s as nat);
    let mut out: Vec<MalVal> = Vec::new();
    let mut i: usize = 0;
    proof {
        lemma_views(items@);
        assert(views(out@) =~= Seq::<Value>::empty());
    }
    while i < items.len()
        invariant
            i <= items.len(),
            views(items@).len() == items.len(),
            forall|j: int| 0 <= j < items.len() ==> (#[trigger] views(items@)[j]) == items@[j]@,
            goal == map_from(old(ctx)@, f@, views(items@), 0, Seq::empty(), k as nat, s as nat),
            goal == map_from(ctx@, f@, views(items@), i as nat, views(out@), k as nat, s as nat),
        decreases items.len() - i,
    {
        assert(views(items@)[i as int] == items@[i as int]@);
        let mut one: Vec<MalVal> = Vec::new();
        one.push(items[i].clone());
        proof {
            lemma_views(one@);
            assert(views(one@) =~= seq![items@[i as int]@]);
        }
        match apply_at(ctx, f, one, k, s) {
            Ok(v) => {
                proof {
                    lemma_views_push(out@, v);
                }
                out.push(v);
            },
            Err(e) => {
                return Err(e);
            },
        }
        i += 1;
    }
    Ok(out)
}

fn joined(head: Vec<MalVal>, from: &Vec<MalVal>, lo: usize, hi: usize, tail: &Vec<MalVal>) -> (r:
    Vec<MalVal>)
    requires
        lo <= hi <= from.len(),
    ensures
        views(r@) == views(head@) + views(from@).subrange(lo as int, hi as int) + views(tail@),
{
    let mut out = head;
    let mut i: usize = lo;
    assert(out@ =~= head@ + from@.subrange(lo as int, lo as int));
    while i < hi
        invariant
            lo <= i <= hi,
            hi <= from.len(),
            out@ == head@ + from@.subrange(lo as int, i as int),
        decreases hi - i,
    {
        out.push(from[i].clone());
        i += 1;
        assert(head@ + from@.subrange(lo as int, i as int) =~= (head@ + from@.subrange(
            lo as int,
            i - 1,
        )).push(from@[i - 1]));
    }
    let ghost mid = out@;
    let mut j: usize = 0;
    assert(out@ =~= mid + tail@.subrange(0, 0));
    while j < tail.len()
        invariant
            j <= tail.len(),
            out@ == mid + tail@.subrange(0, j as int),
        decreases tail.len() - j,
    {
        out.push(tail[j].clone());
        j += 1;
        assert(mid + tail@.subrange(0, j as int) =~= (mid + tail@.subrange(0, j - 1)).push(
            tail@[j - 1],
        ));
    }
    proof {
        assert(tail@.subrange(0, tail.len() as int) == tail@);
        lemma_views_add(head@ + from@.subrange(lo as int, hi as int), tail@);
        lemma_views_add(head@, from@.subrange(lo as int, hi as int));
        lemma_views_subrange(from@, lo as int, hi as int);
    }
    out
}

fn call_builtin_at(ctx: &mut Interp, b: Builtin, a: &MalArgs, k: usize, s: usize) -> (r: MalRet)
    ensures
        (final(ctx)@, ret_view(r)) == call_builtin(
            old(ctx)@,
            b,
            views(a@),
            k as nat,
            s as nat,
        ),
    decreases k, s + 1, 4nat, 0nat,
{
    proof {
        lemma_views(a@);
        lemma_views(ctx.atoms@);
    }
    if !effectful(b) {
        return call_pure(ctx, b, a);
    }
    let need: usize = match b {
        Builtin::Prn => 0,
        Builtin::Atom => 1,
        _ => 2,
    };
    if a.len() < need {
        return error("not enough arguments");
    }
    match b {
        Builtin::Prn => {
            prn(ctx, a);
            Ok(MalVal::Nil)
        },
        Builtin::Atom => {
            let r = atom(ctx, &a[0]);
            Ok(r)
        },
        Builtin::ResetBang => {
            let r = a[0].reset_bang(ctx, &a[1]);
            r
        },
        Builtin::SwapBang => match &a[0] {
            MalVal::Atom(i) => {
                if *i >= ctx.atoms.len() {
                    return error("attempt to swap! a non-Atom");
                }
                if k == 0 {
                    return error("evaluation nests too deep");
                }
                let mut head: Vec<MalVal> = Vec::new();
                head.push(ctx.atoms[*i].clone());
                proof {
                    lemma_views(head@);
                    assert(views(head@) =~= seq![ctx.atoms@[*i as int]@]);
                    assert(views(Seq::<MalVal>::empty()) =~= Seq::<Value>::empty());
                }
                let none: Vec<MalVal> = Vec::new();
                let fargs = joined(head, a, 2, a.len(), &none);
                proof {
                    assert(views(fargs@) =~= seq![ctx@.atoms[*i as int]] + views(a@).subrange(
                        2,
                        a.len() as int,
                    ));
                }
                match apply_at(ctx, &a[1], fargs, k - 1, s) {
                    Ok(v) => {
                        store_atom(ctx, *i, &v);
                        Ok(v)
                    },
                    Err(e) => Err(e),
                }
            },
            _ => error("attempt to swap! a non-Atom"),
        },
        Builtin::Apply => match get_items(&a[a.len() - 1]) {
            Some(v) => {
                if k == 0 {
                    return error("evaluation nests too deep");
                }
                proof {
                    assert(views(Seq::<MalVal>::empty()) =~= Seq::<Value>::empty());
                }
                let fargs = joined(Vec::new(), a, 1, a.len() - 1, v);
                proof {
                    assert(views(fargs@) =~= views(a@).subrange(1, a.len() - 1) + views(v@));
                }
                apply_at(ctx, &a[0], fargs, k - 1, s)
            },
            None => error("apply called with no-seq"),
        },
        _ => match get_items(&a[1]) {
            Some(v) => {
                if k == 0 {
                    return error("evaluation nests too deep");
                }
                match map_items(ctx, &a[0], v, k - 1, s) {
                    Ok(vs) => Ok(list(vs)),
                    Err(e) => Err(e),
                }
            },
            None => error("map called with no-seq"),
        },
    }
}

fn eval_def(ctx: &mut Interp, l: &Vec<MalVal>, env: Env, k: usize, s: usize) -> (r: Turn)
    ensures
        turn_view(final(ctx)@, r) == form_def(old(ctx)@, views(l@), env, k as nat, s as nat),
    decreases k, s + 1, 8nat, 0nat,
{
    proof {
        lemma_views(l@);
    }
    if l.len() < 3 {
        return Turn::Done(error("special form lacks an argument"));
    }
    match run_at(ctx, l[2].clone(), env, k, s) {
        Ok(v) => match &l[1] {
            MalVal::Sym(name) => {
                env_sets(ctx, env, name.as_str(), v.clone());
                Turn::Done(Ok(v))
            },
            _ => Turn::Done(error("Env.set called with non-Str")),
        },
        Err(e) => Turn::Done(Err(e)),
    }
}

fn eval_let(ctx: &mut Interp, l: &Vec<MalVal>, env: Env, k: usize, s: usize) -> (r: Turn)
    ensures
        turn_view(final(ctx)@, r) == form_let(old(ctx)@, views(l@), env, k as nat, s as nat),
    decreases k, s + 1, 8nat, 0nat,
{
    proof {
        lemma_views(l@);
    }
    if l.len() < 3 {
        return Turn::Done(error("special form lacks an argument"));
    }
    let inner = env_new(ctx, Some(env));
    match get_items(&l[1]) {
        Some(binds) => match let_binds(ctx, inner, binds, k, s) {
            Ok(_) => Turn::Next(l[2].clone(), inner),
            Err(e) => Turn::Done(Err(e)),
        },
        None => Turn::Done(error("let* with non-List bindings")),
    }
}

fn eval_if(ctx: &mut Interp, l: &Vec<MalVal>, env: Env, k: usize, s: usize) -> (r: Turn)
    ensures
        turn_view(final(ctx)@, r) == form_if(old(ctx)@, views(l@), env, k as nat, s as nat),
    decreases k, s + 1, 8nat, 0nat,
{
    proof {
        lemma_views(l@);
    }
    if l.len() < 2 {
        return Turn::Done(error("special form lacks an argument"));
    }
    match run_at(ctx, l[1].clone(), env, k, s) {
        Ok(c) => {
            let falsy = match c {
                MalVal::Bool(b) => !b,
                MalVal::Nil => true,
                _ => false,
            };
            if falsy {
                if l.len() >= 4 {
                    Turn::Next(l[3].clone(), env)
                } else {
                    Turn::Done(Ok(MalVal::Nil))
                }
            } else if l.len() >= 3 {
                Turn::Next(l[2].clone(), env)
            } else {
                Turn::Done(Ok(MalVal::Nil))
            }
        },
        Err(e) => Turn::Done(Err(e)),
    }
}

fn eval_do(ctx: &mut Interp, l: &Vec<MalVal>, env: Env, k: usize, s: usize) -> (r: Turn)
    requires
        l.len() > 0,
    ensures
        turn_view(final(ctx)@, r) == form_do(old(ctx)@, views(l@), env, k as nat, s as nat),
    decreases k, s + 1, 8nat, 0nat,
{
    proof {
        lemma_views(l@);
    }
    let n = l.len();
    if n < 2 {
        return Turn::Next(l[n - 1].clone(), env);
    }
    proof {
        assert(views(Seq::<MalVal>::empty()) =~= Seq::<Value>::empty());
    }
    let none: Vec<MalVal> = Vec::new();
    let body = joined(Vec::new(), l, 1, n - 1, &none);
    proof {
        assert(views(body@) =~= views(l@).subrange(1, n - 1));
    }
    match eval_items(ctx, &body, env, k, s) {
        Ok(_) => Turn::Next(l[n - 1].clone(), env),
        Err(e) => Turn::Done(Err(e)),
    }
}

fn eval_eval(ctx: &mut Interp, l: &Vec<MalVal>, env: Env, k: usize, s: usize) -> (r: Turn)
    ensures
        turn_view(final(ctx)@, r) == form_eval(old(ctx)@, views(l@), env, k as nat, s as nat),
    decreases k, s + 1, 8nat, 0nat,
{
    proof {
        lemma_views(l@);
    }
    if l.len() < 2 {
        return Turn::Done(error("special form lacks an argument"));
    }
    match run_at(ctx, l[1].clone(), env, k, s) {
        Ok(a) => {
            let root = root_of(ctx, env);
            Turn::Next(a, root)
        },
        Err(e) => Turn::Done(Err(e)),
    }
}

fn eval_try(ctx: &mut Interp, l: &Vec<MalVal>, env: Env, k: usize, s: usize) -> (r: Turn)
    ensures
        turn_view(final(ctx)@, r) == form_try(old(ctx)@, views(l@), env, k as nat, s as nat),
    decreases k, s + 1, 8nat, 0nat,
{
    proof {
        lemma_views(l@);
    }
    if l.len() < 2 {
        return Turn::Done(error("special form lacks an argument"));
    }
    match run_at(ctx, l[1].clone(), env, k, s) {
        Ok(v) => Turn::Done(Ok(v)),
        Err(e) => {
            if l.len() >= 3 {
                match &l[2] {
                    MalVal::List(c) => {
                        proof {
                            lemma_views(c@);
                        }
                        if c.len() < 3 {
                            return Turn::Done(error("invalid catch block"));
                        }
                        let exc = match e {
                            MalErr::ErrMalVal(v) => v,
                            MalErr::ErrString(t) => MalVal::Str(t),
                        };
                        let mut names: Vec<MalVal> = Vec::new();
                        names.push(c[1].clone());
                        let mut vals: Vec<MalVal> = Vec::new();
                        vals.push(exc);
                        proof {
                            lemma_views(names@);
                            lemma_views(vals@);
                            assert(views(names@) =~= seq![c@[1]@]);
                            assert(views(vals@) =~= seq![exc@]);
                        }
                        match env_bind(ctx, Some(env), list(names), vals) {
                            Ok(ce) => Turn::Done(run_at(ctx, c[2].clone(), ce, k, s)),
                            Err(e2) => Turn::Done(Err(e2)),
                        }
                    },
                    _ => Turn::Done(error("invalid catch block")),
                }
            } else {
                Turn::Done(Err(e))
            }
        },
    }
}

fn eval_defmacro(ctx: &mut Interp, l: &Vec<MalVal>, env: Env, k: usize, s: usize) -> (r: Turn)
    ensures
        turn_view(final(ctx)@, r) == form_defmacro(
            old(ctx)@,
            views(l@),
            env,
            k as nat,
            s as nat,
        ),
    decreases k, s + 1, 8nat, 0nat,
{
    proof {
        lemma_views(l@);
    }
    if l.len() < 3 {
        return Turn::Done(error("special form lacks an argument"));
    }
    match run_at(ctx, l[2].clone(), env, k, s) {
        Ok(v) => match v {
            MalVal::MalFunc { ast, env: fenv, params, .. } => {
                let ghost body = (*ast)@;
                let ghost pattern = (*params)@;
                proof {
                    assert(v@ is MalFunc);
                    assert(v@->ast == Box::new(body));
                    assert(v@->params == Box::new(pattern));
                    assert(v@->env == fenv);
                }
                let mac = MalVal::MalFunc {
                    ast: ast,
                    env: fenv,
                    params: params,
                    is_macro: true,
                    meta: Rc::new(MalVal::Nil),
                };
                proof {
                    assert(mac@ == (Value::MalFunc {
                        ast: Box::new(body),
                        env: fenv,
                        params: Box::new(pattern),
                        is_macro: true,
                        meta: Box::new(Value::Nil),
                    }));
                }
                match &l[1] {
                    MalVal::Sym(name) => {
                        env_sets(ctx, env, name.as_str(), mac.clone());
                        Turn::Done(Ok(mac))
                    },
                    _ => Turn::Done(error("Env.set called with non-Str")),
                }
            },
            _ => Turn::Done(error("set_macro on non-function")),
        },
        Err(e) => Turn::Done(Err(e)),
    }
}

fn eval_call(ctx: &mut Interp, l: &Vec<MalVal>, env: Env, k: usize, s: usize) -> (r: Turn)
    ensures
        turn_view(final(ctx)@, r) == form_call(old(ctx)@, views(l@), env, k as nat, s as nat),
    decreases k, s + 1, 8nat, 0nat,
{
    match eval_items(ctx, l, env, k, s) {
        Ok(el) => {
            proof {
                lemma_views(el@);
            }
            if el.len() == 0 {
                return Turn::Done(error("expected a list"));
            }
            let args = tail_of(&el, 1);
            proof {
                lemma_views_subrange(el@, 1, el.len() as int);
            }
            match &el[0] {
                MalVal::Func(b) => Turn::Done(call_builtin_at(ctx, *b, &args, k, s)),
                MalVal::MalFunc { ast, env: fenv, params, .. } => {
                    let p: &MalVal = params;
                    let a: &MalVal = ast;
                    match env_bind(ctx, Some(*fenv), p.clone(), args) {
                        Ok(fe) => Turn::Next(a.clone(), fe),
                        Err(e) => Turn::Done(Err(e)),
                    }
                },
                _ => Turn::Done(error("attempt to call non-function")),
            }
        },
        Err(e) => Turn::Done(Err(e)),
    }
}

fn step_form_at(ctx: &mut Interp, l: &Vec<MalVal>, env: Env, k: usize, s: usize) -> (r: Turn)
    requires
        l.len() > 0,
    ensures
        turn_view(final(ctx)@, r) == step_form(old(ctx)@, views(l@), env, k as nat, s as nat),
    decreases k, s + 1, 10nat, 0nat,
{
    proof {
        lemma_views(l@);
    }
    match &l[0] {
        MalVal::Sym(name) => {
            let h = name.as_str();
            if text_eq(h, "def!") {
                eval_def(ctx, l, env, k, s)
            } else if text_eq(h, "let*") {
                eval_let(ctx, l, env, k, s)
            } else if text_eq(h, "lambda") {
                if l.len() < 3 {
                    Turn::Done(error("special form lacks an argument"))
                } else {
                    Turn::Done(
                        Ok(
                            MalVal::MalFunc {
                                ast: Rc::new(l[2].clone()),
                                env: env,
                                params: Rc::new(l[1].clone()),
                                is_macro: false,
                                meta: Rc::new(MalVal::Nil),
                            },
                        ),
                    )
                }
            } else if text_eq(h, "if") {
                eval_if(ctx, l, env, k, s)
            } else if text_eq(h, "do") {
                eval_do(ctx, l, env, k, s)
            } else if text_eq(h, "quote") {
                if l.len() < 2 {
                    Turn::Done(error("special form lacks an argument"))
                } else {
                    Turn::Done(Ok(l[1].clone()))
                }
            } else if text_eq(h, "quasiquote") {
                if l.len() < 2 {
                    Turn::Done(error("special form lacks an argument"))
                } else {
                    Turn::Next(quasiquote(&l[1]), env)
                }
            } else if text_eq(h, "eval") {
                eval_eval(ctx, l, env, k, s)
            } else if text_eq(h, "try*") {
                eval_try(ctx, l, env, k, s)
            } else if text_eq(h, "defmacro!") {
                eval_defmacro(ctx, l, env, k, s)
            } else if text_eq(h, "macroexpand") {
                if l.len() < 2 {
                    Turn::Done(error("special form lacks an argument"))
                } else {
                    let (_, r) = macroexpand_at(ctx, l[1].clone(), env, k, s);
                    Turn::Done(r)
                }
            } else {
                eval_call(ctx, l, env, k, s)
            }
        },
        _ => eval_call(ctx, l, env, k, s),
    }
}

/// The value of a form in a frame, within the interpreter's limits.
pub open spec fn eval_value(m: Machine, ast: Value, env: Env) -> (Machine, Result<Value, Fault>) {
    run(m, ast, env, m.max_depth as nat, m.max_steps as nat, m.max_steps as nat)
}

/// What reading, evaluating and printing a text comes to: the state after
/// it, and the machine-readable text of the value or the error.
pub open spec fn rep_text(m: Machine, line: Seq<char>, env: Env) -> (
    Machine,
    Result<Seq<char>, Fault>,
) {
    match read_text(line) {
        Ok(ast) => {
            let (m1, r) = eval_value(m, ast, env);
            match r {
                Ok(v) => (m1, Ok(pr_text(v, true, m1.atoms, m1.atoms.len()))),
                Err(e) => (m1, Err(e)),
            }
        },
        Err(e) => (m, Err(e)),
    }
}

/// What a result that carries a text denotes.
pub open spec fn text_view(r: Result<String, MalErr>) -> Result<Seq<char>, Fault> {
    match r {
        Ok(t) => Ok(t@),
        Err(e) => Err(e@),
    }
}

/// Evaluates a form in a frame. Tail calls take turns in one loop, so a
/// function that calls itself in tail position runs at one level of nesting
/// however long it runs.
pub fn eval(ctx: &mut Interp, ast: MalVal, env: Env) -> (r: MalRet)
    ensures
        (final(ctx)@, ret_view(r)) == eval_value(old(ctx)@, ast@, env),
{
    let d = ctx.max_depth;
    let s = ctx.max_steps;
    run_at(ctx, ast, env, d, s)
}

/// Evaluates the items of a list, a vector or a map, and looks a symbol up;
/// any other value stands for itself.
pub fn eval_ast(ctx: &mut Interp, ast: &MalVal, env: Env) -> (r: MalRet)
    ensures
        (final(ctx)@, ret_view(r)) == (match ast@ {
            Value::List(l) => {
                let (m1, r1) = eval_seq(
                    old(ctx)@,
                    l,
                    env,
                    old(ctx)@.max_depth as nat,
                    old(ctx)@.max_steps as nat,
                    0,
                    Seq::empty(),
                );
                match r1 {
                    Ok(vs) => (m1, Ok(Value::List(vs))),
                    Err(e) => (m1, Err(e)),
                }
            },
            Value::Vector(l) => {
                let (m1, r1) = eval_seq(
                    old(ctx)@,
                    l,
                    env,
                    old(ctx)@.max_depth as nat,
                    old(ctx)@.max_steps as nat,
                    0,
                    Seq::empty(),
                );
                match r1 {
                    Ok(vs) => (m1, Ok(Value::Vector(vs))),
                    Err(e) => (m1, Err(e)),
                }
            },
            Value::Hash(h) => {
                let (m1, r1) = eval_vals(
                    old(ctx)@,
                    h,
                    env,
                    old(ctx)@.max_depth as nat,
                    old(ctx)@.max_steps as nat,
                    0,
                    Seq::empty(),
                );
                match r1 {
                    Ok(hs) => (m1, Ok(Value::Hash(hs))),
                    Err(e) => (m1, Err(e)),
                }
            },
            Value::Sym(_) => (old(ctx)@, get_env(old(ctx)@, env, ast@)),
            _ => (old(ctx)@, Ok(ast@)),
        }),
{
    let d = ctx.max_depth;
    let s = ctx.max_steps;
    match ast {
        MalVal::Sym(_) => env_get(ctx, env, ast),
        MalVal::List(l) => match eval_items(ctx, l, env, d, s) {
            Ok(vs) => Ok(list(vs)),
            Err(e) => Err(e),
        },
        MalVal::Vector(l) => match eval_items(ctx, l, env, d, s) {
            Ok(vs) => Ok(vector(vs)),
            Err(e) => Err(e),
        },
        MalVal::Hash(t) => match eval_table(ctx, t, env, d, s) {
            Ok(t2) => Ok(MalVal::Hash(Rc::new(t2))),
            Err(e) => Err(e),
        },
        _ => Ok(ast.clone()),
    }
}

/// Expands a form while its head names a macro. The flag says that the
/// form was expanded and no error came up.
pub fn macroexpand(ctx: &mut Interp, ast: MalVal, env: Env) -> (r: (bool, MalRet))
    ensures
        (final(ctx)@, ret_view(r.1), r.0) == expand(
            old(ctx)@,
            ast@,
            env,
            old(ctx)@.max_depth as nat,
            old(ctx)@.max_steps as nat,
            old(ctx)@.max_steps as nat,
        ),
{
    let d = ctx.max_depth;
    let s = ctx.max_steps;
    macroexpand_at(ctx, ast, env, d, s)
}

impl MalVal {
    /// Applies a function value to arguments.
    pub fn apply(&self, ctx: &mut Interp, args: MalArgs) -> (r: MalRet)
        ensures
            (final(ctx)@, ret_view(r)) == apply_fn(
                old(ctx)@,
                self@,
                views(args@),
                old(ctx)@.max_depth as nat,
                old(ctx)@.max_steps as nat,
            ),
    {
        let d = ctx.max_depth;
        let s = ctx.max_steps;
        apply_at(ctx, self, args, d, s)
    }

    /// Sets the contents of a reference cell to what the function `args[0]`
    /// gives for the old contents and the arguments after it, and gives the
    /// new contents back.
    pub fn swap_bang(&self, ctx: &mut Interp, args: &MalArgs) -> (r: MalRet)
        ensures
            (final(ctx)@, ret_view(r)) == call_builtin(
                old(ctx)@,
                Builtin::SwapBang,
                seq![self@] + views(args@),
                old(ctx)@.max_depth as nat,
                old(ctx)@.max_steps as nat,
            ),
    {
        let d = ctx.max_depth;
        let s = ctx.max_steps;
        let mut head: Vec<MalVal> = Vec::new();
        head.push(self.clone());
        let none: Vec<MalVal> = Vec::new();
        proof {
            lemma_views(head@);
            assert(views(head@) =~= seq![self@]);
            assert(views(Seq::<MalVal>::empty()) =~= Seq::<Value>::empty());
            lemma_views(args@);
        }
        let a = joined(head, args, 0, args.len(), &none);
        proof {
            assert(views(a@) =~= seq![self@] + views(args@));
        }
        call_builtin_at(ctx, Builtin::SwapBang, &a, d, s)
    }
}

/// Reads a text, evaluates its first form in a frame, and prints the value
/// in machine-readable form.
pub fn rep(ctx: &mut Interp, str: &str, env: Env) -> (r: Result<String, MalErr>)
    ensures
        (final(ctx)@, text_view(r)) == rep_text(old(ctx)@, str@, env),
{
    let ast = match read_str(String::from_str(str)) {
        Ok(a) => a,
        Err(e) => {
            return Err(e);
        },
    };
    match eval(ctx, ast, env) {
        Ok(exp) => Ok(exp.pr_str(true, ctx)),
        Err(e) => Err(e),
    }
}

/// The text of an error: a message as it is, a thrown value in
/// machine-readable form.
pub open spec fn fault_text(e: Fault, atoms: Seq<Value>) -> Seq<char> {
    match e {
        Fault::Msg(t) => t,
        Fault::Val(v) => pr_text(v, true, atoms, atoms.len()),
    }
}

/// The text of an error.
pub fn format_error(e: MalErr, ctx: &Interp) -> (r: String)
    ensures
        r@ == fault_text(e@, ctx@.atoms),
{
    match e {
        MalErr::ErrString(s) => s,
        MalErr::ErrMalVal(mv) => mv.pr_str(true, ctx),
    }
}

/// The text that one turn of the read-eval-print loop shows for a line: the
/// printed value, or the text of the error.
pub open spec fn repl_text(m: Machine, line: Seq<char>, env: Env) -> (Machine, Seq<char>) {
    let (m1, r) = rep_text(m, line, env);
    match r {
        Ok(t) => (m1, t),
        Err(e) => (m1, fault_text(e, m1.atoms)),
    }
}

/// One turn of the read-eval-print loop: the text to show for a line. An
/// error does not stop the loop: its text is what the turn shows.
pub fn repl(ctx: &mut Interp, line: &str, env: Env) -> (r: String)
    ensures
        (final(ctx)@, r@) == repl_text(old(ctx)@, line@, env),
{
    match rep(ctx, line, env) {
        Ok(out) => out,
        Err(e) => format_error(e, ctx),
    }
}

} // verus!
