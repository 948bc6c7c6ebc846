use vstd::prelude::*;
use crate::env::env_sets;
use crate::env::set_env;
use crate::eval::rep;
use crate::eval::rep_text;
use crate::interp::Interp;
use crate::interp::Machine;
use crate::types::func;
use crate::types::Builtin;
use crate::types::Env;
use crate::types::MalVal;
use crate::types::Value;

verus! {

/// The primitives, in the order in which they are bound.
pub open spec fn builtin_list() -> Seq<Builtin> {
    seq![
        Builtin::Equal,
        Builtin::ReadString,
        Builtin::List,
        Builtin::Lt,
        Builtin::Le,
        Builtin::Gt,
        Builtin::Ge,
        Builtin::Add,
        Builtin::Sub,
        Builtin::Mul,
        Builtin::Div,
        Builtin::Prn,
        Builtin::Cons,
        Builtin::Concat,
        Builtin::Nth,
        Builtin::First,
        Builtin::Rest,
        Builtin::Count,
        Builtin::EmptyQ,
        Builtin::Throw,
        Builtin::Apply,
        Builtin::MapEach,
        Builtin::NilQ,
        Builtin::TrueQ,
        Builtin::FalseQ,
        Builtin::SymbolQ,
        Builtin::Atom,
        Builtin::AtomQ,
        Builtin::ResetBang,
        Builtin::Deref,
        Builtin::SwapBang,
        Builtin::Symbol,
        Builtin::Keyword,
        Builtin::KeywordQ,
        Builtin::NumberQ,
        Builtin::LambdaQ,
        Builtin::MacroQ,
        Builtin::PrStr,
        Builtin::Str,
        Builtin::SequentialQ,
        Builtin::ListQ,
        Builtin::Vector,
        Builtin::VectorQ,
        Builtin::HashMap,
        Builtin::MapQ,
        Builtin::Assoc,
        Builtin::Dissoc,
        Builtin::Get,
        Builtin::ContainsQ,
        Builtin::Keys,
        Builtin::Vals,
        Builtin::ReadFile,
        Builtin::Ls,
    ]
}

fn all_builtins() -> (r: Vec<Builtin>)
    ensures
        r@ == builtin_list(),
{
    vec![
        Builtin::Equal,
        Builtin::ReadString,
        Builtin::List,
        Builtin::Lt,
        Builtin::Le,
        Builtin::Gt,
        Builtin::Ge,
        Builtin::Add,
        Builtin::Sub,
        Builtin::Mul,
        Builtin::Div,
        Builtin::Prn,
        Builtin::Cons,
        Builtin::Concat,
        Builtin::Nth,
        Builtin::First,
        Builtin::Rest,
        Builtin::Count,
        Builtin::EmptyQ,
        Builtin::Throw,
        Builtin::Apply,
        Builtin::MapEach,
        Builtin::NilQ,
        Builtin::TrueQ,
        Builtin::FalseQ,
        Builtin::SymbolQ,
        Builtin::Atom,
        Builtin::AtomQ,
        Builtin::ResetBang,
        Builtin::Deref,
        Builtin::SwapBang,
        Builtin::Symbol,
        Builtin::Keyword,
        Builtin::KeywordQ,
        Builtin::NumberQ,
        Builtin::LambdaQ,
        Builtin::MacroQ,
        Builtin::PrStr,
        Builtin::Str,
        Builtin::SequentialQ,
        Builtin::ListQ,
        Builtin::Vector,
        Builtin::VectorQ,
        Builtin::HashMap,
        Builtin::MapQ,
        Builtin::Assoc,
        Builtin::Dissoc,
        Builtin::Get,
        Builtin::ContainsQ,
        Builtin::Keys,
        Builtin::Vals,
        Builtin::ReadFile,
        Builtin::Ls,
    ]
}

/// The namespace of the primitives: each name with the value that stands
/// for its primitive.
pub fn ns() -> (r: Vec<(&'static str, MalVal)>)
    ensures
        r.len() == builtin_list().len(),
        forall|i: int|
            0 <= i < r.len() ==> (#[trigger] r[i]).0@ == builtin_list()[i].name() && r[i].1@
                == Value::Func(builtin_list()[i]),
{
    let bs = all_builtins();
    let mut out: Vec<(&'static str, MalVal)> = Vec::new();
    let mut i: usize = 0;
    while i < bs.len()
        invariant
            i <= bs.len(),
            bs@ == builtin_list(),
            out.len() == i,
            forall|j: int|
                0 <= j < i ==> (#[trigger] out[j]).0@ == builtin_list()[j].name() && out[j].1@
                    == Value::Func(builtin_list()[j]),
        decreases bs.len() - i,
    {
        out.push((bs[i].name_of(), func(bs[i])));
        i += 1;
    }
    out
}

/// The lines, written in the language itself, that complete the library.
pub open spec fn boot_lines() -> Seq<Seq<char>> {
    seq![
        "(prn \"load core lisp Lib!\")"@,
        "(def! *gensym-counter* (atom 0))"@,
        "(def! gensym (lambda [] (symbol (str \"G__\" (swap! *gensym-counter* (lambda [x] (+ 1 x)))))))"@,
        "(defmacro! or (lambda (& xs) (if (empty? xs) nil (if (= 1 (count xs)) (first xs) (let* (condvar (gensym)) `(let* (~condvar ~(first xs)) (if ~condvar ~condvar (or ~@(rest xs)))))))))"@,
        "(def! not (lambda (a) (if a false true)))"@,
        "(defmacro! cond (lambda (& xs) (if (> (count xs) 0) (list (quote if) (first xs) (if (> (count xs) 1) (nth xs 1) (throw \"odd number of forms to cond\")) (cons (quote cond) (rest (rest xs)))))))"@,
        "(def! load-file (lambda (f) (eval (read-string (str \"(do \" (read-file f) \"nil)\")))))"@,
        "(load-file \"entry.jmal\")"@,
    ]
}

/// The lines, written in the language itself, that complete the library:
/// `gensym`, `or`, `not`, `cond` and `load-file`, and the loading of the
/// entry script.
pub fn mal() -> (r: Vec<&'static str>)
    ensures
        r.len() == boot_lines().len(),
        forall|i: int| 0 <= i < r.len() ==> (#[trigger] r[i])@ == boot_lines()[i],
{
    let mut v: Vec<&'static str> = Vec::new();
    v.push("(prn \"load core lisp Lib!\")");
    v.push("(def! *gensym-counter* (atom 0))");
    v.push("(def! gensym (lambda [] (symbol (str \"G__\" (swap! *gensym-counter* (lambda [x] (+ 1 x)))))))");
    v.push("(defmacro! or (lambda (& xs) (if (empty? xs) nil (if (= 1 (count xs)) (first xs) (let* (condvar (gensym)) `(let* (~condvar ~(first xs)) (if ~condvar ~condvar (or ~@(rest xs)))))))))");
    v.push("(def! not (lambda (a) (if a false true)))");
    v.push("(defmacro! cond (lambda (& xs) (if (> (count xs) 0) (list (quote if) (first xs) (if (> (count xs) 1) (nth xs 1) (throw \"odd number of forms to cond\")) (cons (quote cond) (rest (rest xs)))))))");
    v.push("(def! load-file (lambda (f) (eval (read-string (str \"(do \" (read-file f) \"nil)\")))))");
    v.push("(load-file \"entry.jmal\")");
    v
}

/// The state after the primitives from place `i` on were bound in frame
/// `env`.
pub open spec fn bound_from(m: Machine, env: Env, i: nat) -> Machine
    decreases builtin_list().len() - i,
{
    if i >= builtin_list().len() {
        m
    } else {
        bound_from(
            set_env(m, env, builtin_list()[i as int].name(), Value::Func(builtin_list()[i as int])),
            env,
            i + 1,
        )
    }
}

/// The state after the lines from place `i` on were read and evaluated in
/// frame `env`, one after another; a line that fails leaves what it did
/// before it failed, and the next line goes on.
pub open spec fn booted_from(m: Machine, env: Env, lines: Seq<Seq<char>>, i: nat) -> Machine
    decreases lines.len() - i,
{
    if i >= lines.len() {
        m
    } else {
        booted_from(rep_text(m, lines[i as int], env).0, env, lines, i + 1)
    }
}

/// The state after the library was loaded into frame `env`.
pub open spec fn core_state(m: Machine, env: Env) -> Machine {
    booted_from(bound_from(m, env, 0), env, boot_lines(), 0)
}

fn load_core_lib(ctx: &mut Interp, env: Env)
    ensures
        final(ctx)@ == booted_from(old(ctx)@, env, boot_lines(), 0),
{
    let lines = mal();
    let mut i: usize = 0;
    while i < lines.len()
        invariant
            i <= lines.len(),
            lines.len() == boot_lines().len(),
            forall|j: int| 0 <= j < lines.len() ==> (#[trigger] lines[j])@ == boot_lines()[j],
            booted_from(old(ctx)@, env, boot_lines(), 0) == booted_from(
                ctx@,
                env,
                boot_lines(),
                i as nat,
            ),
        decreases lines.len() - i,
    {
        assert(lines[i as int]@ == boot_lines()[i as int]);
        let _ = rep(ctx, lines[i], env);
        i += 1;
    }
}

/// Loads the library into frame `env`: binds the primitives, then reads and
/// evaluates the lines that are written in the language itself.
pub fn load_core(ctx: &mut Interp, env: Env)
    ensures
        final(ctx)@ == core_state(old(ctx)@, env),
{
    let table = ns();
    let mut i: usize = 0;
    while i < table.len()
        invariant
            i <= table.len(),
            table.len() == builtin_list().len(),
            forall|j: int|
                0 <= j < table.len() ==> (#[trigger] table[j]).0@ == builtin_list()[j].name()
                    && table[j].1@ == Value::Func(builtin_list()[j]),
            bound_from(old(ctx)@, env, 0) == bound_from(ctx@, env, i as nat),
        decreases table.len() - i,
    {
        assert(table[i as int].0@ == builtin_list()[i as int].name());
        env_sets(ctx, env, table[i].0, table[i].1.clone());
        i += 1;
    }
    load_core_lib(ctx, env);
}

} // verus!
