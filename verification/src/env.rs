use vstd::prelude::*;
use vstd::string::StringExecFns;
use crate::interp::frames;
use crate::interp::EnvSturct;
use crate::interp::Frame;
use crate::interp::Interp;
use crate::interp::Machine;
use crate::table::lookup;
use crate::table::put;
use crate::table::Table;
use crate::text::text_eq;
use crate::types::error;
use crate::types::fail;
use crate::types::lemma_views;
use crate::types::lemma_views_subrange;
use crate::types::list;
use crate::types::ret_view;
use crate::types::tail_of;
use crate::types::views;
use crate::types::Env;
use crate::types::Fault;
use crate::types::MalErr;
use crate::types::MalRet;
use crate::types::MalVal;
use crate::types::Value;

verus! {

/// The state with one more frame, empty and linked to `outer`, and the
/// handle of that frame.
pub open spec fn new_frame(m: Machine, outer: Option<Env>) -> (Machine, Env) {
    (
        Machine { envs: m.envs.push(Frame { data: Seq::empty(), outer: outer }), ..m },
        m.envs.len() as Env,
    )
}

/// The nearest frame, from `env` outwards, that binds `key`. The walk ends
/// at a frame without an outer frame, and at a link that does not lead to an
/// earlier frame.
pub open spec fn find_env(m: Machine, env: Env, key: Seq<char>) -> Option<Env>
    decreases env,
{
    if env >= m.envs.len() {
        None
    } else if lookup(m.envs[env as int].data, key) is Some {
        Some(env)
    } else {
        match m.envs[env as int].outer {
            Some(o) => if o < env {
                find_env(m, o, key)
            } else {
                None
            },
            None => None,
        }
    }
}

/// A frame that `find_env` gives exists, binds the key, and is `env` or lies
/// before it.
pub proof fn lemma_find_env(m: Machine, env: Env, key: Seq<char>)
    ensures
        match find_env(m, env, key) {
            Some(e) => e <= env && e < m.envs.len() && lookup(m.envs[e as int].data, key) is Some,
            None => true,
        },
    decreases env,
{
    if env < m.envs.len() && !(lookup(m.envs[env as int].data, key) is Some) {
        match m.envs[env as int].outer {
            Some(o) => {
                if o < env {
                    lemma_find_env(m, o, key);
                }
            },
            None => {},
        }
    }
}

/// The message for a symbol that no frame binds.
pub open spec fn not_found(key: Seq<char>) -> Seq<char> {
    seq!['\''] + key + "' not found"@
}

/// What a symbol stands for in frame `env`: the value that the nearest
/// frame binds it to.
pub open spec fn get_env(m: Machine, env: Env, key: Value) -> Result<Value, Fault> {
    match key {
        Value::Sym(s) => match find_env(m, env, s) {
            Some(e) => match lookup(m.envs[e as int].data, s) {
                Some(v) => Ok(v),
                None => fail(not_found(s)),
            },
            None => fail(not_found(s)),
        },
        _ => fail("Env.get called with non-Str"@),
    }
}

/// The state after `key` was bound to `val` in frame `env` itself; a handle
/// that names no frame changes nothing.
pub open spec fn set_env(m: Machine, env: Env, key: Seq<char>, val: Value) -> Machine {
    if env < m.envs.len() {
        Machine {
            envs: m.envs.update(
                env as int,
                Frame {
                    data: put(m.envs[env as int].data, key, val),
                    outer: m.envs[env as int].outer,
                },
            ),
            ..m
        }
    } else {
        m
    }
}

/// Binds the parameters `binds[i..]` to the arguments `exprs[i..]` in frame
/// `env`: one argument for each symbol, and after the symbol `&` all the
/// arguments that are left, as a list, for the symbol that follows it.
pub open spec fn bind_from(m: Machine, env: Env, binds: Seq<Value>, exprs: Seq<Value>, i: nat) -> (
    Machine,
    Result<Env, Fault>,
)
    decreases binds.len() - i,
{
    if i >= binds.len() {
        (m, Ok(env))
    } else {
        match binds[i as int] {
            Value::Sym(s) => if s == "&"@ {
                if i + 1 < binds.len() && i <= exprs.len() {
                    match binds[i as int + 1] {
                        Value::Sym(r) => (
                            set_env(m, env, r, Value::List(exprs.subrange(i as int, exprs.len() as int))),
                            Ok(env),
                        ),
                        _ => (m, Err(Fault::Msg("Env.set called with non-Str"@))),
                    }
                } else {
                    (m, Err(Fault::Msg("no symbol for the remaining arguments"@)))
                }
            } else if i < exprs.len() {
                bind_from(set_env(m, env, s, exprs[i as int]), env, binds, exprs, i + 1)
            } else {
                (m, Err(Fault::Msg("not enough arguments"@)))
            },
            _ => (m, Err(Fault::Msg("Env.set called with non-Str"@))),
        }
    }
}

/// The state and the frame that binding a parameter pattern to arguments
/// gives: a new frame under `outer`, filled by `bind_from`.
pub open spec fn bind_env(m: Machine, outer: Option<Env>, binds: Value, exprs: Seq<Value>) -> (
    Machine,
    Result<Env, Fault>,
) {
    let (m1, env) = new_frame(m, outer);
    match binds {
        Value::List(b) => bind_from(m1, env, b, exprs, 0),
        Value::Vector(b) => bind_from(m1, env, b, exprs, 0),
        _ => (m1, Err(Fault::Msg("env_bind binds not List/Vector"@))),
    }
}

/// What a result that carries a frame denotes.
pub open spec fn env_view(r: Result<Env, MalErr>) -> Result<Env, Fault> {
    match r {
        Ok(e) => Ok(e),
        Err(e) => Err(e@),
    }
}

/// Makes an empty frame under `outer`.
pub fn env_new(ctx: &mut Interp, outer: Option<Env>) -> (env: Env)
    ensures
        (final(ctx)@, env) == new_frame(old(ctx)@, outer),
{
    let env = ctx.envs.len();
    ctx.envs.push(EnvSturct { data: Table::new(), outer: outer });
    proof {
        assert(frames(ctx.envs@) =~= frames(old(ctx).envs@).push(
            Frame { data: Seq::empty(), outer: outer },
        ));
    }
    env
}

/// Finds the nearest frame, from `env` outwards, that binds `key`.
pub fn env_find(ctx: &Interp, env: Env, key: &str) -> (r: Option<Env>)
    ensures
        r == find_env(ctx@, env, key@),
{
    let mut cur = env;
    loop
        invariant
            find_env(ctx@, env, key@) == find_env(ctx@, cur, key@),
        decreases cur,
    {
        if cur >= ctx.envs.len() {
            return None;
        }
        if ctx.envs[cur].data.contains_key(key) {
            return Some(cur);
        }
        match ctx.envs[cur].outer {
            Some(o) => {
                if o < cur {
                    cur = o;
                } else {
                    return None;
                }
            },
            None => {
                return None;
            },
        }
    }
}

/// Looks a symbol up through the chain of frames.
pub fn env_get(ctx: &Interp, env: Env, key: &MalVal) -> (r: MalRet)
    ensures
        ret_view(r) == get_env(ctx@, env, key@),
{
    match key {
        MalVal::Sym(s) => {
            proof {
                lemma_find_env(ctx@, env, s@);
            }
            let found = match env_find(ctx, env, s.as_str()) {
                Some(e) => ctx.envs[e].data.get(s.as_str()),
                None => None,
            };
            match found {
                Some(v) => Ok(v),
                None => {
                    let mut msg = String::new();
                    msg.push('\'');
                    msg.append(s.as_str());
                    msg.append("' not found");
                    assert(msg@ =~= not_found(s@));
                    Err(MalErr::ErrString(msg))
                },
            }
        },
        _ => error("Env.get called with non-Str"),
    }
}

/// Binds the name `key` to `val` in frame `env` itself.
pub fn env_sets(ctx: &mut Interp, env: Env, key: &str, val: MalVal)
    ensures
        final(ctx)@ == set_env(old(ctx)@, env, key@, val@),
{
    if env < ctx.envs.len() {
        let mut frame = EnvSturct { data: Table::new(), outer: None };
        let ghost before = ctx.envs@;
        ctx.envs.push(frame);
        let mut frame = ctx.envs.swap_remove(env);
        frame.data.insert(String::from_str(key), val);
        let ghost updated = frame@;
        ctx.envs.push(frame);
        let _ = ctx.envs.swap_remove(env);
        proof {
            assert(frames(ctx.envs@) =~= frames(before).update(env as int, updated));
        }
    }
}

/// Binds the symbol `key` to `val` in frame `env` itself, and gives `val`
/// back.
pub fn env_set(ctx: &mut Interp, env: Env, key: MalVal, val: MalVal) -> (r: MalRet)
    ensures
        match key@ {
            Value::Sym(s) => final(ctx)@ == set_env(old(ctx)@, env, s, val@) && ret_view(r) == Ok::<
                Value,
                Fault,
            >(val@),
            _ => final(ctx)@ == old(ctx)@ && ret_view(r) == fail("Env.set called with non-Str"@),
        },
{
    match key {
        MalVal::Sym(s) => {
            env_sets(ctx, env, s.as_str(), val.clone());
            Ok(val)
        },
        _ => error("Env.set called with non-Str"),
    }
}

/// Makes a frame under `outer` that binds the parameters `mbinds` to the
/// arguments `exprs`.
pub fn env_bind(ctx: &mut Interp, outer: Option<Env>, mbinds: MalVal, exprs: Vec<MalVal>) -> (r:
    Result<Env, MalErr>)
    ensures
        (final(ctx)@, env_view(r)) == bind_env(old(ctx)@, outer, mbinds@, views(exprs@)),
{
    let env = env_new(ctx, outer);
    match &mbinds {
        MalVal::List(binds) => bind_all(ctx, env, binds, &exprs),
        MalVal::Vector(binds) => bind_all(ctx, env, binds, &exprs),
        _ => Err(MalErr::ErrString(String::from_str("env_bind binds not List/Vector"))),
    }
}

fn bind_all(ctx: &mut Interp, env: Env, binds: &Vec<MalVal>, exprs: &Vec<MalVal>) -> (r: Result<
    Env,
    MalErr,
>)
    ensures
        (final(ctx)@, env_view(r)) == bind_from(old(ctx)@, env, views(binds@), views(exprs@), 0),
{
    let mut i: usize = 0;
    proof {
        lemma_views(binds@);
        lemma_views(exprs@);
    }
    while i < binds.len()
        invariant
            i <= binds.len(),
            views(binds@).len() == binds.len(),
            views(exprs@).len() == exprs.len(),
            forall|j: int| 0 <= j < binds.len() ==> (#[trigger] views(binds@)[j]) == binds@[j]@,
            forall|j: int| 0 <= j < exprs.len() ==> (#[trigger] views(exprs@)[j]) == exprs@[j]@,
            bind_from(old(ctx)@, env, views(binds@), views(exprs@), 0) == bind_from(
                ctx@,
                env,
                views(binds@),
                views(exprs@),
                i as nat,
            ),
        decreases binds.len() - i,
    {
        assert(views(binds@)[i as int] == binds@[i as int]@);
        match &binds[i] {
            MalVal::Sym(s) => {
                if text_eq(s.as_str(), "&") {
                    if i + 1 < binds.len() && i <= exprs.len() {
                        assert(views(binds@)[i + 1] == binds@[i + 1]@);
                        match &binds[i + 1] {
                            MalVal::Sym(r) => {
                                let rest = tail_of(exprs, i);
                                proof {
                                    lemma_views_subrange(exprs@, i as int, exprs.len() as int);
                                }
                                env_sets(ctx, env, r.as_str(), list(rest));
                                return Ok(env);
                            },
                            _ => {
                                return Err(
                                    MalErr::ErrString(
                                        String::from_str("Env.set called with non-Str"),
                                    ),
                                );
                            },
                        }
                    } else {
                        return Err(
                            MalErr::ErrString(
                                String::from_str("no symbol for the remaining arguments"),
                            ),
                        );
                    }
                } else if i < exprs.len() {
                    assert(views(exprs@)[i as int] == exprs@[i as int]@);
                    env_sets(ctx, env, s.as_str(), exprs[i].clone());
                } else {
                    return Err(MalErr::ErrString(String::from_str("not enough arguments")));
                }
            },
            _ => {
                return Err(MalErr::ErrString(String::from_str("Env.set called with non-Str")));
            },
        }
        i += 1;
    }
    Ok(env)
}

} // verus!
