use vstd::prelude::*;
use vstd::string::StringExecFns;
use crate::equal::same;
use crate::equal::val_eq;
use crate::interp::Interp;
use crate::interp::Machine;
use crate::printer::is_keyword;
use crate::printer::pr_seq;
use crate::printer::seq_text;
use crate::reader::read_str;
use crate::reader::read_text;
use crate::table::lookup;
use crate::table::Table;
use crate::text::to_chars;
use crate::types::_assoc;
use crate::types::_dissoc;
use crate::types::assoc_value;
use crate::types::dissoc_value;
use crate::types::error;
use crate::types::fail;
use crate::types::hash_map;
use crate::types::lemma_views;
use crate::types::lemma_views_add;
use crate::types::lemma_views_subrange;
use crate::types::list;
use crate::types::ret_view;
use crate::types::tail_of;
use crate::types::vector;
use crate::types::views;
use crate::types::Builtin;
use crate::types::Fault;
use crate::types::MalArgs;
use crate::types::MalErr;
use crate::types::MalRet;
use crate::types::MalVal;
use crate::types::Value;
use crate::types::KEYWORD_MARK;

verus! {

/// The items of a list or a vector.
pub open spec fn items_of(v: Value) -> Option<Seq<Value>> {
    match v {
        Value::List(l) => Some(l),
        Value::Vector(l) => Some(l),
        _ => None,
    }
}

/// The quotient of two integers, rounded towards zero.
pub open spec fn trunc_div(x: int, y: int) -> int
    recommends
        y != 0,
{
    if x >= 0 && y > 0 {
        x / y
    } else if x >= 0 {
        -(x / (-y))
    } else if y > 0 {
        -((-x) / y)
    } else {
        (-x) / (-y)
    }
}

/// What an arithmetic primitive gives for two integers: the exact result
/// where it fits the integer type, an error where it does not.
pub open spec fn arith(b: Builtin, x: i64, y: i64) -> Result<Value, Fault> {
    if b == Builtin::Div && y == 0 {
        fail("division by zero"@)
    } else {
        let exact: int = match b {
            Builtin::Add => x + y,
            Builtin::Sub => x - y,
            Builtin::Mul => x * y,
            _ => trunc_div(x as int, y as int),
        };
        if i64::MIN <= exact <= i64::MAX {
            Ok(Value::Int(exact as i64))
        } else {
            fail("integer overflow"@)
        }
    }
}

/// What a primitive on two integers gives: a comparison or an arithmetic
/// result, and an error for anything that is no pair of integers.
pub open spec fn int_op_value(b: Builtin, a: Seq<Value>) -> Result<Value, Fault> {
    if a.len() < 2 {
        fail("not enough arguments"@)
    } else {
        match (a[0], a[1]) {
            (Value::Int(x), Value::Int(y)) => match b {
                Builtin::Lt => Ok(Value::Bool(x < y)),
                Builtin::Le => Ok(Value::Bool(x <= y)),
                Builtin::Gt => Ok(Value::Bool(x > y)),
                Builtin::Ge => Ok(Value::Bool(x >= y)),
                Builtin::Add | Builtin::Sub | Builtin::Mul | Builtin::Div => arith(b, x, y),
                _ => fail("not a primitive on integers"@),
            },
            _ => fail("expecting (int,int) args"@),
        }
    }
}

/// The items of all the arguments, one after another, where each argument
/// is a list or a vector.
pub open spec fn concat_items(a: Seq<Value>) -> Option<Seq<Value>>
    decreases a.len(),
{
    if a.len() == 0 {
        Some(Seq::empty())
    } else {
        match (concat_items(a.drop_last()), items_of(a.last())) {
            (Some(h), Some(t)) => Some(h + t),
            _ => None,
        }
    }
}

/// The keys of the entries, as strings.
pub open spec fn key_values(e: Seq<(Seq<char>, Value)>) -> Seq<Value> {
    Seq::new(e.len(), |i: int| Value::Str(e[i].0))
}

/// The values of the entries.
pub open spec fn val_values(e: Seq<(Seq<char>, Value)>) -> Seq<Value> {
    Seq::new(e.len(), |i: int| e[i].1)
}

/// The number of arguments that a primitive needs at least.
pub open spec fn arity(b: Builtin) -> nat {
    match b {
        Builtin::List | Builtin::Prn | Builtin::Concat | Builtin::PrStr | Builtin::Str
        | Builtin::Vector | Builtin::HashMap | Builtin::Ls => 0,
        Builtin::Equal | Builtin::Lt | Builtin::Le | Builtin::Gt | Builtin::Ge | Builtin::Add
        | Builtin::Sub | Builtin::Mul | Builtin::Div | Builtin::Cons | Builtin::Nth
        | Builtin::Apply | Builtin::MapEach | Builtin::ResetBang | Builtin::SwapBang
        | Builtin::Get | Builtin::ContainsQ => 2,
        _ => 1,
    }
}

/// What a file primitive finds under a path: the text of a file for
/// `read-file`, the names in a directory for `ls`.
pub open spec fn file_value(m: Machine, b: Builtin, path: Seq<char>) -> Result<Value, Fault> {
    match lookup(m.files, path) {
        Some(Value::Str(text)) => if b == Builtin::ReadFile {
            Ok(Value::Str(text))
        } else {
            fail("ls: no such directory"@)
        },
        Some(Value::List(names)) => if b == Builtin::Ls {
            Ok(Value::List(names))
        } else {
            fail("read_file: no such file"@)
        },
        _ => if b == Builtin::ReadFile {
            fail("read_file: no such file"@)
        } else {
            fail("ls: no such directory"@)
        },
    }
}

/// What a primitive gives that depends on its arguments alone.
pub open spec fn plain_value(b: Builtin, a: Seq<Value>) -> Result<Value, Fault> {
    if a.len() < arity(b) {
        fail("not enough arguments"@)
    } else {
        match b {
            Builtin::Equal => Ok(Value::Bool(val_eq(a[0], a[1]))),
            Builtin::ReadString => match a[0] {
                Value::Str(s) => read_text(s),
                _ => fail("expecting (str) arg"@),
            },
            Builtin::List => Ok(Value::List(a)),
            Builtin::Vector => Ok(Value::Vector(a)),
            Builtin::Lt | Builtin::Le | Builtin::Gt | Builtin::Ge | Builtin::Add | Builtin::Sub
            | Builtin::Mul | Builtin::Div => int_op_value(b, a),
            Builtin::Cons => match items_of(a[1]) {
                Some(v) => Ok(Value::List(seq![a[0]] + v)),
                None => fail("cons expects seq as second arg"@),
            },
            Builtin::Concat => match concat_items(a) {
                Some(v) => Ok(Value::List(v)),
                None => fail("non-seq passed to concat"@),
            },
            Builtin::Nth => match (items_of(a[0]), a[1]) {
                (Some(v), Value::Int(i)) => if 0 <= i < v.len() {
                    Ok(v[i as int])
                } else {
                    fail("nth:index out of range"@)
                },
                _ => fail("invalid args to nth"@),
            },
            Builtin::First => match a[0] {
                Value::Nil => Ok(Value::Nil),
                _ => match items_of(a[0]) {
                    Some(v) => if v.len() == 0 {
                        Ok(Value::Nil)
                    } else {
                        Ok(v[0])
                    },
                    None => fail("invalid args to first"@),
                },
            },
            Builtin::Rest => match a[0] {
                Value::Nil => Ok(Value::List(Seq::empty())),
                _ => match items_of(a[0]) {
                    Some(v) => if v.len() > 1 {
                        Ok(Value::List(v.subrange(1, v.len() as int)))
                    } else {
                        Ok(Value::List(Seq::empty()))
                    },
                    None => fail("invalid args to list"@),
                },
            },
            Builtin::Count => match a[0] {
                Value::Nil => Ok(Value::Int(0)),
                _ => match items_of(a[0]) {
                    Some(v) => Ok(Value::Int(v.len() as i64)),
                    None => fail("invalid type for count"@),
                },
            },
            Builtin::EmptyQ => match a[0] {
                Value::Nil => Ok(Value::Bool(true)),
                _ => match items_of(a[0]) {
                    Some(v) => Ok(Value::Bool(v.len() == 0)),
                    None => fail("invalid empty value!"@),
                },
            },
            Builtin::Throw => Err(Fault::Val(a[0])),
            Builtin::NilQ => Ok(Value::Bool(a[0] is Nil)),
            Builtin::TrueQ => Ok(Value::Bool(a[0] == Value::Bool(true))),
            Builtin::FalseQ => Ok(Value::Bool(a[0] == Value::Bool(false))),
            Builtin::SymbolQ => Ok(Value::Bool(a[0] is Sym)),
            Builtin::AtomQ => Ok(Value::Bool(a[0] is Atom)),
            Builtin::KeywordQ => Ok(
                Value::Bool(
                    match a[0] {
                        Value::Str(s) => is_keyword(s),
                        _ => false,
                    },
                ),
            ),
            Builtin::NumberQ => Ok(Value::Bool(a[0] is Int)),
            Builtin::LambdaQ => Ok(
                Value::Bool(
                    match a[0] {
                        Value::MalFunc { is_macro, .. } => !is_macro,
                        Value::Func(_) => true,
                        _ => false,
                    },
                ),
            ),
            Builtin::MacroQ => Ok(
                Value::Bool(
                    match a[0] {
                        Value::MalFunc { is_macro, .. } => is_macro,
                        _ => false,
                    },
                ),
            ),
            Builtin::SequentialQ => Ok(Value::Bool(a[0] is List || a[0] is Vector)),
            Builtin::ListQ => Ok(Value::Bool(a[0] is List)),
            Builtin::VectorQ => Ok(Value::Bool(a[0] is Vector)),
            Builtin::MapQ => Ok(Value::Bool(a[0] is Hash)),
            Builtin::Symbol => match a[0] {
                Value::Str(s) => Ok(Value::Sym(s)),
                _ => fail("illegal symbol call"@),
            },
            Builtin::Keyword => match a[0] {
                Value::Str(s) => if is_keyword(s) {
                    Ok(Value::Str(s))
                } else {
                    Ok(Value::Str(seq![KEYWORD_MARK] + s))
                },
                _ => fail("invalid type for keyword"@),
            },
            Builtin::HashMap => assoc_value(Seq::empty(), a),
            Builtin::Assoc => match a[0] {
                Value::Hash(e) => assoc_value(e, a.subrange(1, a.len() as int)),
                _ => fail("assoc on non-Hash Map"@),
            },
            Builtin::Dissoc => match a[0] {
                Value::Hash(e) => dissoc_value(e, a.subrange(1, a.len() as int)),
                _ => fail("dissoc on non-Hash Map"@),
            },
            Builtin::Get => match (a[0], a[1]) {
                (Value::Nil, _) => Ok(Value::Nil),
                (Value::Hash(e), Value::Str(s)) => match lookup(e, s) {
                    Some(v) => Ok(v),
                    None => Ok(Value::Nil),
                },
                _ => fail("illegal get args"@),
            },
            Builtin::ContainsQ => match (a[0], a[1]) {
                (Value::Hash(e), Value::Str(s)) => Ok(Value::Bool(lookup(e, s) is Some)),
                _ => fail("illegal contains args"@),
            },
            Builtin::Keys => match a[0] {
                Value::Hash(e) => Ok(Value::List(key_values(e))),
                _ => fail("keys requires Hash Map"@),
            },
            Builtin::Vals => match a[0] {
                Value::Hash(e) => Ok(Value::List(val_values(e))),
                _ => fail("vals requires Hash Map"@),
            },
            // The other primitives look at the interpreter's state, change
            // it or call a function.
            _ => fail("not a pure primitive"@),
        }
    }
}

/// What a primitive gives that neither changes the interpreter's state nor
/// calls a function: a function of its arguments and, for printing, `deref`
/// and the file primitives, of the reference cells and the host's files.
pub open spec fn pure_value(m: Machine, b: Builtin, a: Seq<Value>) -> Result<Value, Fault> {
    if a.len() < arity(b) {
        fail("not enough arguments"@)
    } else {
        match b {
            Builtin::Deref => match a[0] {
                Value::Atom(i) => if i < m.atoms.len() {
                    Ok(m.atoms[i as int])
                } else {
                    fail("attempt to deref a non-Atom"@)
                },
                _ => fail("attempt to deref a non-Atom"@),
            },
            Builtin::PrStr => Ok(
                Value::Str(seq_text(a, true, " "@, m.atoms, m.atoms.len())),
            ),
            Builtin::Str => Ok(Value::Str(seq_text(a, false, ""@, m.atoms, m.atoms.len()))),
            Builtin::ReadFile => match a[0] {
                Value::Str(path) => file_value(m, b, path),
                _ => fail("read_file requires path String"@),
            },
            Builtin::Ls => if a.len() > 0 {
                match a[0] {
                    Value::Str(path) => file_value(m, b, path),
                    _ => fail("ls requires a path string!"@),
                }
            } else {
                file_value(m, b, "/"@)
            },
            _ => plain_value(b, a),
        }
    }
}

fn divide(x: i64, y: i64) -> (r: i128)
    requires
        y != 0,
    ensures
        r == trunc_div(x as int, y as int),
{
    let a: i128 = x as i128;
    let b: i128 = y as i128;
    if a >= 0 && b > 0 {
        a / b
    } else if a >= 0 {
        -(a / (-b))
    } else if b > 0 {
        -((-a) / b)
    } else {
        (-a) / (-b)
    }
}

/// Applies a comparison or an arithmetic primitive to two integers.
pub fn int_op(op: Builtin, a: &MalArgs) -> (r: MalRet)
    ensures
        ret_view(r) == int_op_value(op, views(a@)),
{
    proof {
        lemma_views(a@);
    }
    if a.len() < 2 {
        return error("not enough arguments");
    }
    match (&a[0], &a[1]) {
        (MalVal::Int(x), MalVal::Int(y)) => {
            let x: i64 = *x;
            let y: i64 = *y;
            let exact: i128 = match op {
                Builtin::Lt => {
                    return Ok(MalVal::Bool(x < y));
                },
                Builtin::Le => {
                    return Ok(MalVal::Bool(x <= y));
                },
                Builtin::Gt => {
                    return Ok(MalVal::Bool(x > y));
                },
                Builtin::Ge => {
                    return Ok(MalVal::Bool(x >= y));
                },
                Builtin::Add => x as i128 + y as i128,
                Builtin::Sub => x as i128 - y as i128,
                Builtin::Mul => {
                    assert(-0x8000_0000_0000_0000 * 0x8000_0000_0000_0000 <= x * y
                        <= 0x8000_0000_0000_0000 * 0x8000_0000_0000_0000) by (nonlinear_arith)
                        requires
                            -0x8000_0000_0000_0000 <= x < 0x8000_0000_0000_0000,
                            -0x8000_0000_0000_0000 <= y < 0x8000_0000_0000_0000,
                    ;
                    (x as i128) * (y as i128)
                },
                Builtin::Div => {
                    if y == 0 {
                        return error("division by zero");
                    }
                    divide(x, y)
                },
                _ => {
                    return error("not a primitive on integers");
                },
            };
            if exact < i64::MIN as i128 || exact > i64::MAX as i128 {
                error("integer overflow")
            } else {
                Ok(MalVal::Int(exact as i64))
            }
        },
        _ => error("expecting (int,int) args"),
    }
}

pub(crate) fn get_items(v: &MalVal) -> (r: Option<&Vec<MalVal>>)
    ensures
        match r {
            Some(l) => items_of(v@) == Some(views(l@)),
            None => items_of(v@) is None,
        },
{
    match v {
        MalVal::List(l) => Some(l),
        MalVal::Vector(l) => Some(l),
        _ => None,
    }
}

/// Puts a value before the items of a list or a vector; the result is a list.
pub fn cons(a: &MalArgs) -> (r: MalRet)
    ensures
        ret_view(r) == plain_value(Builtin::Cons, views(a@)),
{
    if a.len() < 2 {
        proof {
            lemma_views(a@);
        }
        return error("not enough arguments");
    }
    proof {
        lemma_views(a@);
    }
    match get_items(&a[1]) {
        Some(v) => {
            let mut out: Vec<MalVal> = Vec::new();
            out.push(a[0].clone());
            let mut i: usize = 0;
            while i < v.len()
                invariant
                    i <= v.len(),
                    out@ == seq![a@[0]] + v@.subrange(0, i as int),
                decreases v.len() - i,
            {
                out.push(v[i].clone());
                i += 1;
                assert(seq![a@[0]] + v@.subrange(0, i as int) =~= (seq![a@[0]] + v@.subrange(
                    0,
                    i - 1,
                )).push(v@[i - 1]));
            }
            proof {
                assert(v@.subrange(0, v.len() as int) == v@);
                lemma_views_add(seq![a@[0]], v@);
                lemma_views(seq![a@[0]]);
                assert(views(seq![a@[0]]) =~= seq![a@[0]@]);
            }
            Ok(list(out))
        },
        None => error("cons expects seq as second arg"),
    }
}

/// The items of all the arguments, each a list or a vector, as one list.
pub fn concat(a: &MalArgs) -> (r: MalRet)
    ensures
        ret_view(r) == plain_value(Builtin::Concat, views(a@)),
{
    let mut out: Vec<MalVal> = Vec::new();
    let mut i: usize = 0;
    proof {
        lemma_views(a@);
        assert(views(a@).subrange(0, 0) =~= Seq::<Value>::empty());
        assert(views(out@) =~= Seq::<Value>::empty());
    }
    while i < a.len()
        invariant
            i <= a.len(),
            views(a@).len() == a.len(),
            forall|j: int| 0 <= j < a.len() ==> (#[trigger] views(a@)[j]) == a@[j]@,
            concat_items(views(a@).subrange(0, i as int)) == Some(views(out@)),
        decreases a.len() - i,
    {
        proof {
            let p = views(a@).subrange(0, i + 1);
            assert(p.drop_last() =~= views(a@).subrange(0, i as int));
            assert(p.last() == a@[i as int]@);
        }
        match get_items(&a[i]) {
            Some(v) => {
                let ghost before = out@;
                let mut j: usize = 0;
                while j < v.len()
                    invariant
                        j <= v.len(),
                        out@ == before + v@.subrange(0, j as int),
                    decreases v.len() - j,
                {
                    out.push(v[j].clone());
                    j += 1;
                    assert(before + v@.subrange(0, j as int) =~= (before + v@.subrange(
                        0,
                        j - 1,
                    )).push(v@[j - 1]));
                }
                proof {
                    assert(v@.subrange(0, v.len() as int) == v@);
                    lemma_views_add(before, v@);
                }
            },
            None => {
                proof {
                    lemma_concat_prefix(views(a@), i + 1);
                }
                return error("non-seq passed to concat");
            },
        }
        i += 1;
    }
    assert(views(a@).subrange(0, a.len() as int) =~= views(a@));
    Ok(list(out))
}

pub proof fn lemma_concat_prefix(a: Seq<Value>, j: int)
    requires
        0 <= j <= a.len(),
        concat_items(a.subrange(0, j)) is None,
    ensures
        concat_items(a) is None,
    decreases a.len() - j,
{
    if j < a.len() {
        assert(a.subrange(0, j + 1).drop_last() == a.subrange(0, j));
        lemma_concat_prefix(a, j + 1);
    } else {
        assert(a.subrange(0, j) == a);
    }
}

/// The item of a list or a vector at an index; an index outside the sequence,
/// a negative one too, is a message error.
pub fn nth(a: &MalArgs) -> (r: MalRet)
    ensures
        ret_view(r) == plain_value(Builtin::Nth, views(a@)),
{
    if a.len() < 2 {
        proof {
            lemma_views(a@);
        }
        return error("not enough arguments");
    }
    proof {
        lemma_views(a@);
    }
    match (get_items(&a[0]), &a[1]) {
        (Some(v), MalVal::Int(i)) => {
            proof {
                lemma_views(v@);
            }
            if *i < 0 || v.len() as u64 <= *i as u64 {
                return error("nth:index out of range");
            }
            Ok(v[*i as usize].clone())
        },
        _ => error("invalid args to nth"),
    }
}

/// The first item of a list or a vector; `nil` for an empty one and for
/// `nil`.
pub fn first(a: &MalArgs) -> (r: MalRet)
    ensures
        ret_view(r) == plain_value(Builtin::First, views(a@)),
{
    if a.len() < 1 {
        proof {
            lemma_views(a@);
        }
        return error("not enough arguments");
    }
    proof {
        lemma_views(a@);
    }
    match &a[0] {
        MalVal::Nil => Ok(MalVal::Nil),
        _ => match get_items(&a[0]) {
            Some(v) => {
                proof {
                    lemma_views(v@);
                }
                if v.len() == 0 {
                    Ok(MalVal::Nil)
                } else {
                    Ok(v[0].clone())
                }
            },
            None => error("invalid args to first"),
        },
    }
}

/// The items of a list or a vector after the first, as a list; the empty list
/// for `nil`.
pub fn rest(a: &MalArgs) -> (r: MalRet)
    ensures
        ret_view(r) == plain_value(Builtin::Rest, views(a@)),
{
    if a.len() < 1 {
        proof {
            lemma_views(a@);
        }
        return error("not enough arguments");
    }
    proof {
        lemma_views(a@);
        assert(views(Seq::<MalVal>::empty()) =~= Seq::<Value>::empty());
    }
    match &a[0] {
        MalVal::Nil => Ok(list(Vec::new())),
        _ => match get_items(&a[0]) {
            Some(v) => {
                proof {
                    lemma_views(v@);
                }
                if v.len() > 1 {
                    let t = tail_of(v, 1);
                    proof {
                        lemma_views_subrange(v@, 1, v.len() as int);
                    }
                    Ok(list(t))
                } else {
                    Ok(list(Vec::new()))
                }
            },
            None => error("invalid args to list"),
        },
    }
}

impl MalVal {
    /// Whether a list or a vector has no items; `nil` counts as empty.
    pub fn empty_q(&self) -> (r: MalRet)
        ensures
            ret_view(r) == plain_value(Builtin::EmptyQ, seq![self@]),
    {
        match self {
            MalVal::Nil => Ok(MalVal::Bool(true)),
            _ => match get_items(self) {
                Some(v) => {
                    proof {
                        lemma_views(v@);
                    }
                    Ok(MalVal::Bool(v.len() == 0))
                },
                None => error("invalid empty value!"),
            },
        }
    }

    /// The number of items of a list or a vector; `nil` has none.
    pub fn count(&self) -> (r: MalRet)
        ensures
            ret_view(r) == plain_value(Builtin::Count, seq![self@]),
    {
        match self {
            MalVal::Nil => Ok(MalVal::Int(0)),
            _ => match get_items(self) {
                Some(v) => {
                    proof {
                        lemma_views(v@);
                    }
                    Ok(MalVal::Int(v.len() as i64))
                },
                None => error("invalid type for count"),
            },
        }
    }

    /// The keyword with the text of a string; a keyword stays as it is.
    pub fn keyword(&self) -> (r: MalRet)
        ensures
            ret_view(r) == plain_value(Builtin::Keyword, seq![self@]),
    {
        match self {
            MalVal::Str(s) => {
                let cs = to_chars(s.as_str());
                if cs.len() > 0 && cs[0] == KEYWORD_MARK {
                    Ok(MalVal::Str(s.clone()))
                } else {
                    let mut k = String::new();
                    k.push(KEYWORD_MARK);
                    k.append(s.as_str());
                    assert(k@ =~= seq![KEYWORD_MARK] + s@);
                    Ok(MalVal::Str(k))
                }
            },
            _ => error("invalid type for keyword"),
        }
    }

    /// The value that a reference cell holds.
    pub fn deref(&self, ctx: &Interp) -> (r: MalRet)
        ensures
            ret_view(r) == pure_value(ctx@, Builtin::Deref, seq![self@]),
    {
        proof {
            lemma_views(ctx.atoms@);
        }
        match self {
            MalVal::Atom(i) => {
                if *i < ctx.atoms.len() {
                    Ok(ctx.atoms[*i].clone())
                } else {
                    error("attempt to deref a non-Atom")
                }
            },
            _ => error("attempt to deref a non-Atom"),
        }
    }
}

fn type_test(b: Builtin, v: &MalVal) -> (r: bool)
    requires
        b == Builtin::NilQ || b == Builtin::TrueQ || b == Builtin::FalseQ || b == Builtin::SymbolQ
            || b == Builtin::AtomQ || b == Builtin::KeywordQ || b == Builtin::NumberQ || b
            == Builtin::LambdaQ || b == Builtin::MacroQ || b == Builtin::SequentialQ || b
            == Builtin::ListQ || b == Builtin::VectorQ || b == Builtin::MapQ,
    ensures
        plain_value(b, seq![v@]) == Ok::<Value, Fault>(Value::Bool(r)),
{
    match b {
        Builtin::NilQ => match v {
            MalVal::Nil => true,
            _ => false,
        },
        Builtin::TrueQ => match v {
            MalVal::Bool(x) => *x,
            _ => false,
        },
        Builtin::FalseQ => match v {
            MalVal::Bool(x) => !*x,
            _ => false,
        },
        Builtin::SymbolQ => match v {
            MalVal::Sym(_) => true,
            _ => false,
        },
        Builtin::AtomQ => match v {
            MalVal::Atom(_) => true,
            _ => false,
        },
        Builtin::KeywordQ => match v {
            MalVal::Str(s) => {
                let cs = to_chars(s.as_str());
                cs.len() > 0 && cs[0] == KEYWORD_MARK
            },
            _ => false,
        },
        Builtin::NumberQ => match v {
            MalVal::Int(_) => true,
            _ => false,
        },
        Builtin::LambdaQ => match v {
            MalVal::MalFunc { is_macro, .. } => !*is_macro,
            MalVal::Func(_) => true,
            _ => false,
        },
        Builtin::MacroQ => match v {
            MalVal::MalFunc { is_macro, .. } => *is_macro,
            _ => false,
        },
        Builtin::SequentialQ => match v {
            MalVal::List(_) => true,
            MalVal::Vector(_) => true,
            _ => false,
        },
        Builtin::ListQ => match v {
            MalVal::List(_) => true,
            _ => false,
        },
        Builtin::VectorQ => match v {
            MalVal::Vector(_) => true,
            _ => false,
        },
        _ => match v {
            MalVal::Hash(_) => true,
            _ => false,
        },
    }
}

/// The symbol with the text of a string.
pub fn symbol(a: &MalArgs) -> (r: MalRet)
    ensures
        ret_view(r) == plain_value(Builtin::Symbol, views(a@)),
{
    if a.len() < 1 {
        proof {
            lemma_views(a@);
        }
        return error("not enough arguments");
    }
    proof {
        lemma_views(a@);
    }
    match &a[0] {
        MalVal::Str(s) => Ok(MalVal::Sym(s.clone())),
        _ => error("illegal symbol call"),
    }
}

/// A map with keys set: a new map, the given one stays as it is.
pub fn assoc(a: &MalArgs) -> (r: MalRet)
    ensures
        ret_view(r) == plain_value(Builtin::Assoc, views(a@)),
{
    if a.len() < 1 {
        proof {
            lemma_views(a@);
        }
        return error("not enough arguments");
    }
    proof {
        lemma_views(a@);
        lemma_views_subrange(a@, 1, a.len() as int);
    }
    match &a[0] {
        MalVal::Hash(hm) => {
            let t: &Table = hm;
            _assoc(t.clone(), tail_of(a, 1))
        },
        _ => error("assoc on non-Hash Map"),
    }
}

/// A map without some keys: a new map, the given one stays as it is.
pub fn dissoc(a: &MalArgs) -> (r: MalRet)
    ensures
        ret_view(r) == plain_value(Builtin::Dissoc, views(a@)),
{
    if a.len() < 1 {
        proof {
            lemma_views(a@);
        }
        return error("not enough arguments");
    }
    proof {
        lemma_views(a@);
        lemma_views_subrange(a@, 1, a.len() as int);
    }
    match &a[0] {
        MalVal::Hash(hm) => {
            let t: &Table = hm;
            _dissoc(t.clone(), tail_of(a, 1))
        },
        _ => error("dissoc on non-Hash Map"),
    }
}

/// The value under a key of a map; `nil` where the map does not hold the key,
/// and for `nil` in place of a map.
pub fn get(a: &MalArgs) -> (r: MalRet)
    ensures
        ret_view(r) == plain_value(Builtin::Get, views(a@)),
{
    if a.len() < 2 {
        proof {
            lemma_views(a@);
        }
        return error("not enough arguments");
    }
    proof {
        lemma_views(a@);
    }
    match (&a[0], &a[1]) {
        (MalVal::Nil, _) => Ok(MalVal::Nil),
        (MalVal::Hash(hm), MalVal::Str(s)) => match hm.get(s.as_str()) {
            Some(v) => Ok(v),
            None => Ok(MalVal::Nil),
        },
        _ => error("illegal get args"),
    }
}

/// Whether a map holds a key.
pub fn contains_q(a: &MalArgs) -> (r: MalRet)
    ensures
        ret_view(r) == plain_value(Builtin::ContainsQ, views(a@)),
{
    if a.len() < 2 {
        proof {
            lemma_views(a@);
        }
        return error("not enough arguments");
    }
    proof {
        lemma_views(a@);
    }
    match (&a[0], &a[1]) {
        (MalVal::Hash(hm), MalVal::Str(s)) => Ok(MalVal::Bool(hm.contains_key(s.as_str()))),
        _ => error("illegal contains args"),
    }
}

/// The keys of a map, as a list of strings.
pub fn keys(a: &MalArgs) -> (r: MalRet)
    ensures
        ret_view(r) == plain_value(Builtin::Keys, views(a@)),
{
    if a.len() < 1 {
        proof {
            lemma_views(a@);
        }
        return error("not enough arguments");
    }
    proof {
        lemma_views(a@);
    }
    match &a[0] {
        MalVal::Hash(hm) => {
            let mut out: Vec<MalVal> = Vec::new();
            let n = hm.len();
            let mut i: usize = 0;
            while i < n
                invariant
                    i <= n,
                    n == hm@.len(),
                    out.len() == i,
                    forall|j: int| 0 <= j < i ==> (#[trigger] out@[j])@ == Value::Str(hm@[j].0),
                decreases n - i,
            {
                out.push(MalVal::Str(hm.key_at(i).clone()));
                i += 1;
            }
            proof {
                lemma_views(out@);
                assert(views(out@) =~= key_values(hm@));
            }
            Ok(list(out))
        },
        _ => error("keys requires Hash Map"),
    }
}

/// The values of a map, as a list.
pub fn vals(a: &MalArgs) -> (r: MalRet)
    ensures
        ret_view(r) == plain_value(Builtin::Vals, views(a@)),
{
    if a.len() < 1 {
        proof {
            lemma_views(a@);
        }
        return error("not enough arguments");
    }
    proof {
        lemma_views(a@);
    }
    match &a[0] {
        MalVal::Hash(hm) => {
            let mut out: Vec<MalVal> = Vec::new();
            let n = hm.len();
            let mut i: usize = 0;
            while i < n
                invariant
                    i <= n,
                    n == hm@.len(),
                    out.len() == i,
                    forall|j: int| 0 <= j < i ==> (#[trigger] out@[j])@ == hm@[j].1,
                decreases n - i,
            {
                out.push(hm.val_at(i).clone());
                i += 1;
            }
            proof {
                lemma_views(out@);
                assert(views(out@) =~= val_values(hm@));
            }
            Ok(list(out))
        },
        _ => error("vals requires Hash Map"),
    }
}

fn file_at(ctx: &Interp, b: Builtin, path: &str) -> (r: MalRet)
    requires
        b == Builtin::ReadFile || b == Builtin::Ls,
    ensures
        ret_view(r) == file_value(ctx@, b, path@),
{
    let missing = match b {
        Builtin::ReadFile => "read_file: no such file",
        _ => "ls: no such directory",
    };
    match ctx.files.get(path) {
        Some(MalVal::Str(text)) => match b {
            Builtin::ReadFile => Ok(MalVal::Str(text)),
            _ => error(missing),
        },
        Some(MalVal::List(names)) => match b {
            Builtin::Ls => Ok(MalVal::List(names)),
            _ => error(missing),
        },
        _ => error(missing),
    }
}

/// The text of a file that the host has handed over.
pub fn read_file(ctx: &Interp, a: &MalArgs) -> (r: MalRet)
    ensures
        ret_view(r) == pure_value(ctx@, Builtin::ReadFile, views(a@)),
{
    if a.len() < 1 {
        proof {
            lemma_views(a@);
        }
        return error("not enough arguments");
    }
    proof {
        lemma_views(a@);
    }
    match &a[0] {
        MalVal::Str(path) => file_at(ctx, Builtin::ReadFile, path.as_str()),
        _ => error("read_file requires path String"),
    }
}

/// The names in a directory that the host has handed over; without an
/// argument, those of the path `/`.
pub fn ls_dir(ctx: &Interp, a: &MalArgs) -> (r: MalRet)
    ensures
        ret_view(r) == pure_value(ctx@, Builtin::Ls, views(a@)),
{
    proof {
        lemma_views(a@);
    }
    if a.len() > 0 {
        match &a[0] {
            MalVal::Str(name) => file_at(ctx, Builtin::Ls, name.as_str()),
            _ => error("ls requires a path string!"),
        }
    } else {
        file_at(ctx, Builtin::Ls, "/")
    }
}

fn copy_args(a: &MalArgs) -> (r: MalArgs)
    ensures
        r@ == a@,
{
    let r = tail_of(a, 0);
    assert(a@.subrange(0, a.len() as int) == a@);
    r
}

fn min_args(b: Builtin) -> (r: usize)
    ensures
        r == arity(b),
{
    match b {
        Builtin::List | Builtin::Prn | Builtin::Concat | Builtin::PrStr | Builtin::Str
        | Builtin::Vector | Builtin::HashMap | Builtin::Ls => 0,
        Builtin::Equal | Builtin::Lt | Builtin::Le | Builtin::Gt | Builtin::Ge | Builtin::Add
        | Builtin::Sub | Builtin::Mul | Builtin::Div | Builtin::Cons | Builtin::Nth
        | Builtin::Apply | Builtin::MapEach | Builtin::ResetBang | Builtin::SwapBang
        | Builtin::Get | Builtin::ContainsQ => 2,
        _ => 1,
    }
}

/// Whether a primitive changes the interpreter's state or calls a function.
pub open spec fn is_effectful(b: Builtin) -> bool {
    b == Builtin::Prn || b == Builtin::Atom || b == Builtin::ResetBang || b == Builtin::SwapBang
        || b == Builtin::Apply || b == Builtin::MapEach
}

/// Calls a primitive that neither changes the interpreter's state nor calls
/// a function; any other primitive is refused.
pub fn call_pure(ctx: &Interp, b: Builtin, a: &MalArgs) -> (r: MalRet)
    ensures
        ret_view(r) == pure_value(ctx@, b, views(a@)),
{
    proof {
        lemma_views(a@);
    }
    if a.len() < min_args(b) {
        return error("not enough arguments");
    }
    match b {
        Builtin::Equal => Ok(MalVal::Bool(same(&a[0], &a[1]))),
        Builtin::ReadString => match &a[0] {
            MalVal::Str(s) => read_str(s.clone()),
            _ => error("expecting (str) arg"),
        },
        Builtin::List => Ok(list(copy_args(a))),
        Builtin::Vector => Ok(vector(copy_args(a))),
        Builtin::Lt | Builtin::Le | Builtin::Gt | Builtin::Ge | Builtin::Add | Builtin::Sub
        | Builtin::Mul | Builtin::Div => int_op(b, a),
        Builtin::Cons => cons(a),
        Builtin::Concat => concat(a),
        Builtin::Nth => nth(a),
        Builtin::First => first(a),
        Builtin::Rest => rest(a),
        Builtin::Count => a[0].count(),
        Builtin::EmptyQ => a[0].empty_q(),
        Builtin::Throw => Err(MalErr::ErrMalVal(a[0].clone())),
        Builtin::NilQ | Builtin::TrueQ | Builtin::FalseQ | Builtin::SymbolQ | Builtin::AtomQ
        | Builtin::KeywordQ | Builtin::NumberQ | Builtin::LambdaQ | Builtin::MacroQ
        | Builtin::SequentialQ | Builtin::ListQ | Builtin::VectorQ | Builtin::MapQ => Ok(
            MalVal::Bool(type_test(b, &a[0])),
        ),
        Builtin::Deref => a[0].deref(ctx),
        Builtin::Symbol => symbol(a),
        Builtin::Keyword => a[0].keyword(),
        Builtin::PrStr => {
            let t = pr_seq(a, true, "", "", " ", ctx);
            proof {
                reveal_strlit("");
                assert(t@ =~= seq_text(views(a@), true, " "@, ctx@.atoms, ctx@.atoms.len()));
            }
            Ok(MalVal::Str(t))
        },
        Builtin::Str => {
            let t = pr_seq(a, false, "", "", "", ctx);
            proof {
                reveal_strlit("");
                assert(t@ =~= seq_text(views(a@), false, ""@, ctx@.atoms, ctx@.atoms.len()));
            }
            Ok(MalVal::Str(t))
        },
        Builtin::HashMap => hash_map(copy_args(a)),
        Builtin::Assoc => assoc(a),
        Builtin::Dissoc => dissoc(a),
        Builtin::Get => get(a),
        Builtin::ContainsQ => contains_q(a),
        Builtin::Keys => keys(a),
        Builtin::Vals => vals(a),
        Builtin::ReadFile => read_file(ctx, a),
        Builtin::Ls => ls_dir(ctx, a),
        _ => error("not a pure primitive"),
    }
}

} // verus!
