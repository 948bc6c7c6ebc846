use vstd::prelude::*;
use std::rc::Rc;
use crate::table::Table;
use crate::text::text_eq;
use crate::table::put;

verus! {

/// A handle to one frame of the environment chain.
pub type Env = usize;

/// The arguments of a call.
pub type MalArgs = Vec<MalVal>;

/// What an evaluation gives: a value, or the error that stopped it.
pub type MalRet = Result<MalVal, MalErr>;

/// The character that marks a string as a keyword.
pub const KEYWORD_MARK: char = '\u{29e}';

/// The primitive operations that the host implements.
#[derive(Clone, Copy, PartialEq, Eq, Structural, Debug)]
pub enum Builtin {
    Equal,
    ReadString,
    List,
    Lt,
    Le,
    Gt,
    Ge,
    Add,
    Sub,
    Mul,
    Div,
    Prn,
    Cons,
    Concat,
    Nth,
    First,
    Rest,
    Count,
    EmptyQ,
    Throw,
    Apply,
    MapEach,
    NilQ,
    TrueQ,
    FalseQ,
    SymbolQ,
    Atom,
    AtomQ,
    ResetBang,
    Deref,
    SwapBang,
    Symbol,
    Keyword,
    KeywordQ,
    NumberQ,
    LambdaQ,
    MacroQ,
    PrStr,
    Str,
    SequentialQ,
    ListQ,
    Vector,
    VectorQ,
    HashMap,
    MapQ,
    Assoc,
    Dissoc,
    Get,
    ContainsQ,
    Keys,
    Vals,
    ReadFile,
    Ls,
}

/// The mathematical value that a `MalVal` denotes.
pub enum Value {
    Nil,
    Bool(bool),
    Int(i64),
    Str(Seq<char>),
    Sym(Seq<char>),
    List(Seq<Value>),
    Vector(Seq<Value>),
    /// The entries of a map, in the order in which their keys first came in.
    Hash(Seq<(Seq<char>, Value)>),
    Func(Builtin),
    MalFunc { ast: Box<Value>, env: Env, params: Box<Value>, is_macro: bool, meta: Box<Value> },
    /// A reference cell, by its place in the interpreter's store.
    Atom(usize),
}

/// The mathematical form of an error.
pub enum Fault {
    /// A plain descriptive message.
    Msg(Seq<char>),
    /// A value raised by `throw`.
    Val(Value),
}

/// A runtime value of the language.
#[derive(Debug)]
pub enum MalVal {
    Nil,
    Bool(bool),
    Int(i64),
    Str(String),
    Sym(String),
    List(Rc<Vec<MalVal>>),
    Vector(Rc<Vec<MalVal>>),
    Hash(Rc<Table>),
    Func(Builtin),
    MalFunc { ast: Rc<MalVal>, env: Env, params: Rc<MalVal>, is_macro: bool, meta: Rc<MalVal> },
    Atom(usize),
}

/// An error of the language: a message, or a thrown value.
#[derive(Debug)]
pub enum MalErr {
    ErrString(String),
    ErrMalVal(MalVal),
}

/// A second pointer to the same allocation: `Rc::clone` copies no contents,
/// so the second pointer denotes the value that the first denotes.
#[verifier::external_body]
pub(crate) fn share<T>(rc: &Rc<T>) -> (res: Rc<T>)
    ensures
        res == *rc,
{
    Rc::clone(rc)
}

/// The values that a sequence of runtime values denotes, one for one.
pub open spec fn views(s: Seq<MalVal>) -> Seq<Value>
    decreases s,
{
    if s.len() == 0 {
        Seq::empty()
    } else {
        views(s.drop_last()).push(s.last().view())
    }
}

impl View for MalVal {
    type V = Value;

    open spec fn view(&self) -> Value
        decreases self,
    {
        match self {
            MalVal::Nil => Value::Nil,
            MalVal::Bool(b) => Value::Bool(*b),
            MalVal::Int(i) => Value::Int(*i),
            MalVal::Str(s) => Value::Str(s@),
            MalVal::Sym(s) => Value::Sym(s@),
            MalVal::List(l) => Value::List(views(l@)),
            MalVal::Vector(l) => Value::Vector(views(l@)),
            MalVal::Hash(t) => Value::Hash((**t).view()),
            MalVal::Func(b) => Value::Func(*b),
            MalVal::MalFunc { ast, env, params, is_macro, meta } => Value::MalFunc {
                ast: Box::new((**ast).view()),
                env: *env,
                params: Box::new((**params).view()),
                is_macro: *is_macro,
                meta: Box::new((**meta).view()),
            },
            MalVal::Atom(a) => Value::Atom(*a),
        }
    }
}

impl View for MalErr {
    type V = Fault;

    open spec fn view(&self) -> Fault {
        match self {
            MalErr::ErrString(s) => Fault::Msg(s@),
            MalErr::ErrMalVal(v) => Fault::Val(v@),
        }
    }
}

/// What a result denotes.
pub open spec fn ret_view(r: MalRet) -> Result<Value, Fault> {
    match r {
        Ok(v) => Ok(v@),
        Err(e) => Err(e@),
    }
}

/// The failure with the given message.
pub open spec fn fail(msg: Seq<char>) -> Result<Value, Fault> {
    Err(Fault::Msg(msg))
}

pub proof fn lemma_views(s: Seq<MalVal>)
    ensures
        views(s).len() == s.len(),
        forall|i: int| 0 <= i < s.len() ==> (#[trigger] views(s)[i]) == s[i]@,
    decreases s.len(),
{
    if s.len() > 0 {
        lemma_views(s.drop_last());
        assert(views(s) == views(s.drop_last()).push(s.last().view()));
    } else {
        assert(views(s) == Seq::<Value>::empty());
    }
}

pub proof fn lemma_views_push(s: Seq<MalVal>, v: MalVal)
    ensures
        views(s.push(v)) == views(s).push(v@),
{
    assert(s.push(v).drop_last() == s);
    assert(views(s.push(v)) == views(s.push(v).drop_last()).push(s.push(v).last().view()));
}

pub proof fn lemma_views_subrange(s: Seq<MalVal>, i: int, j: int)
    requires
        0 <= i <= j <= s.len(),
    ensures
        views(s.subrange(i, j)) == views(s).subrange(i, j),
{
    lemma_views(s);
    lemma_views(s.subrange(i, j));
    assert(views(s.subrange(i, j)) =~= views(s).subrange(i, j));
}

pub proof fn lemma_views_add(a: Seq<MalVal>, b: Seq<MalVal>)
    ensures
        views(a + b) == views(a) + views(b),
{
    lemma_views(a);
    lemma_views(b);
    lemma_views(a + b);
    assert(views(a + b) =~= views(a) + views(b));
}

pub proof fn lemma_views_update(s: Seq<MalVal>, i: int, v: MalVal)
    requires
        0 <= i < s.len(),
    ensures
        views(s.update(i, v)) == views(s).update(i, v@),
{
    lemma_views(s);
    lemma_views(s.update(i, v));
    assert(views(s.update(i, v)) =~= views(s).update(i, v@));
}

impl Clone for MalVal {
    fn clone(&self) -> (r: MalVal)
        ensures
            r == *self,
    {
        match self {
            MalVal::Nil => MalVal::Nil,
            MalVal::Bool(b) => MalVal::Bool(*b),
            MalVal::Int(i) => MalVal::Int(*i),
            MalVal::Str(s) => MalVal::Str(s.clone()),
            MalVal::Sym(s) => MalVal::Sym(s.clone()),
            MalVal::List(l) => MalVal::List(share(l)),
            MalVal::Vector(l) => MalVal::Vector(share(l)),
            MalVal::Hash(t) => MalVal::Hash(share(t)),
            MalVal::Func(b) => MalVal::Func(*b),
            MalVal::MalFunc { ast, env, params, is_macro, meta } => MalVal::MalFunc {
                ast: share(ast),
                env: *env,
                params: share(params),
                is_macro: *is_macro,
                meta: share(meta),
            },
            MalVal::Atom(a) => MalVal::Atom(*a),
        }
    }
}

impl Clone for MalErr {
    fn clone(&self) -> (r: MalErr)
        ensures
            r == *self,
    {
        match self {
            MalErr::ErrString(s) => MalErr::ErrString(s.clone()),
            MalErr::ErrMalVal(v) => MalErr::ErrMalVal(v.clone()),
        }
    }
}

/// The message error with the given text.
pub fn error(s: &str) -> (r: MalRet)
    ensures
        ret_view(r) == fail(s@),
{
    Err(MalErr::ErrString(String::from_str(s)))
}

/// The list that holds the given items.
pub fn list(items: Vec<MalVal>) -> (r: MalVal)
    ensures
        r@ == Value::List(views(items@)),
{
    MalVal::List(Rc::new(items))
}

/// The vector that holds the given items.
pub fn vector(items: Vec<MalVal>) -> (r: MalVal)
    ensures
        r@ == Value::Vector(views(items@)),
{
    MalVal::Vector(Rc::new(items))
}

/// The symbol with the given name.
pub fn sym(name: &str) -> (r: MalVal)
    ensures
        r@ == Value::Sym(name@),
{
    MalVal::Sym(String::from_str(name))
}

/// The value that stands for a primitive operation.
pub fn func(f: Builtin) -> (r: MalVal)
    ensures
        r@ == Value::Func(f),
{
    MalVal::Func(f)
}

/// A copy of the items of `v` from place `from` on.
pub fn tail_of(v: &Vec<MalVal>, from: usize) -> (r: Vec<MalVal>)
    ensures
        from <= v.len() ==> r@ == v@.subrange(from as int, v.len() as int),
        from > v.len() ==> r@ == Seq::<MalVal>::empty(),
{
    let mut out: Vec<MalVal> = Vec::new();
    let mut i: usize = from;
    assert(from <= v.len() ==> out@ == v@.subrange(from as int, from as int));
    while i < v.len()
        invariant
            from <= i,
            from <= v.len() ==> i <= v.len(),
            i <= v.len() || out@ == Seq::<MalVal>::empty(),
            i <= v.len() ==> out@ == v@.subrange(from as int, i as int),
        decreases v.len() - i,
    {
        out.push(v[i].clone());
        i += 1;
        assert(v@.subrange(from as int, i as int) == v@.subrange(from as int, i - 1).push(
            v@[i - 1],
        ));
    }
    out
}

impl Builtin {
    /// The name under which the primitive is bound.
    pub open spec fn name(self) -> Seq<char> {
        match self {
            Builtin::Equal => "="@,
            Builtin::ReadString => "read-string"@,
            Builtin::List => "list"@,
            Builtin::Lt => "<"@,
            Builtin::Le => "<="@,
            Builtin::Gt => ">"@,
            Builtin::Ge => ">="@,
            Builtin::Add => "+"@,
            Builtin::Sub => "-"@,
            Builtin::Mul => "*"@,
            Builtin::Div => "/"@,
            Builtin::Prn => "prn"@,
            Builtin::Cons => "cons"@,
            Builtin::Concat => "concat"@,
            Builtin::Nth => "nth"@,
            Builtin::First => "first"@,
            Builtin::Rest => "rest"@,
            Builtin::Count => "count"@,
            Builtin::EmptyQ => "empty?"@,
            Builtin::Throw => "throw"@,
            Builtin::Apply => "apply"@,
            Builtin::MapEach => "map"@,
            Builtin::NilQ => "nil?"@,
            Builtin::TrueQ => "true?"@,
            Builtin::FalseQ => "false?"@,
            Builtin::SymbolQ => "symbol?"@,
            Builtin::Atom => "atom"@,
            Builtin::AtomQ => "atom?"@,
            Builtin::ResetBang => "reset!"@,
            Builtin::Deref => "deref"@,
            Builtin::SwapBang => "swap!"@,
            Builtin::Symbol => "symbol"@,
            Builtin::Keyword => "keyword"@,
            Builtin::KeywordQ => "keyword?"@,
            Builtin::NumberQ => "number?"@,
            Builtin::LambdaQ => "lambda?"@,
            Builtin::MacroQ => "macro?"@,
            Builtin::PrStr => "pr-str"@,
            Builtin::Str => "str"@,
            Builtin::SequentialQ => "sequential?"@,
            Builtin::ListQ => "list?"@,
            Builtin::Vector => "vector"@,
            Builtin::VectorQ => "vector?"@,
            Builtin::HashMap => "hash-map"@,
            Builtin::MapQ => "map?"@,
            Builtin::Assoc => "assoc"@,
            Builtin::Dissoc => "dissoc"@,
            Builtin::Get => "get"@,
            Builtin::ContainsQ => "contains?"@,
            Builtin::Keys => "keys"@,
            Builtin::Vals => "vals"@,
            Builtin::ReadFile => "read-file"@,
            Builtin::Ls => "ls"@,
        }
    }

    /// The name under which the primitive is bound.
    pub fn name_of(self) -> (r: &'static str)
        ensures
            r@ == self.name(),
    {
        match self {
            Builtin::Equal => "=",
            Builtin::ReadString => "read-string",
            Builtin::List => "list",
            Builtin::Lt => "<",
            Builtin::Le => "<=",
            Builtin::Gt => ">",
            Builtin::Ge => ">=",
            Builtin::Add => "+",
            Builtin::Sub => "-",
            Builtin::Mul => "*",
            Builtin::Div => "/",
            Builtin::Prn => "prn",
            Builtin::Cons => "cons",
            Builtin::Concat => "concat",
            Builtin::Nth => "nth",
            Builtin::First => "first",
            Builtin::Rest => "rest",
            Builtin::Count => "count",
            Builtin::EmptyQ => "empty?",
            Builtin::Throw => "throw",
            Builtin::Apply => "apply",
            Builtin::MapEach => "map",
            Builtin::NilQ => "nil?",
            Builtin::TrueQ => "true?",
            Builtin::FalseQ => "false?",
            Builtin::SymbolQ => "symbol?",
            Builtin::Atom => "atom",
            Builtin::AtomQ => "atom?",
            Builtin::ResetBang => "reset!",
            Builtin::Deref => "deref",
            Builtin::SwapBang => "swap!",
            Builtin::Symbol => "symbol",
            Builtin::Keyword => "keyword",
            Builtin::KeywordQ => "keyword?",
            Builtin::NumberQ => "number?",
            Builtin::LambdaQ => "lambda?",
            Builtin::MacroQ => "macro?",
            Builtin::PrStr => "pr-str",
            Builtin::Str => "str",
            Builtin::SequentialQ => "sequential?",
            Builtin::ListQ => "list?",
            Builtin::Vector => "vector",
            Builtin::VectorQ => "vector?",
            Builtin::HashMap => "hash-map",
            Builtin::MapQ => "map?",
            Builtin::Assoc => "assoc",
            Builtin::Dissoc => "dissoc",
            Builtin::Get => "get",
            Builtin::ContainsQ => "contains?",
            Builtin::Keys => "keys",
            Builtin::Vals => "vals",
            Builtin::ReadFile => "read-file",
            Builtin::Ls => "ls",
        }
    }
}

/// The entries after the keys and values of `kvs`, taken in pairs, were set
/// one after another; a key that is no string is refused.
pub open spec fn assoc_entries(e: Seq<(Seq<char>, Value)>, kvs: Seq<Value>) -> Result<
    Seq<(Seq<char>, Value)>,
    Fault,
>
    decreases kvs.len(),
{
    if kvs.len() < 2 {
        Ok(e)
    } else {
        match kvs[0] {
            Value::Str(k) => assoc_entries(put(e, k, kvs[1]), kvs.skip(2)),
            _ => Err(Fault::Msg("key is not string"@)),
        }
    }
}

/// The map that `assoc` gives: the entries `e` with the keys and values of
/// `kvs` set, or the error for an odd number of them or a key that is no
/// string.
pub open spec fn assoc_value(e: Seq<(Seq<char>, Value)>, kvs: Seq<Value>) -> Result<Value, Fault> {
    if kvs.len() % 2 != 0 {
        fail("odd number of elements"@)
    } else {
        match assoc_entries(e, kvs) {
            Ok(e2) => Ok(Value::Hash(e2)),
            Err(f) => Err(f),
        }
    }
}

/// The entries of `e` whose keys are not among `ks`, rebuilt in their order.
pub open spec fn kept_entries(e: Seq<(Seq<char>, Value)>, ks: Seq<Seq<char>>) -> Seq<
    (Seq<char>, Value),
>
    decreases e.len(),
{
    if e.len() == 0 {
        Seq::empty()
    } else if ks.contains(e.last().0) {
        kept_entries(e.drop_last(), ks)
    } else {
        put(kept_entries(e.drop_last(), ks), e.last().0, e.last().1)
    }
}

/// The texts of the values of `ks`, where they are all strings.
pub open spec fn key_texts(ks: Seq<Value>) -> Option<Seq<Seq<char>>>
    decreases ks.len(),
{
    if ks.len() == 0 {
        Some(Seq::empty())
    } else {
        match (key_texts(ks.drop_last()), ks.last()) {
            (Some(t), Value::Str(k)) => Some(t.push(k)),
            _ => None,
        }
    }
}

/// The map that `dissoc` gives: the entries `e` without the keys `ks`, or
/// the error for a key that is no string.
pub open spec fn dissoc_value(e: Seq<(Seq<char>, Value)>, ks: Seq<Value>) -> Result<Value, Fault> {
    match key_texts(ks) {
        Some(t) => Ok(Value::Hash(kept_entries(e, t))),
        None => fail("key is not string"@),
    }
}

/// Sets the keys and values of `kvs`, taken in pairs, in the table `hm`.
pub fn _assoc(hm: Table, kvs: MalArgs) -> (r: MalRet)
    ensures
        ret_view(r) == assoc_value(hm@, views(kvs@)),
{
    if kvs.len() % 2 != 0 {
        proof {
            lemma_views(kvs@);
        }
        return error("odd number of elements");
    }
    let ghost start = hm@;
    let mut table = hm;
    let mut i: usize = 0;
    proof {
        lemma_views(kvs@);
        assert(views(kvs@).skip(0) == views(kvs@));
    }
    while i < kvs.len()
        invariant
            i <= kvs.len(),
            i % 2 == 0,
            kvs.len() % 2 == 0,
            views(kvs@).len() == kvs.len(),
            start == hm@,
            assoc_entries(start, views(kvs@)) == assoc_entries(table@, views(kvs@).skip(i as int)),
        decreases kvs.len() - i,
    {
        proof {
            lemma_views(kvs@);
            let rest = views(kvs@).skip(i as int);
            assert(rest[0] == kvs@[i as int]@);
            assert(rest[1] == kvs@[i + 1]@);
            assert(rest.skip(2) == views(kvs@).skip(i + 2));
        }
        match &kvs[i] {
            MalVal::Str(s) => {
                table.insert(s.clone(), kvs[i + 1].clone());
            },
            _ => {
                proof {
                    let rest = views(kvs@).skip(i as int);
                    assert(!(rest[0] is Str));
                    assert(assoc_entries(table@, rest) == Err::<Seq<(Seq<char>, Value)>, Fault>(
                        Fault::Msg("key is not string"@),
                    ));
                }
                return error("key is not string");
            },
        }
        i += 2;
    }
    Ok(MalVal::Hash(Rc::new(table)))
}

/// The map made of the keys and values of `kvs`, taken in pairs.
pub fn hash_map(kvs: MalArgs) -> (r: MalRet)
    ensures
        ret_view(r) == assoc_value(Seq::empty(), views(kvs@)),
{
    _assoc(Table::new(), kvs)
}

/// Rebuilds the table `hm` without the keys `ks`.
pub fn _dissoc(hm: Table, ks: MalArgs) -> (r: MalRet)
    ensures
        ret_view(r) == dissoc_value(hm@, views(ks@)),
{
    let mut names: Vec<String> = Vec::new();
    let mut i: usize = 0;
    proof {
        assert(ks@.subrange(0, 0) == Seq::<MalVal>::empty());
    }
    while i < ks.len()
        invariant
            i <= ks.len(),
            key_texts(views(ks@.subrange(0, i as int))) == Some(texts(names@)),
        decreases ks.len() - i,
    {
        proof {
            let p = ks@.subrange(0, i + 1);
            assert(p.drop_last() == ks@.subrange(0, i as int));
            lemma_views(p);
            lemma_views(ks@.subrange(0, i as int));
            assert(views(p).drop_last() =~= views(ks@.subrange(0, i as int)));
            assert(views(p).last() == ks@[i as int]@);
        }
        match &ks[i] {
            MalVal::Str(s) => {
                names.push(s.clone());
                proof {
                    assert(texts(names@) =~= texts(names@.drop_last()).push(s@));
                }
            },
            _ => {
                proof {
                    lemma_views(ks@);
                    lemma_views_subrange(ks@, 0, i + 1);
                    let p = views(ks@).subrange(0, i + 1);
                    assert(!(p.last() is Str));
                    assert(key_texts(p) is None);
                    lemma_key_texts_prefix(views(ks@), i + 1);
                }
                return error("key is not string");
            },
        }
        i += 1;
    }
    assert(ks@.subrange(0, ks.len() as int) == ks@);
    let mut out = Table::new();
    let n = hm.len();
    let mut j: usize = 0;
    assert(hm@.subrange(0, 0) == Seq::<(Seq<char>, Value)>::empty());
    while j < n
        invariant
            j <= n,
            n == hm@.len(),
            out@ == kept_entries(hm@.subrange(0, j as int), texts(names@)),
        decreases n - j,
    {
        proof {
            let p = hm@.subrange(0, j + 1);
            assert(p.drop_last() == hm@.subrange(0, j as int));
            assert(p.last() == hm@[j as int]);
        }
        let k = hm.key_at(j);
        if !has_text(&names, k.as_str()) {
            out.insert(k.clone(), hm.val_at(j).clone());
        }
        j += 1;
    }
    assert(hm@.subrange(0, n as int) == hm@);
    Ok(MalVal::Hash(Rc::new(out)))
}

/// The texts of a sequence of strings, one for one.
pub open spec fn texts(s: Seq<String>) -> Seq<Seq<char>> {
    Seq::new(s.len(), |i: int| s[i]@)
}

pub proof fn lemma_key_texts_prefix(ks: Seq<Value>, j: int)
    requires
        0 <= j <= ks.len(),
        key_texts(ks.subrange(0, j)) is None,
    ensures
        key_texts(ks) is None,
    decreases ks.len() - j,
{
    if j < ks.len() {
        assert(ks.subrange(0, j + 1).drop_last() == ks.subrange(0, j));
        lemma_key_texts_prefix(ks, j + 1);
    } else {
        assert(ks.subrange(0, j) == ks);
    }
}

/// Whether `names` holds the text `k`.
pub fn has_text(names: &Vec<String>, k: &str) -> (r: bool)
    ensures
        r == texts(names@).contains(k@),
{
    let mut i: usize = 0;
    while i < names.len()
        invariant
            i <= names.len(),
            forall|j: int| 0 <= j < i ==> texts(names@)[j] != k@,
        decreases names.len() - i,
    {
        if text_eq(names[i].as_str(), k) {
            assert(texts(names@)[i as int] == k@);
            return true;
        }
        i += 1;
    }
    false
}

} // verus!
