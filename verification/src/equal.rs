use vstd::prelude::*;
use crate::table::lookup;
use crate::table::Table;
use crate::types::lemma_views;
use crate::types::views;
use crate::types::MalVal;
use crate::types::Value;

verus! {

/// Equality of two values as the language sees it: scalars by their
/// contents, a list and a vector by their items, maps by their keys and the
/// values under them; a function or a reference cell equals nothing.
pub open spec fn val_eq(a: Value, b: Value) -> bool
    decreases a,
{
    match a {
        Value::Nil => b is Nil,
        Value::Bool(x) => b == Value::Bool(x),
        Value::Int(x) => b == Value::Int(x),
        Value::Str(x) => b == Value::Str(x),
        Value::Sym(x) => b == Value::Sym(x),
        Value::List(x) => match b {
            Value::List(y) => seq_eq(x, y),
            Value::Vector(y) => seq_eq(x, y),
            _ => false,
        },
        Value::Vector(x) => match b {
            Value::List(y) => seq_eq(x, y),
            Value::Vector(y) => seq_eq(x, y),
            _ => false,
        },
        Value::Hash(x) => match b {
            Value::Hash(y) => x.len() == y.len() && entries_in(x, y),
            _ => false,
        },
        _ => false,
    }
}

/// Equality of two sequences of values: the same length, and equal items at
/// each place.
pub open spec fn seq_eq(x: Seq<Value>, y: Seq<Value>) -> bool
    decreases x,
{
    x.len() == y.len() && forall|i: int| 0 <= i < x.len() ==> val_eq(#[trigger] x[i], y[i])
}

/// Whether each entry of `x` has its key in `y`, with an equal value under
/// it.
pub open spec fn entries_in(x: Seq<(Seq<char>, Value)>, y: Seq<(Seq<char>, Value)>) -> bool
    decreases x,
{
    forall|i: int|
        0 <= i < x.len() ==> match lookup(y, (#[trigger] x[i]).0) {
            Some(v) => val_eq(x[i].1, v),
            None => false,
        }
}

fn same_items(x: &Vec<MalVal>, y: &Vec<MalVal>) -> (r: bool)
    ensures
        r == seq_eq(views(x@), views(y@)),
    decreases x,
{
    proof {
        lemma_views(x@);
        lemma_views(y@);
    }
    if x.len() != y.len() {
        return false;
    }
    let mut i: usize = 0;
    while i < x.len()
        invariant
            i <= x.len(),
            x.len() == y.len(),
            views(x@).len() == x.len(),
            views(y@).len() == y.len(),
            forall|j: int| 0 <= j < x.len() ==> (#[trigger] views(x@)[j]) == x@[j]@,
            forall|j: int| 0 <= j < y.len() ==> (#[trigger] views(y@)[j]) == y@[j]@,
            forall|j: int| 0 <= j < i ==> val_eq(#[trigger] views(x@)[j], views(y@)[j]),
        decreases x.len() - i,
    {
        if !same(&x[i], &y[i]) {
            assert(!val_eq(views(x@)[i as int], views(y@)[i as int]));
            return false;
        }
        i += 1;
    }
    true
}

fn same_entries(x: &Table, y: &Table) -> (r: bool)
    ensures
        r == (x@.len() == y@.len() && entries_in(x@, y@)),
    decreases x,
{
    if x.len() != y.len() {
        return false;
    }
    let vals = x.values();
    let n = x.len();
    let mut i: usize = 0;
    while i < n
        invariant
            i <= n,
            n == x@.len(),
            x@.len() == y@.len(),
            vals.len() == x@.len(),
            decreases_to!(x => vals),
            forall|j: int| 0 <= j < vals.len() ==> (#[trigger] vals[j])@ == x@[j].1,
            forall|j: int|
                0 <= j < i ==> match lookup(y@, (#[trigger] x@[j]).0) {
                    Some(v) => val_eq(x@[j].1, v),
                    None => false,
                },
        decreases n - i,
    {
        let found = y.get(x.key_at(i).as_str());
        let ok = match found {
            Some(v) => same(&vals[i], &v),
            None => false,
        };
        if !ok {
            assert(!(match lookup(y@, x@[i as int].0) {
                Some(v) => val_eq(x@[i as int].1, v),
                None => false,
            }));
            return false;
        }
        i += 1;
    }
    true
}

/// Whether two values are equal as the language sees it.
pub fn same(a: &MalVal, b: &MalVal) -> (r: bool)
    ensures
        r == val_eq(a@, b@),
    decreases a,
{
    match a {
        MalVal::Nil => match b {
            MalVal::Nil => true,
            _ => false,
        },
        MalVal::Bool(x) => match b {
            MalVal::Bool(y) => *x == *y,
            _ => false,
        },
        MalVal::Int(x) => match b {
            MalVal::Int(y) => *x == *y,
            _ => false,
        },
        MalVal::Str(x) => match b {
            MalVal::Str(y) => *x == *y,
            _ => false,
        },
        MalVal::Sym(x) => match b {
            MalVal::Sym(y) => *x == *y,
            _ => false,
        },
        MalVal::List(x) => match b {
            MalVal::List(y) => same_items(x, y),
            MalVal::Vector(y) => same_items(x, y),
            _ => false,
        },
        MalVal::Vector(x) => match b {
            MalVal::List(y) => same_items(x, y),
            MalVal::Vector(y) => same_items(x, y),
            _ => false,
        },
        MalVal::Hash(x) => match b {
            MalVal::Hash(y) => same_entries(x, y),
            _ => false,
        },
        _ => false,
    }
}

impl PartialEq for MalVal {
    fn eq(&self, other: &MalVal) -> (r: bool) {
        same(self, other)
    }
}

impl vstd::std_specs::cmp::PartialEqSpecImpl for MalVal {
    open spec fn obeys_eq_spec() -> bool {
        true
    }

    open spec fn eq_spec(&self, other: &MalVal) -> bool {
        val_eq(self@, other@)
    }
}

} // verus!
