use vstd::prelude::*;
use hashbrown::HashMap;
use crate::types::MalVal;
use crate::types::Value;

verus! {

/// The key index of a table: a hashbrown `HashMap` from a key's text to the
/// slot that holds its entry.
#[verifier::external_body]
#[derive(Debug)]
pub struct KeyIndex {
    map: HashMap<String, usize>,
}

/// The mapping that a key index holds.
pub uninterp spec fn slots(m: KeyIndex) -> Map<Seq<char>, usize>;

pub open spec fn no_slots() -> Map<Seq<char>, usize> {
    Map::empty()
}

/// `HashMap::new`: a map without entries.
#[verifier::external_body]
fn index_new() -> (m: KeyIndex)
    ensures
        slots(m) == no_slots(),
{
    KeyIndex { map: HashMap::new() }
}

/// `HashMap::insert`: afterwards the key maps to the given slot, and every
/// other key maps to what it mapped to before.
#[verifier::external_body]
fn index_insert(m: &mut KeyIndex, k: String, v: usize)
    ensures
        slots(*final(m)) == slots(*old(m)).insert(k@, v),
{
    m.map.insert(k, v);
}

/// `HashMap::get`: the slot of a key that the map holds, `None` for any other.
#[verifier::external_body]
fn index_get(m: &KeyIndex, k: &str) -> (r: Option<usize>)
    ensures
        r == (if slots(*m).contains_key(k@) {
            Some(slots(*m)[k@])
        } else {
            None
        }),
{
    m.map.get(k).copied()
}

/// `HashMap::clone`: a map with the same entries.
#[verifier::external_body]
fn index_clone(m: &KeyIndex) -> (r: KeyIndex)
    ensures
        slots(r) == slots(*m),
{
    KeyIndex { map: m.map.clone() }
}

/// The value under key `k` in a sequence of entries: that of the last entry
/// with this key, if there is one.
pub open spec fn lookup(e: Seq<(Seq<char>, Value)>, k: Seq<char>) -> Option<Value>
    decreases e.len(),
{
    if e.len() == 0 {
        None
    } else if e.last().0 == k {
        Some(e.last().1)
    } else {
        lookup(e.drop_last(), k)
    }
}

/// The place of key `k` in a sequence of entries: that of the last entry
/// with this key, if there is one.
pub open spec fn place(e: Seq<(Seq<char>, Value)>, k: Seq<char>) -> Option<int>
    decreases e.len(),
{
    if e.len() == 0 {
        None
    } else if e.last().0 == k {
        Some(e.len() - 1)
    } else {
        place(e.drop_last(), k)
    }
}

/// The entries after key `k` was set to `v`: the entry of `k` is replaced
/// where it stands, or a new entry comes last.
pub open spec fn put(e: Seq<(Seq<char>, Value)>, k: Seq<char>, v: Value) -> Seq<(Seq<char>, Value)> {
    match place(e, k) {
        Some(i) => e.update(i, (k, v)),
        None => e.push((k, v)),
    }
}

/// The entries that keys and values, taken pairwise, make up.
pub open spec fn zip(keys: Seq<String>, vals: Seq<MalVal>) -> Seq<(Seq<char>, Value)>
    decreases vals,
{
    if vals.len() == 0 || keys.len() == 0 {
        Seq::empty()
    } else {
        zip(keys.drop_last(), vals.drop_last()).push((keys.last()@, vals.last()@))
    }
}

pub proof fn lemma_zip(keys: Seq<String>, vals: Seq<MalVal>)
    requires
        keys.len() == vals.len(),
    ensures
        zip(keys, vals).len() == keys.len(),
        forall|i: int|
            0 <= i < keys.len() ==> (#[trigger] zip(keys, vals)[i]) == (keys[i]@, vals[i]@),
    decreases keys.len(),
{
    if keys.len() > 0 {
        lemma_zip(keys.drop_last(), vals.drop_last());
        assert(zip(keys, vals) == zip(keys.drop_last(), vals.drop_last()).push(
            (keys.last()@, vals.last()@),
        ));
    } else {
        assert(zip(keys, vals) == Seq::<(Seq<char>, Value)>::empty());
    }
}

pub proof fn lemma_place(e: Seq<(Seq<char>, Value)>, k: Seq<char>)
    ensures
        match place(e, k) {
            Some(i) => 0 <= i < e.len() && e[i].0 == k && lookup(e, k) == Some(e[i].1) && (forall|
                j: int,
            |
                i < j < e.len() ==> (#[trigger] e[j]).0 != k),
            None => lookup(e, k) is None && (forall|j: int|
                0 <= j < e.len() ==> (#[trigger] e[j]).0 != k),
        },
    decreases e.len(),
{
    if e.len() > 0 && e.last().0 != k {
        lemma_place(e.drop_last(), k);
        match place(e.drop_last(), k) {
            Some(i) => {
                assert(e.drop_last()[i] == e[i]);
                assert forall|j: int| i < j < e.len() implies (#[trigger] e[j]).0 != k by {
                    if j < e.len() - 1 {
                        assert(e.drop_last()[j] == e[j]);
                    }
                }
            },
            None => {
                assert forall|j: int| 0 <= j < e.len() implies (#[trigger] e[j]).0 != k by {
                    if j < e.len() - 1 {
                        assert(e.drop_last()[j] == e[j]);
                    }
                }
            },
        }
    }
}

/// Whether no two entries have the same key.
pub open spec fn distinct_keys(e: Seq<(Seq<char>, Value)>) -> bool {
    forall|i: int, j: int| 0 <= i < j < e.len() ==> (#[trigger] e[i]).0 != (#[trigger] e[j]).0
}

/// The key of an entry that no later entry repeats maps to the value of
/// this entry.
pub proof fn lemma_lookup_at(e: Seq<(Seq<char>, Value)>, i: int)
    requires
        0 <= i < e.len(),
        forall|j: int| i < j < e.len() ==> (#[trigger] e[j]).0 != e[i].0,
    ensures
        lookup(e, e[i].0) == Some(e[i].1),
    decreases e.len(),
{
    if i < e.len() - 1 {
        assert(e.last().0 != e[i].0);
        assert forall|j: int| i < j < e.drop_last().len() implies (#[trigger] e.drop_last()[j]).0
            != e.drop_last()[i].0 by {
            assert(e.drop_last()[j] == e[j]);
        }
        lemma_lookup_at(e.drop_last(), i);
    }
}

/// Looking a key up sees the key's own entry only: entries that agree
/// wherever the key stands give the same value.
pub proof fn lemma_lookup_same(a: Seq<(Seq<char>, Value)>, b: Seq<(Seq<char>, Value)>, k: Seq<char>)
    requires
        a.len() == b.len(),
        forall|j: int| 0 <= j < a.len() ==> (#[trigger] a[j]) == b[j] || (a[j].0 != k && b[j].0 != k),
    ensures
        lookup(a, k) == lookup(b, k),
    decreases a.len(),
{
    if a.len() > 0 {
        assert(a.last() == a[a.len() - 1]);
        assert(b.last() == b[a.len() - 1]);
        assert forall|j: int| 0 <= j < a.drop_last().len() implies (#[trigger] a.drop_last()[j])
            == b.drop_last()[j] || (a.drop_last()[j].0 != k && b.drop_last()[j].0 != k) by {
            assert(a.drop_last()[j] == a[j]);
            assert(b.drop_last()[j] == b[j]);
        }
        lemma_lookup_same(a.drop_last(), b.drop_last(), k);
    }
}

/// Insertion overwrites: after a key was set, the keys are still distinct,
/// the key maps to the new value, every other key maps to what it mapped to
/// before, and the entries are one more only where the key is new.
pub proof fn lemma_put(e: Seq<(Seq<char>, Value)>, k: Seq<char>, v: Value)
    requires
        distinct_keys(e),
    ensures
        distinct_keys(put(e, k, v)),
        lookup(put(e, k, v), k) == Some(v),
        forall|other: Seq<char>| other != k ==> lookup(put(e, k, v), other) == lookup(e, other),
        put(e, k, v).len() == (if lookup(e, k) is Some {
            e.len()
        } else {
            e.len() + 1
        }),
{
    lemma_place(e, k);
    let after = put(e, k, v);
    match place(e, k) {
        Some(i) => {
            assert(after == e.update(i, (k, v)));
            assert forall|a: int, b: int| 0 <= a < b < after.len() implies (#[trigger] after[a]).0
                != (#[trigger] after[b]).0 by {
                assert(e[a].0 != e[b].0);
            }
            assert forall|j: int| i < j < after.len() implies (#[trigger] after[j]).0
                != after[i].0 by {
                assert(after[j] == e[j]);
            }
            lemma_lookup_at(after, i);
            assert forall|other: Seq<char>| other != k implies lookup(after, other) == lookup(
                e,
                other,
            ) by {
                lemma_lookup_same(after, e, other);
            }
        },
        None => {
            assert(after == e.push((k, v)));
            assert(after.drop_last() =~= e);
            assert forall|a: int, b: int| 0 <= a < b < after.len() implies (#[trigger] after[a]).0
                != (#[trigger] after[b]).0 by {
                if b < e.len() {
                    assert(e[a].0 != e[b].0);
                } else {
                    assert(after[a] == e[a]);
                }
            }
        },
    }
}

/// A string-keyed table of values that remembers the order in which its keys
/// first came in. The keys are found through a hash map from a key to the
/// slot of its entry; the values stand in a vector beside it. So a value in
/// a table is a part of the table: printing, comparing and evaluating a map
/// go into its values by structure, and the order of the entries is the
/// table's own, not that of the hashes.
#[derive(Debug)]
pub struct Table {
    keys: Vec<String>,
    vals: Vec<MalVal>,
    index: KeyIndex,
}

impl View for Table {
    type V = Seq<(Seq<char>, Value)>;

    closed spec fn view(&self) -> Seq<(Seq<char>, Value)>
        decreases self,
    {
        zip(self.keys@, self.vals@)
    }
}

impl Table {
    #[verifier::type_invariant]
    closed spec fn wf(&self) -> bool {
        &&& self.keys.len() == self.vals.len()
        &&& forall|i: int|
            0 <= i < self.keys.len() ==> slots(self.index).contains_key(#[trigger] self.keys[i]@)
                && slots(self.index)[self.keys[i]@] == i
        &&& forall|k: Seq<char>| #[trigger]
            slots(self.index).contains_key(k) ==> slots(self.index)[k] < self.keys.len()
                && self.keys[slots(self.index)[k] as int]@ == k
    }

    proof fn lemma_distinct(self)
        requires
            self.wf(),
        ensures
            distinct_keys(self@),
    {
        lemma_zip(self.keys@, self.vals@);
        assert forall|i: int, j: int| 0 <= i < j < self@.len() implies (#[trigger] self@[i]).0 != (
        #[trigger] self@[j]).0 by {
            assert(slots(self.index)[self.keys[i]@] == i);
            assert(slots(self.index)[self.keys[j]@] == j);
        }
    }

    /// A table without entries.
    pub fn new() -> (t: Table)
        ensures
            t@ == Seq::<(Seq<char>, Value)>::empty(),
    {
        Table { keys: Vec::new(), vals: Vec::new(), index: index_new() }
    }

    /// The number of entries; no two of them have the same key.
    pub fn len(&self) -> (n: usize)
        ensures
            n == self@.len(),
            distinct_keys(self@),
    {
        proof {
            use_type_invariant(self);
            lemma_zip(self.keys@, self.vals@);
            self.lemma_distinct();
        }
        self.keys.len()
    }

    /// The key of the entry at place `i`.
    pub fn key_at(&self, i: usize) -> (k: &String)
        requires
            i < self@.len(),
        ensures
            k@ == self@[i as int].0,
    {
        proof {
            use_type_invariant(self);
            lemma_zip(self.keys@, self.vals@);
        }
        &self.keys[i]
    }

    /// The value of the entry at place `i`.
    pub fn val_at(&self, i: usize) -> (v: &MalVal)
        requires
            i < self@.len(),
        ensures
            v@ == self@[i as int].1,
    {
        proof {
            use_type_invariant(self);
            lemma_zip(self.keys@, self.vals@);
        }
        &self.vals[i]
    }

    /// The values of the entries, in order.
    pub fn values(&self) -> (r: &Vec<MalVal>)
        ensures
            r.len() == self@.len(),
            forall|j: int| 0 <= j < r.len() ==> (#[trigger] r[j])@ == self@[j].1,
            decreases_to!(self => r),
    {
        proof {
            use_type_invariant(self);
            lemma_zip(self.keys@, self.vals@);
        }
        &self.vals
    }

    /// The place of the entry with key `k`.
    pub fn find(&self, k: &str) -> (r: Option<usize>)
        ensures
            match r {
                Some(i) => place(self@, k@) == Some(i as int),
                None => place(self@, k@) is None,
            },
    {
        let r = index_get(&self.index, k);
        proof {
            use_type_invariant(self);
            lemma_zip(self.keys@, self.vals@);
            lemma_place(self@, k@);
            match place(self@, k@) {
                Some(i) => {
                    assert(self@[i] == (self.keys@[i]@, self.vals@[i]@));
                },
                None => {
                    if slots(self.index).contains_key(k@) {
                        let j = slots(self.index)[k@] as int;
                        assert(self@[j] == (self.keys@[j]@, self.vals@[j]@));
                    }
                },
            }
        }
        r
    }

    /// Whether the table holds key `k`.
    pub fn contains_key(&self, k: &str) -> (r: bool)
        ensures
            r == lookup(self@, k@) is Some,
    {
        proof {
            lemma_place(self@, k@);
        }
        self.find(k).is_some()
    }

    /// The value under key `k`.
    pub fn get(&self, k: &str) -> (r: Option<MalVal>)
        ensures
            match r {
                Some(v) => lookup(self@, k@) == Some(v@),
                None => lookup(self@, k@) is None,
            },
    {
        proof {
            lemma_place(self@, k@);
        }
        match self.find(k) {
            Some(i) => Some(self.val_at(i).clone()),
            None => None,
        }
    }

    /// The table with key `k` set to `v`: in place where the table holds `k`,
    /// as a new last entry where it does not.
    pub fn with(self, k: String, v: MalVal) -> (t: Table)
        ensures
            t@ == put(self@, k@, v@),
    {
        proof {
            use_type_invariant(&self);
            lemma_zip(self.keys@, self.vals@);
            lemma_place(self@, k@);
        }
        let ghost before = self@;
        let ghost old_slots = slots(self.index);
        let Table { keys, vals, index } = self;
        let mut keys = keys;
        let mut vals = vals;
        let mut index = index;
        match index_get(&index, k.as_str()) {
            Some(i) => {
                proof {
                    assert(before[i as int] == (keys@[i as int]@, vals@[i as int]@));
                }
                vals.set(i, v);
                proof {
                    lemma_zip(keys@, vals@);
                }
                let t = Table { keys, vals, index };
                assert(t@ =~= put(before, k@, v@));
                t
            },
            None => {
                proof {
                    assert forall|j: int| 0 <= j < keys.len() implies (#[trigger] before[j]).0
                        != k@ by {
                        assert(old_slots.contains_key(keys[j]@));
                    }
                }
                let n = keys.len();
                index_insert(&mut index, k.clone(), n);
                keys.push(k);
                vals.push(v);
                proof {
                    lemma_zip(keys@, vals@);
                }
                let t = Table { keys, vals, index };
                assert(t@ =~= put(before, k@, v@));
                t
            },
        }
    }

    /// Sets key `k` to `v`: in place where the table holds `k`, as a new last
    /// entry where it does not.
    pub fn insert(&mut self, k: String, v: MalVal)
        ensures
            final(self)@ == put(old(self)@, k@, v@),
    {
        let mut t = Table::new();
        std::mem::swap(self, &mut t);
        *self = t.with(k, v);
    }
}

impl Clone for Table {
    fn clone(&self) -> (r: Table)
        ensures
            r@ == self@,
    {
        proof {
            use_type_invariant(self);
        }
        let mut keys: Vec<String> = Vec::new();
        let mut vals: Vec<MalVal> = Vec::new();
        let mut i: usize = 0;
        while i < self.keys.len()
            invariant
                i <= self.keys.len(),
                self.keys.len() == self.vals.len(),
                keys@ == self.keys@.subrange(0, i as int),
                vals@ == self.vals@.subrange(0, i as int),
            decreases self.keys.len() - i,
        {
            keys.push(self.keys[i].clone());
            vals.push(self.vals[i].clone());
            i += 1;
            assert(self.keys@.subrange(0, i as int) == self.keys@.subrange(0, i - 1).push(
                self.keys@[i - 1],
            ));
            assert(self.vals@.subrange(0, i as int) == self.vals@.subrange(0, i - 1).push(
                self.vals@[i - 1],
            ));
        }
        assert(keys@ == self.keys@);
        assert(vals@ == self.vals@);
        Table { keys, vals, index: index_clone(&self.index) }
    }
}

} // verus!
