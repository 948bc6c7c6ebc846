use vstd::prelude::*;
use vstd::string::StringExecFns;
use crate::interp::Interp;
use crate::table::Table;
use crate::text::int_text;
use crate::text::int_to_string;
use crate::text::to_chars;
use crate::types::lemma_views;
use crate::types::views;
use crate::types::MalVal;
use crate::types::Value;
use crate::types::KEYWORD_MARK;

verus! {

/// How one character of a string is written in machine-readable form.
pub open spec fn escape_char(c: char) -> Seq<char> {
    if c == '"' {
        seq!['\\', '"']
    } else if c == '\n' {
        seq!['\\', 'n']
    } else if c == '\\' {
        seq!['\\', '\\']
    } else {
        seq![c]
    }
}

/// A string's text with its quotes, newlines and backslashes escaped.
pub open spec fn escape_text(s: Seq<char>) -> Seq<char>
    decreases s.len(),
{
    if s.len() == 0 {
        Seq::empty()
    } else {
        escape_text(s.drop_last()) + escape_char(s.last())
    }
}

/// Whether a string stands for a keyword.
pub open spec fn is_keyword(s: Seq<char>) -> bool {
    s.len() > 0 && s[0] == KEYWORD_MARK
}

/// The text of a string value.
pub open spec fn str_text(s: Seq<char>, readably: bool) -> Seq<char> {
    if is_keyword(s) {
        seq![':'] + s.subrange(1, s.len() as int)
    } else if readably {
        seq!['"'] + escape_text(s) + seq!['"']
    } else {
        s
    }
}

/// The text of a value. `readably` asks for the machine-readable form, in
/// which strings stand in quotes with their special characters escaped.
/// `atoms` is the store that the value's reference cells point into, and
/// `fuel` says through how many cells the text follows: a cell beyond that,
/// or one that the store does not hold, is written without its contents.
pub open spec fn pr_text(v: Value, readably: bool, atoms: Seq<Value>, fuel: nat) -> Seq<char>
    decreases fuel, v,
{
    match v {
        Value::Nil => "nil"@,
        Value::Bool(b) => if b {
            "true"@
        } else {
            "false"@
        },
        Value::Int(i) => int_text(i as int),
        Value::Str(s) => str_text(s, readably),
        Value::Sym(s) => s,
        Value::List(l) => seq!['('] + seq_text(l, readably, seq![' '], atoms, fuel) + seq![')'],
        Value::Vector(l) => seq!['['] + seq_text(l, readably, seq![' '], atoms, fuel) + seq![']'],
        Value::Hash(e) => seq!['{'] + hash_text(e, readably, atoms, fuel) + seq!['}'],
        Value::Func(b) => "#<fn "@ + b.name() + seq!['>'],
        Value::MalFunc { ast, params, .. } => "(lambda "@ + pr_text(*params, true, atoms, fuel)
            + seq![' '] + pr_text(*ast, true, atoms, fuel) + seq![')'],
        Value::Atom(a) => if fuel > 0 && a < atoms.len() {
            "(atom "@ + pr_text(atoms[a as int], true, atoms, (fuel - 1) as nat) + seq![')']
        } else {
            "(atom)"@
        },
    }
}

/// The texts of the items, with `sep` between each two.
pub open spec fn seq_text(
    items: Seq<Value>,
    readably: bool,
    sep: Seq<char>,
    atoms: Seq<Value>,
    fuel: nat,
) -> Seq<char>
    decreases fuel, items,
{
    if items.len() == 0 {
        Seq::empty()
    } else if items.len() == 1 {
        pr_text(items.last(), readably, atoms, fuel)
    } else {
        seq_text(items.drop_last(), readably, sep, atoms, fuel) + sep + pr_text(
            items.last(),
            readably,
            atoms,
            fuel,
        )
    }
}

/// The texts of the entries of a map: each key as a string, a space, and
/// its value, with a space between each two entries.
pub open spec fn hash_text(
    e: Seq<(Seq<char>, Value)>,
    readably: bool,
    atoms: Seq<Value>,
    fuel: nat,
) -> Seq<char>
    decreases fuel, e,
{
    if e.len() == 0 {
        Seq::empty()
    } else {
        let head = if e.len() == 1 {
            Seq::empty()
        } else {
            hash_text(e.drop_last(), readably, atoms, fuel) + seq![' ']
        };
        head + str_text(e.last().0, readably) + seq![' '] + pr_text(
            e.last().1,
            readably,
            atoms,
            fuel,
        )
    }
}

/// Escapes quotes, newlines and backslashes.
pub fn escape_str(s: &str) -> (r: String)
    ensures
        r@ == escape_text(s@),
{
    let cs = to_chars(s);
    let mut out = String::new();
    let mut i: usize = 0;
    while i < cs.len()
        invariant
            i <= cs.len(),
            out@ == escape_text(cs@.subrange(0, i as int)),
        decreases cs.len() - i,
    {
        let c = cs[i];
        let ghost before = out@;
        if c == '"' {
            out.push('\\');
            out.push('"');
        } else if c == '\n' {
            out.push('\\');
            out.push('n');
        } else if c == '\\' {
            out.push('\\');
            out.push('\\');
        } else {
            out.push(c);
        }
        i += 1;
        proof {
            let p = cs@.subrange(0, i as int);
            assert(p.drop_last() == cs@.subrange(0, i - 1));
            assert(p.last() == c);
            assert(out@ =~= before + escape_char(c));
        }
    }
    assert(cs@.subrange(0, cs.len() as int) == cs@);
    out
}

/// Appends the text of a string value.
fn print_str(s: &String, out: &mut String, readably: bool)
    ensures
        final(out)@ == old(out)@ + str_text(s@, readably),
{
    let cs = to_chars(s.as_str());
    if cs.len() > 0 && cs[0] == KEYWORD_MARK {
        out.push(':');
        let mut i: usize = 1;
        while i < cs.len()
            invariant
                1 <= i <= cs.len(),
                out@ == old(out)@ + seq![':'] + cs@.subrange(1, i as int),
            decreases cs.len() - i,
        {
            out.push(cs[i]);
            i += 1;
            assert(cs@.subrange(1, i as int) == cs@.subrange(1, i - 1).push(cs@[i - 1]));
        }
        assert(out@ =~= old(out)@ + str_text(s@, readably));
    } else if readably {
        out.push('"');
        let e = escape_str(s.as_str());
        out.append(e.as_str());
        out.push('"');
        assert(out@ =~= old(out)@ + str_text(s@, readably));
    } else {
        out.append(s.as_str());
    }
}

/// Appends the text of a value.
fn print_into(v: &MalVal, out: &mut String, readably: bool, atoms: &Vec<MalVal>, fuel: usize)
    ensures
        final(out)@ == old(out)@ + pr_text(v@, readably, views(atoms@), fuel as nat),
    decreases fuel, v,
{
    match v {
        MalVal::Nil => {
            out.append("nil");
        },
        MalVal::Bool(b) => {
            if *b {
                out.append("true");
            } else {
                out.append("false");
            }
        },
        MalVal::Int(i) => {
            let t = int_to_string(*i);
            out.append(t.as_str());
        },
        MalVal::Str(s) => {
            print_str(s, out, readably);
        },
        MalVal::Sym(s) => {
            out.append(s.as_str());
        },
        MalVal::List(l) => {
            out.push('(');
            print_items(l, out, readably, " ", atoms, fuel);
            out.push(')');
            proof {
                reveal_strlit(" ");
                assert(" "@ =~= seq![' ']);
                assert(out@ =~= old(out)@ + pr_text(v@, readably, views(atoms@), fuel as nat));
            }
        },
        MalVal::Vector(l) => {
            out.push('[');
            print_items(l, out, readably, " ", atoms, fuel);
            out.push(']');
            proof {
                reveal_strlit(" ");
                assert(" "@ =~= seq![' ']);
                assert(out@ =~= old(out)@ + pr_text(v@, readably, views(atoms@), fuel as nat));
            }
        },
        MalVal::Hash(t) => {
            out.push('{');
            print_entries(t, out, readably, atoms, fuel);
            out.push('}');
            assert(out@ =~= old(out)@ + pr_text(v@, readably, views(atoms@), fuel as nat));
        },
        MalVal::Func(b) => {
            out.append("#<fn ");
            out.append(b.name_of());
            out.push('>');
            assert(out@ =~= old(out)@ + pr_text(v@, readably, views(atoms@), fuel as nat));
        },
        MalVal::MalFunc { ast, params, .. } => {
            out.append("(lambda ");
            print_into(params, out, true, atoms, fuel);
            out.push(' ');
            print_into(ast, out, true, atoms, fuel);
            out.push(')');
            assert(out@ =~= old(out)@ + pr_text(v@, readably, views(atoms@), fuel as nat));
        },
        MalVal::Atom(a) => {
            if fuel > 0 && *a < atoms.len() {
                out.append("(atom ");
                print_into(&atoms[*a], out, true, atoms, fuel - 1);
                out.push(')');
                proof {
                    lemma_views(atoms@);
                    assert(out@ =~= old(out)@ + pr_text(
                        v@,
                        readably,
                        views(atoms@),
                        fuel as nat,
                    ));
                }
            } else {
                proof {
                    lemma_views(atoms@);
                }
                out.append("(atom)");
            }
        },
    }
}

/// Appends the texts of the items, with `sep` between each two.
fn print_items(
    items: &Vec<MalVal>,
    out: &mut String,
    readably: bool,
    sep: &str,
    atoms: &Vec<MalVal>,
    fuel: usize,
)
    ensures
        final(out)@ == old(out)@ + seq_text(
            views(items@),
            readably,
            sep@,
            views(atoms@),
            fuel as nat,
        ),
    decreases fuel, items,
{
    let mut i: usize = 0;
    assert(views(items@.subrange(0, 0)) =~= Seq::<Value>::empty());
    assert(out@ =~= old(out)@ + Seq::<char>::empty());
    while i < items.len()
        invariant
            i <= items.len(),
            out@ == old(out)@ + seq_text(
                views(items@.subrange(0, i as int)),
                readably,
                sep@,
                views(atoms@),
                fuel as nat,
            ),
        decreases items.len() - i,
    {
        let ghost before = out@;
        if i > 0 {
            out.append(sep);
        }
        print_into(&items[i], out, readably, atoms, fuel);
        i += 1;
        proof {
            let p = items@.subrange(0, i as int);
            let q = items@.subrange(0, i - 1);
            assert(p.drop_last() == q);
            assert(p.last() == items@[i - 1]);
            lemma_views(p);
            lemma_views(q);
            assert(views(p).drop_last() =~= views(q));
            assert(views(p).last() == items@[i - 1]@);
            assert(out@ =~= old(out)@ + seq_text(
                views(p),
                readably,
                sep@,
                views(atoms@),
                fuel as nat,
            ));
        }
    }
    assert(items@.subrange(0, items.len() as int) == items@);
}

/// Appends the texts of the entries of a table.
fn print_entries(t: &Table, out: &mut String, readably: bool, atoms: &Vec<MalVal>, fuel: usize)
    ensures
        final(out)@ == old(out)@ + hash_text(t@, readably, views(atoms@), fuel as nat),
    decreases fuel, t,
{
    let vals = t.values();
    let mut i: usize = 0;
    assert(out@ =~= old(out)@ + Seq::<char>::empty());
    assert(t@.subrange(0, 0) =~= Seq::<(Seq<char>, Value)>::empty());
    let n = t.len();
    while i < n
        invariant
            i <= n,
            n == t@.len(),
            vals.len() == t@.len(),
            forall|j: int| 0 <= j < vals.len() ==> (#[trigger] vals[j])@ == t@[j].1,
            decreases_to!(t => vals),
            out@ == old(out)@ + hash_text(
                t@.subrange(0, i as int),
                readably,
                views(atoms@),
                fuel as nat,
            ),
        decreases n - i,
    {
        let ghost before = out@;
        if i > 0 {
            out.push(' ');
        }
        print_str(t.key_at(i), out, readably);
        out.push(' ');
        print_into(&vals[i], out, readably, atoms, fuel);
        i += 1;
        proof {
            let p = t@.subrange(0, i as int);
            assert(p.drop_last() == t@.subrange(0, i - 1));
            assert(p.last() == t@[i - 1]);
            assert(out@ =~= old(out)@ + hash_text(p, readably, views(atoms@), fuel as nat));
        }
    }
    assert(t@.subrange(0, t@.len() as int) == t@);
}

impl MalVal {
    /// The text of the value; `print_readably` asks for the machine-readable
    /// form. Reference cells are followed through the interpreter's store,
    /// through as many cells as the store holds.
    pub fn pr_str(&self, print_readably: bool, ctx: &Interp) -> (r: String)
        ensures
            r@ == pr_text(self@, print_readably, ctx@.atoms, ctx@.atoms.len()),
    {
        let mut out = String::new();
        proof {
            lemma_views(ctx.atoms@);
        }
        print_into(self, &mut out, print_readably, &ctx.atoms, ctx.atoms.len());
        out
    }
}

/// The texts of the items between `start` and `end`, with `join` between each
/// two.
pub fn pr_seq(
    seq: &Vec<MalVal>,
    print_readably: bool,
    start: &str,
    end: &str,
    join: &str,
    ctx: &Interp,
) -> (r: String)
    ensures
        r@ == start@ + seq_text(
            views(seq@),
            print_readably,
            join@,
            ctx@.atoms,
            ctx@.atoms.len(),
        ) + end@,
{
    let mut out = String::from_str(start);
    proof {
        lemma_views(ctx.atoms@);
    }
    print_items(seq, &mut out, print_readably, join, &ctx.atoms, ctx.atoms.len());
    out.append(end);
    out
}

} // verus!
