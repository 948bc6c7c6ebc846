use vstd::prelude::*;
use crate::printer::escape_char;
use crate::printer::escape_text;
use crate::printer::hash_text;
use crate::printer::is_keyword;
use crate::printer::pr_text;
use crate::printer::seq_text;
use crate::printer::str_text;
use crate::reader::atom_value;
use crate::reader::code_tokens;
use crate::reader::is_blank;
use crate::reader::is_comment;
use crate::reader::read_form_at;
use crate::reader::read_items_at;
use crate::reader::read_text;
use crate::reader::is_special;
use crate::reader::lex_open;
use crate::reader::lex_run;
use crate::reader::lex_step;
use crate::reader::tokens_of;
use crate::reader::unescape_text;
use crate::reader::Lex;
use crate::text::all_digits;
use crate::text::dec_text;
use crate::text::dec_value;
use crate::text::digit_char;
use crate::text::digit_value;
use crate::text::int_text;
use crate::text::is_digit;
use crate::table::distinct_keys;
use crate::table::lemma_place;
use crate::table::place;
use crate::table::put;
use crate::types::assoc_entries;
use crate::types::assoc_value;
use crate::types::Fault;
use crate::types::Value;
use crate::types::KEYWORD_MARK;

verus! {

/// The characters that open and close sequences.
pub open spec fn is_bracket(c: char) -> bool {
    c == '(' || c == ')' || c == '[' || c == ']' || c == '{' || c == '}'
}

/// The characters that a generic atom in progress takes: all but the
/// special characters, the blanks and the sign of a comment.
pub open spec fn is_plain(c: char) -> bool {
    !is_special(c) && !is_blank(c) && c != ';'
}

/// Whether a text is made of the characters of generic atoms only.
pub open spec fn plain_text(s: Seq<char>) -> bool {
    forall|i: int| 0 <= i < s.len() ==> is_plain(#[trigger] s[i])
}

/// Whether a text ends the token before it: it is empty, or starts with a
/// blank or a bracket.
pub open spec fn edge(s: Seq<char>) -> bool {
    s.len() == 0 || is_blank(s[0]) || is_bracket(s[0])
}

/// After a bracket, the tokenizer goes on as from its start state, with the
/// bracket as a token of its own.
pub proof fn lemma_special_as_start(c: char, s: Seq<char>)
    requires
        is_bracket(c),
    ensures
        lex_run(Lex::Special(c), s) == seq![seq![c]] + lex_run(Lex::Start, s),
{
    if s.len() == 0 {
        assert(lex_run(Lex::Special(c), s) =~= seq![seq![c]] + lex_run(Lex::Start, s));
    } else {
        let x = s[0];
        let xs = s.drop_first();
        assert(lex_run(Lex::Special(c), s) == seq![seq![c]] + lex_run(lex_open(x), xs));
        assert(lex_run(Lex::Start, s) == Seq::<Seq<char>>::empty() + lex_run(lex_open(x), xs));
        assert(lex_run(Lex::Special(c), s) =~= seq![seq![c]] + lex_run(Lex::Start, s));
    }
}

/// A generic atom in progress takes the characters of generic atoms.
pub proof fn lemma_other_run(acc: Seq<char>, t: Seq<char>, rest: Seq<char>)
    requires
        plain_text(t),
    ensures
        lex_run(Lex::Other(acc), t + rest) == lex_run(Lex::Other(acc + t), rest),
    decreases t.len(),
{
    if t.len() == 0 {
        assert(t + rest =~= rest);
        assert(acc + t =~= acc);
    } else {
        let s = t + rest;
        assert(s[0] == t[0]);
        assert(is_plain(t[0]));
        assert(s.drop_first() =~= t.drop_first() + rest);
        lemma_other_run(acc.push(t[0]), t.drop_first(), rest);
        assert(acc.push(t[0]) + t.drop_first() =~= acc + t);
        assert(lex_run(Lex::Other(acc), s) == lex_step(Lex::Other(acc), s[0]).1 + lex_run(
            lex_step(Lex::Other(acc), s[0]).0,
            s.drop_first(),
        ));
        assert(lex_step(Lex::Other(acc), s[0]).1 + lex_run(
            Lex::Other(acc.push(t[0])),
            s.drop_first(),
        ) =~= lex_run(Lex::Other(acc.push(t[0])), s.drop_first()));
    }
}

/// A generic atom in progress ends where an edge follows.
pub proof fn lemma_other_end(acc: Seq<char>, rest: Seq<char>)
    requires
        edge(rest),
    ensures
        lex_run(Lex::Other(acc), rest) == seq![acc] + lex_run(Lex::Start, rest),
{
    if rest.len() == 0 {
        assert(lex_run(Lex::Other(acc), rest) =~= seq![acc] + lex_run(Lex::Start, rest));
    } else {
        let x = rest[0];
        assert(is_blank(x) || is_special(x));
        assert(lex_run(Lex::Other(acc), rest) == seq![acc] + lex_run(
            lex_open(x),
            rest.drop_first(),
        ));
        assert(lex_run(Lex::Start, rest) == Seq::<Seq<char>>::empty() + lex_run(
            lex_open(x),
            rest.drop_first(),
        ));
        assert(lex_run(Lex::Other(acc), rest) =~= seq![acc] + lex_run(Lex::Start, rest));
    }
}

/// A text of plain characters that starts with no quote, before an edge, is
/// one token.
pub proof fn lemma_lex_atom(t: Seq<char>, rest: Seq<char>)
    requires
        t.len() > 0,
        t[0] != '"',
        plain_text(t),
        edge(rest),
    ensures
        lex_run(Lex::Start, t + rest) == seq![t] + lex_run(Lex::Start, rest),
{
    let s = t + rest;
    assert(s[0] == t[0]);
    assert(is_plain(t[0]));
    assert(lex_open(t[0]) == Lex::Other(seq![t[0]]));
    assert(s.drop_first() =~= t.drop_first() + rest);
    assert(plain_text(t.drop_first())) by {
        assert forall|i: int| 0 <= i < t.drop_first().len() implies is_plain(
            #[trigger] t.drop_first()[i],
        ) by {
            assert(t.drop_first()[i] == t[i + 1]);
        }
    }
    lemma_other_run(seq![t[0]], t.drop_first(), rest);
    assert(seq![t[0]] + t.drop_first() =~= t);
    lemma_other_end(t, rest);
    assert(lex_run(Lex::Start, s) == Seq::<Seq<char>>::empty() + lex_run(
        Lex::Other(seq![t[0]]),
        s.drop_first(),
    ));
    assert(lex_run(Lex::Start, s) =~= seq![t] + lex_run(Lex::Start, rest));
}

/// A string literal in progress takes the escaped form of a character as
/// it is, and is in progress after it as before.
pub proof fn lemma_text_char(acc: Seq<char>, c: char, rest: Seq<char>)
    ensures
        lex_run(Lex::Text(acc, false), escape_char(c) + rest) == lex_run(
            Lex::Text(acc + escape_char(c), false),
            rest,
        ),
{
    let e = escape_char(c);
    let s = e + rest;
    assert(s[0] == e[0]);
    if e.len() == 2 {
        let mid = Lex::Text(acc.push(e[0]), true);
        let t = s.drop_first();
        assert(t =~= seq![e[1]] + rest);
        assert(t[0] == e[1]);
        assert(t.drop_first() =~= rest);
        assert(lex_run(Lex::Text(acc, false), s) == lex_step(Lex::Text(acc, false), s[0]).1
            + lex_run(lex_step(Lex::Text(acc, false), s[0]).0, t));
        assert(lex_run(mid, t) == lex_step(mid, t[0]).1 + lex_run(lex_step(mid, t[0]).0, rest));
        assert(acc.push(e[0]).push(e[1]) =~= acc + e);
        assert(lex_run(Lex::Text(acc, false), s) =~= lex_run(Lex::Text(acc + e, false), rest));
    } else {
        assert(s.drop_first() =~= rest);
        assert(acc.push(c) =~= acc + e);
        assert(lex_run(Lex::Text(acc, false), s) == lex_step(Lex::Text(acc, false), s[0]).1
            + lex_run(lex_step(Lex::Text(acc, false), s[0]).0, rest));
        assert(lex_run(Lex::Text(acc, false), s) =~= lex_run(Lex::Text(acc + e, false), rest));
    }
}

/// A string literal in progress takes the escaped form of a text as it is.
pub proof fn lemma_text_escaped(acc: Seq<char>, t: Seq<char>, rest: Seq<char>)
    ensures
        lex_run(Lex::Text(acc, false), escape_text(t) + rest) == lex_run(
            Lex::Text(acc + escape_text(t), false),
            rest,
        ),
    decreases t.len(),
{
    if t.len() == 0 {
        assert(escape_text(t) + rest =~= rest);
        assert(acc + escape_text(t) =~= acc);
    } else {
        let h = escape_text(t.drop_last());
        let e = escape_char(t.last());
        lemma_text_escaped(acc, t.drop_last(), e + rest);
        lemma_text_char(acc + h, t.last(), rest);
        assert(escape_text(t) + rest =~= h + (e + rest));
        assert(acc + h + e =~= acc + escape_text(t));
    }
}

/// The escaped form of a text between quotes is one token, whatever follows
/// it.
pub proof fn lemma_lex_quoted(t: Seq<char>, rest: Seq<char>)
    ensures
        lex_run(Lex::Start, seq!['"'] + escape_text(t) + seq!['"'] + rest) == seq![
            seq!['"'] + escape_text(t) + seq!['"'],
        ] + lex_run(Lex::Start, rest),
{
    let body = escape_text(t);
    let s = seq!['"'] + body + seq!['"'] + rest;
    let after = seq!['"'] + rest;
    assert(s[0] == '"');
    assert(s.drop_first() =~= body + after);
    assert(lex_open('"') == Lex::Text(seq!['"'], false));
    lemma_text_escaped(seq!['"'], t, after);
    assert(after[0] == '"');
    assert(after.drop_first() =~= rest);
    let acc = seq!['"'] + body;
    assert(lex_run(Lex::Text(acc, false), after) == lex_step(Lex::Text(acc, false), '"').1
        + lex_run(lex_step(Lex::Text(acc, false), '"').0, after.drop_first()));
    assert(acc.push('"') =~= seq!['"'] + body + seq!['"']);
    assert(lex_run(Lex::Start, s) == Seq::<Seq<char>>::empty() + lex_run(
        Lex::Text(seq!['"'], false),
        s.drop_first(),
    ));
    assert(lex_run(Lex::Start, s) =~= seq![seq!['"'] + body + seq!['"']] + lex_run(
        Lex::Start,
        rest,
    ));
}

pub proof fn lemma_escape_add(a: Seq<char>, b: Seq<char>)
    ensures
        escape_text(a + b) == escape_text(a) + escape_text(b),
    decreases b.len(),
{
    if b.len() == 0 {
        assert(a + b =~= a);
        assert(escape_text(a) + escape_text(b) =~= escape_text(a));
    } else {
        assert((a + b).drop_last() =~= a + b.drop_last());
        assert((a + b).last() == b.last());
        lemma_escape_add(a, b.drop_last());
        assert(escape_text(a + b) =~= escape_text(a) + escape_text(b));
    }
}

/// Undoing the escapes of an escaped text gives the text back.
pub proof fn lemma_unescape_escape(s: Seq<char>)
    ensures
        unescape_text(escape_text(s)) == s,
    decreases s.len(),
{
    if s.len() == 0 {
        assert(escape_text(s) == Seq::<char>::empty());
    } else {
        let c = s[0];
        let tail = s.drop_first();
        let one = seq![c];
        assert(one + tail =~= s);
        lemma_escape_add(one, tail);
        assert(one.drop_last() =~= Seq::<char>::empty());
        assert(escape_text(one.drop_last()) == Seq::<char>::empty());
        assert(escape_text(one) =~= escape_char(c));
        let x = escape_text(tail);
        let e = escape_char(c) + x;
        assert(escape_text(s) == e);
        lemma_unescape_escape(tail);
        assert(e[0] == escape_char(c)[0]);
        if escape_char(c).len() == 2 {
            assert(e[1] == escape_char(c)[1]);
            assert(e.subrange(2, e.len() as int) =~= x);
            assert(unescape_text(e) =~= seq![c] + tail);
        } else {
            assert(e.drop_first() =~= x);
            assert(unescape_text(e) =~= seq![c] + tail);
        }
    }
}

/// The symbols that are read back as they are printed: made of the
/// characters that a generic atom takes, with no quote at the start, and no
/// text that stands for another kind of value.
pub open spec fn readable_sym(s: Seq<char>) -> bool {
    s.len() > 0 && plain_text(s) && s != "nil"@ && s != "true"@ && s != "false"@ && !all_digits(
        s,
    ) && s[0] != ':' && s[0] != '"'
}

/// The strings that are read back as they are printed: every string that
/// is no keyword, and a keyword whose name is made of the characters of
/// generic atoms.
pub open spec fn readable_str(s: Seq<char>) -> bool {
    is_keyword(s) ==> plain_text(s.subrange(1, s.len() as int))
}

/// The values that are read back as they are printed: `nil`, booleans,
/// integers that are not negative, strings, readable keywords and symbols,
/// and lists, vectors and maps of readable values.
pub open spec fn readable(v: Value) -> bool
    decreases v,
{
    match v {
        Value::Nil => true,
        Value::Bool(_) => true,
        Value::Int(i) => i >= 0,
        Value::Str(s) => readable_str(s),
        Value::Sym(s) => readable_sym(s),
        Value::List(l) => readable_items(l),
        Value::Vector(l) => readable_items(l),
        Value::Hash(e) => distinct_keys(e) && readable_entries(e),
        _ => false,
    }
}

/// Whether each item is readable.
pub open spec fn readable_items(l: Seq<Value>) -> bool
    decreases l,
{
    forall|i: int| 0 <= i < l.len() ==> readable(#[trigger] l[i])
}

/// Whether each entry has a readable key and a readable value.
pub open spec fn readable_entries(e: Seq<(Seq<char>, Value)>) -> bool
    decreases e,
{
    forall|i: int| 0 <= i < e.len() ==> readable_str((#[trigger] e[i]).0) && readable(e[i].1)
}

/// The machine-readable text of a value that holds no reference cell.
pub open spec fn text_of(v: Value) -> Seq<char> {
    pr_text(v, true, Seq::empty(), 0)
}

/// The machine-readable text of the items of a sequence.
pub open spec fn items_text(l: Seq<Value>) -> Seq<char> {
    seq_text(l, true, seq![' '], Seq::empty(), 0)
}

/// The machine-readable text of the entries of a map.
pub open spec fn entries_text(e: Seq<(Seq<char>, Value)>) -> Seq<char> {
    hash_text(e, true, Seq::empty(), 0)
}

/// The tokens that the text of a readable value is made of.
pub open spec fn value_tokens(v: Value) -> Seq<Seq<char>>
    decreases v,
{
    match v {
        Value::List(l) => seq![seq!['(']] + items_tokens(l) + seq![seq![')']],
        Value::Vector(l) => seq![seq!['[']] + items_tokens(l) + seq![seq![']']],
        Value::Hash(e) => seq![seq!['{']] + entries_tokens(e) + seq![seq!['}']],
        _ => seq![text_of(v)],
    }
}

/// The tokens of the items of a sequence.
pub open spec fn items_tokens(l: Seq<Value>) -> Seq<Seq<char>>
    decreases l,
{
    if l.len() == 0 {
        Seq::empty()
    } else {
        items_tokens(l.drop_last()) + value_tokens(l.last())
    }
}

/// The tokens of the entries of a map.
pub open spec fn entries_tokens(e: Seq<(Seq<char>, Value)>) -> Seq<Seq<char>>
    decreases e,
{
    if e.len() == 0 {
        Seq::empty()
    } else {
        entries_tokens(e.drop_last()) + seq![str_text(e.last().0, true)] + value_tokens(
            e.last().1,
        )
    }
}

pub proof fn lemma_digit_char(d: nat)
    requires
        d < 10,
    ensures
        is_digit(digit_char(d)),
        digit_value(digit_char(d)) == d,
{
}

/// The decimal text of a number is a run of digits that denotes the number.
pub proof fn lemma_dec_text(n: nat)
    ensures
        dec_text(n).len() > 0,
        all_digits(dec_text(n)),
        dec_value(dec_text(n)) == n,
    decreases n,
{
    if n < 10 {
        lemma_digit_char(n);
        let t = seq![digit_char(n)];
        assert(dec_text(n) == t);
        assert(t.drop_last() =~= Seq::<char>::empty());
        assert(dec_value(t.drop_last()) == 0);
        assert(dec_value(t) == dec_value(t.drop_last()) * 10 + digit_value(t.last()));
    } else {
        lemma_dec_text(n / 10);
        lemma_digit_char(n % 10);
        let h = dec_text(n / 10);
        let t = h.push(digit_char(n % 10));
        assert(dec_text(n) == t);
        assert(t.drop_last() =~= h);
        assert(dec_value(t) == dec_value(t.drop_last()) * 10 + digit_value(t.last()));
        assert forall|i: int| 0 <= i < t.len() implies is_digit(#[trigger] t[i]) by {
            if i < h.len() {
                assert(t[i] == h[i]);
            }
        }
    }
}

pub proof fn lemma_digits_plain(t: Seq<char>)
    requires
        all_digits(t),
    ensures
        plain_text(t),
{
    assert forall|i: int| 0 <= i < t.len() implies is_plain(#[trigger] t[i]) by {
        assert(is_digit(t[i]));
    }
}

/// The three literals, as sequences of characters.
pub proof fn lemma_literals()
    ensures
        "nil"@ == seq!['n', 'i', 'l'],
        "true"@ == seq!['t', 'r', 'u', 'e'],
        "false"@ == seq!['f', 'a', 'l', 's', 'e'],
{
    reveal_strlit("nil");
    reveal_strlit("true");
    reveal_strlit("false");
    assert("nil"@ =~= seq!['n', 'i', 'l']);
    assert("true"@ =~= seq!['t', 'r', 'u', 'e']);
    assert("false"@ =~= seq!['f', 'a', 'l', 's', 'e']);
}

/// The text of a readable value that is no string and no sequence is made of
/// plain characters.
pub proof fn lemma_scalar_plain(v: Value)
    requires
        readable(v),
        v is Nil || v is Bool || v is Int || v is Sym,
    ensures
        text_of(v).len() > 0,
        text_of(v)[0] != '"',
        plain_text(text_of(v)),
{
    lemma_literals();
    match v {
        Value::Int(i) => {
            lemma_dec_text(i as nat);
            lemma_digits_plain(dec_text(i as nat));
        },
        _ => {},
    }
}

/// The text of a readable string is one token.
pub proof fn lemma_lex_str(s: Seq<char>, rest: Seq<char>)
    requires
        readable_str(s),
        edge(rest),
    ensures
        lex_run(Lex::Start, str_text(s, true) + rest) == seq![str_text(s, true)] + lex_run(
            Lex::Start,
            rest,
        ),
        str_text(s, true).len() > 0,
        !is_special(str_text(s, true)[0]),
        str_text(s, true)[0] != ';',
{
    if is_keyword(s) {
        let name = s.subrange(1, s.len() as int);
        let t = seq![':'] + name;
        assert(plain_text(t)) by {
            assert forall|i: int| 0 <= i < t.len() implies is_plain(#[trigger] t[i]) by {
                if i > 0 {
                    assert(t[i] == name[i - 1]);
                }
            }
        }
        lemma_lex_atom(t, rest);
    } else {
        lemma_lex_quoted(s, rest);
    }
}

/// A sequence between brackets: the opening bracket, the tokens of what
/// stands between, and the closing bracket.
pub proof fn lemma_lex_bracketed(
    open: char,
    close: char,
    inner: Seq<char>,
    inner_toks: Seq<Seq<char>>,
    rest: Seq<char>,
)
    requires
        is_bracket(open),
        is_bracket(close),
        lex_run(Lex::Start, inner + (seq![close] + rest)) == inner_toks + lex_run(
            Lex::Start,
            seq![close] + rest,
        ),
    ensures
        lex_run(Lex::Start, seq![open] + inner + seq![close] + rest) == seq![seq![open]]
            + inner_toks + seq![seq![close]] + lex_run(Lex::Start, rest),
{
    let s = seq![open] + inner + seq![close] + rest;
    let after = seq![close] + rest;
    assert(s[0] == open);
    assert(s.drop_first() =~= inner + after);
    assert(lex_open(open) == Lex::Special(open));
    assert(lex_run(Lex::Start, s) == Seq::<Seq<char>>::empty() + lex_run(
        Lex::Special(open),
        s.drop_first(),
    ));
    lemma_special_as_start(open, inner + after);
    assert(after[0] == close);
    assert(after.drop_first() =~= rest);
    assert(lex_open(close) == Lex::Special(close));
    assert(lex_run(Lex::Start, after) == Seq::<Seq<char>>::empty() + lex_run(
        Lex::Special(close),
        rest,
    ));
    lemma_special_as_start(close, rest);
    assert(lex_run(Lex::Start, s) =~= seq![seq![open]] + inner_toks + seq![seq![close]] + lex_run(
        Lex::Start,
        rest,
    ));
}

pub proof fn lemma_readable_front(l: Seq<Value>)
    requires
        readable_items(l),
        l.len() > 0,
    ensures
        readable_items(l.drop_last()),
        readable(l.last()),
        readable_items(l.drop_first()),
        readable(l[0]),
{
    assert forall|i: int| 0 <= i < l.drop_last().len() implies readable(
        #[trigger] l.drop_last()[i],
    ) by {
        assert(l.drop_last()[i] == l[i]);
    }
    assert forall|i: int| 0 <= i < l.drop_first().len() implies readable(
        #[trigger] l.drop_first()[i],
    ) by {
        assert(l.drop_first()[i] == l[i + 1]);
    }
}

pub proof fn lemma_readable_entries_front(e: Seq<(Seq<char>, Value)>)
    requires
        readable_entries(e),
        e.len() > 0,
    ensures
        readable_entries(e.drop_last()),
        readable_str(e.last().0),
        readable(e.last().1),
        readable_entries(e.drop_first()),
        readable_str(e[0].0),
        readable(e[0].1),
{
    assert forall|i: int| 0 <= i < e.drop_last().len() implies readable_str(
        (#[trigger] e.drop_last()[i]).0,
    ) && readable(e.drop_last()[i].1) by {
        assert(e.drop_last()[i] == e[i]);
    }
    assert forall|i: int| 0 <= i < e.drop_first().len() implies readable_str(
        (#[trigger] e.drop_first()[i]).0,
    ) && readable(e.drop_first()[i].1) by {
        assert(e.drop_first()[i] == e[i + 1]);
    }
}

/// A blank before a text is skipped.
pub proof fn lemma_lex_blank(rest: Seq<char>)
    ensures
        lex_run(Lex::Start, seq![' '] + rest) == lex_run(Lex::Start, rest),
{
    let s = seq![' '] + rest;
    assert(s[0] == ' ');
    assert(s.drop_first() =~= rest);
    assert(lex_run(Lex::Start, s) == Seq::<Seq<char>>::empty() + lex_run(Lex::Start, rest));
    assert(Seq::<Seq<char>>::empty() + lex_run(Lex::Start, rest) =~= lex_run(Lex::Start, rest));
}

/// The tokenizer splits the text of a readable value, before an edge, into
/// the tokens of the value.
pub proof fn lemma_lex_value(v: Value, rest: Seq<char>)
    requires
        readable(v),
        edge(rest),
    ensures
        lex_run(Lex::Start, text_of(v) + rest) == value_tokens(v) + lex_run(Lex::Start, rest),
    decreases v, 1nat,
{
    match v {
        Value::List(l) => {
            let after = seq![')'] + rest;
            assert(after[0] == ')');
            lemma_lex_items(l, after);
            lemma_lex_bracketed('(', ')', items_text(l), items_tokens(l), rest);
        },
        Value::Vector(l) => {
            let after = seq![']'] + rest;
            assert(after[0] == ']');
            lemma_lex_items(l, after);
            lemma_lex_bracketed('[', ']', items_text(l), items_tokens(l), rest);
        },
        Value::Hash(e) => {
            let after = seq!['}'] + rest;
            assert(after[0] == '}');
            lemma_lex_entries(e, after);
            lemma_lex_bracketed('{', '}', entries_text(e), entries_tokens(e), rest);
        },
        Value::Str(s) => {
            lemma_lex_str(s, rest);
        },
        _ => {
            lemma_scalar_plain(v);
            lemma_lex_atom(text_of(v), rest);
        },
    }
}

/// The tokenizer splits the text of readable items, before an edge, into
/// the tokens of the items.
pub proof fn lemma_lex_items(l: Seq<Value>, rest: Seq<char>)
    requires
        readable_items(l),
        edge(rest),
    ensures
        lex_run(Lex::Start, items_text(l) + rest) == items_tokens(l) + lex_run(Lex::Start, rest),
    decreases l, 0nat,
{
    if l.len() == 0 {
        assert(items_text(l) + rest =~= rest);
        assert(items_tokens(l) + lex_run(Lex::Start, rest) =~= lex_run(Lex::Start, rest));
    } else {
        lemma_readable_front(l);
        lemma_lex_value(l.last(), rest);
        if l.len() == 1 {
            assert(l.drop_last().len() == 0);
            assert(items_tokens(l.drop_last()) == Seq::<Seq<char>>::empty());
            assert(items_tokens(l) =~= value_tokens(l.last()));
        } else {
            let own = text_of(l.last()) + rest;
            let tail = seq![' '] + own;
            assert(tail[0] == ' ');
            assert(edge(tail));
            lemma_lex_items(l.drop_last(), tail);
            lemma_lex_blank(own);
            assert(items_text(l) + rest =~= items_text(l.drop_last()) + tail);
            assert(items_tokens(l.drop_last()) + (value_tokens(l.last()) + lex_run(
                Lex::Start,
                rest,
            )) =~= items_tokens(l) + lex_run(Lex::Start, rest));
        }
    }
}

/// The tokenizer splits the text of readable entries, before an edge, into
/// the tokens of the entries.
pub proof fn lemma_lex_entries(e: Seq<(Seq<char>, Value)>, rest: Seq<char>)
    requires
        readable_entries(e),
        edge(rest),
    ensures
        lex_run(Lex::Start, entries_text(e) + rest) == entries_tokens(e) + lex_run(
            Lex::Start,
            rest,
        ),
    decreases e, 0nat,
{
    if e.len() == 0 {
        assert(entries_text(e) + rest =~= rest);
        assert(entries_tokens(e) + lex_run(Lex::Start, rest) =~= lex_run(Lex::Start, rest));
    } else {
        lemma_readable_entries_front(e);
        let k = str_text(e.last().0, true);
        let val = text_of(e.last().1) + rest;
        let after_key = seq![' '] + val;
        assert(after_key[0] == ' ');
        assert(edge(after_key));
        lemma_lex_str(e.last().0, after_key);
        lemma_lex_blank(val);
        lemma_lex_value(e.last().1, rest);
        let own = k + after_key;
        assert(lex_run(Lex::Start, own) =~= seq![k] + value_tokens(e.last().1) + lex_run(
            Lex::Start,
            rest,
        ));
        if e.len() == 1 {
            assert(e.drop_last().len() == 0);
            assert(entries_tokens(e.drop_last()) == Seq::<Seq<char>>::empty());
            assert(entries_text(e) + rest =~= own);
            assert(entries_tokens(e) =~= seq![k] + value_tokens(e.last().1));
        } else {
            let tail = seq![' '] + own;
            assert(tail[0] == ' ');
            assert(edge(tail));
            lemma_lex_entries(e.drop_last(), tail);
            lemma_lex_blank(own);
            assert(entries_text(e) + rest =~= entries_text(e.drop_last()) + tail);
            assert(entries_tokens(e.drop_last()) + (seq![k] + value_tokens(e.last().1) + lex_run(
                Lex::Start,
                rest,
            )) =~= entries_tokens(e) + lex_run(Lex::Start, rest));
        }
    }
}

/// The tokens of the text of a readable value are the tokens of the value.
pub proof fn lemma_tokens_of_value(v: Value)
    requires
        readable(v),
    ensures
        tokens_of(text_of(v)) == value_tokens(v),
{
    lemma_lex_value(v, Seq::empty());
    assert(text_of(v) + Seq::<char>::empty() =~= text_of(v));
    assert(lex_run(Lex::Start, Seq::<char>::empty()) == Seq::<Seq<char>>::empty());
    assert(value_tokens(v) + Seq::<Seq<char>>::empty() =~= value_tokens(v));
}

/// The printed text of a readable value does not depend on the store of
/// reference cells.
pub proof fn lemma_text_indep(v: Value, atoms: Seq<Value>, fuel: nat)
    requires
        readable(v),
    ensures
        pr_text(v, true, atoms, fuel) == text_of(v),
    decreases v, 1nat,
{
    match v {
        Value::List(l) => {
            lemma_items_indep(l, atoms, fuel);
        },
        Value::Vector(l) => {
            lemma_items_indep(l, atoms, fuel);
        },
        Value::Hash(e) => {
            lemma_entries_indep(e, atoms, fuel);
        },
        _ => {},
    }
}

pub proof fn lemma_items_indep(l: Seq<Value>, atoms: Seq<Value>, fuel: nat)
    requires
        readable_items(l),
    ensures
        seq_text(l, true, seq![' '], atoms, fuel) == items_text(l),
    decreases l, 0nat,
{
    if l.len() > 0 {
        lemma_readable_front(l);
        lemma_text_indep(l.last(), atoms, fuel);
        if l.len() > 1 {
            lemma_items_indep(l.drop_last(), atoms, fuel);
        }
    }
}

pub proof fn lemma_entries_indep(e: Seq<(Seq<char>, Value)>, atoms: Seq<Value>, fuel: nat)
    requires
        readable_entries(e),
    ensures
        hash_text(e, true, atoms, fuel) == entries_text(e),
    decreases e, 0nat,
{
    if e.len() > 0 {
        lemma_readable_entries_front(e);
        lemma_text_indep(e.last().1, atoms, fuel);
        if e.len() > 1 {
            lemma_entries_indep(e.drop_last(), atoms, fuel);
        }
    }
}

/// Whether a token is one of those that the reader treats by itself: a
/// bracket, or the sign of a reader macro.
pub open spec fn is_punct(t: Seq<char>) -> bool {
    t == "'"@ || t == "`"@ || t == "~"@ || t == "~@"@ || t == "^"@ || t == "@"@ || t == ")"@ || t
        == "("@ || t == "]"@ || t == "["@ || t == "}"@ || t == "{"@
}

/// The brackets and the signs of reader macros, as sequences of characters.
pub proof fn lemma_punct()
    ensures
        "'"@ == seq!['\''],
        "`"@ == seq!['`'],
        "~"@ == seq!['~'],
        "~@"@ == seq!['~', '@'],
        "^"@ == seq!['^'],
        "@"@ == seq!['@'],
        ")"@ == seq![')'],
        "("@ == seq!['('],
        "]"@ == seq![']'],
        "["@ == seq!['['],
        "}"@ == seq!['}'],
        "{"@ == seq!['{'],
{
    reveal_strlit("'");
    reveal_strlit("`");
    reveal_strlit("~");
    reveal_strlit("~@");
    reveal_strlit("^");
    reveal_strlit("@");
    reveal_strlit(")");
    reveal_strlit("(");
    reveal_strlit("]");
    reveal_strlit("[");
    reveal_strlit("}");
    reveal_strlit("{");
    assert("'"@ =~= seq!['\'']);
    assert("`"@ =~= seq!['`']);
    assert("~"@ =~= seq!['~']);
    assert("~@"@ =~= seq!['~', '@']);
    assert("^"@ =~= seq!['^']);
    assert("@"@ =~= seq!['@']);
    assert(")"@ =~= seq![')']);
    assert("("@ =~= seq!['(']);
    assert("]"@ =~= seq![']']);
    assert("["@ =~= seq!['[']);
    assert("}"@ =~= seq!['}']);
    assert("{"@ =~= seq!['{']);
}

/// A token that starts with no special character is an atom.
pub proof fn lemma_not_punct(t: Seq<char>)
    requires
        t.len() > 0,
        !is_special(t[0]),
    ensures
        !is_punct(t),
{
    lemma_punct();
}

/// The token of a readable value that is no sequence reads as the value.
pub proof fn lemma_atom_token(v: Value)
    requires
        readable(v),
        !(v is List) && !(v is Vector) && !(v is Hash),
    ensures
        value_tokens(v) == seq![text_of(v)],
        text_of(v).len() > 0,
        !is_special(text_of(v)[0]),
        text_of(v)[0] != ';',
        atom_value(text_of(v)) == Ok::<Value, Fault>(v),
{
    lemma_literals();
    let t = text_of(v);
    match v {
        Value::Int(i) => {
            lemma_dec_text(i as nat);
            lemma_digits_plain(t);
            assert(is_digit(t[0]));
        },
        Value::Sym(s) => {
            assert(is_plain(s[0]));
        },
        Value::Str(s) => {
            lemma_lex_str(s, Seq::empty());
            if is_keyword(s) {
                let name = s.subrange(1, s.len() as int);
                assert(t == seq![':'] + name);
                assert(t[0] == ':');
                assert(!is_digit(t[0]));
                assert(t.subrange(1, t.len() as int) =~= name);
                assert(seq![KEYWORD_MARK] + name =~= s);
            } else {
                lemma_unescape_escape(s);
                assert(t == seq!['"'] + escape_text(s) + seq!['"']);
                assert(t[0] == '"');
                assert(t.last() == '"');
                assert(!is_digit(t[0]));
                assert(t.subrange(1, t.len() - 1) =~= escape_text(s));
            }
        },
        Value::Bool(b) => {
            assert(!is_digit(t[0]));
        },
        _ => {
            assert(!is_digit(t[0]));
        },
    }
}

/// The tokens of a readable value: there is one at least, the first is no
/// closing bracket, and none is a comment.
pub proof fn lemma_value_tokens(v: Value)
    requires
        readable(v),
    ensures
        value_tokens(v).len() > 0,
        value_tokens(v)[0] != ")"@,
        value_tokens(v)[0] != "]"@,
        value_tokens(v)[0] != "}"@,
        forall|i: int| 0 <= i < value_tokens(v).len() ==> !is_comment(#[trigger] value_tokens(v)[i]),
    decreases v, 1nat,
{
    lemma_punct();
    match v {
        Value::List(l) => {
            lemma_items_clean(l);
            lemma_wrapped_clean('(', items_tokens(l), ')');
        },
        Value::Vector(l) => {
            lemma_items_clean(l);
            lemma_wrapped_clean('[', items_tokens(l), ']');
        },
        Value::Hash(e) => {
            lemma_entries_clean(e);
            lemma_wrapped_clean('{', entries_tokens(e), '}');
        },
        _ => {
            lemma_atom_token(v);
            lemma_not_punct(text_of(v));
        },
    }
}

pub proof fn lemma_wrapped_clean(open: char, inner: Seq<Seq<char>>, close: char)
    requires
        is_bracket(open),
        is_bracket(close),
        forall|i: int| 0 <= i < inner.len() ==> !is_comment(#[trigger] inner[i]),
    ensures
        (seq![seq![open]] + inner + seq![seq![close]])[0] == seq![open],
        forall|i: int|
            0 <= i < (seq![seq![open]] + inner + seq![seq![close]]).len() ==> !is_comment(
                #[trigger] (seq![seq![open]] + inner + seq![seq![close]])[i],
            ),
{
    let t = seq![seq![open]] + inner + seq![seq![close]];
    assert forall|i: int| 0 <= i < t.len() implies !is_comment(#[trigger] t[i]) by {
        if i == 0 {
            assert(t[i] == seq![open]);
        } else if i <= inner.len() {
            assert(t[i] == inner[i - 1]);
        } else {
            assert(t[i] == seq![close]);
        }
    }
}

pub proof fn lemma_joined_clean(a: Seq<Seq<char>>, b: Seq<Seq<char>>)
    requires
        forall|i: int| 0 <= i < a.len() ==> !is_comment(#[trigger] a[i]),
        forall|i: int| 0 <= i < b.len() ==> !is_comment(#[trigger] b[i]),
    ensures
        forall|i: int| 0 <= i < (a + b).len() ==> !is_comment(#[trigger] (a + b)[i]),
{
    assert forall|i: int| 0 <= i < (a + b).len() implies !is_comment(#[trigger] (a + b)[i]) by {
        if i < a.len() {
            assert((a + b)[i] == a[i]);
        } else {
            assert((a + b)[i] == b[i - a.len()]);
        }
    }
}

pub proof fn lemma_items_clean(l: Seq<Value>)
    requires
        readable_items(l),
    ensures
        forall|i: int| 0 <= i < items_tokens(l).len() ==> !is_comment(#[trigger] items_tokens(l)[i]),
    decreases l, 0nat,
{
    if l.len() > 0 {
        lemma_readable_front(l);
        lemma_items_clean(l.drop_last());
        lemma_value_tokens(l.last());
        lemma_joined_clean(items_tokens(l.drop_last()), value_tokens(l.last()));
    }
}

pub proof fn lemma_entries_clean(e: Seq<(Seq<char>, Value)>)
    requires
        readable_entries(e),
    ensures
        forall|i: int|
            0 <= i < entries_tokens(e).len() ==> !is_comment(#[trigger] entries_tokens(e)[i]),
    decreases e, 0nat,
{
    if e.len() > 0 {
        lemma_readable_entries_front(e);
        lemma_entries_clean(e.drop_last());
        lemma_value_tokens(e.last().1);
        lemma_lex_str(e.last().0, Seq::empty());
        let k = seq![str_text(e.last().0, true)];
        assert(!is_comment(k[0]));
        lemma_joined_clean(entries_tokens(e.drop_last()), k);
        lemma_joined_clean(entries_tokens(e.drop_last()) + k, value_tokens(e.last().1));
    }
}

/// Tokens without a comment among them stay as they are.
pub proof fn lemma_code_tokens(toks: Seq<Seq<char>>)
    requires
        forall|i: int| 0 <= i < toks.len() ==> !is_comment(#[trigger] toks[i]),
    ensures
        code_tokens(toks) == toks,
    decreases toks.len(),
{
    if toks.len() > 0 {
        assert forall|i: int| 0 <= i < toks.drop_last().len() implies !is_comment(
            #[trigger] toks.drop_last()[i],
        ) by {
            assert(toks.drop_last()[i] == toks[i]);
        }
        lemma_code_tokens(toks.drop_last());
        assert(!is_comment(toks.last()));
        assert(toks.drop_last().push(toks.last()) =~= toks);
    }
}

pub proof fn lemma_items_tokens_add(a: Seq<Value>, b: Seq<Value>)
    ensures
        items_tokens(a + b) == items_tokens(a) + items_tokens(b),
    decreases b.len(),
{
    if b.len() == 0 {
        assert(a + b =~= a);
        assert(items_tokens(a) + items_tokens(b) =~= items_tokens(a));
    } else {
        assert((a + b).drop_last() =~= a + b.drop_last());
        assert((a + b).last() == b.last());
        lemma_items_tokens_add(a, b.drop_last());
        assert(items_tokens(a + b) =~= items_tokens(a) + items_tokens(b));
    }
}

pub proof fn lemma_items_tokens_one(v: Value)
    ensures
        items_tokens(seq![v]) == value_tokens(v),
{
    let l = seq![v];
    assert(l.drop_last() =~= Seq::<Value>::empty());
    assert(items_tokens(l.drop_last()) == Seq::<Seq<char>>::empty());
    assert(items_tokens(l) =~= value_tokens(v));
}

/// The tokens of a sequence start with the tokens of its first item.
pub proof fn lemma_items_tokens_front(l: Seq<Value>)
    requires
        l.len() > 0,
    ensures
        items_tokens(l) == value_tokens(l[0]) + items_tokens(l.drop_first()),
{
    assert(seq![l[0]] + l.drop_first() =~= l);
    lemma_items_tokens_add(seq![l[0]], l.drop_first());
    lemma_items_tokens_one(l[0]);
}

/// The keys and values of the entries, one after another, as the reader
/// sees them between the brackets of a map.
pub open spec fn kvs(e: Seq<(Seq<char>, Value)>) -> Seq<Value>
    decreases e.len(),
{
    if e.len() == 0 {
        Seq::empty()
    } else {
        kvs(e.drop_last()) + seq![Value::Str(e.last().0), e.last().1]
    }
}

pub proof fn lemma_kvs_len(e: Seq<(Seq<char>, Value)>)
    ensures
        kvs(e).len() == 2 * e.len(),
    decreases e.len(),
{
    if e.len() > 0 {
        lemma_kvs_len(e.drop_last());
    }
}

pub proof fn lemma_entries_tokens_add(a: Seq<(Seq<char>, Value)>, b: Seq<(Seq<char>, Value)>)
    ensures
        entries_tokens(a + b) == entries_tokens(a) + entries_tokens(b),
    decreases b.len(),
{
    if b.len() == 0 {
        assert(a + b =~= a);
        assert(entries_tokens(a) + entries_tokens(b) =~= entries_tokens(a));
    } else {
        assert((a + b).drop_last() =~= a + b.drop_last());
        assert((a + b).last() == b.last());
        lemma_entries_tokens_add(a, b.drop_last());
        assert(entries_tokens(a + b) =~= entries_tokens(a) + entries_tokens(b));
    }
}

/// The tokens and the keys and values of entries start with those of the
/// first entry.
pub proof fn lemma_entries_front(e: Seq<(Seq<char>, Value)>)
    requires
        e.len() > 0,
    ensures
        entries_tokens(e) == seq![str_text(e[0].0, true)] + value_tokens(e[0].1) + entries_tokens(
            e.drop_first(),
        ),
        kvs(e) == seq![Value::Str(e[0].0), e[0].1] + kvs(e.drop_first()),
{
    let one = seq![e[0]];
    assert(one + e.drop_first() =~= e);
    lemma_entries_tokens_add(one, e.drop_first());
    lemma_kvs_add(one, e.drop_first());
    assert(one.drop_last() =~= Seq::<(Seq<char>, Value)>::empty());
    assert(entries_tokens(one.drop_last()) == Seq::<Seq<char>>::empty());
    assert(kvs(one.drop_last()) == Seq::<Value>::empty());
    assert(entries_tokens(one) =~= seq![str_text(e[0].0, true)] + value_tokens(e[0].1));
    assert(kvs(one) =~= seq![Value::Str(e[0].0), e[0].1]);
}

pub proof fn lemma_kvs_add(a: Seq<(Seq<char>, Value)>, b: Seq<(Seq<char>, Value)>)
    ensures
        kvs(a + b) == kvs(a) + kvs(b),
    decreases b.len(),
{
    if b.len() == 0 {
        assert(a + b =~= a);
        assert(kvs(a) + kvs(b) =~= kvs(a));
    } else {
        assert((a + b).drop_last() =~= a + b.drop_last());
        assert((a + b).last() == b.last());
        lemma_kvs_add(a, b.drop_last());
        assert(kvs(a + b) =~= kvs(a) + kvs(b));
    }
}

/// Setting the keys and values of entries with distinct keys, one after
/// another, builds these entries in their order.
pub proof fn lemma_assoc_kvs(e: Seq<(Seq<char>, Value)>, i: int)
    requires
        distinct_keys(e),
        0 <= i <= e.len(),
    ensures
        assoc_entries(e.subrange(0, i), kvs(e.subrange(i, e.len() as int))) == Ok::<
            Seq<(Seq<char>, Value)>,
            Fault,
        >(e),
    decreases e.len() - i,
{
    let acc = e.subrange(0, i);
    let rest = e.subrange(i, e.len() as int);
    if i == e.len() {
        assert(acc =~= e);
        assert(kvs(rest).len() == 0);
    } else {
        let one = seq![e[i]];
        let later = e.subrange(i + 1, e.len() as int);
        assert(rest =~= one + later);
        lemma_kvs_add(one, later);
        assert(one.drop_last() =~= Seq::<(Seq<char>, Value)>::empty());
        assert(kvs(one.drop_last()) == Seq::<Value>::empty());
        assert(kvs(one) =~= seq![Value::Str(e[i].0), e[i].1]);
        let all = kvs(rest);
        assert(all =~= seq![Value::Str(e[i].0), e[i].1] + kvs(later));
        assert(all[0] == Value::Str(e[i].0));
        assert(all[1] == e[i].1);
        assert(all.skip(2) =~= kvs(later));
        lemma_place(acc, e[i].0);
        assert(place(acc, e[i].0) is None) by {
            if place(acc, e[i].0) is Some {
                let j = place(acc, e[i].0)->Some_0;
                assert(acc[j] == e[j]);
                assert(e[j].0 != e[i].0);
            }
        }
        assert(put(acc, e[i].0, e[i].1) =~= e.subrange(0, i + 1));
        lemma_assoc_kvs(e, i + 1);
    }
}

/// The reader makes a readable value of its tokens, wherever they stand
/// among the tokens.
pub proof fn lemma_read_value(toks: Seq<Seq<char>>, pos: nat, v: Value)
    requires
        readable(v),
        pos + value_tokens(v).len() <= toks.len(),
        toks.subrange(pos as int, (pos + value_tokens(v).len()) as int) == value_tokens(v),
    ensures
        read_form_at(toks, pos) == (Ok::<Value, Fault>(v), pos + value_tokens(v).len()),
    decreases v, 1nat,
{
    lemma_punct();
    let p = pos as int;
    let n = value_tokens(v).len() as int;
    let own = toks.subrange(p, p + n);
    lemma_value_tokens(v);
    assert(toks[p] == own[0]);
    match v {
        Value::List(l) => {
            let m = items_tokens(l).len() as int;
            assert(toks.subrange(p + 1, p + 1 + m) =~= items_tokens(l)) by {
                assert forall|i: int| 0 <= i < m implies toks.subrange(p + 1, p + 1 + m)[i]
                    == items_tokens(l)[i] by {
                    assert(own[i + 1] == toks[p + 1 + i]);
                }
            }
            assert(toks[p + 1 + m] == own[m + 1]);
            lemma_read_items(toks, (p + 1) as nat, l, ")"@);
        },
        Value::Vector(l) => {
            let m = items_tokens(l).len() as int;
            assert(toks.subrange(p + 1, p + 1 + m) =~= items_tokens(l)) by {
                assert forall|i: int| 0 <= i < m implies toks.subrange(p + 1, p + 1 + m)[i]
                    == items_tokens(l)[i] by {
                    assert(own[i + 1] == toks[p + 1 + i]);
                }
            }
            assert(toks[p + 1 + m] == own[m + 1]);
            lemma_read_items(toks, (p + 1) as nat, l, "]"@);
        },
        Value::Hash(e) => {
            let m = entries_tokens(e).len() as int;
            assert(toks.subrange(p + 1, p + 1 + m) =~= entries_tokens(e)) by {
                assert forall|i: int| 0 <= i < m implies toks.subrange(p + 1, p + 1 + m)[i]
                    == entries_tokens(e)[i] by {
                    assert(own[i + 1] == toks[p + 1 + i]);
                }
            }
            assert(toks[p + 1 + m] == own[m + 1]);
            lemma_read_entries(toks, (p + 1) as nat, e);
            lemma_kvs_len(e);
            lemma_assoc_kvs(e, 0);
            assert(e.subrange(0, 0) =~= Seq::<(Seq<char>, Value)>::empty());
            assert(e.subrange(0, e.len() as int) =~= e);
            assert(assoc_value(Seq::empty(), kvs(e)) == Ok::<Value, Fault>(Value::Hash(e)));
        },
        _ => {
            lemma_atom_token(v);
            lemma_not_punct(text_of(v));
            assert(own[0] == text_of(v));
        },
    }
}

/// The reader makes readable items of their tokens, up to the closing
/// bracket after them.
pub proof fn lemma_read_items(toks: Seq<Seq<char>>, pos: nat, l: Seq<Value>, end: Seq<char>)
    requires
        readable_items(l),
        end == ")"@ || end == "]"@ || end == "}"@,
        pos + items_tokens(l).len() < toks.len(),
        toks.subrange(pos as int, (pos + items_tokens(l).len()) as int) == items_tokens(l),
        toks[(pos + items_tokens(l).len()) as int] == end,
    ensures
        read_items_at(toks, pos, end) == (
            Ok::<Seq<Value>, Fault>(l),
            pos + items_tokens(l).len() + 1,
        ),
    decreases l, 0nat,
{
    let p = pos as int;
    let m = items_tokens(l).len() as int;
    let own = toks.subrange(p, p + m);
    if l.len() == 0 {
        assert(m == 0);
        assert(l =~= Seq::<Value>::empty());
    } else {
        lemma_readable_front(l);
        lemma_items_tokens_front(l);
        let v = l[0];
        let n = value_tokens(v).len() as int;
        let later = l.drop_first();
        lemma_value_tokens(v);
        assert(m == n + items_tokens(later).len());
        assert(toks[p] == own[0]);
        assert(own[0] == value_tokens(v)[0]);
        assert(toks.subrange(p, p + n) =~= value_tokens(v)) by {
            assert forall|i: int| 0 <= i < n implies toks.subrange(p, p + n)[i] == value_tokens(
                v,
            )[i] by {
                assert(own[i] == toks[p + i]);
            }
        }
        lemma_read_value(toks, pos, v);
        assert(toks.subrange(p + n, p + m) =~= items_tokens(later)) by {
            assert forall|i: int| 0 <= i < m - n implies toks.subrange(p + n, p + m)[i]
                == items_tokens(later)[i] by {
                assert(own[n + i] == toks[p + n + i]);
            }
        }
        lemma_read_items(toks, (p + n) as nat, later, end);
        assert(seq![v] + later =~= l);
        assert(toks[p] != end);
        assert(read_form_at(toks, pos) == (Ok::<Value, Fault>(v), (p + n) as nat));
        assert(read_items_at(toks, (p + n) as nat, end) == (
            Ok::<Seq<Value>, Fault>(later),
            (p + m + 1) as nat,
        ));
    }
}

/// The reader makes the keys and values of readable entries of their
/// tokens, up to the closing bracket after them.
pub proof fn lemma_read_entries(toks: Seq<Seq<char>>, pos: nat, e: Seq<(Seq<char>, Value)>)
    requires
        readable_entries(e),
        pos + entries_tokens(e).len() < toks.len(),
        toks.subrange(pos as int, (pos + entries_tokens(e).len()) as int) == entries_tokens(e),
        toks[(pos + entries_tokens(e).len()) as int] == "}"@,
    ensures
        read_items_at(toks, pos, "}"@) == (
            Ok::<Seq<Value>, Fault>(kvs(e)),
            pos + entries_tokens(e).len() + 1,
        ),
    decreases e, 0nat,
{
    lemma_punct();
    let end = "}"@;
    let p = pos as int;
    let m = entries_tokens(e).len() as int;
    let own = toks.subrange(p, p + m);
    if e.len() == 0 {
        assert(m == 0);
        assert(kvs(e) == Seq::<Value>::empty());
    } else {
        lemma_readable_entries_front(e);
        lemma_entries_front(e);
        let k = e[0].0;
        let v = e[0].1;
        let kt = str_text(k, true);
        let n = value_tokens(v).len() as int;
        let later = e.drop_first();
        lemma_value_tokens(v);
        lemma_atom_token(Value::Str(k));
        lemma_not_punct(kt);
        assert(m == 1 + n + entries_tokens(later).len());
        assert(toks[p] == own[0]);
        assert(own[0] == kt);
        assert(read_form_at(toks, pos) == (Ok::<Value, Fault>(Value::Str(k)), (p + 1) as nat));
        assert(toks[p + 1] == own[1]);
        assert(own[1] == value_tokens(v)[0]);
        assert(toks.subrange(p + 1, p + 1 + n) =~= value_tokens(v)) by {
            assert forall|i: int| 0 <= i < n implies toks.subrange(p + 1, p + 1 + n)[i]
                == value_tokens(v)[i] by {
                assert(own[1 + i] == toks[p + 1 + i]);
            }
        }
        lemma_read_value(toks, (p + 1) as nat, v);
        assert(toks.subrange(p + 1 + n, p + m) =~= entries_tokens(later)) by {
            assert forall|i: int| 0 <= i < m - n - 1 implies toks.subrange(p + 1 + n, p + m)[i]
                == entries_tokens(later)[i] by {
                assert(own[1 + n + i] == toks[p + 1 + n + i]);
            }
        }
        lemma_read_entries(toks, (p + 1 + n) as nat, later);
        assert(toks[p] != end);
        assert(toks[p + 1] != end);
        let after_value = read_items_at(toks, (p + 1 + n) as nat, end);
        assert(after_value == (Ok::<Seq<Value>, Fault>(kvs(later)), (p + m + 1) as nat));
        let after_key = read_items_at(toks, (p + 1) as nat, end);
        assert(after_key == (Ok::<Seq<Value>, Fault>(seq![v] + kvs(later)), (p + m + 1) as nat));
        assert(seq![Value::Str(k)] + (seq![v] + kvs(later)) =~= kvs(e));
    }
}

/// Reading the printed text of a readable value gives the value back: for
/// `nil`, booleans, integers that are not negative, every string that is no
/// keyword, keywords and symbols made of the characters of generic atoms,
/// and lists, vectors and maps of such values, read after print in
/// machine-readable form is the identity.
pub proof fn lemma_round_trip(v: Value, atoms: Seq<Value>, fuel: nat)
    requires
        readable(v),
    ensures
        read_text(pr_text(v, true, atoms, fuel)) == Ok::<Value, Fault>(v),
{
    lemma_text_indep(v, atoms, fuel);
    lemma_tokens_of_value(v);
    lemma_value_tokens(v);
    let toks = value_tokens(v);
    lemma_code_tokens(toks);
    assert(toks.subrange(0, toks.len() as int) =~= toks);
    lemma_read_value(toks, 0, v);
}

/// A list of readable items reads back as a list of the same items in
/// their order.
pub proof fn lemma_round_trip_list(items: Seq<Value>, atoms: Seq<Value>, fuel: nat)
    requires
        readable_items(items),
    ensures
        read_text(pr_text(Value::List(items), true, atoms, fuel)) == Ok::<Value, Fault>(
            Value::List(items),
        ),
        pr_text(Value::List(items), true, atoms, fuel).first() == '(',
        pr_text(Value::List(items), true, atoms, fuel).last() == ')',
{
    lemma_round_trip(Value::List(items), atoms, fuel);
}

/// A vector of readable items reads back as a vector of the same items in
/// their order.
pub proof fn lemma_round_trip_vector(items: Seq<Value>, atoms: Seq<Value>, fuel: nat)
    requires
        readable_items(items),
    ensures
        read_text(pr_text(Value::Vector(items), true, atoms, fuel)) == Ok::<Value, Fault>(
            Value::Vector(items),
        ),
        pr_text(Value::Vector(items), true, atoms, fuel).first() == '[',
        pr_text(Value::Vector(items), true, atoms, fuel).last() == ']',
{
    lemma_round_trip(Value::Vector(items), atoms, fuel);
}

/// A map with distinct keys, readable keys and readable values reads back
/// as a map of the same entries in their order.
pub proof fn lemma_round_trip_map(e: Seq<(Seq<char>, Value)>, atoms: Seq<Value>, fuel: nat)
    requires
        distinct_keys(e),
        readable_entries(e),
    ensures
        read_text(pr_text(Value::Hash(e), true, atoms, fuel)) == Ok::<Value, Fault>(
            Value::Hash(e),
        ),
{
    lemma_round_trip(Value::Hash(e), atoms, fuel);
}

/// Every string that is no keyword reads back as itself, whatever
/// characters it holds.
pub proof fn lemma_round_trip_string(t: Seq<char>, atoms: Seq<Value>, fuel: nat)
    requires
        !is_keyword(t),
    ensures
        read_text(pr_text(Value::Str(t), true, atoms, fuel)) == Ok::<Value, Fault>(
            Value::Str(t),
        ),
{
    lemma_round_trip(Value::Str(t), atoms, fuel);
}

/// A negative integer does not read back as itself: its text, a minus sign
/// before digits, reads as a symbol.
pub proof fn lemma_negative_reads_as_symbol(i: i64, atoms: Seq<Value>, fuel: nat)
    requires
        i < 0,
    ensures
        read_text(pr_text(Value::Int(i), true, atoms, fuel)) == Ok::<Value, Fault>(
            Value::Sym(int_text(i as int)),
        ),
{
    lemma_literals();
    lemma_punct();
    let d = dec_text((-i) as nat);
    let t = seq!['-'] + d;
    lemma_dec_text((-i) as nat);
    lemma_digits_plain(d);
    assert(t == int_text(i as int));
    assert(t[0] == '-');
    assert(plain_text(t)) by {
        assert forall|j: int| 0 <= j < t.len() implies is_plain(#[trigger] t[j]) by {
            if j > 0 {
                assert(t[j] == d[j - 1]);
            }
        }
    }
    lemma_lex_atom(t, Seq::empty());
    assert(t + Seq::<char>::empty() =~= t);
    assert(lex_run(Lex::Start, Seq::<char>::empty()) == Seq::<Seq<char>>::empty());
    let toks = seq![t];
    assert(tokens_of(t) =~= toks);
    assert(!is_comment(toks[0]));
    lemma_code_tokens(toks);
    lemma_not_punct(t);
    assert(!is_digit(t[0]));
    assert(!all_digits(t));
    assert(atom_value(t) == Ok::<Value, Fault>(Value::Sym(t)));
    assert(read_form_at(toks, 0).0 == atom_value(t));
}

/// The shape of a token that a generic atom makes.
pub open spec fn other_shape(t: Seq<char>) -> bool {
    t.len() > 0 && t[0] != '"' && plain_text(t)
}

/// The shape of a token that a string literal makes.
pub open spec fn text_shape(t: Seq<char>) -> bool {
    t.len() >= 2 && t[0] == '"' && t.last() == '"'
}

/// The shape of a token that special characters make.
pub open spec fn special_shape(t: Seq<char>) -> bool {
    (t.len() == 1 && is_special(t[0])) || t == seq!['~', '@']
}

/// The shapes that the tokens of the tokenizer have.
pub open spec fn token_shape(t: Seq<char>) -> bool {
    other_shape(t) || text_shape(t) || special_shape(t) || is_comment(t)
}

/// What holds of the token in progress in each state of the tokenizer.
pub open spec fn state_ok(st: Lex) -> bool {
    match st {
        Lex::Start => true,
        Lex::Special(c) => is_special(c),
        Lex::Comment(a) => is_comment(a),
        Lex::Other(a) => other_shape(a),
        Lex::Text(a, _) => a.len() > 0 && a[0] == '"',
    }
}

/// Every token of the tokenizer has one of the four shapes.
pub proof fn lemma_token_shapes(st: Lex, t: Seq<char>)
    requires
        state_ok(st),
    ensures
        forall|i: int| 0 <= i < lex_run(st, t).len() ==> token_shape(#[trigger] lex_run(st, t)[i]),
    decreases t.len(),
{
    if t.len() == 0 {
        match st {
            Lex::Text(a, _) => {
                assert(a.push('"')[0] == a[0]);
            },
            _ => {},
        }
    } else {
        let c = t[0];
        let (st2, out) = lex_step(st, c);
        let later = lex_run(st2, t.drop_first());
        assert(state_ok(lex_open(c)));
        assert(state_ok(st2)) by {
            match st {
                Lex::Other(a) => {
                    if !(is_special(c) || is_blank(c) || c == ';') {
                        assert forall|i: int| 0 <= i < a.push(c).len() implies is_plain(
                            #[trigger] a.push(c)[i],
                        ) by {
                            if i < a.len() {
                                assert(a.push(c)[i] == a[i]);
                            }
                        }
                        assert(a.push(c)[0] == a[0]);
                    }
                },
                Lex::Comment(a) => {
                    assert(a.push(c)[0] == a[0]);
                },
                Lex::Text(a, _) => {
                    assert(a.push(c)[0] == a[0]);
                },
                _ => {},
            }
        }
        assert forall|i: int| 0 <= i < out.len() implies token_shape(#[trigger] out[i]) by {
            match st {
                Lex::Text(a, _) => {
                    assert(a.push(c)[0] == a[0]);
                },
                _ => {},
            }
        }
        lemma_token_shapes(st2, t.drop_first());
        assert forall|i: int| 0 <= i < (out + later).len() implies token_shape(
            #[trigger] (out + later)[i],
        ) by {
            if i < out.len() {
                assert((out + later)[i] == out[i]);
            } else {
                assert((out + later)[i] == later[i - out.len()]);
            }
        }
    }
}

/// The tokens that stay after the comments are dropped keep their shapes,
/// and none of them is a comment.
pub proof fn lemma_code_shapes(toks: Seq<Seq<char>>)
    requires
        forall|i: int| 0 <= i < toks.len() ==> token_shape(#[trigger] toks[i]),
    ensures
        forall|i: int|
            0 <= i < code_tokens(toks).len() ==> token_shape(#[trigger] code_tokens(toks)[i])
                && !is_comment(code_tokens(toks)[i]),
    decreases toks.len(),
{
    if toks.len() > 0 {
        assert forall|i: int| 0 <= i < toks.drop_last().len() implies token_shape(
            #[trigger] toks.drop_last()[i],
        ) by {
            assert(toks.drop_last()[i] == toks[i]);
        }
        lemma_code_shapes(toks.drop_last());
        let h = code_tokens(toks.drop_last());
        assert(token_shape(toks.last()));
        assert forall|i: int| 0 <= i < code_tokens(toks).len() implies token_shape(
            #[trigger] code_tokens(toks)[i],
        ) && !is_comment(code_tokens(toks)[i]) by {
            if i < h.len() {
                assert(code_tokens(toks)[i] == h[i]);
            }
        }
    }
}

/// The first token stays the first where it is no comment.
pub proof fn lemma_code_first(toks: Seq<Seq<char>>)
    requires
        toks.len() > 0,
        !is_comment(toks[0]),
    ensures
        code_tokens(toks).len() > 0,
        code_tokens(toks)[0] == toks[0],
    decreases toks.len(),
{
    if toks.len() > 1 {
        assert(toks.drop_last()[0] == toks[0]);
        lemma_code_first(toks.drop_last());
    } else {
        assert(toks.drop_last().len() == 0);
        assert(code_tokens(toks.drop_last()) == Seq::<Seq<char>>::empty());
        assert(toks.last() == toks[0]);
    }
}

/// The first token of a generic atom in progress starts as the atom does.
pub proof fn lemma_other_first(acc: Seq<char>, t: Seq<char>)
    requires
        acc.len() > 0,
    ensures
        lex_run(Lex::Other(acc), t).len() > 0,
        lex_run(Lex::Other(acc), t)[0].len() > 0,
        lex_run(Lex::Other(acc), t)[0][0] == acc[0],
    decreases t.len(),
{
    if t.len() > 0 {
        let c = t[0];
        if is_special(c) || is_blank(c) || c == ';' {
            let later = lex_run(lex_open(c), t.drop_first());
            assert(lex_run(Lex::Other(acc), t) == seq![acc] + later);
            assert((seq![acc] + later)[0] == acc);
        } else {
            lemma_other_first(acc.push(c), t.drop_first());
            assert(acc.push(c)[0] == acc[0]);
            let later = lex_run(Lex::Other(acc.push(c)), t.drop_first());
            assert(lex_run(Lex::Other(acc), t) == Seq::<Seq<char>>::empty() + later);
            assert(Seq::<Seq<char>>::empty() + later =~= later);
        }
    }
}

/// A token with the shape of special characters is a bracket or the sign of
/// a reader macro.
pub proof fn lemma_special_punct(t: Seq<char>)
    requires
        special_shape(t),
    ensures
        is_punct(t),
{
    lemma_punct();
    if t.len() == 1 {
        assert(t =~= seq![t[0]]);
    }
}

/// Where the reader gives a symbol, the first token is that symbol, and it
/// is an atom that stands for a symbol.
pub proof fn lemma_read_symbol(toks: Seq<Seq<char>>, x: Seq<char>)
    requires
        toks.len() > 0,
        read_form_at(toks, 0).0 == Ok::<Value, Fault>(Value::Sym(x)),
    ensures
        toks[0] == x,
        !is_punct(x),
        atom_value(x) == Ok::<Value, Fault>(Value::Sym(x)),
{
}

/// Where the reader gives a string and the first token starts with a colon,
/// the string is the keyword that the token names.
pub proof fn lemma_read_keyword(toks: Seq<Seq<char>>, y: Seq<char>)
    requires
        toks.len() > 0,
        toks[0].len() > 0,
        toks[0][0] == ':',
        read_form_at(toks, 0).0 == Ok::<Value, Fault>(Value::Str(y)),
    ensures
        y == seq![KEYWORD_MARK] + toks[0].subrange(1, toks[0].len() as int),
{
    lemma_literals();
    lemma_not_punct(toks[0]);
    assert(!is_digit(toks[0][0]));
}

/// The predicate `readable` leaves out no value without a part on which the
/// round trip holds: `nil`, a boolean, an integer, a string or a symbol that
/// reads back as itself is readable.
pub proof fn lemma_readable_exact(v: Value, atoms: Seq<Value>, fuel: nat)
    requires
        v is Nil || v is Bool || v is Int || v is Str || v is Sym,
        read_text(pr_text(v, true, atoms, fuel)) == Ok::<Value, Fault>(v),
    ensures
        readable(v),
{
    let text = pr_text(v, true, atoms, fuel);
    let toks = tokens_of(text);
    let code = code_tokens(toks);
    lemma_token_shapes(Lex::Start, text);
    lemma_code_shapes(toks);
    match v {
        Value::Int(i) => {
            if i < 0 {
                lemma_negative_reads_as_symbol(i, atoms, fuel);
            }
        },
        Value::Sym(s) => {
            assert(code.len() > 0);
            lemma_read_symbol(code, s);
            assert(token_shape(code[0]) && !is_comment(code[0]));
            if special_shape(s) {
                lemma_special_punct(s);
            }
            lemma_literals();
            assert(other_shape(s));
        },
        Value::Str(s) => {
            if is_keyword(s) {
                let name = s.subrange(1, s.len() as int);
                assert(text == seq![':'] + name);
                assert(text[0] == ':');
                assert(text.drop_first() =~= name);
                assert(lex_run(Lex::Start, text) == Seq::<Seq<char>>::empty() + lex_run(
                    Lex::Other(seq![':']),
                    name,
                ));
                lemma_other_first(seq![':'], name);
                assert(toks =~= lex_run(Lex::Other(seq![':']), name));
                assert(toks[0][0] == ':');
                assert(!is_comment(toks[0]));
                lemma_code_first(toks);
                assert(code.len() > 0);
                lemma_read_keyword(code, s);
                let tk = code[0];
                assert(token_shape(tk));
                assert(other_shape(tk));
                let rest = tk.subrange(1, tk.len() as int);
                assert((seq![KEYWORD_MARK] + rest).subrange(1, s.len() as int) =~= rest);
                assert(name == rest);
                assert forall|i: int| 0 <= i < name.len() implies is_plain(#[trigger] name[i]) by {
                    assert(name[i] == tk[i + 1]);
                }
            }
        },
        _ => {},
    }
}

/// A value that is no list, no vector and no map.
pub open spec fn is_scalar(v: Value) -> bool {
    !(v is List) && !(v is Vector) && !(v is Hash)
}

/// Whether each item is a scalar that reads back, alone, as itself.
pub open spec fn items_read_back(items: Seq<Value>, atoms: Seq<Value>, fuel: nat) -> bool {
    forall|i: int|
        0 <= i < items.len() ==> is_scalar(#[trigger] items[i]) && read_text(
            pr_text(items[i], true, atoms, fuel),
        ) == Ok::<Value, Fault>(items[i])
}

/// Scalars that read back alone are readable items.
pub proof fn lemma_items_read_back(items: Seq<Value>, atoms: Seq<Value>, fuel: nat)
    requires
        items_read_back(items, atoms, fuel),
    ensures
        readable_items(items),
{
    assert forall|i: int| 0 <= i < items.len() implies readable(#[trigger] items[i]) by {
        let v = items[i];
        assert(is_scalar(v));
        lemma_reads_data(pr_text(v, true, atoms, fuel), v);
        lemma_readable_exact(v, atoms, fuel);
    }
}

/// What the reader gives for a text is data: no primitive, no closure and
/// no reference cell.
pub proof fn lemma_reads_data(t: Seq<char>, v: Value)
    requires
        read_text(t) == Ok::<Value, Fault>(v),
    ensures
        !(v is Func) && !(v is MalFunc) && !(v is Atom),
{
}

/// A list whose items are scalars that read back alone reads back as a
/// list of the same items in their order; so does a vector, as a vector.
pub proof fn lemma_round_trip_of_items(items: Seq<Value>, atoms: Seq<Value>, fuel: nat)
    requires
        items_read_back(items, atoms, fuel),
    ensures
        read_text(pr_text(Value::List(items), true, atoms, fuel)) == Ok::<Value, Fault>(
            Value::List(items),
        ),
        read_text(pr_text(Value::Vector(items), true, atoms, fuel)) == Ok::<Value, Fault>(
            Value::Vector(items),
        ),
{
    lemma_items_read_back(items, atoms, fuel);
    lemma_round_trip(Value::List(items), atoms, fuel);
    lemma_round_trip(Value::Vector(items), atoms, fuel);
}

/// A map with distinct keys, each of which reads back alone as a string,
/// and with scalar values that read back alone, reads back as a map of the
/// same entries in their order.
pub proof fn lemma_round_trip_of_entries(e: Seq<(Seq<char>, Value)>, atoms: Seq<Value>, fuel: nat)
    requires
        distinct_keys(e),
        forall|i: int|
            0 <= i < e.len() ==> read_text(pr_text(Value::Str((#[trigger] e[i]).0), true, atoms, fuel))
                == Ok::<Value, Fault>(Value::Str(e[i].0)),
        forall|i: int|
            0 <= i < e.len() ==> is_scalar((#[trigger] e[i]).1) && read_text(
                pr_text(e[i].1, true, atoms, fuel),
            ) == Ok::<Value, Fault>(e[i].1),
    ensures
        read_text(pr_text(Value::Hash(e), true, atoms, fuel)) == Ok::<Value, Fault>(
            Value::Hash(e),
        ),
{
    assert forall|i: int| 0 <= i < e.len() implies readable_str((#[trigger] e[i]).0) && readable(
        e[i].1,
    ) by {
        lemma_readable_exact(Value::Str(e[i].0), atoms, fuel);
        lemma_reads_data(pr_text(e[i].1, true, atoms, fuel), e[i].1);
        lemma_readable_exact(e[i].1, atoms, fuel);
    }
    lemma_round_trip(Value::Hash(e), atoms, fuel);
}

} // verus!
