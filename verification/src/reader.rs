use vstd::prelude::*;
use vstd::string::StringExecFns;
use crate::text::all_digits;
use crate::text::dec_value;
use crate::text::is_numbers;
use crate::text::parse_dec;
use crate::text::text_eq;
use crate::text::to_chars;
use crate::types::assoc_value;
use crate::types::error;
use crate::types::fail;
use crate::types::hash_map;
use crate::types::lemma_views;
use crate::types::lemma_views_push;
use crate::types::list;
use crate::types::ret_view;
use crate::types::sym;
use crate::types::texts;
use crate::types::vector;
use crate::types::views;
use crate::types::Fault;
use crate::types::MalErr;
use crate::types::MalRet;
use crate::types::MalVal;
use crate::types::Value;
use crate::types::KEYWORD_MARK;

verus! {

/// The state of the tokenizer between two characters.
pub enum Lex {
    /// No token is in progress.
    Start,
    /// A special character was seen and waits for what follows it: a tilde
    /// and an at sign that follows it at once are one token.
    Special(char),
    /// A comment is in progress.
    Comment(Seq<char>),
    /// A generic atom is in progress.
    Other(Seq<char>),
    /// A string literal is in progress; the flag says that its last
    /// character is a backslash that no earlier backslash has escaped.
    Text(Seq<char>, bool),
}

/// The characters that are tokens by themselves.
pub open spec fn is_special(c: char) -> bool {
    c == '`' || c == '\'' || c == '~' || c == '^' || c == '@' || c == '[' || c == ']' || c == '('
        || c == ')' || c == '{' || c == '}'
}

/// The characters that separate tokens and belong to none.
pub open spec fn is_blank(c: char) -> bool {
    c == ' ' || c == '\n'
}

/// The state that a character opens where no token is in progress.
pub open spec fn lex_open(c: char) -> Lex {
    if is_special(c) {
        Lex::Special(c)
    } else if is_blank(c) {
        Lex::Start
    } else if c == ';' {
        Lex::Comment(seq![c])
    } else if c == '"' {
        Lex::Text(seq![c], false)
    } else {
        Lex::Other(seq![c])
    }
}

/// One step of the tokenizer: the state after character `c`, and the tokens
/// that the character completes.
pub open spec fn lex_step(st: Lex, c: char) -> (Lex, Seq<Seq<char>>) {
    match st {
        Lex::Start => (lex_open(c), Seq::empty()),
        Lex::Special(p) => if p == '~' && c == '@' {
            (Lex::Start, seq![seq!['~', '@']])
        } else {
            (lex_open(c), seq![seq![p]])
        },
        Lex::Comment(s) => if c == '\n' {
            (Lex::Start, seq![s])
        } else {
            (Lex::Comment(s.push(c)), Seq::empty())
        },
        Lex::Other(s) => if is_special(c) || is_blank(c) || c == ';' {
            (lex_open(c), seq![s])
        } else {
            (Lex::Other(s.push(c)), Seq::empty())
        },
        Lex::Text(s, escaped) => if escaped {
            (Lex::Text(s.push(c), false), Seq::empty())
        } else if c == '\\' {
            (Lex::Text(s.push(c), true), Seq::empty())
        } else if c == '"' {
            (Lex::Start, seq![s.push(c)])
        } else {
            (Lex::Text(s.push(c), false), Seq::empty())
        },
    }
}

/// The tokens that the end of the input completes: the token in progress,
/// and a string literal gets the closing quote that it lacks.
pub open spec fn lex_flush(st: Lex) -> Seq<Seq<char>> {
    match st {
        Lex::Start => Seq::empty(),
        Lex::Special(p) => seq![seq![p]],
        Lex::Comment(s) => seq![s],
        Lex::Other(s) => seq![s],
        Lex::Text(s, _) => seq![s.push('"')],
    }
}

/// The tokens of the text `s`, read from state `st`.
pub open spec fn lex_run(st: Lex, s: Seq<char>) -> Seq<Seq<char>>
    decreases s.len(),
{
    if s.len() == 0 {
        lex_flush(st)
    } else {
        lex_step(st, s[0]).1 + lex_run(lex_step(st, s[0]).0, s.drop_first())
    }
}

/// The tokens of a text.
pub open spec fn tokens_of(s: Seq<char>) -> Seq<Seq<char>> {
    lex_run(Lex::Start, s)
}

enum State {
    Start,
    StateSym(char),
    Comment(String),
    Others(String),
    StateStr(String, bool),
}

impl View for State {
    type V = Lex;

    closed spec fn view(&self) -> Lex {
        match self {
            State::Start => Lex::Start,
            State::StateSym(c) => Lex::Special(*c),
            State::Comment(s) => Lex::Comment(s@),
            State::Others(s) => Lex::Other(s@),
            State::StateStr(s, e) => Lex::Text(s@, *e),
        }
    }
}

fn special(c: char) -> (r: bool)
    ensures
        r == is_special(c),
{
    c == '`' || c == '\'' || c == '~' || c == '^' || c == '@' || c == '[' || c == ']' || c == '('
        || c == ')' || c == '{' || c == '}'
}

fn one(c: char) -> (r: String)
    ensures
        r@ == seq![c],
{
    let mut s = String::new();
    s.push(c);
    assert(s@ =~= seq![c]);
    s
}

fn open_state(c: char) -> (r: State)
    ensures
        r@ == lex_open(c),
{
    if special(c) {
        State::StateSym(c)
    } else if c == ' ' || c == '\n' {
        State::Start
    } else if c == ';' {
        State::Comment(one(c))
    } else if c == '"' {
        State::StateStr(one(c), false)
    } else {
        State::Others(one(c))
    }
}

fn step(state: State, c: char, res: &mut Vec<String>) -> (next: State)
    ensures
        next@ == lex_step(state@, c).0,
        texts(final(res)@) == texts(old(res)@) + lex_step(state@, c).1,
{
    match state {
        State::Start => {
            assert(texts(res@) =~= texts(old(res)@) + Seq::<Seq<char>>::empty());
            open_state(c)
        },
        State::StateSym(p) => {
            if p == '~' && c == '@' {
                let mut t = one('~');
                t.push('@');
                assert(t@ =~= seq!['~', '@']);
                res.push(t);
                assert(texts(res@) =~= texts(old(res)@) + seq![seq!['~', '@']]);
                State::Start
            } else {
                res.push(one(p));
                assert(texts(res@) =~= texts(old(res)@) + seq![seq![p]]);
                open_state(c)
            }
        },
        State::Comment(s) => {
            if c == '\n' {
                res.push(s);
                assert(texts(res@) =~= texts(old(res)@) + seq![s@]);
                State::Start
            } else {
                let mut s = s;
                s.push(c);
                assert(texts(res@) =~= texts(old(res)@) + Seq::<Seq<char>>::empty());
                State::Comment(s)
            }
        },
        State::Others(s) => {
            if special(c) || c == ' ' || c == '\n' || c == ';' {
                res.push(s);
                assert(texts(res@) =~= texts(old(res)@) + seq![s@]);
                open_state(c)
            } else {
                let mut s = s;
                s.push(c);
                assert(texts(res@) =~= texts(old(res)@) + Seq::<Seq<char>>::empty());
                State::Others(s)
            }
        },
        State::StateStr(s, escaped) => {
            let mut s = s;
            s.push(c);
            if escaped {
                assert(texts(res@) =~= texts(old(res)@) + Seq::<Seq<char>>::empty());
                State::StateStr(s, false)
            } else if c == '\\' {
                assert(texts(res@) =~= texts(old(res)@) + Seq::<Seq<char>>::empty());
                State::StateStr(s, true)
            } else if c == '"' {
                res.push(s);
                assert(texts(res@) =~= texts(old(res)@) + seq![s@]);
                State::Start
            } else {
                assert(texts(res@) =~= texts(old(res)@) + Seq::<Seq<char>>::empty());
                State::StateStr(s, false)
            }
        },
    }
}

/// Splits a text into its tokens.
pub fn tokenize(str: &str) -> (res: Vec<String>)
    ensures
        texts(res@) == tokens_of(str@),
{
    let cs = to_chars(str);
    let mut res: Vec<String> = Vec::new();
    let mut state = State::Start;
    let mut i: usize = 0;
    proof {
        assert(cs@.subrange(0, cs.len() as int) == cs@);
        assert(texts(res@) =~= Seq::<Seq<char>>::empty());
        assert(texts(res@) + lex_run(state@, cs@) =~= tokens_of(str@));
    }
    while i < cs.len()
        invariant
            i <= cs.len(),
            cs@ == str@,
            texts(res@) + lex_run(state@, cs@.subrange(i as int, cs.len() as int)) == tokens_of(
                str@,
            ),
        decreases cs.len() - i,
    {
        let ghost before = texts(res@);
        let ghost st = state@;
        let ghost rest = cs@.subrange(i as int, cs.len() as int);
        state = step(state, cs[i], &mut res);
        proof {
            assert(rest[0] == cs@[i as int]);
            assert(rest.drop_first() == cs@.subrange(i + 1, cs.len() as int));
            assert(lex_run(st, rest) == lex_step(st, rest[0]).1 + lex_run(
                lex_step(st, rest[0]).0,
                rest.drop_first(),
            ));
            assert(texts(res@) + lex_run(state@, rest.drop_first()) =~= before + lex_run(
                st,
                rest,
            ));
        }
        i += 1;
    }
    proof {
        assert(cs@.subrange(i as int, cs.len() as int).len() == 0);
    }
    let ghost before = texts(res@);
    match state {
        State::Start => {
            assert(texts(res@) =~= before + Seq::<Seq<char>>::empty());
        },
        State::StateSym(p) => {
            res.push(one(p));
            assert(texts(res@) =~= before + seq![seq![p]]);
        },
        State::Comment(s) => {
            res.push(s);
            assert(texts(res@) =~= before + seq![s@]);
        },
        State::Others(s) => {
            res.push(s);
            assert(texts(res@) =~= before + seq![s@]);
        },
        State::StateStr(s, _) => {
            let mut s = s;
            s.push('"');
            res.push(s);
            assert(texts(res@) =~= before + seq![s@]);
        },
    }
    res
}

/// Whether a token is a comment.
pub open spec fn is_comment(t: Seq<char>) -> bool {
    t.len() > 0 && t[0] == ';'
}

/// The tokens without the comments among them.
pub open spec fn code_tokens(toks: Seq<Seq<char>>) -> Seq<Seq<char>>
    decreases toks.len(),
{
    if toks.len() == 0 {
        Seq::empty()
    } else if is_comment(toks.last()) {
        code_tokens(toks.drop_last())
    } else {
        code_tokens(toks.drop_last()).push(toks.last())
    }
}

/// The characters that stand after a backslash in an escape.
pub open spec fn is_escape(c: char) -> bool {
    c == '"' || c == 'n' || c == '\\'
}

/// The character that an escape stands for: a line feed for `n`, the
/// character itself for a quote and a backslash.
pub open spec fn escaped_char(c: char) -> char {
    if c == 'n' {
        '\n'
    } else {
        c
    }
}

/// The content of a string literal with its escapes undone: a backslash
/// before a quote, an `n` or a backslash stands with it for one character;
/// any other character, a backslash before anything else too, stands for
/// itself.
pub open spec fn unescape_text(s: Seq<char>) -> Seq<char>
    decreases s.len(),
{
    if s.len() == 0 {
        Seq::empty()
    } else if s[0] == '\\' && s.len() >= 2 && is_escape(s[1]) {
        seq![escaped_char(s[1])] + unescape_text(s.subrange(2, s.len() as int))
    } else {
        seq![s[0]] + unescape_text(s.drop_first())
    }
}

/// The value that an atom token stands for: one of the three literals, a
/// number, a string with its escapes undone, a keyword or, failing all of
/// these, a symbol.
pub open spec fn atom_value(t: Seq<char>) -> Result<Value, Fault> {
    if t == "nil"@ {
        Ok(Value::Nil)
    } else if t == "false"@ {
        Ok(Value::Bool(false))
    } else if t == "true"@ {
        Ok(Value::Bool(true))
    } else if t.len() > 0 && all_digits(t) {
        if dec_value(t) <= i64::MAX {
            Ok(Value::Int(dec_value(t) as i64))
        } else {
            fail("number out of range"@)
        }
    } else if t.len() >= 2 && t[0] == '"' && t.last() == '"' {
        Ok(Value::Str(unescape_text(t.subrange(1, t.len() - 1))))
    } else if t.len() > 0 && t[0] == ':' {
        Ok(Value::Str(seq![KEYWORD_MARK] + t.subrange(1, t.len() as int)))
    } else {
        Ok(Value::Sym(t))
    }
}

/// The two-element list that a reader macro makes of the form that follows
/// it.
pub open spec fn wrapped(name: Seq<char>, r: (Result<Value, Fault>, nat)) -> (
    Result<Value, Fault>,
    nat,
) {
    match r.0 {
        Ok(v) => (Ok(Value::List(seq![Value::Sym(name), v])), r.1),
        Err(f) => (Err(f), r.1),
    }
}

/// The value that the items of a sequence make up, by its closing token.
pub open spec fn seq_value(end: Seq<char>, r: (Result<Seq<Value>, Fault>, nat)) -> (
    Result<Value, Fault>,
    nat,
) {
    match r.0 {
        Ok(items) => if end == ")"@ {
            (Ok(Value::List(items)), r.1)
        } else if end == "]"@ {
            (Ok(Value::Vector(items)), r.1)
        } else {
            (assoc_value(Seq::empty(), items), r.1)
        },
        Err(f) => (Err(f), r.1),
    }
}

/// The message for a sequence that the input does not close.
pub open spec fn eof_message(end: Seq<char>) -> Seq<char> {
    "expected '"@ + end + "', got EOF"@
}

/// The form that starts at token `pos`, and the place of the token after it.
pub open spec fn read_form_at(toks: Seq<Seq<char>>, pos: nat) -> (Result<Value, Fault>, nat)
    decreases toks.len() - pos, 0nat,
{
    if pos >= toks.len() {
        (fail("underflow"@), pos)
    } else {
        let t = toks[pos as int];
        if t == "'"@ {
            wrapped("quote"@, read_form_at(toks, pos + 1))
        } else if t == "`"@ {
            wrapped("quasiquote"@, read_form_at(toks, pos + 1))
        } else if t == "~"@ {
            wrapped("unquote"@, read_form_at(toks, pos + 1))
        } else if t == "~@"@ {
            wrapped("splice-unquote"@, read_form_at(toks, pos + 1))
        } else if t == "^"@ {
            let m = read_form_at(toks, pos + 1);
            match m.0 {
                Ok(meta) => {
                    let r = read_form_at(
                        toks,
                        if pos + 1 < m.1 <= toks.len() {
                            m.1
                        } else {
                            toks.len()
                        },
                    );
                    match r.0 {
                        Ok(v) => (Ok(Value::List(seq![Value::Sym("with-meta"@), v, meta])), r.1),
                        Err(f) => (Err(f), r.1),
                    }
                },
                Err(f) => (Err(f), m.1),
            }
        } else if t == "@"@ {
            wrapped("deref"@, read_form_at(toks, pos + 1))
        } else if t == ")"@ {
            (fail("unexpected ')'"@), pos)
        } else if t == "("@ {
            seq_value(")"@, read_items_at(toks, pos + 1, ")"@))
        } else if t == "]"@ {
            (fail("unexpected ']'"@), pos)
        } else if t == "["@ {
            seq_value("]"@, read_items_at(toks, pos + 1, "]"@))
        } else if t == "}"@ {
            (fail("unexpected '}'"@), pos)
        } else if t == "{"@ {
            seq_value("}"@, read_items_at(toks, pos + 1, "}"@))
        } else {
            (atom_value(t), pos + 1)
        }
    }
}

/// The forms from token `pos` up to the closing token `end`, and the place
/// of the token after it.
pub open spec fn read_items_at(toks: Seq<Seq<char>>, pos: nat, end: Seq<char>) -> (
    Result<Seq<Value>, Fault>,
    nat,
)
    decreases toks.len() - pos, 1nat,
{
    if pos >= toks.len() {
        (Err(Fault::Msg(eof_message(end))), pos)
    } else if toks[pos as int] == end {
        (Ok(Seq::empty()), pos + 1)
    } else {
        let r = read_form_at(toks, pos);
        match r.0 {
            Ok(v) => {
                let rest = read_items_at(
                    toks,
                    if pos < r.1 <= toks.len() {
                        r.1
                    } else {
                        toks.len()
                    },
                    end,
                );
                match rest.0 {
                    Ok(items) => (Ok(seq![v] + items), rest.1),
                    Err(f) => (Err(f), rest.1),
                }
            },
            Err(f) => (Err(f), r.1),
        }
    }
}

/// What reading a text gives: the first form of its tokens, comments left
/// out, or the error that stopped the reader.
pub open spec fn read_text(s: Seq<char>) -> Result<Value, Fault> {
    let toks = code_tokens(tokens_of(s));
    if toks.len() == 0 {
        fail("no input"@)
    } else {
        read_form_at(toks, 0).0
    }
}

/// A cursor over a sequence of tokens.
#[derive(Debug)]
pub struct Reader {
    pub tokens: Vec<String>,
    pub pos: usize,
}

impl Reader {
    /// The token under the cursor, and moves the cursor past it.
    pub fn next(&mut self) -> (r: Result<String, MalErr>)
        ensures
            final(self).tokens == old(self).tokens,
            match r {
                Ok(t) => old(self).pos < old(self).tokens.len() && t@ == old(self).tokens[old(
                    self,
                ).pos as int]@ && final(self).pos == old(self).pos + 1,
                Err(e) => old(self).pos >= old(self).tokens.len() && e@ == Fault::Msg(
                    "underflow"@,
                ) && final(self).pos == old(self).pos,
            },
    {
        if self.pos < self.tokens.len() {
            let t = self.tokens[self.pos].clone();
            self.pos = self.pos + 1;
            Ok(t)
        } else {
            Err(MalErr::ErrString(String::from_str("underflow")))
        }
    }

    /// The token under the cursor.
    pub fn peek(&self) -> (r: Result<String, MalErr>)
        ensures
            match r {
                Ok(t) => self.pos < self.tokens.len() && t@ == self.tokens[self.pos as int]@,
                Err(e) => self.pos >= self.tokens.len() && e@ == Fault::Msg("underflow"@),
            },
    {
        if self.pos < self.tokens.len() {
            Ok(self.tokens[self.pos].clone())
        } else {
            Err(MalErr::ErrString(String::from_str("underflow")))
        }
    }
}

/// The string made of the characters of `cs` from `from` up to `to`.
fn slice_text(cs: &Vec<char>, from: usize, to: usize) -> (r: String)
    requires
        from <= to <= cs.len(),
    ensures
        r@ == cs@.subrange(from as int, to as int),
{
    let mut out = String::new();
    let mut i: usize = from;
    assert(out@ =~= cs@.subrange(from as int, from as int));
    while i < to
        invariant
            from <= i <= to,
            to <= cs.len(),
            out@ == cs@.subrange(from as int, i as int),
        decreases to - i,
    {
        out.push(cs[i]);
        i += 1;
        assert(cs@.subrange(from as int, i as int) == cs@.subrange(from as int, i - 1).push(
            cs@[i - 1],
        ));
    }
    out
}

/// The string made of the characters of `cs` from `from` up to `to`, with
/// the escapes among them undone.
fn unescape(cs: &Vec<char>, from: usize, to: usize) -> (r: String)
    requires
        from <= to <= cs.len(),
    ensures
        r@ == unescape_text(cs@.subrange(from as int, to as int)),
{
    let mut out = String::new();
    let mut i: usize = from;
    let ghost whole = unescape_text(cs@.subrange(from as int, to as int));
    assert(out@ + unescape_text(cs@.subrange(i as int, to as int)) =~= whole);
    while i < to
        invariant
            from <= i <= to,
            to <= cs.len(),
            whole == out@ + unescape_text(cs@.subrange(i as int, to as int)),
        decreases to - i,
    {
        let ghost rest = cs@.subrange(i as int, to as int);
        let ghost before = out@;
        assert(rest[0] == cs@[i as int]);
        if cs[i] == '\\' && i + 1 < to && (cs[i + 1] == '"' || cs[i + 1] == 'n' || cs[i + 1]
            == '\\') {
            assert(rest[1] == cs@[i + 1]);
            assert(rest.subrange(2, rest.len() as int) =~= cs@.subrange(i + 2, to as int));
            if cs[i + 1] == 'n' {
                out.push('\n');
            } else {
                out.push(cs[i + 1]);
            }
            i += 2;
            assert(before + (seq![escaped_char(rest[1])] + unescape_text(
                cs@.subrange(i as int, to as int),
            )) =~= out@ + unescape_text(cs@.subrange(i as int, to as int)));
        } else {
            assert(rest.drop_first() =~= cs@.subrange(i + 1, to as int));
            out.push(cs[i]);
            i += 1;
            assert(before + (seq![rest[0]] + unescape_text(cs@.subrange(i as int, to as int)))
                =~= out@ + unescape_text(cs@.subrange(i as int, to as int)));
        }
    }
    assert(cs@.subrange(to as int, to as int).len() == 0);
    assert(out@ + Seq::<char>::empty() =~= out@);
    out
}

/// Whether the reader's fields are as the contract of a read expects them:
/// the result of the read, and the cursor where it succeeded.
pub open spec fn read_as(
    before: Reader,
    after: Reader,
    r: MalRet,
    expected: (Result<Value, Fault>, nat),
) -> bool {
    &&& after.tokens == before.tokens
    &&& ret_view(r) == expected.0
    &&& r is Ok ==> after.pos == expected.1 && before.pos < after.pos <= before.tokens.len()
}

fn read_atom(rdr: &mut Reader) -> (r: MalRet)
    requires
        old(rdr).pos < old(rdr).tokens.len(),
    ensures
        read_as(
            *old(rdr),
            *final(rdr),
            r,
            (
                atom_value(texts(old(rdr).tokens@)[old(rdr).pos as int]),
                (old(rdr).pos + 1) as nat,
            ),
        ),
{
    let token = match rdr.next() {
        Ok(t) => t,
        Err(e) => {
            return Err(e);
        },
    };
    let t = token.as_str();
    if text_eq(t, "nil") {
        return Ok(MalVal::Nil);
    }
    if text_eq(t, "false") {
        return Ok(MalVal::Bool(false));
    }
    if text_eq(t, "true") {
        return Ok(MalVal::Bool(true));
    }
    let cs = to_chars(t);
    let n = cs.len();
    if n > 0 && is_numbers(t) {
        match parse_dec(&cs) {
            Some(i) => Ok(MalVal::Int(i)),
            None => error("number out of range"),
        }
    } else if n >= 2 && cs[0] == '"' && cs[n - 1] == '"' {
        Ok(MalVal::Str(unescape(&cs, 1, n - 1)))
    } else if n > 0 && cs[0] == ':' {
        let mut k = String::new();
        k.push(KEYWORD_MARK);
        let rest = slice_text(&cs, 1, n);
        k.append(rest.as_str());
        assert(k@ =~= seq![KEYWORD_MARK] + cs@.subrange(1, n as int));
        Ok(MalVal::Str(k))
    } else {
        Ok(MalVal::Sym(token))
    }
}

fn read_seq(rdr: &mut Reader, end: &str) -> (r: MalRet)
    requires
        old(rdr).pos < old(rdr).tokens.len(),
        end@ == ")"@ || end@ == "]"@ || end@ == "}"@,
    ensures
        read_as(
            *old(rdr),
            *final(rdr),
            r,
            seq_value(
                end@,
                read_items_at(texts(old(rdr).tokens@), (old(rdr).pos + 1) as nat, end@),
            ),
        ),
    decreases old(rdr).tokens.len() - old(rdr).pos, 2nat,
{
    let ghost toks = texts(rdr.tokens@);
    let ghost start = (rdr.pos + 1) as nat;
    let mut seq: Vec<MalVal> = Vec::new();
    match rdr.next() {
        Ok(_) => {},
        Err(e) => {
            return Err(e);
        },
    }
    proof {
        assert(views(seq@) =~= Seq::<Value>::empty());
        assert(prepend(views(seq@), read_items_at(toks, rdr.pos as nat, end@)) == read_items_at(
            toks,
            start,
            end@,
        )) by {
            let r = read_items_at(toks, rdr.pos as nat, end@);
            match r.0 {
                Ok(items) => {
                    assert(Seq::<Value>::empty() + items =~= items);
                },
                Err(_) => {},
            }
        }
    }
    loop
        invariant_except_break
            prepend(views(seq@), read_items_at(toks, rdr.pos as nat, end@)) == read_items_at(
                toks,
                start,
                end@,
            ),
        invariant
            rdr.tokens == old(rdr).tokens,
            toks == texts(rdr.tokens@),
            old(rdr).pos < rdr.pos <= rdr.tokens.len(),
            start == old(rdr).pos + 1,
            end@ == ")"@ || end@ == "]"@ || end@ == "}"@,
        ensures
            rdr.tokens == old(rdr).tokens,
            old(rdr).pos < rdr.pos <= rdr.tokens.len(),
            read_items_at(toks, start, end@) == (
                Ok::<Seq<Value>, Fault>(views(seq@)),
                rdr.pos as nat,
            ),
        decreases rdr.tokens.len() - rdr.pos,
    {
        let token = match rdr.peek() {
            Ok(t) => t,
            Err(_) => {
                let mut msg = String::from_str("expected '");
                msg.append(end);
                msg.append("', got EOF");
                return Err(MalErr::ErrString(msg));
            },
        };
        if text_eq(token.as_str(), end) {
            let _ = rdr.next();
            proof {
                assert(views(seq@) + Seq::<Value>::empty() =~= views(seq@));
            }
            break ;
        }
        let ghost p = rdr.pos as nat;
        let ghost acc = views(seq@);
        match read_form(rdr) {
            Ok(v) => {
                proof {
                    lemma_views_push(seq@, v);
                    let rest = read_items_at(toks, rdr.pos as nat, end@);
                    match rest.0 {
                        Ok(items) => {
                            assert(acc.push(v@) + items =~= acc + (seq![v@] + items));
                        },
                        Err(_) => {},
                    }
                }
                seq.push(v);
            },
            Err(e) => {
                return Err(e);
            },
        }
    }
    if text_eq(end, ")") {
        Ok(list(seq))
    } else if text_eq(end, "]") {
        Ok(vector(seq))
    } else {
        hash_map(seq)
    }
}

/// The items `acc` put before what a read of further items gives.
pub open spec fn prepend(acc: Seq<Value>, r: (Result<Seq<Value>, Fault>, nat)) -> (
    Result<Seq<Value>, Fault>,
    nat,
) {
    match r.0 {
        Ok(items) => (Ok(acc + items), r.1),
        Err(f) => (Err(f), r.1),
    }
}

fn read_macro(rdr: &mut Reader, name: &str) -> (r: MalRet)
    requires
        old(rdr).pos < old(rdr).tokens.len(),
    ensures
        read_as(
            *old(rdr),
            *final(rdr),
            r,
            wrapped(name@, read_form_at(texts(old(rdr).tokens@), (old(rdr).pos + 1) as nat)),
        ),
    decreases old(rdr).tokens.len() - old(rdr).pos, 2nat,
{
    let _ = rdr.next();
    match read_form(rdr) {
        Ok(v) => {
            let mut items: Vec<MalVal> = Vec::new();
            items.push(sym(name));
            items.push(v);
            proof {
                lemma_views(items@);
                assert(views(items@) =~= seq![Value::Sym(name@), v@]);
            }
            Ok(list(items))
        },
        Err(e) => Err(e),
    }
}

fn read_form(rdr: &mut Reader) -> (r: MalRet)
    ensures
        read_as(
            *old(rdr),
            *final(rdr),
            r,
            read_form_at(texts(old(rdr).tokens@), old(rdr).pos as nat),
        ),
    decreases old(rdr).tokens.len() - old(rdr).pos, 3nat,
{
    let token = match rdr.peek() {
        Ok(t) => t,
        Err(e) => {
            return Err(e);
        },
    };
    let t = token.as_str();
    if text_eq(t, "'") {
        read_macro(rdr, "quote")
    } else if text_eq(t, "`") {
        read_macro(rdr, "quasiquote")
    } else if text_eq(t, "~") {
        read_macro(rdr, "unquote")
    } else if text_eq(t, "~@") {
        read_macro(rdr, "splice-unquote")
    } else if text_eq(t, "^") {
        let _ = rdr.next();
        let meta = match read_form(rdr) {
            Ok(m) => m,
            Err(e) => {
                return Err(e);
            },
        };
        match read_form(rdr) {
            Ok(v) => {
                let mut items: Vec<MalVal> = Vec::new();
                items.push(sym("with-meta"));
                items.push(v);
                items.push(meta);
                proof {
                    lemma_views(items@);
                    assert(views(items@) =~= seq![Value::Sym("with-meta"@), v@, meta@]);
                }
                Ok(list(items))
            },
            Err(e) => Err(e),
        }
    } else if text_eq(t, "@") {
        read_macro(rdr, "deref")
    } else if text_eq(t, ")") {
        error("unexpected ')'")
    } else if text_eq(t, "(") {
        read_seq(rdr, ")")
    } else if text_eq(t, "]") {
        error("unexpected ']'")
    } else if text_eq(t, "[") {
        read_seq(rdr, "]")
    } else if text_eq(t, "}") {
        error("unexpected '}'")
    } else if text_eq(t, "{") {
        read_seq(rdr, "}")
    } else {
        read_atom(rdr)
    }
}

/// The tokens of `tokens` that are no comments.
fn drop_comments(tokens: Vec<String>) -> (r: Vec<String>)
    ensures
        texts(r@) == code_tokens(texts(tokens@)),
{
    let mut out: Vec<String> = Vec::new();
    let mut i: usize = 0;
    proof {
        assert(texts(tokens@).subrange(0, 0) =~= Seq::<Seq<char>>::empty());
        assert(texts(out@) =~= Seq::<Seq<char>>::empty());
    }
    while i < tokens.len()
        invariant
            i <= tokens.len(),
            texts(out@) == code_tokens(texts(tokens@).subrange(0, i as int)),
        decreases tokens.len() - i,
    {
        let cs = to_chars(tokens[i].as_str());
        proof {
            let p = texts(tokens@).subrange(0, i + 1);
            assert(p.drop_last() =~= texts(tokens@).subrange(0, i as int));
            assert(p.last() == tokens@[i as int]@);
        }
        if !(cs.len() > 0 && cs[0] == ';') {
            let ghost before = texts(out@);
            out.push(tokens[i].clone());
            assert(texts(out@) =~= before.push(tokens@[i as int]@));
        }
        i += 1;
    }
    assert(texts(tokens@).subrange(0, tokens.len() as int) =~= texts(tokens@));
    out
}

/// Reads the first form of a text.
pub fn read_str(str: String) -> (r: MalRet)
    ensures
        ret_view(r) == read_text(str@),
{
    let tokens = drop_comments(tokenize(str.as_str()));
    if tokens.len() == 0 {
        return error("no input");
    }
    let mut rdr = Reader { pos: 0, tokens: tokens };
    read_form(&mut rdr)
}

} // verus!
