use vstd::prelude::*;
use vstd::string::StringExecFns;
use crate::console::colored;
use crate::console::print_in_color;
use crate::text::from_chars;
use crate::text::text_eq;
use crate::text::to_chars;
use crate::stdio::get_char;
use crate::stdio::low_byte;
use crate::stdio::Stdin;

verus! {

/// The state of the command shell: its prompt, and the lines entered so far.
#[derive(Debug)]
pub struct Shell {
    pub prompt: String,
    pub history: Vec<Vec<u8>>,
}

/// The characters that `trim` takes off the ends of a line.
pub open spec fn is_white(c: char) -> bool {
    let u = c as u32;
    (9 <= u <= 13) || u == 0x20 || u == 0x85 || u == 0xA0 || u == 0x1680 || (0x2000 <= u
        <= 0x200A) || u == 0x2028 || u == 0x2029 || u == 0x202F || u == 0x205F || u == 0x3000
}

/// The line without the white space at its start.
pub open spec fn trim_start(s: Seq<char>) -> Seq<char>
    decreases s.len(),
{
    if s.len() > 0 && is_white(s[0]) {
        trim_start(s.drop_first())
    } else {
        s
    }
}

/// The line without the white space at its end.
pub open spec fn trim_end(s: Seq<char>) -> Seq<char>
    decreases s.len(),
{
    if s.len() > 0 && is_white(s.last()) {
        trim_end(s.drop_last())
    } else {
        s
    }
}

/// The characters before the first space.
pub open spec fn first_word(s: Seq<char>) -> Seq<char>
    decreases s.len(),
{
    if s.len() == 0 || s[0] == ' ' {
        Seq::empty()
    } else {
        seq![s[0]] + first_word(s.drop_first())
    }
}

/// The name of the command that a line asks for: the first word of the line
/// without the white space at its ends.
pub open spec fn command_name(line: Seq<char>) -> Seq<char> {
    first_word(trim_end(trim_start(line)))
}

/// The text that the shell shows for a line, and whether the shell goes on
/// after it. An empty line shows nothing.
pub open spec fn shell_reply(line: Seq<char>) -> (Seq<char>, bool) {
    let name = command_name(line);
    if line.len() == 0 {
        (Seq::empty(), true)
    } else if name == "hello"@ {
        (colored(93, "Hello World! I'm Kernel Program\n"@), true)
    } else if name == "Rust"@ {
        (colored(93, "Rust is freaking beautiful!\n"@), true)
    } else if name == "clear"@ {
        (Seq::empty(), true)
    } else if name == "ailice"@ {
        (colored(93, "\n            ░█▀▀█ ░▀░ █░░ ░▀░ █▀▀ █▀▀ ▒█▀▀▀█ ▒█▀▀▀█\n            ▒█▄▄█ ▀█▀ █░░ ▀█▀ █░░ █▀▀ ▒█░░▒█ ░▀▀▀▄▄\n            ▒█░▒█ ▀▀▀ ▀▀▀ ▀▀▀ ▀▀▀ ▀▀▀ ▒█▄▄▄█ ▒█▄▄▄█\n"@), true)
    } else if name == "moyan"@ {
        (colored(93, "Hi! moyan\n"@), true)
    } else if name == "exit"@ {
        (colored(93, "Boy, I will be leave, Goodbye!\n"@), false)
    } else if name == "thread_test"@ {
        (colored(93, "Start test thread ...\n"@), true)
    } else if name == "whoami"@ {
        (colored(93, "I'm BMO! You are Moyan!\n"@), true)
    } else {
        (colored(31, "Program not exist!\n"@), true)
    }
}

/// Whether a line asks the host to clear the screen.
pub open spec fn asks_clear(line: Seq<char>) -> bool {
    line.len() > 0 && command_name(line) == "clear"@
}

fn white(c: char) -> (r: bool)
    ensures
        r == is_white(c),
{
    let u = c as u32;
    (9 <= u && u <= 13) || u == 0x20 || u == 0x85 || u == 0xA0 || u == 0x1680 || (0x2000 <= u
        && u <= 0x200A) || u == 0x2028 || u == 0x2029 || u == 0x202F || u == 0x205F || u
        == 0x3000
}

/// The name of the command that a line asks for.
pub fn command(line: &str) -> (r: String)
    ensures
        r@ == command_name(line@),
{
    let cs = to_chars(line);
    let mut a: usize = 0;
    proof {
        assert(cs@.subrange(0, cs.len() as int) == cs@);
    }
    while a < cs.len() && white(cs[a])
        invariant
            a <= cs.len(),
            trim_start(cs@) == trim_start(cs@.subrange(a as int, cs.len() as int)),
        decreases cs.len() - a,
    {
        proof {
            let t = cs@.subrange(a as int, cs.len() as int);
            assert(t.drop_first() == cs@.subrange(a + 1, cs.len() as int));
        }
        a += 1;
    }
    let ghost started = cs@.subrange(a as int, cs.len() as int);
    assert(trim_start(cs@) == started);
    let mut b: usize = cs.len();
    while b > a && white(cs[b - 1])
        invariant
            a <= b <= cs.len(),
            started == cs@.subrange(a as int, cs.len() as int),
            trim_end(started) == trim_end(cs@.subrange(a as int, b as int)),
        decreases b,
    {
        proof {
            let t = cs@.subrange(a as int, b as int);
            assert(t.drop_last() == cs@.subrange(a as int, b - 1));
        }
        b -= 1;
    }
    let ghost trimmed = cs@.subrange(a as int, b as int);
    assert(trim_end(started) == trimmed);
    let mut out: Vec<char> = Vec::new();
    let mut i: usize = a;
    while i < b && cs[i] != ' '
        invariant
            a <= i <= b,
            b <= cs.len(),
            trimmed == cs@.subrange(a as int, b as int),
            first_word(trimmed) == out@ + first_word(cs@.subrange(i as int, b as int)),
        decreases b - i,
    {
        proof {
            let t = cs@.subrange(i as int, b as int);
            assert(t.drop_first() == cs@.subrange(i + 1, b as int));
            assert(out@.push(cs@[i as int]) + first_word(t.drop_first()) =~= out@ + (seq![t[0]]
                + first_word(t.drop_first())));
        }
        out.push(cs[i]);
        i += 1;
    }
    proof {
        let t = cs@.subrange(i as int, b as int);
        assert(first_word(t) == Seq::<char>::empty());
        assert(out@ + Seq::<char>::empty() =~= out@);
    }
    from_chars(&out)
}

/// The shell at its start: the prompt `moyan`, and no line entered yet.
pub fn init_shell() -> (r: Shell)
    ensures
        r.prompt@ == "moyan"@,
        r.history@ == Seq::<Vec<u8>>::empty(),
{
    Shell { prompt: String::from_str("moyan"), history: Vec::new() }
}

/// Writes the prompt of the shell.
pub fn put_prompt(sh: &Shell, out: &mut String)
    ensures
        final(out)@ == old(out)@ + colored(93, sh.prompt@ + " -:)# "@),
{
    let mut t = sh.prompt.clone();
    t.append(" -:)# ");
    print_in_color(out, 93, t.as_str());
}

/// Answers one line of the shell: writes what the command shows, and says
/// whether the shell goes on. The command `exit` ends the shell; clearing
/// the screen is left to the host, which `clears` tells of.
pub fn shell(line: &str, out: &mut String) -> (go_on: bool)
    ensures
        final(out)@ == old(out)@ + shell_reply(line@).0,
        go_on == shell_reply(line@).1,
{
    let cs = to_chars(line);
    if cs.len() == 0 {
        assert(out@ + Seq::<char>::empty() =~= out@);
        return true;
    }
    let name = command(line);
    let n = name.as_str();
    if text_eq(n, "hello") {
        print_in_color(out, 93, "Hello World! I'm Kernel Program\n");
        true
    } else if text_eq(n, "Rust") {
        print_in_color(out, 93, "Rust is freaking beautiful!\n");
        true
    } else if text_eq(n, "clear") {
        assert(out@ + Seq::<char>::empty() =~= out@);
        true
    } else if text_eq(n, "ailice") {
        print_in_color(out, 93, "\n            ░█▀▀█ ░▀░ █░░ ░▀░ █▀▀ █▀▀ ▒█▀▀▀█ ▒█▀▀▀█\n            ▒█▄▄█ ▀█▀ █░░ ▀█▀ █░░ █▀▀ ▒█░░▒█ ░▀▀▀▄▄\n            ▒█░▒█ ▀▀▀ ▀▀▀ ▀▀▀ ▀▀▀ ▀▀▀ ▒█▄▄▄█ ▒█▄▄▄█\n");
        true
    } else if text_eq(n, "moyan") {
        print_in_color(out, 93, "Hi! moyan\n");
        true
    } else if text_eq(n, "exit") {
        print_in_color(out, 93, "Boy, I will be leave, Goodbye!\n");
        false
    } else if text_eq(n, "thread_test") {
        print_in_color(out, 93, "Start test thread ...\n");
        true
    } else if text_eq(n, "whoami") {
        print_in_color(out, 93, "I'm BMO! You are Moyan!\n");
        true
    } else {
        print_in_color(out, 31, "Program not exist!\n");
        true
    }
}

/// Whether a line asks the host to clear the screen.
pub fn clears(line: &str) -> (r: bool)
    ensures
        r == asks_clear(line@),
{
    let cs = to_chars(line);
    if cs.len() == 0 {
        return false;
    }
    let name = command(line);
    text_eq(name.as_str(), "clear")
}

/// The bell: the answer to input that the editor cannot use.
pub const BEL: u8 = 0x07;

/// Backspace.
pub const BS: u8 = 0x08;

/// Line feed.
pub const LF: u8 = 0x0a;

/// Carriage return.
pub const CR: u8 = 0x0d;

/// Escape: the start of the sequences that the arrow keys send.
pub const ESC: u8 = 0x1b;

/// Delete.
pub const DEL: u8 = 0x7f;

/// How much of an escape sequence the line editor has read.
#[derive(Clone, Copy, PartialEq, Eq, Structural, Debug)]
pub enum Pending {
    /// No escape sequence is in progress.
    Nothing,
    /// The escape character was read.
    Escape,
    /// The escape character and the bracket after it were read.
    Bracket,
}

/// The state of the line editor between two bytes of input.
#[derive(Debug)]
pub struct LineEditor {
    /// The line as it stands.
    pub line: Vec<u8>,
    /// The place of the cursor in the line.
    pub cursor: usize,
    /// The place in the history of the line that was recalled last.
    pub history_index: usize,
    /// How much of an escape sequence was read.
    pub pending: Pending,
}

/// The mathematical form of the line editor's state.
pub struct Editing {
    pub line: Seq<u8>,
    pub cursor: usize,
    pub history_index: usize,
    pub pending: Pending,
}

impl View for LineEditor {
    type V = Editing;

    open spec fn view(&self) -> Editing {
        Editing {
            line: self.line@,
            cursor: self.cursor,
            history_index: self.history_index,
            pending: self.pending,
        }
    }
}

/// The lines of a history, as sequences of bytes.
pub open spec fn lines_of(h: Seq<Vec<u8>>) -> Seq<Seq<u8>> {
    Seq::new(h.len(), |i: int| h[i]@)
}

/// The sequence that moves the cursor one place to the left, `n` times.
pub open spec fn left(n: nat) -> Seq<u8>
    decreases n,
{
    if n == 0 {
        Seq::empty()
    } else {
        left((n - 1) as nat) + seq![ESC, 0x5bu8, 0x44u8]
    }
}

/// `n` blanks.
pub open spec fn blanks(n: nat) -> Seq<u8>
    decreases n,
{
    if n == 0 {
        Seq::empty()
    } else {
        blanks((n - 1) as nat).push(0x20u8)
    }
}

/// The bytes that are put into the line as they are: the printable
/// characters and the blank.
pub open spec fn is_graphic(b: u8) -> bool {
    0x20 <= b <= 0x7e
}

/// What the editor shows when the line in the history at `index` takes the
/// place of the line: the old line is wiped out and the new one written.
pub open spec fn recall(st: Editing, history: Seq<Seq<u8>>, index: usize) -> (Editing, Seq<u8>, bool) {
    if index < history.len() && history[index as int].len() <= usize::MAX {
        (
            Editing {
                line: history[index as int],
                cursor: history[index as int].len() as usize,
                history_index: index,
                pending: Pending::Nothing,
            },
            left(st.line.len()) + blanks(st.line.len()) + left(st.line.len())
                + history[index as int],
            false,
        )
    } else {
        (Editing { pending: Pending::Nothing, ..st }, seq![BEL], false)
    }
}

/// One step of the line editor: the state after a byte of input, what the
/// editor shows for it, and whether the line is complete.
pub open spec fn edit(st: Editing, history: Seq<Seq<u8>>, b: u8) -> (Editing, Seq<u8>, bool) {
    let n = st.line.len();
    match st.pending {
        Pending::Nothing => if b == BS || b == DEL {
            if st.cursor > 0 {
                let c = (st.cursor - 1) as usize;
                let line = st.line.remove(c as int);
                (
                    Editing { line: line, cursor: c, ..st },
                    seq![BS] + line.subrange(c as int, line.len() as int) + seq![0x20u8] + left(
                        (line.len() - c) as nat,
                    ) + left(1),
                    false,
                )
            } else {
                (st, seq![BEL], false)
            }
        } else if b == CR || b == LF {
            (st, seq![CR, LF], true)
        } else if b == ESC {
            (Editing { pending: Pending::Escape, ..st }, Seq::empty(), false)
        } else if is_graphic(b) && n < usize::MAX {
            let line = st.line.insert(st.cursor as int, b);
            let c = (st.cursor + 1) as usize;
            (
                Editing { line: line, cursor: c, ..st },
                line.subrange(st.cursor as int, line.len() as int) + left((line.len() - c) as nat),
                false,
            )
        } else {
            (st, seq![BEL], false)
        },
        Pending::Escape => if b == 0x5b {
            (Editing { pending: Pending::Bracket, ..st }, Seq::empty(), false)
        } else {
            (Editing { pending: Pending::Nothing, ..st }, seq![BEL], false)
        },
        Pending::Bracket => if b == 0x44 {
            if st.cursor > 0 {
                (
                    Editing {
                        cursor: (st.cursor - 1) as usize,
                        pending: Pending::Nothing,
                        ..st
                    },
                    seq![ESC, 0x5bu8, 0x44u8],
                    false,
                )
            } else {
                (Editing { pending: Pending::Nothing, ..st }, seq![BEL], false)
            }
        } else if b == 0x43 {
            if st.cursor < n {
                (
                    Editing {
                        cursor: (st.cursor + 1) as usize,
                        pending: Pending::Nothing,
                        ..st
                    },
                    seq![ESC, 0x5bu8, 0x43u8],
                    false,
                )
            } else {
                (Editing { pending: Pending::Nothing, ..st }, seq![BEL], false)
            }
        } else if b == 0x41 && st.history_index > 0 {
            recall(st, history, (st.history_index - 1) as usize)
        } else if b == 0x42 && history.len() > 0 && st.history_index < history.len() - 1 {
            recall(st, history, (st.history_index + 1) as usize)
        } else {
            (Editing { pending: Pending::Nothing, ..st }, seq![BEL], false)
        },
    }
}

/// The editor at the start of a line: an empty line, and the history at its
/// end.
pub open spec fn fresh_line(history_len: usize) -> Editing {
    Editing {
        line: Seq::empty(),
        cursor: 0,
        history_index: history_len,
        pending: Pending::Nothing,
    }
}

/// The text of a line of bytes: one character for each byte; a line that
/// holds a byte outside ASCII has no text.
pub open spec fn ascii_text(line: Seq<u8>) -> Seq<char> {
    if forall|i: int| 0 <= i < line.len() ==> (#[trigger] line[i]) < 128 {
        Seq::new(line.len(), |i: int| line[i] as char)
    } else {
        Seq::empty()
    }
}

/// The history after a line was entered: a line that is not empty comes
/// last.
pub open spec fn entered(history: Seq<Seq<u8>>, line: Seq<u8>) -> Seq<Seq<u8>> {
    if line.len() > 0 {
        history.push(line)
    } else {
        history
    }
}

/// What reading a line from the waiting input comes to: the editor takes
/// byte after byte until one completes the line or the input is used up.
pub struct LineRead {
    /// The state of the editor afterwards.
    pub state: Editing,
    /// The history afterwards.
    pub history: Seq<Seq<u8>>,
    /// The input that still waits.
    pub input: Seq<char>,
    /// What the editor showed.
    pub shown: Seq<u8>,
    /// The line, where one was completed.
    pub line: Option<Seq<char>>,
}

/// Reading a line from the waiting input.
pub open spec fn read_line(
    st: Editing,
    history: Seq<Seq<u8>>,
    input: Seq<char>,
    shown: Seq<u8>,
) -> LineRead
    decreases input.len(),
{
    if input.len() == 0 {
        LineRead { state: st, history: history, input: input, shown: shown, line: None }
    } else {
        let (st2, out, done) = edit(st, history, low_byte(input[0]));
        if done {
            let h2 = entered(history, st2.line);
            LineRead {
                state: fresh_line(h2.len() as usize),
                history: h2,
                input: input.drop_first(),
                shown: shown + out,
                line: Some(ascii_text(st2.line)),
            }
        } else {
            read_line(st2, history, input.drop_first(), shown + out)
        }
    }
}

fn put_left(out: &mut Vec<u8>, n: usize)
    ensures
        final(out)@ == old(out)@ + left(n as nat),
{
    let mut i: usize = 0;
    assert(out@ =~= old(out)@ + left(0));
    while i < n
        invariant
            i <= n,
            out@ == old(out)@ + left(i as nat),
        decreases n - i,
    {
        out.push(ESC);
        out.push(0x5b);
        out.push(0x44);
        i += 1;
        assert(out@ =~= old(out)@ + left(i as nat));
    }
}

fn put_blanks(out: &mut Vec<u8>, n: usize)
    ensures
        final(out)@ == old(out)@ + blanks(n as nat),
{
    let mut i: usize = 0;
    assert(out@ =~= old(out)@ + blanks(0));
    while i < n
        invariant
            i <= n,
            out@ == old(out)@ + blanks(i as nat),
        decreases n - i,
    {
        out.push(0x20);
        i += 1;
        assert(out@ =~= old(out)@ + blanks(i as nat));
    }
}

fn put_bytes(out: &mut Vec<u8>, v: &Vec<u8>, from: usize)
    requires
        from <= v.len(),
    ensures
        final(out)@ == old(out)@ + v@.subrange(from as int, v.len() as int),
{
    let mut i: usize = from;
    assert(out@ =~= old(out)@ + v@.subrange(from as int, from as int));
    while i < v.len()
        invariant
            from <= i <= v.len(),
            out@ == old(out)@ + v@.subrange(from as int, i as int),
        decreases v.len() - i,
    {
        out.push(v[i]);
        i += 1;
        assert(out@ =~= old(out)@ + v@.subrange(from as int, i as int));
    }
}

fn copy_bytes(v: &Vec<u8>) -> (r: Vec<u8>)
    ensures
        r@ == v@,
{
    let mut r: Vec<u8> = Vec::new();
    put_bytes(&mut r, v, 0);
    assert(v@.subrange(0, v.len() as int) == v@);
    assert(r@ =~= v@);
    r
}

impl LineEditor {
    /// Whether the cursor stands in the line or at its end.
    pub open spec fn wf(&self) -> bool {
        self.cursor <= self.line.len()
    }

    /// The editor at the start of a line.
    pub fn new(history_len: usize) -> (r: LineEditor)
        ensures
            r.wf(),
            r@ == fresh_line(history_len),
    {
        LineEditor {
            line: Vec::new(),
            cursor: 0,
            history_index: history_len,
            pending: Pending::Nothing,
        }
    }

    fn recall(&mut self, history: &Vec<Vec<u8>>, index: usize, out: &mut Vec<u8>)
        requires
            old(self).wf(),
        ensures
            final(self).wf(),
            (final(self)@, final(out)@, false) == (
                recall(old(self)@, lines_of(history@), index).0,
                old(out)@ + recall(old(self)@, lines_of(history@), index).1,
                false,
            ),
    {
        self.pending = Pending::Nothing;
        if index < history.len() {
            let n = self.line.len();
            put_left(out, n);
            put_blanks(out, n);
            put_left(out, n);
            self.line = copy_bytes(&history[index]);
            self.cursor = self.line.len();
            self.history_index = index;
            put_bytes(out, &self.line, 0);
            proof {
                assert(self.line@.subrange(0, self.line.len() as int) == self.line@);
                assert(out@ =~= old(out)@ + recall(old(self)@, lines_of(history@), index).1);
            }
        } else {
            out.push(BEL);
            assert(out@ =~= old(out)@ + seq![BEL]);
        }
    }

    /// Takes one byte of input: changes the line, writes what is to be shown
    /// to `out`, and says whether the line is complete.
    pub fn feed(&mut self, history: &Vec<Vec<u8>>, b: u8, out: &mut Vec<u8>) -> (done: bool)
        requires
            old(self).wf(),
        ensures
            final(self).wf(),
            final(self)@ == edit(old(self)@, lines_of(history@), b).0,
            final(out)@ == old(out)@ + edit(old(self)@, lines_of(history@), b).1,
            done == edit(old(self)@, lines_of(history@), b).2,
    {
        match self.pending {
            Pending::Nothing => {
                if b == BS || b == DEL {
                    if self.cursor > 0 {
                        self.cursor = self.cursor - 1;
                        let _ = self.line.remove(self.cursor);
                        out.push(BS);
                        put_bytes(out, &self.line, self.cursor);
                        out.push(0x20);
                        put_left(out, self.line.len() - self.cursor);
                        put_left(out, 1);
                        assert(out@ =~= old(out)@ + edit(old(self)@, lines_of(history@), b).1);
                    } else {
                        out.push(BEL);
                        assert(out@ =~= old(out)@ + seq![BEL]);
                    }
                    false
                } else if b == CR || b == LF {
                    out.push(CR);
                    out.push(LF);
                    assert(out@ =~= old(out)@ + seq![CR, LF]);
                    true
                } else if b == ESC {
                    self.pending = Pending::Escape;
                    assert(out@ =~= old(out)@ + Seq::<u8>::empty());
                    false
                } else if 0x20 <= b && b <= 0x7e && self.line.len() < usize::MAX {
                    let at = self.cursor;
                    self.line.insert(at, b);
                    put_bytes(out, &self.line, at);
                    self.cursor = at + 1;
                    put_left(out, self.line.len() - self.cursor);
                    assert(out@ =~= old(out)@ + edit(old(self)@, lines_of(history@), b).1);
                    false
                } else {
                    out.push(BEL);
                    assert(out@ =~= old(out)@ + seq![BEL]);
                    false
                }
            },
            Pending::Escape => {
                if b == 0x5b {
                    self.pending = Pending::Bracket;
                    assert(out@ =~= old(out)@ + Seq::<u8>::empty());
                } else {
                    self.pending = Pending::Nothing;
                    out.push(BEL);
                    assert(out@ =~= old(out)@ + seq![BEL]);
                }
                false
            },
            Pending::Bracket => {
                if b == 0x44 {
                    self.pending = Pending::Nothing;
                    if self.cursor > 0 {
                        self.cursor = self.cursor - 1;
                        out.push(ESC);
                        out.push(0x5b);
                        out.push(0x44);
                        assert(out@ =~= old(out)@ + seq![ESC, 0x5bu8, 0x44u8]);
                    } else {
                        out.push(BEL);
                        assert(out@ =~= old(out)@ + seq![BEL]);
                    }
                } else if b == 0x43 {
                    self.pending = Pending::Nothing;
                    if self.cursor < self.line.len() {
                        self.cursor = self.cursor + 1;
                        out.push(ESC);
                        out.push(0x5b);
                        out.push(0x43);
                        assert(out@ =~= old(out)@ + seq![ESC, 0x5bu8, 0x43u8]);
                    } else {
                        out.push(BEL);
                        assert(out@ =~= old(out)@ + seq![BEL]);
                    }
                } else if b == 0x41 && self.history_index > 0 {
                    let index = self.history_index - 1;
                    self.recall(history, index, out);
                } else if b == 0x42 && history.len() > 0 && self.history_index < history.len() - 1 {
                    let index = self.history_index + 1;
                    self.recall(history, index, out);
                } else {
                    self.pending = Pending::Nothing;
                    out.push(BEL);
                    assert(out@ =~= old(out)@ + seq![BEL]);
                }
                false
            },
        }
    }
}

/// The text of a line of bytes.
pub fn line_text(line: &Vec<u8>) -> (r: String)
    ensures
        r@ == ascii_text(line@),
{
    let mut out = String::new();
    let mut i: usize = 0;
    while i < line.len()
        invariant
            i <= line.len(),
            forall|j: int| 0 <= j < i ==> (#[trigger] line@[j]) < 128,
            out@ == Seq::new(i as nat, |j: int| line@[j] as char),
        decreases line.len() - i,
    {
        if line[i] >= 128 {
            return String::new();
        }
        out.push(line[i] as char);
        i += 1;
        assert(out@ =~= Seq::new(i as nat, |j: int| line@[j] as char));
    }
    assert(out@ =~= ascii_text(line@));
    out
}

/// Reads a line from the input that waits: the editor takes byte after byte
/// until one completes the line or the input is used up. What the editor
/// shows goes to `out`. A completed line is entered into the history, if it
/// is not empty, and given back as text; `None` says that the line is not
/// complete yet, and the editor keeps what it has for the next call.
pub fn get_line(
    ed: &mut LineEditor,
    history: &mut Vec<Vec<u8>>,
    input: &mut Stdin,
    out: &mut Vec<u8>,
) -> (r: Option<String>)
    requires
        old(ed).wf(),
    ensures
        final(ed).wf(),
        ({
            let want = read_line(old(ed)@, lines_of(old(history)@), old(input)@, old(out)@);
            &&& final(ed)@ == want.state
            &&& lines_of(final(history)@) == want.history
            &&& final(input)@ == want.input
            &&& final(out)@ == want.shown
            &&& match r {
                Some(t) => want.line == Some(t@),
                None => want.line is None,
            }
        }),
{
    let ghost want = read_line(ed@, lines_of(history@), input@, out@);
    loop
        invariant
            ed.wf(),
            history@ == old(history)@,
            want == read_line(old(ed)@, lines_of(old(history)@), old(input)@, old(out)@),
            want == read_line(ed@, lines_of(history@), input@, out@),
        decreases input@.len(),
    {
        let b = match get_char(input) {
            Some(b) => b,
            None => {
                return None;
            },
        };
        if ed.feed(history, b, out) {
            let text = line_text(&ed.line);
            let ghost before = lines_of(history@);
            if ed.line.len() > 0 {
                history.push(copy_bytes(&ed.line));
                assert(lines_of(history@) =~= before.push(ed.line@));
            }
            ed.line = Vec::new();
            ed.cursor = 0;
            ed.history_index = history.len();
            ed.pending = Pending::Nothing;
            return Some(text);
        }
    }
}

} // verus!
