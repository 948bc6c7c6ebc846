use vstd::prelude::*;
use std::collections::VecDeque;

verus! {

/// The input that waits for the interpreter: a queue of characters.
#[derive(Debug)]
pub struct Stdin {
    pub buf: VecDeque<char>,
}

impl View for Stdin {
    type V = Seq<char>;

    open spec fn view(&self) -> Seq<char> {
        self.buf@
    }
}

impl Stdin {
    /// An empty queue.
    pub fn new() -> (r: Stdin)
        ensures
            r@ == Seq::<char>::empty(),
    {
        Stdin { buf: VecDeque::new() }
    }

    /// Puts a character at the end of the queue.
    pub fn push(&mut self, c: char)
        ensures
            final(self)@ == old(self)@.push(c),
    {
        self.buf.push_back(c);
    }

    /// Takes the character at the front of the queue; `None` where the queue
    /// is empty.
    pub fn pop(&mut self) -> (r: Option<char>)
        ensures
            old(self)@.len() == 0 ==> r is None && final(self)@ == old(self)@,
            old(self)@.len() > 0 ==> r == Some(old(self)@[0]) && final(self)@ == old(
                self,
            )@.drop_first(),
    {
        self.buf.pop_front()
    }

    /// The characters that wait, as a string.
    pub fn to_string(&self) -> (r: String)
        ensures
            r@ == self@,
    {
        let mut out = String::new();
        let n = self.buf.len();
        let mut i: usize = 0;
        while i < n
            invariant
                i <= n,
                n == self@.len(),
                out@ == self@.subrange(0, i as int),
            decreases n - i,
        {
            out.push(self.buf[i]);
            i += 1;
            assert(self@.subrange(0, i as int) == self@.subrange(0, i - 1).push(self@[i - 1]));
        }
        assert(self@.subrange(0, n as int) == self@);
        out
    }

    /// Empties the queue.
    pub fn clear(&mut self)
        ensures
            final(self)@ == Seq::<char>::empty(),
    {
        self.buf.clear();
    }

    /// Drops the character at the front of the queue, and says how many are
    /// left; an empty queue stays empty.
    pub fn back_spacse(&mut self) -> (r: usize)
        ensures
            old(self)@.len() == 0 ==> r == 0 && final(self)@ == old(self)@,
            old(self)@.len() > 0 ==> r == old(self)@.len() - 1 && final(self)@ == old(
                self,
            )@.drop_first(),
    {
        match self.buf.pop_front() {
            Some(_) => self.buf.len(),
            None => 0,
        }
    }
}

/// The low byte of a character's code.
pub open spec fn low_byte(c: char) -> u8 {
    (c as u32 & 0xff) as u8
}

/// Takes the next character of the input as a byte; `None` where no input
/// waits.
pub fn get_char(stdin: &mut Stdin) -> (r: Option<u8>)
    ensures
        old(stdin)@.len() == 0 ==> r is None && final(stdin)@ == old(stdin)@,
        old(stdin)@.len() > 0 ==> r == Some(low_byte(old(stdin)@[0])) && final(stdin)@ == old(
            stdin,
        )@.drop_first(),
{
    match stdin.pop() {
        Some(c) => Some((c as u32 & 0xff) as u8),
        None => None,
    }
}

} // verus!
