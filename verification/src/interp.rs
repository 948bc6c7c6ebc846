use vstd::prelude::*;
use vstd::string::StringExecFns;
use crate::table::put;
use crate::table::Table;
use crate::types::Env;
use crate::types::MalVal;
use crate::types::Value;
use crate::types::views;

verus! {

/// One frame of the environment chain: its own bindings, and the frame
/// around it.
#[derive(Debug)]
pub struct EnvSturct {
    pub data: Table,
    pub outer: Option<Env>,
}

/// The mathematical form of a frame.
pub struct Frame {
    pub data: Seq<(Seq<char>, Value)>,
    pub outer: Option<Env>,
}

impl View for EnvSturct {
    type V = Frame;

    open spec fn view(&self) -> Frame {
        Frame { data: self.data@, outer: self.outer }
    }
}

/// The frames that a sequence of runtime frames denotes, one for one.
pub open spec fn frames(s: Seq<EnvSturct>) -> Seq<Frame> {
    Seq::new(s.len(), |i: int| s[i]@)
}

/// The mathematical state of an interpreter.
pub struct Machine {
    /// The frames made so far; an `Env` is a place in this sequence.
    pub envs: Seq<Frame>,
    /// The reference cells made so far; an atom is a place in this sequence.
    pub atoms: Seq<Value>,
    /// The text printed and not yet taken by the host.
    pub out: Seq<char>,
    /// What the host lets the language see of its files: a file's text or a
    /// directory's list of names, by path.
    pub files: Seq<(Seq<char>, Value)>,
    /// How deep evaluations may nest.
    pub max_depth: usize,
    /// How many steps one evaluation may take at each level of nesting.
    pub max_steps: usize,
}

/// How deep evaluations may nest where the host sets no other limit.
pub const DEFAULT_MAX_DEPTH: usize = 1000;

/// How many steps one evaluation may take at each level of nesting where
/// the host sets no other limit.
pub const DEFAULT_MAX_STEPS: usize = 10_000_000;

/// The state of an interpreter: the frames and reference cells that values
/// point into, the output that waits for the host, the host's files, and the
/// limits of one evaluation.
#[derive(Debug)]
pub struct Interp {
    pub envs: Vec<EnvSturct>,
    pub atoms: Vec<MalVal>,
    pub out: String,
    pub files: Table,
    /// How deep evaluations may nest.
    pub max_depth: usize,
    /// How many steps one evaluation may take at each level of nesting.
    pub max_steps: usize,
}

impl View for Interp {
    type V = Machine;

    open spec fn view(&self) -> Machine {
        Machine {
            envs: frames(self.envs@),
            atoms: views(self.atoms@),
            out: self.out@,
            files: self.files@,
            max_depth: self.max_depth,
            max_steps: self.max_steps,
        }
    }
}

impl Interp {
    /// An interpreter without frames, cells, output or files.
    pub fn new(max_depth: usize, max_steps: usize) -> (r: Interp)
        ensures
            r@ == (Machine {
                envs: Seq::empty(),
                atoms: Seq::empty(),
                out: Seq::empty(),
                files: Seq::empty(),
                max_depth: max_depth,
                max_steps: max_steps,
            }),
    {
        let r = Interp {
            envs: Vec::new(),
            atoms: Vec::new(),
            out: String::new(),
            files: Table::new(),
            max_depth,
            max_steps,
        };
        assert(frames(r.envs@) =~= Seq::empty());
        assert(views(r.atoms@) =~= Seq::empty());
        r
    }
}

impl Interp {
    /// Lets the language read a file: `read-file` of the path gives the text.
    pub fn add_file(&mut self, path: &str, text: &str)
        ensures
            final(self)@ == (Machine {
                files: put(old(self)@.files, path@, Value::Str(text@)),
                ..old(self)@
            }),
    {
        self.files.insert(String::from_str(path), MalVal::Str(String::from_str(text)));
    }

    /// Lets the language list a directory: `ls` of the path gives the names,
    /// and `ls` without a path gives those of the path `/`.
    pub fn add_dir(&mut self, path: &str, names: Vec<MalVal>)
        ensures
            final(self)@ == (Machine {
                files: put(old(self)@.files, path@, Value::List(views(names@))),
                ..old(self)@
            }),
    {
        self.files.insert(String::from_str(path), crate::types::list(names));
    }

    /// Forgets the files that the host has handed over.
    pub fn clear_files(&mut self)
        ensures
            final(self)@ == (Machine { files: Seq::empty(), ..old(self)@ }),
    {
        self.files = Table::new();
    }

    /// Hands the printed text to the host, and starts the output anew.
    pub fn take_output(&mut self) -> (r: String)
        ensures
            r@ == old(self)@.out,
            final(self)@ == (Machine { out: Seq::empty(), ..old(self)@ }),
    {
        let mut t = String::new();
        std::mem::swap(&mut self.out, &mut t);
        t
    }
}

} // verus!
