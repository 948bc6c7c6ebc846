use vstd::prelude::*;
use vstd::string::StringExecFns;
use vstd::string::StrSliceExecFns;
use vstd::string::StringSliceAdditionalSpecFns;
use crate::interp::Interp;
use crate::interp::Machine;
use crate::table::put;
use crate::types::texts;
use crate::types::MalVal;
use crate::types::Value;

verus! {

/// What the host's file system lets the library see of one of its nodes:
/// the names of its entries, and its contents as bytes or as text. Each
/// answer is the host's own; an error is a code of the host.
pub trait INodeExt {
    /// The names of the entries of a directory.
    fn ls_as_vec(&self) -> Result<Vec<String>, usize>;

    /// The contents of a file.
    fn read_as_vec(&self) -> Result<Vec<u8>, usize>;

    /// The contents of a file, as text.
    fn read_as_string(&self) -> Result<String, usize>;
}

/// A node held in memory: a text, and the names of its entries.
#[derive(Debug)]
pub struct MemNode {
    pub text: String,
    pub names: Vec<String>,
}

fn copy_names(names: &Vec<String>) -> (r: Vec<String>)
    ensures
        texts(r@) == texts(names@),
{
    let mut out: Vec<String> = Vec::new();
    let mut i: usize = 0;
    while i < names.len()
        invariant
            i <= names.len(),
            out.len() == i,
            forall|j: int| 0 <= j < i ==> (#[trigger] out[j])@ == names[j]@,
        decreases names.len() - i,
    {
        out.push(names[i].clone());
        i += 1;
    }
    assert(texts(out@) =~= texts(names@));
    out
}

impl INodeExt for MemNode {
    fn ls_as_vec(&self) -> (r: Result<Vec<String>, usize>)
        ensures
            r is Ok,
            texts(r->Ok_0@) == texts(self.names@),
    {
        Ok(copy_names(&self.names))
    }

    fn read_as_vec(&self) -> (r: Result<Vec<u8>, usize>)
        ensures
            r is Ok,
            r->Ok_0@ == vstd::utf8::encode_utf8(self.text@),
    {
        Ok(self.text.as_str().as_bytes_vec())
    }

    fn read_as_string(&self) -> (r: Result<String, usize>)
        ensures
            r is Ok,
            r->Ok_0@ == self.text@,
    {
        Ok(self.text.clone())
    }
}

/// The strings that stand for a sequence of names.
pub open spec fn name_values(names: Seq<Seq<char>>) -> Seq<Value> {
    Seq::new(names.len(), |i: int| Value::Str(names[i]))
}

/// The files after a node was put under a path: a node that gave a text is
/// a file, one that gave no text but names is a directory, and one that gave
/// neither leaves the files as they are.
pub open spec fn mounted(
    m: Machine,
    path: Seq<char>,
    text: Option<Seq<char>>,
    names: Option<Seq<Seq<char>>>,
) -> Machine {
    match text {
        Some(t) => Machine { files: put(m.files, path, Value::Str(t)), ..m },
        None => match names {
            Some(n) => Machine { files: put(m.files, path, Value::List(name_values(n))), ..m },
            None => m,
        },
    }
}

/// What the host's answer for a text denotes.
pub open spec fn text_answer(r: Result<String, usize>) -> Option<Seq<char>> {
    match r {
        Ok(t) => Some(t@),
        Err(_) => None,
    }
}

/// What the host's answer for names denotes.
pub open spec fn names_answer(r: Result<Vec<String>, usize>) -> Option<Seq<Seq<char>>> {
    match r {
        Ok(n) => Some(texts(n@)),
        Err(_) => None,
    }
}

impl Interp {
    /// Puts under `path` what the host answered for a node: its text, or
    /// else the names of its entries.
    pub fn mount_answers(
        &mut self,
        path: &str,
        text: Result<String, usize>,
        names: Result<Vec<String>, usize>,
    )
        ensures
            final(self)@ == mounted(old(self)@, path@, text_answer(text), names_answer(names)),
    {
        match text {
            Ok(t) => {
                self.add_file(path, t.as_str());
            },
            Err(_) => match names {
                Ok(n) => {
                    let mut vals: Vec<MalVal> = Vec::new();
                    let mut i: usize = 0;
                    while i < n.len()
                        invariant
                            i <= n.len(),
                            vals.len() == i,
                            forall|j: int| 0 <= j < i ==> (#[trigger] vals[j])@ == Value::Str(n[j]@),
                        decreases n.len() - i,
                    {
                        vals.push(MalVal::Str(n[i].clone()));
                        i += 1;
                    }
                    proof {
                        crate::types::lemma_views(vals@);
                        assert(crate::types::views(vals@) =~= name_values(texts(n@)));
                    }
                    self.add_dir(path, vals);
                },
                Err(_) => {},
            },
        }
    }

    /// Puts a node of the host's file system under `path`: asks the node for
    /// its text and for the names of its entries, and keeps what it answers
    /// as `mount_answers` says.
    pub fn mount<N: INodeExt>(&mut self, path: &str, node: &N)
        ensures
            exists|text: Option<Seq<char>>, names: Option<Seq<Seq<char>>>|
                final(self)@ == mounted(old(self)@, path@, text, names),
    {
        let text = node.read_as_string();
        let names = node.ls_as_vec();
        self.mount_answers(path, text, names);
        assert(self@ == mounted(old(self)@, path@, text_answer(text), names_answer(names)));
    }
}

} // verus!
