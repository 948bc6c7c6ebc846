use vstd::prelude::*;

pub mod text;
pub mod types;
pub mod table;
pub mod interp;
pub mod printer;
pub mod reader;
pub mod env;
pub mod console;
pub mod equal;
pub mod builtins;
pub mod eval;
pub mod corelib;
pub mod stdio;
pub mod keyboard;
pub mod gpu;
pub mod shell;
pub mod repl;
pub mod fs;
pub mod laws;
pub mod roundtrip;
