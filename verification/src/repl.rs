use vstd::prelude::*;
use vstd::string::StringExecFns;
use crate::console::colored;
use crate::console::print;
use crate::console::print_in_color;
use crate::eval::repl;
use crate::eval::repl_text;
use crate::interp::Interp;
use crate::interp::Machine;
use crate::stdio::Stdin;
use crate::types::Env;

verus! {

/// A key, as the keyboard decoder hands it to the read-eval-print loop.
#[derive(Debug)]
pub enum Key {
    /// A key that stands for a character.
    Unicode(char),
    Backspace,
    Delete,
    ControlLeft,
    ControlRight,
    Enter,
    /// Any other key, by its name.
    Other(String),
}

/// The mathematical form of a key.
pub enum KeyView {
    Unicode(char),
    Backspace,
    Delete,
    ControlLeft,
    ControlRight,
    Enter,
    Other(Seq<char>),
}

impl View for Key {
    type V = KeyView;

    open spec fn view(&self) -> KeyView {
        match self {
            Key::Unicode(c) => KeyView::Unicode(*c),
            Key::Backspace => KeyView::Backspace,
            Key::Delete => KeyView::Delete,
            Key::ControlLeft => KeyView::ControlLeft,
            Key::ControlRight => KeyView::ControlRight,
            Key::Enter => KeyView::Enter,
            Key::Other(name) => KeyView::Other(name@),
        }
    }
}

/// A line of information as the console shows it: marked, coloured, and
/// ended by a newline.
pub open spec fn info_line(text: Seq<char>) -> Seq<char> {
    colored(36, "[Info] "@ + text + seq!['\n'])
}

/// The state of the read-eval-print loop between two keys: the interpreter,
/// the line typed so far, and whether a control key was pressed.
pub struct Session {
    pub machine: Machine,
    pub typed: Seq<char>,
    pub control: bool,
}

/// What the loop does when a line is entered: it shows the line, evaluates
/// it, shows the value or the error, and asks for the next line with an
/// empty buffer.
pub open spec fn enter(s: Session, env: Env) -> Session {
    let announced = Machine {
        out: s.machine.out + info_line("runing: "@ + s.typed),
        ..s.machine
    };
    let (m1, shown) = repl_text(announced, s.typed, env);
    Session {
        machine: Machine {
            out: m1.out + info_line("OUT:"@ + shown) + seq!['\n'] + "IN:"@,
            ..m1
        },
        typed: Seq::empty(),
        control: s.control,
    }
}

/// What the loop does when a character is typed: it takes the character
/// into the line and shows it.
pub open spec fn typed_char(s: Session, c: char) -> Session {
    Session {
        machine: Machine { out: s.machine.out.push(c), ..s.machine },
        typed: s.typed.push(c),
        control: s.control,
    }
}

/// One turn of the read-eval-print loop on a key. A character goes into
/// the line, but `c` after a control key drops the line; a newline or the
/// enter key evaluates the line; backspace and delete drop the character at
/// the front of the line; a control key is remembered; any other key is
/// shown by its name.
pub open spec fn on_key(s: Session, env: Env, key: KeyView) -> Session {
    match key {
        KeyView::Unicode(c) => if c == 'c' && s.control {
            Session {
                machine: Machine { out: s.machine.out.push('\n'), ..s.machine },
                typed: Seq::empty(),
                control: false,
            }
        } else if c == '\n' {
            enter(s, env)
        } else {
            typed_char(s, c)
        },
        KeyView::Backspace => Session {
            typed: if s.typed.len() > 0 {
                s.typed.drop_first()
            } else {
                s.typed
            },
            ..s
        },
        KeyView::Delete => Session {
            typed: if s.typed.len() > 0 {
                s.typed.drop_first()
            } else {
                s.typed
            },
            ..s
        },
        KeyView::ControlLeft => Session { control: true, ..s },
        KeyView::ControlRight => Session { control: true, ..s },
        KeyView::Enter => enter(s, env),
        KeyView::Other(name) => Session {
            machine: Machine { out: s.machine.out + name, ..s.machine },
            ..s
        },
    }
}

/// Writes a line of information.
pub fn put_info(out: &mut String, text: &str)
    ensures
        final(out)@ == old(out)@ + info_line(text@),
{
    let mut line = String::from_str("[Info] ");
    line.append(text);
    line.push('\n');
    print_in_color(out, 36, line.as_str());
}

fn run_line(ctx: &mut Interp, env: Env, stdin: &mut Stdin)
    ensures
        final(stdin)@ == Seq::<char>::empty(),
        final(ctx)@ == enter(
            Session { machine: old(ctx)@, typed: old(stdin)@, control: false },
            env,
        ).machine,
{
    let line = stdin.to_string();
    let mut running = String::from_str("runing: ");
    running.append(line.as_str());
    put_info(&mut ctx.out, running.as_str());
    let shown = repl(ctx, line.as_str(), env);
    let mut answer = String::from_str("OUT:");
    answer.append(shown.as_str());
    put_info(&mut ctx.out, answer.as_str());
    stdin.clear();
    print(&mut ctx.out, "\n");
    print(&mut ctx.out, "IN:");
    proof {
        reveal_strlit("\n");
        assert("\n"@ =~= seq!['\n']);
    }
}

/// One turn of the read-eval-print loop: takes a key, changes the line
/// typed so far, evaluates it where the key asks for that, and writes what
/// is to be shown to the interpreter's output.
pub fn mal_repl(ctx: &mut Interp, env: Env, stdin: &mut Stdin, down_control: &mut bool, key: &Key)
    ensures
        (Session { machine: final(ctx)@, typed: final(stdin)@, control: *final(down_control) })
            == on_key(
            Session { machine: old(ctx)@, typed: old(stdin)@, control: *old(down_control) },
            env,
            key@,
        ),
{
    match key {
        Key::Unicode(c) => {
            if *c == 'c' && *down_control {
                stdin.clear();
                ctx.out.push('\n');
                *down_control = false;
            } else if *c == '\n' {
                run_line(ctx, env, stdin);
            } else {
                stdin.push(*c);
                ctx.out.push(*c);
            }
        },
        Key::Backspace => {
            let _ = stdin.back_spacse();
        },
        Key::Delete => {
            let _ = stdin.back_spacse();
        },
        Key::ControlLeft => {
            *down_control = true;
        },
        Key::ControlRight => {
            *down_control = true;
        },
        Key::Enter => {
            run_line(ctx, env, stdin);
        },
        Key::Other(name) => {
            print(&mut ctx.out, name.as_str());
        },
    }
}

/// The banner of the read-eval-print loop.
pub open spec fn banner() -> Seq<char> {
    info_line("\n         **   **     **   ****     **   ********   *******  \n        /**  /**    /**  /**/**   /**  /**/////   /**////** \n        /**  /**    /**  /**//**  /**  /**        /**   /** \n        /**  /**    /**  /** //** /**  /*******   /*******  \n        /**  /**    /**  /**  //**/**  /**////    /**///**  \n    **  /**  /**    /**  /**   //****  /**        /**  //** \n   //*****   //*******   /**    //***  /********  /**   //**\n    /////     ///////    //      ///   ////////   //     // \n      *******    ********\n     **/////**  **////// \n    **     //**/**       \n   /**      /**/*********\n   /**      /**////////**\n   //**     **        /**                                    version: V0.0.1\n    //*******   ********                                     since @ 2019\n     ///////   ////////                                      made by zhouzihao "@) + info_line(
        "Weclome to my page:https://github.com/zzhgithub/juner_os"@,
    ) + info_line("since:2019"@) + info_line("you can use MAL a small lisp!"@) + seq!['\n']
        + seq!['\n', '\n', '\n', '\n']
}

/// Writes the banner of the read-eval-print loop.
pub fn head(out: &mut String)
    ensures
        final(out)@ == old(out)@ + banner(),
{
    put_info(out, "\n         **   **     **   ****     **   ********   *******  \n        /**  /**    /**  /**/**   /**  /**/////   /**////** \n        /**  /**    /**  /**//**  /**  /**        /**   /** \n        /**  /**    /**  /** //** /**  /*******   /*******  \n        /**  /**    /**  /**  //**/**  /**////    /**///**  \n    **  /**  /**    /**  /**   //****  /**        /**  //** \n   //*****   //*******   /**    //***  /********  /**   //**\n    /////     ///////    //      ///   ////////   //     // \n      *******    ********\n     **/////**  **////// \n    **     //**/**       \n   /**      /**/*********\n   /**      /**////////**\n   //**     **        /**                                    version: V0.0.1\n    //*******   ********                                     since @ 2019\n     ///////   ////////                                      made by zhouzihao ");
    put_info(out, "Weclome to my page:https://github.com/zzhgithub/juner_os");
    put_info(out, "since:2019");
    put_info(out, "you can use MAL a small lisp!");
    print(out, "\n");
    let mut i: usize = 0;
    let ghost start = out@;
    assert(out@ =~= start + Seq::<char>::empty());
    while i < 4
        invariant
            i <= 4,
            out@ == start + Seq::new(i as nat, |j: int| '\n'),
        decreases 4 - i,
    {
        print(out, "\n");
        i = i + 1;
        proof {
            reveal_strlit("\n");
            assert("\n"@ =~= seq!['\n']);
            assert(out@ =~= start + Seq::new(i as nat, |j: int| '\n'));
        }
    }
    proof {
        reveal_strlit("\n");
        assert("\n"@ =~= seq!['\n']);
        assert(Seq::new(4, |j: int| '\n') =~= seq!['\n', '\n', '\n', '\n']);
        assert(out@ =~= old(out)@ + banner());
    }
}

} // verus!
