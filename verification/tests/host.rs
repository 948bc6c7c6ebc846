use juner_os::console::{print, print_in_color};
use juner_os::fs::{INodeExt, MemNode};
use juner_os::gpu::Framebuffer;
use juner_os::interp::Interp;
use juner_os::keyboard::ScancodeStream;
use juner_os::shell::{clears, command, get_line, init_shell, line_text, put_prompt, shell, LineEditor, Pending};
use juner_os::stdio::{get_char, Stdin};

#[test]
fn print_appends_text() {
    let mut out = String::from("a");
    print(&mut out, "bc");
    print(&mut out, "");
    assert_eq!(out, "abc");
}

#[test]
fn print_in_color_wraps_text() {
    let mut out = String::new();
    print_in_color(&mut out, 93, "hi");
    assert_eq!(out, "\u{1b}[93mhi\u{1b}[0m");
    print_in_color(&mut out, 0, "");
    assert_eq!(out, "\u{1b}[93mhi\u{1b}[0m\u{1b}[0m\u{1b}[0m");
    let mut out = String::new();
    print_in_color(&mut out, 255, "x");
    assert_eq!(out, "\u{1b}[255mx\u{1b}[0m");
}

#[test]
fn stdin_is_a_queue() {
    let mut input = Stdin::new();
    assert_eq!(input.pop(), None);
    assert_eq!(get_char(&mut input), None);
    input.push('a');
    input.push('b');
    input.push('c');
    assert_eq!(input.to_string(), "abc");
    assert_eq!(input.pop(), Some('a'));
    assert_eq!(get_char(&mut input), Some(b'b'));
    assert_eq!(input.to_string(), "c");
    input.push('d');
    assert_eq!(input.back_spacse(), 1);
    assert_eq!(input.to_string(), "d");
    assert_eq!(input.back_spacse(), 0);
    assert_eq!(input.back_spacse(), 0);
    input.push('x');
    input.clear();
    assert_eq!(input.to_string(), "");
}

#[test]
fn get_char_keeps_the_low_byte() {
    let mut input = Stdin::new();
    input.push('\u{141}');
    input.push('\u{ff}');
    input.push('\u{1f600}');
    assert_eq!(get_char(&mut input), Some(0x41));
    assert_eq!(get_char(&mut input), Some(0xff));
    assert_eq!(get_char(&mut input), Some(0x00));
}

#[test]
fn scancodes_queue_up_to_the_limit() {
    let mut stream = ScancodeStream::new();
    assert_eq!(stream.poll_next(), None);
    for i in 0..100u8 {
        assert!(stream.add_scancode(i));
    }
    assert!(!stream.add_scancode(200));
    assert_eq!(stream.poll_next(), Some(0));
    assert_eq!(stream.poll_next(), Some(1));
    assert!(stream.add_scancode(201));
    for i in 2..100u8 {
        assert_eq!(stream.poll_next(), Some(i));
    }
    assert_eq!(stream.poll_next(), Some(201));
    assert_eq!(stream.poll_next(), None);
}

#[test]
fn frame_buffer_draws_pixels() {
    let mut fb = Framebuffer::new(4, 3).unwrap();
    assert_eq!(fb.size(), (4, 3));
    assert_eq!(fb.buf, vec![0u32; 12]);
    assert!(fb.draw_pixel(1, 2, 0xff00ff));
    assert_eq!(fb.buf[9], 0xff00ff);
    assert!(fb.draw_pixel(0, 0, 7));
    assert_eq!(fb.buf[0], 7);
    assert!(fb.draw_pixel(3, 2, 8));
    assert_eq!(fb.buf[11], 8);
    assert!(!fb.draw_pixel(0, 3, 9));
    assert!(!fb.draw_pixel(4, 2, 9));
    assert!(fb.draw_pixel(5, 0, 9));
    assert_eq!(fb.buf[5], 9);
    assert!(!fb.draw_pixel(usize::MAX, usize::MAX, 9));
    assert_eq!(fb.buf.iter().filter(|p| **p != 0).count(), 4);
    assert!(Framebuffer::new(usize::MAX, 2).is_none());
    assert_eq!(Framebuffer::new(0, 5).unwrap().buf.len(), 0);
}

#[test]
fn shell_answers_commands() {
    let sh = init_shell();
    assert_eq!(sh.prompt, "moyan");
    assert!(sh.history.is_empty());
    let mut out = String::new();
    put_prompt(&sh, &mut out);
    assert_eq!(out, "\u{1b}[93mmoyan -:)# \u{1b}[0m");
    let reply = |line: &str| {
        let mut out = String::new();
        let go_on = shell(line, &mut out);
        (out, go_on)
    };
    assert_eq!(reply(""), (String::new(), true));
    assert_eq!(reply("hello"), ("\u{1b}[93mHello World! I'm Kernel Program\n\u{1b}[0m".to_string(), true));
    assert_eq!(reply("  hello world  "), ("\u{1b}[93mHello World! I'm Kernel Program\n\u{1b}[0m".to_string(), true));
    assert_eq!(reply("Rust"), ("\u{1b}[93mRust is freaking beautiful!\n\u{1b}[0m".to_string(), true));
    assert_eq!(reply("clear"), (String::new(), true));
    assert_eq!(
        reply("ailice"),
        ("\u{1b}[93m\n            ░█▀▀█ ░▀░ █░░ ░▀░ █▀▀ █▀▀ ▒█▀▀▀█ ▒█▀▀▀█\n            ▒█▄▄█ ▀█▀ █░░ ▀█▀ █░░ █▀▀ ▒█░░▒█ ░▀▀▀▄▄\n            ▒█░▒█ ▀▀▀ ▀▀▀ ▀▀▀ ▀▀▀ ▀▀▀ ▒█▄▄▄█ ▒█▄▄▄█\n\u{1b}[0m".to_string(), true)
    );
    assert_eq!(reply("moyan"), ("\u{1b}[93mHi! moyan\n\u{1b}[0m".to_string(), true));
    assert_eq!(reply("exit now"), ("\u{1b}[93mBoy, I will be leave, Goodbye!\n\u{1b}[0m".to_string(), false));
    assert_eq!(reply("thread_test"), ("\u{1b}[93mStart test thread ...\n\u{1b}[0m".to_string(), true));
    assert_eq!(reply("whoami"), ("\u{1b}[93mI'm BMO! You are Moyan!\n\u{1b}[0m".to_string(), true));
    assert_eq!(reply("nothing"), ("\u{1b}[31mProgram not exist!\n\u{1b}[0m".to_string(), true));
    assert_eq!(reply("   "), ("\u{1b}[31mProgram not exist!\n\u{1b}[0m".to_string(), true));
    assert_eq!(reply("helloo"), ("\u{1b}[31mProgram not exist!\n\u{1b}[0m".to_string(), true));
    assert!(clears("clear"));
    assert!(clears(" clear screen"));
    assert!(!clears("hello"));
    assert!(!clears(""));
}

#[test]
fn command_is_the_first_word() {
    assert_eq!(command("hello"), "hello");
    assert_eq!(command("  hello  world "), "hello");
    assert_eq!(command("\thello\n"), "hello");
    assert_eq!(command("a\tb c"), "a\tb");
    assert_eq!(command(""), "");
    assert_eq!(command("   "), "");
    assert_eq!(command("\u{3000}x\u{a0}"), "x");
}

#[test]
fn nodes_are_mounted_as_files() {
    let file = MemNode { text: "(def! a 1)".to_string(), names: vec![] };
    assert_eq!(file.read_as_string(), Ok("(def! a 1)".to_string()));
    assert_eq!(file.read_as_vec(), Ok(b"(def! a 1)".to_vec()));
    assert_eq!(file.ls_as_vec(), Ok(vec![]));
    let mut ctx = Interp::new(10, 10);
    ctx.mount("a.jmal", &file);
    assert_eq!(ctx.files.get("a.jmal"), Some(juner_os::types::MalVal::Str("(def! a 1)".to_string())));
    ctx.mount_answers("dir", Err(2), Ok(vec!["x".to_string(), "y".to_string()]));
    let listed = ctx.files.get("dir").unwrap();
    assert_eq!(listed.pr_str(true, &ctx), "(\"x\" \"y\")");
    ctx.mount_answers("gone", Err(2), Err(3));
    assert_eq!(ctx.files.get("gone"), None);
    assert_eq!(ctx.files.len(), 2);
}

fn type_bytes(ed: &mut LineEditor, history: &Vec<Vec<u8>>, bytes: &[u8]) -> (Vec<u8>, bool) {
    let mut out = Vec::new();
    let mut done = false;
    for b in bytes {
        done = ed.feed(history, *b, &mut out);
    }
    (out, done)
}

#[test]
fn editor_inserts_at_the_cursor() {
    let history: Vec<Vec<u8>> = vec![];
    let mut ed = LineEditor::new(0);
    let (out, done) = type_bytes(&mut ed, &history, b"ab");
    assert_eq!(out, b"ab");
    assert!(!done);
    assert_eq!(ed.line, b"ab");
    assert_eq!(ed.cursor, 2);
    let (out, _) = type_bytes(&mut ed, &history, b"\x1b[D");
    assert_eq!(out, b"\x1b[D");
    assert_eq!(ed.cursor, 1);
    let (out, _) = type_bytes(&mut ed, &history, b"X");
    assert_eq!(out, b"Xb\x1b[D");
    assert_eq!(ed.line, b"aXb");
    assert_eq!(ed.cursor, 2);
    let (out, _) = type_bytes(&mut ed, &history, b" ");
    assert_eq!(out, b" b\x1b[D");
    assert_eq!(ed.line, b"aX b");
}

#[test]
fn editor_deletes_before_the_cursor() {
    let history: Vec<Vec<u8>> = vec![];
    let mut ed = LineEditor::new(0);
    type_bytes(&mut ed, &history, b"abc");
    let (out, _) = type_bytes(&mut ed, &history, &[0x08]);
    assert_eq!(out, b"\x08 \x1b[D");
    assert_eq!(ed.line, b"ab");
    assert_eq!(ed.cursor, 2);
    type_bytes(&mut ed, &history, b"\x1b[D");
    let (out, _) = type_bytes(&mut ed, &history, &[0x7f]);
    assert_eq!(out, b"\x08b \x1b[D\x1b[D");
    assert_eq!(ed.line, b"b");
    assert_eq!(ed.cursor, 0);
    let (out, _) = type_bytes(&mut ed, &history, &[0x08]);
    assert_eq!(out, &[0x07]);
    assert_eq!(ed.line, b"b");
}

#[test]
fn editor_moves_the_cursor() {
    let history: Vec<Vec<u8>> = vec![];
    let mut ed = LineEditor::new(0);
    let (out, _) = type_bytes(&mut ed, &history, b"\x1b[D");
    assert_eq!(out, &[0x07]);
    let (out, _) = type_bytes(&mut ed, &history, b"\x1b[C");
    assert_eq!(out, &[0x07]);
    type_bytes(&mut ed, &history, b"ab\x1b[D\x1b[D");
    assert_eq!(ed.cursor, 0);
    let (out, _) = type_bytes(&mut ed, &history, b"\x1b[C");
    assert_eq!(out, b"\x1b[C");
    assert_eq!(ed.cursor, 1);
    let (out, _) = type_bytes(&mut ed, &history, b"\x1bx");
    assert_eq!(out, &[0x07]);
    assert_eq!(ed.pending, Pending::Nothing);
    assert_eq!(ed.line, b"ab");
    let (out, _) = type_bytes(&mut ed, &history, b"\x1b[Z");
    assert_eq!(out, &[0x07]);
    let (out, _) = type_bytes(&mut ed, &history, &[0x01]);
    assert_eq!(out, &[0x07]);
    let (out, _) = type_bytes(&mut ed, &history, b"\x1b");
    assert_eq!(out, b"");
    assert_eq!(ed.pending, Pending::Escape);
    let (out, _) = type_bytes(&mut ed, &history, b"[");
    assert_eq!(out, b"");
    assert_eq!(ed.pending, Pending::Bracket);
}

#[test]
fn editor_recalls_history() {
    let history: Vec<Vec<u8>> = vec![b"first".to_vec(), b"second".to_vec()];
    let mut ed = LineEditor::new(2);
    type_bytes(&mut ed, &history, b"xy");
    let (out, _) = type_bytes(&mut ed, &history, b"\x1b[A");
    assert_eq!(out, b"\x1b[D\x1b[D  \x1b[D\x1b[Dsecond");
    assert_eq!(ed.line, b"second");
    assert_eq!(ed.cursor, 6);
    assert_eq!(ed.history_index, 1);
    type_bytes(&mut ed, &history, b"\x1b[A");
    assert_eq!(ed.line, b"first");
    assert_eq!(ed.history_index, 0);
    let (out, _) = type_bytes(&mut ed, &history, b"\x1b[A");
    assert_eq!(out, &[0x07]);
    assert_eq!(ed.line, b"first");
    type_bytes(&mut ed, &history, b"\x1b[B");
    assert_eq!(ed.line, b"second");
    let (out, _) = type_bytes(&mut ed, &history, b"\x1b[B");
    assert_eq!(out, &[0x07]);
    assert_eq!(ed.line, b"second");
    let empty: Vec<Vec<u8>> = vec![];
    let mut ed = LineEditor::new(0);
    let (out, _) = type_bytes(&mut ed, &empty, b"\x1b[A\x1b[B");
    assert_eq!(out, &[0x07, 0x07]);
}

#[test]
fn get_line_reads_until_return() {
    let mut history: Vec<Vec<u8>> = vec![];
    let mut ed = LineEditor::new(0);
    let mut input = Stdin::new();
    let mut out = Vec::new();
    for c in "hel".chars() {
        input.push(c);
    }
    assert_eq!(get_line(&mut ed, &mut history, &mut input, &mut out), None);
    assert_eq!(out, b"hel");
    assert_eq!(ed.line, b"hel");
    for c in "lo\rnext".chars() {
        input.push(c);
    }
    assert_eq!(get_line(&mut ed, &mut history, &mut input, &mut out), Some("hello".to_string()));
    assert_eq!(out, b"hello\r\n");
    assert_eq!(history, vec![b"hello".to_vec()]);
    assert_eq!(input.to_string(), "next");
    assert_eq!(ed.line, b"");
    assert_eq!(ed.cursor, 0);
    assert_eq!(ed.history_index, 1);
    input.push('\n');
    assert_eq!(get_line(&mut ed, &mut history, &mut input, &mut out), Some("next".to_string()));
    input.push('\n');
    assert_eq!(get_line(&mut ed, &mut history, &mut input, &mut out), Some("".to_string()));
    assert_eq!(history.len(), 2);
    assert_eq!(get_line(&mut ed, &mut history, &mut input, &mut out), None);
}

#[test]
fn line_text_is_ascii() {
    assert_eq!(line_text(&b"abc 1".to_vec()), "abc 1");
    assert_eq!(line_text(&vec![]), "");
    assert_eq!(line_text(&vec![b'a', 0xc3, 0xa9]), "");
}
