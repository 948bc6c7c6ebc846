use juner_os::interp::Interp;
use juner_os::printer::{escape_str, pr_seq};
use juner_os::reader::{read_str, tokenize, Reader};
use juner_os::text::{int_to_string, is_numbers, parse_dec};
use juner_os::types::{error, func, hash_map, list, sym, vector, Builtin, MalErr, MalVal, _assoc, _dissoc};
use juner_os::table::Table;

fn message(r: Result<MalVal, MalErr>) -> String {
    match r {
        Err(MalErr::ErrString(s)) => s,
        Err(MalErr::ErrMalVal(_)) => "a thrown value".to_string(),
        Ok(_) => "a value".to_string(),
    }
}

fn show(v: &MalVal) -> String {
    v.pr_str(true, &Interp::new(1, 1))
}

fn round_trip(text: &str) {
    let v = read_str(text.to_string()).unwrap();
    assert_eq!(show(&v), text);
    let again = read_str(show(&v)).unwrap();
    assert_eq!(again, v);
    assert_eq!(show(&again), text);
}

#[test]
fn tokenize_nested_call() {
    assert_eq!(tokenize("(+ 1 (* 2 3))"), vec!["(", "+", "1", "(", "*", "2", "3", ")", ")"]);
}

#[test]
fn tokenize_special_characters() {
    assert_eq!(tokenize("'a"), vec!["'", "a"]);
    assert_eq!(tokenize("`(a ~b ~@c)"), vec!["`", "(", "a", "~", "b", "~@", "c", ")"]);
    assert_eq!(tokenize("^{} [@x]"), vec!["^", "{", "}", "[", "@", "x", "]"]);
    assert_eq!(tokenize("~~@"), vec!["~", "~@"]);
    assert_eq!(tokenize("(~@x)"), vec!["(", "~@", "x", ")"]);
    assert_eq!(tokenize("`(~@(a) ~b)"), vec!["`", "(", "~@", "(", "a", ")", "~", "b", ")"]);
    assert_eq!(tokenize("~@~@"), vec!["~@", "~@"]);
    assert_eq!(tokenize("@~"), vec!["@", "~"]);
    assert_eq!(tokenize("~ @"), vec!["~", "@"]);
    assert_eq!(tokenize("'~@"), vec!["'", "~@"]);
    assert_eq!(tokenize("(("), vec!["(", "("]);
    assert_eq!(tokenize("([{}])"), vec!["(", "[", "{", "}", "]", ")"]);
    assert_eq!(tokenize("~"), vec!["~"]);
    assert_eq!(tokenize("a~@b"), vec!["a", "~@", "b"]);
}

#[test]
fn tokenize_blanks_and_empty_input() {
    assert_eq!(tokenize(""), Vec::<String>::new());
    assert_eq!(tokenize("  \n "), Vec::<String>::new());
    assert_eq!(tokenize(" a  b\nc "), vec!["a", "b", "c"]);
    assert_eq!(tokenize("a\tb,c"), vec!["a\tb,c"]);
    assert_eq!(tokenize("abc"), vec!["abc"]);
}

#[test]
fn tokenize_comments() {
    assert_eq!(tokenize("a ; rest (of) line\nb"), vec!["a", "; rest (of) line", "b"]);
    assert_eq!(tokenize("; only"), vec!["; only"]);
    assert_eq!(tokenize("a;b"), vec!["a", ";b"]);
    assert_eq!(tokenize("(;c\n)"), vec!["(", ";c", ")"]);
    assert_eq!(tokenize(";a \"b\" ;c"), vec![";a \"b\" ;c"]);
}

#[test]
fn tokenize_strings() {
    assert_eq!(tokenize("\"a b\""), vec!["\"a b\""]);
    assert_eq!(tokenize("\"a (b) ; c\nd\" e"), vec!["\"a (b) ; c\nd\"", "e"]);
    assert_eq!(tokenize("\"a\\\"b\""), vec!["\"a\\\"b\""]);
    assert_eq!(tokenize("\"a\\\\\" b"), vec!["\"a\\\\\"", "b"]);
    assert_eq!(tokenize("\"abc"), vec!["\"abc\""]);
    assert_eq!(tokenize("\""), vec!["\"\""]);
    assert_eq!(tokenize("\"a\\\""), vec!["\"a\\\"\""]);
    assert_eq!(tokenize("(\"a\")"), vec!["(", "\"a\"", ")"]);
    assert_eq!(tokenize("a\"b c"), vec!["a\"b", "c"]);
    assert_eq!(tokenize("\"\"\"\""), vec!["\"\"", "\"\""]);
}

#[test]
fn reader_cursor() {
    let mut rdr = Reader { tokens: tokenize("a b"), pos: 0 };
    assert_eq!(rdr.peek().unwrap(), "a");
    assert_eq!(rdr.peek().unwrap(), "a");
    assert_eq!(rdr.next().unwrap(), "a");
    assert_eq!(rdr.next().unwrap(), "b");
    assert_eq!(rdr.pos, 2);
    match rdr.peek() {
        Err(MalErr::ErrString(s)) => assert_eq!(s, "underflow"),
        _ => panic!("expected underflow"),
    }
    match rdr.next() {
        Err(MalErr::ErrString(s)) => assert_eq!(s, "underflow"),
        _ => panic!("expected underflow"),
    }
    assert_eq!(rdr.pos, 2);
}

#[test]
fn read_atoms() {
    assert_eq!(read_str("nil".to_string()).unwrap(), MalVal::Nil);
    assert_eq!(read_str("true".to_string()).unwrap(), MalVal::Bool(true));
    assert_eq!(read_str("false".to_string()).unwrap(), MalVal::Bool(false));
    assert_eq!(read_str("42".to_string()).unwrap(), MalVal::Int(42));
    assert_eq!(read_str("007".to_string()).unwrap(), MalVal::Int(7));
    assert_eq!(read_str("9223372036854775807".to_string()).unwrap(), MalVal::Int(i64::MAX));
    assert_eq!(message(read_str("9223372036854775808".to_string())), "number out of range");
    assert_eq!(read_str("-5".to_string()).unwrap(), sym("-5"));
    assert_eq!(read_str("1a".to_string()).unwrap(), sym("1a"));
    assert_eq!(read_str("abc".to_string()).unwrap(), sym("abc"));
    assert_eq!(read_str("\"a b\"".to_string()).unwrap(), MalVal::Str("a b".to_string()));
    assert_eq!(read_str("\"\"".to_string()).unwrap(), MalVal::Str("".to_string()));
    assert_eq!(read_str("\"a\\nb\"".to_string()).unwrap(), MalVal::Str("a\nb".to_string()));
    assert_eq!(read_str("\"a\\\"b\"".to_string()).unwrap(), MalVal::Str("a\"b".to_string()));
    assert_eq!(read_str("\"a\\\\b\"".to_string()).unwrap(), MalVal::Str("a\\b".to_string()));
    assert_eq!(read_str("\"a\\\\\"".to_string()).unwrap(), MalVal::Str("a\\".to_string()));
    assert_eq!(read_str("\"a\\tb\"".to_string()).unwrap(), MalVal::Str("a\\tb".to_string()));
    assert_eq!(read_str("\"a\nb\"".to_string()).unwrap(), MalVal::Str("a\nb".to_string()));
    assert_eq!(read_str("\"\\\\n\"".to_string()).unwrap(), MalVal::Str("\\n".to_string()));
    assert_eq!(read_str(":kw".to_string()).unwrap(), MalVal::Str("\u{29e}kw".to_string()));
    assert_eq!(read_str(":".to_string()).unwrap(), MalVal::Str("\u{29e}".to_string()));
    assert_eq!(read_str("\"open".to_string()).unwrap(), MalVal::Str("open".to_string()));
}

#[test]
fn read_sequences() {
    assert_eq!(
        read_str("(1 [2] ())".to_string()).unwrap(),
        list(vec![MalVal::Int(1), vector(vec![MalVal::Int(2)]), list(vec![])])
    );
    assert!(matches!(read_str("(1)".to_string()).unwrap(), MalVal::List(_)));
    assert!(matches!(read_str("[1]".to_string()).unwrap(), MalVal::Vector(_)));
    assert!(matches!(read_str("{}".to_string()).unwrap(), MalVal::Hash(_)));
    assert_eq!(show(&read_str("{\"a\" 1 :b [2]}".to_string()).unwrap()), "{\"a\" 1 :b [2]}");
    assert_eq!(show(&read_str("( 1   2 )  trailing".to_string()).unwrap()), "(1 2)");
}

#[test]
fn read_reader_macros() {
    assert_eq!(show(&read_str("'a".to_string()).unwrap()), "(quote a)");
    assert_eq!(show(&read_str("`a".to_string()).unwrap()), "(quasiquote a)");
    assert_eq!(show(&read_str("~a".to_string()).unwrap()), "(unquote a)");
    assert_eq!(show(&read_str("~@a".to_string()).unwrap()), "(splice-unquote a)");
    assert_eq!(show(&read_str("@a".to_string()).unwrap()), "(deref a)");
    assert_eq!(show(&read_str("^{:m 1} [1]".to_string()).unwrap()), "(with-meta [1] {:m 1})");
    assert_eq!(show(&read_str("'(1 '2)".to_string()).unwrap()), "(quote (1 (quote 2)))");
}

#[test]
fn read_skips_comments() {
    assert_eq!(show(&read_str("; first\n(1 ; one\n 2)".to_string()).unwrap()), "(1 2)");
    assert_eq!(message(read_str("; nothing else".to_string())), "no input");
    assert_eq!(show(&read_str("7 ; seven".to_string()).unwrap()), "7");
}

#[test]
fn values_that_do_not_read_back() {
    let back = |v: &MalVal| read_str(show(v));
    assert_eq!(back(&MalVal::Int(-5)).unwrap(), sym("-5"));
    assert_eq!(back(&sym("a b")).unwrap(), sym("a"));
    assert_eq!(back(&sym("12")).unwrap(), MalVal::Int(12));
    assert_eq!(back(&sym("nil")).unwrap(), MalVal::Nil);
    assert_eq!(back(&sym(":k")).unwrap(), MalVal::Str("\u{29e}k".to_string()));
    assert_eq!(back(&sym("\"q")).unwrap(), MalVal::Str("q".to_string()));
    assert_eq!(message(back(&sym(""))), "no input");
    assert_eq!(message(back(&sym(")"))), "unexpected ')'");
    assert_eq!(back(&MalVal::Str("\u{29e}a b".to_string())).unwrap(), MalVal::Str("\u{29e}a".to_string()));
    assert_ne!(back(&list(vec![sym("a b")])).unwrap(), list(vec![sym("a b")]));
}

#[test]
fn read_errors() {
    assert_eq!(message(read_str("".to_string())), "no input");
    assert_eq!(message(read_str("   ".to_string())), "no input");
    assert_eq!(message(read_str(")".to_string())), "unexpected ')'");
    assert_eq!(message(read_str("]".to_string())), "unexpected ']'");
    assert_eq!(message(read_str("}".to_string())), "unexpected '}'");
    assert_eq!(message(read_str("(1 2".to_string())), "expected ')', got EOF");
    assert_eq!(message(read_str("[1 2".to_string())), "expected ']', got EOF");
    assert_eq!(message(read_str("{1 2".to_string())), "expected '}', got EOF");
    assert_eq!(message(read_str("(1 ]".to_string())), "unexpected ']'");
    assert_eq!(message(read_str("'".to_string())), "underflow");
    assert_eq!(message(read_str("(1 '".to_string())), "underflow");
    assert_eq!(message(read_str("^ a".to_string())), "underflow");
    assert_eq!(message(read_str("{\"a\"}".to_string())), "odd number of elements");
    assert_eq!(message(read_str("{1 2}".to_string())), "key is not string");
    assert_eq!(message(error("boom")), "boom");
}

#[test]
fn print_values() {
    let ctx = Interp::new(1, 1);
    assert_eq!(MalVal::Nil.pr_str(true, &ctx), "nil");
    assert_eq!(MalVal::Bool(true).pr_str(true, &ctx), "true");
    assert_eq!(MalVal::Bool(false).pr_str(false, &ctx), "false");
    assert_eq!(MalVal::Int(0).pr_str(true, &ctx), "0");
    assert_eq!(MalVal::Int(-45).pr_str(true, &ctx), "-45");
    assert_eq!(MalVal::Int(i64::MIN).pr_str(true, &ctx), "-9223372036854775808");
    assert_eq!(MalVal::Int(i64::MAX).pr_str(true, &ctx), "9223372036854775807");
    assert_eq!(MalVal::Str("a\"b\nc\\".to_string()).pr_str(true, &ctx), "\"a\\\"b\\nc\\\\\"");
    assert_eq!(MalVal::Str("a\"b\nc\\".to_string()).pr_str(false, &ctx), "a\"b\nc\\");
    assert_eq!(MalVal::Str("\u{29e}kw".to_string()).pr_str(true, &ctx), ":kw");
    assert_eq!(MalVal::Str("\u{29e}kw".to_string()).pr_str(false, &ctx), ":kw");
    assert_eq!(sym("abc").pr_str(true, &ctx), "abc");
    let l = list(vec![MalVal::Int(1), MalVal::Str("x".to_string()), vector(vec![MalVal::Nil])]);
    assert_eq!(l.pr_str(true, &ctx), "(1 \"x\" [nil])");
    assert_eq!(l.pr_str(false, &ctx), "(1 x [nil])");
    assert_eq!(list(vec![]).pr_str(true, &ctx), "()");
    assert_eq!(vector(vec![]).pr_str(true, &ctx), "[]");
    assert_eq!(func(Builtin::Cons).pr_str(true, &ctx), "#<fn cons>");
    assert_eq!(MalVal::Atom(3).pr_str(true, &ctx), "(atom)");
    let h = hash_map(vec![
        MalVal::Str("a".to_string()),
        MalVal::Int(1),
        MalVal::Str("\u{29e}b".to_string()),
        MalVal::Str("s".to_string()),
    ])
    .unwrap();
    assert_eq!(h.pr_str(true, &ctx), "{\"a\" 1 :b \"s\"}");
    assert_eq!(h.pr_str(false, &ctx), "{a 1 :b s}");
}

#[test]
fn print_sequences_with_separators() {
    let ctx = Interp::new(1, 1);
    let items = vec![MalVal::Int(1), MalVal::Str("a".to_string()), MalVal::Nil];
    assert_eq!(pr_seq(&items, true, "<", ">", ", ", &ctx), "<1, \"a\", nil>");
    assert_eq!(pr_seq(&items, false, "", "", "", &ctx), "1anil");
    assert_eq!(pr_seq(&vec![], true, "(", ")", " ", &ctx), "()");
    assert_eq!(pr_seq(&vec![MalVal::Int(5)], true, "(", ")", " ", &ctx), "(5)");
}

#[test]
fn escape_strings() {
    assert_eq!(escape_str(""), "");
    assert_eq!(escape_str("plain"), "plain");
    assert_eq!(escape_str("a\"b"), "a\\\"b");
    assert_eq!(escape_str("a\nb"), "a\\nb");
    assert_eq!(escape_str("a\\b"), "a\\\\b");
    assert_eq!(escape_str("\t"), "\t");
}

#[test]
fn numbers_as_text() {
    assert_eq!(int_to_string(0), "0");
    assert_eq!(int_to_string(10), "10");
    assert_eq!(int_to_string(-1), "-1");
    assert_eq!(int_to_string(1234567890), "1234567890");
    assert!(is_numbers("0123"));
    assert!(is_numbers(""));
    assert!(!is_numbers("12a"));
    assert!(!is_numbers("-1"));
    assert_eq!(parse_dec(&vec!['4', '2']), Some(42));
    assert_eq!(parse_dec(&vec![]), Some(0));
    assert_eq!(parse_dec(&"9223372036854775807".chars().collect()), Some(i64::MAX));
    assert_eq!(parse_dec(&"9223372036854775808".chars().collect()), None);
    assert_eq!(parse_dec(&"99999999999999999999999".chars().collect()), None);
}

#[test]
fn read_of_print_is_the_value() {
    round_trip("nil");
    round_trip("true");
    round_trip("false");
    round_trip("0");
    round_trip("12345");
    round_trip("\"\"");
    round_trip("\"a string with (parens) ; and more\"");
    round_trip("abc");
    round_trip("a-b?!");
    round_trip(":kw");
    round_trip("()");
    round_trip("[]");
    round_trip("{}");
    round_trip("(1 2 3)");
    round_trip("[1 [2 (3 \"x\")] :k sym nil]");
    round_trip("{\"a\" 1 :b [2 3] \"c\" {:d nil}}");
    round_trip("(quote (a b))");
    round_trip("((()))");
    round_trip("a\"b");
    round_trip(":k\"q");
    round_trip("(a\"b \"c\" :d\"e)");
    round_trip("\"a\\nb\"");
    round_trip("\"say \\\"hi\\\"\"");
    round_trip("\"back\\\\slash\"");
    round_trip("\"\\\\\"");
    round_trip("(\"\\\"\" [\"\\n\"] {\"k\\\\\" \"v\"})");
    for text in ["", "\n", "\"", "\\", "\\n", "\\\\\"", "a\nb", "(;\" ", "tab\there", "\\\"\\"] {
        let v = MalVal::Str(text.to_string());
        assert_eq!(read_str(show(&v)).unwrap(), v);
        let l = list(vec![v.clone(), MalVal::Int(1), v.clone()]);
        let back = read_str(show(&l)).unwrap();
        assert!(matches!(back, MalVal::List(_)));
        assert_eq!(back, l);
        let h = hash_map(vec![v.clone(), v.clone()]).unwrap();
        assert_eq!(read_str(show(&h)).unwrap(), h);
    }
    assert!(matches!(read_str("()".to_string()).unwrap(), MalVal::List(_)));
    assert!(matches!(read_str(show(&vector(vec![]))).unwrap(), MalVal::Vector(_)));
    assert!(matches!(read_str(show(&vector(vec![MalVal::Nil]))).unwrap(), MalVal::Vector(_)));
}

#[test]
fn maps_are_built_in_order() {
    let s = |t: &str| MalVal::Str(t.to_string());
    let h = hash_map(vec![s("b"), MalVal::Int(1), s("a"), MalVal::Int(2), s("b"), MalVal::Int(3)]).unwrap();
    assert_eq!(show(&h), "{\"b\" 3 \"a\" 2}");
    assert_eq!(message(hash_map(vec![s("b")])), "odd number of elements");
    assert_eq!(message(hash_map(vec![MalVal::Int(1), MalVal::Int(2)])), "key is not string");
    let mut t = Table::new();
    t.insert("x".to_string(), MalVal::Int(1));
    t.insert("y".to_string(), MalVal::Int(2));
    assert_eq!(t.len(), 2);
    assert_eq!(t.find("y"), Some(1));
    assert_eq!(t.find("z"), None);
    assert!(t.contains_key("x"));
    assert_eq!(t.get("x"), Some(MalVal::Int(1)));
    assert_eq!(t.get("q"), None);
    assert_eq!(t.key_at(0), "x");
    assert_eq!(t.val_at(1), &MalVal::Int(2));
    let more = _assoc(t.clone(), vec![s("x"), MalVal::Int(9), s("z"), MalVal::Nil]).unwrap();
    assert_eq!(show(&more), "{\"x\" 9 \"y\" 2 \"z\" nil}");
    let less = _dissoc(t.clone(), vec![s("x"), s("nothing")]).unwrap();
    assert_eq!(show(&less), "{\"y\" 2}");
    assert_eq!(message(_dissoc(t.clone(), vec![MalVal::Int(1)])), "key is not string");
    assert_eq!(t.len(), 2);
    let t2 = t.with("x".to_string(), MalVal::Int(5));
    assert_eq!(t2.get("x"), Some(MalVal::Int(5)));
    assert_eq!(t2.values().len(), 2);
}
