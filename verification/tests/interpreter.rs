use juner_os::corelib::{load_core, mal, ns};
use juner_os::env::{env_bind, env_find, env_get, env_new, env_set, env_sets};
use juner_os::eval::{eval, eval_ast, format_error, is_macro_call, macroexpand, quasiquote, rep, repl};
use juner_os::interp::{Interp, DEFAULT_MAX_DEPTH, DEFAULT_MAX_STEPS};
use juner_os::reader::read_str;
use juner_os::repl::{head, mal_repl, put_info, Key};
use juner_os::stdio::Stdin;
use juner_os::types::{list, sym, vector, Env, MalErr, MalVal};

fn fresh() -> (Interp, Env) {
    let mut ctx = Interp::new(DEFAULT_MAX_DEPTH, DEFAULT_MAX_STEPS);
    let env = env_new(&mut ctx, None);
    load_core(&mut ctx, env);
    ctx.take_output();
    (ctx, env)
}

fn run(ctx: &mut Interp, env: Env, line: &str) -> String {
    match rep(ctx, line, env) {
        Ok(t) => t,
        Err(MalErr::ErrString(s)) => format!("error: {}", s),
        Err(MalErr::ErrMalVal(v)) => format!("thrown: {}", v.pr_str(true, ctx)),
    }
}

fn read(text: &str) -> MalVal {
    read_str(text.to_string()).unwrap()
}

#[test]
fn rep_adds() {
    let (mut ctx, env) = fresh();
    assert_eq!(run(&mut ctx, env, "(+ 1 2)"), "3");
}

#[test]
fn rep_let_star_sees_earlier_bindings() {
    let (mut ctx, env) = fresh();
    assert_eq!(run(&mut ctx, env, "(let* (p (+ 2 3) q (+ 2 p)) (+ p q))"), "12");
    assert_eq!(run(&mut ctx, env, "(let* [a 1 b (+ a 1)] [a b])"), "[1 2]");
}

#[test]
fn let_star_does_not_touch_the_outer_frame() {
    let (mut ctx, env) = fresh();
    run(&mut ctx, env, "(def! x 1)");
    assert_eq!(run(&mut ctx, env, "(let* (x 2) x)"), "2");
    assert_eq!(run(&mut ctx, env, "x"), "1");
}

#[test]
fn let_star_with_odd_bindings_fails() {
    let (mut ctx, env) = fresh();
    assert_eq!(run(&mut ctx, env, "(let* (a) a)"), "error: let* with non-Sym binding");
    assert_eq!(run(&mut ctx, env, "(let* 5 a)"), "error: let* with non-List bindings");
}

#[test]
fn tail_recursion_runs_at_one_level() {
    let mut ctx = Interp::new(40, DEFAULT_MAX_STEPS);
    let env = env_new(&mut ctx, None);
    load_core(&mut ctx, env);
    run(&mut ctx, env, "(def! down (lambda (n) (if (= n 0) 0 (down (- n 1)))))");
    assert_eq!(run(&mut ctx, env, "(down 100000)"), "0");
    run(&mut ctx, env, "(def! sum (lambda (n acc) (if (= n 0) acc (sum (- n 1) (+ n acc)))))");
    assert_eq!(run(&mut ctx, env, "(sum 100000 0)"), "5000050000");
}

#[test]
fn runaway_recursion_is_an_error() {
    let (mut ctx, env) = fresh();
    run(&mut ctx, env, "(def! up (lambda (n) (+ 1 (up n))))");
    assert_eq!(run(&mut ctx, env, "(up 0)"), "error: evaluation nests too deep");
    assert_eq!(run(&mut ctx, env, "(+ 1 2)"), "3");
}

#[test]
fn runaway_loop_is_an_error() {
    let mut ctx = Interp::new(100, 5000);
    let env = env_new(&mut ctx, None);
    load_core(&mut ctx, env);
    run(&mut ctx, env, "(def! spin (lambda () (spin)))");
    assert_eq!(run(&mut ctx, env, "(spin)"), "error: evaluation takes too many steps");
}

#[test]
fn depth_zero_evaluates_nothing() {
    let mut ctx = Interp::new(0, 10);
    let env = env_new(&mut ctx, None);
    assert_eq!(run(&mut ctx, env, "1"), "error: evaluation nests too deep");
    let mut ctx = Interp::new(1, 0);
    let env = env_new(&mut ctx, None);
    assert_eq!(run(&mut ctx, env, "1"), "error: evaluation takes too many steps");
    let mut ctx = Interp::new(1, 1);
    let env = env_new(&mut ctx, None);
    assert_eq!(run(&mut ctx, env, "1"), "1");
}

#[test]
fn macroexpand_twice_changes_nothing() {
    let (mut ctx, env) = fresh();
    run(&mut ctx, env, "(defmacro! unless (lambda (c a b) (list 'if c b a)))");
    let (was, once) = macroexpand(&mut ctx, read("(unless x 1 2)"), env);
    let once = once.unwrap();
    assert!(was);
    assert_eq!(once.pr_str(true, &ctx), "(if x 2 1)");
    let (was2, twice) = macroexpand(&mut ctx, once.clone(), env);
    assert!(!was2);
    assert_eq!(twice.unwrap().pr_str(true, &ctx), "(if x 2 1)");
    assert_eq!(
        run(&mut ctx, env, "(macroexpand (macroexpand (unless x 1 2)))"),
        "(macroexpand (unless x 1 2))"
    );
    assert_eq!(run(&mut ctx, env, "(macroexpand (unless 7 1 2))"), "(if 7 2 1)");
}

#[test]
fn macros_expand_before_evaluation() {
    let (mut ctx, env) = fresh();
    run(&mut ctx, env, "(defmacro! unless (lambda (c a b) (list 'if c b a)))");
    assert_eq!(run(&mut ctx, env, "(unless false 7 8)"), "7");
    assert_eq!(run(&mut ctx, env, "(unless true 7 8)"), "8");
    assert_eq!(run(&mut ctx, env, "(macro? unless)"), "true");
    assert_eq!(run(&mut ctx, env, "(lambda? unless)"), "false");
    assert_eq!(run(&mut ctx, env, "(defmacro! bad 5)"), "error: set_macro on non-function");
}

#[test]
fn is_macro_call_finds_macros_only() {
    let (mut ctx, env) = fresh();
    run(&mut ctx, env, "(defmacro! m1 (lambda (a) a))");
    run(&mut ctx, env, "(def! f1 (lambda (a) a))");
    let found = is_macro_call(&ctx, &read("(m1 (+ 1 2))"), env);
    let (f, args) = found.unwrap();
    assert!(matches!(f, MalVal::MalFunc { is_macro: true, .. }));
    assert_eq!(args.len(), 1);
    assert_eq!(args[0].pr_str(true, &ctx), "(+ 1 2)");
    assert!(is_macro_call(&ctx, &read("(f1 1)"), env).is_none());
    assert!(is_macro_call(&ctx, &read("(nothing 1)"), env).is_none());
    assert!(is_macro_call(&ctx, &read("()"), env).is_none());
    assert!(is_macro_call(&ctx, &read("[m1 1]"), env).is_none());
    assert!(is_macro_call(&ctx, &read("m1"), env).is_none());
}

#[test]
fn cons_and_concat_give_lists() {
    let (mut ctx, env) = fresh();
    assert_eq!(run(&mut ctx, env, "(cons 1 [2 3])"), "(1 2 3)");
    assert_eq!(run(&mut ctx, env, "(= (cons 1 [2 3]) (list 1 2 3))"), "true");
    assert_eq!(run(&mut ctx, env, "(list? (cons 1 [2 3]))"), "true");
    assert_eq!(run(&mut ctx, env, "(concat [1 2] (list 3 4) [5 6])"), "(1 2 3 4 5 6)");
    assert_eq!(run(&mut ctx, env, "(= (concat [1 2] (list 3 4) [5 6]) (list 1 2 3 4 5 6))"), "true");
    assert_eq!(run(&mut ctx, env, "(concat)"), "()");
    assert_eq!(run(&mut ctx, env, "(cons 1 2)"), "error: cons expects seq as second arg");
    assert_eq!(run(&mut ctx, env, "(concat [1] 2)"), "error: non-seq passed to concat");
}

#[test]
fn atoms_hold_state() {
    let (mut ctx, env) = fresh();
    assert_eq!(
        run(&mut ctx, env, "(let* (a (atom 5)) (swap! a (lambda (x) (+ x 1))) (deref a))"),
        "6"
    );
    assert_eq!(
        run(&mut ctx, env, "(let* (a (atom 5)) (do (swap! a (lambda (x) (+ x 1))) (deref a)))"),
        "6"
    );
    run(&mut ctx, env, "(def! a (atom 5))");
    assert_eq!(run(&mut ctx, env, "(atom? a)"), "true");
    assert_eq!(run(&mut ctx, env, "(atom? 5)"), "false");
    assert_eq!(run(&mut ctx, env, "@a"), "5");
    assert_eq!(run(&mut ctx, env, "(reset! a 9)"), "9");
    assert_eq!(run(&mut ctx, env, "(deref a)"), "9");
    assert_eq!(run(&mut ctx, env, "(swap! a + 1)"), "10");
    assert_eq!(run(&mut ctx, env, "(swap! a (lambda (x y z) (* x (+ y z))) 2 3)"), "50");
    assert_eq!(run(&mut ctx, env, "a"), "(atom 50)");
    assert_eq!(run(&mut ctx, env, "(deref 5)"), "error: attempt to deref a non-Atom");
    assert_eq!(run(&mut ctx, env, "(reset! 5 1)"), "error: attempt to reset! a non-Atom");
    assert_eq!(run(&mut ctx, env, "(swap! 5 +)"), "error: attempt to swap! a non-Atom");
}

#[test]
fn atom_in_let_star_body() {
    let (mut ctx, env) = fresh();
    assert_eq!(
        run(&mut ctx, env, "(let* (a (atom 5) b (swap! a (lambda (x) (+ x 1)))) (deref a))"),
        "6"
    );
}

#[test]
fn an_atom_that_holds_itself_prints() {
    let (mut ctx, env) = fresh();
    run(&mut ctx, env, "(def! a (atom 1))");
    let before = ctx.atoms.len();
    assert_eq!(run(&mut ctx, env, "(do (reset! a a) 1)"), "1");
    assert_eq!(ctx.atoms.len(), before);
    let text = run(&mut ctx, env, "a");
    assert!(text.starts_with("(atom (atom "));
    assert!(text.ends_with("(atom))))") || text.ends_with("(atom)))"));
}

#[test]
fn errors_propagate_and_can_be_caught() {
    let (mut ctx, env) = fresh();
    assert_eq!(run(&mut ctx, env, "(nth [1 2] 5)"), "error: nth:index out of range");
    assert_eq!(run(&mut ctx, env, "(nth [1 2] (- 0 1))"), "error: nth:index out of range");
    assert_eq!(run(&mut ctx, env, "(nth [1 2] 1)"), "2");
    assert_eq!(run(&mut ctx, env, "(+ 1 \"a\")"), "error: expecting (int,int) args");
    assert_eq!(
        run(&mut ctx, env, "(try* (nth [1 2] 5) (catch* e e))"),
        "\"nth:index out of range\""
    );
    assert_eq!(
        run(&mut ctx, env, "(try* (+ 1 \"a\") (catch* e (str \"caught: \" e)))"),
        "\"caught: expecting (int,int) args\""
    );
    assert_eq!(run(&mut ctx, env, "(list 1 (nth [1 2] 5) 3)"), "error: nth:index out of range");
    assert_eq!(run(&mut ctx, env, "(try* (throw {:code 7}) (catch* e (get e :code)))"), "7");
    assert_eq!(run(&mut ctx, env, "(throw (list 1 2))"), "thrown: (1 2)");
    assert_eq!(run(&mut ctx, env, "(try* 5 (catch* e 6))"), "5");
    assert_eq!(run(&mut ctx, env, "(try* (throw 1))"), "thrown: 1");
    assert_eq!(run(&mut ctx, env, "(try* (throw 1) 5)"), "error: invalid catch block");
    assert_eq!(run(&mut ctx, env, "(try* (throw 1) (catch* e))"), "error: invalid catch block");
    assert_eq!(run(&mut ctx, env, "(nosuch 1)"), "error: 'nosuch' not found");
    assert_eq!(run(&mut ctx, env, "(1 2)"), "error: attempt to call non-function");
}

#[test]
fn quasiquote_unquotes_and_splices() {
    let (mut ctx, env) = fresh();
    assert_eq!(run(&mut ctx, env, "`(1 ~(+ 1 1))"), "(1 2)");
    assert_eq!(run(&mut ctx, env, "(= `(1 ~(+ 1 1)) (list 1 2))"), "true");
    assert_eq!(run(&mut ctx, env, "`(1 ~@(list 2 3))"), "(1 2 3)");
    assert_eq!(run(&mut ctx, env, "(= `(1 ~@(list 2 3)) (list 1 2 3))"), "true");
    assert_eq!(run(&mut ctx, env, "`a"), "a");
    assert_eq!(run(&mut ctx, env, "`()"), "()");
    assert_eq!(run(&mut ctx, env, "`(a (b ~(+ 1 2)) ~@[4 5] c)"), "(a (b 3) 4 5 c)");
    assert_eq!(run(&mut ctx, env, "`(~@(list 2 3))"), "(2 3)");
    assert_eq!(run(&mut ctx, env, "`(~@(list 2 3) 4)"), "(2 3 4)");
    assert_eq!(run(&mut ctx, env, "`((~@(list 2 3)))"), "((2 3))");
    assert_eq!(run(&mut ctx, env, "`(~(+ 1 1))"), "(2)");
    assert_eq!(run(&mut ctx, env, "(quasiquote (unquote 7))"), "7");
}

#[test]
fn quasiquote_expands_to_cons_and_concat() {
    let ctx = Interp::new(1, 1);
    let show = |text: &str| quasiquote(&read(text)).pr_str(true, &ctx);
    assert_eq!(show("a"), "(quote a)");
    assert_eq!(show("7"), "(quote 7)");
    assert_eq!(show("()"), "(quote ())");
    assert_eq!(show("[]"), "(quote [])");
    assert_eq!(show("(unquote x)"), "x");
    assert_eq!(show("(unquote)"), "nil");
    assert_eq!(show("(a)"), "(cons (quote a) (quote ()))");
    assert_eq!(show("(a b)"), "(cons (quote a) (cons (quote b) (quote ())))");
    assert_eq!(show("((splice-unquote x) b)"), "(concat x (cons (quote b) (quote ())))");
    assert_eq!(show("((unquote x))"), "(cons x (quote ()))");
    assert_eq!(show("(a unquote x)"), "(cons (quote a) x)");
    assert_eq!(show("[a]"), "(cons (quote a) (quote ()))");
}

#[test]
fn special_forms() {
    let (mut ctx, env) = fresh();
    assert_eq!(run(&mut ctx, env, "(def! x 3)"), "3");
    assert_eq!(run(&mut ctx, env, "x"), "3");
    assert_eq!(run(&mut ctx, env, "(def! 5 3)"), "error: Env.set called with non-Str");
    assert_eq!(run(&mut ctx, env, "(def! x)"), "error: special form lacks an argument");
    assert_eq!(run(&mut ctx, env, "(if true 1 2)"), "1");
    assert_eq!(run(&mut ctx, env, "(if false 1 2)"), "2");
    assert_eq!(run(&mut ctx, env, "(if nil 1 2)"), "2");
    assert_eq!(run(&mut ctx, env, "(if 0 1 2)"), "1");
    assert_eq!(run(&mut ctx, env, "(if \"\" 1 2)"), "1");
    assert_eq!(run(&mut ctx, env, "(if () 1 2)"), "1");
    assert_eq!(run(&mut ctx, env, "(if false 1)"), "nil");
    assert_eq!(run(&mut ctx, env, "(if true)"), "nil");
    assert_eq!(run(&mut ctx, env, "(if)"), "error: special form lacks an argument");
    assert_eq!(run(&mut ctx, env, "(do 1 2 3)"), "3");
    assert_eq!(run(&mut ctx, env, "(do (def! y 5) (+ y 1))"), "6");
    assert_eq!(run(&mut ctx, env, "(do)"), "error: 'do' not found");
    assert_eq!(run(&mut ctx, env, "(quote (1 a))"), "(1 a)");
    assert_eq!(run(&mut ctx, env, "'b"), "b");
    assert_eq!(run(&mut ctx, env, "((lambda (a b) (+ a b)) 2 3)"), "5");
    assert_eq!(run(&mut ctx, env, "((lambda (a & more) (count more)) 1 2 3 4)"), "3");
    assert_eq!(run(&mut ctx, env, "((lambda (a & more) more) 1)"), "()");
    assert_eq!(run(&mut ctx, env, "((lambda (& all) all) 1 2)"), "(1 2)");
    assert_eq!(run(&mut ctx, env, "((lambda (a b) a) 1)"), "error: not enough arguments");
    assert_eq!(run(&mut ctx, env, "((lambda (a) a) 1 2)"), "1");
    assert_eq!(run(&mut ctx, env, "((lambda (a &) a) 1)"), "error: no symbol for the remaining arguments");
    assert_eq!(run(&mut ctx, env, "((lambda 5 1))"), "error: env_bind binds not List/Vector");
    assert_eq!(run(&mut ctx, env, "(lambda (a) a)"), "(lambda (a) a)");
    assert_eq!(run(&mut ctx, env, "(lambda (a))"), "error: special form lacks an argument");
    assert_eq!(run(&mut ctx, env, "()"), "()");
    assert_eq!(run(&mut ctx, env, "[1 (+ 1 1) x]"), "[1 2 3]");
    assert_eq!(run(&mut ctx, env, "{\"a\" (+ 1 1)}"), "{\"a\" 2}");
    assert_eq!(run(&mut ctx, env, "\"s\""), "\"s\"");
    assert_eq!(run(&mut ctx, env, ":k"), ":k");
}

#[test]
fn closures_capture_their_frame() {
    let (mut ctx, env) = fresh();
    run(&mut ctx, env, "(def! adder (lambda (n) (lambda (x) (+ x n))))");
    run(&mut ctx, env, "(def! add5 (adder 5))");
    assert_eq!(run(&mut ctx, env, "(add5 3)"), "8");
    run(&mut ctx, env, "(def! fib (lambda (n) (if (< n 2) n (+ (fib (- n 1)) (fib (- n 2))))))");
    assert_eq!(run(&mut ctx, env, "(fib 15)"), "610");
}

#[test]
fn eval_runs_in_the_outermost_frame() {
    let (mut ctx, env) = fresh();
    run(&mut ctx, env, "(def! x 1)");
    assert_eq!(run(&mut ctx, env, "(let* (x 2) (eval (quote x)))"), "1");
    assert_eq!(run(&mut ctx, env, "(eval (list + 1 2))"), "3");
    assert_eq!(run(&mut ctx, env, "(eval (read-string \"(* 2 3)\"))"), "6");
}

#[test]
fn arithmetic_and_comparison() {
    let (mut ctx, env) = fresh();
    assert_eq!(run(&mut ctx, env, "(- 2 5)"), "-3");
    assert_eq!(run(&mut ctx, env, "(* 6 7)"), "42");
    assert_eq!(run(&mut ctx, env, "(/ 7 2)"), "3");
    assert_eq!(run(&mut ctx, env, "(/ (- 0 7) 2)"), "-3");
    assert_eq!(run(&mut ctx, env, "(/ 7 (- 0 2))"), "-3");
    assert_eq!(run(&mut ctx, env, "(/ (- 0 7) (- 0 2))"), "3");
    assert_eq!(run(&mut ctx, env, "(/ 1 0)"), "error: division by zero");
    assert_eq!(run(&mut ctx, env, "(+ 9223372036854775807 1)"), "error: integer overflow");
    assert_eq!(run(&mut ctx, env, "(- (- 0 9223372036854775807) 2)"), "error: integer overflow");
    assert_eq!(run(&mut ctx, env, "(- (- 0 9223372036854775807) 1)"), "-9223372036854775808");
    assert_eq!(run(&mut ctx, env, "(/ (- (- 0 9223372036854775807) 1) (- 0 1))"), "error: integer overflow");
    assert_eq!(run(&mut ctx, env, "(* 4611686018427387904 2)"), "error: integer overflow");
    assert_eq!(run(&mut ctx, env, "(< 1 2)"), "true");
    assert_eq!(run(&mut ctx, env, "(< 2 2)"), "false");
    assert_eq!(run(&mut ctx, env, "(<= 2 2)"), "true");
    assert_eq!(run(&mut ctx, env, "(> 3 2)"), "true");
    assert_eq!(run(&mut ctx, env, "(>= 1 2)"), "false");
    assert_eq!(run(&mut ctx, env, "(< 1 nil)"), "error: expecting (int,int) args");
    assert_eq!(run(&mut ctx, env, "(+ 1)"), "error: not enough arguments");
}

#[test]
fn equality() {
    let (mut ctx, env) = fresh();
    assert_eq!(run(&mut ctx, env, "(= 1 1)"), "true");
    assert_eq!(run(&mut ctx, env, "(= 1 2)"), "false");
    assert_eq!(run(&mut ctx, env, "(= nil nil)"), "true");
    assert_eq!(run(&mut ctx, env, "(= \"a\" \"a\")"), "true");
    assert_eq!(run(&mut ctx, env, "(= \"a\" 'a)"), "false");
    assert_eq!(run(&mut ctx, env, "(= :a :a)"), "true");
    assert_eq!(run(&mut ctx, env, "(= (list 1 2) [1 2])"), "true");
    assert_eq!(run(&mut ctx, env, "(= [1 2] (list 1 2))"), "true");
    assert_eq!(run(&mut ctx, env, "(= [1 [2 3]] (list 1 (list 2 3)))"), "true");
    assert_eq!(run(&mut ctx, env, "(= [1 2] [1 3])"), "false");
    assert_eq!(run(&mut ctx, env, "(= [1 2] [1 2 3])"), "false");
    assert_eq!(run(&mut ctx, env, "(= {:a 1 :b 2} {:b 2 :a 1})"), "true");
    assert_eq!(run(&mut ctx, env, "(= {:a 1 :b 2} {:b 2 :a 3})"), "false");
    assert_eq!(run(&mut ctx, env, "(= {:a 1} {:a 1 :b 2})"), "false");
    assert_eq!(run(&mut ctx, env, "(= {:a [1]} {:a (list 1)})"), "true");
    assert_eq!(run(&mut ctx, env, "(= + +)"), "false");
    assert_eq!(run(&mut ctx, env, "(let* (f (lambda (a) a)) (= f f))"), "false");
    assert_eq!(run(&mut ctx, env, "(let* (a (atom 1)) (= a a))"), "false");
    assert_eq!(MalVal::Int(1), MalVal::Int(1));
    assert_ne!(MalVal::Int(1), MalVal::Nil);
    assert_eq!(list(vec![MalVal::Int(1)]), vector(vec![MalVal::Int(1)]));
    assert_ne!(MalVal::Atom(0), MalVal::Atom(0));
}

#[test]
fn sequence_primitives() {
    let (mut ctx, env) = fresh();
    assert_eq!(run(&mut ctx, env, "(first [1 2])"), "1");
    assert_eq!(run(&mut ctx, env, "(first ())"), "nil");
    assert_eq!(run(&mut ctx, env, "(first nil)"), "nil");
    assert_eq!(run(&mut ctx, env, "(first 5)"), "error: invalid args to first");
    assert_eq!(run(&mut ctx, env, "(rest [1 2 3])"), "(2 3)");
    assert_eq!(run(&mut ctx, env, "(rest [1])"), "()");
    assert_eq!(run(&mut ctx, env, "(rest ())"), "()");
    assert_eq!(run(&mut ctx, env, "(rest nil)"), "()");
    assert_eq!(run(&mut ctx, env, "(rest 5)"), "error: invalid args to list");
    assert_eq!(run(&mut ctx, env, "(count [1 2 3])"), "3");
    assert_eq!(run(&mut ctx, env, "(count nil)"), "0");
    assert_eq!(run(&mut ctx, env, "(count 5)"), "error: invalid type for count");
    assert_eq!(run(&mut ctx, env, "(empty? ())"), "true");
    assert_eq!(run(&mut ctx, env, "(empty? [1])"), "false");
    assert_eq!(run(&mut ctx, env, "(empty? nil)"), "true");
    assert_eq!(run(&mut ctx, env, "(empty? 5)"), "error: invalid empty value!");
    assert_eq!(run(&mut ctx, env, "(nth 5 0)"), "error: invalid args to nth");
    assert_eq!(run(&mut ctx, env, "(list)"), "()");
    assert_eq!(run(&mut ctx, env, "(list 1 \"a\" :b)"), "(1 \"a\" :b)");
    assert_eq!(run(&mut ctx, env, "(vector 1 2)"), "[1 2]");
    assert_eq!(run(&mut ctx, env, "(apply + (list 1 2))"), "3");
    assert_eq!(run(&mut ctx, env, "(apply + 1 [2])"), "3");
    assert_eq!(run(&mut ctx, env, "(apply (lambda (& xs) (count xs)) 1 2 [3 4])"), "4");
    assert_eq!(run(&mut ctx, env, "(apply + 1 2)"), "error: apply called with no-seq");
    assert_eq!(run(&mut ctx, env, "(map (lambda (x) (* x x)) [1 2 3])"), "(1 4 9)");
    assert_eq!(run(&mut ctx, env, "(map first [[1] [2]])"), "(1 2)");
    assert_eq!(run(&mut ctx, env, "(map first 5)"), "error: map called with no-seq");
    assert_eq!(run(&mut ctx, env, "(map (lambda (x) (nth x 3)) [[1]])"), "error: nth:index out of range");
    assert_eq!(run(&mut ctx, env, "(map 5 [1])"), "error: attempt to call non-function");
}

#[test]
fn predicates() {
    let (mut ctx, env) = fresh();
    assert_eq!(run(&mut ctx, env, "(nil? nil)"), "true");
    assert_eq!(run(&mut ctx, env, "(nil? false)"), "false");
    assert_eq!(run(&mut ctx, env, "(true? true)"), "true");
    assert_eq!(run(&mut ctx, env, "(true? 1)"), "false");
    assert_eq!(run(&mut ctx, env, "(false? false)"), "true");
    assert_eq!(run(&mut ctx, env, "(false? nil)"), "false");
    assert_eq!(run(&mut ctx, env, "(symbol? 'a)"), "true");
    assert_eq!(run(&mut ctx, env, "(symbol? \"a\")"), "false");
    assert_eq!(run(&mut ctx, env, "(keyword? :a)"), "true");
    assert_eq!(run(&mut ctx, env, "(keyword? \"a\")"), "false");
    assert_eq!(run(&mut ctx, env, "(number? 1)"), "true");
    assert_eq!(run(&mut ctx, env, "(number? \"1\")"), "false");
    assert_eq!(run(&mut ctx, env, "(lambda? (lambda (a) a))"), "true");
    assert_eq!(run(&mut ctx, env, "(lambda? +)"), "true");
    assert_eq!(run(&mut ctx, env, "(lambda? 1)"), "false");
    assert_eq!(run(&mut ctx, env, "(macro? +)"), "false");
    assert_eq!(run(&mut ctx, env, "(macro? cond)"), "true");
    assert_eq!(run(&mut ctx, env, "(sequential? [1])"), "true");
    assert_eq!(run(&mut ctx, env, "(sequential? (list))"), "true");
    assert_eq!(run(&mut ctx, env, "(sequential? {})"), "false");
    assert_eq!(run(&mut ctx, env, "(list? (list))"), "true");
    assert_eq!(run(&mut ctx, env, "(list? [])"), "false");
    assert_eq!(run(&mut ctx, env, "(vector? [])"), "true");
    assert_eq!(run(&mut ctx, env, "(vector? (list))"), "false");
    assert_eq!(run(&mut ctx, env, "(map? {})"), "true");
    assert_eq!(run(&mut ctx, env, "(map? [])"), "false");
    assert_eq!(run(&mut ctx, env, "(nil?)"), "error: not enough arguments");
}

#[test]
fn maps() {
    let (mut ctx, env) = fresh();
    assert_eq!(run(&mut ctx, env, "(hash-map \"a\" 1 \"b\" 2)"), "{\"a\" 1 \"b\" 2}");
    assert_eq!(run(&mut ctx, env, "(hash-map \"a\" 1 \"a\" 2)"), "{\"a\" 2}");
    assert_eq!(run(&mut ctx, env, "(hash-map \"a\")"), "error: odd number of elements");
    assert_eq!(run(&mut ctx, env, "(hash-map 1 2)"), "error: key is not string");
    assert_eq!(run(&mut ctx, env, "{\"a\" 1 \"b\"}"), "error: odd number of elements");
    run(&mut ctx, env, "(def! m {:a 1 :b 2})");
    assert_eq!(run(&mut ctx, env, "(assoc m :c 3)"), "{:a 1 :b 2 :c 3}");
    assert_eq!(run(&mut ctx, env, "(assoc m :a 9)"), "{:a 9 :b 2}");
    assert_eq!(run(&mut ctx, env, "m"), "{:a 1 :b 2}");
    assert_eq!(run(&mut ctx, env, "(assoc 5 :a 1)"), "error: assoc on non-Hash Map");
    assert_eq!(run(&mut ctx, env, "(dissoc m :a)"), "{:b 2}");
    assert_eq!(run(&mut ctx, env, "(dissoc m :a :b :z)"), "{}");
    assert_eq!(run(&mut ctx, env, "(dissoc m 5)"), "error: key is not string");
    assert_eq!(run(&mut ctx, env, "(dissoc 5 :a)"), "error: dissoc on non-Hash Map");
    assert_eq!(run(&mut ctx, env, "m"), "{:a 1 :b 2}");
    assert_eq!(run(&mut ctx, env, "(get m :a)"), "1");
    assert_eq!(run(&mut ctx, env, "(get m :z)"), "nil");
    assert_eq!(run(&mut ctx, env, "(get nil :a)"), "nil");
    assert_eq!(run(&mut ctx, env, "(get 5 :a)"), "error: illegal get args");
    assert_eq!(run(&mut ctx, env, "(contains? m :a)"), "true");
    assert_eq!(run(&mut ctx, env, "(contains? m :z)"), "false");
    assert_eq!(run(&mut ctx, env, "(contains? 5 :z)"), "error: illegal contains args");
    assert_eq!(run(&mut ctx, env, "(keys m)"), "(:a :b)");
    assert_eq!(run(&mut ctx, env, "(vals m)"), "(1 2)");
    assert_eq!(run(&mut ctx, env, "(keys 5)"), "error: keys requires Hash Map");
    assert_eq!(run(&mut ctx, env, "(vals 5)"), "error: vals requires Hash Map");
}

#[test]
fn text_primitives() {
    let (mut ctx, env) = fresh();
    assert_eq!(run(&mut ctx, env, "(pr-str 1 \"a\" :b)"), "\"1 \\\"a\\\" :b\"");
    assert_eq!(run(&mut ctx, env, "(str 1 \"a\" :b 'c)"), "\"1a:bc\"");
    assert_eq!(run(&mut ctx, env, "(str)"), "\"\"");
    assert_eq!(run(&mut ctx, env, "(read-string \"(1 2 (3))\")"), "(1 2 (3))");
    assert_eq!(run(&mut ctx, env, "(read-string 5)"), "error: expecting (str) arg");
    assert_eq!(run(&mut ctx, env, "\"a\\nb\""), "\"a\\nb\"");
    assert_eq!(run(&mut ctx, env, "(str \"a\\nb\")"), "\"a\\nb\"");
    assert_eq!(run(&mut ctx, env, "(= \"a\\\"b\" (read-string (pr-str \"a\\\"b\")))"), "true");
    assert_eq!(run(&mut ctx, env, "(count (list \"\\\\\"))"), "1");
    assert_eq!(run(&mut ctx, env, "(read-string \"(1\")"), "error: expected ')', got EOF");
    assert_eq!(run(&mut ctx, env, "(symbol \"abc\")"), "abc");
    assert_eq!(run(&mut ctx, env, "(symbol 5)"), "error: illegal symbol call");
    assert_eq!(run(&mut ctx, env, "(keyword \"abc\")"), ":abc");
    assert_eq!(run(&mut ctx, env, "(keyword :abc)"), ":abc");
    assert_eq!(run(&mut ctx, env, "(keyword 5)"), "error: invalid type for keyword");
    assert_eq!(run(&mut ctx, env, "+"), "#<fn +>");
}

#[test]
fn prn_writes_to_the_output() {
    let (mut ctx, env) = fresh();
    assert_eq!(run(&mut ctx, env, "(prn \"a\" 1)"), "nil");
    assert_eq!(ctx.take_output(), "\u{1b}[93m\"a\"1\u{1b}[0m");
    assert_eq!(ctx.take_output(), "");
    run(&mut ctx, env, "(prn)");
    run(&mut ctx, env, "(prn :k)");
    assert_eq!(ctx.take_output(), "\u{1b}[93m\u{1b}[0m\u{1b}[93m:k\u{1b}[0m");
}

#[test]
fn loading_the_library_prints_its_banner() {
    let mut ctx = Interp::new(DEFAULT_MAX_DEPTH, DEFAULT_MAX_STEPS);
    let env = env_new(&mut ctx, None);
    load_core(&mut ctx, env);
    assert_eq!(ctx.take_output(), "\u{1b}[93m\"load core lisp Lib!\"\u{1b}[0m");
}

#[test]
fn bootstrap_definitions() {
    let (mut ctx, env) = fresh();
    assert_eq!(run(&mut ctx, env, "(not true)"), "false");
    assert_eq!(run(&mut ctx, env, "(not nil)"), "true");
    assert_eq!(run(&mut ctx, env, "(not 0)"), "false");
    assert_eq!(run(&mut ctx, env, "(cond false 1 true 2)"), "2");
    assert_eq!(run(&mut ctx, env, "(cond false 1 false 2)"), "nil");
    assert_eq!(run(&mut ctx, env, "(cond)"), "nil");
    assert_eq!(run(&mut ctx, env, "(cond true)"), "thrown: \"odd number of forms to cond\"");
    assert_eq!(run(&mut ctx, env, "(or)"), "nil");
    assert_eq!(run(&mut ctx, env, "(or 1)"), "1");
    assert_eq!(run(&mut ctx, env, "(or nil false 3)"), "3");
    assert_eq!(run(&mut ctx, env, "(or nil false)"), "false");
    assert_eq!(run(&mut ctx, env, "(symbol? (gensym))"), "true");
    assert_eq!(run(&mut ctx, env, "(= (gensym) (gensym))"), "false");
    assert_eq!(mal().len(), 8);
}

#[test]
fn files_come_from_the_host() {
    let (mut ctx, env) = fresh();
    ctx.add_file("notes.txt", "hello");
    ctx.add_file("lib.jmal", "(def! seven 7)\n(def! eight (+ seven 1))\n");
    ctx.add_dir("/", vec![MalVal::Str("notes.txt".to_string()), MalVal::Str("lib.jmal".to_string())]);
    ctx.add_dir("sub", vec![MalVal::Str("x".to_string())]);
    assert_eq!(run(&mut ctx, env, "(read-file \"notes.txt\")"), "\"hello\"");
    assert_eq!(run(&mut ctx, env, "(read-file \"nothing\")"), "error: read_file: no such file");
    assert_eq!(run(&mut ctx, env, "(read-file \"sub\")"), "error: read_file: no such file");
    assert_eq!(run(&mut ctx, env, "(read-file 5)"), "error: read_file requires path String");
    assert_eq!(run(&mut ctx, env, "(ls)"), "(\"notes.txt\" \"lib.jmal\")");
    assert_eq!(run(&mut ctx, env, "(ls \"sub\")"), "(\"x\")");
    assert_eq!(run(&mut ctx, env, "(ls \"nothing\")"), "error: ls: no such directory");
    assert_eq!(run(&mut ctx, env, "(ls \"notes.txt\")"), "error: ls: no such directory");
    assert_eq!(run(&mut ctx, env, "(ls 5)"), "error: ls requires a path string!");
    assert_eq!(run(&mut ctx, env, "(load-file \"lib.jmal\")"), "nil");
    assert_eq!(run(&mut ctx, env, "eight"), "8");
}

#[test]
fn the_entry_script_is_loaded_with_the_library() {
    let mut ctx = Interp::new(DEFAULT_MAX_DEPTH, DEFAULT_MAX_STEPS);
    ctx.add_file("entry.jmal", "(def! started true)");
    let env = env_new(&mut ctx, None);
    load_core(&mut ctx, env);
    assert_eq!(run(&mut ctx, env, "started"), "true");
}

#[test]
fn namespace_binds_every_primitive() {
    let table = ns();
    assert_eq!(table.len(), 53);
    assert_eq!(table[0].0, "=");
    let ctx = Interp::new(1, 1);
    for (name, value) in table.iter() {
        assert_eq!(value.pr_str(true, &ctx), format!("#<fn {}>", name));
    }
    let (mut ctx, env) = fresh();
    for (name, _) in ns().iter() {
        assert_eq!(run(&mut ctx, env, name), format!("#<fn {}>", name));
    }
}

#[test]
fn frames_chain_outwards() {
    let mut ctx = Interp::new(10, 10);
    let root = env_new(&mut ctx, None);
    let child = env_new(&mut ctx, Some(root));
    let other = env_new(&mut ctx, Some(root));
    env_sets(&mut ctx, root, "a", MalVal::Int(1));
    env_sets(&mut ctx, child, "b", MalVal::Int(2));
    assert_eq!(env_find(&ctx, child, "a"), Some(root));
    assert_eq!(env_find(&ctx, child, "b"), Some(child));
    assert_eq!(env_find(&ctx, other, "b"), None);
    assert_eq!(env_find(&ctx, root, "b"), None);
    assert_eq!(env_find(&ctx, 99, "a"), None);
    assert_eq!(env_get(&ctx, child, &sym("a")).unwrap(), MalVal::Int(1));
    env_sets(&mut ctx, child, "a", MalVal::Int(5));
    assert_eq!(env_get(&ctx, child, &sym("a")).unwrap(), MalVal::Int(5));
    assert_eq!(env_get(&ctx, root, &sym("a")).unwrap(), MalVal::Int(1));
    assert_eq!(env_get(&ctx, other, &sym("a")).unwrap(), MalVal::Int(1));
    match env_get(&ctx, root, &sym("zz")) {
        Err(MalErr::ErrString(s)) => assert_eq!(s, "'zz' not found"),
        _ => panic!("expected an error"),
    }
    match env_get(&ctx, root, &MalVal::Int(1)) {
        Err(MalErr::ErrString(s)) => assert_eq!(s, "Env.get called with non-Str"),
        _ => panic!("expected an error"),
    }
    assert_eq!(env_set(&mut ctx, root, sym("c"), MalVal::Int(3)).unwrap(), MalVal::Int(3));
    assert_eq!(env_get(&ctx, child, &sym("c")).unwrap(), MalVal::Int(3));
    assert!(env_set(&mut ctx, root, MalVal::Int(1), MalVal::Int(3)).is_err());
    env_sets(&mut ctx, 99, "q", MalVal::Int(1));
    assert_eq!(ctx.envs.len(), 3);
}

#[test]
fn bind_destructures_arguments() {
    let mut ctx = Interp::new(10, 10);
    let root = env_new(&mut ctx, None);
    let params = list(vec![sym("a"), sym("&"), sym("rest")]);
    let args = vec![MalVal::Int(1), MalVal::Int(2), MalVal::Int(3)];
    let env = env_bind(&mut ctx, Some(root), params, args).unwrap();
    assert_eq!(env_get(&ctx, env, &sym("a")).unwrap(), MalVal::Int(1));
    assert_eq!(
        env_get(&ctx, env, &sym("rest")).unwrap(),
        list(vec![MalVal::Int(2), MalVal::Int(3)])
    );
    assert_eq!(ctx.envs[env].outer, Some(root));
    let params = vector(vec![sym("a"), sym("b")]);
    let env2 = env_bind(&mut ctx, None, params, vec![MalVal::Int(7), MalVal::Int(8)]).unwrap();
    assert_eq!(env_get(&ctx, env2, &sym("b")).unwrap(), MalVal::Int(8));
    assert!(env_bind(&mut ctx, None, MalVal::Int(1), vec![]).is_err());
    assert!(env_bind(&mut ctx, None, list(vec![MalVal::Int(1)]), vec![MalVal::Nil]).is_err());
    assert!(env_bind(&mut ctx, None, list(vec![sym("a")]), vec![]).is_err());
}

#[test]
fn eval_and_eval_ast() {
    let (mut ctx, env) = fresh();
    assert_eq!(eval(&mut ctx, read("(+ 2 3)"), env).unwrap(), MalVal::Int(5));
    let r = eval_ast(&mut ctx, &read("((+ 1 1) 3)"), env).unwrap();
    assert_eq!(r.pr_str(true, &ctx), "(2 3)");
    let r = eval_ast(&mut ctx, &read("[(+ 1 1) 3]"), env).unwrap();
    assert_eq!(r.pr_str(true, &ctx), "[2 3]");
    let r = eval_ast(&mut ctx, &read("{:a (+ 1 1)}"), env).unwrap();
    assert_eq!(r.pr_str(true, &ctx), "{:a 2}");
    assert_eq!(eval_ast(&mut ctx, &read("7"), env).unwrap(), MalVal::Int(7));
    assert!(eval_ast(&mut ctx, &read("nope"), env).is_err());
}

#[test]
fn apply_and_swap_as_methods() {
    let (mut ctx, env) = fresh();
    let plus = eval(&mut ctx, read("+"), env).unwrap();
    assert_eq!(plus.apply(&mut ctx, vec![MalVal::Int(2), MalVal::Int(3)]).unwrap(), MalVal::Int(5));
    let double = eval(&mut ctx, read("(lambda (x) (* 2 x))"), env).unwrap();
    assert_eq!(double.apply(&mut ctx, vec![MalVal::Int(4)]).unwrap(), MalVal::Int(8));
    assert!(MalVal::Int(1).apply(&mut ctx, vec![]).is_err());
    let cell = juner_os::eval::atom(&mut ctx, &MalVal::Int(10));
    assert_eq!(cell.deref(&ctx).unwrap(), MalVal::Int(10));
    assert_eq!(cell.swap_bang(&mut ctx, &vec![double.clone()]).unwrap(), MalVal::Int(20));
    assert_eq!(cell.swap_bang(&mut ctx, &vec![plus, MalVal::Int(1)]).unwrap(), MalVal::Int(21));
    assert_eq!(cell.reset_bang(&mut ctx, &MalVal::Nil).unwrap(), MalVal::Nil);
    assert_eq!(cell.deref(&ctx).unwrap(), MalVal::Nil);
    assert!(MalVal::Int(1).swap_bang(&mut ctx, &vec![double]).is_err());
    assert!(MalVal::Atom(999).deref(&ctx).is_err());
}

#[test]
fn repl_shows_values_and_errors() {
    let (mut ctx, env) = fresh();
    assert_eq!(repl(&mut ctx, "(+ 1 2)", env), "3");
    assert_eq!(repl(&mut ctx, "(+ 1 nil)", env), "expecting (int,int) args");
    assert_eq!(repl(&mut ctx, "(throw {:a 1})", env), "{:a 1}");
    assert_eq!(repl(&mut ctx, "(throw \"x\")", env), "\"x\"");
    assert_eq!(repl(&mut ctx, "(", env), "expected ')', got EOF");
    assert_eq!(repl(&mut ctx, "", env), "no input");
    assert_eq!(repl(&mut ctx, "(+ 2 2)", env), "4");
    assert_eq!(format_error(MalErr::ErrString("m".to_string()), &ctx), "m");
    assert_eq!(format_error(MalErr::ErrMalVal(MalVal::Int(3)), &ctx), "3");
}

#[test]
fn keys_drive_the_loop() {
    let (mut ctx, env) = fresh();
    let mut stdin = Stdin::new();
    let mut control = false;
    for c in "(+ 1 2".chars() {
        mal_repl(&mut ctx, env, &mut stdin, &mut control, &Key::Unicode(c));
    }
    assert_eq!(ctx.take_output(), "(+ 1 2");
    assert_eq!(stdin.to_string(), "(+ 1 2");
    mal_repl(&mut ctx, env, &mut stdin, &mut control, &Key::Unicode(')'));
    mal_repl(&mut ctx, env, &mut stdin, &mut control, &Key::Enter);
    assert_eq!(
        ctx.take_output(),
        ")\u{1b}[36m[Info] runing: (+ 1 2)\n\u{1b}[0m\u{1b}[36m[Info] OUT:3\n\u{1b}[0m\nIN:"
    );
    assert_eq!(stdin.to_string(), "");
    for c in "(prn 7)\n".chars() {
        mal_repl(&mut ctx, env, &mut stdin, &mut control, &Key::Unicode(c));
    }
    assert_eq!(
        ctx.take_output(),
        "(prn 7)\u{1b}[36m[Info] runing: (prn 7)\n\u{1b}[0m\u{1b}[93m7\u{1b}[0m\u{1b}[36m[Info] OUT:nil\n\u{1b}[0m\nIN:"
    );
    for c in "(nth".chars() {
        mal_repl(&mut ctx, env, &mut stdin, &mut control, &Key::Unicode(c));
    }
    mal_repl(&mut ctx, env, &mut stdin, &mut control, &Key::Backspace);
    assert_eq!(stdin.to_string(), "nth");
    mal_repl(&mut ctx, env, &mut stdin, &mut control, &Key::Delete);
    assert_eq!(stdin.to_string(), "th");
    mal_repl(&mut ctx, env, &mut stdin, &mut control, &Key::Unicode('c'));
    assert_eq!(stdin.to_string(), "thc");
    assert!(!control);
    mal_repl(&mut ctx, env, &mut stdin, &mut control, &Key::ControlLeft);
    assert!(control);
    ctx.take_output();
    mal_repl(&mut ctx, env, &mut stdin, &mut control, &Key::Unicode('c'));
    assert!(!control);
    assert_eq!(stdin.to_string(), "");
    assert_eq!(ctx.take_output(), "\n");
    mal_repl(&mut ctx, env, &mut stdin, &mut control, &Key::ControlRight);
    assert!(control);
    mal_repl(&mut ctx, env, &mut stdin, &mut control, &Key::Other("F1".to_string()));
    assert_eq!(ctx.take_output(), "F1");
    mal_repl(&mut ctx, env, &mut stdin, &mut control, &Key::Backspace);
    assert_eq!(stdin.to_string(), "");
    mal_repl(&mut ctx, env, &mut stdin, &mut control, &Key::Enter);
    assert_eq!(
        ctx.take_output(),
        "\u{1b}[36m[Info] runing: \n\u{1b}[0m\u{1b}[36m[Info] OUT:no input\n\u{1b}[0m\nIN:"
    );
    let mut out = String::new();
    put_info(&mut out, "x");
    assert_eq!(out, "\u{1b}[36m[Info] x\n\u{1b}[0m");
    let mut banner = String::new();
    head(&mut banner);
    assert!(banner.starts_with("\u{1b}[36m[Info] \n         **   **     **   ****"));
    assert!(banner.contains("made by zhouzihao \n\u{1b}[0m"));
    assert!(banner.contains("[Info] Weclome to my page:https://github.com/zzhgithub/juner_os\n"));
    assert!(banner.ends_with("[Info] you can use MAL a small lisp!\n\u{1b}[0m\n\n\n\n\n"));
}
