use rlox::error::Error;
use rlox::interpreter::{Action, Interpreter, Output};
use rlox::lox_value::ArithOp;
use rlox::machine::Event;
use rlox::parser::Parser;
use rlox::resolver::Resolver;
use rlox::scanner::Scanner;

fn compute(op: ArithOp, a: u64, b: u64) -> u64 {
    let (a, b) = (f64::from_bits(a), f64::from_bits(b));
    let r = match op {
        ArithOp::Add => a + b,
        ArithOp::Subtract => a - b,
        ArithOp::Multiply => a * b,
        ArithOp::Divide => a / b,
    };
    r.to_bits()
}

fn load(interpreter: &mut Interpreter, source: &str) -> Result<(), Error> {
    let mut scanner = Scanner {
        source: source.chars().collect(),
        ..Default::default()
    };
    let tokens = scanner.scan_tokens()?;
    let mut parser = Parser { tokens, current: 0 };
    let stmts = parser.parse()?;
    let mut resolver = Resolver::new();
    let stmts = resolver.resolve_stmts(stmts)?;
    interpreter.interpret(stmts);
    Ok(())
}

fn drive(interpreter: &mut Interpreter, budget: usize, out: &mut Vec<String>) -> Result<(), Error> {
    let mut event = Event::Resume;
    loop {
        let action = interpreter.run(event, budget);
        event = Event::Resume;
        match action {
            Action::Continue => {}
            Action::Print(Output::Text(s)) => out.push(s),
            Action::Print(Output::Number(bits)) => out.push(format!("{}", f64::from_bits(bits))),
            Action::Print(Output::Time(s, n)) => out.push(format!("{}.{:09}", s, n)),
            Action::Arithmetic(op, a, b) => event = Event::Number(compute(op, a, b)),
            Action::ParseNumber(text) => {
                event = Event::Number(text.parse::<f64>().unwrap().to_bits())
            }
            Action::Clock => event = Event::Time(1_700_000_000, 5),
            Action::Done => return Ok(()),
            Action::Error(e) => return Err(e),
        }
    }
}

fn run_in(interpreter: &mut Interpreter, source: &str) -> (Vec<String>, Option<Error>) {
    let mut out = Vec::new();
    if let Err(e) = load(interpreter, source) {
        return (out, Some(e));
    }
    let result = drive(interpreter, 64, &mut out);
    (out, result.err())
}

fn run(source: &str) -> (Vec<String>, Option<Error>) {
    run_in(&mut Interpreter::new(), source)
}

fn prints(source: &str) -> Vec<String> {
    let (out, err) = run(source);
    assert_eq!(err, None, "program failed: {}", source);
    out
}

fn fails(source: &str) -> (Vec<String>, Error) {
    let (out, err) = run(source);
    (out, err.expect("program did not fail"))
}

#[test]
fn arithmetic_precedence() {
    assert_eq!(prints("print 1 + 2 * 3;"), vec!["7"]);
}

#[test]
fn block_scoping_shadows_and_restores() {
    assert_eq!(
        prints("var a = 1; { var a = 2; print a; } print a;"),
        vec!["2", "1"]
    );
}

#[test]
fn a_counter_keeps_its_state_in_the_closure() {
    assert_eq!(
        prints(
            "fun makeCounter() { var i = 0; fun count() { i = i + 1; print i; } return count; } var c = makeCounter(); c(); c();"
        ),
        vec!["1", "2"]
    );
}

#[test]
fn super_calls_the_superclass_method() {
    assert_eq!(
        prints(
            "class A { greet() { print \"A\"; } } class B < A { greet() { super.greet(); print \"B\"; } } B().greet();"
        ),
        vec!["A", "B"]
    );
}

#[test]
fn an_initializer_sets_fields() {
    assert_eq!(
        prints(
            "class Cake { init(f) { this.f = f; } taste() { print this.f; } } var c = Cake(\"chocolate\"); c.taste();"
        ),
        vec!["chocolate"]
    );
}

#[test]
fn a_for_loop_counts() {
    assert_eq!(
        prints("for (var i = 0; i < 3; i = i + 1) print i;"),
        vec!["0", "1", "2"]
    );
}

#[test]
fn a_function_captures_its_defining_environment() {
    assert_eq!(
        prints(
            "var x = \"global\"; fun show() { print x; } fun caller() { var x = \"caller\"; show(); } caller();"
        ),
        vec!["global"]
    );
    assert_eq!(
        prints(
            "var a = \"global\"; { fun showA() { print a; } showA(); var a = \"block\"; showA(); }"
        ),
        vec!["global", "global"]
    );
}

#[test]
fn logical_operators_short_circuit() {
    assert_eq!(
        prints(
            "fun effect() { print \"effect\"; return true; } print true or effect(); print false and effect();"
        ),
        vec!["true", "false"]
    );
    assert_eq!(
        prints(
            "fun effect() { print \"effect\"; return 1; } print effect() or true; print nil or effect(); print 1 and effect();"
        ),
        vec!["effect", "1", "effect", "1", "effect", "1"]
    );
    assert_eq!(
        prints("print nil or false; print 0 and \"\"; print 1 or 2 or 3; print nil and 1 and 2;"),
        vec!["false", "", "1", "nil"]
    );
}

#[test]
fn a_class_call_returns_the_instance() {
    assert_eq!(
        prints("class A { init() { this.x = 1; } } var a = A(); print a; print a.x;"),
        vec!["A instance", "1"]
    );
    assert_eq!(
        prints("class A { init() { this.x = 1; return; this.x = 2; } } var a = A(); print a; print a.x;"),
        vec!["A instance", "1"]
    );
    assert_eq!(
        prints("class A { init() { this.x = 1; } } var a = A(); print a.init(); print a.init().x;"),
        vec!["A instance", "1"]
    );
    assert_eq!(prints("class A {} print A(); print A;"), vec!["A instance", "A"]);
}

#[test]
fn returning_a_value_from_an_initializer_is_a_static_error() {
    let (out, err) = fails("print 1; class A { init() { return 1; } }");
    assert!(out.is_empty());
    assert_eq!(err.kind, "resolve error");
    assert_eq!(err.msg, "can't return a value from an initializer");
}

#[test]
fn a_method_stays_bound_to_its_instance() {
    assert_eq!(
        prints(
            "class P { init(n) { this.n = n; } name() { print this.n; } } var a = P(\"a\"); var b = P(\"b\"); var m = a.name; b.name = m; m(); b.name();"
        ),
        vec!["a", "a"]
    );
}

#[test]
fn fields_shadow_methods_and_superclass_methods_are_inherited() {
    assert_eq!(
        prints(
            "class A { m() { print \"method\"; } } var a = A(); a.m(); a.m = 3; print a.m;"
        ),
        vec!["method", "3"]
    );
    assert_eq!(
        prints(
            "class A { m() { print \"A.m\"; } n() { print \"A.n\"; } } class B < A { n() { print \"B.n\"; } } var b = B(); b.m(); b.n();"
        ),
        vec!["A.m", "B.n"]
    );
    assert_eq!(
        prints(
            "class A { m() { print \"A\"; } } class B < A { m() { print \"B\"; } t() { super.m(); print this.tag; } } class C < B { m() { print \"C\"; } } var c = C(); c.tag = \"c\"; c.t();"
        ),
        vec!["A", "c"]
    );
}

#[test]
fn inherited_initializer_sets_the_arity() {
    assert_eq!(
        prints("class A { init(x) { this.x = x; } } class B < A {} print B(7).x;"),
        vec!["7"]
    );
    let (_, err) = fails("class A { init(x) { this.x = x; } } class B < A {} B();");
    assert_eq!(
        err.msg,
        "wrong number of arguments in `B`\nexpected: 1\ngot: 0"
    );
}

#[test]
fn a_call_with_the_wrong_number_of_arguments_does_not_run_the_body() {
    let (out, err) = fails("fun f(a, b) { print \"body\"; } print \"before\"; f(1);");
    assert_eq!(out, vec!["before"]);
    assert_eq!(err.kind, "runtime error");
    assert_eq!(
        err.msg,
        "wrong number of arguments in `f`\nexpected: 2\ngot: 1"
    );
    assert_eq!(err.line, Some(1));
    let (out, err) = fails("fun f() { print \"body\"; }\nf(1, 2, 3, 4, 5, 6, 7, 8, 9, 10, 11, 12);");
    assert!(out.is_empty());
    assert_eq!(
        err.msg,
        "wrong number of arguments in `f`\nexpected: 0\ngot: 12"
    );
    assert_eq!(err.line, Some(2));
    let (_, err) = fails("clock(1);");
    assert_eq!(
        err.msg,
        "wrong number of arguments in `clock`\nexpected: 0\ngot: 1"
    );
    let (out, err) = fails("class A { init(a) { print \"init\"; } } A();");
    assert!(out.is_empty());
    assert_eq!(
        err.msg,
        "wrong number of arguments in `A`\nexpected: 1\ngot: 0"
    );
}

#[test]
fn division_by_zero_is_an_error() {
    let (out, err) = fails("print 1; print 1 / 0;");
    assert_eq!(out, vec!["1"]);
    assert_eq!(err.kind, "runtime error");
    assert_eq!(err.msg, "divided by zero");
    assert_eq!(err.line, Some(1));
    let (_, err) = fails("print 0 / -0;");
    assert_eq!(err.msg, "divided by zero");
    assert_eq!(prints("print 0 / 4; print 7 / 2;"), vec!["0", "3.5"]);
}

#[test]
fn values_print_as_their_text() {
    assert_eq!(
        prints("print 1.5; print 100; print 0.1 + 0.2; print -3; print \"hi\"; print true; print false; print nil;"),
        vec!["1.5", "100", "0.30000000000000004", "-3", "hi", "true", "false", "nil"]
    );
    assert_eq!(
        prints("fun f() {} class A { m() {} } print f; print A; print A(); print A().m; print clock;"),
        vec!["<fn f>", "A", "A instance", "<fn m>", "<fn clock>"]
    );
}

#[test]
fn strings_concatenate_and_compare() {
    assert_eq!(
        prints("print \"a\" + \"b\" + \"c\"; print \"a\" == \"a\"; print \"a\" != \"b\"; print \"a\" == \"b\";"),
        vec!["abc", "true", "true", "false"]
    );
}

#[test]
fn values_of_different_kinds_are_unequal() {
    assert_eq!(
        prints("print 1 == \"1\"; print nil == false; print 1 != true; print nil == nil; print 0 == -0;"),
        vec!["false", "false", "true", "true", "true"]
    );
}

#[test]
fn identity_of_functions_classes_and_instances() {
    assert_eq!(
        prints("fun f() {} fun g() {} class A {} var a = A(); var b = a; print f == f; print f == g; print A == A; print a == b; print a == A();"),
        vec!["true", "false", "true", "true", "false"]
    );
}

#[test]
fn comparisons() {
    assert_eq!(
        prints("print 1 < 2; print 2 <= 2; print 3 > 4; print 4 >= 5; print -1 < 0; print -2 > -3;"),
        vec!["true", "true", "false", "false", "true", "true"]
    );
}

#[test]
fn unary_operators() {
    assert_eq!(
        prints("print -(1 + 2); print !true; print !nil; print !0; print !\"\"; print --4;"),
        vec!["-3", "false", "true", "false", "false", "4"]
    );
}

#[test]
fn type_errors_are_runtime_errors() {
    for (source, msg) in [
        ("print -\"a\";", "operand must be a number"),
        ("print 1 - \"a\";", "operands must be numbers"),
        ("print nil * 2;", "operands must be numbers"),
        ("print true / 2;", "operands must be numbers"),
        ("print 1 < \"2\";", "operands must be numbers"),
        ("print \"a\" >= \"b\";", "operands must be numbers"),
        ("print 1 + \"a\";", "operands must be two numbers or two strings"),
        ("print \"a\" + nil;", "operands must be two numbers or two strings"),
    ] {
        let (out, err) = fails(source);
        assert!(out.is_empty());
        assert_eq!(err.kind, "runtime error");
        assert_eq!(err.msg, msg, "{}", source);
        assert_eq!(err.line, Some(1));
    }
}

#[test]
fn undefined_names_are_runtime_errors() {
    let (_, err) = fails("print a;");
    assert_eq!(err.msg, "undefined variable: a");
    let (_, err) = fails("a = 1;");
    assert_eq!(err.msg, "undefined variable: a");
    let (_, err) = fails("class A {} print A().x;");
    assert_eq!(err.msg, "undefined property: x");
    let (_, err) = fails("class A {} class B < A { m() { super.x(); } } B().m();");
    assert_eq!(err.msg, "undefined property: x");
}

#[test]
fn only_instances_have_properties() {
    let (_, err) = fails("var a = 1; print a.x;");
    assert_eq!(err.msg, "only instances have properties");
    let (out, err) = fails("fun v() { print \"value\"; return 1; } var a = 1; a.x = v();");
    assert!(out.is_empty());
    assert_eq!(err.msg, "only instances have fields");
    let (_, err) = fails("class A {} A.x = 1;");
    assert_eq!(err.msg, "only instances have fields");
}

#[test]
fn only_functions_and_classes_can_be_called() {
    let (_, err) = fails("var a = 1; a();");
    assert_eq!(err.msg, "can only call functions and classes");
    let (_, err) = fails("\"text\"(1);");
    assert_eq!(err.msg, "can only call functions and classes");
    let (_, err) = fails("class A {} A()();");
    assert_eq!(err.msg, "can only call functions and classes");
}

#[test]
fn a_superclass_must_be_a_class() {
    let (_, err) = fails("var A = 1; class B < A {}");
    assert_eq!(err.msg, "superclass must be a class");
}

#[test]
fn assignment_yields_the_value() {
    assert_eq!(
        prints("var a; var b; print a = b = 3; print a; { var c; print c = a + 1; } class A {} var o = A(); print o.f = 5;"),
        vec!["3", "3", "4", "5"]
    );
}

#[test]
fn return_unwinds_through_blocks_and_loops() {
    assert_eq!(
        prints(
            "fun find() { var i = 0; while (true) { { if (i == 3) { return i; } } i = i + 1; } } print find(); print \"after\";"
        ),
        vec!["3", "after"]
    );
    assert_eq!(
        prints("fun f() { return; print \"no\"; } print f(); fun g() {} print g();"),
        vec!["nil", "nil"]
    );
    assert_eq!(
        prints("fun f(n) { if (n < 2) return n; return f(n - 1) + f(n - 2); } print f(10);"),
        vec!["55"]
    );
}

#[test]
fn arguments_are_evaluated_left_to_right_after_the_callee() {
    assert_eq!(
        prints(
            "fun t(x) { print x; return x; } fun f(a, b, c) { print a + b + c; } fun pick() { print \"callee\"; return f; } pick()(t(\"a\"), t(\"b\"), t(\"c\"));"
        ),
        vec!["callee", "a", "b", "c", "abc"]
    );
}

#[test]
fn environments_are_restored_after_a_call() {
    assert_eq!(
        prints(
            "var a = \"outer\"; fun f(a) { { var a = \"inner\"; } return a; } { var a = \"block\"; print f(\"arg\"); print a; } print a;"
        ),
        vec!["arg", "block", "outer"]
    );
}

#[test]
fn while_and_if_use_truthiness() {
    assert_eq!(
        prints("if (0) print \"zero\"; if (\"\") print \"empty\"; if (nil) print \"nil\"; else print \"not nil\"; var n = 2; while (n) { print n; n = n - 1; if (n == 0) n = nil; }"),
        vec!["zero", "empty", "not nil", "2", "1"]
    );
}

#[test]
fn clock_answers_with_the_hosts_time() {
    assert_eq!(
        prints("var t = clock(); print t; print t == clock(); print t == 1;"),
        vec!["1700000000.000000005", "true", "false"]
    );
}

#[test]
fn the_interpreter_keeps_globals_between_programs() {
    let mut interpreter = Interpreter::new();
    assert_eq!(run_in(&mut interpreter, "var a = 1; fun inc() { a = a + 1; return a; }"), (vec![], None));
    assert_eq!(run_in(&mut interpreter, "print inc();").0, vec!["2"]);
    let (out, err) = run_in(&mut interpreter, "{ var b = 1; print inc(); print missing; }");
    assert_eq!(out, vec!["3"]);
    assert_eq!(err.unwrap().msg, "undefined variable: missing");
    assert_eq!(interpreter.env, interpreter.globals);
    assert_eq!(run_in(&mut interpreter, "print a; print inc();").0, vec!["3", "4"]);
}

#[test]
fn static_errors_stop_a_program_before_it_runs() {
    for (source, msg) in [
        ("print 1; return 1;", "can't return from top-level code"),
        ("print 1; { var a = 1; var a = 2; }", "variable `a` is already declared in this scope"),
        ("print 1; { var a = a; }", "can't read local variable in its own initializer"),
        ("print 1; print this;", "can't use 'this' outside of a class"),
        ("print 1; fun f() { this; }", "can't use 'this' outside of a class"),
        ("print 1; super.m();", "can't use 'super' outside of a class"),
        ("print 1; class A { m() { super.m(); } }", "can't use 'super' in a class with no superclass"),
        ("print 1; fun f(a, a) {}", "variable `a` is already declared in this scope"),
    ] {
        let (out, err) = fails(source);
        assert!(out.is_empty(), "{}", source);
        assert_eq!(err.kind, "resolve error");
        assert_eq!(err.msg, msg, "{}", source);
        assert_eq!(err.line, Some(1));
    }
    assert_eq!(prints("var a = 1; var a = 2; print a;"), vec!["2"]);
}

#[test]
fn a_step_at_a_time() {
    let mut interpreter = Interpreter::new();
    assert_eq!(interpreter.step(Event::Resume), Action::Done);
    load(&mut interpreter, "print 1 + 2;").unwrap();
    let mut actions = Vec::new();
    let mut event = Event::Resume;
    loop {
        let action = interpreter.step(event);
        event = match &action {
            Action::ParseNumber(text) => Event::Number(text.parse::<f64>().unwrap().to_bits()),
            Action::Arithmetic(op, a, b) => Event::Number(compute(*op, *a, *b)),
            _ => Event::Resume,
        };
        let done = action == Action::Done;
        if action != Action::Continue {
            actions.push(action);
        }
        if done {
            break;
        }
    }
    assert_eq!(
        actions,
        vec![
            Action::ParseNumber("1".to_string()),
            Action::ParseNumber("2".to_string()),
            Action::Arithmetic(ArithOp::Add, 1f64.to_bits(), 2f64.to_bits()),
            Action::Print(Output::Number(3f64.to_bits())),
            Action::Done,
        ]
    );
    assert_eq!(interpreter.step(Event::Resume), Action::Done);
}

#[test]
fn a_wrong_answer_from_the_host_fails_the_program() {
    let mut interpreter = Interpreter::new();
    load(&mut interpreter, "print 1;").unwrap();
    let mut action = interpreter.run(Event::Resume, 100);
    assert_eq!(action, Action::ParseNumber("1".to_string()));
    action = interpreter.step(Event::Resume);
    match action {
        Action::Error(e) => assert_eq!(
            e.msg,
            "the host answered with something that was not asked for"
        ),
        other => panic!("not an error: {:?}", other),
    }
    assert_eq!(interpreter.step(Event::Resume), Action::Done);
    load(&mut interpreter, "clock();").unwrap();
    assert_eq!(interpreter.run(Event::Resume, 100), Action::Clock);
    assert!(matches!(
        interpreter.step(Event::Number(0)),
        Action::Error(_)
    ));
}

#[test]
fn the_budget_bounds_the_transitions_of_one_run() {
    let mut interpreter = Interpreter::new();
    load(&mut interpreter, "while (true) {}").unwrap();
    for _ in 0..50 {
        assert_eq!(interpreter.run(Event::Resume, 1000), Action::Continue);
    }
    let mut interpreter = Interpreter::new();
    load(&mut interpreter, "print nil;").unwrap();
    let mut steps = 0;
    while interpreter.run(Event::Resume, 0) == Action::Continue {
        steps += 1;
    }
    assert!(steps > 2);
}

#[test]
fn a_local_is_read_from_the_frame_of_its_scope() {
    assert_eq!(
        prints(
            "var a = \"global\"; { var a = \"outer\"; { var b = \"inner\"; fun f(p) { var l = \"local\"; { print a; print b; print p; print l; } } f(\"param\"); { var a = \"nearer\"; f(a); } } }"
        ),
        vec!["outer", "inner", "param", "local", "outer", "inner", "nearer", "local"]
    );
    assert_eq!(
        prints(
            "{ var a = 1; fun set() { a = a + 1; } fun get() { return a; } { var a = 10; set(); set(); print get(); print a; } }"
        ),
        vec!["3", "10"]
    );
}

#[test]
fn a_class_cannot_inherit_from_itself_in_a_local_scope() {
    let (out, err) = fails("{ class A < A {} print \"unreached\"; }");
    assert!(out.is_empty());
    assert_eq!(err.kind, "runtime error");
    assert_eq!(err.msg, "undefined variable: A");
}

#[test]
fn an_assignment_in_the_own_initializer_finds_no_binding() {
    let (out, err) = fails("{ var a = (a = 1); print a; }");
    assert!(out.is_empty());
    assert_eq!(err.kind, "runtime error");
    assert_eq!(err.msg, "undefined variable: a");
    assert_eq!(prints("{ var a; var b = (a = 1); print a; print b; }"), vec!["1", "1"]);
}

#[test]
fn super_inside_a_nested_function_of_a_method() {
    assert_eq!(
        prints(
            "class A { m() { print \"A.m \" + this.tag; } } class B < A { m() { fun inner() { super.m(); } inner(); print \"B.m\"; } } var b = B(); b.tag = \"b\"; b.m();"
        ),
        vec!["A.m b", "B.m"]
    );
}

#[test]
fn each_iteration_of_a_loop_body_has_its_own_environment() {
    assert_eq!(
        prints(
            "var first; var second; for (var i = 0; i < 2; i = i + 1) { var j = i * 10; fun show() { print j; } if (i == 0) first = show; else second = show; } first(); second();"
        ),
        vec!["0", "10"]
    );
}

#[test]
fn a_parameter_cannot_be_declared_again_in_the_body() {
    let (out, err) = fails("fun f(a) { var a = 1; }");
    assert!(out.is_empty());
    assert_eq!(err.kind, "resolve error");
    assert_eq!(err.msg, "variable `a` is already declared in this scope");
    assert_eq!(prints("fun f(a) { { var a = 1; print a; } print a; } f(2);"), vec!["1", "2"]);
}

#[test]
fn methods_call_each_other_through_this() {
    assert_eq!(
        prints(
            "class Counter { init() { this.n = 0; } inc() { this.n = this.n + 1; return this; } show() { print this.n; } } Counter().inc().inc().inc().show();"
        ),
        vec!["3"]
    );
}

#[test]
fn a_string_keeps_its_line_breaks() {
    assert_eq!(prints("print \"a\nb\";"), vec!["a\nb"]);
}
