use rlox::error::Error;
use rlox::expr::{walk_expr, Expr};
use rlox::interpreter::{binary, with_line, Action, Control, Frame, Interpreter, Output};
use rlox::lox_class::LoxClass;
use rlox::lox_function::LoxFunction;
use rlox::lox_value::{ArithOp, LoxValue, Outcome};
use rlox::machine::Event;
use rlox::native_fn::ClockFn;
use rlox::stmt::{walk_stmt, Stmt};
use rlox::token::{Literal, Token, TokenType};
use std::rc::Rc;

fn token(token_type: TokenType, lexeme: &str, line: usize) -> Token {
    Token {
        token_type,
        lexeme: lexeme.to_string(),
        lit: None,
        line,
    }
}

fn name(lexeme: &str) -> Token {
    token(TokenType::Identifier, lexeme, 1)
}

fn text(s: &str) -> Rc<Expr> {
    Rc::new(Expr::Literal(Literal::Str(s.to_string())))
}

fn finish(interpreter: &mut Interpreter) -> (Vec<Output>, Option<Error>) {
    let mut out = Vec::new();
    loop {
        match interpreter.run(Event::Resume, 16) {
            Action::Continue => {}
            Action::Print(o) => out.push(o),
            Action::Done => return (out, None),
            Action::Error(e) => return (out, Some(e)),
            other => panic!("the host was asked for {:?}", other),
        }
    }
}

fn run(stmts: Vec<Rc<Stmt>>) -> (Vec<Output>, Option<Error>) {
    let mut interpreter = Interpreter::new();
    interpreter.interpret(stmts);
    finish(&mut interpreter)
}

fn runtime(msg: &str, line: Option<usize>) -> Option<Error> {
    Some(Error {
        kind: "runtime error".to_string(),
        msg: msg.to_string(),
        line,
    })
}

#[test]
fn a_new_interpreter_holds_clock_in_its_globals() {
    let interpreter = Interpreter::new();
    assert_eq!(interpreter.env, 0);
    assert_eq!(interpreter.globals, 0);
    assert_eq!(interpreter.heap.envs.len(), 1);
    assert_eq!(interpreter.heap.envs[0].enclosing, None);
    assert_eq!(
        interpreter.heap.envs[0].values.get(&"clock".to_string()),
        Some(&LoxValue::Native(ClockFn))
    );
    assert!(interpreter.stack.is_empty());
    assert!(matches!(interpreter.control, Control::Idle));
    assert_eq!(
        interpreter.lookup_variable(&name("clock"), -1),
        Ok(LoxValue::Native(ClockFn))
    );
    assert_eq!(
        interpreter.lookup_variable(&name("clock"), 0),
        Ok(LoxValue::Native(ClockFn))
    );
    assert_eq!(
        interpreter.lookup_variable(&name("clock"), 1),
        runtime("undefined variable: clock", Some(1)).map(Err).unwrap()
    );
}

#[test]
fn loading_a_program_puts_one_frame_on_the_stack() {
    let mut interpreter = Interpreter::new();
    interpreter.interpret(vec![Rc::new(Stmt::Print(text("a")))]);
    assert_eq!(interpreter.stack.len(), 1);
    assert!(matches!(&interpreter.stack[0], Frame::Program(stmts, 0) if stmts.len() == 1));
    assert!(matches!(&interpreter.control, Control::Value(LoxValue::Nil)));
    assert_eq!(
        finish(&mut interpreter),
        (vec![Output::Text("a".to_string())], None)
    );
    assert!(interpreter.stack.is_empty());
    assert!(matches!(interpreter.control, Control::Idle));
}

#[test]
fn walking_an_expression_makes_one_transition() {
    let mut interpreter = Interpreter::new();
    let e = Expr::Binary(text("a"), token(TokenType::Plus, "+", 3), text("b"));
    assert_eq!(walk_expr(&mut interpreter, &e), Action::Continue);
    assert_eq!(interpreter.stack.len(), 1);
    assert!(matches!(&interpreter.stack[0], Frame::BinaryLeft(op, _) if op.lexeme == "+"));
    assert!(matches!(&interpreter.control, Control::Expr(l) if **l == *text("a")));
    assert_eq!(
        walk_expr(&mut interpreter, &Expr::Literal(Literal::Number("1.5".to_string()))),
        Action::ParseNumber("1.5".to_string())
    );
    assert!(matches!(interpreter.control, Control::AwaitNumber));
}

#[test]
fn walking_a_statement_makes_one_transition() {
    let mut interpreter = Interpreter::new();
    let block = Stmt::Block(vec![Rc::new(Stmt::Var(name("a"), None))]);
    assert_eq!(walk_stmt(&mut interpreter, &block), Action::Continue);
    assert_eq!(interpreter.heap.envs.len(), 2);
    assert_eq!(interpreter.heap.envs[1].enclosing, Some(0));
    assert_eq!(interpreter.env, 1);
    assert!(matches!(&interpreter.stack[0], Frame::Block(stmts, 0, 0) if stmts.len() == 1));
    assert_eq!(
        walk_stmt(&mut interpreter, &Stmt::Var(name("a"), None)),
        Action::Continue
    );
    assert_eq!(
        interpreter.heap.envs[1].values.get(&"a".to_string()),
        Some(&LoxValue::Nil)
    );
    assert_eq!(interpreter.heap.envs[0].values.get(&"a".to_string()), None);
}

#[test]
fn binary_operators_by_their_tokens() {
    let a = || LoxValue::Str("a".to_string());
    let one = || LoxValue::Number(1f64.to_bits());
    let two = || LoxValue::Number(2f64.to_bits());
    let arithmetic = |op| Ok(Outcome::Arithmetic(op, 1f64.to_bits(), 2f64.to_bits()));
    let truth = |b| Ok(Outcome::Value(LoxValue::Bool(b)));
    assert_eq!(binary(&token(TokenType::Minus, "-", 1), one(), two()), arithmetic(ArithOp::Subtract));
    assert_eq!(binary(&token(TokenType::Plus, "+", 1), one(), two()), arithmetic(ArithOp::Add));
    assert_eq!(binary(&token(TokenType::Star, "*", 1), one(), two()), arithmetic(ArithOp::Multiply));
    assert_eq!(binary(&token(TokenType::Slash, "/", 1), one(), two()), arithmetic(ArithOp::Divide));
    assert_eq!(binary(&token(TokenType::Greater, ">", 1), one(), two()), truth(false));
    assert_eq!(binary(&token(TokenType::GreaterEqual, ">=", 1), two(), two()), truth(true));
    assert_eq!(binary(&token(TokenType::Less, "<", 1), one(), two()), truth(true));
    assert_eq!(binary(&token(TokenType::LessEqual, "<=", 1), two(), one()), truth(false));
    assert_eq!(binary(&token(TokenType::EqualEqual, "==", 1), a(), a()), truth(true));
    assert_eq!(binary(&token(TokenType::BangEqual, "!=", 1), a(), one()), truth(true));
    assert_eq!(
        binary(&token(TokenType::Comma, ",", 9), one(), two()),
        runtime("invalid operator", Some(9)).map(Err).unwrap()
    );
    let e = with_line(Error::runtime("m".to_string(), None), 4);
    assert_eq!(e.line, Some(4));
    assert_eq!(e.msg, "m");
}

#[test]
fn an_operator_that_is_none_is_a_runtime_error() {
    let comma = token(TokenType::Comma, ",", 2);
    let (out, err) = run(vec![Rc::new(Stmt::Print(Rc::new(Expr::Unary(
        comma.clone(),
        text("a"),
    ))))]);
    assert!(out.is_empty());
    assert_eq!(err, runtime("invalid operator", Some(2)));
    let (_, err) = run(vec![Rc::new(Stmt::Print(Rc::new(Expr::Binary(
        text("a"),
        comma,
        text("b"),
    ))))]);
    assert_eq!(err, runtime("invalid operator", Some(2)));
}

#[test]
fn a_return_outside_every_call_is_a_runtime_error() {
    let keyword = token(TokenType::Return, "return", 1);
    let (out, err) = run(vec![
        Rc::new(Stmt::Print(text("before"))),
        Rc::new(Stmt::Block(vec![Rc::new(Stmt::Return(keyword, Some(text("v"))))])),
        Rc::new(Stmt::Print(text("after"))),
    ]);
    assert_eq!(out, vec![Output::Text("before".to_string())]);
    assert_eq!(err, runtime("can't return from top-level code", None));
}

#[test]
fn a_method_that_is_no_function_is_a_runtime_error() {
    let mut interpreter = Interpreter::new();
    interpreter.interpret(vec![Rc::new(Stmt::Class(
        token(TokenType::Identifier, "A", 5),
        None,
        vec![Rc::new(Stmt::Print(text("a")))],
    ))]);
    let (out, err) = finish(&mut interpreter);
    assert!(out.is_empty());
    assert_eq!(err, runtime("only functions can be methods of a class", Some(5)));
    assert!(interpreter.heap.classes.is_empty());
    assert_eq!(
        interpreter.heap.envs[0].values.get(&"A".to_string()),
        None
    );
}

#[test]
fn an_initializer_without_this_fails_at_its_end() {
    let mut interpreter = Interpreter::new();
    let init = LoxFunction {
        name: name("init"),
        params: Vec::new(),
        body: Vec::new(),
        closure: 0,
        is_initializer: true,
    };
    let f = interpreter.heap.push_function(init);
    let call = Expr::Call(
        Rc::new(Expr::Variable(name("f"), -1)),
        token(TokenType::RightParen, ")", 1),
        Vec::new(),
    );
    interpreter.heap.envs[0].define("f".to_string(), LoxValue::Fn(f));
    interpreter.interpret(vec![Rc::new(Stmt::Expr(Rc::new(call)))]);
    assert_eq!(
        finish(&mut interpreter),
        (vec![], runtime("initializer is not bound to an instance", None))
    );
}

#[test]
fn values_are_rendered_for_print() {
    let mut interpreter = Interpreter::new();
    let f = interpreter.heap.push_function(LoxFunction {
        name: name("area"),
        params: Vec::new(),
        body: Vec::new(),
        closure: 0,
        is_initializer: false,
    });
    let class = LoxClass::new(
        &mut interpreter.heap.classes,
        "Shape".to_string(),
        None,
        rlox::table::Table::new(),
    );
    let instance = interpreter.heap.push_instance(class.instantiate());
    let shown = |v: LoxValue| interpreter.render(&v);
    assert_eq!(shown(LoxValue::Number(7)), Output::Number(7));
    assert_eq!(shown(LoxValue::Time(3, 4)), Output::Time(3, 4));
    assert_eq!(shown(LoxValue::Str("s".to_string())), Output::Text("s".to_string()));
    assert_eq!(shown(LoxValue::Bool(true)), Output::Text("true".to_string()));
    assert_eq!(shown(LoxValue::Bool(false)), Output::Text("false".to_string()));
    assert_eq!(shown(LoxValue::Nil), Output::Text("nil".to_string()));
    assert_eq!(shown(LoxValue::Native(ClockFn)), Output::Text("<fn clock>".to_string()));
    assert_eq!(shown(LoxValue::Fn(f)), Output::Text("<fn area>".to_string()));
    assert_eq!(shown(LoxValue::Class(class.id)), Output::Text("Shape".to_string()));
    assert_eq!(
        shown(LoxValue::Instance(instance)),
        Output::Text("Shape instance".to_string())
    );
    assert_eq!(shown(LoxValue::Fn(9)), Output::Text("<fn>".to_string()));
    assert_eq!(shown(LoxValue::Class(9)), Output::Text("".to_string()));
    assert_eq!(shown(LoxValue::Instance(9)), Output::Text("instance".to_string()));
}

#[test]
fn invoke_checks_the_arity_before_the_call() {
    let mut interpreter = Interpreter::new();
    let paren = token(TokenType::RightParen, ")", 8);
    let action = interpreter.invoke(&ClockFn, vec![LoxValue::Nil], &paren);
    assert_eq!(
        action,
        Action::Error(
            runtime(
                "wrong number of arguments in `clock`\nexpected: 0\ngot: 1",
                Some(8)
            )
            .unwrap()
        )
    );
    assert_eq!(interpreter.invoke(&ClockFn, Vec::new(), &paren), Action::Clock);
    assert!(matches!(interpreter.control, Control::AwaitTime));
    assert_eq!(interpreter.step(Event::Time(1, 2)), Action::Continue);
    assert!(matches!(interpreter.control, Control::Value(LoxValue::Time(1, 2))));
    let action = interpreter.call_value(LoxValue::Nil, Vec::new(), &paren);
    assert_eq!(
        action,
        Action::Error(runtime("can only call functions and classes", Some(8)).unwrap())
    );
    let action = interpreter.call_value(LoxValue::Fn(3), Vec::new(), &paren);
    assert!(matches!(action, Action::Error(_)));
}

#[test]
fn a_failure_drops_the_stack_and_returns_to_the_globals() {
    let mut interpreter = Interpreter::new();
    interpreter.env = 0;
    interpreter.push_frame(Frame::Discard);
    interpreter.push_frame(Frame::Print);
    assert_eq!(interpreter.proceed(Control::Value(LoxValue::Nil)), Action::Continue);
    let e = Error::runtime("stop".to_string(), Some(2));
    assert_eq!(interpreter.fail(e.duplicate()), Action::Error(e));
    assert!(interpreter.stack.is_empty());
    assert!(matches!(interpreter.control, Control::Idle));
    assert_eq!(interpreter.env, interpreter.globals);
}
