use rlox::expr::Expr;
use rlox::parser::Parser;
use rlox::resolver::{ClassType, FunctionType, Resolver};
use rlox::scanner::Scanner;
use rlox::stmt::Stmt;
use rlox::token::{Token, TokenType};
use std::rc::Rc;

fn parse(source: &str) -> Vec<Rc<Stmt>> {
    let mut scanner = Scanner {
        source: source.chars().collect(),
        ..Default::default()
    };
    let mut parser = Parser {
        tokens: scanner.scan_tokens().unwrap(),
        current: 0,
    };
    parser.parse().unwrap()
}

fn resolve(source: &str) -> Vec<Rc<Stmt>> {
    Resolver::new().resolve_stmts(parse(source)).unwrap()
}

fn slots_of_expr(e: &Expr, out: &mut Vec<(String, i32)>) {
    match e {
        Expr::Assign(name, value, slot) => {
            slots_of_expr(value, out);
            out.push((name.lexeme.clone(), *slot));
        }
        Expr::Binary(l, _, r) | Expr::Logical(l, _, r) => {
            slots_of_expr(l, out);
            slots_of_expr(r, out);
        }
        Expr::Call(c, _, args) => {
            slots_of_expr(c, out);
            for a in args {
                slots_of_expr(a, out);
            }
        }
        Expr::Get(o, _) => slots_of_expr(o, out),
        Expr::Grouping(i) => slots_of_expr(i, out),
        Expr::Literal(_) => {}
        Expr::SetProperty(o, _, v) => {
            slots_of_expr(o, out);
            slots_of_expr(v, out);
        }
        Expr::Super(k, _, slot) | Expr::This(k, slot) | Expr::Variable(k, slot) => {
            out.push((k.lexeme.clone(), *slot))
        }
        Expr::Unary(_, o) => slots_of_expr(o, out),
    }
}

fn slots_of_stmt(s: &Stmt, out: &mut Vec<(String, i32)>) {
    match s {
        Stmt::Block(stmts) => stmts.iter().for_each(|s| slots_of_stmt(s, out)),
        Stmt::Class(_, superclass, methods) => {
            if let Some(sc) = superclass {
                slots_of_expr(sc, out);
            }
            methods.iter().for_each(|s| slots_of_stmt(s, out));
        }
        Stmt::Expr(e) | Stmt::Print(e) => slots_of_expr(e, out),
        Stmt::Func(_, _, body) => body.iter().for_each(|s| slots_of_stmt(s, out)),
        Stmt::If(c, t, e) => {
            slots_of_expr(c, out);
            slots_of_stmt(t, out);
            if let Some(e) = e {
                slots_of_stmt(e, out);
            }
        }
        Stmt::Return(_, v) | Stmt::Var(_, v) => {
            if let Some(v) = v {
                slots_of_expr(v, out);
            }
        }
        Stmt::While(c, b) => {
            slots_of_expr(c, out);
            slots_of_stmt(b, out);
        }
    }
}

fn slots(source: &str) -> Vec<(String, i32)> {
    let mut out = Vec::new();
    for s in resolve(source) {
        slots_of_stmt(&s, &mut out);
    }
    out
}

fn named(pairs: &[(&str, i32)]) -> Vec<(String, i32)> {
    pairs.iter().map(|(n, s)| (n.to_string(), *s)).collect()
}

#[test]
fn globals_keep_the_slot_of_a_global() {
    assert_eq!(
        slots("var a = 1; print a; a = 2; fun f() {} f();"),
        named(&[("a", -1), ("a", -1), ("f", -1)])
    );
}

#[test]
fn a_slot_counts_the_scopes_in_between() {
    assert_eq!(
        slots("var g; { var a; { var b; print a; print b; print g; { a = b; } } }"),
        named(&[("a", 1), ("b", 0), ("g", -1), ("b", 1), ("a", 2)])
    );
}

#[test]
fn a_use_before_the_declaration_refers_outwards() {
    assert_eq!(
        slots("var a; { fun show() { print a; } var a; print a; }"),
        named(&[("a", -1), ("a", 0)])
    );
}

#[test]
fn parameters_and_locals_share_the_scope_of_the_body() {
    assert_eq!(
        slots("{ var outer; fun f(p, q) { var l; print p; print l; print outer; print f; { print q; } } }"),
        named(&[("p", 0), ("l", 0), ("outer", 1), ("f", 1), ("q", 1)])
    );
}

#[test]
fn this_and_super_have_scopes_of_their_own() {
    assert_eq!(
        slots("class A { m() { print this; { print this; } } }"),
        named(&[("this", 1), ("this", 2)])
    );
    assert_eq!(
        slots("class A {} class B < A { m(p) { super.m(p); print this; } }"),
        named(&[("A", -1), ("super", 2), ("p", 0), ("this", 1)])
    );
    assert_eq!(
        slots("{ class A {} class B < A { m() { fun inner() { return super.m; } } } }"),
        named(&[("A", 0), ("super", 3)])
    );
}

#[test]
fn resolving_twice_gives_the_same_slots() {
    let source = "var g; { var a; fun f(p) { a = p; return g; } class C { init() { this.a = a; } } { print f(C()); } }";
    let once = Resolver::new().resolve_stmts(parse(source)).unwrap();
    let twice = Resolver::new().resolve_stmts(once.clone()).unwrap();
    assert_eq!(once, twice);
    let again = Resolver::new().resolve_stmts(parse(source)).unwrap();
    assert_eq!(once, again);
    assert_ne!(once, parse(source));
}

#[test]
fn slots_of_the_input_do_not_matter() {
    let name = |n: &str| Token {
        token_type: TokenType::Identifier,
        lexeme: n.to_string(),
        lit: None,
        line: 1,
    };
    let program = |slot: i32| {
        vec![Rc::new(Stmt::Block(vec![
            Rc::new(Stmt::Var(name("a"), None)),
            Rc::new(Stmt::Print(Rc::new(Expr::Variable(name("a"), slot)))),
            Rc::new(Stmt::Print(Rc::new(Expr::Variable(name("b"), slot)))),
        ]))]
    };
    let expected = Resolver::new().resolve_stmts(program(-1)).unwrap();
    assert_eq!(Resolver::new().resolve_stmts(program(7)).unwrap(), expected);
    let mut found = Vec::new();
    slots_of_stmt(&expected[0], &mut found);
    assert_eq!(found, named(&[("a", 0), ("b", -1)]));
}

#[test]
fn the_resolver_ends_where_it_began() {
    let mut resolver = Resolver::new();
    assert!(resolver.scopes.is_empty());
    assert_eq!(resolver.function_type, FunctionType::Outside);
    assert_eq!(resolver.class_type, ClassType::Outside);
    resolver
        .resolve_stmts(parse("class A { init() { { var a; } } } fun f() { return 1; }"))
        .unwrap();
    assert!(resolver.scopes.is_empty());
    assert_eq!(resolver.function_type, FunctionType::Outside);
    assert_eq!(resolver.class_type, ClassType::Outside);
}

#[test]
fn scopes_open_and_close() {
    let mut resolver = Resolver::new();
    resolver.end_scope();
    assert_eq!(resolver.scopes.len(), 0);
    resolver.begin_scope();
    resolver.begin_scope();
    assert_eq!(resolver.scopes.len(), 2);
    let x = Token {
        token_type: TokenType::Identifier,
        lexeme: "x".to_string(),
        lit: None,
        line: 3,
    };
    assert_eq!(resolver.resolve_local(&x), Ok(-1));
    resolver.scopes[0].insert("x".to_string(), true);
    assert_eq!(resolver.resolve_local(&x), Ok(1));
    resolver.scopes[1].insert("x".to_string(), true);
    assert_eq!(resolver.resolve_local(&x), Ok(0));
    resolver.end_scope();
    assert_eq!(resolver.resolve_local(&x), Ok(0));
    resolver.end_scope();
    assert_eq!(resolver.resolve_local(&x), Ok(-1));
}

fn error_of(source: &str) -> (String, String, Option<usize>) {
    let err = Resolver::new().resolve_stmts(parse(source)).unwrap_err();
    (err.kind, err.msg, err.line)
}

#[test]
fn static_errors() {
    let resolve = |msg: &str, line: usize| ("resolve error".to_string(), msg.to_string(), Some(line));
    assert_eq!(
        error_of("{\n var a;\n var a;\n}"),
        resolve("variable `a` is already declared in this scope", 3)
    );
    assert_eq!(
        error_of("{ var a = a; }"),
        resolve("can't read local variable in its own initializer", 1)
    );
    assert_eq!(
        error_of("\nreturn;"),
        resolve("can't return from top-level code", 2)
    );
    assert_eq!(
        error_of("class A { init() { return this; } }"),
        resolve("can't return a value from an initializer", 1)
    );
    assert_eq!(
        error_of("fun f() { print this; }"),
        resolve("can't use 'this' outside of a class", 1)
    );
    assert_eq!(
        error_of("fun f() { super.m(); }"),
        resolve("can't use 'super' outside of a class", 1)
    );
    assert_eq!(
        error_of("class A { m() { super.m(); } }"),
        resolve("can't use 'super' in a class with no superclass", 1)
    );
    let stmts = vec![Rc::new(Stmt::Class(
        Token {
            token_type: TokenType::Identifier,
            lexeme: "A".to_string(),
            lit: None,
            line: 4,
        },
        None,
        vec![Rc::new(Stmt::Block(Vec::new()))],
    ))];
    let err = Resolver::new().resolve_stmts(stmts).unwrap_err();
    assert_eq!(
        (err.kind, err.msg, err.line),
        resolve("only functions can be methods of a class", 4)
    );
}

#[test]
fn what_is_no_static_error() {
    resolve("var a; var a;");
    resolve("fun f() { return; } class A { init() { return; } m() { return 1; } }");
    resolve("class A { m() { fun inner() { return this; } } }");
    resolve("{ var a; { var a; } }");
}
