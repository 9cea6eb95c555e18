use rlox::expr::Expr;
use rlox::parser::Parser;
use rlox::scanner::Scanner;
use rlox::stmt::Stmt;
use rlox::token::{Literal, Token, TokenType};
use std::rc::Rc;

fn parser_on(source: &str) -> Parser {
    let mut scanner = Scanner {
        source: source.chars().collect(),
        ..Default::default()
    };
    Parser {
        tokens: scanner.scan_tokens().unwrap(),
        current: 0,
    }
}

fn parse(source: &str) -> Vec<Rc<Stmt>> {
    parser_on(source).parse().unwrap()
}

fn number(text: &str) -> Rc<Expr> {
    Rc::new(Expr::Literal(Literal::Number(text.to_string())))
}

fn token(token_type: TokenType, lexeme: &str, line: usize) -> Token {
    Token {
        token_type,
        lexeme: lexeme.to_string(),
        lit: None,
        line,
    }
}

fn variable(name: &str) -> Rc<Expr> {
    Rc::new(Expr::Variable(token(TokenType::Identifier, name, 1), -1))
}

#[test]
fn test_expression() {
    let s = "1 + 2";
    let mut scanner = Scanner {
        source: s.chars().collect(),
        ..Default::default()
    };
    let tokens = scanner.scan_tokens().unwrap();
    let mut parser = Parser {
        tokens: tokens,
        current: 0,
    };
    assert_eq!(
        parser.expression().unwrap(),
        Expr::Binary(
            Rc::new(Expr::Literal(Literal::Number("1".to_string()))),
            Token {
                token_type: TokenType::Plus,
                lexeme: "+".to_string(),
                lit: None,
                line: 1
            },
            Rc::new(Expr::Literal(Literal::Number("2".to_string())))
        )
    );
}

#[test]
fn factors_bind_tighter_than_terms() {
    let mut parser = parser_on("1 + 2 * 3");
    assert_eq!(
        parser.expression().unwrap(),
        Expr::Binary(
            number("1"),
            token(TokenType::Plus, "+", 1),
            Rc::new(Expr::Binary(
                number("2"),
                token(TokenType::Star, "*", 1),
                number("3")
            ))
        )
    );
    assert_eq!(parser.current, 5);
}

#[test]
fn binary_operators_associate_to_the_left() {
    let mut parser = parser_on("1 - 2 - 3");
    assert_eq!(
        parser.expression().unwrap(),
        Expr::Binary(
            Rc::new(Expr::Binary(
                number("1"),
                token(TokenType::Minus, "-", 1),
                number("2")
            )),
            token(TokenType::Minus, "-", 1),
            number("3")
        )
    );
}

#[test]
fn chained_logical_operators() {
    let mut parser = parser_on("a or b or c");
    assert_eq!(
        parser.or().unwrap(),
        Expr::Logical(
            Rc::new(Expr::Logical(
                variable("a"),
                token(TokenType::Or, "or", 1),
                variable("b")
            )),
            token(TokenType::Or, "or", 1),
            variable("c")
        )
    );
    let mut parser = parser_on("a and b and c or d");
    assert_eq!(
        parser.expression().unwrap(),
        Expr::Logical(
            Rc::new(Expr::Logical(
                Rc::new(Expr::Logical(
                    variable("a"),
                    token(TokenType::And, "and", 1),
                    variable("b")
                )),
                token(TokenType::And, "and", 1),
                variable("c")
            )),
            token(TokenType::Or, "or", 1),
            variable("d")
        )
    );
    let mut parser = parser_on("a and b");
    assert_eq!(
        parser.and().unwrap(),
        Expr::Logical(
            variable("a"),
            token(TokenType::And, "and", 1),
            variable("b")
        )
    );
}

#[test]
fn assignment_is_right_associative() {
    let mut parser = parser_on("a = b = 1");
    assert_eq!(
        parser.assignment().unwrap(),
        Expr::Assign(
            token(TokenType::Identifier, "a", 1),
            Rc::new(Expr::Assign(
                token(TokenType::Identifier, "b", 1),
                number("1"),
                -1
            )),
            -1
        )
    );
}

#[test]
fn property_access_and_assignment() {
    let mut parser = parser_on("a.b.c = d.e(1)");
    assert_eq!(
        parser.expression().unwrap(),
        Expr::SetProperty(
            Rc::new(Expr::Get(variable("a"), token(TokenType::Identifier, "b", 1))),
            token(TokenType::Identifier, "c", 1),
            Rc::new(Expr::Call(
                Rc::new(Expr::Get(variable("d"), token(TokenType::Identifier, "e", 1))),
                token(TokenType::RightParen, ")", 1),
                vec![number("1")]
            ))
        )
    );
}

#[test]
fn unary_grouping_this_and_super() {
    let mut parser = parser_on("!-(this)");
    assert_eq!(
        parser.expression().unwrap(),
        Expr::Unary(
            token(TokenType::Bang, "!", 1),
            Rc::new(Expr::Unary(
                token(TokenType::Minus, "-", 1),
                Rc::new(Expr::Grouping(Rc::new(Expr::This(
                    token(TokenType::This, "this", 1),
                    -1
                ))))
            ))
        )
    );
    let mut parser = parser_on("super.greet");
    assert_eq!(
        parser.expression().unwrap(),
        Expr::Super(
            token(TokenType::Super, "super", 1),
            token(TokenType::Identifier, "greet", 1),
            -1
        )
    );
}

#[test]
fn literals() {
    let mut parser = parser_on("true");
    assert_eq!(
        parser.expression().unwrap(),
        Expr::Literal(Literal::Bool(true))
    );
    let mut parser = parser_on("false");
    assert_eq!(
        parser.expression().unwrap(),
        Expr::Literal(Literal::Bool(false))
    );
    let mut parser = parser_on("nil");
    assert_eq!(parser.expression().unwrap(), Expr::Literal(Literal::Nil));
    let mut parser = parser_on("\"hi\"");
    assert_eq!(
        parser.expression().unwrap(),
        Expr::Literal(Literal::Str("hi".to_string()))
    );
}

#[test]
fn a_for_loop_is_a_block_around_a_while_loop() {
    let stmts = parse("for (var i = 0; i < 3; i = i + 1) print i;");
    assert_eq!(stmts.len(), 1);
    let expected = Stmt::Block(vec![
        Rc::new(Stmt::Var(
            token(TokenType::Identifier, "i", 1),
            Some(number("0")),
        )),
        Rc::new(Stmt::While(
            Rc::new(Expr::Binary(
                variable("i"),
                token(TokenType::Less, "<", 1),
                number("3"),
            )),
            Rc::new(Stmt::Block(vec![
                Rc::new(Stmt::Print(variable("i"))),
                Rc::new(Stmt::Expr(Rc::new(Expr::Assign(
                    token(TokenType::Identifier, "i", 1),
                    Rc::new(Expr::Binary(
                        variable("i"),
                        token(TokenType::Plus, "+", 1),
                        number("1"),
                    )),
                    -1,
                )))),
            ])),
        )),
    ]);
    assert_eq!(*stmts[0], expected);
}

#[test]
fn a_for_loop_without_clauses_runs_while_true() {
    let stmts = parse("for (;;) print 1;");
    let expected = Stmt::Block(vec![Rc::new(Stmt::While(
        Rc::new(Expr::Literal(Literal::Bool(true))),
        Rc::new(Stmt::Print(number("1"))),
    ))]);
    assert_eq!(*stmts[0], expected);
}

#[test]
fn declarations_and_statements() {
    let stmts = parse(
        "var a;\nfun f(x, y) { return x; }\nclass B < A { init() {} m(p) { return; } }\nif (a) print 1; else { a = 2; }\nwhile (a) a;",
    );
    assert_eq!(stmts.len(), 5);
    assert_eq!(
        *stmts[0],
        Stmt::Var(token(TokenType::Identifier, "a", 1), None)
    );
    match &*stmts[1] {
        Stmt::Func(name, params, body) => {
            assert_eq!(name.lexeme, "f");
            assert_eq!(params.len(), 2);
            assert_eq!(params[1].lexeme, "y");
            assert_eq!(body.len(), 1);
            match &*body[0] {
                Stmt::Return(keyword, Some(_)) => assert_eq!(keyword.token_type, TokenType::Return),
                other => panic!("not a return: {:?}", other),
            }
        }
        other => panic!("not a function: {:?}", other),
    }
    match &*stmts[2] {
        Stmt::Class(name, Some(superclass), methods) => {
            assert_eq!(name.lexeme, "B");
            assert_eq!(
                **superclass,
                Expr::Variable(token(TokenType::Identifier, "A", 3), -1)
            );
            assert_eq!(methods.len(), 2);
            assert!(matches!(&*methods[0], Stmt::Func(n, p, b) if n.lexeme == "init" && p.is_empty() && b.is_empty()));
            assert!(matches!(&*methods[1], Stmt::Func(n, p, _) if n.lexeme == "m" && p.len() == 1));
        }
        other => panic!("not a class: {:?}", other),
    }
    assert!(matches!(&*stmts[3], Stmt::If(_, _, Some(_))));
    assert!(matches!(&*stmts[4], Stmt::While(_, _)));
}

fn parse_error(source: &str) -> (String, Option<usize>) {
    let err = parser_on(source).parse().unwrap_err();
    assert_eq!(err.kind, "parse error");
    (err.msg, err.line)
}

#[test]
fn parse_errors_name_what_is_missing() {
    assert_eq!(
        parse_error("print 1"),
        ("Expect ';' after value.".to_string(), Some(1))
    );
    assert_eq!(
        parse_error("var a = 1"),
        (
            "Expect ';' after variable declaration.".to_string(),
            Some(1)
        )
    );
    assert_eq!(
        parse_error("print (1;"),
        ("Expect ')' after expression.".to_string(), Some(1))
    );
    assert_eq!(
        parse_error("\n{ print 1;"),
        ("Expect '}' after block.".to_string(), Some(2))
    );
    assert_eq!(
        parse_error("1 = 2;"),
        ("invalid assignment target".to_string(), Some(1))
    );
    assert_eq!(
        parse_error("print ;"),
        ("expect expression".to_string(), Some(1))
    );
    assert_eq!(
        parse_error("fun (a) {}"),
        ("expect function name".to_string(), Some(1))
    );
    assert_eq!(
        parse_error("class A { 1 }"),
        ("expect method name".to_string(), Some(1))
    );
    assert_eq!(
        parse_error("f(1, 2;"),
        ("Expect ')' after arguments.".to_string(), Some(1))
    );
    assert_eq!(
        parse_error("if 1) print 1;"),
        ("Expect '(' after 'if'.".to_string(), Some(1))
    );
    assert_eq!(
        parse_error("for (;; print 1;"),
        ("expect expression".to_string(), Some(1))
    );
}

#[test]
fn at_most_255_arguments() {
    let args: Vec<String> = (0..255).map(|_| "1".to_string()).collect();
    let ok = format!("f({});", args.join(", "));
    assert_eq!(parse(&ok).len(), 1);
    let args: Vec<String> = (0..256).map(|_| "1".to_string()).collect();
    let too_many = format!("f({});", args.join(", "));
    assert_eq!(
        parse_error(&too_many),
        ("Can't have more than 255 arguments.".to_string(), Some(1))
    );
}

#[test]
fn an_empty_program() {
    assert_eq!(parse("").len(), 0);
    let mut parser = Parser {
        tokens: Vec::new(),
        current: 0,
    };
    assert_eq!(parser.parse().unwrap().len(), 0);
}

#[test]
fn every_parse_error() {
    for (source, msg) in [
        ("class {}", "expect class name"),
        ("class A < {}", "expect superclass name"),
        ("class A m() {}", "expect '{' before class body"),
        ("class A { m() {}", "expect '}' after class body"),
        ("class A { m {} }", "expect '(' after method name"),
        ("fun f {}", "expect '(' after function name"),
        ("fun f(1) {}", "expect parameter name"),
        ("fun f(a, ) {}", "expect parameter name"),
        ("fun f(a b) {}", "expect ')' after parameters"),
        ("fun f(a) print a;", "Expect '{' before body."),
        ("var 1 = 2;", "expect variable name"),
        ("fun f() { return 1 }", "Expect ';' after return value."),
        ("while true) {}", "Expect '(' after while."),
        ("while (true {}", "Expect ')' after condition."),
        ("if (true print 1;", "Expect ')' after 'if' condition."),
        ("for var i = 0;;) {}", "Expect '(' after for."),
        ("for (;true) {}", "Expect ';' after loop condition."),
        ("for (;;1 {}", "Expect ')' after for clauses."),
        ("print a.;", "Expect property name after '.'."),
        ("print super;", "Expect '.' after 'super'."),
        ("print super.;", "Expect superclass method name."),
        ("print 1 +;", "expect expression"),
        ("print", "expect expression"),
    ] {
        assert_eq!(parse_error(source), (msg.to_string(), Some(1)), "{}", source);
    }
    let params: Vec<String> = (0..256).map(|i| format!("p{}", i)).collect();
    assert_eq!(
        parse_error(&format!("fun f({}) {{}}", params.join(", "))),
        ("Can't have more than 255 parameters.".to_string(), Some(1))
    );
    let params: Vec<String> = (0..255).map(|i| format!("p{}", i)).collect();
    assert_eq!(parse(&format!("fun f({}) {{}}", params.join(", "))).len(), 1);
}

#[test]
fn expressions_are_written_out() {
    let shown = |source: &str| parser_on(source).expression().unwrap().to_string();
    assert_eq!(
        shown("1 + 2"),
        "binary: (literal: (1) + literal: (2))"
    );
    assert_eq!(shown("a = nil"), "assign: (a, literal: (nil))");
    assert_eq!(
        shown("f(1, \"two\", x)"),
        "call: (variable: (f) ) [literal: (1), literal: (two), variable: (x)])"
    );
    assert_eq!(shown("f()"), "call: (variable: (f) ) [])");
    assert_eq!(shown("a.b"), "get: (variable: (a) b)");
    assert_eq!(shown("(true)"), "grouping: (literal: (true))");
    assert_eq!(
        shown("a or false"),
        "logical: (variable: (a) or literal: (false))"
    );
    assert_eq!(shown("a.b = 1"), "set: (variable: (a) b literal: (1))");
    assert_eq!(shown("super.m"), "super: (super m)");
    assert_eq!(shown("this"), "this: (this)");
    assert_eq!(shown("-a"), "unary: (- variable: (a))");
    assert_eq!(Literal::Number("1.50".to_string()).to_string(), "1.50");
    assert_eq!(Literal::Str("s".to_string()).to_string(), "s");
    assert_eq!(Literal::Bool(false).to_string(), "false");
    assert_eq!(Literal::Nil.to_string(), "nil");
}
