//! The parser: tokens to a syntax tree, by recursive descent.
use crate::error::{Error, ErrorModel};
use crate::expr::{Expr, ExprModel, exprs_model};
use crate::grammar::{
    Parsed, Tokens, check_at, desugar_for, error_at, expect, is_operator, kind_at, level_measure,
    parse_arguments, parse_assignment, parse_block, parse_call, parse_call_rest, parse_class,
    parse_condition, parse_declaration, parse_expr_statement, parse_expression, parse_finish_call,
    parse_for, parse_for_init, parse_function, parse_if, parse_level, parse_level_rest,
    parse_methods, parse_optional, parse_parameters, parse_primary, parse_print, parse_program,
    parse_return, parse_statement, parse_terminated, parse_unary, parse_var_declaration,
    parse_while, remaining,
};
use crate::stmt::{Stmt, StmtModel, stmts_model};
use crate::text::push_text;
use crate::token::{Literal, Token, TokenModel, TokenType, tokens_model};
use std::rc::Rc;
use vstd::prelude::*;
use vstd::string::StringExecFns;

verus! {

/// The parser's state: the tokens and the position of the next one.
pub struct Parser {
    pub tokens: Vec<Token>,
    pub current: usize,
}

pub open spec fn expr_parsed(r: Result<Expr, Error>, pos: usize) -> Parsed<ExprModel> {
    match r {
        Ok(e) => Ok((e@, pos as nat)),
        Err(e) => Err(e@),
    }
}

pub open spec fn stmt_parsed(r: Result<Stmt, Error>, pos: usize) -> Parsed<StmtModel> {
    match r {
        Ok(s) => Ok((s@, pos as nat)),
        Err(e) => Err(e@),
    }
}

pub open spec fn stmts_parsed(r: Result<Vec<Rc<Stmt>>, Error>, pos: usize) -> Parsed<Seq<StmtModel>> {
    match r {
        Ok(s) => Ok((stmts_model(s@), pos as nat)),
        Err(e) => Err(e@),
    }
}

pub open spec fn exprs_parsed(r: Result<Vec<Rc<Expr>>, Error>, pos: usize) -> Parsed<Seq<ExprModel>> {
    match r {
        Ok(s) => Ok((exprs_model(s@), pos as nat)),
        Err(e) => Err(e@),
    }
}

pub open spec fn tokens_parsed(r: Result<Vec<Token>, Error>, pos: usize) -> Parsed<Seq<TokenModel>> {
    match r {
        Ok(s) => Ok((tokens_model(s@), pos as nat)),
        Err(e) => Err(e@),
    }
}

pub open spec fn token_parsed(r: Result<Token, Error>, pos: usize) -> Result<nat, ErrorModel> {
    match r {
        Ok(_) => Ok(pos as nat),
        Err(e) => Err(e@),
    }
}

pub open spec fn option_parsed(r: Result<Option<Rc<Expr>>, Error>, pos: usize) -> Parsed<
    Option<ExprModel>,
> {
    match r {
        Ok(e) => Ok((crate::expr::expr_option_model(e), pos as nat)),
        Err(e) => Err(e@),
    }
}

/// Whether a token kind is a binary operator of a level.
pub fn operator_of(level: u8, kind: TokenType) -> (r: bool)
    ensures
        r == is_operator(level as nat, kind),
{
    if level == 0 {
        kind == TokenType::Or
    } else if level == 1 {
        kind == TokenType::And
    } else if level == 2 {
        kind == TokenType::BangEqual || kind == TokenType::EqualEqual
    } else if level == 3 {
        kind == TokenType::Greater || kind == TokenType::GreaterEqual || kind == TokenType::Less
            || kind == TokenType::LessEqual
    } else if level == 4 {
        kind == TokenType::Plus || kind == TokenType::Minus
    } else if level == 5 {
        kind == TokenType::Star || kind == TokenType::Slash
    } else {
        false
    }
}

/// The view of an optional statement.
pub open spec fn stmt_option_model(s: Option<Stmt>) -> Option<StmtModel> {
    match s {
        Some(s) => Some(s@),
        None => None,
    }
}

/// Writes a `for` loop as a block around a `while` loop.
pub fn desugar(
    init: Option<Stmt>,
    cond: Option<Rc<Expr>>,
    increment: Option<Rc<Expr>>,
    body: Stmt,
) -> (r: Stmt)
    ensures
        r@ == desugar_for(
            stmt_option_model(init),
            crate::expr::expr_option_model(cond),
            crate::expr::expr_option_model(increment),
            body@,
        ),
{
    let ghost inner = body@;
    let body = match increment {
        Some(inc) => {
            let mut both: Vec<Rc<Stmt>> = Vec::new();
            let step = Stmt::Expr(inc);
            assert(step@ == StmtModel::Expr(inc@));
            both.push(Rc::new(body));
            both.push(Rc::new(step));
            assert(stmts_model(both@) =~= seq![inner, step@]);
            let block = Stmt::Block(both);
            assert(block@ == StmtModel::Block(stmts_model(both@)));
            block
        },
        None => body,
    };
    let cond = match cond {
        Some(c) => c,
        None => {
            let always = Expr::Literal(Literal::Bool(true));
            assert(always@ == ExprModel::Literal(crate::token::LiteralModel::Bool(true)));
            Rc::new(always)
        },
    };
    let repeat = Stmt::While(cond, Rc::new(body));
    assert(repeat@ == StmtModel::While(cond@, Box::new(body@)));
    let mut stmts: Vec<Rc<Stmt>> = Vec::new();
    match init {
        Some(init) => {
            stmts.push(Rc::new(init));
            stmts.push(Rc::new(repeat));
            assert(stmts_model(stmts@) =~= seq![init@, repeat@]);
        },
        None => {
            stmts.push(Rc::new(repeat));
            assert(stmts_model(stmts@) =~= seq![repeat@]);
        },
    }
    let block = Stmt::Block(stmts);
    assert(block@ == StmtModel::Block(stmts_model(stmts@)));
    block
}

// Termination: every function of the parser is measured by the number of
// tokens that are left and, second, by a rank. A function calls another one
// at the same position only if that one has a lower rank; after a token has
// been read any function may be called. The ranks are those of the grammar,
// with room between them for the helpers of this file.
impl Parser {
    /// The tokens as the grammar sees them.
    pub open spec fn model(&self) -> Tokens {
        tokens_model(self.tokens@)
    }

    /// The position as the grammar sees it.
    pub open spec fn pos(&self) -> nat {
        self.current as nat
    }

    /// The number of tokens left.
    pub open spec fn left(&self) -> nat {
        remaining(self.model(), self.pos())
    }

    /// Parses a program: declarations up to the end of the tokens.
    pub fn parse(&mut self) -> (r: Result<Vec<Rc<Stmt>>, Error>)
        ensures
            final(self).tokens == old(self).tokens,
            stmts_parsed(r, final(self).current) == parse_program(
                old(self).model(),
                old(self).pos(),
                Seq::empty(),
            ),
    {
        let mut stmts: Vec<Rc<Stmt>> = Vec::new();
        assert(stmts_model(stmts@) =~= Seq::empty());
        while !self.is_at_end()
            invariant
                self.tokens == old(self).tokens,
                parse_program(self.model(), self.pos(), stmts_model(stmts@)) == parse_program(
                    old(self).model(),
                    old(self).pos(),
                    Seq::empty(),
                ),
            decreases self.left(),
        {
            let ghost before = stmts@;
            match self.declaration() {
                Ok(s) => {
                    stmts.push(Rc::new(s));
                    assert(stmts_model(stmts@) =~= stmts_model(before).push(s@));
                },
                Err(e) => {
                    return Err(e);
                },
            }
        }
        Ok(stmts)
    }

    fn declaration(&mut self) -> (r: Result<Stmt, Error>)
        ensures
            final(self).tokens == old(self).tokens,
            stmt_parsed(r, final(self).current) == parse_declaration(
                old(self).model(),
                old(self).pos(),
            ),
            r is Ok ==> old(self).current < final(self).current <= final(self).tokens.len(),
        decreases old(self).left(), 139nat,
    {
        let kind = self.kind();
        if kind == TokenType::Class {
            self.advance();
            self.class_declaration()
        } else if kind == TokenType::Fun {
            self.advance();
            self.function("function")
        } else if kind == TokenType::Var {
            self.advance();
            self.var_declaration()
        } else {
            self.statement()
        }
    }

    #[verifier::loop_isolation(false)]
    fn class_declaration(&mut self) -> (r: Result<Stmt, Error>)
        ensures
            final(self).tokens == old(self).tokens,
            stmt_parsed(r, final(self).current) == parse_class(old(self).model(), old(self).pos()),
            r is Ok ==> old(self).current < final(self).current <= final(self).tokens.len(),
        decreases old(self).left(), 138nat,
    {
        let name = self.consume(TokenType::Identifier, String::from_str("expect class name"))?;
        let superclass = if self.check(TokenType::Less) {
            self.advance();
            let parent = self.consume(
                TokenType::Identifier,
                String::from_str("expect superclass name"),
            )?;
            Some(Rc::new(Expr::Variable(parent, -1)))
        } else {
            None
        };
        self.consume(TokenType::LeftBrace, String::from_str("expect '{' before class body"))?;
        let ghost start = self.pos();
        let mut methods: Vec<Rc<Stmt>> = Vec::new();
        assert(stmts_model(methods@) =~= Seq::empty());
        while !self.check(TokenType::RightBrace) && !self.is_at_end()
            invariant
                self.tokens == old(self).tokens,
                old(self).current < self.current <= self.tokens.len(),
                parse_methods(self.model(), self.pos(), stmts_model(methods@)) == parse_methods(
                    old(self).model(),
                    start,
                    Seq::empty(),
                ),
            decreases self.left(),
        {
            let ghost before = methods@;
            match self.function("method") {
                Ok(m) => {
                    methods.push(Rc::new(m));
                    assert(stmts_model(methods@) =~= stmts_model(before).push(m@));
                },
                Err(e) => {
                    return Err(e);
                },
            }
        }
        self.consume(TokenType::RightBrace, String::from_str("expect '}' after class body"))?;
        Ok(Stmt::Class(name, superclass, methods))
    }

    #[verifier::loop_isolation(false)]
    fn function(&mut self, kind: &str) -> (r: Result<Stmt, Error>)
        ensures
            final(self).tokens == old(self).tokens,
            stmt_parsed(r, final(self).current) == parse_function(
                old(self).model(),
                old(self).pos(),
                kind@,
            ),
            r is Ok ==> old(self).current < final(self).current <= final(self).tokens.len(),
        decreases old(self).left(), 137nat,
    {
        let mut msg = String::from_str("expect ");
        push_text(&mut msg, kind);
        push_text(&mut msg, " name");
        let name = self.consume(TokenType::Identifier, msg)?;
        let mut msg = String::from_str("expect '(' after ");
        push_text(&mut msg, kind);
        push_text(&mut msg, " name");
        self.consume(TokenType::LeftParen, msg)?;
        let mut params: Vec<Token> = Vec::new();
        assert(tokens_model(params@) =~= Seq::empty());
        if !self.check(TokenType::RightParen) {
            let ghost start = self.pos();
            loop
                invariant
                    self.tokens == old(self).tokens,
                    old(self).current < self.current <= self.tokens.len(),
                    parse_parameters(self.model(), self.pos(), tokens_model(params@))
                        == parse_parameters(old(self).model(), start, Seq::empty()),
                decreases self.left(),
            {
                if params.len() >= 255 {
                    return Err(
                        self.error(String::from_str("Can't have more than 255 parameters.")),
                    );
                }
                let ghost before = params@;
                let param = self.consume(
                    TokenType::Identifier,
                    String::from_str("expect parameter name"),
                )?;
                params.push(param);
                assert(tokens_model(params@) =~= tokens_model(before).push(param@));
                if self.check(TokenType::Comma) {
                    self.advance();
                } else {
                    break ;
                }
            }
        }
        self.consume(TokenType::RightParen, String::from_str("expect ')' after parameters"))?;
        self.consume(TokenType::LeftBrace, String::from_str("Expect '{' before body."))?;
        let body = self.block()?;
        Ok(Stmt::Func(name, params, body))
    }

    fn var_declaration(&mut self) -> (r: Result<Stmt, Error>)
        ensures
            final(self).tokens == old(self).tokens,
            stmt_parsed(r, final(self).current) == parse_var_declaration(
                old(self).model(),
                old(self).pos(),
            ),
            r is Ok ==> old(self).current < final(self).current <= final(self).tokens.len(),
        decreases old(self).left(), 136nat,
    {
        let name = self.consume(TokenType::Identifier, String::from_str("expect variable name"))?;
        let init = if self.check(TokenType::Equal) {
            self.advance();
            Some(Rc::new(self.expression()?))
        } else {
            None
        };
        self.consume(
            TokenType::Semicolon,
            String::from_str("Expect ';' after variable declaration."),
        )?;
        Ok(Stmt::Var(name, init))
    }

    fn statement(&mut self) -> (r: Result<Stmt, Error>)
        ensures
            final(self).tokens == old(self).tokens,
            stmt_parsed(r, final(self).current) == parse_statement(
                old(self).model(),
                old(self).pos(),
            ),
            r is Ok ==> old(self).current < final(self).current <= final(self).tokens.len(),
        decreases old(self).left(), 135nat,
    {
        let kind = self.kind();
        if kind == TokenType::Print {
            self.advance();
            self.print_statement()
        } else if kind == TokenType::LeftBrace {
            self.advance();
            self.block_statement()
        } else if kind == TokenType::If {
            self.advance();
            self.if_statement()
        } else if kind == TokenType::While {
            self.advance();
            self.while_statement()
        } else if kind == TokenType::For {
            self.advance();
            self.for_statement()
        } else if kind == TokenType::Return {
            self.advance();
            self.return_statement()
        } else {
            self.expr_statement()
        }
    }

    /// An expression and the semicolon after it.
    fn terminated(&mut self) -> (r: Result<Expr, Error>)
        ensures
            final(self).tokens == old(self).tokens,
            expr_parsed(r, final(self).current) == parse_terminated(
                old(self).model(),
                old(self).pos(),
            ),
            r is Ok ==> old(self).current < final(self).current <= final(self).tokens.len(),
        decreases old(self).left(), 95nat,
    {
        let expr = self.expression()?;
        self.consume(TokenType::Semicolon, String::from_str("Expect ';' after value."))?;
        Ok(expr)
    }

    fn print_statement(&mut self) -> (r: Result<Stmt, Error>)
        ensures
            final(self).tokens == old(self).tokens,
            stmt_parsed(r, final(self).current) == parse_print(old(self).model(), old(self).pos()),
            r is Ok ==> old(self).current < final(self).current <= final(self).tokens.len(),
        decreases old(self).left(), 134nat,
    {
        let expr = self.terminated()?;
        Ok(Stmt::Print(Rc::new(expr)))
    }

    fn return_statement(&mut self) -> (r: Result<Stmt, Error>)
        ensures
            final(self).tokens == old(self).tokens,
            stmt_parsed(r, final(self).current) == parse_return(old(self).model(), old(self).pos()),
            r is Ok ==> old(self).current < final(self).current <= final(self).tokens.len(),
        decreases old(self).left(), 134nat,
    {
        if self.current == 0 || self.current > self.tokens.len() {
            return Err(self.error(String::from_str("expect expression")));
        }
        let keyword = self.previous();
        let value = self.optional(TokenType::Semicolon)?;
        self.consume(TokenType::Semicolon, String::from_str("Expect ';' after return value."))?;
        Ok(Stmt::Return(keyword, value))
    }

    /// An expression, unless a token of kind `end` comes next.
    fn optional(&mut self, end: TokenType) -> (r: Result<Option<Rc<Expr>>, Error>)
        ensures
            final(self).tokens == old(self).tokens,
            option_parsed(r, final(self).current) == parse_optional(
                old(self).model(),
                old(self).pos(),
                end,
            ),
            r is Ok ==> old(self).current <= final(self).current,
            r is Ok && old(self).current <= old(self).tokens.len() ==> final(self).current
                <= final(self).tokens.len(),
        decreases old(self).left(), 95nat,
    {
        if !self.check(end) {
            Ok(Some(Rc::new(self.expression()?)))
        } else {
            Ok(None)
        }
    }

    /// The statements of a block whose opening brace has been read, and the
    /// closing brace.
    #[verifier::loop_isolation(false)]
    fn block(&mut self) -> (r: Result<Vec<Rc<Stmt>>, Error>)
        ensures
            final(self).tokens == old(self).tokens,
            stmts_parsed(r, final(self).current) == parse_block(
                old(self).model(),
                old(self).pos(),
                Seq::empty(),
            ),
            r is Ok ==> old(self).current < final(self).current <= final(self).tokens.len(),
        decreases old(self).left(), 140nat,
    {
        let mut stmts: Vec<Rc<Stmt>> = Vec::new();
        assert(stmts_model(stmts@) =~= Seq::empty());
        while !self.check(TokenType::RightBrace) && !self.is_at_end()
            invariant
                self.tokens == old(self).tokens,
                old(self).current <= self.current,
                parse_block(self.model(), self.pos(), stmts_model(stmts@)) == parse_block(
                    old(self).model(),
                    old(self).pos(),
                    Seq::empty(),
                ),
            decreases self.left(),
        {
            let ghost before = stmts@;
            match self.declaration() {
                Ok(s) => {
                    stmts.push(Rc::new(s));
                    assert(stmts_model(stmts@) =~= stmts_model(before).push(s@));
                },
                Err(e) => {
                    return Err(e);
                },
            }
        }
        self.consume(TokenType::RightBrace, String::from_str("Expect '}' after block."))?;
        Ok(stmts)
    }

    fn block_statement(&mut self) -> (r: Result<Stmt, Error>)
        ensures
            final(self).tokens == old(self).tokens,
            stmt_parsed(r, final(self).current) == (match parse_block(
                old(self).model(),
                old(self).pos(),
                Seq::empty(),
            ) {
                Ok((stmts, p)) => Ok::<(StmtModel, nat), ErrorModel>((StmtModel::Block(stmts), p)),
                Err(e) => Err::<(StmtModel, nat), ErrorModel>(e),
            }),
            r is Ok ==> old(self).current < final(self).current <= final(self).tokens.len(),
        decreases old(self).left(), 141nat,
    {
        let stmts = self.block()?;
        Ok(Stmt::Block(stmts))
    }

    /// A condition in parentheses.
    fn condition(&mut self, open: &str, close: &str) -> (r: Result<Expr, Error>)
        ensures
            final(self).tokens == old(self).tokens,
            expr_parsed(r, final(self).current) == parse_condition(
                old(self).model(),
                old(self).pos(),
                open@,
                close@,
            ),
            r is Ok ==> old(self).current < final(self).current <= final(self).tokens.len(),
        decreases old(self).left(), 133nat,
    {
        self.consume(TokenType::LeftParen, String::from_str(open))?;
        let cond = self.expression()?;
        self.consume(TokenType::RightParen, String::from_str(close))?;
        Ok(cond)
    }

    fn if_statement(&mut self) -> (r: Result<Stmt, Error>)
        ensures
            final(self).tokens == old(self).tokens,
            stmt_parsed(r, final(self).current) == parse_if(old(self).model(), old(self).pos()),
            r is Ok ==> old(self).current < final(self).current <= final(self).tokens.len(),
        decreases old(self).left(), 134nat,
    {
        let cond = self.condition("Expect '(' after 'if'.", "Expect ')' after 'if' condition.")?;
        let then_branch = Rc::new(self.statement()?);
        let else_branch = if self.check(TokenType::Else) {
            self.advance();
            Some(Rc::new(self.statement()?))
        } else {
            None
        };
        Ok(Stmt::If(Rc::new(cond), then_branch, else_branch))
    }

    fn while_statement(&mut self) -> (r: Result<Stmt, Error>)
        ensures
            final(self).tokens == old(self).tokens,
            stmt_parsed(r, final(self).current) == parse_while(old(self).model(), old(self).pos()),
            r is Ok ==> old(self).current < final(self).current <= final(self).tokens.len(),
        decreases old(self).left(), 134nat,
    {
        let cond = self.condition("Expect '(' after while.", "Expect ')' after condition.")?;
        let body = self.statement()?;
        Ok(Stmt::While(Rc::new(cond), Rc::new(body)))
    }

    /// The initializer of a `for` loop.
    fn for_init(&mut self) -> (r: Result<Option<Stmt>, Error>)
        ensures
            final(self).tokens == old(self).tokens,
            (match r {
                Ok(s) => Ok::<(Option<StmtModel>, nat), ErrorModel>(
                    (stmt_option_model(s), final(self).pos()),
                ),
                Err(e) => Err::<(Option<StmtModel>, nat), ErrorModel>(e@),
            }) == parse_for_init(old(self).model(), old(self).pos()),
            r is Ok ==> old(self).current < final(self).current <= final(self).tokens.len(),
        decreases old(self).left(), 137nat,
    {
        if self.check(TokenType::Semicolon) {
            self.advance();
            Ok(None)
        } else if self.check(TokenType::Var) {
            self.advance();
            Ok(Some(self.var_declaration()?))
        } else {
            Ok(Some(self.expr_statement()?))
        }
    }

    /// Parses a `for` loop and writes it as a block around a `while` loop.
    fn for_statement(&mut self) -> (r: Result<Stmt, Error>)
        ensures
            final(self).tokens == old(self).tokens,
            stmt_parsed(r, final(self).current) == parse_for(old(self).model(), old(self).pos()),
            r is Ok ==> old(self).current < final(self).current <= final(self).tokens.len(),
        decreases old(self).left(), 138nat,
    {
        self.consume(TokenType::LeftParen, String::from_str("Expect '(' after for."))?;
        let init = self.for_init()?;
        let cond = self.optional(TokenType::Semicolon)?;
        self.consume(TokenType::Semicolon, String::from_str("Expect ';' after loop condition."))?;
        let inc = self.optional(TokenType::RightParen)?;
        self.consume(TokenType::RightParen, String::from_str("Expect ')' after for clauses."))?;
        let body = self.statement()?;
        Ok(desugar(init, cond, inc, body))
    }

    fn expr_statement(&mut self) -> (r: Result<Stmt, Error>)
        ensures
            final(self).tokens == old(self).tokens,
            stmt_parsed(r, final(self).current) == parse_expr_statement(
                old(self).model(),
                old(self).pos(),
            ),
            r is Ok ==> old(self).current < final(self).current <= final(self).tokens.len(),
        decreases old(self).left(), 134nat,
    {
        let expr = self.terminated()?;
        Ok(Stmt::Expr(Rc::new(expr)))
    }

    /// Parses an expression.
    pub fn expression(&mut self) -> (r: Result<Expr, Error>)
        ensures
            final(self).tokens == old(self).tokens,
            expr_parsed(r, final(self).current) == parse_expression(
                old(self).model(),
                old(self).pos(),
            ),
            r is Ok ==> old(self).current < final(self).current <= final(self).tokens.len(),
        decreases old(self).left(), 80nat,
    {
        self.assignment()
    }

    /// Parses an assignment, or what binds tighter.
    pub fn assignment(&mut self) -> (r: Result<Expr, Error>)
        ensures
            final(self).tokens == old(self).tokens,
            expr_parsed(r, final(self).current) == parse_assignment(
                old(self).model(),
                old(self).pos(),
            ),
            r is Ok ==> old(self).current < final(self).current <= final(self).tokens.len(),
        decreases old(self).left(), 79nat,
    {
        let expr = self.or()?;
        if self.check(TokenType::Equal) {
            let equals = self.error(String::from_str("invalid assignment target"));
            self.advance();
            let value = self.assignment()?;
            match expr {
                Expr::Variable(token, _) => Ok(Expr::Assign(token, Rc::new(value), -1)),
                Expr::Get(object, name) => Ok(Expr::SetProperty(object, name, Rc::new(value))),
                _ => Err(equals),
            }
        } else {
            Ok(expr)
        }
    }

    /// Parses `or` and what binds tighter.
    pub fn or(&mut self) -> (r: Result<Expr, Error>)
        ensures
            final(self).tokens == old(self).tokens,
            expr_parsed(r, final(self).current) == parse_level(
                old(self).model(),
                old(self).pos(),
                0,
            ),
            r is Ok ==> old(self).current < final(self).current <= final(self).tokens.len(),
        decreases old(self).left(), 78nat,
    {
        self.binary_level(0)
    }

    /// Parses `and` and what binds tighter.
    pub fn and(&mut self) -> (r: Result<Expr, Error>)
        ensures
            final(self).tokens == old(self).tokens,
            expr_parsed(r, final(self).current) == parse_level(
                old(self).model(),
                old(self).pos(),
                1,
            ),
            r is Ok ==> old(self).current < final(self).current <= final(self).tokens.len(),
        decreases old(self).left(), 55nat,
    {
        self.binary_level(1)
    }

    fn equality(&mut self) -> (r: Result<Expr, Error>)
        ensures
            final(self).tokens == old(self).tokens,
            expr_parsed(r, final(self).current) == parse_level(
                old(self).model(),
                old(self).pos(),
                2,
            ),
            r is Ok ==> old(self).current < final(self).current <= final(self).tokens.len(),
        decreases old(self).left(), 52nat,
    {
        self.binary_level(2)
    }

    fn comparison(&mut self) -> (r: Result<Expr, Error>)
        ensures
            final(self).tokens == old(self).tokens,
            expr_parsed(r, final(self).current) == parse_level(
                old(self).model(),
                old(self).pos(),
                3,
            ),
            r is Ok ==> old(self).current < final(self).current <= final(self).tokens.len(),
        decreases old(self).left(), 49nat,
    {
        self.binary_level(3)
    }

    fn term(&mut self) -> (r: Result<Expr, Error>)
        ensures
            final(self).tokens == old(self).tokens,
            expr_parsed(r, final(self).current) == parse_level(
                old(self).model(),
                old(self).pos(),
                4,
            ),
            r is Ok ==> old(self).current < final(self).current <= final(self).tokens.len(),
        decreases old(self).left(), 46nat,
    {
        self.binary_level(4)
    }

    fn factor(&mut self) -> (r: Result<Expr, Error>)
        ensures
            final(self).tokens == old(self).tokens,
            expr_parsed(r, final(self).current) == parse_level(
                old(self).model(),
                old(self).pos(),
                5,
            ),
            r is Ok ==> old(self).current < final(self).current <= final(self).tokens.len(),
        decreases old(self).left(), 43nat,
    {
        self.binary_level(5)
    }

    /// An operand of the operators of a level: what binds tighter.
    fn operand(&mut self, level: u8) -> (r: Result<Expr, Error>)
        requires
            level < 6,
        ensures
            final(self).tokens == old(self).tokens,
            expr_parsed(r, final(self).current) == parse_level(
                old(self).model(),
                old(self).pos(),
                level as nat + 1,
            ),
            r is Ok ==> old(self).current < final(self).current <= final(self).tokens.len(),
        decreases old(self).left(), 3 * level_measure(level as nat) - 1,
    {
        if level == 0 {
            self.and()
        } else if level == 1 {
            self.equality()
        } else if level == 2 {
            self.comparison()
        } else if level == 3 {
            self.term()
        } else if level == 4 {
            self.factor()
        } else {
            self.unary()
        }
    }

    /// One level of left-associative binary operators.
    #[verifier::loop_isolation(false)]
    fn binary_level(&mut self, level: u8) -> (r: Result<Expr, Error>)
        ensures
            final(self).tokens == old(self).tokens,
            expr_parsed(r, final(self).current) == parse_level(
                old(self).model(),
                old(self).pos(),
                level as nat,
            ),
            r is Ok ==> old(self).current < final(self).current <= final(self).tokens.len(),
        decreases old(self).left(), 3 * level_measure(level as nat),
    {
        if level >= 6 {
            return self.unary();
        }
        let mut expr = self.operand(level)?;
        let ghost start = self.pos();
        let ghost first = expr@;
        while self.current < self.tokens.len() && operator_of(level, self.kind())
            invariant
                self.tokens == old(self).tokens,
                old(self).current < self.current <= self.tokens.len(),
                parse_level_rest(self.model(), self.pos(), level as nat, expr@) == parse_level_rest(
                    old(self).model(),
                    start,
                    level as nat,
                    first,
                ),
            decreases self.left(),
        {
            let op = self.advance();
            let right = self.operand(level)?;
            expr = if level < 2 {
                Expr::Logical(Rc::new(expr), op, Rc::new(right))
            } else {
                Expr::Binary(Rc::new(expr), op, Rc::new(right))
            };
        }
        Ok(expr)
    }

    fn unary(&mut self) -> (r: Result<Expr, Error>)
        ensures
            final(self).tokens == old(self).tokens,
            expr_parsed(r, final(self).current) == parse_unary(old(self).model(), old(self).pos()),
            r is Ok ==> old(self).current < final(self).current <= final(self).tokens.len(),
        decreases old(self).left(), 36nat,
    {
        if self.current < self.tokens.len() && (self.kind() == TokenType::Bang || self.kind()
            == TokenType::Minus) {
            let op = self.advance();
            let right = self.unary()?;
            Ok(Expr::Unary(op, Rc::new(right)))
        } else {
            self.call()
        }
    }

    #[verifier::loop_isolation(false)]
    fn call(&mut self) -> (r: Result<Expr, Error>)
        ensures
            final(self).tokens == old(self).tokens,
            expr_parsed(r, final(self).current) == parse_call(old(self).model(), old(self).pos()),
            r is Ok ==> old(self).current < final(self).current <= final(self).tokens.len(),
        decreases old(self).left(), 33nat,
    {
        let mut expr = self.primary()?;
        let ghost start = self.pos();
        let ghost first = expr@;
        loop
            invariant
                self.tokens == old(self).tokens,
                old(self).current < self.current <= self.tokens.len(),
                parse_call_rest(self.model(), self.pos(), expr@) == parse_call_rest(
                    old(self).model(),
                    start,
                    first,
                ),
            decreases self.left(),
        {
            if self.check(TokenType::LeftParen) {
                self.advance();
                expr = self.finish_call(expr)?;
            } else if self.check(TokenType::Dot) {
                self.advance();
                let name = self.consume(
                    TokenType::Identifier,
                    String::from_str("Expect property name after '.'."),
                )?;
                expr = Expr::Get(Rc::new(expr), name);
            } else {
                break ;
            }
        }
        Ok(expr)
    }

    #[verifier::loop_isolation(false)]
    fn finish_call(&mut self, callee: Expr) -> (r: Result<Expr, Error>)
        ensures
            final(self).tokens == old(self).tokens,
            expr_parsed(r, final(self).current) == parse_finish_call(
                old(self).model(),
                old(self).pos(),
                callee@,
            ),
            r is Ok ==> old(self).current < final(self).current <= final(self).tokens.len(),
        decreases old(self).left(), 90nat,
    {
        let mut args: Vec<Rc<Expr>> = Vec::new();
        assert(exprs_model(args@) =~= Seq::empty());
        if !self.check(TokenType::RightParen) {
            let ghost start = self.pos();
            loop
                invariant
                    self.tokens == old(self).tokens,
                    old(self).current <= self.current,
                    parse_arguments(self.model(), self.pos(), exprs_model(args@))
                        == parse_arguments(old(self).model(), start, Seq::empty()),
                decreases self.left(),
            {
                if args.len() >= 255 {
                    return Err(self.error(String::from_str("Can't have more than 255 arguments.")));
                }
                let ghost before = args@;
                let arg = self.expression()?;
                args.push(Rc::new(arg));
                assert(exprs_model(args@) =~= exprs_model(before).push(arg@));
                if self.check(TokenType::Comma) {
                    self.advance();
                } else {
                    break ;
                }
            }
        }
        let paren = self.consume(
            TokenType::RightParen,
            String::from_str("Expect ')' after arguments."),
        )?;
        Ok(Expr::Call(Rc::new(callee), paren, args))
    }

    fn primary(&mut self) -> (r: Result<Expr, Error>)
        ensures
            final(self).tokens == old(self).tokens,
            expr_parsed(r, final(self).current) == parse_primary(old(self).model(), old(self).pos()),
            r is Ok ==> old(self).current < final(self).current <= final(self).tokens.len(),
        decreases old(self).left(), 30nat,
    {
        if self.current >= self.tokens.len() {
            return Err(self.error(String::from_str("expect expression")));
        }
        let kind = self.kind();
        if kind == TokenType::False {
            self.current += 1;
            Ok(Expr::Literal(Literal::Bool(false)))
        } else if kind == TokenType::True {
            self.current += 1;
            Ok(Expr::Literal(Literal::Bool(true)))
        } else if kind == TokenType::Nil {
            self.current += 1;
            Ok(Expr::Literal(Literal::Nil))
        } else if kind == TokenType::Number || kind == TokenType::Str {
            match &self.tokens[self.current].lit {
                Some(lit) => {
                    let lit = lit.duplicate();
                    self.current += 1;
                    Ok(Expr::Literal(lit))
                },
                None => Err(self.error(String::from_str("expect expression"))),
            }
        } else if kind == TokenType::Super {
            let keyword = self.tokens[self.current].duplicate();
            self.current += 1;
            self.consume(TokenType::Dot, String::from_str("Expect '.' after 'super'."))?;
            let method = self.consume(
                TokenType::Identifier,
                String::from_str("Expect superclass method name."),
            )?;
            Ok(Expr::Super(keyword, method, -1))
        } else if kind == TokenType::This {
            let keyword = self.tokens[self.current].duplicate();
            self.current += 1;
            Ok(Expr::This(keyword, -1))
        } else if kind == TokenType::Identifier {
            let name = self.tokens[self.current].duplicate();
            self.current += 1;
            Ok(Expr::Variable(name, -1))
        } else if kind == TokenType::LeftParen {
            self.current += 1;
            let expr = self.expression()?;
            self.consume(TokenType::RightParen, String::from_str("Expect ')' after expression."))?;
            Ok(Expr::Grouping(Rc::new(expr)))
        } else {
            Err(self.error(String::from_str("expect expression")))
        }
    }

    /// An error at the current position.
    fn error(&self, msg: String) -> (e: Error)
        ensures
            e@ == error_at(self.model(), self.pos(), msg@),
    {
        let n = self.tokens.len();
        let line = if self.current < n {
            self.tokens[self.current].line
        } else if n > 0 {
            self.tokens[n - 1].line
        } else {
            0
        };
        Error::parse(msg, line)
    }

    /// Reads the next token, which must be of kind `token_type`.
    fn consume(&mut self, token_type: TokenType, s: String) -> (r: Result<Token, Error>)
        ensures
            final(self).tokens == old(self).tokens,
            token_parsed(r, final(self).current) == expect(
                old(self).model(),
                old(self).pos(),
                token_type,
                s@,
            ),
            r matches Ok(t) ==> t@ == old(self).model()[old(self).pos() as int] && old(
                self,
            ).current < old(self).tokens.len() && final(self).current == old(self).current + 1,
    {
        if self.check(token_type) {
            Ok(self.advance())
        } else {
            Err(self.error(s))
        }
    }

    /// Whether the next token is of kind `token_type`; never at the end.
    fn check(&self, token_type: TokenType) -> (r: bool)
        ensures
            r == check_at(self.model(), self.pos(), token_type),
            r ==> self.current < self.tokens.len(),
    {
        if self.is_at_end() {
            return false;
        }
        self.kind() == token_type
    }

    /// Reads the next token.
    fn advance(&mut self) -> (t: Token)
        requires
            old(self).current < old(self).tokens.len(),
        ensures
            final(self).tokens == old(self).tokens,
            final(self).current == old(self).current + 1,
            t@ == old(self).model()[old(self).pos() as int],
    {
        self.current += 1;
        self.previous()
    }

    /// The kind of the next token; end-of-file where there is none.
    fn kind(&self) -> (k: TokenType)
        ensures
            k == kind_at(self.model(), self.pos()),
    {
        if self.current < self.tokens.len() {
            self.tokens[self.current].token_type
        } else {
            TokenType::Eof
        }
    }

    /// The token that was read last.
    fn previous(&self) -> (t: Token)
        requires
            0 < self.current <= self.tokens.len(),
        ensures
            t@ == self.model()[self.pos() - 1],
    {
        self.tokens[self.current - 1].duplicate()
    }

    /// Whether every token but the end-of-file has been read.
    fn is_at_end(&self) -> (r: bool)
        ensures
            r == (kind_at(self.model(), self.pos()) == TokenType::Eof),
    {
        self.kind() == TokenType::Eof
    }
}

} // verus!
