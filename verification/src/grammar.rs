//! The grammar of the language, as functions from a list of tokens and a
//! position in it to the syntax tree that starts there and the position
//! after it. The parser is proved to compute exactly these functions.
use crate::error::{ErrorModel, parse_error};
use crate::expr::ExprModel;
use crate::stmt::StmtModel;
use crate::token::{LiteralModel, TokenModel, TokenType};
use vstd::prelude::*;

verus! {

pub type Tokens = Seq<TokenModel>;

/// What a grammar function gives: a tree and the position after it, or an
/// error.
pub type Parsed<T> = Result<(T, nat), ErrorModel>;

/// The kind of the token at `pos`; past the end of the list, end-of-file.
pub open spec fn kind_at(tokens: Tokens, pos: nat) -> TokenType {
    if pos < tokens.len() {
        tokens[pos as int].token_type
    } else {
        TokenType::Eof
    }
}

/// The number of tokens from `pos` on.
pub open spec fn remaining(tokens: Tokens, pos: nat) -> nat {
    if pos < tokens.len() {
        (tokens.len() - pos) as nat
    } else {
        0
    }
}

/// The line that an error at `pos` is reported on: that of the token
/// there, or of the last token, or 0 where there is none.
pub open spec fn line_at(tokens: Tokens, pos: nat) -> usize {
    if pos < tokens.len() {
        tokens[pos as int].line
    } else if tokens.len() > 0 {
        tokens.last().line
    } else {
        0
    }
}

pub open spec fn error_at(tokens: Tokens, pos: nat, msg: Seq<char>) -> ErrorModel {
    parse_error(msg, line_at(tokens, pos))
}

/// Whether the token at `pos` is of kind `kind`; never true at the end.
pub open spec fn check_at(tokens: Tokens, pos: nat, kind: TokenType) -> bool {
    kind_at(tokens, pos) != TokenType::Eof && kind_at(tokens, pos) == kind
}

/// The position after a token of kind `kind` that must stand at `pos`.
pub open spec fn expect(tokens: Tokens, pos: nat, kind: TokenType, msg: Seq<char>) -> Result<
    nat,
    ErrorModel,
> {
    if check_at(tokens, pos, kind) {
        Ok(pos + 1)
    } else {
        Err(error_at(tokens, pos, msg))
    }
}

/// The six levels of binary operators, loosest first: `or`, `and`,
/// equality, comparison, term, factor.
pub open spec fn is_operator(level: nat, kind: TokenType) -> bool {
    if level == 0 {
        kind == TokenType::Or
    } else if level == 1 {
        kind == TokenType::And
    } else if level == 2 {
        kind == TokenType::BangEqual || kind == TokenType::EqualEqual
    } else if level == 3 {
        kind == TokenType::Greater || kind == TokenType::GreaterEqual || kind == TokenType::Less
            || kind == TokenType::LessEqual
    } else if level == 4 {
        kind == TokenType::Plus || kind == TokenType::Minus
    } else if level == 5 {
        kind == TokenType::Star || kind == TokenType::Slash
    } else {
        false
    }
}

/// The tree of `left op right` at a level: the two loosest levels are
/// short-circuiting.
pub open spec fn combine(level: nat, left: ExprModel, op: TokenModel, right: ExprModel) -> ExprModel {
    if level < 2 {
        ExprModel::Logical(Box::new(left), op, Box::new(right))
    } else {
        ExprModel::Binary(Box::new(left), op, Box::new(right))
    }
}

/// The error of a position where an expression must start and none does.
pub open spec fn no_expression(tokens: Tokens, pos: nat) -> ErrorModel {
    error_at(tokens, pos, "expect expression"@)
}

/// A tree that ends at or after `pos`, as every tree that starts there
/// does; anything else is an error.
pub open spec fn forward<T>(tokens: Tokens, pos: nat, r: Parsed<T>) -> Parsed<T> {
    match r {
        Ok((t, p)) => if p >= pos {
            Ok((t, p))
        } else {
            Err(no_expression(tokens, pos))
        },
        Err(e) => Err(e),
    }
}

/// expression → assignment
pub open spec fn parse_expression(tokens: Tokens, pos: nat) -> Parsed<ExprModel>
    decreases remaining(tokens, pos), 22nat,
{
    parse_assignment(tokens, pos)
}

/// assignment → ( call "." )? IDENTIFIER "=" assignment | or
pub open spec fn parse_assignment(tokens: Tokens, pos: nat) -> Parsed<ExprModel>
    decreases remaining(tokens, pos), 21nat,
{
    match forward(tokens, pos, parse_level(tokens, pos, 0)) {
        Ok((target, p)) => if check_at(tokens, p, TokenType::Equal) {
            match parse_assignment(tokens, p + 1) {
                Ok((value, q)) => match target {
                    ExprModel::Variable(name, _) => Ok(
                        (ExprModel::Assign(name, Box::new(value), -1i32), q),
                    ),
                    ExprModel::Get(object, name) => Ok(
                        (ExprModel::SetProperty(object, name, Box::new(value)), q),
                    ),
                    _ => Err(error_at(tokens, p, "invalid assignment target"@)),
                },
                Err(e) => Err(e),
            }
        } else {
            Ok((target, p))
        },
        Err(e) => Err(e),
    }
}

/// The measure of a level of binary operators: looser levels are larger.
pub open spec fn level_measure(level: nat) -> nat {
    if level < 6 {
        (19 - level) as nat
    } else {
        13
    }
}

/// One level of left-associative binary operators: an operand of the next
/// tighter level, then operators of this level with operands as long as
/// they follow. Below the tightest level stand the unary operators.
pub open spec fn parse_level(tokens: Tokens, pos: nat, level: nat) -> Parsed<ExprModel>
    decreases remaining(tokens, pos), level_measure(level),
{
    if level >= 6 {
        parse_unary(tokens, pos)
    } else {
        match forward(tokens, pos, parse_level(tokens, pos, level + 1)) {
            Ok((left, p)) => parse_level_rest(tokens, p, level, left),
            Err(e) => Err(e),
        }
    }
}

pub open spec fn parse_level_rest(tokens: Tokens, pos: nat, level: nat, left: ExprModel) -> Parsed<
    ExprModel,
>
    decreases remaining(tokens, pos), 0nat,
{
    if level < 6 && pos < tokens.len() && is_operator(level, kind_at(tokens, pos)) {
        match forward(tokens, pos + 1, parse_level(tokens, pos + 1, level + 1)) {
            Ok((right, p)) => parse_level_rest(
                tokens,
                p,
                level,
                combine(level, left, tokens[pos as int], right),
            ),
            Err(e) => Err(e),
        }
    } else {
        Ok((left, pos))
    }
}

/// unary → ( "!" | "-" ) unary | call
pub open spec fn parse_unary(tokens: Tokens, pos: nat) -> Parsed<ExprModel>
    decreases remaining(tokens, pos), 12nat,
{
    if pos < tokens.len() && (kind_at(tokens, pos) == TokenType::Bang || kind_at(tokens, pos)
        == TokenType::Minus) {
        match parse_unary(tokens, pos + 1) {
            Ok((right, p)) => Ok((ExprModel::Unary(tokens[pos as int], Box::new(right)), p)),
            Err(e) => Err(e),
        }
    } else {
        parse_call(tokens, pos)
    }
}

/// call → primary ( "(" arguments? ")" | "." IDENTIFIER )*
pub open spec fn parse_call(tokens: Tokens, pos: nat) -> Parsed<ExprModel>
    decreases remaining(tokens, pos), 11nat,
{
    match forward(tokens, pos, parse_primary(tokens, pos)) {
        Ok((e, p)) => parse_call_rest(tokens, p, e),
        Err(e) => Err(e),
    }
}

pub open spec fn parse_call_rest(tokens: Tokens, pos: nat, callee: ExprModel) -> Parsed<ExprModel>
    decreases remaining(tokens, pos), 0nat,
{
    if check_at(tokens, pos, TokenType::LeftParen) {
        match forward(tokens, pos + 1, parse_finish_call(tokens, pos + 1, callee)) {
            Ok((e, p)) => parse_call_rest(tokens, p, e),
            Err(e) => Err(e),
        }
    } else if check_at(tokens, pos, TokenType::Dot) {
        match expect(tokens, pos + 1, TokenType::Identifier, "Expect property name after '.'."@) {
            Ok(p) => parse_call_rest(
                tokens,
                p,
                ExprModel::Get(Box::new(callee), tokens[pos + 1 as int]),
            ),
            Err(e) => Err(e),
        }
    } else {
        Ok((callee, pos))
    }
}

/// The arguments of a call whose opening parenthesis has been read, and
/// the closing parenthesis.
pub open spec fn parse_finish_call(tokens: Tokens, pos: nat, callee: ExprModel) -> Parsed<ExprModel>
    decreases remaining(tokens, pos), 26nat,
{
    let args = if check_at(tokens, pos, TokenType::RightParen) {
        Ok((Seq::empty(), pos))
    } else {
        parse_arguments(tokens, pos, Seq::empty())
    };
    match args {
        Ok((args, p)) => match expect(
            tokens,
            p,
            TokenType::RightParen,
            "Expect ')' after arguments."@,
        ) {
            Ok(q) => Ok((ExprModel::Call(Box::new(callee), tokens[p as int], args), q)),
            Err(e) => Err(e),
        },
        Err(e) => Err(e),
    }
}

/// arguments → expression ( "," expression )*, at most 255 of them.
pub open spec fn parse_arguments(tokens: Tokens, pos: nat, done: Seq<ExprModel>) -> Parsed<
    Seq<ExprModel>,
>
    decreases remaining(tokens, pos), 25nat,
{
    if done.len() >= 255 {
        Err(error_at(tokens, pos, "Can't have more than 255 arguments."@))
    } else {
        match forward(tokens, pos, parse_expression(tokens, pos)) {
            Ok((e, p)) => if check_at(tokens, p, TokenType::Comma) {
                parse_arguments(tokens, p + 1, done.push(e))
            } else {
                Ok((done.push(e), p))
            },
            Err(e) => Err(e),
        }
    }
}

/// primary → "true" | "false" | "nil" | NUMBER | STRING | IDENTIFIER
///         | "this" | "super" "." IDENTIFIER | "(" expression ")"
pub open spec fn parse_primary(tokens: Tokens, pos: nat) -> Parsed<ExprModel>
    decreases remaining(tokens, pos), 10nat,
{
    let kind = kind_at(tokens, pos);
    if pos >= tokens.len() {
        Err(no_expression(tokens, pos))
    } else if kind == TokenType::False {
        Ok((ExprModel::Literal(LiteralModel::Bool(false)), pos + 1))
    } else if kind == TokenType::True {
        Ok((ExprModel::Literal(LiteralModel::Bool(true)), pos + 1))
    } else if kind == TokenType::Nil {
        Ok((ExprModel::Literal(LiteralModel::Nil), pos + 1))
    } else if kind == TokenType::Number || kind == TokenType::Str {
        match tokens[pos as int].lit {
            Some(lit) => Ok((ExprModel::Literal(lit), pos + 1)),
            None => Err(no_expression(tokens, pos)),
        }
    } else if kind == TokenType::Super {
        match expect(tokens, pos + 1, TokenType::Dot, "Expect '.' after 'super'."@) {
            Ok(p) => match expect(
                tokens,
                p,
                TokenType::Identifier,
                "Expect superclass method name."@,
            ) {
                Ok(q) => Ok((ExprModel::Super(tokens[pos as int], tokens[p as int], -1i32), q)),
                Err(e) => Err(e),
            },
            Err(e) => Err(e),
        }
    } else if kind == TokenType::This {
        Ok((ExprModel::This(tokens[pos as int], -1i32), pos + 1))
    } else if kind == TokenType::Identifier {
        Ok((ExprModel::Variable(tokens[pos as int], -1i32), pos + 1))
    } else if kind == TokenType::LeftParen {
        match parse_expression(tokens, pos + 1) {
            Ok((e, p)) => match expect(
                tokens,
                p,
                TokenType::RightParen,
                "Expect ')' after expression."@,
            ) {
                Ok(q) => Ok((ExprModel::Grouping(Box::new(e)), q)),
                Err(e) => Err(e),
            },
            Err(e) => Err(e),
        }
    } else {
        Err(no_expression(tokens, pos))
    }
}


/// A tree that ends after `pos`, as every statement and every expression
/// that starts there does; anything else is an error.
pub open spec fn onward<T>(tokens: Tokens, pos: nat, r: Parsed<T>) -> Parsed<T> {
    match r {
        Ok((t, p)) => if p > pos {
            Ok((t, p))
        } else {
            Err(no_expression(tokens, pos))
        },
        Err(e) => Err(e),
    }
}

/// program → declaration* EOF
pub open spec fn parse_program(tokens: Tokens, pos: nat, done: Seq<StmtModel>) -> Parsed<
    Seq<StmtModel>,
>
    decreases remaining(tokens, pos), 40nat,
{
    if kind_at(tokens, pos) == TokenType::Eof {
        Ok((done, pos))
    } else {
        match onward(tokens, pos, parse_declaration(tokens, pos)) {
            Ok((s, p)) => parse_program(tokens, p, done.push(s)),
            Err(e) => Err(e),
        }
    }
}

/// declaration → "class" class | "fun" function | "var" variable | statement
pub open spec fn parse_declaration(tokens: Tokens, pos: nat) -> Parsed<StmtModel>
    decreases remaining(tokens, pos), 39nat,
{
    let kind = kind_at(tokens, pos);
    if kind == TokenType::Class {
        parse_class(tokens, pos + 1)
    } else if kind == TokenType::Fun {
        parse_function(tokens, pos + 1, "function"@)
    } else if kind == TokenType::Var {
        parse_var_declaration(tokens, pos + 1)
    } else {
        parse_statement(tokens, pos)
    }
}

/// class → IDENTIFIER ( "<" IDENTIFIER )? "{" function* "}"
pub open spec fn parse_class(tokens: Tokens, pos: nat) -> Parsed<StmtModel>
    decreases remaining(tokens, pos), 38nat,
{
    match expect(tokens, pos, TokenType::Identifier, "expect class name"@) {
        Ok(p) => {
            let superclass = if check_at(tokens, p, TokenType::Less) {
                match expect(tokens, p + 1, TokenType::Identifier, "expect superclass name"@) {
                    Ok(q) => Ok((Some(ExprModel::Variable(tokens[p + 1 as int], -1i32)), q)),
                    Err(e) => Err(e),
                }
            } else {
                Ok((None, p))
            };
            match superclass {
                Ok((superclass, q)) => match expect(
                    tokens,
                    q,
                    TokenType::LeftBrace,
                    "expect '{' before class body"@,
                ) {
                    Ok(r) => match parse_methods(tokens, r, Seq::empty()) {
                        Ok((methods, t)) => match expect(
                            tokens,
                            t,
                            TokenType::RightBrace,
                            "expect '}' after class body"@,
                        ) {
                            Ok(u) => Ok(
                                (StmtModel::Class(tokens[pos as int], superclass, methods), u),
                            ),
                            Err(e) => Err(e),
                        },
                        Err(e) => Err(e),
                    },
                    Err(e) => Err(e),
                },
                Err(e) => Err(e),
            }
        },
        Err(e) => Err(e),
    }
}

/// The methods of a class, up to the closing brace.
pub open spec fn parse_methods(tokens: Tokens, pos: nat, done: Seq<StmtModel>) -> Parsed<
    Seq<StmtModel>,
>
    decreases remaining(tokens, pos), 40nat,
{
    if check_at(tokens, pos, TokenType::RightBrace) || kind_at(tokens, pos) == TokenType::Eof {
        Ok((done, pos))
    } else {
        match onward(tokens, pos, parse_function(tokens, pos, "method"@)) {
            Ok((m, p)) => parse_methods(tokens, p, done.push(m)),
            Err(e) => Err(e),
        }
    }
}

/// function → IDENTIFIER "(" parameters? ")" "{" declaration* "}"
pub open spec fn parse_function(tokens: Tokens, pos: nat, kind: Seq<char>) -> Parsed<StmtModel>
    decreases remaining(tokens, pos), 37nat,
{
    match expect(tokens, pos, TokenType::Identifier, "expect "@ + kind + " name"@) {
        Ok(p) => match expect(
            tokens,
            p,
            TokenType::LeftParen,
            "expect '(' after "@ + kind + " name"@,
        ) {
            Ok(q) => {
                let params = if check_at(tokens, q, TokenType::RightParen) {
                    Ok((Seq::empty(), q))
                } else {
                    parse_parameters(tokens, q, Seq::empty())
                };
                match params {
                    Ok((params, r)) => match expect(
                        tokens,
                        r,
                        TokenType::RightParen,
                        "expect ')' after parameters"@,
                    ) {
                        Ok(t) => match expect(
                            tokens,
                            t,
                            TokenType::LeftBrace,
                            "Expect '{' before body."@,
                        ) {
                            Ok(u) => if u > pos {
                                match parse_block(tokens, u, Seq::empty()) {
                                    Ok((body, v)) => Ok(
                                        (StmtModel::Func(tokens[pos as int], params, body), v),
                                    ),
                                    Err(e) => Err(e),
                                }
                            } else {
                                Err(no_expression(tokens, pos))
                            },
                            Err(e) => Err(e),
                        },
                        Err(e) => Err(e),
                    },
                    Err(e) => Err(e),
                }
            },
            Err(e) => Err(e),
        },
        Err(e) => Err(e),
    }
}

/// parameters → IDENTIFIER ( "," IDENTIFIER )*, at most 255 of them.
pub open spec fn parse_parameters(tokens: Tokens, pos: nat, done: Seq<TokenModel>) -> Parsed<
    Seq<TokenModel>,
>
    decreases remaining(tokens, pos),
{
    if done.len() >= 255 {
        Err(error_at(tokens, pos, "Can't have more than 255 parameters."@))
    } else {
        match expect(tokens, pos, TokenType::Identifier, "expect parameter name"@) {
            Ok(p) => if check_at(tokens, p, TokenType::Comma) {
                parse_parameters(tokens, p + 1, done.push(tokens[pos as int]))
            } else {
                Ok((done.push(tokens[pos as int]), p))
            },
            Err(e) => Err(e),
        }
    }
}

/// variable → IDENTIFIER ( "=" expression )? ";"
pub open spec fn parse_var_declaration(tokens: Tokens, pos: nat) -> Parsed<StmtModel>
    decreases remaining(tokens, pos), 36nat,
{
    match expect(tokens, pos, TokenType::Identifier, "expect variable name"@) {
        Ok(p) => {
            let init = if check_at(tokens, p, TokenType::Equal) {
                match parse_expression(tokens, p + 1) {
                    Ok((e, q)) => Ok((Some(e), q)),
                    Err(e) => Err(e),
                }
            } else {
                Ok((None, p))
            };
            match init {
                Ok((init, q)) => match expect(
                    tokens,
                    q,
                    TokenType::Semicolon,
                    "Expect ';' after variable declaration."@,
                ) {
                    Ok(r) => Ok((StmtModel::Var(tokens[pos as int], init), r)),
                    Err(e) => Err(e),
                },
                Err(e) => Err(e),
            }
        },
        Err(e) => Err(e),
    }
}

/// statement → print | block | if | while | for | return | expression ";"
pub open spec fn parse_statement(tokens: Tokens, pos: nat) -> Parsed<StmtModel>
    decreases remaining(tokens, pos), 35nat,
{
    let kind = kind_at(tokens, pos);
    if kind == TokenType::Print {
        parse_print(tokens, pos + 1)
    } else if kind == TokenType::LeftBrace {
        match parse_block(tokens, pos + 1, Seq::empty()) {
            Ok((stmts, p)) => Ok((StmtModel::Block(stmts), p)),
            Err(e) => Err(e),
        }
    } else if kind == TokenType::If {
        parse_if(tokens, pos + 1)
    } else if kind == TokenType::While {
        parse_while(tokens, pos + 1)
    } else if kind == TokenType::For {
        parse_for(tokens, pos + 1)
    } else if kind == TokenType::Return {
        parse_return(tokens, pos + 1)
    } else {
        parse_expr_statement(tokens, pos)
    }
}

/// An expression and the semicolon after it.
pub open spec fn parse_terminated(tokens: Tokens, pos: nat) -> Parsed<ExprModel>
    decreases remaining(tokens, pos), 23nat,
{
    match parse_expression(tokens, pos) {
        Ok((e, p)) => match expect(tokens, p, TokenType::Semicolon, "Expect ';' after value."@) {
            Ok(q) => Ok((e, q)),
            Err(e) => Err(e),
        },
        Err(e) => Err(e),
    }
}

/// print → "print" expression ";"
pub open spec fn parse_print(tokens: Tokens, pos: nat) -> Parsed<StmtModel>
    decreases remaining(tokens, pos), 34nat,
{
    match parse_terminated(tokens, pos) {
        Ok((e, p)) => Ok((StmtModel::Print(e), p)),
        Err(e) => Err(e),
    }
}

/// expression ";"
pub open spec fn parse_expr_statement(tokens: Tokens, pos: nat) -> Parsed<StmtModel>
    decreases remaining(tokens, pos), 34nat,
{
    match parse_terminated(tokens, pos) {
        Ok((e, p)) => Ok((StmtModel::Expr(e), p)),
        Err(e) => Err(e),
    }
}

/// return → "return" expression? ";"; `pos` is the position after the
/// keyword.
pub open spec fn parse_return(tokens: Tokens, pos: nat) -> Parsed<StmtModel>
    decreases remaining(tokens, pos), 34nat,
{
    if pos == 0 || pos > tokens.len() {
        Err(no_expression(tokens, pos))
    } else {
        let value = if !check_at(tokens, pos, TokenType::Semicolon) {
            match parse_expression(tokens, pos) {
                Ok((e, p)) => Ok((Some(e), p)),
                Err(e) => Err(e),
            }
        } else {
            Ok((None, pos))
        };
        match value {
            Ok((value, p)) => match expect(
                tokens,
                p,
                TokenType::Semicolon,
                "Expect ';' after return value."@,
            ) {
                Ok(q) => Ok((StmtModel::Return(tokens[pos - 1], value), q)),
                Err(e) => Err(e),
            },
            Err(e) => Err(e),
        }
    }
}

/// block → "{" declaration* "}"; `pos` is the position after the brace.
pub open spec fn parse_block(tokens: Tokens, pos: nat, done: Seq<StmtModel>) -> Parsed<
    Seq<StmtModel>,
>
    decreases remaining(tokens, pos), 40nat,
{
    if check_at(tokens, pos, TokenType::RightBrace) || kind_at(tokens, pos) == TokenType::Eof {
        match expect(tokens, pos, TokenType::RightBrace, "Expect '}' after block."@) {
            Ok(p) => Ok((done, p)),
            Err(e) => Err(e),
        }
    } else {
        match onward(tokens, pos, parse_declaration(tokens, pos)) {
            Ok((s, p)) => parse_block(tokens, p, done.push(s)),
            Err(e) => Err(e),
        }
    }
}

/// A condition in parentheses; `what` names the construct in the errors.
pub open spec fn parse_condition(tokens: Tokens, pos: nat, open: Seq<char>, close: Seq<char>) -> Parsed<
    ExprModel,
>
    decreases remaining(tokens, pos), 33nat,
{
    match expect(tokens, pos, TokenType::LeftParen, open) {
        Ok(p) => match forward(tokens, p, parse_expression(tokens, p)) {
            Ok((cond, q)) => match expect(tokens, q, TokenType::RightParen, close) {
                Ok(r) => Ok((cond, r)),
                Err(e) => Err(e),
            },
            Err(e) => Err(e),
        },
        Err(e) => Err(e),
    }
}

/// if → "if" "(" expression ")" statement ( "else" statement )?
pub open spec fn parse_if(tokens: Tokens, pos: nat) -> Parsed<StmtModel>
    decreases remaining(tokens, pos), 34nat,
{
    match onward(
        tokens,
        pos,
        parse_condition(tokens, pos, "Expect '(' after 'if'."@, "Expect ')' after 'if' condition."@),
    ) {
        Ok((cond, p)) => match forward(tokens, p, parse_statement(tokens, p)) {
            Ok((then_branch, q)) => if check_at(tokens, q, TokenType::Else) {
                match parse_statement(tokens, q + 1) {
                    Ok((else_branch, r)) => Ok(
                        (
                            StmtModel::If(
                                cond,
                                Box::new(then_branch),
                                Some(Box::new(else_branch)),
                            ),
                            r,
                        ),
                    ),
                    Err(e) => Err(e),
                }
            } else {
                Ok((StmtModel::If(cond, Box::new(then_branch), None), q))
            },
            Err(e) => Err(e),
        },
        Err(e) => Err(e),
    }
}

/// while → "while" "(" expression ")" statement
pub open spec fn parse_while(tokens: Tokens, pos: nat) -> Parsed<StmtModel>
    decreases remaining(tokens, pos), 34nat,
{
    match onward(
        tokens,
        pos,
        parse_condition(tokens, pos, "Expect '(' after while."@, "Expect ')' after condition."@),
    ) {
        Ok((cond, p)) => match parse_statement(tokens, p) {
            Ok((body, q)) => Ok((StmtModel::While(cond, Box::new(body)), q)),
            Err(e) => Err(e),
        },
        Err(e) => Err(e),
    }
}

/// The initializer of a `for` loop: nothing, a variable declaration or an
/// expression statement.
pub open spec fn parse_for_init(tokens: Tokens, pos: nat) -> Parsed<Option<StmtModel>>
    decreases remaining(tokens, pos), 37nat,
{
    if check_at(tokens, pos, TokenType::Semicolon) {
        Ok((None, pos + 1))
    } else if check_at(tokens, pos, TokenType::Var) {
        match parse_var_declaration(tokens, pos + 1) {
            Ok((s, p)) => Ok((Some(s), p)),
            Err(e) => Err(e),
        }
    } else {
        match parse_expr_statement(tokens, pos) {
            Ok((s, p)) => Ok((Some(s), p)),
            Err(e) => Err(e),
        }
    }
}

/// An expression, unless a token of kind `end` stands at `pos`.
pub open spec fn parse_optional(tokens: Tokens, pos: nat, end: TokenType) -> Parsed<
    Option<ExprModel>,
>
    decreases remaining(tokens, pos), 23nat,
{
    if !check_at(tokens, pos, end) {
        match parse_expression(tokens, pos) {
            Ok((e, p)) => Ok((Some(e), p)),
            Err(e) => Err(e),
        }
    } else {
        Ok((None, pos))
    }
}

/// The statement that a `for` loop stands for: a block that holds the
/// initializer, if any, and a `while` loop whose condition is that of the
/// `for` loop, or `true` without one, and whose body is the loop's body,
/// followed by the increment if there is one.
pub open spec fn desugar_for(
    init: Option<StmtModel>,
    cond: Option<ExprModel>,
    increment: Option<ExprModel>,
    body: StmtModel,
) -> StmtModel {
    let body = match increment {
        Some(inc) => StmtModel::Block(seq![body, StmtModel::Expr(inc)]),
        None => body,
    };
    let cond = match cond {
        Some(c) => c,
        None => ExprModel::Literal(LiteralModel::Bool(true)),
    };
    let repeat = StmtModel::While(cond, Box::new(body));
    match init {
        Some(i) => StmtModel::Block(seq![i, repeat]),
        None => StmtModel::Block(seq![repeat]),
    }
}

/// for → "for" "(" ( variable | expression ";" | ";" ) expression? ";"
///       expression? ")" statement
pub open spec fn parse_for(tokens: Tokens, pos: nat) -> Parsed<StmtModel>
    decreases remaining(tokens, pos), 38nat,
{
    match expect(tokens, pos, TokenType::LeftParen, "Expect '(' after for."@) {
        Ok(p) => match forward(tokens, p, parse_for_init(tokens, p)) {
            Ok((init, q)) => match forward(
                tokens,
                q,
                parse_optional(tokens, q, TokenType::Semicolon),
            ) {
                Ok((cond, r)) => match expect(
                    tokens,
                    r,
                    TokenType::Semicolon,
                    "Expect ';' after loop condition."@,
                ) {
                    Ok(t) => match forward(
                        tokens,
                        t,
                        parse_optional(tokens, t, TokenType::RightParen),
                    ) {
                        Ok((increment, u)) => match expect(
                            tokens,
                            u,
                            TokenType::RightParen,
                            "Expect ')' after for clauses."@,
                        ) {
                            Ok(v) => match parse_statement(tokens, v) {
                                Ok((body, w)) => Ok((desugar_for(init, cond, increment, body), w)),
                                Err(e) => Err(e),
                            },
                            Err(e) => Err(e),
                        },
                        Err(e) => Err(e),
                    },
                    Err(e) => Err(e),
                },
                Err(e) => Err(e),
            },
            Err(e) => Err(e),
        },
        Err(e) => Err(e),
    }
}


/// A program that parses is parsed to its end: the position after it is
/// that of the end-of-file token, or past the last token.
pub proof fn a_program_is_parsed_to_the_end(tokens: Tokens, pos: nat, done: Seq<StmtModel>)
    ensures
        parse_program(tokens, pos, done) matches Ok((stmts, p)) ==> kind_at(tokens, p)
            == TokenType::Eof && p >= pos && stmts.len() >= done.len() && stmts.take(
            done.len() as int,
        ) == done,
    decreases remaining(tokens, pos),
{
    if kind_at(tokens, pos) != TokenType::Eof {
        match onward(tokens, pos, parse_declaration(tokens, pos)) {
            Ok((s, p)) => {
                a_program_is_parsed_to_the_end(tokens, p, done.push(s));
                match parse_program(tokens, p, done.push(s)) {
                    Ok((stmts, _)) => {
                        assert(stmts.take(done.len() as int) =~= stmts.take(
                            done.push(s).len() as int,
                        ).drop_last());
                        assert(done.push(s).drop_last() =~= done);
                    },
                    Err(_) => {},
                }
            },
            Err(_) => {},
        }
    } else {
        assert(done.take(done.len() as int) =~= done);
    }
}

/// Binary operators of one level associate to the left: after `left`, an
/// operator of the level and its right operand are combined with `left`
/// before anything that follows is read.
pub proof fn binary_operators_associate_to_the_left(
    tokens: Tokens,
    pos: nat,
    level: nat,
    left: ExprModel,
)
    requires
        level < 6,
        pos < tokens.len(),
        is_operator(level, kind_at(tokens, pos)),
    ensures
        parse_level(tokens, pos + 1, level + 1) matches Ok((right, p)) ==> p >= pos + 1
            ==> parse_level_rest(tokens, pos, level, left) == parse_level_rest(
            tokens,
            p,
            level,
            combine(level, left, tokens[pos as int], right),
        ),
        parse_level(tokens, pos + 1, level + 1) matches Err(e) ==> parse_level_rest(
            tokens,
            pos,
            level,
            left,
        ) == Err::<(ExprModel, nat), ErrorModel>(e),
{
}

/// Where no operator of the level follows, the operand stands alone.
pub proof fn an_operand_without_an_operator_stands_alone(
    tokens: Tokens,
    pos: nat,
    level: nat,
    left: ExprModel,
)
    requires
        !is_operator(level, kind_at(tokens, pos)),
    ensures
        parse_level_rest(tokens, pos, level, left) == Ok::<(ExprModel, nat), ErrorModel>(
            (left, pos),
        ),
{
}

/// Every token kind is an operator of at most one level, so that a tighter
/// level never takes an operator of a looser one.
pub proof fn the_levels_share_no_operator(a: nat, b: nat, kind: TokenType)
    requires
        a != b,
    ensures
        !(is_operator(a, kind) && is_operator(b, kind)),
{
}


/// Every expression ends after it starts: a tree is made of at least one
/// token, and the grammar never goes back. So the checks of `forward` and
/// `onward` never fail where they stand.
pub proof fn an_expression_ends_after_it_starts(tokens: Tokens, pos: nat)
    ensures
        parse_expression(tokens, pos) matches Ok((_, p)) ==> p > pos,
    decreases remaining(tokens, pos), 22nat,
{
    lemma_assignment_moves(tokens, pos);
}

proof fn lemma_assignment_moves(tokens: Tokens, pos: nat)
    ensures
        parse_assignment(tokens, pos) matches Ok((_, p)) ==> p > pos,
    decreases remaining(tokens, pos), 21nat,
{
    lemma_level_moves(tokens, pos, 0);
    match forward(tokens, pos, parse_level(tokens, pos, 0)) {
        Ok((_, p)) => {
            if check_at(tokens, p, TokenType::Equal) {
                lemma_assignment_moves(tokens, p + 1);
            }
        },
        Err(_) => {},
    }
}

proof fn lemma_level_moves(tokens: Tokens, pos: nat, level: nat)
    ensures
        parse_level(tokens, pos, level) matches Ok((_, p)) ==> p > pos,
    decreases remaining(tokens, pos), level_measure(level),
{
    if level >= 6 {
        lemma_unary_moves(tokens, pos);
    } else {
        lemma_level_moves(tokens, pos, level + 1);
        match forward(tokens, pos, parse_level(tokens, pos, level + 1)) {
            Ok((left, p)) => {
                lemma_level_rest_moves(tokens, p, level, left);
            },
            Err(_) => {},
        }
    }
}

proof fn lemma_level_rest_moves(tokens: Tokens, pos: nat, level: nat, left: ExprModel)
    ensures
        parse_level_rest(tokens, pos, level, left) matches Ok((_, p)) ==> p >= pos,
    decreases remaining(tokens, pos), 0nat,
{
    if level < 6 && pos < tokens.len() && is_operator(level, kind_at(tokens, pos)) {
        lemma_level_moves(tokens, pos + 1, level + 1);
        match forward(tokens, pos + 1, parse_level(tokens, pos + 1, level + 1)) {
            Ok((right, p)) => {
                lemma_level_rest_moves(
                    tokens,
                    p,
                    level,
                    combine(level, left, tokens[pos as int], right),
                );
            },
            Err(_) => {},
        }
    }
}

proof fn lemma_unary_moves(tokens: Tokens, pos: nat)
    ensures
        parse_unary(tokens, pos) matches Ok((_, p)) ==> p > pos,
    decreases remaining(tokens, pos), 12nat,
{
    if pos < tokens.len() && (kind_at(tokens, pos) == TokenType::Bang || kind_at(tokens, pos)
        == TokenType::Minus) {
        lemma_unary_moves(tokens, pos + 1);
    } else {
        lemma_call_moves(tokens, pos);
    }
}

proof fn lemma_call_moves(tokens: Tokens, pos: nat)
    ensures
        parse_call(tokens, pos) matches Ok((_, p)) ==> p > pos,
    decreases remaining(tokens, pos), 11nat,
{
    lemma_primary_moves(tokens, pos);
    match forward(tokens, pos, parse_primary(tokens, pos)) {
        Ok((e, p)) => {
            lemma_call_rest_moves(tokens, p, e);
        },
        Err(_) => {},
    }
}

proof fn lemma_call_rest_moves(tokens: Tokens, pos: nat, callee: ExprModel)
    ensures
        parse_call_rest(tokens, pos, callee) matches Ok((_, p)) ==> p >= pos,
    decreases remaining(tokens, pos), 0nat,
{
    if check_at(tokens, pos, TokenType::LeftParen) {
        lemma_finish_call_moves(tokens, pos + 1, callee);
        match forward(tokens, pos + 1, parse_finish_call(tokens, pos + 1, callee)) {
            Ok((e, p)) => {
                lemma_call_rest_moves(tokens, p, e);
            },
            Err(_) => {},
        }
    } else if check_at(tokens, pos, TokenType::Dot) {
        match expect(tokens, pos + 1, TokenType::Identifier, "Expect property name after '.'."@) {
            Ok(p) => {
                lemma_call_rest_moves(
                    tokens,
                    p,
                    ExprModel::Get(Box::new(callee), tokens[pos + 1 as int]),
                );
            },
            Err(_) => {},
        }
    }
}

proof fn lemma_finish_call_moves(tokens: Tokens, pos: nat, callee: ExprModel)
    ensures
        parse_finish_call(tokens, pos, callee) matches Ok((_, p)) ==> p > pos,
    decreases remaining(tokens, pos), 26nat,
{
    if !check_at(tokens, pos, TokenType::RightParen) {
        lemma_arguments_move(tokens, pos, Seq::empty());
    }
}

proof fn lemma_arguments_move(tokens: Tokens, pos: nat, done: Seq<ExprModel>)
    ensures
        parse_arguments(tokens, pos, done) matches Ok((_, p)) ==> p > pos,
    decreases remaining(tokens, pos), 25nat,
{
    if done.len() < 255 {
        an_expression_ends_after_it_starts(tokens, pos);
        match forward(tokens, pos, parse_expression(tokens, pos)) {
            Ok((e, p)) => {
                if check_at(tokens, p, TokenType::Comma) {
                    lemma_arguments_move(tokens, p + 1, done.push(e));
                }
            },
            Err(_) => {},
        }
    }
}

proof fn lemma_primary_moves(tokens: Tokens, pos: nat)
    ensures
        parse_primary(tokens, pos) matches Ok((_, p)) ==> p > pos,
    decreases remaining(tokens, pos), 10nat,
{
    if pos < tokens.len() && kind_at(tokens, pos) == TokenType::LeftParen {
        an_expression_ends_after_it_starts(tokens, pos + 1);
    }
}

/// Every statement and every declaration ends after it starts.
pub proof fn a_declaration_ends_after_it_starts(tokens: Tokens, pos: nat)
    ensures
        parse_declaration(tokens, pos) matches Ok((_, p)) ==> p > pos,
    decreases remaining(tokens, pos), 39nat,
{
    let kind = kind_at(tokens, pos);
    if kind == TokenType::Class {
        lemma_class_moves(tokens, pos + 1);
    } else if kind == TokenType::Fun {
        lemma_function_moves(tokens, pos + 1, "function"@);
    } else if kind == TokenType::Var {
        lemma_var_moves(tokens, pos + 1);
    } else {
        lemma_statement_moves(tokens, pos);
    }
}

proof fn lemma_class_moves(tokens: Tokens, pos: nat)
    ensures
        parse_class(tokens, pos) matches Ok((_, p)) ==> p > pos,
    decreases remaining(tokens, pos), 38nat,
{
    match expect(tokens, pos, TokenType::Identifier, "expect class name"@) {
        Ok(p) => {
            let q = if check_at(tokens, p, TokenType::Less) {
                match expect(tokens, p + 1, TokenType::Identifier, "expect superclass name"@) {
                    Ok(q) => q,
                    Err(_) => p,
                }
            } else {
                p
            };
            match expect(tokens, q, TokenType::LeftBrace, "expect '{' before class body"@) {
                Ok(r) => {
                    lemma_methods_move(tokens, r, Seq::empty());
                },
                Err(_) => {},
            }
        },
        Err(_) => {},
    }
}

proof fn lemma_methods_move(tokens: Tokens, pos: nat, done: Seq<StmtModel>)
    ensures
        parse_methods(tokens, pos, done) matches Ok((_, p)) ==> p >= pos,
    decreases remaining(tokens, pos), 40nat,
{
    if !(check_at(tokens, pos, TokenType::RightBrace) || kind_at(tokens, pos) == TokenType::Eof) {
        match onward(tokens, pos, parse_function(tokens, pos, "method"@)) {
            Ok((m, p)) => {
                lemma_methods_move(tokens, p, done.push(m));
            },
            Err(_) => {},
        }
    }
}

proof fn lemma_function_moves(tokens: Tokens, pos: nat, kind: Seq<char>)
    ensures
        parse_function(tokens, pos, kind) matches Ok((_, p)) ==> p > pos,
    decreases remaining(tokens, pos), 37nat,
{
    match expect(tokens, pos, TokenType::Identifier, "expect "@ + kind + " name"@) {
        Ok(p) => match expect(
            tokens,
            p,
            TokenType::LeftParen,
            "expect '(' after "@ + kind + " name"@,
        ) {
            Ok(q) => {
                let params = if check_at(tokens, q, TokenType::RightParen) {
                    Ok((Seq::empty(), q))
                } else {
                    parse_parameters(tokens, q, Seq::empty())
                };
                match params {
                    Ok((_, r)) => match expect(
                        tokens,
                        r,
                        TokenType::RightParen,
                        "expect ')' after parameters"@,
                    ) {
                        Ok(t) => match expect(
                            tokens,
                            t,
                            TokenType::LeftBrace,
                            "Expect '{' before body."@,
                        ) {
                            Ok(u) => {
                                if u > pos {
                                    lemma_block_moves(tokens, u, Seq::empty());
                                }
                            },
                            Err(_) => {},
                        },
                        Err(_) => {},
                    },
                    Err(_) => {},
                }
            },
            Err(_) => {},
        },
        Err(_) => {},
    }
}

proof fn lemma_block_moves(tokens: Tokens, pos: nat, done: Seq<StmtModel>)
    ensures
        parse_block(tokens, pos, done) matches Ok((_, p)) ==> p > pos,
    decreases remaining(tokens, pos), 40nat,
{
    if !(check_at(tokens, pos, TokenType::RightBrace) || kind_at(tokens, pos) == TokenType::Eof) {
        match onward(tokens, pos, parse_declaration(tokens, pos)) {
            Ok((s, p)) => {
                lemma_block_moves(tokens, p, done.push(s));
            },
            Err(_) => {},
        }
    }
}

proof fn lemma_var_moves(tokens: Tokens, pos: nat)
    ensures
        parse_var_declaration(tokens, pos) matches Ok((_, p)) ==> p > pos,
    decreases remaining(tokens, pos), 36nat,
{
    match expect(tokens, pos, TokenType::Identifier, "expect variable name"@) {
        Ok(p) => {
            if check_at(tokens, p, TokenType::Equal) {
                an_expression_ends_after_it_starts(tokens, p + 1);
            }
        },
        Err(_) => {},
    }
}

proof fn lemma_statement_moves(tokens: Tokens, pos: nat)
    ensures
        parse_statement(tokens, pos) matches Ok((_, p)) ==> p > pos,
    decreases remaining(tokens, pos), 35nat,
{
    let kind = kind_at(tokens, pos);
    if kind == TokenType::Print {
        an_expression_ends_after_it_starts(tokens, pos + 1);
    } else if kind == TokenType::LeftBrace {
        lemma_block_moves(tokens, pos + 1, Seq::empty());
    } else if kind == TokenType::If {
        lemma_if_moves(tokens, pos + 1);
    } else if kind == TokenType::While {
        lemma_while_moves(tokens, pos + 1);
    } else if kind == TokenType::For {
        lemma_for_moves(tokens, pos + 1);
    } else if kind == TokenType::Return {
        if !check_at(tokens, pos + 1, TokenType::Semicolon) {
            an_expression_ends_after_it_starts(tokens, pos + 1);
        }
    } else {
        an_expression_ends_after_it_starts(tokens, pos);
    }
}

proof fn lemma_if_moves(tokens: Tokens, pos: nat)
    ensures
        parse_if(tokens, pos) matches Ok((_, p)) ==> p > pos,
    decreases remaining(tokens, pos), 34nat,
{
    match onward(
        tokens,
        pos,
        parse_condition(tokens, pos, "Expect '(' after 'if'."@, "Expect ')' after 'if' condition."@),
    ) {
        Ok((_, p)) => {
            match forward(tokens, p, parse_statement(tokens, p)) {
                Ok((_, q)) => {
                    if check_at(tokens, q, TokenType::Else) {
                        lemma_statement_moves(tokens, q + 1);
                    }
                },
                Err(_) => {},
            }
        },
        Err(_) => {},
    }
}

proof fn lemma_while_moves(tokens: Tokens, pos: nat)
    ensures
        parse_while(tokens, pos) matches Ok((_, p)) ==> p > pos,
    decreases remaining(tokens, pos), 34nat,
{
    match onward(
        tokens,
        pos,
        parse_condition(tokens, pos, "Expect '(' after while."@, "Expect ')' after condition."@),
    ) {
        Ok((_, p)) => {
            lemma_statement_moves(tokens, p);
        },
        Err(_) => {},
    }
}

proof fn lemma_for_moves(tokens: Tokens, pos: nat)
    ensures
        parse_for(tokens, pos) matches Ok((_, p)) ==> p > pos,
    decreases remaining(tokens, pos), 38nat,
{
    match expect(tokens, pos, TokenType::LeftParen, "Expect '(' after for."@) {
        Ok(p) => match forward(tokens, p, parse_for_init(tokens, p)) {
            Ok((_, q)) => match forward(tokens, q, parse_optional(tokens, q, TokenType::Semicolon)) {
                Ok((_, r)) => match expect(
                    tokens,
                    r,
                    TokenType::Semicolon,
                    "Expect ';' after loop condition."@,
                ) {
                    Ok(t) => match forward(
                        tokens,
                        t,
                        parse_optional(tokens, t, TokenType::RightParen),
                    ) {
                        Ok((_, u)) => match expect(
                            tokens,
                            u,
                            TokenType::RightParen,
                            "Expect ')' after for clauses."@,
                        ) {
                            Ok(v) => {
                                lemma_statement_moves(tokens, v);
                            },
                            Err(_) => {},
                        },
                        Err(_) => {},
                    },
                    Err(_) => {},
                },
                Err(_) => {},
            },
            Err(_) => {},
        },
        Err(_) => {},
    }
}

/// The grammar never goes back: the checks that guard its recursion hold
/// of every tree, so that they change nothing.
pub proof fn the_grammar_never_goes_back(tokens: Tokens, pos: nat, level: nat)
    ensures
        forward(tokens, pos, parse_expression(tokens, pos)) == parse_expression(tokens, pos),
        forward(tokens, pos, parse_level(tokens, pos, level)) == parse_level(tokens, pos, level),
        forward(tokens, pos, parse_primary(tokens, pos)) == parse_primary(tokens, pos),
        forward(tokens, pos, parse_statement(tokens, pos)) == parse_statement(tokens, pos),
        onward(tokens, pos, parse_declaration(tokens, pos)) == parse_declaration(tokens, pos),
        onward(tokens, pos, parse_function(tokens, pos, "method"@)) == parse_function(
            tokens,
            pos,
            "method"@,
        ),
{
    an_expression_ends_after_it_starts(tokens, pos);
    lemma_level_moves(tokens, pos, level);
    lemma_primary_moves(tokens, pos);
    lemma_statement_moves(tokens, pos);
    a_declaration_ends_after_it_starts(tokens, pos);
    lemma_function_moves(tokens, pos, "method"@);
}

} // verus!
