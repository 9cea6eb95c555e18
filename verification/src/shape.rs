//! The shape of what the parser gives: the branches of an `if` and the
//! body of a loop are statements that declare nothing in the scope around
//! them, and the superclass of a class is a variable. Programs of this
//! shape in which no class inherits from a variable of its own name are the
//! programs for which depth correctness is proved.
use crate::expr::ExprModel;
use crate::grammar::{
    Tokens, check_at, desugar_for, expect, forward, kind_at, onward, parse_block, parse_class,
    parse_condition, parse_declaration, parse_for, parse_for_init, parse_function, parse_if,
    parse_methods, parse_optional, parse_program, parse_statement, parse_while, remaining,
};
use crate::machine::{MachineModel, loaded};
use crate::resolver::{fresh_resolver, resolve_stmts_model};
use crate::soundness::{declares, scoped, shaped, shaped_all, typed_heap};
use crate::stmt::StmtModel;
use crate::token::TokenType;
use vstd::prelude::*;

verus! {

/// Whether no class in the statement inherits from a variable that has the
/// name of the class itself.
pub open spec fn distinct(s: StmtModel) -> bool
    decreases s,
{
    match s {
        StmtModel::Block(stmts) => distinct_all(stmts),
        StmtModel::Class(name, superclass, methods) => distinct_all(methods) && (match superclass {
            Some(ExprModel::Variable(parent, _)) => parent.lexeme != name.lexeme,
            _ => true,
        }),
        StmtModel::Func(_, _, body) => distinct_all(body),
        StmtModel::If(_, then_branch, else_branch) => distinct(*then_branch) && (match else_branch {
            Some(e) => distinct(*e),
            None => true,
        }),
        StmtModel::While(_, body) => distinct(*body),
        _ => true,
    }
}

pub open spec fn distinct_all(stmts: Seq<StmtModel>) -> bool
    decreases stmts,
{
    forall|i: int| 0 <= i < stmts.len() ==> distinct(#[trigger] stmts[i])
}

/// What a list that the parser has read so far and goes on reading is like:
/// what was read is kept, every statement that is added has the parser's
/// shape, and no more statements are added than tokens are left.
pub open spec fn list_grown(
    tokens: Tokens,
    pos: nat,
    done: Seq<StmtModel>,
    out: Seq<StmtModel>,
) -> bool {
    &&& done.len() <= out.len() <= done.len() + remaining(tokens, pos)
    &&& out.take(done.len() as int) == done
    &&& forall|i: int| done.len() <= i < out.len() ==> shaped(#[trigger] out[i])
}

proof fn lemma_list_grown_step(
    tokens: Tokens,
    pos: nat,
    p: nat,
    done: Seq<StmtModel>,
    s: StmtModel,
    out: Seq<StmtModel>,
)
    requires
        pos < tokens.len(),
        p > pos,
        list_grown(tokens, p, done.push(s), out),
        shaped(s),
    ensures
        list_grown(tokens, pos, done, out),
{
    assert(out.take(done.len() as int) =~= out.take(done.push(s).len() as int).drop_last());
    assert(done.push(s).drop_last() =~= done);
    assert forall|i: int| done.len() <= i < out.len() implies shaped(#[trigger] out[i]) by {
        if i == done.len() {
            assert(out.take(done.push(s).len() as int)[i] == out[i]);
            assert(done.push(s)[i] == s);
        }
    }
}

proof fn lemma_distinct_element(out: Seq<StmtModel>, done: Seq<StmtModel>, s: StmtModel)
    requires
        distinct_all(out),
        out.len() >= done.len() + 1,
        out.take(done.len() + 1 as int) == done.push(s),
    ensures
        distinct(s),
{
    assert(out.take(done.len() + 1 as int)[done.len() as int] == out[done.len() as int]);
    assert(done.push(s)[done.len() as int] == s);
}

/// declaration
pub proof fn lemma_declaration(tokens: Tokens, pos: nat)
    requires
        tokens.len() <= usize::MAX,
    ensures
        parse_declaration(tokens, pos) matches Ok((s, _)) ==> distinct(s) ==> shaped(s),
    decreases remaining(tokens, pos), 39nat,
{
    let kind = kind_at(tokens, pos);
    if kind == TokenType::Class {
        lemma_class(tokens, pos + 1);
    } else if kind == TokenType::Fun {
        lemma_function(tokens, pos + 1, "function"@);
    } else if kind == TokenType::Var {
    } else {
        lemma_statement(tokens, pos);
    }
}

proof fn lemma_class(tokens: Tokens, pos: nat)
    requires
        tokens.len() <= usize::MAX,
    ensures
        parse_class(tokens, pos) matches Ok((s, _)) ==> distinct(s) ==> shaped(s),
    decreases remaining(tokens, pos), 38nat,
{
    match expect(tokens, pos, TokenType::Identifier, "expect class name"@) {
        Ok(p) => {
            let superclass = if check_at(tokens, p, TokenType::Less) {
                match expect(tokens, p + 1, TokenType::Identifier, "expect superclass name"@) {
                    Ok(q) => Ok((Some(ExprModel::Variable(tokens[p + 1 as int], -1i32)), q)),
                    Err(e) => Err(e),
                }
            } else {
                Ok((None, p))
            };
            match superclass {
                Ok((superclass, q)) => match expect(
                    tokens,
                    q,
                    TokenType::LeftBrace,
                    "expect '{' before class body"@,
                ) {
                    Ok(r) => {
                        lemma_methods(tokens, r, Seq::empty());
                        match parse_methods(tokens, r, Seq::empty()) {
                            Ok((methods, t)) => {
                                let s = StmtModel::Class(tokens[pos as int], superclass, methods);
                                if distinct(s) {
                                    assert(distinct_all(methods));
                                    lemma_grown_from_nothing(tokens, r, methods);
                                    assert(shaped(s));
                                }
                            },
                            Err(_) => {},
                        }
                    },
                    Err(_) => {},
                },
                Err(_) => {},
            }
        },
        Err(_) => {},
    }
}

proof fn lemma_methods(tokens: Tokens, pos: nat, done: Seq<StmtModel>)
    requires
        tokens.len() <= usize::MAX,
    ensures
        parse_methods(tokens, pos, done) matches Ok((out, _)) ==> distinct_all(out) ==> list_grown(
            tokens,
            pos,
            done,
            out,
        ),
    decreases remaining(tokens, pos), 40nat,
{
    if check_at(tokens, pos, TokenType::RightBrace) || kind_at(tokens, pos) == TokenType::Eof {
        assert(done.take(done.len() as int) =~= done);
    } else {
        lemma_function(tokens, pos, "method"@);
        match onward(tokens, pos, parse_function(tokens, pos, "method"@)) {
            Ok((m, p)) => {
                lemma_methods(tokens, p, done.push(m));
                match parse_methods(tokens, p, done.push(m)) {
                    Ok((out, _)) => {
                        if distinct_all(out) {
                            lemma_methods_kept(tokens, p, done.push(m));
                            lemma_distinct_element(out, done, m);
                            lemma_list_grown_step(tokens, pos, p, done, m, out);
                        }
                    },
                    Err(_) => {},
                }
            },
            Err(_) => {},
        }
    }
}

proof fn lemma_methods_kept(tokens: Tokens, pos: nat, done: Seq<StmtModel>)
    ensures
        parse_methods(tokens, pos, done) matches Ok((out, _)) ==> out.len() >= done.len()
            && out.take(done.len() as int) == done,
    decreases remaining(tokens, pos),
{
    if check_at(tokens, pos, TokenType::RightBrace) || kind_at(tokens, pos) == TokenType::Eof {
        assert(done.take(done.len() as int) =~= done);
    } else {
        match onward(tokens, pos, parse_function(tokens, pos, "method"@)) {
            Ok((m, p)) => {
                lemma_methods_kept(tokens, p, done.push(m));
                match parse_methods(tokens, p, done.push(m)) {
                    Ok((out, _)) => {
                        assert(out.take(done.len() as int) =~= out.take(
                            done.push(m).len() as int,
                        ).drop_last());
                        assert(done.push(m).drop_last() =~= done);
                    },
                    Err(_) => {},
                }
            },
            Err(_) => {},
        }
    }
}

proof fn lemma_block_kept(tokens: Tokens, pos: nat, done: Seq<StmtModel>)
    ensures
        parse_block(tokens, pos, done) matches Ok((out, _)) ==> out.len() >= done.len()
            && out.take(done.len() as int) == done,
    decreases remaining(tokens, pos),
{
    if check_at(tokens, pos, TokenType::RightBrace) || kind_at(tokens, pos) == TokenType::Eof {
        assert(done.take(done.len() as int) =~= done);
    } else {
        match onward(tokens, pos, parse_declaration(tokens, pos)) {
            Ok((s, p)) => {
                lemma_block_kept(tokens, p, done.push(s));
                match parse_block(tokens, p, done.push(s)) {
                    Ok((out, _)) => {
                        assert(out.take(done.len() as int) =~= out.take(
                            done.push(s).len() as int,
                        ).drop_last());
                        assert(done.push(s).drop_last() =~= done);
                    },
                    Err(_) => {},
                }
            },
            Err(_) => {},
        }
    }
}

proof fn lemma_function(tokens: Tokens, pos: nat, kind: Seq<char>)
    requires
        tokens.len() <= usize::MAX,
    ensures
        parse_function(tokens, pos, kind) matches Ok((s, _)) ==> distinct(s) ==> shaped(s),
    decreases remaining(tokens, pos), 37nat,
{
    match expect(tokens, pos, TokenType::Identifier, "expect "@ + kind + " name"@) {
        Ok(p) => match expect(
            tokens,
            p,
            TokenType::LeftParen,
            "expect '(' after "@ + kind + " name"@,
        ) {
            Ok(q) => {
                let params = if check_at(tokens, q, TokenType::RightParen) {
                    Ok((Seq::empty(), q))
                } else {
                    crate::grammar::parse_parameters(tokens, q, Seq::empty())
                };
                match params {
                    Ok((params, r)) => match expect(
                        tokens,
                        r,
                        TokenType::RightParen,
                        "expect ')' after parameters"@,
                    ) {
                        Ok(t) => match expect(
                            tokens,
                            t,
                            TokenType::LeftBrace,
                            "Expect '{' before body."@,
                        ) {
                            Ok(u) => {
                                if u > pos {
                                    lemma_block(tokens, u, Seq::empty());
                                    match parse_block(tokens, u, Seq::empty()) {
                                        Ok((body, _)) => {
                                            let s = StmtModel::Func(
                                                tokens[pos as int],
                                                params,
                                                body,
                                            );
                                            if distinct(s) {
                                                assert(distinct_all(body));
                                                lemma_grown_from_nothing(tokens, u, body);
                                                assert(shaped(s));
                                            }
                                        },
                                        Err(_) => {},
                                    }
                                }
                            },
                            Err(_) => {},
                        },
                        Err(_) => {},
                    },
                    Err(_) => {},
                }
            },
            Err(_) => {},
        },
        Err(_) => {},
    }
}

proof fn lemma_block(tokens: Tokens, pos: nat, done: Seq<StmtModel>)
    requires
        tokens.len() <= usize::MAX,
    ensures
        parse_block(tokens, pos, done) matches Ok((out, _)) ==> distinct_all(out) ==> list_grown(
            tokens,
            pos,
            done,
            out,
        ),
    decreases remaining(tokens, pos), 40nat,
{
    if check_at(tokens, pos, TokenType::RightBrace) || kind_at(tokens, pos) == TokenType::Eof {
        assert(done.take(done.len() as int) =~= done);
    } else {
        lemma_declaration(tokens, pos);
        match onward(tokens, pos, parse_declaration(tokens, pos)) {
            Ok((s, p)) => {
                lemma_block(tokens, p, done.push(s));
                match parse_block(tokens, p, done.push(s)) {
                    Ok((out, _)) => {
                        if distinct_all(out) {
                            lemma_block_kept(tokens, p, done.push(s));
                            lemma_distinct_element(out, done, s);
                            lemma_list_grown_step(tokens, pos, p, done, s, out);
                        }
                    },
                    Err(_) => {},
                }
            },
            Err(_) => {},
        }
    }
}

/// A list that has grown from nothing, out of no more tokens than a
/// machine word can count, has the parser's shape.
proof fn lemma_grown_from_nothing(tokens: Tokens, pos: nat, out: Seq<StmtModel>)
    requires
        tokens.len() <= usize::MAX,
        list_grown(tokens, pos, Seq::empty(), out),
    ensures
        shaped_all(out),
{
}

/// statement
proof fn lemma_statement(tokens: Tokens, pos: nat)
    requires
        tokens.len() <= usize::MAX,
    ensures
        parse_statement(tokens, pos) matches Ok((s, _)) ==> !declares(s) && (distinct(s)
            ==> shaped(s)),
    decreases remaining(tokens, pos), 35nat,
{
    let kind = kind_at(tokens, pos);
    if kind == TokenType::Print {
    } else if kind == TokenType::LeftBrace {
        lemma_block_statement(tokens, pos);
    } else if kind == TokenType::If {
        lemma_if(tokens, pos + 1);
    } else if kind == TokenType::While {
        lemma_while(tokens, pos + 1);
    } else if kind == TokenType::For {
        lemma_for(tokens, pos + 1);
    } else if kind == TokenType::Return {
    } else {
    }
}

proof fn lemma_block_statement(tokens: Tokens, pos: nat)
    requires
        tokens.len() <= usize::MAX,
        kind_at(tokens, pos) == TokenType::LeftBrace,
    ensures
        parse_block(tokens, pos + 1, Seq::empty()) matches Ok((stmts, _)) ==> distinct(
            StmtModel::Block(stmts),
        ) ==> shaped(StmtModel::Block(stmts)),
    decreases remaining(tokens, pos), 34nat,
{
    lemma_block(tokens, pos + 1, Seq::empty());
    match parse_block(tokens, pos + 1, Seq::empty()) {
        Ok((stmts, _)) => {
            if distinct(StmtModel::Block(stmts)) {
                assert(distinct_all(stmts));
                lemma_grown_from_nothing(tokens, pos + 1, stmts);
            }
        },
        Err(_) => {},
    }
}

proof fn lemma_if(tokens: Tokens, pos: nat)
    requires
        tokens.len() <= usize::MAX,
    ensures
        parse_if(tokens, pos) matches Ok((s, _)) ==> !declares(s) && (distinct(s) ==> shaped(s)),
    decreases remaining(tokens, pos), 34nat,
{
    match onward(
        tokens,
        pos,
        parse_condition(tokens, pos, "Expect '(' after 'if'."@, "Expect ')' after 'if' condition."@),
    ) {
        Ok((_, p)) => {
            lemma_statement(tokens, p);
            match forward(tokens, p, parse_statement(tokens, p)) {
                Ok((_, q)) => {
                    if check_at(tokens, q, TokenType::Else) {
                        lemma_statement(tokens, q + 1);
                    }
                },
                Err(_) => {},
            }
        },
        Err(_) => {},
    }
}

proof fn lemma_while(tokens: Tokens, pos: nat)
    requires
        tokens.len() <= usize::MAX,
    ensures
        parse_while(tokens, pos) matches Ok((s, _)) ==> !declares(s) && (distinct(s) ==> shaped(s)),
    decreases remaining(tokens, pos), 34nat,
{
    match onward(
        tokens,
        pos,
        parse_condition(tokens, pos, "Expect '(' after while."@, "Expect ')' after condition."@),
    ) {
        Ok((_, p)) => {
            lemma_statement(tokens, p);
        },
        Err(_) => {},
    }
}

/// The statement that a `for` loop stands for has the parser's shape if
/// its parts have.
proof fn lemma_desugar(
    init: Option<StmtModel>,
    cond: Option<ExprModel>,
    increment: Option<ExprModel>,
    body: StmtModel,
)
    requires
        !declares(body),
        init matches Some(i) ==> i is Var || i is Expr,
    ensures
        !declares(desugar_for(init, cond, increment, body)),
        distinct(desugar_for(init, cond, increment, body)) ==> distinct(body),
        shaped(body) ==> shaped(desugar_for(init, cond, increment, body)),
{
    reveal_with_fuel(distinct, 4);
    reveal_with_fuel(distinct_all, 4);
    reveal_with_fuel(shaped, 4);
    reveal_with_fuel(shaped_all, 4);
    let inner = match increment {
        Some(inc) => StmtModel::Block(seq![body, StmtModel::Expr(inc)]),
        None => body,
    };
    let test = match cond {
        Some(c) => c,
        None => ExprModel::Literal(crate::token::LiteralModel::Bool(true)),
    };
    let repeat = StmtModel::While(test, Box::new(inner));
    let list = match init {
        Some(i) => seq![i, repeat],
        None => seq![repeat],
    };
    let whole = desugar_for(init, cond, increment, body);
    assert(whole == StmtModel::Block(list));
    if distinct(whole) {
        assert(distinct_all(list));
        assert(list[list.len() - 1] == repeat);
        assert(distinct(list[list.len() - 1]));
        assert(distinct(inner));
        match increment {
            Some(inc) => {
                let both = seq![body, StmtModel::Expr(inc)];
                assert(distinct_all(both));
                assert(both[0] == body);
                assert(distinct(both[0]));
            },
            None => {},
        }
    }
    if shaped(body) {
        match increment {
            Some(inc) => {
                let both = seq![body, StmtModel::Expr(inc)];
                assert forall|i: int| 0 <= i < both.len() implies shaped(#[trigger] both[i]) by {}
                assert(shaped_all(both));
            },
            None => {},
        }
        assert(shaped(inner));
        assert(shaped(repeat));
        assert forall|i: int| 0 <= i < list.len() implies shaped(#[trigger] list[i]) by {}
        assert(shaped_all(list));
    }
}

proof fn lemma_for(tokens: Tokens, pos: nat)
    requires
        tokens.len() <= usize::MAX,
    ensures
        parse_for(tokens, pos) matches Ok((s, _)) ==> !declares(s) && (distinct(s) ==> shaped(s)),
    decreases remaining(tokens, pos), 38nat,
{
    match expect(tokens, pos, TokenType::LeftParen, "Expect '(' after for."@) {
        Ok(p) => match forward(tokens, p, parse_for_init(tokens, p)) {
            Ok((init, q)) => match forward(
                tokens,
                q,
                parse_optional(tokens, q, TokenType::Semicolon),
            ) {
                Ok((cond, r)) => match expect(
                    tokens,
                    r,
                    TokenType::Semicolon,
                    "Expect ';' after loop condition."@,
                ) {
                    Ok(t) => match forward(
                        tokens,
                        t,
                        parse_optional(tokens, t, TokenType::RightParen),
                    ) {
                        Ok((increment, u)) => match expect(
                            tokens,
                            u,
                            TokenType::RightParen,
                            "Expect ')' after for clauses."@,
                        ) {
                            Ok(v) => {
                                lemma_statement(tokens, v);
                                match parse_statement(tokens, v) {
                                    Ok((body, _)) => {
                                        lemma_desugar(init, cond, increment, body);
                                    },
                                    Err(_) => {},
                                }
                            },
                            Err(_) => {},
                        },
                        Err(_) => {},
                    },
                    Err(_) => {},
                },
                Err(_) => {},
            },
            Err(_) => {},
        },
        Err(_) => {},
    }
}

proof fn lemma_program(tokens: Tokens, pos: nat, done: Seq<StmtModel>)
    requires
        tokens.len() <= usize::MAX,
    ensures
        parse_program(tokens, pos, done) matches Ok((out, _)) ==> distinct_all(out) ==> list_grown(
            tokens,
            pos,
            done,
            out,
        ),
    decreases remaining(tokens, pos), 40nat,
{
    if kind_at(tokens, pos) == TokenType::Eof {
        assert(done.take(done.len() as int) =~= done);
    } else {
        lemma_declaration(tokens, pos);
        match onward(tokens, pos, parse_declaration(tokens, pos)) {
            Ok((s, p)) => {
                lemma_program(tokens, p, done.push(s));
                match parse_program(tokens, p, done.push(s)) {
                    Ok((out, _)) => {
                        if distinct_all(out) {
                            crate::grammar::a_program_is_parsed_to_the_end(tokens, p, done.push(s));
                            lemma_distinct_element(out, done, s);
                            lemma_list_grown_step(tokens, pos, p, done, s, out);
                        }
                    },
                    Err(_) => {},
                }
            },
            Err(_) => {},
        }
    }
}

/// The parser gives programs of the parser's shape: a program that is
/// parsed from no more tokens than a machine word can count, and in which
/// no class inherits from a variable of its own name, has the shape for
/// which depth correctness is proved.
pub proof fn a_parsed_program_has_the_shape(tokens: Tokens, pos: nat)
    requires
        tokens.len() <= usize::MAX,
    ensures
        parse_program(tokens, pos, Seq::empty()) matches Ok((program, _)) ==> distinct_all(program)
            ==> shaped_all(program),
{
    lemma_program(tokens, pos, Seq::empty());
    match parse_program(tokens, pos, Seq::empty()) {
        Ok((program, _)) => {
            if distinct_all(program) {
                lemma_grown_from_nothing(tokens, pos, program);
            }
        },
        Err(_) => {},
    }
}


/// Depth correctness, from the tokens: a program that is parsed and
/// resolved, and in which no class inherits from a variable of its own
/// name, is loaded into a well-scoped state, in whatever interpreter whose
/// heap is well scoped. From there on every transition keeps the state well
/// scoped, and in a well-scoped state every variable with a slot is found
/// at its slot's distance.
pub proof fn a_parsed_and_resolved_program_runs_well_scoped(m: MachineModel, tokens: Tokens)
    requires
        typed_heap(m.heap),
        m.globals < m.heap.envs.len(),
        tokens.len() <= usize::MAX,
    ensures
        match parse_program(tokens, 0, Seq::empty()) {
            Ok((program, _)) => distinct_all(program) ==> (match resolve_stmts_model(
                fresh_resolver(),
                program,
            ) {
                Ok((_, stmts)) => scoped(loaded(m, stmts)),
                Err(_) => true,
            }),
            Err(_) => true,
        },
{
    a_parsed_program_has_the_shape(tokens, 0);
    match parse_program(tokens, 0, Seq::empty()) {
        Ok((program, _)) => {
            if distinct_all(program) {
                crate::soundness::a_program_that_resolves_is_loaded_well_scoped(m, program);
            }
        },
        Err(_) => {},
    }
}

} // verus!
