//! Expressions of the syntax tree.
use crate::interpreter::{Action, Interpreter};
use crate::machine::eval_model;
use crate::text::push_text;
use crate::token::{Literal, LiteralModel, Token, TokenModel};
use std::rc::Rc;
use vstd::prelude::*;

verus! {

/// An expression. `Assign`, `Variable`, `This` and `Super` carry the slot that
/// the resolver fills: `-1` for a global, otherwise the number of enclosing
/// environments to walk from the current one.
#[derive(Clone, Debug, PartialEq)]
pub enum Expr {
    Assign(Token, Rc<Expr>, i32),
    Binary(Rc<Expr>, Token, Rc<Expr>),
    Call(Rc<Expr>, Token, Vec<Rc<Expr>>),
    Get(Rc<Expr>, Token),
    Grouping(Rc<Expr>),
    Literal(Literal),
    Logical(Rc<Expr>, Token, Rc<Expr>),
    SetProperty(Rc<Expr>, Token, Rc<Expr>),
    Super(Token, Token, i32),
    This(Token, i32),
    Unary(Token, Rc<Expr>),
    Variable(Token, i32),
}

/// The mathematical content of an [`Expr`].
pub enum ExprModel {
    Assign(TokenModel, Box<ExprModel>, i32),
    Binary(Box<ExprModel>, TokenModel, Box<ExprModel>),
    Call(Box<ExprModel>, TokenModel, Seq<ExprModel>),
    Get(Box<ExprModel>, TokenModel),
    Grouping(Box<ExprModel>),
    Literal(LiteralModel),
    Logical(Box<ExprModel>, TokenModel, Box<ExprModel>),
    SetProperty(Box<ExprModel>, TokenModel, Box<ExprModel>),
    Super(TokenModel, TokenModel, i32),
    This(TokenModel, i32),
    Unary(TokenModel, Box<ExprModel>),
    Variable(TokenModel, i32),
}

pub open spec fn expr_model(e: Expr) -> ExprModel
    decreases e,
{
    match e {
        Expr::Assign(name, value, slot) => ExprModel::Assign(
            name@,
            Box::new(expr_model(*value)),
            slot,
        ),
        Expr::Binary(left, op, right) => ExprModel::Binary(
            Box::new(expr_model(*left)),
            op@,
            Box::new(expr_model(*right)),
        ),
        Expr::Call(callee, paren, args) => ExprModel::Call(
            Box::new(expr_model(*callee)),
            paren@,
            exprs_model(args@),
        ),
        Expr::Get(object, name) => ExprModel::Get(Box::new(expr_model(*object)), name@),
        Expr::Grouping(inner) => ExprModel::Grouping(Box::new(expr_model(*inner))),
        Expr::Literal(lit) => ExprModel::Literal(lit@),
        Expr::Logical(left, op, right) => ExprModel::Logical(
            Box::new(expr_model(*left)),
            op@,
            Box::new(expr_model(*right)),
        ),
        Expr::SetProperty(object, name, value) => ExprModel::SetProperty(
            Box::new(expr_model(*object)),
            name@,
            Box::new(expr_model(*value)),
        ),
        Expr::Super(keyword, method, slot) => ExprModel::Super(keyword@, method@, slot),
        Expr::This(keyword, slot) => ExprModel::This(keyword@, slot),
        Expr::Unary(op, operand) => ExprModel::Unary(op@, Box::new(expr_model(*operand))),
        Expr::Variable(name, slot) => ExprModel::Variable(name@, slot),
    }
}

/// The views of a list of expressions.
pub open spec fn exprs_model(es: Seq<Rc<Expr>>) -> Seq<ExprModel>
    decreases es,
{
    Seq::new(
        es.len(),
        |i: int|
            if 0 <= i < es.len() {
                expr_model(*es[i])
            } else {
                ExprModel::Literal(LiteralModel::Nil)
            },
    )
}

impl View for Expr {
    type V = ExprModel;

    open spec fn view(&self) -> ExprModel {
        expr_model(*self)
    }
}

/// The view of an optional expression.
pub open spec fn expr_option_model(e: Option<Rc<Expr>>) -> Option<ExprModel> {
    match e {
        Some(e) => Some(e@),
        None => None,
    }
}


/// Starts the evaluation of an expression: the one transition of the
/// interpreter that the kind of the expression calls for.
pub fn walk_expr(visitor: &mut Interpreter, expr: &Expr) -> (a: Action)
    ensures
        (final(visitor)@, a@) == eval_model(old(visitor)@, expr@),
{
    match expr {
        Expr::Assign(left, right, distance) => visitor.visit_assign(left, right, *distance),
        Expr::Binary(left, op, right) => visitor.visit_binary(left, op, right),
        Expr::Call(callee, paren, args) => visitor.visit_call(callee, paren, args),
        Expr::Get(object, name) => visitor.visit_get(object, name),
        Expr::Grouping(inner) => visitor.visit_grouping(inner),
        Expr::Literal(lit) => visitor.visit_literal(lit),
        Expr::Logical(left, op, right) => visitor.visit_logical(left, op, right),
        Expr::SetProperty(object, name, value) => visitor.visit_set(object, name, value),
        Expr::Super(keyword, method, distance) => visitor.visit_super(keyword, method, *distance),
        Expr::This(keyword, distance) => visitor.visit_this(keyword, *distance),
        Expr::Unary(op, operand) => visitor.visit_unary(op, operand),
        Expr::Variable(name, distance) => visitor.visit_var_expr(name, *distance),
    }
}


/// The text of a literal.
pub open spec fn literal_text(lit: LiteralModel) -> Seq<char> {
    match lit {
        LiteralModel::Number(n) => n,
        LiteralModel::Str(t) => t,
        LiteralModel::Bool(b) => if b {
            "true"@
        } else {
            "false"@
        },
        LiteralModel::Nil => "nil"@,
    }
}

/// An expression written out for a reader: the kind of the expression and,
/// in parentheses, its parts.
pub open spec fn described(e: ExprModel) -> Seq<char>
    decreases e,
{
    match e {
        ExprModel::Assign(name, value, _) => "assign: ("@ + name.lexeme + ", "@ + described(*value)
            + ")"@,
        ExprModel::Binary(left, op, right) => "binary: ("@ + described(*left) + " "@ + op.lexeme
            + " "@ + described(*right) + ")"@,
        ExprModel::Call(callee, paren, args) => "call: ("@ + described(*callee) + " "@
            + paren.lexeme + " ["@ + described_list(args, 0) + "])"@,
        ExprModel::Get(object, name) => "get: ("@ + described(*object) + " "@ + name.lexeme + ")"@,
        ExprModel::Grouping(inner) => "grouping: ("@ + described(*inner) + ")"@,
        ExprModel::Literal(lit) => "literal: ("@ + literal_text(lit) + ")"@,
        ExprModel::Logical(left, op, right) => "logical: ("@ + described(*left) + " "@ + op.lexeme
            + " "@ + described(*right) + ")"@,
        ExprModel::SetProperty(object, name, value) => "set: ("@ + described(*object) + " "@
            + name.lexeme + " "@ + described(*value) + ")"@,
        ExprModel::Super(keyword, method, _) => "super: ("@ + keyword.lexeme + " "@ + method.lexeme
            + ")"@,
        ExprModel::This(keyword, _) => "this: ("@ + keyword.lexeme + ")"@,
        ExprModel::Unary(op, operand) => "unary: ("@ + op.lexeme + " "@ + described(*operand)
            + ")"@,
        ExprModel::Variable(name, _) => "variable: ("@ + name.lexeme + ")"@,
    }
}

/// The expressions of a list from `i` on, written out with commas between
/// them.
pub open spec fn described_list(es: Seq<ExprModel>, i: nat) -> Seq<char>
    decreases es, es.len() - i,
{
    if i >= es.len() {
        Seq::empty()
    } else if i + 1 == es.len() {
        described(es[i as int])
    } else {
        described(es[i as int]) + ", "@ + described_list(es, i + 1)
    }
}

impl Expr {
    /// Appends the expression, written out for a reader, to `out`.
    pub fn describe(&self, out: &mut String)
        ensures
            final(out)@ == old(out)@ + described(self@),
        decreases self,
    {
        match self {
            Expr::Assign(name, value, _) => {
                push_text(out, "assign: (");
                push_text(out, name.lexeme.as_str());
                push_text(out, ", ");
                value.describe(out);
                push_text(out, ")");
                assert(out@ =~= old(out)@ + described(self@));
            },
            Expr::Binary(left, op, right) => {
                push_text(out, "binary: (");
                left.describe(out);
                push_text(out, " ");
                push_text(out, op.lexeme.as_str());
                push_text(out, " ");
                right.describe(out);
                push_text(out, ")");
                assert(out@ =~= old(out)@ + described(self@));
            },
            Expr::Call(callee, paren, args) => {
                push_text(out, "call: (");
                callee.describe(out);
                push_text(out, " ");
                push_text(out, paren.lexeme.as_str());
                push_text(out, " [");
                let ghost before = out@;
                let ghost model = exprs_model(args@);
                let mut i: usize = 0;
                while i < args.len()
                    invariant
                        0 <= i <= args.len(),
                        model == exprs_model(args@),
                        decreases_to!(self => args@),
                        out@ + described_list(model, i as nat) == before + described_list(
                            model,
                            0,
                        ),
                    decreases args.len() - i,
                {
                    assert(decreases_to!(args@ => args@[i as int]));
                    let ghost start = out@;
                    args[i].describe(out);
                    if i + 1 < args.len() {
                        push_text(out, ", ");
                    }
                    assert(out@ + described_list(model, (i + 1) as nat) =~= start
                        + described_list(model, i as nat));
                    i += 1;
                }
                assert(out@ =~= before + described_list(model, 0));
                push_text(out, "])");
                assert(out@ =~= old(out)@ + described(self@));
            },
            Expr::Get(object, name) => {
                push_text(out, "get: (");
                object.describe(out);
                push_text(out, " ");
                push_text(out, name.lexeme.as_str());
                push_text(out, ")");
                assert(out@ =~= old(out)@ + described(self@));
            },
            Expr::Grouping(inner) => {
                push_text(out, "grouping: (");
                inner.describe(out);
                push_text(out, ")");
                assert(out@ =~= old(out)@ + described(self@));
            },
            Expr::Literal(lit) => {
                push_text(out, "literal: (");
                push_text(out, lit.to_string().as_str());
                push_text(out, ")");
                assert(out@ =~= old(out)@ + described(self@));
            },
            Expr::Logical(left, op, right) => {
                push_text(out, "logical: (");
                left.describe(out);
                push_text(out, " ");
                push_text(out, op.lexeme.as_str());
                push_text(out, " ");
                right.describe(out);
                push_text(out, ")");
                assert(out@ =~= old(out)@ + described(self@));
            },
            Expr::SetProperty(object, name, value) => {
                push_text(out, "set: (");
                object.describe(out);
                push_text(out, " ");
                push_text(out, name.lexeme.as_str());
                push_text(out, " ");
                value.describe(out);
                push_text(out, ")");
                assert(out@ =~= old(out)@ + described(self@));
            },
            Expr::Super(keyword, method, _) => {
                push_text(out, "super: (");
                push_text(out, keyword.lexeme.as_str());
                push_text(out, " ");
                push_text(out, method.lexeme.as_str());
                push_text(out, ")");
                assert(out@ =~= old(out)@ + described(self@));
            },
            Expr::This(keyword, _) => {
                push_text(out, "this: (");
                push_text(out, keyword.lexeme.as_str());
                push_text(out, ")");
                assert(out@ =~= old(out)@ + described(self@));
            },
            Expr::Unary(op, operand) => {
                push_text(out, "unary: (");
                push_text(out, op.lexeme.as_str());
                push_text(out, " ");
                operand.describe(out);
                push_text(out, ")");
                assert(out@ =~= old(out)@ + described(self@));
            },
            Expr::Variable(name, _) => {
                push_text(out, "variable: (");
                push_text(out, name.lexeme.as_str());
                push_text(out, ")");
                assert(out@ =~= old(out)@ + described(self@));
            },
        }
    }

    /// The expression written out for a reader.
    pub fn to_string(&self) -> (s: String)
        ensures
            s@ == described(self@),
    {
        let mut s = String::new();
        self.describe(&mut s);
        assert(s@ =~= described(self@));
        s
    }
}

} // verus!
