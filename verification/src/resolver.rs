//! The resolver: a static pass over the syntax tree that writes into every
//! variable use the number of scopes between the use and the declaration it
//! refers to, and reports the errors that can be seen without running the
//! program.
use crate::error::{Error, ErrorModel, resolve_error};
use crate::expr::{Expr, ExprModel, expr_option_model, exprs_model};
use crate::stmt::{Stmt, StmtModel, stmts_model};
use crate::table::Table;
use crate::token::{Token, TokenModel, duplicate_tokens, tokens_model};
use std::rc::Rc;
use vstd::prelude::*;
use vstd::string::StringExecFns;

verus! {

/// What kind of function body the resolver is in.
#[derive(Copy, Clone, Debug, PartialEq, Eq, Structural)]
pub enum FunctionType {
    Outside,
    Function,
    Method,
    Initializer,
}

/// What kind of class body the resolver is in.
#[derive(Copy, Clone, Debug, PartialEq, Eq, Structural)]
pub enum ClassType {
    Outside,
    Class,
    Subclass,
}

/// The resolver's state: the stack of local scopes, innermost last, each a
/// map from a declared name to whether its initializer has been resolved;
/// and the kinds of the enclosing function and class. The global scope is
/// not on the stack.
pub struct Resolver {
    pub scopes: Vec<Table<bool>>,
    pub function_type: FunctionType,
    pub class_type: ClassType,
}

pub type Scopes = Seq<Map<Seq<char>, bool>>;

/// The mathematical content of [`Resolver`].
pub struct ResolverModel {
    pub scopes: Scopes,
    pub function_type: FunctionType,
    pub class_type: ClassType,
}

/// The views of a stack of scopes.
pub open spec fn scopes_model(scopes: Seq<Table<bool>>) -> Scopes {
    Seq::new(scopes.len(), |i: int| scopes[i]@)
}

impl View for Resolver {
    type V = ResolverModel;

    open spec fn view(&self) -> ResolverModel {
        ResolverModel {
            scopes: scopes_model(self.scopes@),
            function_type: self.function_type,
            class_type: self.class_type,
        }
    }
}

/// The number of scopes between the innermost scope and the innermost one
/// that declares `name`; `None` where no scope on the stack declares it.
pub open spec fn depth_of(scopes: Scopes, name: Seq<char>) -> Option<nat>
    decreases scopes.len(),
{
    if scopes.len() == 0 {
        None
    } else if scopes.last().contains_key(name) {
        Some(0)
    } else {
        match depth_of(scopes.drop_last(), name) {
            Some(d) => Some(d + 1),
            None => None,
        }
    }
}

pub open spec fn nested_too_deeply(name: TokenModel) -> ErrorModel {
    resolve_error("scopes are nested too deeply"@, name.line)
}

/// The slot of a use of `name`: its depth, or `-1` for a global. A depth
/// that no slot can hold is an error.
pub open spec fn slot_model(scopes: Scopes, name: TokenModel) -> Result<i32, ErrorModel> {
    match depth_of(scopes, name.lexeme) {
        None => Ok(-1i32),
        Some(d) => if d <= i32::MAX {
            Ok(d as i32)
        } else {
            Err(nested_too_deeply(name))
        },
    }
}

pub open spec fn with_scopes(r: ResolverModel, scopes: Scopes) -> ResolverModel {
    ResolverModel { scopes, function_type: r.function_type, class_type: r.class_type }
}

pub open spec fn begin_scope_model(r: ResolverModel) -> ResolverModel {
    with_scopes(r, r.scopes.push(Map::empty()))
}

pub open spec fn end_scope_model(r: ResolverModel) -> ResolverModel {
    if r.scopes.len() > 0 {
        with_scopes(r, r.scopes.drop_last())
    } else {
        r
    }
}

/// The scopes after `name` is entered in the innermost one; nothing changes
/// at global level.
pub open spec fn mark(scopes: Scopes, name: Seq<char>, ready: bool) -> Scopes {
    if scopes.len() > 0 {
        scopes.update(scopes.len() - 1, scopes.last().insert(name, ready))
    } else {
        scopes
    }
}

pub open spec fn already_declared(name: TokenModel) -> ErrorModel {
    resolve_error("variable `"@ + name.lexeme + "` is already declared in this scope"@, name.line)
}

/// Declaring a name enters it as not yet ready; declaring it twice in one
/// local scope is an error.
pub open spec fn declare_model(r: ResolverModel, name: TokenModel) -> Result<
    ResolverModel,
    ErrorModel,
> {
    if r.scopes.len() > 0 && r.scopes.last().contains_key(name.lexeme) {
        Err(already_declared(name))
    } else {
        Ok(with_scopes(r, mark(r.scopes, name.lexeme, false)))
    }
}

/// Defining a name marks it ready for use.
pub open spec fn define_model(r: ResolverModel, name: TokenModel) -> ResolverModel {
    with_scopes(r, mark(r.scopes, name.lexeme, true))
}

pub open spec fn own_initializer(name: TokenModel) -> ErrorModel {
    resolve_error("can't read local variable in its own initializer"@, name.line)
}

pub open spec fn this_outside_class(keyword: TokenModel) -> ErrorModel {
    resolve_error("can't use 'this' outside of a class"@, keyword.line)
}

pub open spec fn super_outside_class(keyword: TokenModel) -> ErrorModel {
    resolve_error("can't use 'super' outside of a class"@, keyword.line)
}

pub open spec fn super_without_superclass(keyword: TokenModel) -> ErrorModel {
    resolve_error("can't use 'super' in a class with no superclass"@, keyword.line)
}

pub open spec fn return_outside_function(keyword: TokenModel) -> ErrorModel {
    resolve_error("can't return from top-level code"@, keyword.line)
}

pub open spec fn return_from_initializer(keyword: TokenModel) -> ErrorModel {
    resolve_error("can't return a value from an initializer"@, keyword.line)
}

pub open spec fn method_is_no_function(name: TokenModel) -> ErrorModel {
    resolve_error("only functions can be methods of a class"@, name.line)
}

/// Whether `name` stands in the innermost scope as declared but not ready.
pub open spec fn in_own_initializer(scopes: Scopes, name: Seq<char>) -> bool {
    scopes.len() > 0 && scopes.last().contains_key(name) && !scopes.last()[name]
}

/// The expression with every slot in it filled in, or the first error.
pub open spec fn resolve_expr_model(r: ResolverModel, e: ExprModel) -> Result<ExprModel, ErrorModel>
    decreases e,
{
    match e {
        ExprModel::Assign(name, value, _) => match resolve_expr_model(r, *value) {
            Ok(v) => match slot_model(r.scopes, name) {
                Ok(slot) => Ok(ExprModel::Assign(name, Box::new(v), slot)),
                Err(err) => Err(err),
            },
            Err(err) => Err(err),
        },
        ExprModel::Binary(left, op, right) => match resolve_expr_model(r, *left) {
            Ok(l) => match resolve_expr_model(r, *right) {
                Ok(rt) => Ok(ExprModel::Binary(Box::new(l), op, Box::new(rt))),
                Err(err) => Err(err),
            },
            Err(err) => Err(err),
        },
        ExprModel::Call(callee, paren, args) => match resolve_expr_model(r, *callee) {
            Ok(c) => match resolve_exprs_model(r, args) {
                Ok(a) => Ok(ExprModel::Call(Box::new(c), paren, a)),
                Err(err) => Err(err),
            },
            Err(err) => Err(err),
        },
        ExprModel::Get(object, name) => match resolve_expr_model(r, *object) {
            Ok(o) => Ok(ExprModel::Get(Box::new(o), name)),
            Err(err) => Err(err),
        },
        ExprModel::Grouping(inner) => match resolve_expr_model(r, *inner) {
            Ok(i) => Ok(ExprModel::Grouping(Box::new(i))),
            Err(err) => Err(err),
        },
        ExprModel::Literal(lit) => Ok(ExprModel::Literal(lit)),
        ExprModel::Logical(left, op, right) => match resolve_expr_model(r, *left) {
            Ok(l) => match resolve_expr_model(r, *right) {
                Ok(rt) => Ok(ExprModel::Logical(Box::new(l), op, Box::new(rt))),
                Err(err) => Err(err),
            },
            Err(err) => Err(err),
        },
        ExprModel::SetProperty(object, name, value) => match resolve_expr_model(r, *object) {
            Ok(o) => match resolve_expr_model(r, *value) {
                Ok(v) => Ok(ExprModel::SetProperty(Box::new(o), name, Box::new(v))),
                Err(err) => Err(err),
            },
            Err(err) => Err(err),
        },
        ExprModel::Super(keyword, method, _) => if r.class_type == ClassType::Outside {
            Err(super_outside_class(keyword))
        } else if r.class_type == ClassType::Class {
            Err(super_without_superclass(keyword))
        } else {
            match slot_model(r.scopes, keyword) {
                Ok(slot) => Ok(ExprModel::Super(keyword, method, slot)),
                Err(err) => Err(err),
            }
        },
        ExprModel::This(keyword, _) => if r.class_type == ClassType::Outside {
            Err(this_outside_class(keyword))
        } else {
            match slot_model(r.scopes, keyword) {
                Ok(slot) => Ok(ExprModel::This(keyword, slot)),
                Err(err) => Err(err),
            }
        },
        ExprModel::Unary(op, operand) => match resolve_expr_model(r, *operand) {
            Ok(o) => Ok(ExprModel::Unary(op, Box::new(o))),
            Err(err) => Err(err),
        },
        ExprModel::Variable(name, _) => if in_own_initializer(r.scopes, name.lexeme) {
            Err(own_initializer(name))
        } else {
            match slot_model(r.scopes, name) {
                Ok(slot) => Ok(ExprModel::Variable(name, slot)),
                Err(err) => Err(err),
            }
        },
    }
}

/// The expressions of a list resolved from left to right.
pub open spec fn resolve_exprs_model(r: ResolverModel, es: Seq<ExprModel>) -> Result<
    Seq<ExprModel>,
    ErrorModel,
>
    decreases es,
{
    if es.len() == 0 {
        Ok(Seq::empty())
    } else {
        match resolve_exprs_model(r, es.drop_last()) {
            Ok(done) => match resolve_expr_model(r, es.last()) {
                Ok(e) => Ok(done.push(e)),
                Err(err) => Err(err),
            },
            Err(err) => Err(err),
        }
    }
}

pub open spec fn resolve_expr_option_model(r: ResolverModel, e: Option<ExprModel>) -> Result<
    Option<ExprModel>,
    ErrorModel,
> {
    match e {
        Some(e) => match resolve_expr_model(r, e) {
            Ok(e) => Ok(Some(e)),
            Err(err) => Err(err),
        },
        None => Ok(None),
    }
}

/// The parameters of a function declared and defined one after the other in
/// the innermost scope.
pub open spec fn declare_params_model(r: ResolverModel, params: Seq<TokenModel>) -> Result<
    ResolverModel,
    ErrorModel,
>
    decreases params.len(),
{
    if params.len() == 0 {
        Ok(r)
    } else {
        match declare_params_model(r, params.drop_last()) {
            Ok(r1) => match declare_model(r1, params.last()) {
                Ok(r2) => Ok(define_model(r2, params.last())),
                Err(err) => Err(err),
            },
            Err(err) => Err(err),
        }
    }
}

pub open spec fn with_function_type(r: ResolverModel, t: FunctionType) -> ResolverModel {
    ResolverModel { scopes: r.scopes, function_type: t, class_type: r.class_type }
}

pub open spec fn with_class_type(r: ResolverModel, t: ClassType) -> ResolverModel {
    ResolverModel { scopes: r.scopes, function_type: r.function_type, class_type: t }
}

/// The statement with every slot in it filled in and the resolver's state
/// after it, or the first error.
pub open spec fn resolve_stmt_model(r: ResolverModel, s: StmtModel) -> Result<
    (ResolverModel, StmtModel),
    ErrorModel,
>
    decreases s, 1nat,
{
    match s {
        StmtModel::Block(stmts) => match resolve_stmts_model(begin_scope_model(r), stmts) {
            Ok((r1, out)) => Ok((end_scope_model(r1), StmtModel::Block(out))),
            Err(err) => Err(err),
        },
        StmtModel::Class(name, superclass, methods) => match declare_model(
            with_class_type(r, ClassType::Class),
            name,
        ) {
            Ok(r1) => {
                let r2 = define_model(r1, name);
                match superclass {
                    Some(sc) => {
                        let r3 = with_class_type(r2, ClassType::Subclass);
                        match resolve_expr_model(r3, sc) {
                            Ok(sc1) => {
                                let r4 = with_scopes(
                                    r3,
                                    mark(
                                        mark(begin_scope_model(r3).scopes, "super"@, true).push(
                                            Map::empty(),
                                        ),
                                        "this"@,
                                        true,
                                    ),
                                );
                                match resolve_methods_model(r4, name, methods) {
                                    Ok((r5, out)) => Ok(
                                        (
                                            with_class_type(
                                                end_scope_model(end_scope_model(r5)),
                                                r.class_type,
                                            ),
                                            StmtModel::Class(name, Some(sc1), out),
                                        ),
                                    ),
                                    Err(err) => Err(err),
                                }
                            },
                            Err(err) => Err(err),
                        }
                    },
                    None => {
                        let r4 = with_scopes(r2, mark(begin_scope_model(r2).scopes, "this"@, true));
                        match resolve_methods_model(r4, name, methods) {
                            Ok((r5, out)) => Ok(
                                (
                                    with_class_type(end_scope_model(r5), r.class_type),
                                    StmtModel::Class(name, None, out),
                                ),
                            ),
                            Err(err) => Err(err),
                        }
                    },
                }
            },
            Err(err) => Err(err),
        },
        StmtModel::Expr(e) => match resolve_expr_model(r, e) {
            Ok(e1) => Ok((r, StmtModel::Expr(e1))),
            Err(err) => Err(err),
        },
        StmtModel::Func(name, params, body) => match declare_model(r, name) {
            Ok(r1) => resolve_function_model(define_model(r1, name), s, FunctionType::Function),
            Err(err) => Err(err),
        },
        StmtModel::If(cond, then_branch, else_branch) => match resolve_expr_model(r, cond) {
            Ok(c) => match resolve_stmt_model(r, *then_branch) {
                Ok((r1, t)) => match else_branch {
                    Some(e) => match resolve_stmt_model(r1, *e) {
                        Ok((r2, e1)) => Ok((r2, StmtModel::If(c, Box::new(t), Some(Box::new(e1))))),
                        Err(err) => Err(err),
                    },
                    None => Ok((r1, StmtModel::If(c, Box::new(t), None))),
                },
                Err(err) => Err(err),
            },
            Err(err) => Err(err),
        },
        StmtModel::Print(e) => match resolve_expr_model(r, e) {
            Ok(e1) => Ok((r, StmtModel::Print(e1))),
            Err(err) => Err(err),
        },
        StmtModel::Return(keyword, value) => if r.function_type == FunctionType::Outside {
            Err(return_outside_function(keyword))
        } else if value is Some && r.function_type == FunctionType::Initializer {
            Err(return_from_initializer(keyword))
        } else {
            match resolve_expr_option_model(r, value) {
                Ok(v) => Ok((r, StmtModel::Return(keyword, v))),
                Err(err) => Err(err),
            }
        },
        StmtModel::Var(name, init) => match declare_model(r, name) {
            Ok(r1) => match resolve_expr_option_model(r1, init) {
                Ok(i) => Ok((define_model(r1, name), StmtModel::Var(name, i))),
                Err(err) => Err(err),
            },
            Err(err) => Err(err),
        },
        StmtModel::While(cond, body) => match resolve_expr_model(r, cond) {
            Ok(c) => match resolve_stmt_model(r, *body) {
                Ok((r1, b)) => Ok((r1, StmtModel::While(c, Box::new(b)))),
                Err(err) => Err(err),
            },
            Err(err) => Err(err),
        },
    }
}

/// The statements of a list resolved in order, each in the state that the
/// one before it left.
pub open spec fn resolve_stmts_model(r: ResolverModel, stmts: Seq<StmtModel>) -> Result<
    (ResolverModel, Seq<StmtModel>),
    ErrorModel,
>
    decreases stmts, 0nat,
{
    if stmts.len() == 0 {
        Ok((r, Seq::empty()))
    } else {
        match resolve_stmts_model(r, stmts.drop_last()) {
            Ok((r1, done)) => match resolve_stmt_model(r1, stmts.last()) {
                Ok((r2, s)) => Ok((r2, done.push(s))),
                Err(err) => Err(err),
            },
            Err(err) => Err(err),
        }
    }
}

/// A function's parameters and body resolved in a fresh scope, as a function
/// of kind `kind`. A statement that is no function declaration is left as
/// it is.
pub open spec fn resolve_function_model(r: ResolverModel, f: StmtModel, kind: FunctionType) -> Result<
    (ResolverModel, StmtModel),
    ErrorModel,
>
    decreases f, 0nat,
{
    match f {
        StmtModel::Func(name, params, body) => match declare_params_model(
            with_function_type(begin_scope_model(r), kind),
            params,
        ) {
            Ok(r1) => match resolve_stmts_model(r1, body) {
                Ok((r2, out)) => Ok(
                    (
                        with_function_type(end_scope_model(r2), r.function_type),
                        StmtModel::Func(name, params, out),
                    ),
                ),
                Err(err) => Err(err),
            },
            Err(err) => Err(err),
        },
        _ => Ok((r, f)),
    }
}

/// The kind of a method: an initializer if and only if it is named `init`.
pub open spec fn method_kind(name: Seq<char>) -> FunctionType {
    if name == "init"@ {
        FunctionType::Initializer
    } else {
        FunctionType::Method
    }
}

/// The methods of the class named by `class` resolved in order; a statement
/// among them that is no function declaration is an error.
pub open spec fn resolve_methods_model(
    r: ResolverModel,
    class: TokenModel,
    methods: Seq<StmtModel>,
) -> Result<(ResolverModel, Seq<StmtModel>), ErrorModel>
    decreases methods, 1nat,
{
    if methods.len() == 0 {
        Ok((r, Seq::empty()))
    } else {
        match resolve_methods_model(r, class, methods.drop_last()) {
            Ok((r1, done)) => match methods.last() {
                StmtModel::Func(name, _, _) => match resolve_function_model(
                    r1,
                    methods.last(),
                    method_kind(name.lexeme),
                ) {
                    Ok((r2, m)) => Ok((r2, done.push(m))),
                    Err(err) => Err(err),
                },
                _ => Err(method_is_no_function(class)),
            },
            Err(err) => Err(err),
        }
    }
}

/// The state of a resolver that has seen nothing.
pub open spec fn fresh_resolver() -> ResolverModel {
    ResolverModel {
        scopes: Seq::empty(),
        function_type: FunctionType::Outside,
        class_type: ClassType::Outside,
    }
}


/// The view of a resolved expression or the error in its place.
pub open spec fn expr_result(r: Result<Expr, Error>) -> Result<ExprModel, ErrorModel> {
    match r {
        Ok(e) => Ok(e@),
        Err(err) => Err(err@),
    }
}

/// The view of a resolved statement with the state after it, or the error.
pub open spec fn stmt_result(r: Result<Stmt, Error>, after: ResolverModel) -> Result<
    (ResolverModel, StmtModel),
    ErrorModel,
> {
    match r {
        Ok(s) => Ok((after, s@)),
        Err(err) => Err(err@),
    }
}

/// The view of a resolved list of statements with the state after it, or
/// the error.
pub open spec fn stmts_result(r: Result<Vec<Rc<Stmt>>, Error>, after: ResolverModel) -> Result<
    (ResolverModel, Seq<StmtModel>),
    ErrorModel,
> {
    match r {
        Ok(s) => Ok((after, stmts_model(s@))),
        Err(err) => Err(err@),
    }
}

/// Where a depth is found, the scope at that depth declares the name and no
/// scope nearer to the top does; where none is found, no scope declares it.
pub proof fn lemma_depth_of(scopes: Scopes, name: Seq<char>)
    ensures
        match depth_of(scopes, name) {
            Some(d) => d < scopes.len() && scopes[scopes.len() - 1 - d].contains_key(name)
                && forall|j: int|
                0 <= j < d ==> !(#[trigger] scopes[scopes.len() - 1 - j]).contains_key(name),
            None => forall|j: int|
                0 <= j < scopes.len() ==> !(#[trigger] scopes[j]).contains_key(name),
        },
    decreases scopes.len(),
{
    if scopes.len() > 0 && !scopes.last().contains_key(name) {
        let rest = scopes.drop_last();
        lemma_depth_of(rest, name);
        match depth_of(rest, name) {
            Some(d) => {
                assert(rest[rest.len() - 1 - d] == scopes[scopes.len() - 1 - (d + 1)]);
                assert forall|j: int| 0 <= j < d + 1 implies !(#[trigger] scopes[scopes.len() - 1
                    - j]).contains_key(name) by {
                    if j > 0 {
                        assert(rest[rest.len() - 1 - (j - 1)] == scopes[scopes.len() - 1 - j]);
                    }
                }
            },
            None => {
                assert forall|j: int| 0 <= j < scopes.len() implies !(#[trigger] scopes[j]).contains_key(
                    name,
                ) by {
                    if j < rest.len() {
                        assert(rest[j] == scopes[j]);
                    }
                }
            },
        }
    }
}

proof fn lemma_depth_found(scopes: Scopes, name: Seq<char>, d: nat)
    requires
        d < scopes.len(),
        scopes[scopes.len() - 1 - d].contains_key(name),
        forall|j: int| 0 <= j < d ==> !(#[trigger] scopes[scopes.len() - 1 - j]).contains_key(name),
    ensures
        depth_of(scopes, name) == Some(d),
    decreases d,
{
    if d > 0 {
        let rest = scopes.drop_last();
        assert(!scopes[scopes.len() - 1 - 0].contains_key(name));
        assert(rest[rest.len() - 1 - (d - 1)] == scopes[scopes.len() - 1 - d]);
        assert forall|j: int| 0 <= j < d - 1 implies !(#[trigger] rest[rest.len() - 1
            - j]).contains_key(name) by {
            assert(rest[rest.len() - 1 - j] == scopes[scopes.len() - 1 - (j + 1)]);
        }
        lemma_depth_found(rest, name, (d - 1) as nat);
    }
}

proof fn lemma_depth_absent(scopes: Scopes, name: Seq<char>)
    requires
        forall|j: int| 0 <= j < scopes.len() ==> !(#[trigger] scopes[scopes.len() - 1 - j]).contains_key(
            name,
        ),
    ensures
        depth_of(scopes, name) is None,
    decreases scopes.len(),
{
    if scopes.len() > 0 {
        let rest = scopes.drop_last();
        assert(!scopes[scopes.len() - 1 - 0].contains_key(name));
        assert forall|j: int| 0 <= j < rest.len() implies !(#[trigger] rest[rest.len() - 1
            - j]).contains_key(name) by {
            assert(rest[rest.len() - 1 - j] == scopes[scopes.len() - 1 - (j + 1)]);
        }
        lemma_depth_absent(rest, name);
    }
}

proof fn lemma_exprs_error(r: ResolverModel, es: Seq<ExprModel>, k: int)
    requires
        0 <= k <= es.len(),
        resolve_exprs_model(r, es.take(k)) is Err,
    ensures
        resolve_exprs_model(r, es) == resolve_exprs_model(r, es.take(k)),
    decreases es.len() - k,
{
    if k < es.len() {
        assert(es.take(k + 1).drop_last() =~= es.take(k));
        lemma_exprs_error(r, es, k + 1);
    } else {
        assert(es.take(k) =~= es);
    }
}

proof fn lemma_stmts_error(r: ResolverModel, ss: Seq<StmtModel>, k: int)
    requires
        0 <= k <= ss.len(),
        resolve_stmts_model(r, ss.take(k)) is Err,
    ensures
        resolve_stmts_model(r, ss) == resolve_stmts_model(r, ss.take(k)),
    decreases ss.len() - k,
{
    if k < ss.len() {
        assert(ss.take(k + 1).drop_last() =~= ss.take(k));
        lemma_stmts_error(r, ss, k + 1);
    } else {
        assert(ss.take(k) =~= ss);
    }
}

proof fn lemma_methods_error(r: ResolverModel, class: TokenModel, ms: Seq<StmtModel>, k: int)
    requires
        0 <= k <= ms.len(),
        resolve_methods_model(r, class, ms.take(k)) is Err,
    ensures
        resolve_methods_model(r, class, ms) == resolve_methods_model(r, class, ms.take(k)),
    decreases ms.len() - k,
{
    if k < ms.len() {
        assert(ms.take(k + 1).drop_last() =~= ms.take(k));
        lemma_methods_error(r, class, ms, k + 1);
    } else {
        assert(ms.take(k) =~= ms);
    }
}

proof fn lemma_params_error(r: ResolverModel, ps: Seq<TokenModel>, k: int)
    requires
        0 <= k <= ps.len(),
        declare_params_model(r, ps.take(k)) is Err,
    ensures
        declare_params_model(r, ps) == declare_params_model(r, ps.take(k)),
    decreases ps.len() - k,
{
    if k < ps.len() {
        assert(ps.take(k + 1).drop_last() =~= ps.take(k));
        lemma_params_error(r, ps, k + 1);
    } else {
        assert(ps.take(k) =~= ps);
    }
}

impl Resolver {
    /// A resolver at global level, outside any function and class.
    pub fn new() -> (r: Resolver)
        ensures
            r@ == fresh_resolver(),
    {
        let r = Resolver {
            scopes: Vec::new(),
            function_type: FunctionType::Outside,
            class_type: ClassType::Outside,
        };
        assert(r@.scopes =~= Seq::empty());
        r
    }

    /// Resolves a program: the statements with every slot filled in, or the
    /// first static error.
    pub fn resolve_stmts(&mut self, stmts: Vec<Rc<Stmt>>) -> (r: Result<Vec<Rc<Stmt>>, Error>)
        ensures
            stmts_result(r, final(self)@) == resolve_stmts_model(old(self)@, stmts_model(stmts@)),
    {
        self.resolve_list(&stmts)
    }

    fn resolve_list(&mut self, stmts: &Vec<Rc<Stmt>>) -> (r: Result<Vec<Rc<Stmt>>, Error>)
        ensures
            stmts_result(r, final(self)@) == resolve_stmts_model(old(self)@, stmts_model(stmts@)),
        decreases stmts@, 0nat,
    {
        let ghost model = stmts_model(stmts@);
        let mut out: Vec<Rc<Stmt>> = Vec::new();
        let mut i: usize = 0;
        assert(model.take(0) =~= Seq::empty());
        assert(stmts_model(out@) =~= Seq::empty());
        while i < stmts.len()
            invariant
                0 <= i <= stmts.len(),
                model == stmts_model(stmts@),
                resolve_stmts_model(old(self)@, model.take(i as int)) == Ok::<
                    (ResolverModel, Seq<StmtModel>),
                    ErrorModel,
                >((self@, stmts_model(out@))),
            decreases stmts.len() - i,
        {
            assert(model.take(i + 1).drop_last() =~= model.take(i as int));
            assert(model.take(i + 1).last() == stmts@[i as int]@);
            let ghost before = out@;
            match self.resolve_stmt(&stmts[i]) {
                Ok(s) => {
                    out.push(Rc::new(s));
                    assert(stmts_model(out@) =~= stmts_model(before).push(s@));
                },
                Err(e) => {
                    proof {
                        lemma_stmts_error(old(self)@, model, i + 1);
                    }
                    return Err(e);
                },
            }
            i += 1;
        }
        assert(model.take(i as int) =~= model);
        Ok(out)
    }

    fn resolve_stmt(&mut self, stmt: &Stmt) -> (r: Result<Stmt, Error>)
        ensures
            stmt_result(r, final(self)@) == resolve_stmt_model(old(self)@, stmt@),
        decreases stmt, 2nat,
    {
        match stmt {
            Stmt::Block(_) => self.visit_block(stmt),
            Stmt::Class(_, _, _) => self.visit_class(stmt),
            Stmt::Expr(_) => self.visit_expr_stmt(stmt),
            Stmt::Func(_, _, _) => self.visit_func(stmt),
            Stmt::If(_, _, _) => self.visit_if(stmt),
            Stmt::Print(_) => self.visit_print(stmt),
            Stmt::Return(_, _) => self.visit_return(stmt),
            Stmt::Var(_, _) => self.visit_var_stmt(stmt),
            Stmt::While(_, _) => self.visit_while(stmt),
        }
    }

    fn resolve_expr(&self, expr: &Expr) -> (r: Result<Expr, Error>)
        ensures
            expr_result(r) == resolve_expr_model(self@, expr@),
        decreases expr, 1nat,
    {
        match expr {
            Expr::Assign(_, _, _) => self.visit_assign(expr),
            Expr::Binary(_, _, _) => self.visit_binary(expr),
            Expr::Call(_, _, _) => self.visit_call(expr),
            Expr::Get(_, _) => self.visit_get(expr),
            Expr::Grouping(_) => self.visit_grouping(expr),
            Expr::Literal(_) => self.visit_literal(expr),
            Expr::Logical(_, _, _) => self.visit_logical(expr),
            Expr::SetProperty(_, _, _) => self.visit_set(expr),
            Expr::Super(_, _, _) => self.visit_super(expr),
            Expr::This(_, _) => self.visit_this(expr),
            Expr::Unary(_, _) => self.visit_unary(expr),
            Expr::Variable(_, _) => self.visit_var_expr(expr),
        }
    }

    fn resolve_expr_option(&self, expr: &Option<Rc<Expr>>) -> (r: Result<Option<Rc<Expr>>, Error>)
        ensures
            match r {
                Ok(e) => resolve_expr_option_model(self@, expr_option_model(*expr)) == Ok::<
                    Option<ExprModel>,
                    ErrorModel,
                >(expr_option_model(e)),
                Err(err) => resolve_expr_option_model(self@, expr_option_model(*expr)) == Err::<
                    Option<ExprModel>,
                    ErrorModel,
                >(err@),
            },
        decreases expr, 2nat,
    {
        match expr {
            Some(e) => match self.resolve_expr(e) {
                Ok(e1) => Ok(Some(Rc::new(e1))),
                Err(err) => Err(err),
            },
            None => Ok(None),
        }
    }

    /// The slot for a use of `name`: the number of scopes between the
    /// innermost scope and the innermost one that declares the name, or
    /// `-1` where no scope on the stack declares it.
    pub fn resolve_local(&self, name: &Token) -> (r: Result<i32, Error>)
        ensures
            match r {
                Ok(slot) => slot_model(self@.scopes, name@) == Ok::<i32, ErrorModel>(slot),
                Err(err) => slot_model(self@.scopes, name@) == Err::<i32, ErrorModel>(err@),
            },
    {
        let n = self.scopes.len();
        let mut i: usize = 0;
        while i < n
            invariant
                0 <= i <= n,
                n == self.scopes.len(),
                forall|j: int|
                    0 <= j < i ==> !(#[trigger] self@.scopes[n - 1 - j]).contains_key(
                        name@.lexeme,
                    ),
            decreases n - i,
        {
            if self.scopes[n - 1 - i].contains_key(&name.lexeme) {
                proof {
                    lemma_depth_found(self@.scopes, name@.lexeme, i as nat);
                }
                if i <= 0x7fff_ffff {
                    return Ok(i as i32);
                } else {
                    return Err(
                        Error::resolve(String::from_str("scopes are nested too deeply"), name.line),
                    );
                }
            }
            i += 1;
        }
        proof {
            lemma_depth_absent(self@.scopes, name@.lexeme);
        }
        Ok(-1)
    }

    /// Resolves the parameters and the body of the function declaration `f`
    /// in a fresh scope, as a function of kind `function_type`.
    #[verifier::loop_isolation(false)]
    fn resolve_function(&mut self, f: &Stmt, function_type: FunctionType) -> (r: Result<Stmt, Error>)
        requires
            f is Func,
        ensures
            stmt_result(r, final(self)@) == resolve_function_model(
                old(self)@,
                f@,
                function_type,
            ),
        decreases f, 0nat,
    {
        match f {
            Stmt::Func(name, params, body) => {
                let enclosing = self.function_type;
                self.function_type = function_type;
                self.begin_scope();
                let ghost start = self@;
                let ghost model = tokens_model(params@);
                let mut i: usize = 0;
                assert(model.take(0) =~= Seq::empty());
                while i < params.len()
                    invariant
                        0 <= i <= params.len(),
                        model == tokens_model(params@),
                        declare_params_model(start, model.take(i as int)) == Ok::<
                            ResolverModel,
                            ErrorModel,
                        >(self@),
                    decreases params.len() - i,
                {
                    assert(model.take(i + 1).drop_last() =~= model.take(i as int));
                    assert(model.take(i + 1).last() == params@[i as int]@);
                    match self.declare(&params[i]) {
                        Ok(_) => {},
                        Err(e) => {
                            proof {
                                lemma_params_error(start, model, i + 1);
                            }
                            return Err(e);
                        },
                    }
                    self.define(&params[i]);
                    i += 1;
                }
                assert(model.take(i as int) =~= model);
                let out = self.resolve_list(body)?;
                self.end_scope();
                self.function_type = enclosing;
                Ok(Stmt::Func(name.duplicate(), duplicate_tokens(params), out))
            },
            _ => unreached(),
        }
    }

    /// Opens a scope.
    pub fn begin_scope(&mut self)
        ensures
            final(self)@ == begin_scope_model(old(self)@),
    {
        self.scopes.push(Table::new());
        assert(self@.scopes =~= old(self)@.scopes.push(Map::empty()));
    }

    /// Closes the innermost scope; does nothing at global level.
    pub fn end_scope(&mut self)
        ensures
            final(self)@ == end_scope_model(old(self)@),
    {
        self.scopes.pop();
        proof {
            if old(self).scopes.len() > 0 {
                assert(self@.scopes =~= old(self)@.scopes.drop_last());
            } else {
                assert(self@.scopes =~= old(self)@.scopes);
            }
        }
    }

    /// Enters `name` in the innermost scope.
    fn mark_top(&mut self, name: String, ready: bool)
        ensures
            final(self)@ == with_scopes(old(self)@, mark(old(self)@.scopes, name@, ready)),
    {
        let n = self.scopes.len();
        if n > 0 {
            self.scopes[n - 1].insert(name, ready);
            assert(self@.scopes =~= mark(old(self)@.scopes, name@, ready));
        } else {
            assert(self@.scopes =~= old(self)@.scopes);
        }
    }

    /// Declares `name` in the innermost scope. To declare a name twice in
    /// one local scope is an error.
    fn declare(&mut self, name: &Token) -> (r: Result<(), Error>)
        ensures
            match r {
                Ok(_) => declare_model(old(self)@, name@) == Ok::<ResolverModel, ErrorModel>(
                    final(self)@,
                ),
                Err(err) => declare_model(old(self)@, name@) == Err::<ResolverModel, ErrorModel>(
                    err@,
                ),
            },
    {
        let n = self.scopes.len();
        if n > 0 && self.scopes[n - 1].contains_key(&name.lexeme) {
            let msg = String::from_str("variable `").concat(name.lexeme.as_str()).concat(
                "` is already declared in this scope",
            );
            return Err(Error::resolve(msg, name.line));
        }
        self.mark_top(name.lexeme.clone(), false);
        Ok(())
    }

    /// Marks `name` as ready for use.
    fn define(&mut self, name: &Token)
        ensures
            final(self)@ == define_model(old(self)@, name@),
    {
        self.mark_top(name.lexeme.clone(), true);
    }

    fn visit_block(&mut self, stmt: &Stmt) -> (r: Result<Stmt, Error>)
        requires
            stmt is Block,
        ensures
            stmt_result(r, final(self)@) == resolve_stmt_model(old(self)@, stmt@),
        decreases stmt, 1nat,
    {
        match stmt {
            Stmt::Block(stmts) => {
                self.begin_scope();
                let out = self.resolve_list(stmts)?;
                self.end_scope();
                Ok(Stmt::Block(out))
            },
            _ => unreached(),
        }
    }

    fn visit_var_stmt(&mut self, stmt: &Stmt) -> (r: Result<Stmt, Error>)
        requires
            stmt is Var,
        ensures
            stmt_result(r, final(self)@) == resolve_stmt_model(old(self)@, stmt@),
        decreases stmt, 1nat,
    {
        match stmt {
            Stmt::Var(name, init) => {
                self.declare(name)?;
                let init = self.resolve_expr_option(init)?;
                self.define(name);
                Ok(Stmt::Var(name.duplicate(), init))
            },
            _ => unreached(),
        }
    }

    fn resolve_methods(&mut self, class: &Token, methods: &Vec<Rc<Stmt>>) -> (r: Result<
        Vec<Rc<Stmt>>,
        Error,
    >)
        ensures
            stmts_result(r, final(self)@) == resolve_methods_model(
                old(self)@,
                class@,
                stmts_model(methods@),
            ),
        decreases methods@, 1nat,
    {
        let ghost model = stmts_model(methods@);
        let mut out: Vec<Rc<Stmt>> = Vec::new();
        let mut i: usize = 0;
        assert(model.take(0) =~= Seq::empty());
        assert(stmts_model(out@) =~= Seq::empty());
        while i < methods.len()
            invariant
                0 <= i <= methods.len(),
                model == stmts_model(methods@),
                resolve_methods_model(old(self)@, class@, model.take(i as int)) == Ok::<
                    (ResolverModel, Seq<StmtModel>),
                    ErrorModel,
                >((self@, stmts_model(out@))),
            decreases methods.len() - i,
        {
            assert(model.take(i + 1).drop_last() =~= model.take(i as int));
            assert(model.take(i + 1).last() == methods@[i as int]@);
            let ghost before = out@;
            let method: &Stmt = &methods[i];
            let resolved = match method {
                Stmt::Func(name, _, _) => {
                    let kind = if name.lexeme == String::from_str("init") {
                        FunctionType::Initializer
                    } else {
                        FunctionType::Method
                    };
                    self.resolve_function(method, kind)
                },
                _ => Err(
                    Error::resolve(
                        String::from_str("only functions can be methods of a class"),
                        class.line,
                    ),
                ),
            };
            match resolved {
                Ok(m) => {
                    out.push(Rc::new(m));
                    assert(stmts_model(out@) =~= stmts_model(before).push(m@));
                },
                Err(e) => {
                    proof {
                        lemma_methods_error(old(self)@, class@, model, i + 1);
                    }
                    return Err(e);
                },
            }
            i += 1;
        }
        assert(model.take(i as int) =~= model);
        Ok(out)
    }

    fn visit_class(&mut self, stmt: &Stmt) -> (r: Result<Stmt, Error>)
        requires
            stmt is Class,
        ensures
            stmt_result(r, final(self)@) == resolve_stmt_model(old(self)@, stmt@),
        decreases stmt, 1nat,
    {
        match stmt {
            Stmt::Class(name, superclass, methods) => {
                let enclosing = self.class_type;
                self.class_type = ClassType::Class;
                self.declare(name)?;
                self.define(name);
                let superclass = match superclass {
                    Some(sc) => {
                        self.class_type = ClassType::Subclass;
                        let sc = self.resolve_expr(sc)?;
                        self.begin_scope();
                        self.mark_top(String::from_str("super"), true);
                        Some(Rc::new(sc))
                    },
                    None => None,
                };
                self.begin_scope();
                self.mark_top(String::from_str("this"), true);
                let methods = self.resolve_methods(name, methods)?;
                self.end_scope();
                if superclass.is_some() {
                    self.end_scope();
                }
                self.class_type = enclosing;
                Ok(Stmt::Class(name.duplicate(), superclass, methods))
            },
            _ => unreached(),
        }
    }

    fn visit_var_expr(&self, expr: &Expr) -> (r: Result<Expr, Error>)
        requires
            expr is Variable,
        ensures
            expr_result(r) == resolve_expr_model(self@, expr@),
    {
        match expr {
            Expr::Variable(name, _) => {
                let n = self.scopes.len();
                if n > 0 {
                    match self.scopes[n - 1].get(&name.lexeme) {
                        Some(ready) => {
                            if !*ready {
                                return Err(
                                    Error::resolve(
                                        String::from_str(
                                            "can't read local variable in its own initializer",
                                        ),
                                        name.line,
                                    ),
                                );
                            }
                        },
                        None => {},
                    }
                }
                let slot = self.resolve_local(name)?;
                Ok(Expr::Variable(name.duplicate(), slot))
            },
            _ => unreached(),
        }
    }

    fn visit_assign(&self, expr: &Expr) -> (r: Result<Expr, Error>)
        requires
            expr is Assign,
        ensures
            expr_result(r) == resolve_expr_model(self@, expr@),
        decreases expr, 0nat,
    {
        match expr {
            Expr::Assign(name, value, _) => {
                let value = self.resolve_expr(value)?;
                let slot = self.resolve_local(name)?;
                Ok(Expr::Assign(name.duplicate(), Rc::new(value), slot))
            },
            _ => unreached(),
        }
    }

    fn visit_binary(&self, expr: &Expr) -> (r: Result<Expr, Error>)
        requires
            expr is Binary,
        ensures
            expr_result(r) == resolve_expr_model(self@, expr@),
        decreases expr, 0nat,
    {
        match expr {
            Expr::Binary(left, op, right) => {
                let left = self.resolve_expr(left)?;
                let right = self.resolve_expr(right)?;
                Ok(Expr::Binary(Rc::new(left), op.duplicate(), Rc::new(right)))
            },
            _ => unreached(),
        }
    }

    fn visit_grouping(&self, expr: &Expr) -> (r: Result<Expr, Error>)
        requires
            expr is Grouping,
        ensures
            expr_result(r) == resolve_expr_model(self@, expr@),
        decreases expr, 0nat,
    {
        match expr {
            Expr::Grouping(inner) => {
                let inner = self.resolve_expr(inner)?;
                Ok(Expr::Grouping(Rc::new(inner)))
            },
            _ => unreached(),
        }
    }

    fn visit_literal(&self, expr: &Expr) -> (r: Result<Expr, Error>)
        requires
            expr is Literal,
        ensures
            expr_result(r) == resolve_expr_model(self@, expr@),
    {
        match expr {
            Expr::Literal(lit) => Ok(Expr::Literal(lit.duplicate())),
            _ => unreached(),
        }
    }

    fn visit_logical(&self, expr: &Expr) -> (r: Result<Expr, Error>)
        requires
            expr is Logical,
        ensures
            expr_result(r) == resolve_expr_model(self@, expr@),
        decreases expr, 0nat,
    {
        match expr {
            Expr::Logical(left, op, right) => {
                let left = self.resolve_expr(left)?;
                let right = self.resolve_expr(right)?;
                Ok(Expr::Logical(Rc::new(left), op.duplicate(), Rc::new(right)))
            },
            _ => unreached(),
        }
    }

    fn visit_unary(&self, expr: &Expr) -> (r: Result<Expr, Error>)
        requires
            expr is Unary,
        ensures
            expr_result(r) == resolve_expr_model(self@, expr@),
        decreases expr, 0nat,
    {
        match expr {
            Expr::Unary(op, operand) => {
                let operand = self.resolve_expr(operand)?;
                Ok(Expr::Unary(op.duplicate(), Rc::new(operand)))
            },
            _ => unreached(),
        }
    }

    #[verifier::loop_isolation(false)]
    fn visit_call(&self, expr: &Expr) -> (r: Result<Expr, Error>)
        requires
            expr is Call,
        ensures
            expr_result(r) == resolve_expr_model(self@, expr@),
        decreases expr, 0nat,
    {
        match expr {
            Expr::Call(callee, paren, args) => {
                let callee = self.resolve_expr(callee)?;
                let ghost model = exprs_model(args@);
                let mut out: Vec<Rc<Expr>> = Vec::new();
                let mut i: usize = 0;
                assert(model.take(0) =~= Seq::empty());
                assert(exprs_model(out@) =~= Seq::empty());
                while i < args.len()
                    invariant
                        0 <= i <= args.len(),
                        model == exprs_model(args@),
                        decreases_to!(expr => args@),
                        resolve_exprs_model(self@, model.take(i as int)) == Ok::<
                            Seq<ExprModel>,
                            ErrorModel,
                        >(exprs_model(out@)),
                    decreases args.len() - i,
                {
                    assert(model.take(i + 1).drop_last() =~= model.take(i as int));
                    assert(model.take(i + 1).last() == args@[i as int]@);
                    assert(decreases_to!(args@ => args@[i as int]));
                    let ghost before = out@;
                    match self.resolve_expr(&args[i]) {
                        Ok(a) => {
                            out.push(Rc::new(a));
                            assert(exprs_model(out@) =~= exprs_model(before).push(a@));
                        },
                        Err(e) => {
                            proof {
                                lemma_exprs_error(self@, model, i + 1);
                            }
                            return Err(e);
                        },
                    }
                    i += 1;
                }
                assert(model.take(i as int) =~= model);
                Ok(Expr::Call(Rc::new(callee), paren.duplicate(), out))
            },
            _ => unreached(),
        }
    }

    fn visit_expr_stmt(&mut self, stmt: &Stmt) -> (r: Result<Stmt, Error>)
        requires
            stmt is Expr,
        ensures
            stmt_result(r, final(self)@) == resolve_stmt_model(old(self)@, stmt@),
        decreases stmt, 1nat,
    {
        match stmt {
            Stmt::Expr(e) => {
                let e = self.resolve_expr(e)?;
                Ok(Stmt::Expr(Rc::new(e)))
            },
            _ => unreached(),
        }
    }

    fn visit_print(&mut self, stmt: &Stmt) -> (r: Result<Stmt, Error>)
        requires
            stmt is Print,
        ensures
            stmt_result(r, final(self)@) == resolve_stmt_model(old(self)@, stmt@),
        decreases stmt, 1nat,
    {
        match stmt {
            Stmt::Print(e) => {
                let e = self.resolve_expr(e)?;
                Ok(Stmt::Print(Rc::new(e)))
            },
            _ => unreached(),
        }
    }

    fn visit_func(&mut self, stmt: &Stmt) -> (r: Result<Stmt, Error>)
        requires
            stmt is Func,
        ensures
            stmt_result(r, final(self)@) == resolve_stmt_model(old(self)@, stmt@),
        decreases stmt, 1nat,
    {
        match stmt {
            Stmt::Func(name, _, _) => {
                self.declare(name)?;
                self.define(name);
                self.resolve_function(stmt, FunctionType::Function)
            },
            _ => unreached(),
        }
    }

    fn visit_if(&mut self, stmt: &Stmt) -> (r: Result<Stmt, Error>)
        requires
            stmt is If,
        ensures
            stmt_result(r, final(self)@) == resolve_stmt_model(old(self)@, stmt@),
        decreases stmt, 1nat,
    {
        match stmt {
            Stmt::If(cond, then_branch, else_branch) => {
                let cond = self.resolve_expr(cond)?;
                let then_branch = self.resolve_stmt(then_branch)?;
                let else_branch = match else_branch {
                    Some(e) => Some(Rc::new(self.resolve_stmt(e)?)),
                    None => None,
                };
                Ok(Stmt::If(Rc::new(cond), Rc::new(then_branch), else_branch))
            },
            _ => unreached(),
        }
    }

    fn visit_return(&mut self, stmt: &Stmt) -> (r: Result<Stmt, Error>)
        requires
            stmt is Return,
        ensures
            stmt_result(r, final(self)@) == resolve_stmt_model(old(self)@, stmt@),
        decreases stmt, 1nat,
    {
        match stmt {
            Stmt::Return(keyword, value) => {
                if self.function_type == FunctionType::Outside {
                    return Err(
                        Error::resolve(
                            String::from_str("can't return from top-level code"),
                            keyword.line,
                        ),
                    );
                }
                if value.is_some() && self.function_type == FunctionType::Initializer {
                    return Err(
                        Error::resolve(
                            String::from_str("can't return a value from an initializer"),
                            keyword.line,
                        ),
                    );
                }
                let value = self.resolve_expr_option(value)?;
                Ok(Stmt::Return(keyword.duplicate(), value))
            },
            _ => unreached(),
        }
    }

    fn visit_while(&mut self, stmt: &Stmt) -> (r: Result<Stmt, Error>)
        requires
            stmt is While,
        ensures
            stmt_result(r, final(self)@) == resolve_stmt_model(old(self)@, stmt@),
        decreases stmt, 1nat,
    {
        match stmt {
            Stmt::While(cond, body) => {
                let cond = self.resolve_expr(cond)?;
                let body = self.resolve_stmt(body)?;
                Ok(Stmt::While(Rc::new(cond), Rc::new(body)))
            },
            _ => unreached(),
        }
    }

    fn visit_get(&self, expr: &Expr) -> (r: Result<Expr, Error>)
        requires
            expr is Get,
        ensures
            expr_result(r) == resolve_expr_model(self@, expr@),
        decreases expr, 0nat,
    {
        match expr {
            Expr::Get(object, name) => {
                let object = self.resolve_expr(object)?;
                Ok(Expr::Get(Rc::new(object), name.duplicate()))
            },
            _ => unreached(),
        }
    }

    fn visit_set(&self, expr: &Expr) -> (r: Result<Expr, Error>)
        requires
            expr is SetProperty,
        ensures
            expr_result(r) == resolve_expr_model(self@, expr@),
        decreases expr, 0nat,
    {
        match expr {
            Expr::SetProperty(object, name, value) => {
                let object = self.resolve_expr(object)?;
                let value = self.resolve_expr(value)?;
                Ok(Expr::SetProperty(Rc::new(object), name.duplicate(), Rc::new(value)))
            },
            _ => unreached(),
        }
    }

    fn visit_this(&self, expr: &Expr) -> (r: Result<Expr, Error>)
        requires
            expr is This,
        ensures
            expr_result(r) == resolve_expr_model(self@, expr@),
    {
        match expr {
            Expr::This(keyword, _) => {
                if self.class_type == ClassType::Outside {
                    return Err(
                        Error::resolve(
                            String::from_str("can't use 'this' outside of a class"),
                            keyword.line,
                        ),
                    );
                }
                let slot = self.resolve_local(keyword)?;
                Ok(Expr::This(keyword.duplicate(), slot))
            },
            _ => unreached(),
        }
    }

    fn visit_super(&self, expr: &Expr) -> (r: Result<Expr, Error>)
        requires
            expr is Super,
        ensures
            expr_result(r) == resolve_expr_model(self@, expr@),
    {
        match expr {
            Expr::Super(keyword, method, _) => {
                if self.class_type == ClassType::Outside {
                    return Err(
                        Error::resolve(
                            String::from_str("can't use 'super' outside of a class"),
                            keyword.line,
                        ),
                    );
                }
                if self.class_type == ClassType::Class {
                    return Err(
                        Error::resolve(
                            String::from_str("can't use 'super' in a class with no superclass"),
                            keyword.line,
                        ),
                    );
                }
                let slot = self.resolve_local(keyword)?;
                Ok(Expr::Super(keyword.duplicate(), method.duplicate(), slot))
            },
            _ => unreached(),
        }
    }
}


/// A resolved expression resolves to itself.
pub proof fn lemma_resolved_expr(r: ResolverModel, e: ExprModel)
    ensures
        resolve_expr_model(r, e) matches Ok(e1) ==> resolve_expr_model(r, e1) == Ok::<
            ExprModel,
            ErrorModel,
        >(e1),
    decreases e,
{
    match e {
        ExprModel::Assign(_, value, _) => {
            lemma_resolved_expr(r, *value);
        },
        ExprModel::Binary(left, _, right) => {
            lemma_resolved_expr(r, *left);
            lemma_resolved_expr(r, *right);
        },
        ExprModel::Call(callee, _, args) => {
            lemma_resolved_expr(r, *callee);
            lemma_resolved_exprs(r, args);
        },
        ExprModel::Get(object, _) => {
            lemma_resolved_expr(r, *object);
        },
        ExprModel::Grouping(inner) => {
            lemma_resolved_expr(r, *inner);
        },
        ExprModel::Literal(_) => {},
        ExprModel::Logical(left, _, right) => {
            lemma_resolved_expr(r, *left);
            lemma_resolved_expr(r, *right);
        },
        ExprModel::SetProperty(object, _, value) => {
            lemma_resolved_expr(r, *object);
            lemma_resolved_expr(r, *value);
        },
        ExprModel::Super(_, _, _) => {},
        ExprModel::This(_, _) => {},
        ExprModel::Unary(_, operand) => {
            lemma_resolved_expr(r, *operand);
        },
        ExprModel::Variable(_, _) => {},
    }
}

/// A resolved list of expressions resolves to itself.
pub proof fn lemma_resolved_exprs(r: ResolverModel, es: Seq<ExprModel>)
    ensures
        resolve_exprs_model(r, es) matches Ok(out) ==> resolve_exprs_model(r, out) == Ok::<
            Seq<ExprModel>,
            ErrorModel,
        >(out),
    decreases es,
{
    if es.len() > 0 {
        lemma_resolved_exprs(r, es.drop_last());
        lemma_resolved_expr(r, es.last());
        match (resolve_exprs_model(r, es.drop_last()), resolve_expr_model(r, es.last())) {
            (Ok(done), Ok(e)) => {
                assert(done.push(e).drop_last() =~= done);
            },
            _ => {},
        }
    }
}

/// A resolved statement resolves to itself and leaves the state that its
/// first resolution left.
pub proof fn lemma_resolved_stmt(r: ResolverModel, s: StmtModel)
    ensures
        resolve_stmt_model(r, s) matches Ok((r1, s1)) ==> resolve_stmt_model(r, s1) == Ok::<
            (ResolverModel, StmtModel),
            ErrorModel,
        >((r1, s1)),
    decreases s, 1nat,
{
    match s {
        StmtModel::Block(stmts) => {
            lemma_resolved_stmts(begin_scope_model(r), stmts);
        },
        StmtModel::Class(_, _, _) => {
            lemma_resolved_class(r, s);
        },
        StmtModel::Expr(e) => {
            lemma_resolved_expr(r, e);
        },
        StmtModel::Func(name, _, _) => {
            match declare_model(r, name) {
                Ok(r1) => {
                    lemma_resolved_function(define_model(r1, name), s, FunctionType::Function);
                },
                Err(_) => {},
            }
        },
        StmtModel::If(_, _, _) => {
            lemma_resolved_if(r, s);
        },
        StmtModel::Print(e) => {
            lemma_resolved_expr(r, e);
        },
        StmtModel::Return(_, value) => {
            match value {
                Some(e) => {
                    lemma_resolved_expr(r, e);
                },
                None => {},
            }
        },
        StmtModel::Var(name, init) => {
            match (declare_model(r, name), init) {
                (Ok(r1), Some(e)) => {
                    lemma_resolved_expr(r1, e);
                },
                _ => {},
            }
        },
        StmtModel::While(cond, body) => {
            lemma_resolved_expr(r, cond);
            lemma_resolved_stmt(r, *body);
        },
    }
}

proof fn lemma_resolved_class(r: ResolverModel, s: StmtModel)
    requires
        s is Class,
    ensures
        resolve_stmt_model(r, s) matches Ok((r1, s1)) ==> resolve_stmt_model(r, s1) == Ok::<
            (ResolverModel, StmtModel),
            ErrorModel,
        >((r1, s1)),
    decreases s, 0nat,
{
    match s {
        StmtModel::Class(name, superclass, methods) => {
            match declare_model(with_class_type(r, ClassType::Class), name) {
                Ok(r1) => {
                    let r2 = define_model(r1, name);
                    match superclass {
                        Some(sc) => {
                            let r3 = with_class_type(r2, ClassType::Subclass);
                            lemma_resolved_expr(r3, sc);
                            let r4 = with_scopes(
                                r3,
                                mark(
                                    mark(begin_scope_model(r3).scopes, "super"@, true).push(
                                        Map::empty(),
                                    ),
                                    "this"@,
                                    true,
                                ),
                            );
                            lemma_resolved_methods(r4, name, methods);
                        },
                        None => {
                            let r4 = with_scopes(
                                r2,
                                mark(begin_scope_model(r2).scopes, "this"@, true),
                            );
                            lemma_resolved_methods(r4, name, methods);
                        },
                    }
                },
                Err(_) => {},
            }
        },
        _ => {},
    }
}

proof fn lemma_resolved_if(r: ResolverModel, s: StmtModel)
    requires
        s is If,
    ensures
        resolve_stmt_model(r, s) matches Ok((r1, s1)) ==> resolve_stmt_model(r, s1) == Ok::<
            (ResolverModel, StmtModel),
            ErrorModel,
        >((r1, s1)),
    decreases s, 0nat,
{
    match s {
        StmtModel::If(cond, then_branch, else_branch) => {
            lemma_resolved_expr(r, cond);
            lemma_resolved_stmt(r, *then_branch);
            match (resolve_stmt_model(r, *then_branch), else_branch) {
                (Ok((r1, _)), Some(e)) => {
                    lemma_resolved_stmt(r1, *e);
                },
                _ => {},
            }
        },
        _ => {},
    }
}

/// A resolved list of statements resolves to itself.
pub proof fn lemma_resolved_stmts(r: ResolverModel, stmts: Seq<StmtModel>)
    ensures
        resolve_stmts_model(r, stmts) matches Ok((r1, out)) ==> resolve_stmts_model(r, out) == Ok::<
            (ResolverModel, Seq<StmtModel>),
            ErrorModel,
        >((r1, out)),
    decreases stmts, 0nat,
{
    if stmts.len() > 0 {
        lemma_resolved_stmts(r, stmts.drop_last());
        match resolve_stmts_model(r, stmts.drop_last()) {
            Ok((r1, done)) => {
                lemma_resolved_stmt(r1, stmts.last());
                match resolve_stmt_model(r1, stmts.last()) {
                    Ok((_, s)) => {
                        assert(done.push(s).drop_last() =~= done);
                    },
                    Err(_) => {},
                }
            },
            Err(_) => {},
        }
    }
}

/// A resolved function declaration resolves to itself.
pub proof fn lemma_resolved_function(r: ResolverModel, f: StmtModel, kind: FunctionType)
    ensures
        resolve_function_model(r, f, kind) matches Ok((r1, f1)) ==> resolve_function_model(
            r,
            f1,
            kind,
        ) == Ok::<(ResolverModel, StmtModel), ErrorModel>((r1, f1)),
    decreases f, 0nat,
{
    match f {
        StmtModel::Func(_, params, body) => {
            match declare_params_model(with_function_type(begin_scope_model(r), kind), params) {
                Ok(r1) => {
                    lemma_resolved_stmts(r1, body);
                },
                Err(_) => {},
            }
        },
        _ => {},
    }
}

/// Resolved methods resolve to themselves.
pub proof fn lemma_resolved_methods(r: ResolverModel, class: TokenModel, methods: Seq<StmtModel>)
    ensures
        resolve_methods_model(r, class, methods) matches Ok((r1, out)) ==> resolve_methods_model(
            r,
            class,
            out,
        ) == Ok::<(ResolverModel, Seq<StmtModel>), ErrorModel>((r1, out)),
    decreases methods, 1nat,
{
    if methods.len() > 0 {
        lemma_resolved_methods(r, class, methods.drop_last());
        match resolve_methods_model(r, class, methods.drop_last()) {
            Ok((r1, done)) => {
                match methods.last() {
                    StmtModel::Func(name, _, _) => {
                        lemma_resolved_function(r1, methods.last(), method_kind(name.lexeme));
                        match resolve_function_model(r1, methods.last(), method_kind(name.lexeme)) {
                            Ok((_, m)) => {
                                assert(done.push(m).drop_last() =~= done);
                            },
                            Err(_) => {},
                        }
                    },
                    _ => {},
                }
            },
            Err(_) => {},
        }
    }
}

/// Resolver determinism: the resolved program is a function of the program
/// and of nothing else, and resolving it a second time changes no slot.
/// Whatever slots a program holds, a resolver that has seen nothing gives
/// the same result for it as for the program it has resolved from it.
pub proof fn resolving_twice_changes_nothing(stmts: Seq<StmtModel>)
    ensures
        resolve_stmts_model(fresh_resolver(), stmts) matches Ok((r1, out))
            ==> resolve_stmts_model(fresh_resolver(), out) == Ok::<
            (ResolverModel, Seq<StmtModel>),
            ErrorModel,
        >((r1, out)),
{
    lemma_resolved_stmts(fresh_resolver(), stmts);
}

/// The slot that the resolver writes for a use of a name is the number of
/// scopes between the use and the innermost scope that declares the name,
/// and `-1` exactly when no scope on the stack declares it.
pub proof fn a_slot_is_the_depth_of_the_declaring_scope(scopes: Scopes, name: TokenModel)
    ensures
        match slot_model(scopes, name) {
            Ok(slot) => if slot < 0 {
                slot == -1 && forall|j: int|
                    0 <= j < scopes.len() ==> !(#[trigger] scopes[j]).contains_key(name.lexeme)
            } else {
                &&& slot < scopes.len()
                &&& scopes[scopes.len() - 1 - slot].contains_key(name.lexeme)
                &&& forall|j: int|
                    0 <= j < slot ==> !(#[trigger] scopes[scopes.len() - 1 - j]).contains_key(
                        name.lexeme,
                    )
            },
            Err(_) => scopes.len() > i32::MAX,
        },
{
    lemma_depth_of(scopes, name.lexeme);
}

/// Inside an initializer a `return` with a value is a static error and a
/// `return` without one is accepted; outside any function every `return`
/// is an error; a method is an initializer exactly when it is named `init`.
pub proof fn an_initializer_returns_no_value(r: ResolverModel, keyword: TokenModel, value: ExprModel)
    ensures
        r.function_type == FunctionType::Initializer ==> resolve_stmt_model(
            r,
            StmtModel::Return(keyword, Some(value)),
        ) == Err::<(ResolverModel, StmtModel), ErrorModel>(return_from_initializer(keyword)),
        r.function_type != FunctionType::Outside ==> resolve_stmt_model(
            r,
            StmtModel::Return(keyword, None),
        ) == Ok::<(ResolverModel, StmtModel), ErrorModel>((r, StmtModel::Return(keyword, None))),
        r.function_type == FunctionType::Outside ==> resolve_stmt_model(
            r,
            StmtModel::Return(keyword, Some(value)),
        ) == Err::<(ResolverModel, StmtModel), ErrorModel>(return_outside_function(keyword))
            && resolve_stmt_model(r, StmtModel::Return(keyword, None)) == Err::<
            (ResolverModel, StmtModel),
            ErrorModel,
        >(return_outside_function(keyword)),
        method_kind("init"@) == FunctionType::Initializer,
        forall|name: Seq<char>| name != "init"@ ==> method_kind(name) == FunctionType::Method,
{
}


/// Whether every name in every scope is ready for use, as it is between
/// two statements.
pub open spec fn all_ready(scopes: Scopes) -> bool {
    forall|j: int, name: Seq<char>|
        0 <= j < scopes.len() && (#[trigger] scopes[j].contains_key(name)) ==> scopes[j][name]
}

/// What a statement leaves of the state it was resolved in: the kinds of
/// the enclosing function and class, the number of scopes, and every scope
/// but the innermost, which can only gain names that are ready.
pub open spec fn balanced(before: ResolverModel, after: ResolverModel) -> bool {
    &&& after.function_type == before.function_type
    &&& after.class_type == before.class_type
    &&& after.scopes.len() == before.scopes.len()
    &&& after.scopes.len() > 0 ==> after.scopes.drop_last() == before.scopes.drop_last()
    &&& all_ready(before.scopes) ==> all_ready(after.scopes)
}

proof fn lemma_mark_ready(scopes: Scopes, name: Seq<char>)
    requires
        all_ready(scopes),
    ensures
        all_ready(mark(scopes, name, true)),
        scopes.len() > 0 ==> mark(scopes, name, true).drop_last() == scopes.drop_last(),
        mark(scopes, name, true).len() == scopes.len(),
{
    if scopes.len() > 0 {
        assert(mark(scopes, name, true).drop_last() =~= scopes.drop_last());
        let after = mark(scopes, name, true);
        assert forall|j: int, n: Seq<char>|
            0 <= j < after.len() && (#[trigger] after[j].contains_key(n)) implies after[j][n] by {
            if j < scopes.len() - 1 {
                assert(after[j] == scopes[j]);
                assert(scopes[j].contains_key(n));
            } else if n != name {
                assert(scopes[j].contains_key(n));
            }
        }
    }
}

proof fn lemma_declare_define(r: ResolverModel, name: TokenModel)
    requires
        all_ready(r.scopes),
    ensures
        declare_model(r, name) matches Ok(r1) ==> balanced(r, define_model(r1, name))
            && r1.scopes.len() == r.scopes.len() && r1.function_type == r.function_type
            && r1.class_type == r.class_type,
{
    match declare_model(r, name) {
        Ok(r1) => {
            let r2 = define_model(r1, name);
            if r.scopes.len() > 0 {
                assert(r2.scopes.last() =~= mark(r.scopes, name.lexeme, true).last());
                assert(r2.scopes =~= mark(r.scopes, name.lexeme, true));
                lemma_mark_ready(r.scopes, name.lexeme);
            } else {
                assert(r2.scopes =~= r.scopes);
            }
        },
        Err(_) => {},
    }
}

/// The parameters of a function are all ready for use in its body.
pub proof fn the_parameters_are_ready(r: ResolverModel, params: Seq<TokenModel>)
    requires
        all_ready(r.scopes),
    ensures
        declare_params_model(r, params) matches Ok(r1) ==> balanced(r, r1),
{
    lemma_params_ready(r, params);
}

/// A function that resolves leaves the resolver in the state it found it
/// in, and so do the methods of a class.
pub proof fn a_function_leaves_the_state(
    r: ResolverModel,
    f: StmtModel,
    kind: FunctionType,
    class: TokenModel,
    methods: Seq<StmtModel>,
)
    requires
        all_ready(r.scopes),
    ensures
        resolve_function_model(r, f, kind) matches Ok((r1, _)) ==> r1 == r,
        resolve_methods_model(r, class, methods) matches Ok((r1, _)) ==> r1 == r,
{
    lemma_function_balanced(r, f, kind);
    lemma_methods_balanced(r, class, methods);
}

/// Declaring and defining a name leaves the state balanced and every name
/// ready; between the two only that name is not ready.
pub proof fn a_declaration_is_balanced(r: ResolverModel, name: TokenModel)
    requires
        all_ready(r.scopes),
    ensures
        declare_model(r, name) matches Ok(r1) ==> balanced(r, define_model(r1, name))
            && r1.scopes.len() == r.scopes.len() && r1.function_type == r.function_type
            && r1.class_type == r.class_type,
{
    lemma_declare_define(r, name);
}

proof fn lemma_params_ready(r: ResolverModel, params: Seq<TokenModel>)
    requires
        all_ready(r.scopes),
    ensures
        declare_params_model(r, params) matches Ok(r1) ==> balanced(r, r1),
    decreases params.len(),
{
    if params.len() > 0 {
        lemma_params_ready(r, params.drop_last());
        match declare_params_model(r, params.drop_last()) {
            Ok(r1) => {
                lemma_declare_define(r1, params.last());
            },
            Err(_) => {},
        }
    }
}

proof fn lemma_begin_ready(scopes: Scopes)
    requires
        all_ready(scopes),
    ensures
        all_ready(scopes.push(Map::empty())),
        scopes.push(Map::empty()).drop_last() == scopes,
{
    assert(scopes.push(Map::empty()).drop_last() =~= scopes);
    let after = scopes.push(Map::empty());
    assert forall|j: int, n: Seq<char>|
        0 <= j < after.len() && (#[trigger] after[j].contains_key(n)) implies after[j][n] by {
        if j < scopes.len() {
            assert(after[j] == scopes[j]);
            assert(scopes[j].contains_key(n));
        }
    }
}

proof fn lemma_drop_ready(scopes: Scopes)
    requires
        all_ready(scopes),
        scopes.len() > 0,
    ensures
        all_ready(scopes.drop_last()),
{
    let after = scopes.drop_last();
    assert forall|j: int, n: Seq<char>|
        0 <= j < after.len() && (#[trigger] after[j].contains_key(n)) implies after[j][n] by {
        assert(after[j] == scopes[j]);
        assert(scopes[j].contains_key(n));
    }
}

/// The resolver closes every scope it opens and restores the kinds of the
/// enclosing function and class: a statement that resolves leaves the
/// state balanced with the state it was resolved in.
pub proof fn a_statement_leaves_the_scopes_balanced(r: ResolverModel, s: StmtModel)
    requires
        all_ready(r.scopes),
    ensures
        resolve_stmt_model(r, s) matches Ok((r1, _)) ==> balanced(r, r1),
    decreases s, 1nat,
{
    match s {
        StmtModel::Block(stmts) => {
            lemma_begin_ready(r.scopes);
            lemma_stmts_balanced(begin_scope_model(r), stmts);
            match resolve_stmts_model(begin_scope_model(r), stmts) {
                Ok((r1, _)) => {
                    lemma_drop_ready(r1.scopes);
                },
                Err(_) => {},
            }
        },
        StmtModel::Class(_, _, _) => {
            lemma_class_balanced(r, s);
        },
        StmtModel::Func(name, _, _) => {
            lemma_declare_define(r, name);
            match declare_model(r, name) {
                Ok(r1) => {
                    lemma_function_balanced(define_model(r1, name), s, FunctionType::Function);
                },
                Err(_) => {},
            }
        },
        StmtModel::If(_, then_branch, else_branch) => {
            a_statement_leaves_the_scopes_balanced(r, *then_branch);
            match (resolve_stmt_model(r, *then_branch), else_branch) {
                (Ok((r1, _)), Some(e)) => {
                    a_statement_leaves_the_scopes_balanced(r1, *e);
                },
                _ => {},
            }
        },
        StmtModel::Var(name, _) => {
            lemma_declare_define(r, name);
        },
        StmtModel::While(_, body) => {
            a_statement_leaves_the_scopes_balanced(r, *body);
        },
        _ => {},
    }
}

/// The same of a list of statements.
pub proof fn a_list_leaves_the_scopes_balanced(r: ResolverModel, stmts: Seq<StmtModel>)
    requires
        all_ready(r.scopes),
    ensures
        resolve_stmts_model(r, stmts) matches Ok((r1, _)) ==> balanced(r, r1),
{
    lemma_stmts_balanced(r, stmts);
}

proof fn lemma_stmts_balanced(r: ResolverModel, stmts: Seq<StmtModel>)
    requires
        all_ready(r.scopes),
    ensures
        resolve_stmts_model(r, stmts) matches Ok((r1, _)) ==> balanced(r, r1),
    decreases stmts, 0nat,
{
    if stmts.len() > 0 {
        lemma_stmts_balanced(r, stmts.drop_last());
        match resolve_stmts_model(r, stmts.drop_last()) {
            Ok((r1, _)) => {
                a_statement_leaves_the_scopes_balanced(r1, stmts.last());
            },
            Err(_) => {},
        }
    }
}

proof fn lemma_function_balanced(r: ResolverModel, f: StmtModel, kind: FunctionType)
    requires
        all_ready(r.scopes),
    ensures
        resolve_function_model(r, f, kind) matches Ok((r1, _)) ==> r1 == r,
    decreases f, 0nat,
{
    match f {
        StmtModel::Func(_, params, body) => {
            let r0 = with_function_type(begin_scope_model(r), kind);
            lemma_begin_ready(r.scopes);
            lemma_params_ready(r0, params);
            match declare_params_model(r0, params) {
                Ok(r1) => {
                    lemma_stmts_balanced(r1, body);
                    match resolve_stmts_model(r1, body) {
                        Ok((r2, _)) => {
                            assert(r2.scopes.drop_last() == r.scopes);
                        },
                        Err(_) => {},
                    }
                },
                Err(_) => {},
            }
        },
        _ => {},
    }
}

proof fn lemma_methods_balanced(r: ResolverModel, class: TokenModel, methods: Seq<StmtModel>)
    requires
        all_ready(r.scopes),
    ensures
        resolve_methods_model(r, class, methods) matches Ok((r1, _)) ==> r1 == r,
    decreases methods, 1nat,
{
    if methods.len() > 0 {
        lemma_methods_balanced(r, class, methods.drop_last());
        match (resolve_methods_model(r, class, methods.drop_last()), methods.last()) {
            (Ok((r1, _)), StmtModel::Func(name, _, _)) => {
                lemma_function_balanced(r1, methods.last(), method_kind(name.lexeme));
            },
            _ => {},
        }
    }
}

proof fn lemma_class_balanced(r: ResolverModel, s: StmtModel)
    requires
        all_ready(r.scopes),
        s is Class,
    ensures
        resolve_stmt_model(r, s) matches Ok((r1, _)) ==> balanced(r, r1),
    decreases s, 0nat,
{
    match s {
        StmtModel::Class(name, superclass, methods) => {
            let r0 = with_class_type(r, ClassType::Class);
            lemma_declare_define(r0, name);
            match declare_model(r0, name) {
                Ok(r1) => {
                    let r2 = define_model(r1, name);
                    match superclass {
                        Some(_) => {
                            let r3 = with_class_type(r2, ClassType::Subclass);
                            lemma_begin_ready(r3.scopes);
                            let with_super = mark(begin_scope_model(r3).scopes, "super"@, true);
                            lemma_mark_ready(begin_scope_model(r3).scopes, "super"@);
                            lemma_begin_ready(with_super);
                            lemma_mark_ready(with_super.push(Map::empty()), "this"@);
                            let r4 = with_scopes(
                                r3,
                                mark(with_super.push(Map::empty()), "this"@, true),
                            );
                            lemma_methods_balanced(r4, name, methods);
                            assert(r4.scopes.drop_last() == with_super);
                            assert(with_super.drop_last() == r3.scopes);
                        },
                        None => {
                            lemma_begin_ready(r2.scopes);
                            lemma_mark_ready(begin_scope_model(r2).scopes, "this"@);
                            let r4 = with_scopes(
                                r2,
                                mark(begin_scope_model(r2).scopes, "this"@, true),
                            );
                            lemma_methods_balanced(r4, name, methods);
                            assert(r4.scopes.drop_last() == r2.scopes);
                        },
                    }
                },
                Err(_) => {},
            }
        },
        _ => {},
    }
}

/// A program that resolves leaves the resolver as it found it but for the
/// names it declared: at global level, exactly as it found it.
pub proof fn a_program_leaves_the_resolver_at_global_level(stmts: Seq<StmtModel>)
    ensures
        resolve_stmts_model(fresh_resolver(), stmts) matches Ok((r1, _)) ==> r1
            == fresh_resolver(),
{
    lemma_stmts_balanced(fresh_resolver(), stmts);
    match resolve_stmts_model(fresh_resolver(), stmts) {
        Ok((r1, _)) => {
            assert(r1.scopes =~= fresh_resolver().scopes);
        },
        Err(_) => {},
    }
}

} // verus!
