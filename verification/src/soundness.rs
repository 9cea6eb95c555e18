//! Depth correctness over whole runs. A state of the machine is well
//! scoped when every piece of the program that it still has to run was
//! resolved in scopes that the environment it will run in has a frame for.
//! Every transition keeps a well-scoped state well scoped, a resolved
//! program is loaded into a well-scoped state, and in a well-scoped state a
//! variable with a slot is read from the frame of the scope that the
//! resolver found it in.
use crate::env::{EnvModel, ancestor, bind_in, get_at_model};
use crate::error::ErrorModel;
use crate::expr::ExprModel;
use crate::growth::grows;
use crate::heap::{HeapModel, bind_model, with_env, with_envs, with_instance};
use crate::lox_class::{ClassModel, find_method_model};
use crate::lox_function::FunctionModel;
use crate::lox_instance::{fresh_instance, property_model};
use crate::lox_value::ValueModel;
use crate::machine::{
    ActionModel, ControlModel, Event, FrameModel, MachineModel, all_functions, bind_params,
    call_class_model, call_function_model, call_value_model, class_arity, continue_model,
    declare_class_model, define_in, eval_model, exec_model, fail, finish_call_model, goto, in_env,
    initial, initializer, loaded, lookup_variable_model, method_functions, method_table, popped,
    proceed, pushed, resume_model, run_model, step_model, super_frame, super_model, unwind_model,
    with_class, with_heap, with_methods,
};
use crate::resolver::{
    ClassType, FunctionType, ResolverModel, all_ready, begin_scope_model, declare_model,
    declare_params_model, define_model, end_scope_model, fresh_resolver, mark, method_kind,
    resolve_expr_model, resolve_exprs_model, resolve_function_model, resolve_methods_model,
    resolve_stmt_model, resolve_stmts_model, slot_model, with_class_type, with_function_type,
    with_scopes,
};
use crate::scoping::{covers, extends, lemma_covers_extends, settled};
use crate::stmt::StmtModel;
use crate::token::TokenModel;
use vstd::prelude::*;

verus! {

/// Whether a statement declares a name in the scope it stands in.
pub open spec fn declares(s: StmtModel) -> bool {
    s is Var || s is Func || s is Class
}

/// Whether a statement has the shape that the parser gives: the branches
/// of an `if` and the body of a loop declare nothing in the scope of the
/// statement itself, and the superclass of a class is a variable of another
/// name than the class.
pub open spec fn shaped(s: StmtModel) -> bool
    decreases s,
{
    match s {
        StmtModel::Block(stmts) => shaped_all(stmts),
        StmtModel::Class(name, superclass, methods) => shaped_all(methods) && (match superclass {
            Some(ExprModel::Variable(parent, _)) => parent.lexeme != name.lexeme,
            Some(_) => false,
            None => true,
        }),
        StmtModel::Func(_, _, body) => shaped_all(body),
        StmtModel::If(_, then_branch, else_branch) => !declares(*then_branch) && shaped(
            *then_branch,
        ) && (match else_branch {
            Some(e) => !declares(*e) && shaped(*e),
            None => true,
        }),
        StmtModel::While(_, body) => !declares(*body) && shaped(*body),
        _ => true,
    }
}

/// Whether every statement of a list has the parser's shape; the list is
/// no longer than a machine word can count.
pub open spec fn shaped_all(stmts: Seq<StmtModel>) -> bool
    decreases stmts,
{
    &&& stmts.len() <= usize::MAX
    &&& forall|i: int| 0 <= i < stmts.len() ==> shaped(#[trigger] stmts[i])
}

/// Whether the resolver, in state `r`, leaves every slot of the expression
/// as it is: the expression is resolved for the scopes of `r`.
pub open spec fn ok_expr(r: ResolverModel, e: ExprModel) -> bool {
    resolve_expr_model(r, e) == Ok::<ExprModel, ErrorModel>(e)
}

pub open spec fn ok_exprs(r: ResolverModel, es: Seq<ExprModel>) -> bool {
    forall|i: int| 0 <= i < es.len() ==> ok_expr(r, #[trigger] es[i])
}

/// Whether the statement is resolved for the scopes of `r`.
pub open spec fn ok_stmt(r: ResolverModel, s: StmtModel) -> bool {
    match resolve_stmt_model(r, s) {
        Ok((_, s1)) => s1 == s,
        Err(_) => false,
    }
}

/// The resolver's state after the statement.
pub open spec fn after_stmt(r: ResolverModel, s: StmtModel) -> ResolverModel {
    match resolve_stmt_model(r, s) {
        Ok((r1, _)) => r1,
        Err(_) => r,
    }
}

/// Whether the statements from `next` on are resolved, one after the other,
/// starting in state `r`.
pub open spec fn ok_rest(r: ResolverModel, stmts: Seq<StmtModel>, next: nat) -> bool
    decreases stmts.len() - next,
{
    if next >= stmts.len() {
        true
    } else {
        ok_stmt(r, stmts[next as int]) && ok_rest(
            after_stmt(r, stmts[next as int]),
            stmts,
            next + 1,
        )
    }
}

/// A branch or a loop body: resolved, and of the parser's shape.
pub open spec fn branch_ok(r: ResolverModel, s: StmtModel) -> bool {
    ok_stmt(r, s) && !declares(s) && shaped(s)
}

/// What the frame on top of the stack is handed next: the value of an
/// expression that was resolved in the given state, or the end of a
/// statement after which the resolver was in the given state.
pub enum Expect {
    Value(ResolverModel),
    Done(ResolverModel),
}

pub open spec fn state_of(ex: Expect) -> ResolverModel {
    match ex {
        Expect::Value(r) => r,
        Expect::Done(r) => r,
    }
}

pub open spec fn good(ex: Expect) -> bool {
    match ex {
        Expect::Value(r) => settled(r.scopes),
        Expect::Done(r) => all_ready(r.scopes),
    }
}

/// The scopes in which the methods of a class are resolved: those of the
/// class body, with the scope of `this` on top.
pub open spec fn this_scopes(r: ResolverModel) -> ResolverModel {
    with_scopes(r, mark(r.scopes.push(Map::empty()), "this"@, true))
}

/// The state in which the body of a function is resolved: a new scope that
/// holds the parameters.
pub open spec fn body_state(r: ResolverModel, kind: FunctionType, f: FunctionModel) -> Result<
    ResolverModel,
    ErrorModel,
> {
    declare_params_model(with_function_type(begin_scope_model(r), kind), f.params)
}

/// Whether the state `r` describes the closure of the function `f`: the
/// closure has a frame for every scope of `r`, and the body of `f` was
/// resolved in those scopes under the scope of the parameters.
pub open spec fn function_at(
    envs: Seq<EnvModel>,
    f: FunctionModel,
    r: ResolverModel,
    kind: FunctionType,
) -> bool {
    &&& all_ready(r.scopes)
    &&& f.closure < envs.len()
    &&& covers(envs, f.closure, r.scopes)
    &&& shaped_all(f.body)
    &&& match body_state(r, kind, f) {
        Ok(body) => ok_rest(body, f.body, 0),
        Err(_) => false,
    }
}

pub open spec fn function_ok(envs: Seq<EnvModel>, f: FunctionModel) -> bool {
    exists|r: ResolverModel, kind: FunctionType| function_at(envs, f, r, kind)
}

/// The same of a method that is not bound: its body was resolved with the
/// scope of `this` between the scopes of its closure and its parameters.
pub open spec fn method_at(
    envs: Seq<EnvModel>,
    f: FunctionModel,
    r: ResolverModel,
    kind: FunctionType,
) -> bool {
    &&& all_ready(r.scopes)
    &&& f.closure < envs.len()
    &&& covers(envs, f.closure, r.scopes)
    &&& shaped_all(f.body)
    &&& match body_state(this_scopes(r), kind, f) {
        Ok(body) => ok_rest(body, f.body, 0),
        Err(_) => false,
    }
}

pub open spec fn method_ok(envs: Seq<EnvModel>, f: FunctionModel) -> bool {
    exists|r: ResolverModel, kind: FunctionType| method_at(envs, f, r, kind)
}

/// Whether every function and every method of the heap is described by
/// some state of the resolver.
pub open spec fn typed_heap(heap: HeapModel) -> bool {
    &&& forall|i: int|
        0 <= i < heap.functions.len() ==> function_ok(heap.envs, #[trigger] heap.functions[i])
    &&& forall|i: int|
        0 <= i < heap.methods.len() ==> method_ok(heap.envs, #[trigger] heap.methods[i])
}

/// Whether the stack can take what `ex` describes while `env` is the
/// current environment: every frame holds what was resolved in the state
/// in which it will be resumed, and every environment that a frame goes
/// back to has a frame for every scope of that state. `callers` holds, for
/// each call on the stack, the state in which the caller goes on.
pub open spec fn typed_stack(
    envs: Seq<EnvModel>,
    stack: Seq<FrameModel>,
    env: usize,
    ex: Expect,
    callers: Seq<ResolverModel>,
) -> bool
    decreases stack.len(), 1nat,
{
    if stack.len() == 0 {
        true
    } else {
        let rest = stack.drop_last();
        let r = state_of(ex);
        match stack.last() {
            FrameModel::Assign(name, slot) => ex is Value && slot_model(r.scopes, name) == Ok::<
                i32,
                ErrorModel,
            >(slot) && typed_stack(envs, rest, env, ex, callers),
            FrameModel::Unary(_) => ex is Value && typed_stack(envs, rest, env, ex, callers),
            FrameModel::BinaryLeft(_, right) => ex is Value && ok_expr(r, right) && typed_stack(
                envs,
                rest,
                env,
                ex, callers,
            ),
            FrameModel::BinaryRight(_, _) => ex is Value && typed_stack(envs, rest, env, ex, callers),
            FrameModel::Logical(_, right) => ex is Value && ok_expr(r, right) && typed_stack(
                envs,
                rest,
                env,
                ex, callers,
            ),
            FrameModel::Callee(_, args) => ex is Value && ok_exprs(r, args) && typed_stack(
                envs,
                rest,
                env,
                ex, callers,
            ),
            FrameModel::Args(_, args, _, _) => ex is Value && ok_exprs(r, args) && typed_stack(
                envs,
                rest,
                env,
                ex, callers,
            ),
            FrameModel::Get(_) => ex is Value && typed_stack(envs, rest, env, ex, callers),
            FrameModel::SetObject(_, value) => ex is Value && ok_expr(r, value) && typed_stack(
                envs,
                rest,
                env,
                ex, callers,
            ),
            FrameModel::SetValue(_, _) => ex is Value && typed_stack(envs, rest, env, ex, callers),
            FrameModel::Construct(_) => ex is Value && typed_stack(envs, rest, env, ex, callers),
            FrameModel::Discard => ex is Value && all_ready(r.scopes) && typed_stack(
                envs,
                rest,
                env,
                Expect::Done(r), callers,
            ),
            FrameModel::Print => ex is Value && all_ready(r.scopes) && typed_stack(
                envs,
                rest,
                env,
                Expect::Done(r), callers,
            ),
            FrameModel::Var(name) => ex is Value && all_ready(define_model(r, name).scopes)
                && typed_stack(envs, rest, env, Expect::Done(define_model(r, name)), callers),
            FrameModel::Return => ex is Value && typed_unwind(envs, rest, callers),
            FrameModel::If(then_branch, else_branch) => ex is Value && all_ready(r.scopes)
                && branch_ok(r, then_branch) && (match else_branch {
                Some(e) => branch_ok(r, e),
                None => true,
            }) && typed_stack(envs, rest, env, Expect::Done(r), callers),
            FrameModel::WhileCond(cond, body) => ex is Value && all_ready(r.scopes) && ok_expr(
                r,
                cond,
            ) && branch_ok(r, body) && typed_stack(envs, rest, env, Expect::Done(r), callers),
            FrameModel::WhileBody(cond, body) => ex is Done && ok_expr(r, cond) && branch_ok(
                r,
                body,
            ) && typed_stack(envs, rest, env, ex, callers),
            FrameModel::Superclass(name, methods) => ex is Value && class_ready(r, name, methods) && typed_stack(envs, rest, env, Expect::Done(class_after(r, name)), callers),
            FrameModel::Block(stmts, next, saved) => ex is Done && r.scopes.len() > 0 && ok_rest(
                r,
                stmts,
                next as nat,
            ) && shaped_all(stmts) && saved < envs.len() && covers(
                envs,
                saved,
                r.scopes.drop_last(),
            ) && typed_stack(
                envs,
                rest,
                saved,
                Expect::Done(end_scope_model(r)), callers,
            ),
            FrameModel::Program(stmts, next) => ex is Done && r.scopes.len() == 0 && ok_rest(
                r,
                stmts,
                next as nat,
            ) && shaped_all(stmts) && typed_stack(envs, rest, env, ex, callers),
            FrameModel::Call(stmts, next, saved, _, _) => ex is Done && ok_rest(
                r,
                stmts,
                next as nat,
            ) && shaped_all(stmts) && callers.len() > 0 && saved < envs.len() && settled(
                callers.last().scopes,
            ) && covers(envs, saved, callers.last().scopes) && typed_stack(
                envs,
                rest,
                saved,
                Expect::Value(callers.last()),
                callers.drop_last(),
            ),
        }
    }
}

/// Whether the stack can take a `return` that unwinds to the nearest frame
/// of a call.
pub open spec fn typed_unwind(
    envs: Seq<EnvModel>,
    stack: Seq<FrameModel>,
    callers: Seq<ResolverModel>,
) -> bool
    decreases stack.len(), 0nat,
{
    if stack.len() == 0 {
        true
    } else {
        let rest = stack.drop_last();
        match stack.last() {
            FrameModel::Call(_, _, saved, _, _) => callers.len() > 0 && saved < envs.len()
                && settled(callers.last().scopes) && covers(
                envs,
                saved,
                callers.last().scopes,
            ) && typed_stack(
                envs,
                rest,
                saved,
                Expect::Value(callers.last()),
                callers.drop_last(),
            ),
            _ => typed_unwind(envs, rest, callers),
        }
    }
}

/// The state in which the superclass of the class `name` is resolved, seen
/// from the state `r` before the class: the name is declared and defined,
/// and the class is a subclass.
pub open spec fn subclass_state(r: ResolverModel, name: TokenModel) -> ResolverModel {
    match declare_model(with_class_type(r, ClassType::Class), name) {
        Ok(r1) => with_class_type(define_model(r1, name), ClassType::Subclass),
        Err(_) => r,
    }
}

/// The state in which the methods of a subclass are resolved: the scopes
/// of `super` and of `this` on top of those of the class.
pub open spec fn method_state(r: ResolverModel) -> ResolverModel {
    with_scopes(
        r,
        mark(
            mark(begin_scope_model(r).scopes, "super"@, true).push(Map::empty()),
            "this"@,
            true,
        ),
    )
}

/// Whether the subclass `name` with these methods is resolved in the state
/// `r` before the class.
pub open spec fn class_ready(r: ResolverModel, name: TokenModel, methods: Seq<StmtModel>) -> bool {
    &&& all_ready(r.scopes)
    &&& declare_model(with_class_type(r, ClassType::Class), name) is Ok
    &&& shaped_all(methods)
    &&& match resolve_methods_model(method_state(subclass_state(r, name)), name, methods) {
        Ok((_, out)) => out == methods,
        Err(_) => false,
    }
}

/// The state after the declaration of the subclass.
pub open spec fn class_after(r: ResolverModel, name: TokenModel) -> ResolverModel {
    with_class_type(subclass_state(r, name), r.class_type)
}

/// Frames that are added and bindings that are written leave the typing of
/// a stack in place.
pub proof fn lemma_typed_stack_grows(
    envs: Seq<EnvModel>,
    after: Seq<EnvModel>,
    stack: Seq<FrameModel>,
    env: usize,
    ex: Expect,
    callers: Seq<ResolverModel>,
)
    requires
        typed_stack(envs, stack, env, ex, callers),
        extends(envs, after),
    ensures
        typed_stack(after, stack, env, ex, callers),
    decreases stack.len(), 1nat,
{
    if stack.len() > 0 {
        let rest = stack.drop_last();
        let r = state_of(ex);
        match stack.last() {
            FrameModel::Discard => {
                lemma_typed_stack_grows(envs, after, rest, env, Expect::Done(r), callers);
            },
            FrameModel::Print => {
                lemma_typed_stack_grows(envs, after, rest, env, Expect::Done(r), callers);
            },
            FrameModel::Var(name) => {
                lemma_typed_stack_grows(
                    envs,
                    after,
                    rest,
                    env,
                    Expect::Done(define_model(r, name)),
                    callers,
                );
            },
            FrameModel::Return => {
                lemma_typed_unwind_grows(envs, after, rest, callers);
            },
            FrameModel::If(_, _) => {
                lemma_typed_stack_grows(envs, after, rest, env, Expect::Done(r), callers);
            },
            FrameModel::WhileCond(_, _) => {
                lemma_typed_stack_grows(envs, after, rest, env, Expect::Done(r), callers);
            },
            FrameModel::Superclass(name, _) => {
                lemma_typed_stack_grows(
                    envs,
                    after,
                    rest,
                    env,
                    Expect::Done(class_after(r, name)),
                    callers,
                );
            },
            FrameModel::Block(_, _, saved) => {
                lemma_covers_extends(envs, after, saved, r.scopes.drop_last());
                lemma_typed_stack_grows(
                    envs,
                    after,
                    rest,
                    saved,
                    Expect::Done(end_scope_model(r)),
                    callers,
                );
            },
            FrameModel::Call(_, _, saved, _, _) => {
                lemma_covers_extends(envs, after, saved, callers.last().scopes);
                lemma_typed_stack_grows(
                    envs,
                    after,
                    rest,
                    saved,
                    Expect::Value(callers.last()),
                    callers.drop_last(),
                );
            },
            _ => {
                lemma_typed_stack_grows(envs, after, rest, env, ex, callers);
            },
        }
    }
}

pub proof fn lemma_typed_unwind_grows(
    envs: Seq<EnvModel>,
    after: Seq<EnvModel>,
    stack: Seq<FrameModel>,
    callers: Seq<ResolverModel>,
)
    requires
        typed_unwind(envs, stack, callers),
        extends(envs, after),
    ensures
        typed_unwind(after, stack, callers),
    decreases stack.len(), 0nat,
{
    if stack.len() > 0 {
        let rest = stack.drop_last();
        match stack.last() {
            FrameModel::Call(_, _, saved, _, _) => {
                lemma_covers_extends(envs, after, saved, callers.last().scopes);
                lemma_typed_stack_grows(
                    envs,
                    after,
                    rest,
                    saved,
                    Expect::Value(callers.last()),
                    callers.drop_last(),
                );
            },
            _ => {
                lemma_typed_unwind_grows(envs, after, rest, callers);
            },
        }
    }
}

/// A stack that can take a value or the end of a statement can take a
/// `return`.
pub proof fn lemma_unwind(
    envs: Seq<EnvModel>,
    stack: Seq<FrameModel>,
    env: usize,
    ex: Expect,
    callers: Seq<ResolverModel>,
)
    requires
        typed_stack(envs, stack, env, ex, callers),
    ensures
        typed_unwind(envs, stack, callers),
    decreases stack.len(),
{
    if stack.len() > 0 {
        let rest = stack.drop_last();
        let r = state_of(ex);
        match stack.last() {
            FrameModel::Discard => {
                lemma_unwind(envs, rest, env, Expect::Done(r), callers);
            },
            FrameModel::Print => {
                lemma_unwind(envs, rest, env, Expect::Done(r), callers);
            },
            FrameModel::Var(name) => {
                lemma_unwind(envs, rest, env, Expect::Done(define_model(r, name)), callers);
            },
            FrameModel::Return => {},
            FrameModel::If(_, _) => {
                lemma_unwind(envs, rest, env, Expect::Done(r), callers);
            },
            FrameModel::WhileCond(_, _) => {
                lemma_unwind(envs, rest, env, Expect::Done(r), callers);
            },
            FrameModel::Superclass(name, _) => {
                lemma_unwind(envs, rest, env, Expect::Done(class_after(r, name)), callers);
            },
            FrameModel::Block(_, _, saved) => {
                lemma_unwind(envs, rest, saved, Expect::Done(end_scope_model(r)), callers);
            },
            FrameModel::Call(_, _, _, _, _) => {},
            _ => {
                lemma_unwind(envs, rest, env, ex, callers);
            },
        }
    }
}

pub proof fn lemma_function_grows(envs: Seq<EnvModel>, after: Seq<EnvModel>, f: FunctionModel)
    requires
        function_ok(envs, f),
        extends(envs, after),
    ensures
        function_ok(after, f),
{
    let (r, kind) = choose|r: ResolverModel, kind: FunctionType| function_at(envs, f, r, kind);
    lemma_covers_extends(envs, after, f.closure, r.scopes);
    assert(function_at(after, f, r, kind));
}

pub proof fn lemma_method_grows(envs: Seq<EnvModel>, after: Seq<EnvModel>, f: FunctionModel)
    requires
        method_ok(envs, f),
        extends(envs, after),
    ensures
        method_ok(after, f),
{
    let (r, kind) = choose|r: ResolverModel, kind: FunctionType| method_at(envs, f, r, kind);
    lemma_covers_extends(envs, after, f.closure, r.scopes);
    assert(method_at(after, f, r, kind));
}

/// A heap that grows stays typed if what was added is typed.
pub proof fn lemma_typed_heap_grows(heap: HeapModel, after: HeapModel)
    requires
        typed_heap(heap),
        grows(heap, after),
        forall|i: int|
            heap.functions.len() <= i < after.functions.len() ==> function_ok(
                after.envs,
                #[trigger] after.functions[i],
            ),
        forall|i: int|
            heap.methods.len() <= i < after.methods.len() ==> method_ok(
                after.envs,
                #[trigger] after.methods[i],
            ),
    ensures
        typed_heap(after),
{
    assert forall|i: int| 0 <= i < after.functions.len() implies function_ok(
        after.envs,
        #[trigger] after.functions[i],
    ) by {
        if i < heap.functions.len() {
            assert(after.functions[i] == heap.functions[i]);
            lemma_function_grows(heap.envs, after.envs, heap.functions[i]);
        }
    }
    assert forall|i: int| 0 <= i < after.methods.len() implies method_ok(
        after.envs,
        #[trigger] after.methods[i],
    ) by {
        if i < heap.methods.len() {
            assert(after.methods[i] == heap.methods[i]);
            lemma_method_grows(heap.envs, after.envs, heap.methods[i]);
        }
    }
}

/// A list of statements that the resolver leaves as it is, is resolved
/// statement by statement: each prefix is left as it is.
proof fn lemma_prefix(r: ResolverModel, stmts: Seq<StmtModel>, k: int)
    requires
        0 <= k <= stmts.len(),
        resolve_stmts_model(r, stmts) matches Ok((_, out)) && out == stmts,
    ensures
        resolve_stmts_model(r, stmts.take(k)) matches Ok((_, out)) && out == stmts.take(k),
    decreases stmts.len() - k,
{
    if k == stmts.len() {
        assert(stmts.take(k) =~= stmts);
    } else {
        lemma_prefix(r, stmts, k + 1);
        let longer = stmts.take(k + 1);
        assert(longer.drop_last() =~= stmts.take(k));
        match resolve_stmts_model(r, longer.drop_last()) {
            Ok((r1, done)) => {
                match resolve_stmt_model(r1, longer.last()) {
                    Ok((_, s)) => {
                        assert(done.push(s) == longer);
                        assert(done =~= done.push(s).drop_last());
                    },
                    Err(_) => {},
                }
            },
            Err(_) => {},
        }
    }
}

/// The state of the resolver after the first `k` statements of a list.
pub open spec fn state_after(r: ResolverModel, stmts: Seq<StmtModel>, k: int) -> ResolverModel {
    match resolve_stmts_model(r, stmts.take(k)) {
        Ok((r1, _)) => r1,
        Err(_) => r,
    }
}

proof fn lemma_rest(r: ResolverModel, stmts: Seq<StmtModel>, k: int)
    requires
        0 <= k <= stmts.len(),
        resolve_stmts_model(r, stmts) matches Ok((_, out)) && out == stmts,
    ensures
        ok_rest(state_after(r, stmts, k), stmts, k as nat),
    decreases stmts.len() - k,
{
    if k < stmts.len() {
        lemma_prefix(r, stmts, k);
        lemma_prefix(r, stmts, k + 1);
        let longer = stmts.take(k + 1);
        assert(longer.drop_last() =~= stmts.take(k));
        assert(longer.last() == stmts[k]);
        match resolve_stmts_model(r, stmts.take(k)) {
            Ok((r1, done)) => {
                match resolve_stmt_model(r1, stmts[k]) {
                    Ok((r2, s)) => {
                        assert(done.push(s) == longer);
                        assert(s == done.push(s).last());
                        assert(state_after(r, stmts, k + 1) == r2);
                    },
                    Err(_) => {},
                }
            },
            Err(_) => {},
        }
        lemma_rest(r, stmts, k + 1);
    }
}

/// A list of statements that the resolver leaves as it is, is resolved
/// from its first statement on.
pub proof fn lemma_resolved_list(r: ResolverModel, stmts: Seq<StmtModel>)
    requires
        resolve_stmts_model(r, stmts) matches Ok((_, out)) && out == stmts,
    ensures
        ok_rest(r, stmts, 0),
{
    lemma_rest(r, stmts, 0);
    assert(stmts.take(0) =~= Seq::empty());
}

/// A list of expressions that the resolver leaves as it is, is resolved
/// expression by expression.
pub proof fn lemma_resolved_exprs_each(r: ResolverModel, es: Seq<ExprModel>)
    requires
        resolve_exprs_model(r, es) == Ok::<Seq<ExprModel>, ErrorModel>(es),
    ensures
        ok_exprs(r, es),
    decreases es.len(),
{
    if es.len() > 0 {
        match (resolve_exprs_model(r, es.drop_last()), resolve_expr_model(r, es.last())) {
            (Ok(done), Ok(e)) => {
                assert(done.push(e) == es);
                assert(done =~= done.push(e).drop_last());
                assert(e == done.push(e).last());
                lemma_resolved_exprs_each(r, es.drop_last());
                assert forall|i: int| 0 <= i < es.len() implies ok_expr(r, #[trigger] es[i]) by {
                    if i < es.len() - 1 {
                        assert(es.drop_last()[i] == es[i]);
                    }
                }
            },
            _ => {},
        }
    }
}

/// A statement that declares nothing leaves the resolver in the state it
/// found it in.
pub proof fn lemma_plain(r: ResolverModel, s: StmtModel)
    requires
        all_ready(r.scopes),
        !declares(s),
        shaped(s),
    ensures
        resolve_stmt_model(r, s) matches Ok((r1, _)) ==> r1 == r,
    decreases s,
{
    crate::resolver::a_statement_leaves_the_scopes_balanced(r, s);
    match s {
        StmtModel::Block(stmts) => {
            match resolve_stmt_model(r, s) {
                Ok((r1, _)) => {
                    assert(begin_scope_model(r).scopes.drop_last() =~= r.scopes);
                    lemma_block_state(r, stmts);
                },
                Err(_) => {},
            }
        },
        StmtModel::If(_, then_branch, else_branch) => {
            lemma_plain(r, *then_branch);
            match else_branch {
                Some(e) => {
                    lemma_plain(r, *e);
                },
                None => {},
            }
        },
        StmtModel::While(_, body) => {
            lemma_plain(r, *body);
        },
        _ => {},
    }
}

proof fn lemma_block_state(r: ResolverModel, stmts: Seq<StmtModel>)
    requires
        all_ready(r.scopes),
    ensures
        resolve_stmts_model(begin_scope_model(r), stmts) matches Ok((r1, _)) ==> end_scope_model(
            r1,
        ) == r,
{
    crate::resolver::a_list_leaves_the_scopes_balanced(begin_scope_model(r), stmts);
    assert(begin_scope_model(r).scopes.drop_last() =~= r.scopes);
    assert(all_ready(begin_scope_model(r).scopes)) by {
        let after = begin_scope_model(r).scopes;
        assert forall|j: int, n: Seq<char>|
            0 <= j < after.len() && (#[trigger] after[j].contains_key(n)) implies after[j][n] by {
            if j < r.scopes.len() {
                assert(after[j] == r.scopes[j]);
            }
        }
    }
    match resolve_stmts_model(begin_scope_model(r), stmts) {
        Ok((r1, _)) => {
            assert(end_scope_model(r1).scopes =~= r.scopes);
        },
        Err(_) => {},
    }
}


/// The machine is about to evaluate `e`, which was resolved in state `r`.
pub open spec fn at_expr(
    m: MachineModel,
    e: ExprModel,
    r: ResolverModel,
    callers: Seq<ResolverModel>,
) -> bool {
    &&& ok_expr(r, e)
    &&& settled(r.scopes)
    &&& m.env < m.heap.envs.len()
    &&& covers(m.heap.envs, m.env, r.scopes)
    &&& typed_stack(m.heap.envs, m.stack, m.env, Expect::Value(r), callers)
}

/// The machine is about to execute `s`, which was resolved in state `r`.
pub open spec fn at_stmt(
    m: MachineModel,
    s: StmtModel,
    r: ResolverModel,
    callers: Seq<ResolverModel>,
) -> bool {
    &&& ok_stmt(r, s)
    &&& shaped(s)
    &&& all_ready(r.scopes)
    &&& m.env < m.heap.envs.len()
    &&& covers(m.heap.envs, m.env, r.scopes)
    &&& typed_stack(m.heap.envs, m.stack, m.env, Expect::Done(after_stmt(r, s)), callers)
}

/// The machine is about to hand the frame on top of the stack what `ex`
/// describes.
pub open spec fn at_value(m: MachineModel, ex: Expect, callers: Seq<ResolverModel>) -> bool {
    &&& good(ex)
    &&& m.env < m.heap.envs.len()
    &&& covers(m.heap.envs, m.env, state_of(ex).scopes)
    &&& typed_stack(m.heap.envs, m.stack, m.env, ex, callers)
}

/// The machine is unwinding a `return`.
pub open spec fn at_return(m: MachineModel, callers: Seq<ResolverModel>) -> bool {
    typed_unwind(m.heap.envs, m.stack, callers)
}

/// Whether the state is well scoped: every function and method of the heap
/// closes over an environment that has a frame for every scope it was
/// resolved in, and so does what the machine is about to do and every frame
/// of its stack.
pub open spec fn scoped(m: MachineModel) -> bool {
    &&& typed_heap(m.heap)
    &&& match m.control {
        ControlModel::Idle => true,
        ControlModel::Expr(e) => exists|r: ResolverModel, callers: Seq<ResolverModel>|
            at_expr(m, e, r, callers),
        ControlModel::Stmt(s) => exists|r: ResolverModel, callers: Seq<ResolverModel>|
            at_stmt(m, s, r, callers),
        ControlModel::Value(_) => exists|ex: Expect, callers: Seq<ResolverModel>|
            at_value(m, ex, callers),
        ControlModel::Return(_) => exists|callers: Seq<ResolverModel>| at_return(m, callers),
        ControlModel::AwaitNumber => exists|r: ResolverModel, callers: Seq<ResolverModel>|
            at_value(m, Expect::Value(r), callers),
        ControlModel::AwaitTime => exists|r: ResolverModel, callers: Seq<ResolverModel>|
            at_value(m, Expect::Value(r), callers),
    }
}

/// Whether the list of environments can take two more: the indices of new
/// frames are machine words.
pub open spec fn roomy(m: MachineModel) -> bool {
    m.heap.envs.len() + 2 <= usize::MAX
}

/// A value for the frame on top of the stack, with the stack and the heap
/// as they are.
proof fn lemma_value(
    m: MachineModel,
    control: ControlModel,
    ex: Expect,
    callers: Seq<ResolverModel>,
)
    requires
        typed_heap(m.heap),
        at_value(m, ex, callers),
        control is Value || (ex is Value && (control is AwaitNumber || control is AwaitTime)),
    ensures
        scoped(goto(m, control)),
{
    let after = goto(m, control);
    assert(at_value(after, ex, callers));
    match ex {
        Expect::Value(r) => {
            assert(at_value(after, Expect::Value(r), callers));
        },
        _ => {},
    }
}

/// A frame put on the stack.
proof fn lemma_push(
    envs: Seq<EnvModel>,
    stack: Seq<FrameModel>,
    f: FrameModel,
)
    ensures
        stack.push(f).drop_last() == stack,
        stack.push(f).last() == f,
        stack.push(f).len() > 0,
{
    assert(stack.push(f).drop_last() =~= stack);
}


/// The scopes of `this` on top of scopes that are ready are ready.
proof fn lemma_this_scopes(r: ResolverModel)
    requires
        all_ready(r.scopes),
    ensures
        all_ready(this_scopes(r).scopes),
        this_scopes(r).scopes.drop_last() == r.scopes,
{
    let pushed = r.scopes.push(Map::empty());
    let after = this_scopes(r).scopes;
    assert(after.drop_last() =~= r.scopes);
    assert forall|j: int, n: Seq<char>|
        0 <= j < after.len() && (#[trigger] after[j].contains_key(n)) implies after[j][n] by {
        if j < r.scopes.len() {
            assert(after[j] == r.scopes[j]);
            assert(r.scopes[j].contains_key(n));
        }
    }
}

/// Binding a method keeps the heap typed: the bound function closes over
/// the frame of `this`, which covers the scopes that its body was resolved
/// in.
proof fn lemma_bind(heap: HeapModel, mi: usize, instance: ValueModel)
    requires
        typed_heap(heap),
        mi < heap.methods.len(),
        heap.envs.len() < usize::MAX,
    ensures
        typed_heap(bind_model(heap, mi, instance)),
        grows(heap, bind_model(heap, mi, instance)),
{
    let after = bind_model(heap, mi, instance);
    crate::growth::lemma_bind_grows(heap, mi, instance);
    let method = heap.methods[mi as int];
    assert(method_ok(heap.envs, method));
    let (r, kind) = choose|r: ResolverModel, kind: FunctionType|
        method_at(heap.envs, method, r, kind);
    let f = after.functions.last();
    lemma_this_scopes(r);
    crate::scoping::a_bound_method_has_a_frame_for_this(
        heap.envs,
        method.closure,
        r.scopes,
        instance,
    );
    assert(body_state(this_scopes(r), kind, f) == body_state(this_scopes(r), kind, method));
    assert(function_at(after.envs, f, this_scopes(r), kind));
    assert forall|i: int| heap.functions.len() <= i < after.functions.len() implies function_ok(
        after.envs,
        #[trigger] after.functions[i],
    ) by {
        assert(after.functions[i] == f);
    }
    lemma_typed_heap_grows(heap, after);
}

/// A frame is put on the stack and an expression that was resolved in the
/// same state is evaluated.
proof fn lemma_eval_under(
    m: MachineModel,
    f: FrameModel,
    e: ExprModel,
    r: ResolverModel,
    callers: Seq<ResolverModel>,
)
    requires
        typed_heap(m.heap),
        settled(r.scopes),
        m.env < m.heap.envs.len(),
        covers(m.heap.envs, m.env, r.scopes),
        ok_expr(r, e),
        typed_stack(m.heap.envs, m.stack.push(f), m.env, Expect::Value(r), callers),
    ensures
        scoped(proceed(pushed(m, f), ControlModel::Expr(e)).0),
{
    let after = proceed(pushed(m, f), ControlModel::Expr(e)).0;
    assert(at_expr(after, e, r, callers));
}

/// The start of the evaluation of an expression keeps the state well
/// scoped.
proof fn lemma_eval(m: MachineModel, e: ExprModel, r: ResolverModel, callers: Seq<ResolverModel>)
    requires
        typed_heap(m.heap),
        roomy(m),
        at_expr(m, e, r, callers),
    ensures
        scoped(eval_model(m, e).0),
{
    let envs = m.heap.envs;
    match e {
        ExprModel::Assign(name, value, slot) => {
            let f = FrameModel::Assign(name, slot);
            lemma_push(envs, m.stack, f);
            lemma_eval_under(m, f, *value, r, callers);
        },
        ExprModel::Binary(left, op, right) => {
            let f = FrameModel::BinaryLeft(op, *right);
            lemma_push(envs, m.stack, f);
            lemma_eval_under(m, f, *left, r, callers);
        },
        ExprModel::Call(callee, paren, args) => {
            let f = FrameModel::Callee(paren, args);
            lemma_push(envs, m.stack, f);
            match resolve_exprs_model(r, args) {
                Ok(out) => {
                    lemma_resolved_exprs_each(r, args);
                },
                Err(_) => {},
            }
            lemma_eval_under(m, f, *callee, r, callers);
        },
        ExprModel::Get(object, name) => {
            let f = FrameModel::Get(name);
            lemma_push(envs, m.stack, f);
            lemma_eval_under(m, f, *object, r, callers);
        },
        ExprModel::Grouping(inner) => {
            let after = eval_model(m, e).0;
            assert(at_expr(after, *inner, r, callers));
        },
        ExprModel::Literal(lit) => {
            assert(at_value(m, Expect::Value(r), callers));
            lemma_value(m, eval_model(m, e).0.control, Expect::Value(r), callers);
        },
        ExprModel::Logical(left, op, right) => {
            let f = FrameModel::Logical(op, *right);
            lemma_push(envs, m.stack, f);
            lemma_eval_under(m, f, *left, r, callers);
        },
        ExprModel::SetProperty(object, name, value) => {
            let f = FrameModel::SetObject(name, *value);
            lemma_push(envs, m.stack, f);
            lemma_eval_under(m, f, *object, r, callers);
        },
        ExprModel::Super(keyword, method, slot) => {
            lemma_eval_super(m, keyword, method, slot, r, callers);
        },
        ExprModel::This(keyword, slot) => {
            assert(at_value(m, Expect::Value(r), callers));
            match lookup_variable_model(m, keyword, slot) {
                Some(v) => {
                    lemma_value(m, ControlModel::Value(v), Expect::Value(r), callers);
                },
                None => {},
            }
        },
        ExprModel::Unary(op, operand) => {
            let f = FrameModel::Unary(op);
            lemma_push(envs, m.stack, f);
            lemma_eval_under(m, f, *operand, r, callers);
        },
        ExprModel::Variable(name, slot) => {
            assert(at_value(m, Expect::Value(r), callers));
            match lookup_variable_model(m, name, slot) {
                Some(v) => {
                    lemma_value(m, ControlModel::Value(v), Expect::Value(r), callers);
                },
                None => {},
            }
        },
    }
}

/// A value for the frame on top of the stack after the heap has grown.
proof fn lemma_value_grown(
    m: MachineModel,
    heap: HeapModel,
    control: ControlModel,
    ex: Expect,
    callers: Seq<ResolverModel>,
)
    requires
        at_value(m, ex, callers),
        typed_heap(heap),
        extends(m.heap.envs, heap.envs),
        control is Value || (ex is Value && (control is AwaitNumber || control is AwaitTime)),
    ensures
        scoped(goto(with_heap(m, heap), control)),
{
    let after = with_heap(m, heap);
    lemma_covers_extends(m.heap.envs, heap.envs, m.env, state_of(ex).scopes);
    lemma_typed_stack_grows(m.heap.envs, heap.envs, m.stack, m.env, ex, callers);
    assert(at_value(after, ex, callers));
    lemma_value(after, control, ex, callers);
}

proof fn lemma_eval_super(
    m: MachineModel,
    keyword: TokenModel,
    method: TokenModel,
    slot: i32,
    r: ResolverModel,
    callers: Seq<ResolverModel>,
)
    requires
        typed_heap(m.heap),
        roomy(m),
        settled(r.scopes),
        m.env < m.heap.envs.len(),
        covers(m.heap.envs, m.env, r.scopes),
        typed_stack(m.heap.envs, m.stack, m.env, Expect::Value(r), callers),
    ensures
        scoped(super_model(m, keyword, method, slot).0),
{
    assert(at_value(m, Expect::Value(r), callers));
    if slot >= 1 {
        match (
            get_at_model(m.heap.envs, m.env, keyword.lexeme, slot),
            get_at_model(m.heap.envs, m.env, "this"@, (slot - 1) as i32),
        ) {
            (Some(ValueModel::Class(c)), Some(this)) => {
                match find_method_model(m.heap.classes, c, method.lexeme) {
                    Some(f) => {
                        if f < m.heap.methods.len() {
                            lemma_bind(m.heap, f, this);
                            lemma_value_grown(
                                m,
                                bind_model(m.heap, f, this),
                                ControlModel::Value(
                                    ValueModel::Fn(m.heap.functions.len() as usize),
                                ),
                                Expect::Value(r),
                                callers,
                            );
                        }
                    },
                    None => {},
                }
            },
            _ => {},
        }
    }
}


/// Entering a function keeps the state well scoped: the new environment
/// has a frame for every scope in which the body was resolved, and the
/// frame of the call keeps the state in which the caller goes on.
proof fn lemma_call_function(
    m: MachineModel,
    f: FunctionModel,
    args: Seq<ValueModel>,
    r: ResolverModel,
    callers: Seq<ResolverModel>,
)
    requires
        typed_heap(m.heap),
        m.heap.envs.len() < usize::MAX,
        function_ok(m.heap.envs, f),
        args.len() == f.params.len(),
        settled(r.scopes),
        m.env < m.heap.envs.len(),
        covers(m.heap.envs, m.env, r.scopes),
        typed_stack(m.heap.envs, m.stack, m.env, Expect::Value(r), callers),
    ensures
        scoped(call_function_model(m, f, args).0),
{
    let envs = m.heap.envs;
    let (rf, kind) = choose|rf: ResolverModel, kind: FunctionType| function_at(envs, f, rf, kind);
    let frame = EnvModel { values: bind_params(f.params, args), enclosing: Some(f.closure) };
    let after = call_function_model(m, f, args).0;
    let start = with_function_type(rf, kind);
    assert(begin_scope_model(start) == with_function_type(begin_scope_model(rf), kind));
    crate::scoping::a_call_opens_a_frame_for_the_parameters(
        envs,
        f.closure,
        start,
        f.params,
        args,
    );
    let body = body_state(rf, kind, f)->Ok_0;
    assert(after.heap.envs == envs.push(frame));
    assert(extends(envs, after.heap.envs));
    assert(all_ready(begin_scope_model(start).scopes)) by {
        let opened = begin_scope_model(start).scopes;
        assert forall|j: int, n: Seq<char>|
            0 <= j < opened.len() && (#[trigger] opened[j].contains_key(n)) implies opened[j][n] by {
            if j < rf.scopes.len() {
                assert(opened[j] == rf.scopes[j]);
                assert(rf.scopes[j].contains_key(n));
            }
        }
    }
    crate::resolver::the_parameters_are_ready(begin_scope_model(start), f.params);
    let call = FrameModel::Call(f.body, 0, m.env, f.closure, f.is_initializer);
    lemma_push(envs, m.stack, call);
    let pushed_callers = callers.push(r);
    assert(pushed_callers.drop_last() =~= callers);
    lemma_covers_extends(envs, after.heap.envs, m.env, r.scopes);
    lemma_typed_stack_grows(envs, after.heap.envs, m.stack, m.env, Expect::Value(r), callers);
    assert(typed_stack(
        after.heap.envs,
        after.stack,
        after.env,
        Expect::Done(body),
        pushed_callers,
    ));
    assert(at_value(after, Expect::Done(body), pushed_callers));
    crate::growth::lemma_call_function_grows(m, f, args);
    lemma_typed_heap_grows(m.heap, after.heap);
}

/// A heap that differs only in its instances and classes is typed as
/// before.
proof fn lemma_same_code(heap: HeapModel, after: HeapModel)
    requires
        typed_heap(heap),
        after.envs == heap.envs,
        after.functions == heap.functions,
        after.methods == heap.methods,
    ensures
        typed_heap(after),
{
}

/// Calling a class keeps the state well scoped.
proof fn lemma_call_class(
    m: MachineModel,
    c: usize,
    args: Seq<ValueModel>,
    r: ResolverModel,
    callers: Seq<ResolverModel>,
)
    requires
        typed_heap(m.heap),
        roomy(m),
        args.len() == class_arity(m.heap, c),
        settled(r.scopes),
        m.env < m.heap.envs.len(),
        covers(m.heap.envs, m.env, r.scopes),
        typed_stack(m.heap.envs, m.stack, m.env, Expect::Value(r), callers),
    ensures
        scoped(call_class_model(m, c, args).0),
{
    let id = m.heap.instances.len() as usize;
    let heap1 = with_instance(m.heap, fresh_instance(c));
    lemma_same_code(m.heap, heap1);
    assert(at_value(m, Expect::Value(r), callers));
    match initializer(m.heap, c) {
        Some(i) => {
            let heap2 = bind_model(heap1, i, ValueModel::Instance(id));
            lemma_bind(heap1, i, ValueModel::Instance(id));
            let construct = FrameModel::Construct(id);
            let m2 = pushed(with_heap(m, heap2), construct);
            lemma_push(heap2.envs, m.stack, construct);
            lemma_covers_extends(m.heap.envs, heap2.envs, m.env, r.scopes);
            lemma_typed_stack_grows(
                m.heap.envs,
                heap2.envs,
                m.stack,
                m.env,
                Expect::Value(r),
                callers,
            );
            assert(typed_stack(heap2.envs, m2.stack, m2.env, Expect::Value(r), callers));
            let f = heap2.functions.last();
            assert(heap2.functions[heap2.functions.len() - 1] == f);
            assert(function_ok(heap2.envs, f));
            lemma_call_function(m2, f, args, r, callers);
        },
        None => {
            lemma_value_grown(
                m,
                heap1,
                ControlModel::Value(ValueModel::Instance(id)),
                Expect::Value(r),
                callers,
            );
        },
    }
}

/// A call keeps the state well scoped, whatever is called and with however
/// many arguments.
proof fn lemma_call_value(
    m: MachineModel,
    callee: ValueModel,
    args: Seq<ValueModel>,
    paren: TokenModel,
    r: ResolverModel,
    callers: Seq<ResolverModel>,
)
    requires
        typed_heap(m.heap),
        roomy(m),
        settled(r.scopes),
        m.env < m.heap.envs.len(),
        covers(m.heap.envs, m.env, r.scopes),
        typed_stack(m.heap.envs, m.stack, m.env, Expect::Value(r), callers),
    ensures
        scoped(call_value_model(m, callee, args, paren).0),
{
    assert(at_value(m, Expect::Value(r), callers));
    match callee {
        ValueModel::Native(_) => {
            if args.len() == 0 {
                lemma_value(m, ControlModel::AwaitTime, Expect::Value(r), callers);
            }
        },
        ValueModel::Fn(f) => {
            if f < m.heap.functions.len() {
                let function = m.heap.functions[f as int];
                if args.len() == function.params.len() {
                    lemma_call_function(m, function, args, r, callers);
                }
            }
        },
        ValueModel::Class(c) => {
            if c < m.heap.classes.len() && args.len() == class_arity(m.heap, c) {
                lemma_call_class(m, c, args, r, callers);
            }
        },
        _ => {},
    }
}

/// The end of a call keeps the state well scoped: the caller goes on in
/// the environment and the state that the frame of the call kept.
proof fn lemma_finish_call(
    m: MachineModel,
    saved: usize,
    closure: usize,
    is_initializer: bool,
    v: ValueModel,
    rc: ResolverModel,
    callers: Seq<ResolverModel>,
)
    requires
        typed_heap(m.heap),
        settled(rc.scopes),
        saved < m.heap.envs.len(),
        covers(m.heap.envs, saved, rc.scopes),
        typed_stack(m.heap.envs, m.stack, saved, Expect::Value(rc), callers),
    ensures
        scoped(finish_call_model(m, saved, closure, is_initializer, v).0),
{
    let back = in_env(m, saved);
    assert(at_value(back, Expect::Value(rc), callers));
    let after = finish_call_model(m, saved, closure, is_initializer, v).0;
    if after.control is Value {
        lemma_value(back, after.control, Expect::Value(rc), callers);
    }
}


/// A new scope on top of scopes that are ready leaves all scopes ready.
proof fn lemma_begin_ready(r: ResolverModel)
    requires
        all_ready(r.scopes),
    ensures
        all_ready(begin_scope_model(r).scopes),
        begin_scope_model(r).scopes.drop_last() == r.scopes,
        end_scope_model(begin_scope_model(r)) == r,
{
    let opened = begin_scope_model(r).scopes;
    assert(opened.drop_last() =~= r.scopes);
    assert forall|j: int, n: Seq<char>|
        0 <= j < opened.len() && (#[trigger] opened[j].contains_key(n)) implies opened[j][n] by {
        if j < r.scopes.len() {
            assert(opened[j] == r.scopes[j]);
            assert(r.scopes[j].contains_key(n));
        }
    }
}

/// Scopes that are all ready are settled, and stay settled when a name is
/// declared in the innermost one.
proof fn lemma_settled(r: ResolverModel, name: TokenModel)
    requires
        all_ready(r.scopes),
    ensures
        settled(r.scopes),
        declare_model(r, name) matches Ok(r1) ==> settled(r1.scopes),
{
    match declare_model(r, name) {
        Ok(r1) => {
            assert forall|j: int, n: Seq<char>|
                0 <= j < r1.scopes.len() - 1 && (#[trigger] r1.scopes[j].contains_key(
                    n,
                )) implies r1.scopes[j][n] by {
                assert(r1.scopes[j] == r.scopes[j]);
                assert(r.scopes[j].contains_key(n));
            }
        },
        Err(_) => {},
    }
}

/// Entering a block keeps the state well scoped.
proof fn lemma_exec_block(
    m: MachineModel,
    stmts: Seq<StmtModel>,
    r: ResolverModel,
    callers: Seq<ResolverModel>,
)
    requires
        typed_heap(m.heap),
        roomy(m),
        at_stmt(m, StmtModel::Block(stmts), r, callers),
    ensures
        scoped(exec_model(m, StmtModel::Block(stmts)).0),
{
    let s = StmtModel::Block(stmts);
    let envs = m.heap.envs;
    let after = exec_model(m, s).0;
    let inner = begin_scope_model(r);
    lemma_begin_ready(r);
    lemma_block_state(r, stmts);
    match resolve_stmts_model(inner, stmts) {
        Ok((r1, out)) => {
            assert(out == stmts);
            lemma_resolved_list(inner, stmts);
            assert(after_stmt(r, s) == r);
        },
        Err(_) => {},
    }
    crate::scoping::a_block_opens_a_frame_for_its_scope(envs, m.env, r);
    assert(extends(envs, after.heap.envs));
    let frame = FrameModel::Block(stmts, 0, m.env);
    lemma_push(envs, m.stack, frame);
    lemma_covers_extends(envs, after.heap.envs, m.env, r.scopes);
    lemma_typed_stack_grows(envs, after.heap.envs, m.stack, m.env, Expect::Done(r), callers);
    assert(typed_stack(after.heap.envs, after.stack, after.env, Expect::Done(inner), callers));
    assert(at_value(after, Expect::Done(inner), callers));
    crate::growth::lemma_exec_grows(m, s);
    lemma_typed_heap_grows(m.heap, after.heap);
}

/// An expression statement or a `print` keeps the state well scoped when
/// it starts.
proof fn lemma_exec_expr(m: MachineModel, s: StmtModel, r: ResolverModel, callers: Seq<ResolverModel>)
    requires
        typed_heap(m.heap),
        at_stmt(m, s, r, callers),
        s is Expr || s is Print,
    ensures
        scoped(exec_model(m, s).0),
{
    let envs = m.heap.envs;
    lemma_settled(r, arbitrary());
    assert(after_stmt(r, s) == r);
    match s {
        StmtModel::Expr(e) => {
            lemma_push(envs, m.stack, FrameModel::Discard);
            lemma_eval_under(m, FrameModel::Discard, e, r, callers);
        },
        StmtModel::Print(e) => {
            lemma_push(envs, m.stack, FrameModel::Print);
            lemma_eval_under(m, FrameModel::Print, e, r, callers);
        },
        _ => {},
    }
}

/// An `if` keeps the state well scoped when it starts.
proof fn lemma_exec_if(
    m: MachineModel,
    cond: ExprModel,
    then_branch: StmtModel,
    else_branch: Option<StmtModel>,
    r: ResolverModel,
    callers: Seq<ResolverModel>,
)
    requires
        typed_heap(m.heap),
        at_stmt(
            m,
            StmtModel::If(
                cond,
                Box::new(then_branch),
                match else_branch {
                    Some(e) => Some(Box::new(e)),
                    None => None,
                },
            ),
            r,
            callers,
        ),
    ensures
        scoped(
            exec_model(
                m,
                StmtModel::If(
                    cond,
                    Box::new(then_branch),
                    match else_branch {
                        Some(e) => Some(Box::new(e)),
                        None => None,
                    },
                ),
            ).0,
        ),
{
    let s = StmtModel::If(
        cond,
        Box::new(then_branch),
        match else_branch {
            Some(e) => Some(Box::new(e)),
            None => None,
        },
    );
    let envs = m.heap.envs;
    lemma_settled(r, arbitrary());
    lemma_plain(r, then_branch);
    match else_branch {
        Some(e) => {
            lemma_plain(r, e);
        },
        None => {},
    }
    assert(ok_stmt(r, then_branch));
    assert(after_stmt(r, s) == r);
    let f = FrameModel::If(then_branch, else_branch);
    lemma_push(envs, m.stack, f);
    assert(typed_stack(envs, m.stack.push(f), m.env, Expect::Value(r), callers));
    assert(exec_model(m, s) == proceed(pushed(m, f), ControlModel::Expr(cond)));
    lemma_eval_under(m, f, cond, r, callers);
}

/// A loop keeps the state well scoped when it starts.
proof fn lemma_exec_while(
    m: MachineModel,
    cond: ExprModel,
    body: StmtModel,
    r: ResolverModel,
    callers: Seq<ResolverModel>,
)
    requires
        typed_heap(m.heap),
        at_stmt(m, StmtModel::While(cond, Box::new(body)), r, callers),
    ensures
        scoped(exec_model(m, StmtModel::While(cond, Box::new(body))).0),
{
    let s = StmtModel::While(cond, Box::new(body));
    let envs = m.heap.envs;
    lemma_settled(r, arbitrary());
    lemma_plain(r, body);
    assert(after_stmt(r, s) == r);
    let f = FrameModel::WhileCond(cond, body);
    lemma_push(envs, m.stack, f);
    lemma_eval_under(m, f, cond, r, callers);
}

/// A `return` keeps the state well scoped when it starts.
proof fn lemma_exec_return(
    m: MachineModel,
    keyword: TokenModel,
    value: Option<ExprModel>,
    r: ResolverModel,
    callers: Seq<ResolverModel>,
)
    requires
        typed_heap(m.heap),
        at_stmt(m, StmtModel::Return(keyword, value), r, callers),
    ensures
        scoped(exec_model(m, StmtModel::Return(keyword, value)).0),
{
    let s = StmtModel::Return(keyword, value);
    let envs = m.heap.envs;
    lemma_settled(r, arbitrary());
    assert(after_stmt(r, s) == r);
    lemma_unwind(envs, m.stack, m.env, Expect::Done(r), callers);
    match value {
        Some(e) => {
            lemma_push(envs, m.stack, FrameModel::Return);
            lemma_eval_under(m, FrameModel::Return, e, r, callers);
        },
        None => {
            let after = exec_model(m, s).0;
            assert(at_return(after, callers));
        },
    }
}

/// A variable declaration keeps the state well scoped when it starts.
proof fn lemma_exec_var(
    m: MachineModel,
    name: TokenModel,
    init: Option<ExprModel>,
    r: ResolverModel,
    callers: Seq<ResolverModel>,
)
    requires
        typed_heap(m.heap),
        at_stmt(m, StmtModel::Var(name, init), r, callers),
    ensures
        scoped(exec_model(m, StmtModel::Var(name, init)).0),
{
    let s = StmtModel::Var(name, init);
    let envs = m.heap.envs;
    crate::resolver::a_declaration_is_balanced(r, name);
    lemma_settled(r, name);
    let declared = declare_model(r, name)->Ok_0;
    let defined = define_model(declared, name);
    assert(after_stmt(r, s) == defined);
    crate::scoping::a_definition_binds_what_the_resolver_defines(
        envs,
        m.env,
        r,
        name,
        ValueModel::Nil,
    );
    match init {
        Some(e) => {
            let f = FrameModel::Var(name);
            lemma_push(envs, m.stack, f);
            lemma_eval_under(m, f, e, declared, callers);
        },
        None => {
            let heap = define_in(m.heap, m.env, name.lexeme, ValueModel::Nil);
            crate::growth::lemma_define_grows(m.heap, m.env, name.lexeme, ValueModel::Nil);
            lemma_typed_heap_grows(m.heap, heap);
            lemma_typed_stack_grows(envs, heap.envs, m.stack, m.env, Expect::Done(defined), callers);
            let after = exec_model(m, s).0;
            assert(at_value(after, Expect::Done(defined), callers));
        },
    }
}

/// A function declaration keeps the state well scoped: the function closes
/// over the current environment, which has a frame for every scope in
/// which the declaration was resolved.
proof fn lemma_exec_func(
    m: MachineModel,
    name: TokenModel,
    params: Seq<TokenModel>,
    body: Seq<StmtModel>,
    r: ResolverModel,
    callers: Seq<ResolverModel>,
)
    requires
        typed_heap(m.heap),
        at_stmt(m, StmtModel::Func(name, params, body), r, callers),
    ensures
        scoped(exec_model(m, StmtModel::Func(name, params, body)).0),
{
    let s = StmtModel::Func(name, params, body);
    let envs = m.heap.envs;
    let after = exec_model(m, s).0;
    crate::resolver::a_declaration_is_balanced(r, name);
    let declared = declare_model(r, name)->Ok_0;
    let defined = define_model(declared, name);
    crate::resolver::a_function_leaves_the_state(
        defined,
        s,
        FunctionType::Function,
        name,
        Seq::empty(),
    );
    assert(after_stmt(r, s) == defined);
    let f = FunctionModel { name, params, body, closure: m.env, is_initializer: false };
    let value = ValueModel::Fn(m.heap.functions.len() as usize);
    crate::scoping::a_definition_binds_what_the_resolver_defines(envs, m.env, r, name, value);
    crate::growth::lemma_exec_grows(m, s);
    lemma_begin_ready(with_function_type(defined, FunctionType::Function));
    match body_state(defined, FunctionType::Function, f) {
        Ok(inner) => {
            lemma_resolved_list(inner, body);
        },
        Err(_) => {},
    }
    assert(function_at(after.heap.envs, f, defined, FunctionType::Function));
    assert forall|i: int|
        m.heap.functions.len() <= i < after.heap.functions.len() implies function_ok(
        after.heap.envs,
        #[trigger] after.heap.functions[i],
    ) by {
        assert(after.heap.functions[i] == f);
    }
    lemma_typed_heap_grows(m.heap, after.heap);
    lemma_typed_stack_grows(
        envs,
        after.heap.envs,
        m.stack,
        m.env,
        Expect::Done(defined),
        callers,
    );
    assert(at_value(after, Expect::Done(defined), callers));
}


/// Whether a method of a class is a function declaration that the resolver
/// leaves as it is in state `r`.
pub open spec fn method_resolved(r: ResolverModel, s: StmtModel) -> bool {
    match s {
        StmtModel::Func(name, _, _) => match resolve_function_model(
            r,
            s,
            method_kind(name.lexeme),
        ) {
            Ok((_, f)) => f == s,
            Err(_) => false,
        },
        _ => false,
    }
}

/// Methods that the resolver leaves as they are, are resolved one by one,
/// each in the state of the class body.
proof fn lemma_methods_each(r: ResolverModel, class: TokenModel, methods: Seq<StmtModel>)
    requires
        all_ready(r.scopes),
        resolve_methods_model(r, class, methods) matches Ok((_, out)) && out == methods,
    ensures
        forall|k: int| 0 <= k < methods.len() ==> method_resolved(r, #[trigger] methods[k]),
    decreases methods.len(),
{
    if methods.len() > 0 {
        let before = methods.drop_last();
        crate::resolver::a_function_leaves_the_state(r, methods.last(), arbitrary(), class, before);
        match resolve_methods_model(r, class, before) {
            Ok((r1, done)) => {
                assert(r1 == r);
                match methods.last() {
                    StmtModel::Func(name, _, _) => {
                        match resolve_function_model(r1, methods.last(), method_kind(name.lexeme)) {
                            Ok((_, f)) => {
                                assert(done.push(f) == methods);
                                assert(done =~= done.push(f).drop_last());
                                assert(f == done.push(f).last());
                                lemma_methods_each(r, class, before);
                                assert forall|k: int| 0 <= k < methods.len() implies method_resolved(
                                    r,
                                    #[trigger] methods[k],
                                ) by {
                                    if k < methods.len() - 1 {
                                        assert(before[k] == methods[k]);
                                    }
                                }
                            },
                            Err(_) => {},
                        }
                    },
                    _ => {},
                }
            },
            Err(_) => {},
        }
    }
}

/// The function that a method declaration becomes.
pub open spec fn method_of(s: StmtModel, closure: usize) -> FunctionModel {
    match s {
        StmtModel::Func(name, params, body) => FunctionModel {
            name,
            params,
            body,
            closure,
            is_initializer: name.lexeme == "init"@,
        },
        _ => arbitrary(),
    }
}

/// A method that was resolved under the scope of `this` on top of scopes
/// that its closure covers is typed.
proof fn lemma_method_typed(envs: Seq<EnvModel>, r: ResolverModel, s: StmtModel, closure: usize)
    requires
        all_ready(r.scopes),
        closure < envs.len(),
        covers(envs, closure, r.scopes),
        method_resolved(this_scopes(r), s),
        shaped(s),
    ensures
        method_ok(envs, method_of(s, closure)),
{
    match s {
        StmtModel::Func(name, params, body) => {
            let kind = method_kind(name.lexeme);
            let f = method_of(s, closure);
            match body_state(this_scopes(r), kind, f) {
                Ok(inner) => {
                    lemma_resolved_list(inner, body);
                },
                Err(_) => {},
            }
            assert(method_at(envs, f, r, kind));
        },
        _ => {},
    }
}

/// The methods that a class declaration adds to the heap are typed.
proof fn lemma_method_functions_typed(
    envs: Seq<EnvModel>,
    base: Seq<FunctionModel>,
    methods: Seq<StmtModel>,
    closure: usize,
    r: ResolverModel,
)
    requires
        all_ready(r.scopes),
        closure < envs.len(),
        covers(envs, closure, r.scopes),
        shaped_all(methods),
        forall|k: int|
            0 <= k < methods.len() ==> method_resolved(this_scopes(r), #[trigger] methods[k]),
    ensures
        base.len() <= method_functions(base, methods, closure).len(),
        forall|i: int|
            base.len() <= i < method_functions(base, methods, closure).len() ==> method_ok(
                envs,
                #[trigger] method_functions(base, methods, closure)[i],
            ),
    decreases methods.len(),
{
    if methods.len() > 0 {
        let before = methods.drop_last();
        assert forall|k: int| 0 <= k < before.len() implies method_resolved(
            this_scopes(r),
            #[trigger] before[k],
        ) by {
            assert(before[k] == methods[k]);
        }
        assert(shaped_all(before)) by {
            assert forall|k: int| 0 <= k < before.len() implies shaped(#[trigger] before[k]) by {
                assert(before[k] == methods[k]);
            }
        }
        lemma_method_functions_typed(envs, base, before, closure, r);
        assert(method_resolved(this_scopes(r), methods[methods.len() - 1]));
        assert(shaped(methods[methods.len() - 1]));
        lemma_method_typed(envs, r, methods.last(), closure);
    }
}

/// The scope of `super` on top of scopes that are ready.
pub open spec fn super_scopes(r: ResolverModel) -> ResolverModel {
    with_scopes(r, mark(begin_scope_model(r).scopes, "super"@, true))
}

proof fn lemma_super_scopes(r: ResolverModel)
    requires
        all_ready(r.scopes),
    ensures
        all_ready(super_scopes(r).scopes),
        this_scopes(super_scopes(r)) == method_state(r),
        super_scopes(r).scopes == mark(r.scopes.push(Map::empty()), "super"@, true),
{
    let after = super_scopes(r).scopes;
    assert(after =~= mark(r.scopes.push(Map::empty()), "super"@, true));
    assert forall|j: int, n: Seq<char>|
        0 <= j < after.len() && (#[trigger] after[j].contains_key(n)) implies after[j][n] by {
        if j < r.scopes.len() {
            assert(after[j] == r.scopes[j]);
            assert(r.scopes[j].contains_key(n));
        }
    }
    assert(this_scopes(super_scopes(r)).scopes =~= method_state(r).scopes);
}

/// The state in which the class `name` stands declared and defined.
pub open spec fn class_state(r: ResolverModel, name: TokenModel) -> ResolverModel {
    match declare_model(with_class_type(r, ClassType::Class), name) {
        Ok(r1) => define_model(r1, name),
        Err(_) => r,
    }
}

/// The state of the class body in which the methods are resolved.
pub open spec fn methods_state(
    r: ResolverModel,
    name: TokenModel,
    superclass: Option<usize>,
) -> ResolverModel {
    match superclass {
        Some(_) => method_state(subclass_state(r, name)),
        None => this_scopes(class_state(r, name)),
    }
}

/// Declaring a class keeps the state well scoped: every method closes over
/// an environment that has a frame for every scope around the class body,
/// that of `super` included.
proof fn lemma_declare_class(
    m: MachineModel,
    name: TokenModel,
    superclass: Option<usize>,
    methods: Seq<StmtModel>,
    r: ResolverModel,
    callers: Seq<ResolverModel>,
)
    requires
        typed_heap(m.heap),
        roomy(m),
        all_ready(r.scopes),
        m.env < m.heap.envs.len(),
        covers(m.heap.envs, m.env, r.scopes),
        declare_model(with_class_type(r, ClassType::Class), name) is Ok,
        shaped_all(methods),
        resolve_methods_model(methods_state(r, name, superclass), name, methods) matches Ok(
            (_, out),
        ) && out == methods,
        typed_stack(
            m.heap.envs,
            m.stack,
            m.env,
            Expect::Done(class_after(r, name)),
            callers,
        ),
    ensures
        scoped(declare_class_model(m, name, superclass, methods).0),
{
    let envs = m.heap.envs;
    let after = declare_class_model(m, name, superclass, methods).0;
    if all_functions(methods) {
        let start = with_class_type(r, ClassType::Class);
        crate::resolver::a_declaration_is_balanced(start, name);
        let defined = class_state(r, name);
        let post = class_after(r, name);
        assert(post.scopes == defined.scopes);
        let heap1 = define_in(m.heap, m.env, name.lexeme, ValueModel::Nil);
        crate::scoping::a_definition_binds_what_the_resolver_defines(
            envs,
            m.env,
            start,
            name,
            ValueModel::Nil,
        );
        assert(covers(heap1.envs, m.env, defined.scopes));
        assert(extends(envs, heap1.envs));
        let heap2 = match superclass {
            Some(sc) => with_env(heap1, super_frame(m.env, sc)),
            None => heap1,
        };
        let closure = match superclass {
            Some(_) => heap1.envs.len() as usize,
            None => m.env,
        };
        let around = match superclass {
            Some(_) => super_scopes(subclass_state(r, name)),
            None => defined,
        };
        assert(subclass_state(r, name).scopes == defined.scopes);
        assert(all_ready(subclass_state(r, name).scopes));
        lemma_super_scopes(subclass_state(r, name));
        lemma_this_scopes(around);
        match superclass {
            Some(sc) => {
                crate::scoping::a_subclass_has_a_frame_for_super(
                    heap1.envs,
                    m.env,
                    defined.scopes,
                    sc,
                );
            },
            None => {},
        }
        assert(covers(heap2.envs, closure, around.scopes));
        assert(this_scopes(around) == methods_state(r, name, superclass));
        lemma_methods_each(methods_state(r, name, superclass), name, methods);
        lemma_method_functions_typed(heap2.envs, heap2.methods, methods, closure, around);
        crate::growth::lemma_declare_class_grows(m, name, superclass, methods);
        assert(after.heap.methods == method_functions(heap2.methods, methods, closure));
        assert(heap2.methods == m.heap.methods);
        assert(extends(heap2.envs, after.heap.envs)) by {
            let heap3 = with_methods(heap2, method_functions(heap2.methods, methods, closure));
            let class = ClassModel {
                name: name.lexeme,
                superclass,
                methods: method_table(heap2.methods, methods, closure),
            };
            let heap4 = with_class(heap3, class);
            match crate::env::frame_of(heap4.envs, m.env, name.lexeme) {
                Some(f) => {
                    crate::growth::lemma_bind_in_extends(
                        heap4.envs,
                        f,
                        name.lexeme,
                        ValueModel::Class(heap3.classes.len() as usize),
                    );
                },
                None => {},
            }
        }
        assert forall|i: int|
            m.heap.methods.len() <= i < after.heap.methods.len() implies method_ok(
            after.heap.envs,
            #[trigger] after.heap.methods[i],
        ) by {
            lemma_method_grows(heap2.envs, after.heap.envs, after.heap.methods[i]);
        }
        assert(after.heap.functions == m.heap.functions);
        lemma_typed_heap_grows(m.heap, after.heap);
        assert(extends(heap1.envs, heap2.envs));
        lemma_covers_extends(heap1.envs, heap2.envs, m.env, defined.scopes);
        lemma_covers_extends(heap2.envs, after.heap.envs, m.env, defined.scopes);
        lemma_typed_stack_grows(
            envs,
            after.heap.envs,
            m.stack,
            m.env,
            Expect::Done(post),
            callers,
        );
        assert(at_value(after, Expect::Done(post), callers));
    }
}


/// A name that is declared and defined in the innermost scope changes the
/// slot of no other name.
proof fn lemma_other_name(r: ResolverModel, name: TokenModel, other: TokenModel, slot: i32)
    requires
        other.lexeme != name.lexeme,
        declare_model(with_class_type(r, ClassType::Class), name) is Ok,
        ok_expr(subclass_state(r, name), ExprModel::Variable(other, slot)),
    ensures
        ok_expr(r, ExprModel::Variable(other, slot)),
{
    let after = subclass_state(r, name);
    if r.scopes.len() > 0 {
        assert(after.scopes.drop_last() =~= r.scopes.drop_last());
        assert(after.scopes.last().contains_key(other.lexeme) == r.scopes.last().contains_key(
            other.lexeme,
        ));
    } else {
        assert(after.scopes =~= r.scopes);
    }
}

/// The state after a class declaration: the class is declared and defined,
/// and the kind of the enclosing class is as before.
proof fn lemma_class_after(
    r: ResolverModel,
    name: TokenModel,
    superclass: Option<ExprModel>,
    methods: Seq<StmtModel>,
)
    requires
        all_ready(r.scopes),
        ok_stmt(r, StmtModel::Class(name, superclass, methods)),
    ensures
        after_stmt(r, StmtModel::Class(name, superclass, methods)) == class_after(r, name),
        declare_model(with_class_type(r, ClassType::Class), name) is Ok,
        resolve_methods_model(
            methods_state(
                r,
                name,
                match superclass {
                    Some(_) => Some(0usize),
                    None => None,
                },
            ),
            name,
            methods,
        ) matches Ok((_, out)) && out == methods,
        superclass matches Some(sc) ==> ok_expr(subclass_state(r, name), sc),
{
    let start = with_class_type(r, ClassType::Class);
    crate::resolver::a_declaration_is_balanced(start, name);
    let defined = class_state(r, name);
    match superclass {
        Some(sc) => {
            let sub = subclass_state(r, name);
            lemma_super_scopes(sub);
            lemma_this_scopes(super_scopes(sub));
            let body = method_state(sub);
            crate::resolver::a_function_leaves_the_state(body, arbitrary(), arbitrary(), name, methods);
            assert(end_scope_model(end_scope_model(body)).scopes =~= sub.scopes);
        },
        None => {
            lemma_this_scopes(defined);
            let body = with_scopes(defined, mark(begin_scope_model(defined).scopes, "this"@, true));
            assert(body == this_scopes(defined));
            crate::resolver::a_function_leaves_the_state(body, arbitrary(), arbitrary(), name, methods);
            assert(end_scope_model(body).scopes =~= defined.scopes);
        },
    }
}

/// A class declaration keeps the state well scoped when it starts.
proof fn lemma_exec_class(
    m: MachineModel,
    name: TokenModel,
    superclass: Option<ExprModel>,
    methods: Seq<StmtModel>,
    r: ResolverModel,
    callers: Seq<ResolverModel>,
)
    requires
        typed_heap(m.heap),
        roomy(m),
        at_stmt(m, StmtModel::Class(name, superclass, methods), r, callers),
    ensures
        scoped(exec_model(m, StmtModel::Class(name, superclass, methods)).0),
{
    let s = StmtModel::Class(name, superclass, methods);
    lemma_class_after(r, name, superclass, methods);
    match superclass {
        Some(sc) => {
            match sc {
                ExprModel::Variable(parent, slot) => {
                    lemma_other_name(r, name, parent, slot);
                    lemma_settled(r, arbitrary());
                    let f = FrameModel::Superclass(name, methods);
                    lemma_push(m.heap.envs, m.stack, f);
                    assert(class_ready(r, name, methods));
                    lemma_eval_under(m, f, sc, r, callers);
                },
                _ => {},
            }
        },
        None => {
            lemma_declare_class(m, name, None, methods, r, callers);
        },
    }
}

/// The start of a statement keeps the state well scoped.
proof fn lemma_exec(m: MachineModel, s: StmtModel, r: ResolverModel, callers: Seq<ResolverModel>)
    requires
        typed_heap(m.heap),
        roomy(m),
        at_stmt(m, s, r, callers),
    ensures
        scoped(exec_model(m, s).0),
{
    match s {
        StmtModel::Block(stmts) => {
            lemma_exec_block(m, stmts, r, callers);
        },
        StmtModel::Class(name, superclass, methods) => {
            lemma_exec_class(m, name, superclass, methods, r, callers);
        },
        StmtModel::Expr(_) => {
            lemma_exec_expr(m, s, r, callers);
        },
        StmtModel::Func(name, params, body) => {
            lemma_exec_func(m, name, params, body, r, callers);
        },
        StmtModel::If(cond, then_branch, else_branch) => {
            lemma_exec_if(
                m,
                cond,
                *then_branch,
                match else_branch {
                    Some(e) => Some(*e),
                    None => None,
                },
                r,
                callers,
            );
        },
        StmtModel::Print(_) => {
            lemma_exec_expr(m, s, r, callers);
        },
        StmtModel::Return(keyword, value) => {
            lemma_exec_return(m, keyword, value, r, callers);
        },
        StmtModel::Var(name, init) => {
            lemma_exec_var(m, name, init, r, callers);
        },
        StmtModel::While(cond, body) => {
            lemma_exec_while(m, cond, *body, r, callers);
        },
    }
}


/// What a frame that has been taken off the stack was typed with.
pub open spec fn resumable(
    m: MachineModel,
    f: FrameModel,
    ex: Expect,
    callers: Seq<ResolverModel>,
) -> bool {
    &&& typed_heap(m.heap)
    &&& roomy(m)
    &&& good(ex)
    &&& m.env < m.heap.envs.len()
    &&& covers(m.heap.envs, m.env, state_of(ex).scopes)
    &&& typed_stack(m.heap.envs, m.stack.push(f), m.env, ex, callers)
}

/// Frames that hand a value on, or fail.
proof fn lemma_resume_value(
    m: MachineModel,
    f: FrameModel,
    v: ValueModel,
    ex: Expect,
    callers: Seq<ResolverModel>,
)
    requires
        resumable(m, f, ex, callers),
        f is Unary || f is BinaryRight || f is Construct || f is Discard || f is Print
            || f is Return,
    ensures
        scoped(resume_model(m, f, v).0),
{
    lemma_push(m.heap.envs, m.stack, f);
    let r = state_of(ex);
    let after = resume_model(m, f, v).0;
    match f {
        FrameModel::Discard => {
            assert(at_value(m, Expect::Done(r), callers));
            lemma_value(m, after.control, Expect::Done(r), callers);
        },
        FrameModel::Print => {
            assert(at_value(m, Expect::Done(r), callers));
            lemma_value(m, after.control, Expect::Done(r), callers);
        },
        FrameModel::Return => {
            assert(at_return(after, callers));
        },
        _ => {
            assert(at_value(m, ex, callers));
            if !(after.control is Idle) {
                lemma_value(m, after.control, ex, callers);
            }
        },
    }
}

/// Frames that go on with another expression of the same statement.
proof fn lemma_resume_operand(
    m: MachineModel,
    f: FrameModel,
    v: ValueModel,
    ex: Expect,
    callers: Seq<ResolverModel>,
)
    requires
        resumable(m, f, ex, callers),
        f is BinaryLeft || f is Logical || f is SetObject || f is WhileBody,
    ensures
        scoped(resume_model(m, f, v).0),
{
    let envs = m.heap.envs;
    lemma_push(envs, m.stack, f);
    let r = state_of(ex);
    let after = resume_model(m, f, v).0;
    match f {
        FrameModel::BinaryLeft(op, right) => {
            let next = FrameModel::BinaryRight(op, v);
            lemma_push(envs, m.stack, next);
            lemma_eval_under(m, next, right, r, callers);
        },
        FrameModel::Logical(op, right) => {
            if (op.token_type == crate::token::TokenType::Or) == crate::lox_value::truthy(v) {
                assert(at_value(m, ex, callers));
                lemma_value(m, after.control, ex, callers);
            } else {
                assert(at_expr(after, right, r, callers));
            }
        },
        FrameModel::SetObject(name, value) => {
            match v {
                ValueModel::Instance(id) => {
                    if id < m.heap.instances.len() {
                        let next = FrameModel::SetValue(name, id);
                        lemma_push(envs, m.stack, next);
                        lemma_eval_under(m, next, value, r, callers);
                    }
                },
                _ => {},
            }
        },
        FrameModel::WhileBody(cond, body) => {
            let next = FrameModel::WhileCond(cond, body);
            lemma_push(envs, m.stack, next);
            lemma_settled(r, arbitrary());
            lemma_eval_under(m, next, cond, r, callers);
        },
        _ => {},
    }
}

/// The frames of a call expression: the callee and the arguments.
proof fn lemma_resume_call(
    m: MachineModel,
    f: FrameModel,
    v: ValueModel,
    ex: Expect,
    callers: Seq<ResolverModel>,
)
    requires
        resumable(m, f, ex, callers),
        f is Callee || f is Args,
    ensures
        scoped(resume_model(m, f, v).0),
{
    let envs = m.heap.envs;
    lemma_push(envs, m.stack, f);
    let r = state_of(ex);
    match f {
        FrameModel::Callee(paren, args) => {
            if args.len() == 0 {
                lemma_call_value(m, v, Seq::empty(), paren, r, callers);
            } else {
                let next = FrameModel::Args(paren, args, v, Seq::empty());
                lemma_push(envs, m.stack, next);
                assert(ok_expr(r, args[0]));
                lemma_eval_under(m, next, args[0], r, callers);
            }
        },
        FrameModel::Args(paren, args, callee, done) => {
            if done.len() + 1 < args.len() {
                let next = FrameModel::Args(paren, args, callee, done.push(v));
                lemma_push(envs, m.stack, next);
                assert(ok_expr(r, args[done.len() + 1 as int]));
                lemma_eval_under(m, next, args[done.len() + 1 as int], r, callers);
            } else {
                lemma_call_value(m, callee, done.push(v), paren, r, callers);
            }
        },
        _ => {},
    }
}

/// Reading a property keeps the heap typed.
proof fn lemma_property(heap: HeapModel, id: usize, name: TokenModel)
    requires
        typed_heap(heap),
        heap.envs.len() < usize::MAX,
    ensures
        typed_heap(property_model(heap, id, name).0),
        grows(heap, property_model(heap, id, name).0),
{
    crate::growth::lemma_property_grows(heap, id, name);
    if id < heap.instances.len() && !heap.instances[id as int].fields.contains_key(name.lexeme) {
        match find_method_model(heap.classes, heap.instances[id as int].klass, name.lexeme) {
            Some(mi) => {
                if mi < heap.methods.len() {
                    lemma_bind(heap, mi, ValueModel::Instance(id));
                }
            },
            None => {},
        }
    }
}

/// Frames that write to the heap and hand a value on.
proof fn lemma_resume_write(
    m: MachineModel,
    f: FrameModel,
    v: ValueModel,
    ex: Expect,
    callers: Seq<ResolverModel>,
)
    requires
        resumable(m, f, ex, callers),
        f is Assign || f is Get || f is SetValue || f is Var,
    ensures
        scoped(resume_model(m, f, v).0),
{
    let envs = m.heap.envs;
    lemma_push(envs, m.stack, f);
    let r = state_of(ex);
    let after = resume_model(m, f, v).0;
    crate::growth::lemma_resume_grows(m, f, v);
    match f {
        FrameModel::Assign(name, slot) => {
            assert(at_value(m, ex, callers));
            if after.control is Value {
                lemma_typed_heap_grows(m.heap, after.heap);
                lemma_value_grown(m, after.heap, after.control, ex, callers);
            }
        },
        FrameModel::Get(name) => {
            assert(at_value(m, ex, callers));
            match v {
                ValueModel::Instance(id) => {
                    lemma_property(m.heap, id, name);
                    if after.control is Value {
                        lemma_value_grown(m, after.heap, after.control, ex, callers);
                    }
                },
                _ => {},
            }
        },
        FrameModel::SetValue(name, id) => {
            assert(at_value(m, ex, callers));
            if after.control is Value {
                lemma_same_code(m.heap, after.heap);
                lemma_value_grown(m, after.heap, after.control, ex, callers);
            }
        },
        FrameModel::Var(name) => {
            let defined = define_model(r, name);
            crate::scoping::a_definition_binds_what_the_resolver_defines(
                envs,
                m.env,
                r,
                name,
                v,
            );
            lemma_typed_heap_grows(m.heap, after.heap);
            lemma_typed_stack_grows(
                envs,
                after.heap.envs,
                m.stack,
                m.env,
                Expect::Done(defined),
                callers,
            );
            assert(at_value(after, Expect::Done(defined), callers));
        },
        _ => {},
    }
}

/// The frames of an `if` and of the condition of a loop.
proof fn lemma_resume_branch(
    m: MachineModel,
    f: FrameModel,
    v: ValueModel,
    ex: Expect,
    callers: Seq<ResolverModel>,
)
    requires
        resumable(m, f, ex, callers),
        f is If || f is WhileCond,
    ensures
        scoped(resume_model(m, f, v).0),
{
    let envs = m.heap.envs;
    lemma_push(envs, m.stack, f);
    let r = state_of(ex);
    let after = resume_model(m, f, v).0;
    assert(at_value(m, Expect::Done(r), callers));
    match f {
        FrameModel::If(then_branch, else_branch) => {
            if crate::lox_value::truthy(v) {
                lemma_plain(r, then_branch);
                assert(at_stmt(after, then_branch, r, callers));
            } else {
                match else_branch {
                    Some(e) => {
                        lemma_plain(r, e);
                        assert(at_stmt(after, e, r, callers));
                    },
                    None => {
                        lemma_value(m, after.control, Expect::Done(r), callers);
                    },
                }
            }
        },
        FrameModel::WhileCond(cond, body) => {
            if crate::lox_value::truthy(v) {
                lemma_plain(r, body);
                let next = FrameModel::WhileBody(cond, body);
                lemma_push(envs, m.stack, next);
                assert(at_stmt(after, body, r, callers));
            } else {
                lemma_value(m, after.control, Expect::Done(r), callers);
            }
        },
        _ => {},
    }
}


/// One statement of a list: it is resolved in the state the list has come
/// to, and after it the list goes on in a state that is balanced with it.
proof fn lemma_list_step(r: ResolverModel, stmts: Seq<StmtModel>, next: usize)
    requires
        all_ready(r.scopes),
        ok_rest(r, stmts, next as nat),
        next < stmts.len(),
    ensures
        ok_stmt(r, stmts[next as int]),
        ok_rest(after_stmt(r, stmts[next as int]), stmts, (next + 1) as nat),
        crate::resolver::balanced(r, after_stmt(r, stmts[next as int])),
        end_scope_model(after_stmt(r, stmts[next as int])) == end_scope_model(r),
{
    crate::resolver::a_statement_leaves_the_scopes_balanced(r, stmts[next as int]);
    let after = after_stmt(r, stmts[next as int]);
    if r.scopes.len() > 0 {
        assert(end_scope_model(after).scopes == end_scope_model(r).scopes);
    } else {
        assert(after.scopes =~= r.scopes);
    }
}

/// The frame of a block: the next statement, or the end of the block.
proof fn lemma_resume_block(
    m: MachineModel,
    stmts: Seq<StmtModel>,
    next: usize,
    saved: usize,
    v: ValueModel,
    ex: Expect,
    callers: Seq<ResolverModel>,
)
    requires
        resumable(m, FrameModel::Block(stmts, next, saved), ex, callers),
    ensures
        scoped(resume_model(m, FrameModel::Block(stmts, next, saved), v).0),
{
    let envs = m.heap.envs;
    let f = FrameModel::Block(stmts, next, saved);
    lemma_push(envs, m.stack, f);
    let r = state_of(ex);
    let after = resume_model(m, f, v).0;
    if next < stmts.len() {
        lemma_list_step(r, stmts, next);
        let s = stmts[next as int];
        let then = after_stmt(r, s);
        let again = FrameModel::Block(stmts, (next + 1) as usize, saved);
        lemma_push(envs, m.stack, again);
        assert(then.scopes.drop_last() == r.scopes.drop_last());
        assert(typed_stack(envs, m.stack.push(again), m.env, Expect::Done(then), callers));
        assert(at_stmt(after, s, r, callers));
    } else {
        let out = end_scope_model(r);
        assert(all_ready(out.scopes)) by {
            assert forall|j: int, n: Seq<char>|
                0 <= j < out.scopes.len() && (#[trigger] out.scopes[j].contains_key(
                    n,
                )) implies out.scopes[j][n] by {
                assert(out.scopes[j] == r.scopes[j]);
                assert(r.scopes[j].contains_key(n));
            }
        }
        assert(at_value(in_env(m, saved), Expect::Done(out), callers));
        lemma_value(in_env(m, saved), after.control, Expect::Done(out), callers);
    }
}

/// The frame of the program: the next statement, or the end.
proof fn lemma_resume_program(
    m: MachineModel,
    stmts: Seq<StmtModel>,
    next: usize,
    v: ValueModel,
    ex: Expect,
    callers: Seq<ResolverModel>,
)
    requires
        resumable(m, FrameModel::Program(stmts, next), ex, callers),
    ensures
        scoped(resume_model(m, FrameModel::Program(stmts, next), v).0),
{
    let envs = m.heap.envs;
    let f = FrameModel::Program(stmts, next);
    lemma_push(envs, m.stack, f);
    let r = state_of(ex);
    let after = resume_model(m, f, v).0;
    if next < stmts.len() {
        lemma_list_step(r, stmts, next);
        let s = stmts[next as int];
        let then = after_stmt(r, s);
        let again = FrameModel::Program(stmts, (next + 1) as usize);
        lemma_push(envs, m.stack, again);
        lemma_program_rest(envs, m.stack, m.env, r, then, callers);
        assert(typed_stack(envs, m.stack.push(again), m.env, Expect::Done(then), callers));
        assert(at_stmt(after, s, r, callers));
    } else {
        assert(at_value(m, ex, callers));
        lemma_value(m, after.control, ex, callers);
    }
}

/// What lies under the frame of the program is typed for the end of any
/// statement: the program is the outermost list, and what lies under it,
/// if anything does, expects no state in particular.
proof fn lemma_program_rest(
    envs: Seq<EnvModel>,
    rest: Seq<FrameModel>,
    env: usize,
    r: ResolverModel,
    then: ResolverModel,
    callers: Seq<ResolverModel>,
)
    requires
        typed_stack(envs, rest, env, Expect::Done(r), callers),
        crate::resolver::balanced(r, then),
        all_ready(r.scopes),
        rest.len() == 0 || r.scopes.len() == 0,
    ensures
        typed_stack(envs, rest, env, Expect::Done(then), callers),
{
    if rest.len() > 0 {
        assert(then.scopes =~= r.scopes);
        assert(then == r);
    }
}

/// The frame of a call: the next statement of the body, or the end of the
/// call.
proof fn lemma_resume_body(
    m: MachineModel,
    stmts: Seq<StmtModel>,
    next: usize,
    saved: usize,
    closure: usize,
    is_initializer: bool,
    v: ValueModel,
    ex: Expect,
    callers: Seq<ResolverModel>,
)
    requires
        resumable(m, FrameModel::Call(stmts, next, saved, closure, is_initializer), ex, callers),
    ensures
        scoped(
            resume_model(m, FrameModel::Call(stmts, next, saved, closure, is_initializer), v).0,
        ),
{
    let envs = m.heap.envs;
    let f = FrameModel::Call(stmts, next, saved, closure, is_initializer);
    lemma_push(envs, m.stack, f);
    let r = state_of(ex);
    let after = resume_model(m, f, v).0;
    if next < stmts.len() {
        lemma_list_step(r, stmts, next);
        let s = stmts[next as int];
        let then = after_stmt(r, s);
        let again = FrameModel::Call(stmts, (next + 1) as usize, saved, closure, is_initializer);
        lemma_push(envs, m.stack, again);
        assert(typed_stack(envs, m.stack.push(again), m.env, Expect::Done(then), callers));
        assert(at_stmt(after, s, r, callers));
    } else {
        lemma_finish_call(
            m,
            saved,
            closure,
            is_initializer,
            ValueModel::Nil,
            callers.last(),
            callers.drop_last(),
        );
    }
}

/// The frame that waits for a superclass.
proof fn lemma_resume_superclass(
    m: MachineModel,
    name: TokenModel,
    methods: Seq<StmtModel>,
    v: ValueModel,
    ex: Expect,
    callers: Seq<ResolverModel>,
)
    requires
        resumable(m, FrameModel::Superclass(name, methods), ex, callers),
    ensures
        scoped(resume_model(m, FrameModel::Superclass(name, methods), v).0),
{
    let f = FrameModel::Superclass(name, methods);
    lemma_push(m.heap.envs, m.stack, f);
    let r = state_of(ex);
    match v {
        ValueModel::Class(c) => {
            if c < m.heap.classes.len() {
                lemma_declare_class(m, name, Some(c), methods, r, callers);
            }
        },
        _ => {},
    }
}

/// Handing a value to the frame on top of the stack keeps the state well
/// scoped.
proof fn lemma_resume(
    m: MachineModel,
    f: FrameModel,
    v: ValueModel,
    ex: Expect,
    callers: Seq<ResolverModel>,
)
    requires
        resumable(m, f, ex, callers),
    ensures
        scoped(resume_model(m, f, v).0),
{
    match f {
        FrameModel::Assign(_, _) => {
            lemma_resume_write(m, f, v, ex, callers);
        },
        FrameModel::Unary(_) => {
            lemma_resume_value(m, f, v, ex, callers);
        },
        FrameModel::BinaryLeft(_, _) => {
            lemma_resume_operand(m, f, v, ex, callers);
        },
        FrameModel::BinaryRight(_, _) => {
            lemma_resume_value(m, f, v, ex, callers);
        },
        FrameModel::Logical(_, _) => {
            lemma_resume_operand(m, f, v, ex, callers);
        },
        FrameModel::Callee(_, _) => {
            lemma_resume_call(m, f, v, ex, callers);
        },
        FrameModel::Args(_, _, _, _) => {
            lemma_resume_call(m, f, v, ex, callers);
        },
        FrameModel::Get(_) => {
            lemma_resume_write(m, f, v, ex, callers);
        },
        FrameModel::SetObject(_, _) => {
            lemma_resume_operand(m, f, v, ex, callers);
        },
        FrameModel::SetValue(_, _) => {
            lemma_resume_write(m, f, v, ex, callers);
        },
        FrameModel::Discard => {
            lemma_resume_value(m, f, v, ex, callers);
        },
        FrameModel::Print => {
            lemma_resume_value(m, f, v, ex, callers);
        },
        FrameModel::Var(_) => {
            lemma_resume_write(m, f, v, ex, callers);
        },
        FrameModel::Block(stmts, next, saved) => {
            lemma_resume_block(m, stmts, next, saved, v, ex, callers);
        },
        FrameModel::Program(stmts, next) => {
            lemma_resume_program(m, stmts, next, v, ex, callers);
        },
        FrameModel::If(_, _) => {
            lemma_resume_branch(m, f, v, ex, callers);
        },
        FrameModel::WhileCond(_, _) => {
            lemma_resume_branch(m, f, v, ex, callers);
        },
        FrameModel::WhileBody(_, _) => {
            lemma_resume_operand(m, f, v, ex, callers);
        },
        FrameModel::Return => {
            lemma_resume_value(m, f, v, ex, callers);
        },
        FrameModel::Superclass(name, methods) => {
            lemma_resume_superclass(m, name, methods, v, ex, callers);
        },
        FrameModel::Call(stmts, next, saved, closure, is_initializer) => {
            lemma_resume_body(m, stmts, next, saved, closure, is_initializer, v, ex, callers);
        },
        FrameModel::Construct(_) => {
            lemma_resume_value(m, f, v, ex, callers);
        },
    }
}

/// A `return` that passes a frame keeps the state well scoped.
proof fn lemma_unwind_step(m: MachineModel, f: FrameModel, v: ValueModel, callers: Seq<ResolverModel>)
    requires
        typed_heap(m.heap),
        typed_unwind(m.heap.envs, m.stack.push(f), callers),
    ensures
        scoped(unwind_model(m, f, v).0),
{
    lemma_push(m.heap.envs, m.stack, f);
    match f {
        FrameModel::Call(_, _, saved, closure, is_initializer) => {
            lemma_finish_call(
                m,
                saved,
                closure,
                is_initializer,
                v,
                callers.last(),
                callers.drop_last(),
            );
        },
        _ => {
            let after = unwind_model(m, f, v).0;
            assert(at_return(after, callers));
        },
    }
}

/// Depth correctness, the step: every transition takes a well-scoped state
/// to a well-scoped state, whatever the host answers.
pub proof fn a_transition_keeps_the_state_well_scoped(m: MachineModel, event: Event)
    requires
        scoped(m),
        roomy(m),
    ensures
        scoped(step_model(m, event).0),
{
    let idle = goto(m, ControlModel::Idle);
    match m.control {
        ControlModel::Idle => {},
        ControlModel::Expr(e) => {
            let (r, callers) = choose|r: ResolverModel, callers: Seq<ResolverModel>|
                at_expr(m, e, r, callers);
            assert(at_expr(idle, e, r, callers));
            lemma_eval(idle, e, r, callers);
        },
        ControlModel::Stmt(s) => {
            let (r, callers) = choose|r: ResolverModel, callers: Seq<ResolverModel>|
                at_stmt(m, s, r, callers);
            assert(at_stmt(idle, s, r, callers));
            lemma_exec(idle, s, r, callers);
        },
        ControlModel::Value(v) => {
            if m.stack.len() > 0 {
                let (ex, callers) = choose|ex: Expect, callers: Seq<ResolverModel>|
                    at_value(m, ex, callers);
                let below = popped(idle);
                assert(below.stack.push(m.stack.last()) =~= m.stack);
                assert(resumable(below, m.stack.last(), ex, callers));
                lemma_resume(below, m.stack.last(), v, ex, callers);
            }
        },
        ControlModel::Return(v) => {
            if m.stack.len() > 0 {
                let callers = choose|callers: Seq<ResolverModel>| at_return(m, callers);
                let below = popped(idle);
                assert(below.stack.push(m.stack.last()) =~= m.stack);
                lemma_unwind_step(below, m.stack.last(), v, callers);
            }
        },
        ControlModel::AwaitNumber => {
            let (r, callers) = choose|r: ResolverModel, callers: Seq<ResolverModel>|
                at_value(m, Expect::Value(r), callers);
            match event {
                Event::Number(n) => {
                    assert(at_value(idle, Expect::Value(r), callers));
                    lemma_value(
                        idle,
                        ControlModel::Value(ValueModel::Number(n)),
                        Expect::Value(r),
                        callers,
                    );
                },
                _ => {},
            }
        },
        ControlModel::AwaitTime => {
            let (r, callers) = choose|r: ResolverModel, callers: Seq<ResolverModel>|
                at_value(m, Expect::Value(r), callers);
            match event {
                Event::Time(s, n) => {
                    assert(at_value(idle, Expect::Value(r), callers));
                    lemma_value(
                        idle,
                        ControlModel::Value(ValueModel::Time(s, n)),
                        Expect::Value(r),
                        callers,
                    );
                },
                _ => {},
            }
        },
    }
}


/// The machine before any program is well scoped.
pub proof fn the_initial_state_is_well_scoped()
    ensures
        scoped(initial()),
        initial().globals < initial().heap.envs.len(),
{
}

/// Depth correctness, the start: a program that the resolver has resolved
/// is loaded into a well-scoped state, whatever ran in the interpreter
/// before.
pub proof fn a_resolved_program_is_loaded_well_scoped(
    m: MachineModel,
    program: Seq<StmtModel>,
    stmts: Seq<StmtModel>,
)
    requires
        typed_heap(m.heap),
        m.globals < m.heap.envs.len(),
        resolve_stmts_model(fresh_resolver(), program) matches Ok((_, out)) && out == stmts,
        shaped_all(stmts),
    ensures
        scoped(loaded(m, stmts)),
        loaded(m, stmts).globals == m.globals,
{
    crate::resolver::resolving_twice_changes_nothing(program);
    lemma_resolved_list(fresh_resolver(), stmts);
    let after = loaded(m, stmts);
    let callers = Seq::<ResolverModel>::empty();
    let f = FrameModel::Program(stmts, 0);
    let stack = Seq::<FrameModel>::empty().push(f);
    assert(after.stack =~= stack);
    lemma_push(m.heap.envs, Seq::<FrameModel>::empty(), f);
    assert(fresh_resolver().scopes.len() == 0);
    assert(all_ready(fresh_resolver().scopes));
    assert(typed_stack(
        after.heap.envs,
        stack.drop_last(),
        after.env,
        Expect::Done(fresh_resolver()),
        callers,
    ));
    assert(typed_stack(
        after.heap.envs,
        stack,
        after.env,
        Expect::Done(fresh_resolver()),
        callers,
    ));
    assert(at_value(after, Expect::Done(fresh_resolver()), callers));
}

/// Depth correctness, the run: any number of transitions take a
/// well-scoped state to a well-scoped state, as long as the list of
/// environments leaves room for two more.
pub proof fn a_run_keeps_the_state_well_scoped(m: MachineModel, event: Event, budget: nat)
    requires
        scoped(m),
        roomy(run_model(m, event, budget).0),
    ensures
        scoped(run_model(m, event, budget).0),
{
    let (m1, action) = step_model(m, event);
    crate::growth::a_transition_only_adds_to_the_heap(m, event);
    lemma_continue_roomy(m1, action, budget);
    a_transition_keeps_the_state_well_scoped(m, event);
    lemma_continue_scoped(m1, action, budget);
}

proof fn lemma_continue_roomy(m: MachineModel, action: ActionModel, budget: nat)
    ensures
        m.heap.envs.len() <= continue_model(m, action, budget).0.heap.envs.len(),
    decreases budget,
{
    if action is Continue && budget > 0 {
        crate::growth::a_transition_only_adds_to_the_heap(m, Event::Resume);
        let (m1, next) = step_model(m, Event::Resume);
        lemma_continue_roomy(m1, next, (budget - 1) as nat);
    }
}

proof fn lemma_continue_scoped(m: MachineModel, action: ActionModel, budget: nat)
    requires
        scoped(m),
        roomy(continue_model(m, action, budget).0),
    ensures
        scoped(continue_model(m, action, budget).0),
    decreases budget,
{
    if action is Continue && budget > 0 {
        let (m1, next) = step_model(m, Event::Resume);
        lemma_continue_roomy(m1, next, (budget - 1) as nat);
        crate::growth::a_transition_only_adds_to_the_heap(m, Event::Resume);
        a_transition_keeps_the_state_well_scoped(m, Event::Resume);
        lemma_continue_scoped(m1, next, (budget - 1) as nat);
    }
}

/// Depth correctness, the meaning: in a well-scoped state, the evaluation
/// of a variable whose slot is `d >= 0` does not fail: the frame `d` hops
/// from the current environment exists and binds the name, and the value is
/// the one bound there.
pub proof fn a_variable_with_a_slot_is_always_found(m: MachineModel, event: Event, name: TokenModel, d: i32)
    requires
        scoped(m),
        d >= 0,
        m.control == ControlModel::Expr(ExprModel::Variable(name, d)),
    ensures
        ancestor(m.heap.envs, m.env, d as nat) matches Some(f) && m.heap.envs[f as int].values.contains_key(
            name.lexeme,
        ) && step_model(m, event) == proceed(
            m,
            ControlModel::Value(m.heap.envs[f as int].values[name.lexeme]),
        ),
{
    let idle = goto(m, ControlModel::Idle);
    let e = m.control->Expr_0;
    let (r, callers) = choose|r: ResolverModel, callers: Seq<ResolverModel>|
        at_expr(m, e, r, callers);
    crate::resolver::lemma_depth_of(r.scopes, name.lexeme);
    crate::scoping::a_lookup_reads_the_frame_of_the_declaring_scope(
        m.heap.envs,
        m.env,
        r.scopes,
        name.lexeme,
        d as nat,
    );
}

/// Depth correctness of an assignment: in a well-scoped state, an
/// assignment whose slot is `d >= 0` finds the frame `d` hops from the
/// current environment; it writes to that frame and to no other if the
/// frame binds the name, and fails without writing if it does not.
pub proof fn an_assignment_with_a_slot_finds_its_frame(
    m: MachineModel,
    event: Event,
    name: TokenModel,
    d: i32,
    v: ValueModel,
)
    requires
        scoped(m),
        d >= 0,
        m.control == ControlModel::Value(v),
        m.stack.len() > 0,
        m.stack.last() == FrameModel::Assign(name, d),
    ensures
        ancestor(m.heap.envs, m.env, d as nat) matches Some(f) && step_model(m, event) == (
            if m.heap.envs[f as int].values.contains_key(name.lexeme) {
                proceed(
                    with_heap(
                        popped(m),
                        with_envs(m.heap, bind_in(m.heap.envs, f, name.lexeme, v)),
                    ),
                    ControlModel::Value(v),
                )
            } else {
                fail(popped(m), crate::machine::undefined_variable(name))
            }
        ),
{
    let (ex, callers) = choose|ex: Expect, callers: Seq<ResolverModel>| at_value(m, ex, callers);
    let r = state_of(ex);
    crate::resolver::lemma_depth_of(r.scopes, name.lexeme);
    lemma_chain(m.heap.envs, m.env, r.scopes, d as nat);
    let idle = goto(m, ControlModel::Idle);
    assert(popped(idle) == goto(popped(m), ControlModel::Idle));
}

/// Where the environments cover the scopes, the chain of environments is
/// at least as long as the stack of scopes.
proof fn lemma_chain(envs: Seq<EnvModel>, env: usize, scopes: crate::resolver::Scopes, d: nat)
    requires
        covers(envs, env, scopes),
        d < scopes.len(),
    ensures
        ancestor(envs, env, d) is Some,
    decreases d,
{
    if d > 0 {
        let p = envs[env as int].enclosing->Some_0;
        lemma_chain(envs, p, scopes.drop_last(), (d - 1) as nat);
    }
}


/// The resolver changes slots and nothing else: a statement of the
/// parser's shape keeps that shape when it is resolved.
pub proof fn lemma_resolve_keeps_shape(r: ResolverModel, s: StmtModel)
    requires
        shaped(s),
    ensures
        resolve_stmt_model(r, s) matches Ok((_, s1)) ==> shaped(s1) && declares(s1) == declares(s),
    decreases s, 1nat,
{
    match s {
        StmtModel::Block(stmts) => {
            lemma_resolve_list_keeps_shape(begin_scope_model(r), stmts);
        },
        StmtModel::Class(_, _, _) => {
            lemma_resolve_class_keeps_shape(r, s);
        },
        StmtModel::Func(name, _, _) => {
            match declare_model(r, name) {
                Ok(r1) => {
                    lemma_resolve_function_keeps_shape(
                        define_model(r1, name),
                        s,
                        FunctionType::Function,
                    );
                },
                Err(_) => {},
            }
        },
        StmtModel::If(_, then_branch, else_branch) => {
            lemma_resolve_keeps_shape(r, *then_branch);
            match (resolve_stmt_model(r, *then_branch), else_branch) {
                (Ok((r1, _)), Some(e)) => {
                    lemma_resolve_keeps_shape(r1, *e);
                },
                _ => {},
            }
        },
        StmtModel::While(_, body) => {
            lemma_resolve_keeps_shape(r, *body);
        },
        _ => {},
    }
}

proof fn lemma_resolve_class_keeps_shape(r: ResolverModel, s: StmtModel)
    requires
        shaped(s),
        s is Class,
    ensures
        resolve_stmt_model(r, s) matches Ok((_, s1)) ==> shaped(s1) && declares(s1) == declares(s),
    decreases s, 0nat,
{
    match s {
        StmtModel::Class(name, superclass, methods) => {
            match declare_model(with_class_type(r, ClassType::Class), name) {
                Ok(r1) => {
                    let r2 = define_model(r1, name);
                    match superclass {
                        Some(_) => {
                            let r3 = with_class_type(r2, ClassType::Subclass);
                            lemma_resolve_methods_keep_shape(method_state(r3), name, methods);
                        },
                        None => {
                            let r4 = with_scopes(
                                r2,
                                mark(begin_scope_model(r2).scopes, "this"@, true),
                            );
                            lemma_resolve_methods_keep_shape(r4, name, methods);
                        },
                    }
                },
                Err(_) => {},
            }
        },
        _ => {},
    }
}

/// The same of a list of statements, which keeps its length.
pub proof fn lemma_resolve_list_keeps_shape(r: ResolverModel, stmts: Seq<StmtModel>)
    requires
        shaped_all(stmts),
    ensures
        resolve_stmts_model(r, stmts) matches Ok((_, out)) ==> shaped_all(out) && out.len()
            == stmts.len(),
    decreases stmts, 0nat,
{
    if stmts.len() > 0 {
        let before = stmts.drop_last();
        assert(shaped_all(before)) by {
            assert forall|i: int| 0 <= i < before.len() implies shaped(#[trigger] before[i]) by {
                assert(before[i] == stmts[i]);
            }
        }
        lemma_resolve_list_keeps_shape(r, before);
        match resolve_stmts_model(r, before) {
            Ok((r1, done)) => {
                assert(shaped(stmts[stmts.len() - 1]));
                lemma_resolve_keeps_shape(r1, stmts.last());
                match resolve_stmt_model(r1, stmts.last()) {
                    Ok((_, s)) => {
                        let out = done.push(s);
                        assert forall|i: int| 0 <= i < out.len() implies shaped(
                            #[trigger] out[i],
                        ) by {
                            if i < done.len() {
                                assert(out[i] == done[i]);
                            }
                        }
                    },
                    Err(_) => {},
                }
            },
            Err(_) => {},
        }
    }
}

proof fn lemma_resolve_function_keeps_shape(r: ResolverModel, f: StmtModel, kind: FunctionType)
    requires
        shaped(f),
    ensures
        resolve_function_model(r, f, kind) matches Ok((_, f1)) ==> shaped(f1) && declares(f1)
            == declares(f),
    decreases f, 0nat,
{
    match f {
        StmtModel::Func(_, params, body) => {
            match declare_params_model(with_function_type(begin_scope_model(r), kind), params) {
                Ok(r1) => {
                    lemma_resolve_list_keeps_shape(r1, body);
                },
                Err(_) => {},
            }
        },
        _ => {},
    }
}

proof fn lemma_resolve_methods_keep_shape(
    r: ResolverModel,
    class: TokenModel,
    methods: Seq<StmtModel>,
)
    requires
        shaped_all(methods),
    ensures
        resolve_methods_model(r, class, methods) matches Ok((_, out)) ==> shaped_all(out)
            && out.len() == methods.len(),
    decreases methods, 1nat,
{
    if methods.len() > 0 {
        let before = methods.drop_last();
        assert(shaped_all(before)) by {
            assert forall|i: int| 0 <= i < before.len() implies shaped(#[trigger] before[i]) by {
                assert(before[i] == methods[i]);
            }
        }
        lemma_resolve_methods_keep_shape(r, class, before);
        match (resolve_methods_model(r, class, before), methods.last()) {
            (Ok((r1, done)), StmtModel::Func(name, _, _)) => {
                assert(shaped(methods[methods.len() - 1]));
                lemma_resolve_function_keeps_shape(r1, methods.last(), method_kind(name.lexeme));
                match resolve_function_model(r1, methods.last(), method_kind(name.lexeme)) {
                    Ok((_, m)) => {
                        let out = done.push(m);
                        assert forall|i: int| 0 <= i < out.len() implies shaped(
                            #[trigger] out[i],
                        ) by {
                            if i < done.len() {
                                assert(out[i] == done[i]);
                            }
                        }
                    },
                    Err(_) => {},
                }
            },
            _ => {},
        }
    }
}

/// Depth correctness, from the parser's program: a program of the
/// parser's shape that the resolver resolves is loaded, resolved, into a
/// well-scoped state.
pub proof fn a_program_that_resolves_is_loaded_well_scoped(
    m: MachineModel,
    program: Seq<StmtModel>,
)
    requires
        typed_heap(m.heap),
        m.globals < m.heap.envs.len(),
        shaped_all(program),
    ensures
        resolve_stmts_model(fresh_resolver(), program) matches Ok((_, stmts)) ==> scoped(
            loaded(m, stmts),
        ),
{
    lemma_resolve_list_keeps_shape(fresh_resolver(), program);
    match resolve_stmts_model(fresh_resolver(), program) {
        Ok((_, stmts)) => {
            a_resolved_program_is_loaded_well_scoped(m, program, stmts);
        },
        Err(_) => {},
    }
}

} // verus!
