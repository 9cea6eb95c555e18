//! What no transition of the machine undoes: a frame, a function, a class
//! or an instance, once made, stays at its index; a frame keeps its
//! enclosing frame and every binding it has; a function and a class are
//! never changed; an instance keeps its class and every field it has.
use crate::env::{EnvModel, bind_in, frame_of, lemma_frame_of_binds};
use crate::expr::ExprModel;
use crate::heap::{HeapModel, bind_model};
use crate::lox_function::FunctionModel;
use crate::lox_instance::property_model;
use crate::lox_value::ValueModel;
use crate::machine::{
    ActionModel, ControlModel, Event, FrameModel, MachineModel, call_class_model,
    call_function_model, call_value_model, continue_model, declare_class_model, define_in,
    eval_model, exec_model, finish_call_model, initializer, method_functions, resume_model,
    run_model, step_model, super_model, unwind_model,
};
use crate::resolver::Scopes;
use crate::scoping::{covers, extends, lemma_covers_extends};
use crate::stmt::StmtModel;
use crate::token::TokenModel;
use vstd::prelude::*;

verus! {

/// Whether the heap `after` holds everything that the heap `before` holds.
pub open spec fn grows(before: HeapModel, after: HeapModel) -> bool {
    &&& extends(before.envs, after.envs)
    &&& before.functions.len() <= after.functions.len()
    &&& forall|i: int| 0 <= i < before.functions.len() ==> #[trigger] after.functions[i] == before.functions[i]
    &&& before.methods.len() <= after.methods.len()
    &&& forall|i: int| 0 <= i < before.methods.len() ==> #[trigger] after.methods[i] == before.methods[i]
    &&& before.classes.len() <= after.classes.len()
    &&& forall|i: int| 0 <= i < before.classes.len() ==> #[trigger] after.classes[i] == before.classes[i]
    &&& before.instances.len() <= after.instances.len()
    &&& forall|i: int|
        0 <= i < before.instances.len() ==> (#[trigger] after.instances[i]).klass
            == before.instances[i].klass
    &&& forall|i: int, name: Seq<char>|
        0 <= i < before.instances.len() && before.instances[i].fields.contains_key(name)
            ==> (#[trigger] after.instances[i].fields.contains_key(name))
}

pub proof fn lemma_grows_transitive(a: HeapModel, b: HeapModel, c: HeapModel)
    requires
        grows(a, b),
        grows(b, c),
    ensures
        grows(a, c),
{
    assert forall|i: int| 0 <= i < a.envs.len() implies (#[trigger] c.envs[i]).enclosing
        == a.envs[i].enclosing by {
        assert(b.envs[i].enclosing == a.envs[i].enclosing);
    }
    assert forall|i: int, name: Seq<char>|
        0 <= i < a.envs.len() && a.envs[i].values.contains_key(
            name,
        ) implies #[trigger] c.envs[i].values.contains_key(name) by {
        assert(b.envs[i].values.contains_key(name));
    }
    assert forall|i: int| 0 <= i < a.functions.len() implies #[trigger] c.functions[i]
        == a.functions[i] by {
        assert(b.functions[i] == a.functions[i]);
    }
    assert forall|i: int| 0 <= i < a.methods.len() implies #[trigger] c.methods[i]
        == a.methods[i] by {
        assert(b.methods[i] == a.methods[i]);
    }
    assert forall|i: int| 0 <= i < a.classes.len() implies #[trigger] c.classes[i]
        == a.classes[i] by {
        assert(b.classes[i] == a.classes[i]);
    }
    assert forall|i: int| 0 <= i < a.instances.len() implies (#[trigger] c.instances[i]).klass
        == a.instances[i].klass by {
        assert(b.instances[i].klass == a.instances[i].klass);
    }
    assert forall|i: int, name: Seq<char>|
        0 <= i < a.instances.len() && a.instances[i].fields.contains_key(
            name,
        ) implies #[trigger] c.instances[i].fields.contains_key(name) by {
        assert(b.instances[i].fields.contains_key(name));
    }
}

pub proof fn lemma_bind_in_extends(envs: Seq<EnvModel>, f: usize, name: Seq<char>, v: ValueModel)
    ensures
        extends(envs, bind_in(envs, f, name, v)),
{
}

pub proof fn lemma_define_grows(heap: HeapModel, env: usize, name: Seq<char>, v: ValueModel)
    ensures
        grows(heap, define_in(heap, env, name, v)),
{
    lemma_bind_in_extends(heap.envs, env, name, v);
}

pub proof fn lemma_bind_grows(heap: HeapModel, m: usize, instance: ValueModel)
    ensures
        grows(heap, bind_model(heap, m, instance)),
{
}

pub proof fn lemma_property_grows(heap: HeapModel, id: usize, name: TokenModel)
    ensures
        grows(heap, property_model(heap, id, name).0),
{
}

pub proof fn lemma_method_functions(functions: Seq<FunctionModel>, methods: Seq<StmtModel>, closure: usize)
    ensures
        functions.len() <= method_functions(functions, methods, closure).len(),
        forall|i: int|
            0 <= i < functions.len() ==> #[trigger] method_functions(functions, methods, closure)[i]
                == functions[i],
    decreases methods.len(),
{
    if methods.len() > 0 {
        lemma_method_functions(functions, methods.drop_last(), closure);
    }
}

pub proof fn lemma_declare_class_grows(
    m: MachineModel,
    name: TokenModel,
    superclass: Option<usize>,
    methods: Seq<StmtModel>,
)
    ensures
        grows(m.heap, declare_class_model(m, name, superclass, methods).0.heap),
{
    let heap1 = define_in(m.heap, m.env, name.lexeme, ValueModel::Nil);
    lemma_define_grows(m.heap, m.env, name.lexeme, ValueModel::Nil);
    let heap2 = match superclass {
        Some(sc) => crate::heap::with_env(heap1, crate::machine::super_frame(m.env, sc)),
        None => heap1,
    };
    let closure = match superclass {
        Some(_) => heap1.envs.len() as usize,
        None => m.env,
    };
    lemma_method_functions(heap2.methods, methods, closure);
    let heap3 = crate::machine::with_methods(
        heap2,
        method_functions(heap2.methods, methods, closure),
    );
    assert(grows(heap1, heap2));
    assert(grows(heap2, heap3));
    lemma_grows_transitive(m.heap, heap1, heap2);
    lemma_grows_transitive(m.heap, heap2, heap3);
    let after = declare_class_model(m, name, superclass, methods).0.heap;
    if crate::machine::all_functions(methods) {
        assert(grows(heap3, after)) by {
            let class = crate::lox_class::ClassModel {
                name: name.lexeme,
                superclass,
                methods: crate::machine::method_table(heap2.methods, methods, closure),
            };
            let heap4 = crate::machine::with_class(heap3, class);
            assert(grows(heap3, heap4));
            match frame_of(heap4.envs, m.env, name.lexeme) {
                Some(f) => {
                    lemma_bind_in_extends(
                        heap4.envs,
                        f,
                        name.lexeme,
                        ValueModel::Class(heap3.classes.len() as usize),
                    );
                },
                None => {},
            }
            lemma_grows_transitive(heap3, heap4, after);
        }
        lemma_grows_transitive(m.heap, heap3, after);
    }
}

pub proof fn lemma_call_function_grows(m: MachineModel, f: FunctionModel, args: Seq<ValueModel>)
    ensures
        grows(m.heap, call_function_model(m, f, args).0.heap),
{
}

pub proof fn lemma_call_class_grows(m: MachineModel, c: usize, args: Seq<ValueModel>)
    ensures
        grows(m.heap, call_class_model(m, c, args).0.heap),
{
    let heap1 = crate::heap::with_instance(m.heap, crate::lox_instance::fresh_instance(c));
    assert(grows(m.heap, heap1));
    match initializer(m.heap, c) {
        Some(i) => {
            let id = m.heap.instances.len() as usize;
            let heap2 = bind_model(heap1, i, ValueModel::Instance(id));
            lemma_bind_grows(heap1, i, ValueModel::Instance(id));
            lemma_grows_transitive(m.heap, heap1, heap2);
            let m2 = crate::machine::pushed(
                crate::machine::with_heap(m, heap2),
                FrameModel::Construct(id),
            );
            lemma_call_function_grows(m2, heap2.functions.last(), args);
            lemma_grows_transitive(
                m.heap,
                heap2,
                call_function_model(m2, heap2.functions.last(), args).0.heap,
            );
        },
        None => {},
    }
}

pub proof fn lemma_call_value_grows(
    m: MachineModel,
    callee: ValueModel,
    args: Seq<ValueModel>,
    paren: TokenModel,
)
    ensures
        grows(m.heap, call_value_model(m, callee, args, paren).0.heap),
{
    match callee {
        ValueModel::Fn(f) => {
            if f < m.heap.functions.len() {
                lemma_call_function_grows(m, m.heap.functions[f as int], args);
            }
        },
        ValueModel::Class(c) => {
            lemma_call_class_grows(m, c, args);
        },
        _ => {},
    }
}

pub proof fn lemma_super_grows(m: MachineModel, keyword: TokenModel, method: TokenModel, slot: i32)
    ensures
        grows(m.heap, super_model(m, keyword, method, slot).0.heap),
{
}

pub proof fn lemma_eval_grows(m: MachineModel, e: ExprModel)
    ensures
        grows(m.heap, eval_model(m, e).0.heap),
{
    match e {
        ExprModel::Super(keyword, method, slot) => {
            lemma_super_grows(m, keyword, method, slot);
        },
        _ => {},
    }
}

pub proof fn lemma_exec_grows(m: MachineModel, s: StmtModel)
    ensures
        grows(m.heap, exec_model(m, s).0.heap),
{
    match s {
        StmtModel::Class(name, superclass, methods) => {
            if superclass is None {
                lemma_declare_class_grows(m, name, None, methods);
            }
        },
        StmtModel::Func(name, params, body) => {
            let f = FunctionModel { name, params, body, closure: m.env, is_initializer: false };
            let heap1 = crate::heap::with_function(m.heap, f);
            assert(grows(m.heap, heap1));
            lemma_define_grows(
                heap1,
                m.env,
                name.lexeme,
                ValueModel::Fn(m.heap.functions.len() as usize),
            );
            lemma_grows_transitive(
                m.heap,
                heap1,
                define_in(heap1, m.env, name.lexeme, ValueModel::Fn(m.heap.functions.len() as usize)),
            );
        },
        StmtModel::Var(name, init) => {
            lemma_define_grows(m.heap, m.env, name.lexeme, ValueModel::Nil);
        },
        _ => {},
    }
}

pub proof fn lemma_finish_call_grows(
    m: MachineModel,
    saved: usize,
    closure: usize,
    is_initializer: bool,
    v: ValueModel,
)
    ensures
        finish_call_model(m, saved, closure, is_initializer, v).0.heap == m.heap,
{
}

pub proof fn lemma_resume_grows(m: MachineModel, f: FrameModel, v: ValueModel)
    ensures
        grows(m.heap, resume_model(m, f, v).0.heap),
{
    match f {
        FrameModel::Assign(name, slot) => {
            match crate::machine::assign_target(m, name, slot) {
                Some(t) => {
                    lemma_bind_in_extends(m.heap.envs, t, name.lexeme, v);
                },
                None => {},
            }
        },
        FrameModel::Callee(paren, args) => {
            lemma_call_value_grows(m, v, Seq::empty(), paren);
        },
        FrameModel::Args(paren, args, callee, done) => {
            lemma_call_value_grows(m, callee, done.push(v), paren);
        },
        FrameModel::Get(name) => {
            match v {
                ValueModel::Instance(id) => {
                    lemma_property_grows(m.heap, id, name);
                },
                _ => {},
            }
        },
        FrameModel::SetValue(name, id) => {},
        FrameModel::Var(name) => {
            lemma_define_grows(m.heap, m.env, name.lexeme, v);
        },
        FrameModel::Superclass(name, methods) => {
            match v {
                ValueModel::Class(c) => {
                    lemma_declare_class_grows(m, name, Some(c), methods);
                },
                _ => {},
            }
        },
        FrameModel::Call(stmts, next, saved, closure, is_initializer) => {
            lemma_finish_call_grows(m, saved, closure, is_initializer, ValueModel::Nil);
        },
        _ => {},
    }
}

pub proof fn lemma_unwind_grows(m: MachineModel, f: FrameModel, v: ValueModel)
    ensures
        unwind_model(m, f, v).0.heap == m.heap,
{
}

/// No transition undoes anything in the heap: whatever the state and the
/// host's answer, the heap after the transition holds everything that the
/// heap before it holds. Assignments write only to names that are bound,
/// and only definitions, calls and the binding of methods add frames and
/// bindings.
pub proof fn a_transition_only_adds_to_the_heap(m: MachineModel, event: Event)
    ensures
        grows(m.heap, step_model(m, event).0.heap),
        step_model(m, event).0.globals == m.globals,
{
    let idle = crate::machine::goto(m, ControlModel::Idle);
    match m.control {
        ControlModel::Expr(e) => {
            lemma_eval_grows(idle, e);
            lemma_eval_keeps_globals(idle, e);
        },
        ControlModel::Stmt(s) => {
            lemma_exec_grows(idle, s);
            lemma_exec_keeps_globals(idle, s);
        },
        ControlModel::Value(v) => {
            if m.stack.len() > 0 {
                lemma_resume_grows(crate::machine::popped(idle), m.stack.last(), v);
                lemma_resume_keeps_globals(crate::machine::popped(idle), m.stack.last(), v);
            }
        },
        ControlModel::Return(v) => {
            if m.stack.len() > 0 {
                lemma_unwind_grows(crate::machine::popped(idle), m.stack.last(), v);
            }
        },
        _ => {},
    }
}

proof fn lemma_eval_keeps_globals(m: MachineModel, e: ExprModel)
    ensures
        eval_model(m, e).0.globals == m.globals,
{
}

proof fn lemma_exec_keeps_globals(m: MachineModel, s: StmtModel)
    ensures
        exec_model(m, s).0.globals == m.globals,
{
}

proof fn lemma_resume_keeps_globals(m: MachineModel, f: FrameModel, v: ValueModel)
    ensures
        resume_model(m, f, v).0.globals == m.globals,
{
}

/// The same of any number of transitions.
pub proof fn a_run_only_adds_to_the_heap(m: MachineModel, event: Event, budget: nat)
    ensures
        grows(m.heap, run_model(m, event, budget).0.heap),
{
    a_transition_only_adds_to_the_heap(m, event);
    let (m1, action) = step_model(m, event);
    lemma_continue_grows(m1, action, budget);
    lemma_grows_transitive(m.heap, m1.heap, continue_model(m1, action, budget).0.heap);
}

proof fn lemma_continue_grows(m: MachineModel, action: ActionModel, budget: nat)
    ensures
        grows(m.heap, continue_model(m, action, budget).0.heap),
    decreases budget,
{
    if action is Continue && budget > 0 {
        a_transition_only_adds_to_the_heap(m, Event::Resume);
        let (m1, next) = step_model(m, Event::Resume);
        lemma_continue_grows(m1, next, (budget - 1) as nat);
        lemma_grows_transitive(
            m.heap,
            m1.heap,
            continue_model(m1, next, (budget - 1) as nat).0.heap,
        );
    }
}

/// Once the environments cover the scopes of a piece of the program, they
/// do so after any number of transitions: an environment that a closure
/// captured still has a frame for every scope when the closure is called,
/// however much has run in between.
pub proof fn a_cover_outlasts_every_transition(
    m: MachineModel,
    event: Event,
    budget: nat,
    env: usize,
    scopes: Scopes,
)
    requires
        covers(m.heap.envs, env, scopes),
    ensures
        covers(run_model(m, event, budget).0.heap.envs, env, scopes),
        covers(step_model(m, event).0.heap.envs, env, scopes),
{
    a_run_only_adds_to_the_heap(m, event, budget);
    a_transition_only_adds_to_the_heap(m, event);
    lemma_covers_extends(m.heap.envs, run_model(m, event, budget).0.heap.envs, env, scopes);
    lemma_covers_extends(m.heap.envs, step_model(m, event).0.heap.envs, env, scopes);
}

/// An assignment creates no binding: the frame that it writes to binds the
/// name already, and where no frame does, the program fails and the heap
/// stays as it is.
pub proof fn an_assignment_creates_no_binding(m: MachineModel, name: TokenModel, slot: i32, v: ValueModel)
    ensures
        ({
            let after = resume_model(m, FrameModel::Assign(name, slot), v).0;
            &&& after.heap.envs.len() == m.heap.envs.len()
            &&& forall|i: int|
                0 <= i < m.heap.envs.len() ==> (#[trigger] after.heap.envs[i]).values.dom()
                    =~= m.heap.envs[i].values.dom()
            &&& crate::machine::assign_target(m, name, slot) is None ==> after.heap == m.heap
        }),
{
    match crate::machine::assign_target(m, name, slot) {
        Some(t) => {
            if slot < 0 {
                lemma_frame_of_binds(m.heap.envs, m.globals, name.lexeme);
            }
            assert(m.heap.envs[t as int].values.contains_key(name.lexeme));
            assert(m.heap.envs[t as int].values.insert(name.lexeme, v).dom()
                =~= m.heap.envs[t as int].values.dom());
        },
        None => {},
    }
}

} // verus!
