//! The evaluator as a mathematical machine: its states, and the function
//! that takes a state and the host's answer to the next state and the next
//! request to the host. Everything the interpreter does is stated here;
//! the executable interpreter is proved to compute exactly this function.
use crate::env::{EnvModel, bind_in, frame_at, frame_of, get_at_model, get_model, local};
use crate::error::{ErrorModel, runtime_error};
use crate::expr::ExprModel;
use crate::heap::{HeapModel, bind_model, with_env, with_envs, with_function, with_instance};
use crate::lox_class::{ClassModel, find_method_model};
use crate::lox_function::FunctionModel;
use crate::lox_instance::{InstanceModel, fresh_instance, property_model, undefined_property};
use crate::lox_value::{
    ArithOp, Comparison, OutcomeModel, ValueModel, arithmetic_model, comparison_model,
    negate_number_model, plus_model, truthy, values_equal,
};
use crate::native_fn::ClockFn;
use crate::stmt::StmtModel;
use crate::text::decimal;
use crate::token::{LiteralModel, TokenModel, TokenType};
use vstd::prelude::*;

verus! {

/// What the host hands back to the machine.
#[derive(Copy, Clone, Debug, PartialEq, Eq, Structural)]
pub enum Event {
    /// Nothing was asked, or what was asked needs no answer.
    Resume,
    /// The double that was asked for, as its bits.
    Number(u64),
    /// The instant that was asked for: seconds and nanoseconds since the
    /// Unix epoch.
    Time(u64, u32),
}

/// What a `print` statement writes.
pub enum OutputModel {
    Text(Seq<char>),
    Number(u64),
    Time(u64, u32),
}

/// What the machine asks of the host.
pub enum ActionModel {
    /// Nothing: the machine has more transitions to make.
    Continue,
    /// Write this and a newline to standard output.
    Print(OutputModel),
    /// Compute `left op right` on two doubles and answer with the result.
    Arithmetic(ArithOp, u64, u64),
    /// Turn this decimal text into the nearest double and answer with it.
    ParseNumber(Seq<char>),
    /// Answer with the current wall-clock instant.
    Clock,
    /// The program has run to its end.
    Done,
    /// The program has failed; the machine is back at global level.
    Error(ErrorModel),
}

/// What the machine is about to do.
pub enum ControlModel {
    /// No program is loaded, or the program has ended.
    Idle,
    /// Evaluate this expression in the current environment.
    Expr(ExprModel),
    /// Execute this statement in the current environment.
    Stmt(StmtModel),
    /// Hand this value to the frame on top of the stack.
    Value(ValueModel),
    /// A `return` is unwinding the stack with this value.
    Return(ValueModel),
    /// The host was asked for a double.
    AwaitNumber,
    /// The host was asked for the time.
    AwaitTime,
}

/// One frame of the stack: what remains to be done with a value once it is
/// known.
pub enum FrameModel {
    /// Store the value under this name at this slot.
    Assign(TokenModel, i32),
    /// Apply this unary operator.
    Unary(TokenModel),
    /// The left operand is known: evaluate the right one.
    BinaryLeft(TokenModel, ExprModel),
    /// The right operand is known: apply the operator to this left one.
    BinaryRight(TokenModel, ValueModel),
    /// The left operand of `or` / `and` is known.
    Logical(TokenModel, ExprModel),
    /// The callee is known: evaluate these arguments.
    Callee(TokenModel, Seq<ExprModel>),
    /// One more argument is known; callee and the arguments before it.
    Args(TokenModel, Seq<ExprModel>, ValueModel, Seq<ValueModel>),
    /// The object is known: read this property.
    Get(TokenModel),
    /// The object is known: evaluate what to write to this property.
    SetObject(TokenModel, ExprModel),
    /// Write the value to this property of this instance.
    SetValue(TokenModel, usize),
    /// An expression statement: drop the value.
    Discard,
    /// Print the value.
    Print,
    /// Define this variable with the value.
    Var(TokenModel),
    /// A block: its statements, the next one to run, and the environment to
    /// go back to.
    Block(Seq<StmtModel>, usize, usize),
    /// The statements of the program at global level and the next to run.
    Program(Seq<StmtModel>, usize),
    /// The condition is known: run one of the branches.
    If(StmtModel, Option<StmtModel>),
    /// The condition of a loop is known.
    WhileCond(ExprModel, StmtModel),
    /// The body of a loop has run.
    WhileBody(ExprModel, StmtModel),
    /// Return the value.
    Return,
    /// The superclass is known: declare this class with these methods.
    Superclass(TokenModel, Seq<StmtModel>),
    /// A call: the body, the next statement to run, the caller's
    /// environment, the callee's closure, whether it is an initializer.
    Call(Seq<StmtModel>, usize, usize, usize, bool),
    /// A construction: whatever the initializer gives, the result is this
    /// instance.
    Construct(usize),
}

/// A state of the machine.
pub struct MachineModel {
    pub heap: HeapModel,
    /// The current environment.
    pub env: usize,
    /// The environment of the globals.
    pub globals: usize,
    pub control: ControlModel,
    pub stack: Seq<FrameModel>,
}

pub open spec fn goto(m: MachineModel, control: ControlModel) -> MachineModel {
    MachineModel { heap: m.heap, env: m.env, globals: m.globals, control, stack: m.stack }
}

pub open spec fn with_heap(m: MachineModel, heap: HeapModel) -> MachineModel {
    MachineModel { heap, env: m.env, globals: m.globals, control: m.control, stack: m.stack }
}

pub open spec fn in_env(m: MachineModel, env: usize) -> MachineModel {
    MachineModel { heap: m.heap, env, globals: m.globals, control: m.control, stack: m.stack }
}

pub open spec fn pushed(m: MachineModel, f: FrameModel) -> MachineModel {
    MachineModel {
        heap: m.heap,
        env: m.env,
        globals: m.globals,
        control: m.control,
        stack: m.stack.push(f),
    }
}

pub open spec fn popped(m: MachineModel) -> MachineModel {
    MachineModel {
        heap: m.heap,
        env: m.env,
        globals: m.globals,
        control: m.control,
        stack: m.stack.drop_last(),
    }
}

/// The machine goes on with `control`.
pub open spec fn proceed(m: MachineModel, control: ControlModel) -> (MachineModel, ActionModel) {
    (goto(m, control), ActionModel::Continue)
}

/// The program fails: the stack is dropped, the machine is idle at global
/// level, and the heap stays as it is.
pub open spec fn fail(m: MachineModel, e: ErrorModel) -> (MachineModel, ActionModel) {
    (
        MachineModel {
            heap: m.heap,
            env: m.globals,
            globals: m.globals,
            control: ControlModel::Idle,
            stack: Seq::empty(),
        },
        ActionModel::Error(e),
    )
}

pub open spec fn undefined_variable(name: TokenModel) -> ErrorModel {
    runtime_error("undefined variable: "@ + name.lexeme, Some(name.line))
}

pub open spec fn invalid_operator(op: TokenModel) -> ErrorModel {
    runtime_error("invalid operator"@, Some(op.line))
}

pub open spec fn not_callable(paren: TokenModel) -> ErrorModel {
    runtime_error("can only call functions and classes"@, Some(paren.line))
}

pub open spec fn wrong_arity(name: Seq<char>, expected: nat, got: nat, paren: TokenModel) -> ErrorModel {
    runtime_error(
        "wrong number of arguments in `"@ + name + "`\nexpected: "@ + decimal(expected)
            + "\ngot: "@ + decimal(got),
        Some(paren.line),
    )
}

pub open spec fn not_an_instance(name: TokenModel) -> ErrorModel {
    runtime_error("only instances have properties"@, Some(name.line))
}

pub open spec fn no_fields(name: TokenModel) -> ErrorModel {
    runtime_error("only instances have fields"@, Some(name.line))
}

pub open spec fn superclass_is_no_class(name: TokenModel) -> ErrorModel {
    runtime_error("superclass must be a class"@, Some(name.line))
}

pub open spec fn method_is_no_function(name: TokenModel) -> ErrorModel {
    runtime_error("only functions can be methods of a class"@, Some(name.line))
}

pub open spec fn unbound_initializer() -> ErrorModel {
    runtime_error("initializer is not bound to an instance"@, None)
}

pub open spec fn return_at_top_level() -> ErrorModel {
    runtime_error("can't return from top-level code"@, None)
}

pub open spec fn unexpected_event() -> ErrorModel {
    runtime_error("the host answered with something that was not asked for"@, None)
}

/// The error with the line of the operator that raised it.
pub open spec fn at_line(e: ErrorModel, line: usize) -> ErrorModel {
    ErrorModel { kind: e.kind, msg: e.msg, line: Some(line) }
}

/// The value of a variable: a global is searched for from the environment
/// of the globals; any other is read at its slot's distance from the
/// current environment, without a search.
pub open spec fn lookup_variable_model(m: MachineModel, name: TokenModel, slot: i32) -> Option<
    ValueModel,
> {
    if slot < 0 {
        get_model(m.heap.envs, m.globals, name.lexeme)
    } else {
        get_at_model(m.heap.envs, m.env, name.lexeme, slot)
    }
}

/// The frame that an assignment writes to, found as the variable is.
pub open spec fn assign_target(m: MachineModel, name: TokenModel, slot: i32) -> Option<usize> {
    if slot < 0 {
        frame_of(m.heap.envs, m.globals, name.lexeme)
    } else {
        frame_at(m.heap.envs, m.env, name.lexeme, slot)
    }
}

/// The heap after `name` is defined as `v` in environment `env`.
pub open spec fn define_in(heap: HeapModel, env: usize, name: Seq<char>, v: ValueModel) -> HeapModel {
    with_envs(heap, bind_in(heap.envs, env, name, v))
}

/// The heap after `v` is written to field `name` of instance `id`.
pub open spec fn set_field(heap: HeapModel, id: usize, name: Seq<char>, v: ValueModel) -> HeapModel {
    HeapModel {
        envs: heap.envs,
        functions: heap.functions,
        methods: heap.methods,
        classes: heap.classes,
        instances: heap.instances.update(
            id as int,
            InstanceModel {
                klass: heap.instances[id as int].klass,
                fields: heap.instances[id as int].fields.insert(name, v),
            },
        ),
    }
}

/// The heap with one more class.
pub open spec fn with_class(heap: HeapModel, c: ClassModel) -> HeapModel {
    HeapModel {
        envs: heap.envs,
        functions: heap.functions,
        methods: heap.methods,
        classes: heap.classes.push(c),
        instances: heap.instances,
    }
}

/// The heap with other methods.
pub open spec fn with_methods(heap: HeapModel, methods: Seq<FunctionModel>) -> HeapModel {
    HeapModel {
        envs: heap.envs,
        functions: heap.functions,
        methods,
        classes: heap.classes,
        instances: heap.instances,
    }
}

/// What a binary operator makes of two values.
pub open spec fn binary_model(op: TokenModel, left: ValueModel, right: ValueModel) -> Result<
    OutcomeModel,
    ErrorModel,
> {
    match op.token_type {
        TokenType::Minus => arithmetic_model(ArithOp::Subtract, left, right),
        TokenType::Plus => plus_model(left, right),
        TokenType::Star => arithmetic_model(ArithOp::Multiply, left, right),
        TokenType::Slash => arithmetic_model(ArithOp::Divide, left, right),
        TokenType::Greater => known(comparison_model(Comparison::Greater, left, right)),
        TokenType::GreaterEqual => known(comparison_model(Comparison::GreaterEqual, left, right)),
        TokenType::Less => known(comparison_model(Comparison::Less, left, right)),
        TokenType::LessEqual => known(comparison_model(Comparison::LessEqual, left, right)),
        TokenType::EqualEqual => Ok(
            OutcomeModel::Value(ValueModel::Bool(values_equal(left, right))),
        ),
        TokenType::BangEqual => Ok(
            OutcomeModel::Value(ValueModel::Bool(!values_equal(left, right))),
        ),
        _ => Err(invalid_operator(op)),
    }
}

/// A value that needs nothing from the host, as an outcome.
pub open spec fn known(r: Result<ValueModel, ErrorModel>) -> Result<OutcomeModel, ErrorModel> {
    match r {
        Ok(v) => Ok(OutcomeModel::Value(v)),
        Err(e) => Err(e),
    }
}

/// The text form of a value. A number and an instant are handed to the host
/// as they are, which writes a number as the shortest decimal that reads
/// back as the same double.
pub open spec fn render_model(heap: HeapModel, v: ValueModel) -> OutputModel {
    match v {
        ValueModel::Number(n) => OutputModel::Number(n),
        ValueModel::Str(s) => OutputModel::Text(s),
        ValueModel::Bool(b) => OutputModel::Text(
            if b {
                "true"@
            } else {
                "false"@
            },
        ),
        ValueModel::Time(s, n) => OutputModel::Time(s, n),
        ValueModel::Native(_) => OutputModel::Text("<fn clock>"@),
        ValueModel::Fn(f) => OutputModel::Text(
            if f < heap.functions.len() {
                "<fn "@ + heap.functions[f as int].name.lexeme + ">"@
            } else {
                "<fn>"@
            },
        ),
        ValueModel::Class(c) => OutputModel::Text(class_name(heap, c)),
        ValueModel::Instance(i) => OutputModel::Text(
            if i < heap.instances.len() {
                class_name(heap, heap.instances[i as int].klass) + " instance"@
            } else {
                "instance"@
            },
        ),
        ValueModel::Nil => OutputModel::Text("nil"@),
    }
}

/// The name of class `c`; empty where there is no such class.
pub open spec fn class_name(heap: HeapModel, c: usize) -> Seq<char> {
    if c < heap.classes.len() {
        heap.classes[c as int].name
    } else {
        Seq::empty()
    }
}

/// The bindings of a call: each parameter bound to its argument, in order.
pub open spec fn bind_params(params: Seq<TokenModel>, args: Seq<ValueModel>) -> Map<
    Seq<char>,
    ValueModel,
>
    decreases params.len(),
{
    if params.len() == 0 || args.len() < params.len() {
        Map::empty()
    } else {
        bind_params(params.drop_last(), args).insert(
            params.last().lexeme,
            args[params.len() - 1],
        )
    }
}

/// A call of a user function whose arity has been checked: a new
/// environment, enclosed by the function's closure and not by the caller's
/// environment, holds the arguments; the body runs in it; a frame on the
/// stack remembers the caller's environment.
pub open spec fn call_function_model(m: MachineModel, f: FunctionModel, args: Seq<ValueModel>) -> (
    MachineModel,
    ActionModel,
) {
    let env = EnvModel { values: bind_params(f.params, args), enclosing: Some(f.closure) };
    let m1 = with_heap(m, with_env(m.heap, env));
    let m2 = pushed(m1, FrameModel::Call(f.body, 0, m.env, f.closure, f.is_initializer));
    proceed(in_env(m2, m.heap.envs.len() as usize), ControlModel::Value(ValueModel::Nil))
}

/// The initializer of class `c`, if the class or one above it has one.
pub open spec fn initializer(heap: HeapModel, c: usize) -> Option<usize> {
    match find_method_model(heap.classes, c, "init"@) {
        Some(i) => if i < heap.methods.len() {
            Some(i)
        } else {
            None
        },
        None => None,
    }
}

/// The number of arguments that class `c` takes: that of its initializer,
/// or none.
pub open spec fn class_arity(heap: HeapModel, c: usize) -> nat {
    match initializer(heap, c) {
        Some(i) => heap.methods[i as int].params.len(),
        None => 0,
    }
}

/// A call of class `c` whose arity has been checked: a new instance; where
/// there is an initializer it is bound to the instance and called, and
/// whatever it gives, the result is the instance.
pub open spec fn call_class_model(m: MachineModel, c: usize, args: Seq<ValueModel>) -> (
    MachineModel,
    ActionModel,
) {
    let id = m.heap.instances.len() as usize;
    let heap1 = with_instance(m.heap, fresh_instance(c));
    match initializer(m.heap, c) {
        Some(i) => {
            let heap2 = bind_model(heap1, i, ValueModel::Instance(id));
            call_function_model(
                pushed(with_heap(m, heap2), FrameModel::Construct(id)),
                heap2.functions.last(),
                args,
            )
        },
        None => proceed(with_heap(m, heap1), ControlModel::Value(ValueModel::Instance(id))),
    }
}

/// A call of `clock`: the host is asked for the time.
pub open spec fn call_clock_model(m: MachineModel) -> (MachineModel, ActionModel) {
    (goto(m, ControlModel::AwaitTime), ActionModel::Clock)
}

/// The arity check that comes before every call: with any other number of
/// arguments than the callee takes, the call fails and nothing of the callee
/// runs; otherwise the transition is the callee's own, `called`.
pub open spec fn checked_call(
    m: MachineModel,
    name: Seq<char>,
    arity: nat,
    args: Seq<ValueModel>,
    paren: TokenModel,
    called: (MachineModel, ActionModel),
) -> (MachineModel, ActionModel) {
    if args.len() != arity {
        fail(m, wrong_arity(name, arity, args.len(), paren))
    } else {
        called
    }
}

/// A call of `callee` with `args`: only native functions, user functions
/// and classes can be called.
pub open spec fn call_value_model(
    m: MachineModel,
    callee: ValueModel,
    args: Seq<ValueModel>,
    paren: TokenModel,
) -> (MachineModel, ActionModel) {
    match callee {
        ValueModel::Native(_) => checked_call(m, "clock"@, 0, args, paren, call_clock_model(m)),
        ValueModel::Fn(f) => if f < m.heap.functions.len() {
            let function = m.heap.functions[f as int];
            checked_call(
                m,
                function.name.lexeme,
                function.params.len(),
                args,
                paren,
                call_function_model(m, function, args),
            )
        } else {
            fail(m, not_callable(paren))
        },
        ValueModel::Class(c) => if c < m.heap.classes.len() {
            checked_call(
                m,
                class_name(m.heap, c),
                class_arity(m.heap, c),
                args,
                paren,
                call_class_model(m, c, args),
            )
        } else {
            fail(m, not_callable(paren))
        },
        _ => fail(m, not_callable(paren)),
    }
}

/// The end of a call: the caller's environment is current again; an
/// initializer gives the `this` of its closure whatever was returned, any
/// other function gives `v`.
pub open spec fn finish_call_model(
    m: MachineModel,
    saved: usize,
    closure: usize,
    is_initializer: bool,
    v: ValueModel,
) -> (MachineModel, ActionModel) {
    if is_initializer {
        match local(m.heap.envs, closure, "this"@) {
            Some(this) => proceed(in_env(m, saved), ControlModel::Value(this)),
            None => fail(m, unbound_initializer()),
        }
    } else {
        proceed(in_env(m, saved), ControlModel::Value(v))
    }
}

/// Whether every statement of the list is a function declaration.
pub open spec fn all_functions(methods: Seq<StmtModel>) -> bool {
    forall|i: int| 0 <= i < methods.len() ==> #[trigger] methods[i] is Func
}

/// The methods of the heap followed by the methods of a class, each
/// closing over `closure`; a method is an initializer if and only if it is
/// named `init`.
pub open spec fn method_functions(
    functions: Seq<FunctionModel>,
    methods: Seq<StmtModel>,
    closure: usize,
) -> Seq<FunctionModel>
    decreases methods.len(),
{
    if methods.len() == 0 {
        functions
    } else {
        let before = method_functions(functions, methods.drop_last(), closure);
        match methods.last() {
            StmtModel::Func(name, params, body) => before.push(
                FunctionModel {
                    name,
                    params,
                    body,
                    closure,
                    is_initializer: name.lexeme == "init"@,
                },
            ),
            _ => before,
        }
    }
}

/// The method table of a class whose methods are added to a heap that holds
/// the methods `functions`: each name with the index of its method.
pub open spec fn method_table(
    functions: Seq<FunctionModel>,
    methods: Seq<StmtModel>,
    closure: usize,
) -> Map<Seq<char>, usize>
    decreases methods.len(),
{
    if methods.len() == 0 {
        Map::empty()
    } else {
        let before = method_table(functions, methods.drop_last(), closure);
        match methods.last() {
            StmtModel::Func(name, _, _) => before.insert(
                name.lexeme,
                method_functions(functions, methods.drop_last(), closure).len() as usize,
            ),
            _ => before,
        }
    }
}

/// The frame that holds `super` for the methods of a subclass.
pub open spec fn super_frame(enclosing: usize, superclass: usize) -> EnvModel {
    EnvModel {
        values: Map::empty().insert("super"@, ValueModel::Class(superclass)),
        enclosing: Some(enclosing),
    }
}

/// A class declaration: the name is defined as nil; under a superclass a
/// new environment binds `super`; every method becomes a function that
/// closes over the environment that is then current; the class is made and
/// assigned to its name. A method that is no function declaration is an
/// error, and then nothing is changed.
pub open spec fn declare_class_model(
    m: MachineModel,
    name: TokenModel,
    superclass: Option<usize>,
    methods: Seq<StmtModel>,
) -> (MachineModel, ActionModel) {
    if !all_functions(methods) {
        fail(m, method_is_no_function(name))
    } else {
        let heap1 = define_in(m.heap, m.env, name.lexeme, ValueModel::Nil);
        let heap2 = match superclass {
            Some(sc) => with_env(heap1, super_frame(m.env, sc)),
            None => heap1,
        };
        let closure = match superclass {
            Some(_) => heap1.envs.len() as usize,
            None => m.env,
        };
        let heap3 = with_methods(heap2, method_functions(heap2.methods, methods, closure));
        let class = ClassModel {
            name: name.lexeme,
            superclass,
            methods: method_table(heap2.methods, methods, closure),
        };
        let heap4 = with_class(heap3, class);
        let value = ValueModel::Class(heap3.classes.len() as usize);
        let heap5 = match frame_of(heap4.envs, m.env, name.lexeme) {
            Some(f) => with_envs(heap4, bind_in(heap4.envs, f, name.lexeme, value)),
            None => heap4,
        };
        proceed(with_heap(m, heap5), ControlModel::Value(ValueModel::Nil))
    }
}

/// `super.method`: the superclass is read at the slot's distance, `this`
/// one hop nearer; the result is the superclass's method bound to `this`.
pub open spec fn super_model(m: MachineModel, keyword: TokenModel, method: TokenModel, slot: i32) -> (
    MachineModel,
    ActionModel,
) {
    if slot < 1 {
        fail(m, undefined_variable(keyword))
    } else {
        match (
            get_at_model(m.heap.envs, m.env, keyword.lexeme, slot),
            get_at_model(m.heap.envs, m.env, "this"@, (slot - 1) as i32),
        ) {
            (Some(ValueModel::Class(c)), Some(this)) => match find_method_model(
                m.heap.classes,
                c,
                method.lexeme,
            ) {
                Some(f) => if f < m.heap.methods.len() {
                    proceed(
                        with_heap(m, bind_model(m.heap, f, this)),
                        ControlModel::Value(ValueModel::Fn(m.heap.functions.len() as usize)),
                    )
                } else {
                    fail(m, undefined_property(method))
                },
                None => fail(m, undefined_property(method)),
            },
            _ => fail(m, undefined_variable(keyword)),
        }
    }
}

/// The value that a literal denotes without the host's help; a number
/// literal has none.
pub open spec fn literal_value(lit: LiteralModel) -> Option<ValueModel> {
    match lit {
        LiteralModel::Number(_) => None,
        LiteralModel::Str(s) => Some(ValueModel::Str(s)),
        LiteralModel::Bool(b) => Some(ValueModel::Bool(b)),
        LiteralModel::Nil => Some(ValueModel::Nil),
    }
}

/// One transition that starts the evaluation of an expression.
pub open spec fn eval_model(m: MachineModel, e: ExprModel) -> (MachineModel, ActionModel) {
    match e {
        ExprModel::Assign(name, value, slot) => proceed(
            pushed(m, FrameModel::Assign(name, slot)),
            ControlModel::Expr(*value),
        ),
        ExprModel::Binary(left, op, right) => proceed(
            pushed(m, FrameModel::BinaryLeft(op, *right)),
            ControlModel::Expr(*left),
        ),
        ExprModel::Call(callee, paren, args) => proceed(
            pushed(m, FrameModel::Callee(paren, args)),
            ControlModel::Expr(*callee),
        ),
        ExprModel::Get(object, name) => proceed(
            pushed(m, FrameModel::Get(name)),
            ControlModel::Expr(*object),
        ),
        ExprModel::Grouping(inner) => proceed(m, ControlModel::Expr(*inner)),
        ExprModel::Literal(lit) => match lit {
            LiteralModel::Number(text) => (
                goto(m, ControlModel::AwaitNumber),
                ActionModel::ParseNumber(text),
            ),
            LiteralModel::Str(s) => proceed(m, ControlModel::Value(ValueModel::Str(s))),
            LiteralModel::Bool(b) => proceed(m, ControlModel::Value(ValueModel::Bool(b))),
            LiteralModel::Nil => proceed(m, ControlModel::Value(ValueModel::Nil)),
        },
        ExprModel::Logical(left, op, right) => proceed(
            pushed(m, FrameModel::Logical(op, *right)),
            ControlModel::Expr(*left),
        ),
        ExprModel::SetProperty(object, name, value) => proceed(
            pushed(m, FrameModel::SetObject(name, *value)),
            ControlModel::Expr(*object),
        ),
        ExprModel::Super(keyword, method, slot) => super_model(m, keyword, method, slot),
        ExprModel::This(keyword, slot) => match lookup_variable_model(m, keyword, slot) {
            Some(v) => proceed(m, ControlModel::Value(v)),
            None => fail(m, undefined_variable(keyword)),
        },
        ExprModel::Unary(op, operand) => proceed(
            pushed(m, FrameModel::Unary(op)),
            ControlModel::Expr(*operand),
        ),
        ExprModel::Variable(name, slot) => match lookup_variable_model(m, name, slot) {
            Some(v) => proceed(m, ControlModel::Value(v)),
            None => fail(m, undefined_variable(name)),
        },
    }
}

/// One transition that starts the execution of a statement.
pub open spec fn exec_model(m: MachineModel, s: StmtModel) -> (MachineModel, ActionModel) {
    match s {
        StmtModel::Block(stmts) => {
            let env = EnvModel { values: Map::empty(), enclosing: Some(m.env) };
            let m1 = pushed(with_heap(m, with_env(m.heap, env)), FrameModel::Block(stmts, 0, m.env));
            proceed(in_env(m1, m.heap.envs.len() as usize), ControlModel::Value(ValueModel::Nil))
        },
        StmtModel::Class(name, superclass, methods) => match superclass {
            Some(sc) => proceed(
                pushed(m, FrameModel::Superclass(name, methods)),
                ControlModel::Expr(sc),
            ),
            None => declare_class_model(m, name, None, methods),
        },
        StmtModel::Expr(e) => proceed(pushed(m, FrameModel::Discard), ControlModel::Expr(e)),
        StmtModel::Func(name, params, body) => {
            let f = FunctionModel { name, params, body, closure: m.env, is_initializer: false };
            let value = ValueModel::Fn(m.heap.functions.len() as usize);
            let heap = define_in(with_function(m.heap, f), m.env, name.lexeme, value);
            proceed(with_heap(m, heap), ControlModel::Value(ValueModel::Nil))
        },
        StmtModel::If(cond, then_branch, else_branch) => proceed(
            pushed(
                m,
                FrameModel::If(
                    *then_branch,
                    match else_branch {
                        Some(e) => Some(*e),
                        None => None,
                    },
                ),
            ),
            ControlModel::Expr(cond),
        ),
        StmtModel::Print(e) => proceed(pushed(m, FrameModel::Print), ControlModel::Expr(e)),
        StmtModel::Return(_, value) => match value {
            Some(e) => proceed(pushed(m, FrameModel::Return), ControlModel::Expr(e)),
            None => proceed(m, ControlModel::Return(ValueModel::Nil)),
        },
        StmtModel::Var(name, init) => match init {
            Some(e) => proceed(pushed(m, FrameModel::Var(name)), ControlModel::Expr(e)),
            None => proceed(
                with_heap(m, define_in(m.heap, m.env, name.lexeme, ValueModel::Nil)),
                ControlModel::Value(ValueModel::Nil),
            ),
        },
        StmtModel::While(cond, body) => proceed(
            pushed(m, FrameModel::WhileCond(cond, *body)),
            ControlModel::Expr(cond),
        ),
    }
}

/// One transition that hands the value `v` to the frame `f`, which has been
/// taken off the stack of `m`.
pub open spec fn resume_model(m: MachineModel, f: FrameModel, v: ValueModel) -> (
    MachineModel,
    ActionModel,
) {
    match f {
        FrameModel::Assign(name, slot) => match assign_target(m, name, slot) {
            Some(t) => proceed(
                with_heap(m, with_envs(m.heap, bind_in(m.heap.envs, t, name.lexeme, v))),
                ControlModel::Value(v),
            ),
            None => fail(m, undefined_variable(name)),
        },
        FrameModel::Unary(op) => match op.token_type {
            TokenType::Minus => match negate_number_model(v) {
                Ok(x) => proceed(m, ControlModel::Value(x)),
                Err(e) => fail(m, at_line(e, op.line)),
            },
            TokenType::Bang => proceed(m, ControlModel::Value(ValueModel::Bool(!truthy(v)))),
            _ => fail(m, invalid_operator(op)),
        },
        FrameModel::BinaryLeft(op, right) => proceed(
            pushed(m, FrameModel::BinaryRight(op, v)),
            ControlModel::Expr(right),
        ),
        FrameModel::BinaryRight(op, left) => match binary_model(op, left, v) {
            Ok(OutcomeModel::Value(x)) => proceed(m, ControlModel::Value(x)),
            Ok(OutcomeModel::Arithmetic(o, a, b)) => (
                goto(m, ControlModel::AwaitNumber),
                ActionModel::Arithmetic(o, a, b),
            ),
            Err(e) => fail(m, at_line(e, op.line)),
        },
        FrameModel::Logical(op, right) => if (op.token_type == TokenType::Or) == truthy(v) {
            proceed(m, ControlModel::Value(v))
        } else {
            proceed(m, ControlModel::Expr(right))
        },
        FrameModel::Callee(paren, args) => if args.len() == 0 {
            call_value_model(m, v, Seq::empty(), paren)
        } else {
            proceed(
                pushed(m, FrameModel::Args(paren, args, v, Seq::empty())),
                ControlModel::Expr(args[0]),
            )
        },
        FrameModel::Args(paren, args, callee, done) => if done.len() + 1 < args.len() {
            proceed(
                pushed(m, FrameModel::Args(paren, args, callee, done.push(v))),
                ControlModel::Expr(args[done.len() + 1 as int]),
            )
        } else {
            call_value_model(m, callee, done.push(v), paren)
        },
        FrameModel::Get(name) => match v {
            ValueModel::Instance(id) => if id < m.heap.instances.len() {
                match property_model(m.heap, id, name).1 {
                    Ok(x) => proceed(
                        with_heap(m, property_model(m.heap, id, name).0),
                        ControlModel::Value(x),
                    ),
                    Err(e) => fail(m, e),
                }
            } else {
                fail(m, not_an_instance(name))
            },
            _ => fail(m, not_an_instance(name)),
        },
        FrameModel::SetObject(name, value) => match v {
            ValueModel::Instance(id) => if id < m.heap.instances.len() {
                proceed(pushed(m, FrameModel::SetValue(name, id)), ControlModel::Expr(value))
            } else {
                fail(m, no_fields(name))
            },
            _ => fail(m, no_fields(name)),
        },
        FrameModel::SetValue(name, id) => if id < m.heap.instances.len() {
            proceed(with_heap(m, set_field(m.heap, id, name.lexeme, v)), ControlModel::Value(v))
        } else {
            fail(m, no_fields(name))
        },
        FrameModel::Discard => proceed(m, ControlModel::Value(ValueModel::Nil)),
        FrameModel::Print => (
            goto(m, ControlModel::Value(ValueModel::Nil)),
            ActionModel::Print(render_model(m.heap, v)),
        ),
        FrameModel::Var(name) => proceed(
            with_heap(m, define_in(m.heap, m.env, name.lexeme, v)),
            ControlModel::Value(ValueModel::Nil),
        ),
        FrameModel::Block(stmts, next, saved) => if next < stmts.len() {
            proceed(
                pushed(m, FrameModel::Block(stmts, (next + 1) as usize, saved)),
                ControlModel::Stmt(stmts[next as int]),
            )
        } else {
            proceed(in_env(m, saved), ControlModel::Value(ValueModel::Nil))
        },
        FrameModel::Program(stmts, next) => if next < stmts.len() {
            proceed(
                pushed(m, FrameModel::Program(stmts, (next + 1) as usize)),
                ControlModel::Stmt(stmts[next as int]),
            )
        } else {
            proceed(m, ControlModel::Value(ValueModel::Nil))
        },
        FrameModel::If(then_branch, else_branch) => if truthy(v) {
            proceed(m, ControlModel::Stmt(then_branch))
        } else {
            match else_branch {
                Some(e) => proceed(m, ControlModel::Stmt(e)),
                None => proceed(m, ControlModel::Value(ValueModel::Nil)),
            }
        },
        FrameModel::WhileCond(cond, body) => if truthy(v) {
            proceed(pushed(m, FrameModel::WhileBody(cond, body)), ControlModel::Stmt(body))
        } else {
            proceed(m, ControlModel::Value(ValueModel::Nil))
        },
        FrameModel::WhileBody(cond, body) => proceed(
            pushed(m, FrameModel::WhileCond(cond, body)),
            ControlModel::Expr(cond),
        ),
        FrameModel::Return => proceed(m, ControlModel::Return(v)),
        FrameModel::Superclass(name, methods) => match v {
            ValueModel::Class(c) => if c < m.heap.classes.len() {
                declare_class_model(m, name, Some(c), methods)
            } else {
                fail(m, superclass_is_no_class(name))
            },
            _ => fail(m, superclass_is_no_class(name)),
        },
        FrameModel::Call(stmts, next, saved, closure, is_initializer) => if next < stmts.len() {
            proceed(
                pushed(
                    m,
                    FrameModel::Call(stmts, (next + 1) as usize, saved, closure, is_initializer),
                ),
                ControlModel::Stmt(stmts[next as int]),
            )
        } else {
            finish_call_model(m, saved, closure, is_initializer, ValueModel::Nil)
        },
        FrameModel::Construct(id) => proceed(m, ControlModel::Value(ValueModel::Instance(id))),
    }
}

/// One transition of a `return` that unwinds past the frame `f`, which has
/// been taken off the stack of `m`: the frame of a call catches the value,
/// every other frame is dropped.
pub open spec fn unwind_model(m: MachineModel, f: FrameModel, v: ValueModel) -> (
    MachineModel,
    ActionModel,
) {
    match f {
        FrameModel::Call(_, _, saved, closure, is_initializer) => finish_call_model(
            m,
            saved,
            closure,
            is_initializer,
            v,
        ),
        _ => proceed(m, ControlModel::Return(v)),
    }
}

/// One transition of the machine.
pub open spec fn step_model(m: MachineModel, event: Event) -> (MachineModel, ActionModel) {
    let idle = goto(m, ControlModel::Idle);
    match m.control {
        ControlModel::Idle => (m, ActionModel::Done),
        ControlModel::Expr(e) => eval_model(idle, e),
        ControlModel::Stmt(s) => exec_model(idle, s),
        ControlModel::Value(v) => if m.stack.len() == 0 {
            (idle, ActionModel::Done)
        } else {
            resume_model(popped(idle), m.stack.last(), v)
        },
        ControlModel::Return(v) => if m.stack.len() == 0 {
            fail(idle, return_at_top_level())
        } else {
            unwind_model(popped(idle), m.stack.last(), v)
        },
        ControlModel::AwaitNumber => match event {
            Event::Number(n) => proceed(idle, ControlModel::Value(ValueModel::Number(n))),
            _ => fail(idle, unexpected_event()),
        },
        ControlModel::AwaitTime => match event {
            Event::Time(s, n) => proceed(idle, ControlModel::Value(ValueModel::Time(s, n))),
            _ => fail(idle, unexpected_event()),
        },
    }
}

/// Up to `budget` transitions after one that gave `action`, for as long as
/// the machine asks nothing of the host.
pub open spec fn continue_model(m: MachineModel, action: ActionModel, budget: nat) -> (
    MachineModel,
    ActionModel,
)
    decreases budget,
{
    if action is Continue && budget > 0 {
        let (m1, next) = step_model(m, Event::Resume);
        continue_model(m1, next, (budget - 1) as nat)
    } else {
        (m, action)
    }
}

/// The first transition, which takes the host's answer, and then up to
/// `budget` more for as long as the machine asks nothing of the host.
pub open spec fn run_model(m: MachineModel, event: Event, budget: nat) -> (
    MachineModel,
    ActionModel,
) {
    let (m1, action) = step_model(m, event);
    continue_model(m1, action, budget)
}

/// The machine with a program loaded: at global level, about to run the
/// first statement.
pub open spec fn loaded(m: MachineModel, stmts: Seq<StmtModel>) -> MachineModel {
    MachineModel {
        heap: m.heap,
        env: m.globals,
        globals: m.globals,
        control: ControlModel::Value(ValueModel::Nil),
        stack: seq![FrameModel::Program(stmts, 0)],
    }
}

/// The machine before any program: the globals hold `clock`.
pub open spec fn initial() -> MachineModel {
    MachineModel {
        heap: HeapModel {
            envs: seq![
                EnvModel {
                    values: Map::empty().insert("clock"@, ValueModel::Native(ClockFn)),
                    enclosing: None,
                },
            ],
            functions: Seq::empty(),
            methods: Seq::empty(),
            classes: Seq::empty(),
            instances: Seq::empty(),
        },
        env: 0,
        globals: 0,
        control: ControlModel::Idle,
        stack: Seq::empty(),
    }
}


/// Closure capture, at the declaration: the function that a declaration
/// makes closes over the environment that is current when the declaration
/// runs.
pub proof fn a_function_captures_the_current_environment(
    m: MachineModel,
    name: TokenModel,
    params: Seq<TokenModel>,
    body: Seq<StmtModel>,
)
    ensures
        ({
            let after = exec_model(m, StmtModel::Func(name, params, body)).0;
            &&& after.heap.functions.len() == m.heap.functions.len() + 1
            &&& after.heap.functions.last().closure == m.env
            &&& after.heap.functions.last().body == body
            &&& after.heap.functions.last().params == params
            &&& after.env == m.env
        }),
{
}

/// Closure capture, at the call: the environment in which the body of a
/// function runs is new and is enclosed by the environment that the
/// function captured, whatever environment the call is made from; the
/// caller's environment is kept on the stack and is current again when the
/// call ends.
pub proof fn a_call_runs_in_the_captured_environment(
    m: MachineModel,
    f: FunctionModel,
    args: Seq<ValueModel>,
    result: ValueModel,
)
    requires
        !f.is_initializer,
    ensures
        ({
            let (during, action) = call_function_model(m, f, args);
            let (after, _) = finish_call_model(popped(during), m.env, f.closure, false, result);
            &&& action is Continue
            &&& during.env == m.heap.envs.len() as usize
            &&& during.heap.envs.len() == m.heap.envs.len() + 1
            &&& during.heap.envs.last().enclosing == Some(f.closure)
            &&& during.stack.last() == FrameModel::Call(f.body, 0, m.env, f.closure, false)
            &&& after.env == m.env
            &&& after.control == ControlModel::Value(result)
        }),
{
}

/// The arguments of a call are bound to the parameters of the same
/// position, the last of two parameters of one name winning.
pub proof fn parameters_are_bound_in_order(params: Seq<TokenModel>, args: Seq<ValueModel>, i: int)
    requires
        params.len() <= args.len(),
        0 <= i < params.len(),
        forall|j: int| i < j < params.len() ==> params[j].lexeme != params[i].lexeme,
    ensures
        bind_params(params, args).contains_key(params[i].lexeme),
        bind_params(params, args)[params[i].lexeme] == args[i],
    decreases params.len(),
{
    if i < params.len() - 1 {
        parameters_are_bound_in_order(params.drop_last(), args, i);
    }
}

/// Short-circuit: with a truthy left operand `or` gives that operand, and
/// with a falsy one `and` does, in one transition that changes neither the
/// heap nor the stack, so that the right operand is never evaluated.
/// Otherwise the right operand is evaluated next and its value is the
/// result.
pub proof fn logical_operators_short_circuit(
    m: MachineModel,
    op: TokenModel,
    right: ExprModel,
    v: ValueModel,
)
    ensures
        op.token_type == TokenType::Or && truthy(v) ==> resume_model(
            m,
            FrameModel::Logical(op, right),
            v,
        ) == proceed(m, ControlModel::Value(v)),
        op.token_type != TokenType::Or && !truthy(v) ==> resume_model(
            m,
            FrameModel::Logical(op, right),
            v,
        ) == proceed(m, ControlModel::Value(v)),
        op.token_type == TokenType::Or && !truthy(v) ==> resume_model(
            m,
            FrameModel::Logical(op, right),
            v,
        ) == proceed(m, ControlModel::Expr(right)),
        op.token_type != TokenType::Or && truthy(v) ==> resume_model(
            m,
            FrameModel::Logical(op, right),
            v,
        ) == proceed(m, ControlModel::Expr(right)),
{
}

/// The initializer contract: whatever an initializer returns, and whether
/// it returns or runs to its end, its call gives the `this` of its closure;
/// and whatever the call of an initializer gives, the construction that
/// made it gives the new instance.
pub proof fn an_initializer_gives_the_instance(
    m: MachineModel,
    saved: usize,
    closure: usize,
    this: ValueModel,
    returned: ValueModel,
    body: Seq<StmtModel>,
    next: usize,
    id: usize,
)
    requires
        local(m.heap.envs, closure, "this"@) == Some(this),
        next >= body.len(),
    ensures
        finish_call_model(m, saved, closure, true, returned) == proceed(
            in_env(m, saved),
            ControlModel::Value(this),
        ),
        unwind_model(m, FrameModel::Call(body, next, saved, closure, true), returned) == proceed(
            in_env(m, saved),
            ControlModel::Value(this),
        ),
        resume_model(
            m,
            FrameModel::Call(body, next, saved, closure, true),
            ValueModel::Nil,
        ) == proceed(in_env(m, saved), ControlModel::Value(this)),
        resume_model(m, FrameModel::Construct(id), returned) == proceed(
            m,
            ControlModel::Value(ValueModel::Instance(id)),
        ),
{
}

/// A call of a class makes a new instance of that class without fields.
/// Without an initializer the instance is the result at once. With one, the
/// initializer is bound to the instance, so that the `this` of its closure
/// is the instance, and entered on top of a frame that gives the instance
/// whatever the initializer gives.
pub proof fn a_class_call_makes_an_instance(m: MachineModel, c: usize, args: Seq<ValueModel>)
    ensures
        ({
            let (after, action) = call_class_model(m, c, args);
            let id = m.heap.instances.len() as usize;
            &&& action is Continue
            &&& after.heap.instances.len() == m.heap.instances.len() + 1
            &&& after.heap.instances.last() == fresh_instance(c)
            &&& match initializer(m.heap, c) {
                None => after.control == ControlModel::Value(ValueModel::Instance(id))
                    && after.stack == m.stack,
                Some(i) => {
                    let bound = after.heap.functions.last();
                    &&& after.stack == m.stack.push(FrameModel::Construct(id)).push(
                        FrameModel::Call(
                            bound.body,
                            0,
                            m.env,
                            bound.closure,
                            bound.is_initializer,
                        ),
                    )
                    &&& bound.closure == m.heap.envs.len() as usize
                    &&& bound.body == m.heap.methods[i as int].body
                    &&& after.heap.envs[m.heap.envs.len() as int].values["this"@]
                        == ValueModel::Instance(id)
                },
            }
        }),
{
}

/// `super.method` is the method that the superclass resolves, bound to the
/// `this` that stands one hop nearer than `super`: the superclass is the
/// one that the class declaration bound, not the class of `this`.
pub proof fn super_is_bound_to_this(
    m: MachineModel,
    keyword: TokenModel,
    method: TokenModel,
    slot: i32,
    c: usize,
    this: ValueModel,
    f: usize,
)
    requires
        slot >= 1,
        get_at_model(m.heap.envs, m.env, keyword.lexeme, slot) == Some(ValueModel::Class(c)),
        get_at_model(m.heap.envs, m.env, "this"@, (slot - 1) as i32) == Some(this),
        find_method_model(m.heap.classes, c, method.lexeme) == Some(f),
        f < m.heap.methods.len(),
    ensures
        ({
            let (after, action) = eval_model(m, ExprModel::Super(keyword, method, slot));
            let bound = after.heap.functions.last();
            &&& action is Continue
            &&& after.control == ControlModel::Value(
                ValueModel::Fn(m.heap.functions.len() as usize),
            )
            &&& bound.body == m.heap.methods[f as int].body
            &&& bound.closure == m.heap.envs.len() as usize
            &&& after.heap.envs.last().values["this"@] == this
            &&& after.heap.envs.last().enclosing == Some(m.heap.methods[f as int].closure)
        }),
{
}

/// Arity enforcement: a call with another number of arguments than the
/// callee takes fails with the heap as it was and an empty stack, whatever
/// the callee is and whatever entering it would have done; a call with the
/// right number is the callee's own transition.
pub proof fn a_call_with_the_wrong_arity_runs_nothing(
    m: MachineModel,
    name: Seq<char>,
    arity: nat,
    args: Seq<ValueModel>,
    paren: TokenModel,
    called: (MachineModel, ActionModel),
)
    ensures
        args.len() != arity ==> {
            let (after, action) = checked_call(m, name, arity, args, paren, called);
            &&& action == ActionModel::Error(wrong_arity(name, arity, args.len(), paren))
            &&& after.heap == m.heap
            &&& after.control is Idle
            &&& after.stack.len() == 0
            &&& after.env == m.globals
        },
        args.len() == arity ==> checked_call(m, name, arity, args, paren, called) == called,
{
}

/// Arity enforcement for each kind of callee: a user function takes as many
/// arguments as it has parameters, a class as many as its initializer, or
/// none, and `clock` none; with any other number the call fails and the
/// heap stays as it was.
pub proof fn every_callee_checks_its_arity(
    m: MachineModel,
    callee: ValueModel,
    args: Seq<ValueModel>,
    paren: TokenModel,
)
    ensures
        ({
            let (after, action) = call_value_model(m, callee, args, paren);
            match callee {
                ValueModel::Fn(f) => f < m.heap.functions.len() && args.len()
                    != m.heap.functions[f as int].params.len() ==> action is Error && after.heap
                    == m.heap,
                ValueModel::Class(c) => c < m.heap.classes.len() && args.len() != class_arity(
                    m.heap,
                    c,
                ) ==> action is Error && after.heap == m.heap,
                ValueModel::Native(_) => args.len() != 0 ==> action is Error && after.heap
                    == m.heap,
                _ => action is Error && after.heap == m.heap,
            }
        }),
{
}

/// Division by zero: dividing a number by either zero fails the program
/// with the error of a division by zero; the host is never asked to divide
/// by zero.
pub proof fn division_by_zero_fails(m: MachineModel, op: TokenModel, x: u64, y: u64)
    requires
        op.token_type == TokenType::Slash,
    ensures
        crate::number::is_zero(y) ==> resume_model(
            m,
            FrameModel::BinaryRight(op, ValueModel::Number(x)),
            ValueModel::Number(y),
        ) == fail(m, crate::error::runtime_error("divided by zero"@, Some(op.line))),
        !crate::number::is_zero(y) ==> resume_model(
            m,
            FrameModel::BinaryRight(op, ValueModel::Number(x)),
            ValueModel::Number(y),
        ) == (goto(m, ControlModel::AwaitNumber), ActionModel::Arithmetic(ArithOp::Divide, x, y)),
{
}

/// Whatever the operator and the operands, the host is never asked to
/// divide by zero.
pub proof fn the_host_never_divides_by_zero(
    m: MachineModel,
    op: TokenModel,
    left: ValueModel,
    right: ValueModel,
)
    ensures
        resume_model(m, FrameModel::BinaryRight(op, left), right).1 matches ActionModel::Arithmetic(
            o,
            x,
            y,
        ) ==> !(o == ArithOp::Divide && crate::number::is_zero(y)),
{
}

/// A failure leaves the heap as it is and the machine idle at global level,
/// so that the next program can be loaded.
pub proof fn a_failure_returns_to_global_level(m: MachineModel, e: ErrorModel)
    ensures
        fail(m, e).0.heap == m.heap,
        fail(m, e).0.env == m.globals,
        fail(m, e).0.control is Idle,
        fail(m, e).0.stack.len() == 0,
        step_model(fail(m, e).0, Event::Resume) == (fail(m, e).0, ActionModel::Done),
{
}

/// Statements run in source order: a block hands its statements to the
/// machine one after the other, each only when the one before it is done,
/// and at its end the environment that was current before it is current
/// again.
pub proof fn a_block_runs_its_statements_in_order(
    m: MachineModel,
    stmts: Seq<StmtModel>,
    next: usize,
    saved: usize,
    v: ValueModel,
)
    ensures
        next < stmts.len() ==> resume_model(m, FrameModel::Block(stmts, next, saved), v)
            == proceed(
            pushed(m, FrameModel::Block(stmts, (next + 1) as usize, saved)),
            ControlModel::Stmt(stmts[next as int]),
        ),
        next >= stmts.len() ==> resume_model(m, FrameModel::Block(stmts, next, saved), v)
            == proceed(in_env(m, saved), ControlModel::Value(ValueModel::Nil)),
{
}

/// A `return` unwinds through every frame that is not the frame of a call
/// without losing its value.
pub proof fn a_return_keeps_its_value(m: MachineModel, f: FrameModel, v: ValueModel)
    requires
        !(f is Call),
    ensures
        unwind_model(m, f, v) == proceed(m, ControlModel::Return(v)),
{
}

} // verus!
