//! The interpreter: the executable machine. Every transition is proved to
//! be the one that the machine's mathematical description prescribes.
use crate::callable::Callable;
use crate::env::{Env, envs_model};
use crate::error::{Error, ErrorModel};
use crate::expr::{Expr, ExprModel, exprs_model, walk_expr};
use crate::heap::Heap;
use crate::lox_class::{LoxClass, LoxClassInner};
use crate::lox_function::LoxFunction;
use crate::lox_instance::LoxInstance;
use crate::lox_value::{ArithOp, LoxValue, Outcome, ValueModel, values_model};
use crate::machine::{
    ActionModel, ControlModel, Event, FrameModel, MachineModel, OutputModel, all_functions, at_line,
    binary_model, call_value_model, checked_call, class_name, continue_model, declare_class_model,
    define_in, eval_model, exec_model, fail, finish_call_model, initial, initializer, loaded,
    lookup_variable_model, method_functions, method_table, not_callable, proceed, pushed,
    render_model, resume_model, run_model, step_model, super_frame, undefined_variable,
    unexpected_event, unwind_model, with_heap, with_methods,
};
use crate::native_fn::ClockFn;
use crate::sharing::{share, share_all};
use crate::stmt::{Stmt, StmtModel, stmts_model, walk_stmt};
use crate::table::Table;
use crate::text::{push_decimal, push_text};
use crate::token::{Literal, Token, TokenType, duplicate_tokens};
use std::rc::Rc;
use vstd::prelude::*;
use vstd::string::StringExecFns;

verus! {

/// What a `print` statement writes: text that the library has put together,
/// or a number or an instant, which the host writes out.
#[derive(Clone, Debug, PartialEq)]
pub enum Output {
    Text(String),
    Number(u64),
    Time(u64, u32),
}

impl View for Output {
    type V = OutputModel;

    open spec fn view(&self) -> OutputModel {
        match self {
            Output::Text(s) => OutputModel::Text(s@),
            Output::Number(n) => OutputModel::Number(*n),
            Output::Time(s, n) => OutputModel::Time(*s, *n),
        }
    }
}

/// What the interpreter asks of the host after a transition.
#[derive(Clone, Debug, PartialEq)]
pub enum Action {
    /// Nothing: call again with [`Event::Resume`].
    Continue,
    /// Write this and a newline to standard output, then resume.
    Print(Output),
    /// Compute `left op right` on two doubles and answer with
    /// [`Event::Number`].
    Arithmetic(ArithOp, u64, u64),
    /// Turn this decimal text into the nearest double and answer with
    /// [`Event::Number`].
    ParseNumber(String),
    /// Answer with [`Event::Time`].
    Clock,
    /// The program has run to its end.
    Done,
    /// The program has failed.
    Error(Error),
}

impl View for Action {
    type V = ActionModel;

    open spec fn view(&self) -> ActionModel {
        match self {
            Action::Continue => ActionModel::Continue,
            Action::Print(o) => ActionModel::Print(o@),
            Action::Arithmetic(op, a, b) => ActionModel::Arithmetic(*op, *a, *b),
            Action::ParseNumber(s) => ActionModel::ParseNumber(s@),
            Action::Clock => ActionModel::Clock,
            Action::Done => ActionModel::Done,
            Action::Error(e) => ActionModel::Error(e@),
        }
    }
}

/// What the interpreter is about to do.
pub enum Control {
    Idle,
    Expr(Rc<Expr>),
    Stmt(Rc<Stmt>),
    Value(LoxValue),
    Return(LoxValue),
    AwaitNumber,
    AwaitTime,
}

impl View for Control {
    type V = ControlModel;

    open spec fn view(&self) -> ControlModel {
        match self {
            Control::Idle => ControlModel::Idle,
            Control::Expr(e) => ControlModel::Expr(e@),
            Control::Stmt(s) => ControlModel::Stmt(s@),
            Control::Value(v) => ControlModel::Value(v@),
            Control::Return(v) => ControlModel::Return(v@),
            Control::AwaitNumber => ControlModel::AwaitNumber,
            Control::AwaitTime => ControlModel::AwaitTime,
        }
    }
}

/// One frame of the interpreter's stack.
pub enum Frame {
    Assign(Token, i32),
    Unary(Token),
    BinaryLeft(Token, Rc<Expr>),
    BinaryRight(Token, LoxValue),
    Logical(Token, Rc<Expr>),
    Callee(Token, Vec<Rc<Expr>>),
    Args(Token, Vec<Rc<Expr>>, LoxValue, Vec<LoxValue>),
    Get(Token),
    SetObject(Token, Rc<Expr>),
    SetValue(Token, usize),
    Discard,
    Print,
    Var(Token),
    Block(Vec<Rc<Stmt>>, usize, usize),
    Program(Vec<Rc<Stmt>>, usize),
    If(Rc<Stmt>, Option<Rc<Stmt>>),
    WhileCond(Rc<Expr>, Rc<Stmt>),
    WhileBody(Rc<Expr>, Rc<Stmt>),
    Return,
    Superclass(Token, Vec<Rc<Stmt>>),
    Call(Vec<Rc<Stmt>>, usize, usize, usize, bool),
    Construct(usize),
}

impl View for Frame {
    type V = FrameModel;

    open spec fn view(&self) -> FrameModel {
        match self {
            Frame::Assign(name, slot) => FrameModel::Assign(name@, *slot),
            Frame::Unary(op) => FrameModel::Unary(op@),
            Frame::BinaryLeft(op, right) => FrameModel::BinaryLeft(op@, right@),
            Frame::BinaryRight(op, left) => FrameModel::BinaryRight(op@, left@),
            Frame::Logical(op, right) => FrameModel::Logical(op@, right@),
            Frame::Callee(paren, args) => FrameModel::Callee(paren@, exprs_model(args@)),
            Frame::Args(paren, args, callee, done) => FrameModel::Args(
                paren@,
                exprs_model(args@),
                callee@,
                values_model(done@),
            ),
            Frame::Get(name) => FrameModel::Get(name@),
            Frame::SetObject(name, value) => FrameModel::SetObject(name@, value@),
            Frame::SetValue(name, id) => FrameModel::SetValue(name@, *id),
            Frame::Discard => FrameModel::Discard,
            Frame::Print => FrameModel::Print,
            Frame::Var(name) => FrameModel::Var(name@),
            Frame::Block(stmts, next, saved) => FrameModel::Block(
                stmts_model(stmts@),
                *next,
                *saved,
            ),
            Frame::Program(stmts, next) => FrameModel::Program(stmts_model(stmts@), *next),
            Frame::If(then_branch, else_branch) => FrameModel::If(
                then_branch@,
                match else_branch {
                    Some(e) => Some(e@),
                    None => None,
                },
            ),
            Frame::WhileCond(cond, body) => FrameModel::WhileCond(cond@, body@),
            Frame::WhileBody(cond, body) => FrameModel::WhileBody(cond@, body@),
            Frame::Return => FrameModel::Return,
            Frame::Superclass(name, methods) => FrameModel::Superclass(
                name@,
                stmts_model(methods@),
            ),
            Frame::Call(stmts, next, saved, closure, is_initializer) => FrameModel::Call(
                stmts_model(stmts@),
                *next,
                *saved,
                *closure,
                *is_initializer,
            ),
            Frame::Construct(id) => FrameModel::Construct(*id),
        }
    }
}

/// The views of a stack of frames.
pub open spec fn frames_model(fs: Seq<Frame>) -> Seq<FrameModel> {
    Seq::new(fs.len(), |i: int| fs[i]@)
}

/// The interpreter's state: the heap, the current environment and that of
/// the globals, what is to be done next, and the stack of what remains to
/// be done after that.
pub struct Interpreter {
    pub heap: Heap,
    pub env: usize,
    pub globals: usize,
    pub control: Control,
    pub stack: Vec<Frame>,
}

impl View for Interpreter {
    type V = MachineModel;

    open spec fn view(&self) -> MachineModel {
        MachineModel {
            heap: self.heap@,
            env: self.env,
            globals: self.globals,
            control: self.control@,
            stack: frames_model(self.stack@),
        }
    }
}

/// The view of the result of a variable lookup.
pub open spec fn lookup_result(r: Result<LoxValue, Error>) -> Result<ValueModel, ErrorModel> {
    match r {
        Ok(v) => Ok(v@),
        Err(e) => Err(e@),
    }
}

impl Interpreter {
    /// Goes on with `control`.
    pub fn proceed(&mut self, control: Control) -> (a: Action)
        ensures
            (final(self)@, a@) == proceed(old(self)@, control@),
    {
        self.control = control;
        Action::Continue
    }

    /// Fails with `e`: the stack is dropped and the interpreter is idle at
    /// global level.
    pub fn fail(&mut self, e: Error) -> (a: Action)
        ensures
            (final(self)@, a@) == fail(old(self)@, e@),
    {
        self.control = Control::Idle;
        self.stack = Vec::new();
        self.env = self.globals;
        assert(frames_model(self.stack@) =~= Seq::empty());
        Action::Error(e)
    }

    /// Puts a frame on the stack.
    pub fn push_frame(&mut self, f: Frame)
        ensures
            final(self)@ == pushed(old(self)@, f@),
    {
        self.stack.push(f);
        assert(frames_model(self.stack@) =~= frames_model(old(self).stack@).push(f@));
    }

    /// Defines `name` as `v` in the current environment.
    fn define_here(&mut self, name: String, v: LoxValue)
        ensures
            final(self)@ == with_heap(
                old(self)@,
                define_in(old(self)@.heap, old(self)@.env, name@, v@),
            ),
    {
        if self.env < self.heap.envs.len() {
            self.heap.envs[self.env].define(name, v);
            assert(envs_model(self.heap.envs@) =~= crate::env::bind_in(
                envs_model(old(self).heap.envs@),
                self.env,
                name@,
                v@,
            ));
        }
    }

    /// Reads a variable: a global by a search from the globals, any other
    /// at its slot's distance from the current environment.
    pub fn lookup_variable(&self, token: &Token, distance: i32) -> (r: Result<LoxValue, Error>)
        ensures
            lookup_result(r) == (match lookup_variable_model(self@, token@, distance) {
                Some(v) => Ok::<ValueModel, ErrorModel>(v),
                None => Err::<ValueModel, ErrorModel>(undefined_variable(token@)),
            }),
    {
        let found = if distance < 0 {
            Env::get(&self.heap.envs, self.globals, &token.lexeme)
        } else {
            Env::get_at(&self.heap.envs, self.env, &token.lexeme, distance)
        };
        match found {
            Some(v) => Ok(v),
            None => {
                let mut msg = String::from_str("undefined variable: ");
                push_text(&mut msg, token.lexeme.as_str());
                Err(Error::runtime(msg, Some(token.line)))
            },
        }
    }

    /// Reads a variable.
    pub fn visit_var_expr(&mut self, token: &Token, distance: i32) -> (a: Action)
        ensures
            (final(self)@, a@) == eval_model(old(self)@, ExprModel::Variable(token@, distance)),
    {
        match self.lookup_variable(token, distance) {
            Ok(v) => self.proceed(Control::Value(v)),
            Err(e) => self.fail(e),
        }
    }

    /// Reads `this`, as a variable is read.
    pub fn visit_this(&mut self, token: &Token, distance: i32) -> (a: Action)
        ensures
            (final(self)@, a@) == eval_model(old(self)@, ExprModel::This(token@, distance)),
    {
        match self.lookup_variable(token, distance) {
            Ok(v) => self.proceed(Control::Value(v)),
            Err(e) => self.fail(e),
        }
    }

    /// Starts an assignment: the value is evaluated first.
    pub fn visit_assign(&mut self, left: &Token, right: &Rc<Expr>, distance: i32) -> (a: Action)
        ensures
            (final(self)@, a@) == eval_model(
                old(self)@,
                ExprModel::Assign(left@, Box::new(right@), distance),
            ),
    {
        self.push_frame(Frame::Assign(left.duplicate(), distance));
        self.proceed(Control::Expr(share(right)))
    }

    /// Starts a binary operation: the left operand is evaluated first.
    pub fn visit_binary(&mut self, left: &Rc<Expr>, op: &Token, right: &Rc<Expr>) -> (a: Action)
        ensures
            (final(self)@, a@) == eval_model(
                old(self)@,
                ExprModel::Binary(Box::new(left@), op@, Box::new(right@)),
            ),
    {
        self.push_frame(Frame::BinaryLeft(op.duplicate(), share(right)));
        self.proceed(Control::Expr(share(left)))
    }

    /// Goes on with the expression inside the parentheses.
    pub fn visit_grouping(&mut self, expr: &Rc<Expr>) -> (a: Action)
        ensures
            (final(self)@, a@) == eval_model(old(self)@, ExprModel::Grouping(Box::new(expr@))),
    {
        self.proceed(Control::Expr(share(expr)))
    }

    /// Yields the value of a literal; that of a number is asked of the
    /// host.
    pub fn visit_literal(&mut self, lit: &Literal) -> (a: Action)
        ensures
            (final(self)@, a@) == eval_model(old(self)@, ExprModel::Literal(lit@)),
    {
        match lit.value() {
            Some(v) => self.proceed(Control::Value(v)),
            None => match lit {
                Literal::Number(text) => {
                    self.control = Control::AwaitNumber;
                    Action::ParseNumber(text.clone())
                },
                _ => self.proceed(Control::Value(LoxValue::Nil)),
            },
        }
    }

    /// Starts a property read: the object is evaluated first.
    pub fn visit_get(&mut self, expr: &Rc<Expr>, name: &Token) -> (a: Action)
        ensures
            (final(self)@, a@) == eval_model(old(self)@, ExprModel::Get(Box::new(expr@), name@)),
    {
        self.push_frame(Frame::Get(name.duplicate()));
        self.proceed(Control::Expr(share(expr)))
    }

    /// Starts a property write: the object is evaluated first.
    pub fn visit_set(&mut self, expr: &Rc<Expr>, name: &Token, value: &Rc<Expr>) -> (a: Action)
        ensures
            (final(self)@, a@) == eval_model(
                old(self)@,
                ExprModel::SetProperty(Box::new(expr@), name@, Box::new(value@)),
            ),
    {
        self.push_frame(Frame::SetObject(name.duplicate(), share(value)));
        self.proceed(Control::Expr(share(expr)))
    }

    /// Starts `or` / `and`: the left operand is evaluated first.
    pub fn visit_logical(&mut self, left: &Rc<Expr>, op: &Token, right: &Rc<Expr>) -> (a: Action)
        ensures
            (final(self)@, a@) == eval_model(
                old(self)@,
                ExprModel::Logical(Box::new(left@), op@, Box::new(right@)),
            ),
    {
        self.push_frame(Frame::Logical(op.duplicate(), share(right)));
        self.proceed(Control::Expr(share(left)))
    }

    /// Starts a unary operation: the operand is evaluated first.
    pub fn visit_unary(&mut self, token: &Token, expr: &Rc<Expr>) -> (a: Action)
        ensures
            (final(self)@, a@) == eval_model(old(self)@, ExprModel::Unary(token@, Box::new(expr@))),
    {
        self.push_frame(Frame::Unary(token.duplicate()));
        self.proceed(Control::Expr(share(expr)))
    }

    /// Starts a call: the callee is evaluated first.
    pub fn visit_call(&mut self, callee: &Rc<Expr>, paren: &Token, args: &Vec<Rc<Expr>>) -> (a: Action)
        ensures
            (final(self)@, a@) == eval_model(
                old(self)@,
                ExprModel::Call(Box::new(callee@), paren@, exprs_model(args@)),
            ),
    {
        self.push_frame(Frame::Callee(paren.duplicate(), share_all(args)));
        self.proceed(Control::Expr(share(callee)))
    }

    /// Reads `super.method`: the method of the superclass, bound to `this`.
    pub fn visit_super(&mut self, keyword: &Token, method: &Token, distance: i32) -> (a: Action)
        ensures
            (final(self)@, a@) == eval_model(
                old(self)@,
                ExprModel::Super(keyword@, method@, distance),
            ),
    {
        if distance >= 1 {
            let superclass = Env::get_at(&self.heap.envs, self.env, &keyword.lexeme, distance);
            let this = Env::get_at(
                &self.heap.envs,
                self.env,
                &String::from_str("this"),
                distance - 1,
            );
            match (superclass, this) {
                (Some(LoxValue::Class(c)), Some(this)) => {
                    match LoxClassInner::find_method(&self.heap.classes, c, &method.lexeme) {
                        Some(f) => {
                            if f < self.heap.methods.len() {
                                let bound = self.heap.bind(f, this);
                                return self.proceed(Control::Value(LoxValue::Fn(bound)));
                            }
                        },
                        None => {},
                    }
                    let mut msg = String::from_str("undefined property: ");
                    push_text(&mut msg, method.lexeme.as_str());
                    return self.fail(Error::runtime(msg, Some(method.line)));
                },
                _ => {},
            }
        }
        let mut msg = String::from_str("undefined variable: ");
        push_text(&mut msg, keyword.lexeme.as_str());
        self.fail(Error::runtime(msg, Some(keyword.line)))
    }

}


impl Interpreter {
    /// Starts an expression statement.
    pub fn visit_expr_stmt(&mut self, expr: &Rc<Expr>) -> (a: Action)
        ensures
            (final(self)@, a@) == exec_model(old(self)@, StmtModel::Expr(expr@)),
    {
        self.push_frame(Frame::Discard);
        self.proceed(Control::Expr(share(expr)))
    }

    /// Starts a `print`: the expression is evaluated first.
    pub fn visit_print(&mut self, expr: &Rc<Expr>) -> (a: Action)
        ensures
            (final(self)@, a@) == exec_model(old(self)@, StmtModel::Print(expr@)),
    {
        self.push_frame(Frame::Print);
        self.proceed(Control::Expr(share(expr)))
    }

    /// Enters a block: a new environment, enclosed by the current one,
    /// becomes current, and a frame remembers the one to go back to.
    pub fn visit_block(&mut self, stmts: &Vec<Rc<Stmt>>) -> (a: Action)
        ensures
            (final(self)@, a@) == exec_model(old(self)@, StmtModel::Block(stmts_model(stmts@))),
    {
        let saved = self.env;
        let id = self.heap.push_env(Some(saved));
        self.push_frame(Frame::Block(share_all(stmts), 0, saved));
        self.env = id;
        self.proceed(Control::Value(LoxValue::Nil))
    }

    /// Makes a function that captures the current environment and defines
    /// it under its name.
    pub fn visit_func(&mut self, name: &Token, args: &Vec<Token>, body: &Vec<Rc<Stmt>>) -> (a: Action)
        ensures
            (final(self)@, a@) == exec_model(
                old(self)@,
                StmtModel::Func(name@, crate::token::tokens_model(args@), stmts_model(body@)),
            ),
    {
        let function = LoxFunction {
            name: name.duplicate(),
            params: duplicate_tokens(args),
            body: share_all(body),
            closure: self.env,
            is_initializer: false,
        };
        let id = self.heap.push_function(function);
        self.define_here(name.lexeme.clone(), LoxValue::Fn(id));
        self.proceed(Control::Value(LoxValue::Nil))
    }

    /// Starts a `return`: with a value, the value is evaluated first; without
    /// one, the unwinding starts at once.
    pub fn visit_return(&mut self, token: &Token, value: &Option<Rc<Expr>>) -> (a: Action)
        ensures
            (final(self)@, a@) == exec_model(
                old(self)@,
                StmtModel::Return(token@, crate::expr::expr_option_model(*value)),
            ),
    {
        match value {
            Some(e) => {
                self.push_frame(Frame::Return);
                self.proceed(Control::Expr(share(e)))
            },
            None => self.proceed(Control::Return(LoxValue::Nil)),
        }
    }

    /// Starts an `if`: the condition is evaluated first.
    pub fn visit_if(
        &mut self,
        cond: &Rc<Expr>,
        then_branch: &Rc<Stmt>,
        else_branch: &Option<Rc<Stmt>>,
    ) -> (a: Action)
        ensures
            (final(self)@, a@) == exec_model(
                old(self)@,
                StmtModel::If(
                    cond@,
                    Box::new(then_branch@),
                    match *else_branch {
                        Some(e) => Some(Box::new(e@)),
                        None => None,
                    },
                ),
            ),
    {
        let else_branch = match else_branch {
            Some(e) => Some(share(e)),
            None => None,
        };
        self.push_frame(Frame::If(share(then_branch), else_branch));
        self.proceed(Control::Expr(share(cond)))
    }

    /// Starts a loop: the condition is evaluated first.
    pub fn visit_while(&mut self, cond: &Rc<Expr>, body: &Rc<Stmt>) -> (a: Action)
        ensures
            (final(self)@, a@) == exec_model(
                old(self)@,
                StmtModel::While(cond@, Box::new(body@)),
            ),
    {
        self.push_frame(Frame::WhileCond(share(cond), share(body)));
        self.proceed(Control::Expr(share(cond)))
    }

    /// Starts a variable declaration: with an initializer, that is evaluated
    /// first; without one, the variable is defined as nil.
    pub fn visit_var_stmt(&mut self, name: &Token, init: &Option<Rc<Expr>>) -> (a: Action)
        ensures
            (final(self)@, a@) == exec_model(
                old(self)@,
                StmtModel::Var(name@, crate::expr::expr_option_model(*init)),
            ),
    {
        match init {
            Some(e) => {
                self.push_frame(Frame::Var(name.duplicate()));
                self.proceed(Control::Expr(share(e)))
            },
            None => {
                self.define_here(name.lexeme.clone(), LoxValue::Nil);
                self.proceed(Control::Value(LoxValue::Nil))
            },
        }
    }

    /// Starts a class declaration: under a superclass, that expression is
    /// evaluated first; otherwise the class is declared at once.
    pub fn visit_class(
        &mut self,
        name: &Token,
        superclass: &Option<Rc<Expr>>,
        methods: &Vec<Rc<Stmt>>,
    ) -> (a: Action)
        ensures
            (final(self)@, a@) == exec_model(
                old(self)@,
                StmtModel::Class(
                    name@,
                    crate::expr::expr_option_model(*superclass),
                    stmts_model(methods@),
                ),
            ),
    {
        match superclass {
            Some(sc) => {
                self.push_frame(Frame::Superclass(name.duplicate(), share_all(methods)));
                self.proceed(Control::Expr(share(sc)))
            },
            None => self.declare_class(name, None, methods),
        }
    }

    /// Whether every statement of the list is a function declaration.
    fn only_functions(methods: &Vec<Rc<Stmt>>) -> (r: bool)
        ensures
            r == all_functions(stmts_model(methods@)),
    {
        let mut i: usize = 0;
        while i < methods.len()
            invariant
                0 <= i <= methods.len(),
                forall|j: int| 0 <= j < i ==> #[trigger] stmts_model(methods@)[j] is Func,
            decreases methods.len() - i,
        {
            let method: &Stmt = &methods[i];
            match method {
                Stmt::Func(_, _, _) => {},
                _ => {
                    assert(!(stmts_model(methods@)[i as int] is Func));
                    return false;
                },
            }
            i += 1;
        }
        true
    }

    /// Adds the methods of a class to the heap's methods, each closing
    /// over `closure`, and returns the class's method table.
    fn install_methods(&mut self, methods: &Vec<Rc<Stmt>>, closure: usize) -> (table: Table<usize>)
        ensures
            final(self)@ == with_heap(
                old(self)@,
                with_methods(
                    old(self)@.heap,
                    method_functions(old(self)@.heap.methods, stmts_model(methods@), closure),
                ),
            ),
            table@ == method_table(old(self)@.heap.methods, stmts_model(methods@), closure),
    {
        let ghost model = stmts_model(methods@);
        let ghost base = self@.heap.methods;
        let mut table: Table<usize> = Table::new();
        let mut i: usize = 0;
        assert(model.take(0) =~= Seq::empty());
        while i < methods.len()
            invariant
                0 <= i <= methods.len(),
                model == stmts_model(methods@),
                base == old(self)@.heap.methods,
                self@ == with_heap(
                    old(self)@,
                    with_methods(
                        old(self)@.heap,
                        method_functions(base, model.take(i as int), closure),
                    ),
                ),
                table@ == method_table(base, model.take(i as int), closure),
            decreases methods.len() - i,
        {
            assert(model.take(i + 1).drop_last() =~= model.take(i as int));
            assert(model.take(i + 1).last() == methods@[i as int]@);
            let method: &Stmt = &methods[i];
            match method {
                Stmt::Func(name, params, body) => {
                    let function = LoxFunction {
                        name: name.duplicate(),
                        params: duplicate_tokens(params),
                        body: share_all(body),
                        closure,
                        is_initializer: name.lexeme == String::from_str("init"),
                    };
                    let id = self.heap.push_method(function);
                    table.insert(name.lexeme.clone(), id);
                },
                _ => {},
            }
            i += 1;
        }
        assert(model.take(i as int) =~= model);
        table
    }

    /// Declares a class: see [`declare_class_model`].
    fn declare_class(&mut self, name: &Token, superclass: Option<usize>, methods: &Vec<Rc<Stmt>>) -> (a:
        Action)
        ensures
            (final(self)@, a@) == declare_class_model(
                old(self)@,
                name@,
                superclass,
                stmts_model(methods@),
            ),
    {
        if !Interpreter::only_functions(methods) {
            return self.fail(
                Error::runtime(
                    String::from_str("only functions can be methods of a class"),
                    Some(name.line),
                ),
            );
        }
        self.define_here(name.lexeme.clone(), LoxValue::Nil);
        let closure = match superclass {
            Some(sc) => {
                let ghost before = self.heap.envs@;
                let id = self.heap.push_env(Some(self.env));
                let ghost pushed = self.heap.envs@;
                assert(envs_model(pushed) == envs_model(before).push(
                    crate::env::EnvModel { values: Map::empty(), enclosing: Some(self.env) },
                ));
                assert(envs_model(pushed)[id as int] == pushed[id as int]@);
                self.heap.envs[id].define(String::from_str("super"), LoxValue::Class(sc));
                assert(envs_model(self.heap.envs@) =~= envs_model(before).push(
                    super_frame(self.env, sc),
                )) by {
                    assert forall|j: int| 0 <= j < before.len() implies envs_model(
                        self.heap.envs@,
                    )[j] == envs_model(before)[j] by {
                        assert(envs_model(pushed)[j] == envs_model(before).push(
                            crate::env::EnvModel {
                                values: Map::empty(),
                                enclosing: Some(self.env),
                            },
                        )[j]);
                    }
                }
                id
            },
            None => self.env,
        };
        let table = self.install_methods(methods, closure);
        let class = LoxClass::new(&mut self.heap.classes, name.lexeme.clone(), superclass, table);
        Env::assign(&mut self.heap.envs, self.env, name.lexeme.clone(), LoxValue::Class(class.id));
        self.proceed(Control::Value(LoxValue::Nil))
    }

}


/// The error with the line of the operator that raised it.
pub fn with_line(e: Error, line: usize) -> (r: Error)
    ensures
        r@ == at_line(e@, line),
{
    Error { kind: e.kind, msg: e.msg, line: Some(line) }
}

/// Applies a binary operator to two values.
pub fn binary(op: &Token, left: LoxValue, right: LoxValue) -> (r: Result<Outcome, Error>)
    ensures
        crate::lox_value::outcome_result(r) == binary_model(op@, left@, right@),
{
    match op.token_type {
        TokenType::Minus => left.subtract(right),
        TokenType::Plus => left.plus(right),
        TokenType::Star => left.multiply(right),
        TokenType::Slash => left.divide(right),
        TokenType::Greater => match left.greater(right) {
            Ok(v) => Ok(Outcome::Value(v)),
            Err(e) => Err(e),
        },
        TokenType::GreaterEqual => match left.greater_equal(right) {
            Ok(v) => Ok(Outcome::Value(v)),
            Err(e) => Err(e),
        },
        TokenType::Less => match left.less(right) {
            Ok(v) => Ok(Outcome::Value(v)),
            Err(e) => Err(e),
        },
        TokenType::LessEqual => match left.less_equal(right) {
            Ok(v) => Ok(Outcome::Value(v)),
            Err(e) => Err(e),
        },
        TokenType::EqualEqual => match left.equal_equal(right) {
            Ok(v) => Ok(Outcome::Value(v)),
            Err(e) => Err(e),
        },
        TokenType::BangEqual => match left.bang_equal(right) {
            Ok(v) => Ok(Outcome::Value(v)),
            Err(e) => Err(e),
        },
        _ => Err(Error::runtime(String::from_str("invalid operator"), Some(op.line))),
    }
}

impl Interpreter {
    /// The text form of a value, for `print`.
    pub fn render(&self, v: &LoxValue) -> (o: Output)
        ensures
            o@ == render_model(self@.heap, v@),
    {
        match v {
            LoxValue::Number(n) => Output::Number(*n),
            LoxValue::Str(s) => Output::Text(s.clone()),
            LoxValue::Bool(b) => Output::Text(
                if *b {
                    String::from_str("true")
                } else {
                    String::from_str("false")
                },
            ),
            LoxValue::Time(s, n) => Output::Time(*s, *n),
            LoxValue::Native(_) => Output::Text(String::from_str("<fn clock>")),
            LoxValue::Fn(f) => {
                if *f < self.heap.functions.len() {
                    let mut text = String::from_str("<fn ");
                    push_text(&mut text, self.heap.functions[*f].name.lexeme.as_str());
                    push_text(&mut text, ">");
                    Output::Text(text)
                } else {
                    Output::Text(String::from_str("<fn>"))
                }
            },
            LoxValue::Class(c) => Output::Text(self.class_name(*c)),
            LoxValue::Instance(i) => {
                if *i < self.heap.instances.len() {
                    let mut text = self.class_name(self.heap.instances[*i].klass);
                    push_text(&mut text, " instance");
                    Output::Text(text)
                } else {
                    Output::Text(String::from_str("instance"))
                }
            },
            LoxValue::Nil => Output::Text(String::from_str("nil")),
        }
    }

    fn class_name(&self, c: usize) -> (s: String)
        ensures
            s@ == class_name(self@.heap, c),
    {
        if c < self.heap.classes.len() {
            self.heap.classes[c].name.clone()
        } else {
            String::new()
        }
    }

    /// Checks the number of arguments and enters the callee: with a wrong
    /// number the call fails and nothing of the callee runs.
    pub fn invoke<C: Callable>(&mut self, callee: &C, args: Vec<LoxValue>, paren: &Token) -> (a:
        Action)
        ensures
            (final(self)@, a@) == checked_call(
                old(self)@,
                callee.name_model(old(self)@.heap),
                callee.arity_model(old(self)@.heap),
                values_model(args@),
                paren@,
                callee.call_model(old(self)@, values_model(args@)),
            ),
    {
        let arity = callee.arity(&self.heap);
        if args.len() != arity {
            let mut msg = String::from_str("wrong number of arguments in `");
            push_text(&mut msg, callee.name(&self.heap).as_str());
            push_text(&mut msg, "`\nexpected: ");
            push_decimal(&mut msg, arity);
            push_text(&mut msg, "\ngot: ");
            push_decimal(&mut msg, args.len());
            return self.fail(Error::runtime(msg, Some(paren.line)));
        }
        callee.call(self, args)
    }

    /// Calls `callee` with `args`, which have all been evaluated.
    pub fn call_value(&mut self, callee: LoxValue, args: Vec<LoxValue>, paren: &Token) -> (a: Action)
        ensures
            (final(self)@, a@) == call_value_model(
                old(self)@,
                callee@,
                values_model(args@),
                paren@,
            ),
    {
        match callee {
            LoxValue::Native(clock) => self.invoke(&clock, args, paren),
            LoxValue::Fn(f) => {
                if f < self.heap.functions.len() {
                    let function = self.heap.functions[f].duplicate();
                    self.invoke(&function, args, paren)
                } else {
                    self.not_callable(paren)
                }
            },
            LoxValue::Class(c) => {
                if c < self.heap.classes.len() {
                    self.invoke(&LoxClass { id: c }, args, paren)
                } else {
                    self.not_callable(paren)
                }
            },
            _ => self.not_callable(paren),
        }
    }

    fn not_callable(&mut self, paren: &Token) -> (a: Action)
        ensures
            (final(self)@, a@) == fail(old(self)@, not_callable(paren@)),
    {
        self.fail(
            Error::runtime(String::from_str("can only call functions and classes"), Some(paren.line)),
        )
    }

    /// Ends a call: the caller's environment is current again; an
    /// initializer gives its `this`, any other function gives `v`.
    fn finish_call(&mut self, saved: usize, closure: usize, is_initializer: bool, v: LoxValue) -> (a:
        Action)
        ensures
            (final(self)@, a@) == finish_call_model(
                old(self)@,
                saved,
                closure,
                is_initializer,
                v@,
            ),
    {
        if is_initializer {
            let this = if closure < self.heap.envs.len() {
                match self.heap.envs[closure].values.get(&String::from_str("this")) {
                    Some(t) => Some(t.duplicate()),
                    None => None,
                }
            } else {
                None
            };
            match this {
                Some(t) => {
                    self.env = saved;
                    self.proceed(Control::Value(t))
                },
                None => self.fail(
                    Error::runtime(
                        String::from_str("initializer is not bound to an instance"),
                        None,
                    ),
                ),
            }
        } else {
            self.env = saved;
            self.proceed(Control::Value(v))
        }
    }

    fn resume_assign(&mut self, name: Token, slot: i32, v: LoxValue) -> (a: Action)
        ensures
            (final(self)@, a@) == resume_model(old(self)@, FrameModel::Assign(name@, slot), v@),
    {
        let target = if slot < 0 {
            Env::find(&self.heap.envs, self.globals, &name.lexeme)
        } else {
            Env::find_at(&self.heap.envs, self.env, &name.lexeme, slot)
        };
        match target {
            Some(t) => {
                self.heap.envs[t].define(name.lexeme.clone(), v.duplicate());
                assert(envs_model(self.heap.envs@) =~= crate::env::bind_in(
                    envs_model(old(self).heap.envs@),
                    t,
                    name@.lexeme,
                    v@,
                ));
                self.proceed(Control::Value(v))
            },
            None => {
                let mut msg = String::from_str("undefined variable: ");
                push_text(&mut msg, name.lexeme.as_str());
                self.fail(Error::runtime(msg, Some(name.line)))
            },
        }
    }

    fn resume_unary(&mut self, op: Token, v: LoxValue) -> (a: Action)
        ensures
            (final(self)@, a@) == resume_model(old(self)@, FrameModel::Unary(op@), v@),
    {
        match op.token_type {
            TokenType::Minus => match v.negate_number() {
                Ok(x) => self.proceed(Control::Value(x)),
                Err(e) => self.fail(with_line(e, op.line)),
            },
            TokenType::Bang => self.proceed(Control::Value(LoxValue::Bool(!v.is_truthy()))),
            _ => self.fail(Error::runtime(String::from_str("invalid operator"), Some(op.line))),
        }
    }

    fn resume_binary(&mut self, op: Token, left: LoxValue, v: LoxValue) -> (a: Action)
        ensures
            (final(self)@, a@) == resume_model(
                old(self)@,
                FrameModel::BinaryRight(op@, left@),
                v@,
            ),
    {
        match binary(&op, left, v) {
            Ok(Outcome::Value(x)) => self.proceed(Control::Value(x)),
            Ok(Outcome::Arithmetic(o, x, y)) => {
                self.control = Control::AwaitNumber;
                Action::Arithmetic(o, x, y)
            },
            Err(e) => self.fail(with_line(e, op.line)),
        }
    }

    /// Short-circuit: `or` gives a truthy left operand and `and` a falsy
    /// one without evaluating the right operand.
    fn resume_logical(&mut self, op: Token, right: Rc<Expr>, v: LoxValue) -> (a: Action)
        ensures
            (final(self)@, a@) == resume_model(old(self)@, FrameModel::Logical(op@, right@), v@),
    {
        let is_or = op.token_type == TokenType::Or;
        if is_or == v.is_truthy() {
            self.proceed(Control::Value(v))
        } else {
            self.proceed(Control::Expr(right))
        }
    }

    fn resume_callee(&mut self, paren: Token, args: Vec<Rc<Expr>>, v: LoxValue) -> (a: Action)
        ensures
            (final(self)@, a@) == resume_model(
                old(self)@,
                FrameModel::Callee(paren@, exprs_model(args@)),
                v@,
            ),
    {
        if args.len() == 0 {
            let none: Vec<LoxValue> = Vec::new();
            assert(values_model(none@) =~= Seq::empty());
            self.call_value(v, none, &paren)
        } else {
            let first = share(&args[0]);
            let none: Vec<LoxValue> = Vec::new();
            assert(values_model(none@) =~= Seq::empty());
            self.push_frame(Frame::Args(paren, args, v, none));
            self.proceed(Control::Expr(first))
        }
    }

    fn resume_args(
        &mut self,
        paren: Token,
        args: Vec<Rc<Expr>>,
        callee: LoxValue,
        done: Vec<LoxValue>,
        v: LoxValue,
    ) -> (a: Action)
        ensures
            (final(self)@, a@) == resume_model(
                old(self)@,
                FrameModel::Args(paren@, exprs_model(args@), callee@, values_model(done@)),
                v@,
            ),
    {
        let mut done = done;
        let ghost before = done@;
        done.push(v);
        assert(values_model(done@) =~= values_model(before).push(v@));
        if done.len() < args.len() {
            let next = share(&args[done.len()]);
            self.push_frame(Frame::Args(paren, args, callee, done));
            self.proceed(Control::Expr(next))
        } else {
            self.call_value(callee, done, &paren)
        }
    }

    fn resume_get(&mut self, name: Token, v: LoxValue) -> (a: Action)
        ensures
            (final(self)@, a@) == resume_model(old(self)@, FrameModel::Get(name@), v@),
    {
        match v {
            LoxValue::Instance(id) => {
                if id < self.heap.instances.len() {
                    match LoxInstance::get(&mut self.heap, id, &name) {
                        Ok(x) => {
                            return self.proceed(Control::Value(x));
                        },
                        Err(e) => {
                            return self.fail(e);
                        },
                    }
                }
            },
            _ => {},
        }
        self.fail(
            Error::runtime(String::from_str("only instances have properties"), Some(name.line)),
        )
    }

    fn resume_set_object(&mut self, name: Token, value: Rc<Expr>, v: LoxValue) -> (a: Action)
        ensures
            (final(self)@, a@) == resume_model(
                old(self)@,
                FrameModel::SetObject(name@, value@),
                v@,
            ),
    {
        match v {
            LoxValue::Instance(id) => {
                if id < self.heap.instances.len() {
                    self.push_frame(Frame::SetValue(name, id));
                    return self.proceed(Control::Expr(value));
                }
            },
            _ => {},
        }
        self.fail(Error::runtime(String::from_str("only instances have fields"), Some(name.line)))
    }

    fn resume_set_value(&mut self, name: Token, id: usize, v: LoxValue) -> (a: Action)
        ensures
            (final(self)@, a@) == resume_model(old(self)@, FrameModel::SetValue(name@, id), v@),
    {
        if id < self.heap.instances.len() {
            let _ = self.heap.instances[id].set(&name, v.duplicate());
            assert(crate::lox_instance::instances_model(self.heap.instances@)
                =~= crate::lox_instance::instances_model(old(self).heap.instances@).update(
                id as int,
                crate::lox_instance::InstanceModel {
                    klass: old(self)@.heap.instances[id as int].klass,
                    fields: old(self)@.heap.instances[id as int].fields.insert(name@.lexeme, v@),
                },
            ));
            self.proceed(Control::Value(v))
        } else {
            self.fail(
                Error::runtime(String::from_str("only instances have fields"), Some(name.line)),
            )
        }
    }

    fn resume_print(&mut self, v: LoxValue) -> (a: Action)
        ensures
            (final(self)@, a@) == resume_model(old(self)@, FrameModel::Print, v@),
    {
        let out = self.render(&v);
        self.control = Control::Value(LoxValue::Nil);
        Action::Print(out)
    }

    /// Goes on in a block: the next statement, or, at the end, back to the
    /// environment that was current before the block.
    fn resume_block(&mut self, stmts: Vec<Rc<Stmt>>, next: usize, saved: usize) -> (a: Action)
        ensures
            (final(self)@, a@) == resume_model(
                old(self)@,
                FrameModel::Block(stmts_model(stmts@), next, saved),
                ValueModel::Nil,
            ),
    {
        if next < stmts.len() {
            let stmt = share(&stmts[next]);
            self.push_frame(Frame::Block(stmts, next + 1, saved));
            self.proceed(Control::Stmt(stmt))
        } else {
            self.env = saved;
            self.proceed(Control::Value(LoxValue::Nil))
        }
    }

    fn resume_program(&mut self, stmts: Vec<Rc<Stmt>>, next: usize) -> (a: Action)
        ensures
            (final(self)@, a@) == resume_model(
                old(self)@,
                FrameModel::Program(stmts_model(stmts@), next),
                ValueModel::Nil,
            ),
    {
        if next < stmts.len() {
            let stmt = share(&stmts[next]);
            self.push_frame(Frame::Program(stmts, next + 1));
            self.proceed(Control::Stmt(stmt))
        } else {
            self.proceed(Control::Value(LoxValue::Nil))
        }
    }

    /// Goes on in the body of a call: the next statement, or, at the end,
    /// the end of the call.
    fn resume_call(
        &mut self,
        stmts: Vec<Rc<Stmt>>,
        next: usize,
        saved: usize,
        closure: usize,
        is_initializer: bool,
    ) -> (a: Action)
        ensures
            (final(self)@, a@) == resume_model(
                old(self)@,
                FrameModel::Call(stmts_model(stmts@), next, saved, closure, is_initializer),
                ValueModel::Nil,
            ),
    {
        if next < stmts.len() {
            let stmt = share(&stmts[next]);
            self.push_frame(Frame::Call(stmts, next + 1, saved, closure, is_initializer));
            self.proceed(Control::Stmt(stmt))
        } else {
            self.finish_call(saved, closure, is_initializer, LoxValue::Nil)
        }
    }

    fn resume_if(&mut self, then_branch: Rc<Stmt>, else_branch: Option<Rc<Stmt>>, v: LoxValue) -> (a:
        Action)
        ensures
            (final(self)@, a@) == resume_model(
                old(self)@,
                (Frame::If(then_branch, else_branch))@,
                v@,
            ),
    {
        if v.is_truthy() {
            self.proceed(Control::Stmt(then_branch))
        } else {
            match else_branch {
                Some(e) => self.proceed(Control::Stmt(e)),
                None => self.proceed(Control::Value(LoxValue::Nil)),
            }
        }
    }

    fn resume_while(&mut self, cond: Rc<Expr>, body: Rc<Stmt>, v: LoxValue) -> (a: Action)
        ensures
            (final(self)@, a@) == resume_model(
                old(self)@,
                FrameModel::WhileCond(cond@, body@),
                v@,
            ),
    {
        if v.is_truthy() {
            let run = share(&body);
            self.push_frame(Frame::WhileBody(cond, body));
            self.proceed(Control::Stmt(run))
        } else {
            self.proceed(Control::Value(LoxValue::Nil))
        }
    }

    fn resume_superclass(&mut self, name: Token, methods: Vec<Rc<Stmt>>, v: LoxValue) -> (a: Action)
        ensures
            (final(self)@, a@) == resume_model(
                old(self)@,
                FrameModel::Superclass(name@, stmts_model(methods@)),
                v@,
            ),
    {
        match v {
            LoxValue::Class(c) => {
                if c < self.heap.classes.len() {
                    return self.declare_class(&name, Some(c), &methods);
                }
            },
            _ => {},
        }
        self.fail(Error::runtime(String::from_str("superclass must be a class"), Some(name.line)))
    }

    /// Hands the value `v` to the frame `f`, which has been taken off the
    /// stack.
    fn resume(&mut self, f: Frame, v: LoxValue) -> (a: Action)
        ensures
            (final(self)@, a@) == resume_model(old(self)@, f@, v@),
    {
        match f {
            Frame::Assign(name, slot) => self.resume_assign(name, slot, v),
            Frame::Unary(op) => self.resume_unary(op, v),
            Frame::BinaryLeft(op, right) => {
                self.push_frame(Frame::BinaryRight(op, v));
                self.proceed(Control::Expr(right))
            },
            Frame::BinaryRight(op, left) => self.resume_binary(op, left, v),
            Frame::Logical(op, right) => self.resume_logical(op, right, v),
            Frame::Callee(paren, args) => self.resume_callee(paren, args, v),
            Frame::Args(paren, args, callee, done) => self.resume_args(paren, args, callee, done, v),
            Frame::Get(name) => self.resume_get(name, v),
            Frame::SetObject(name, value) => self.resume_set_object(name, value, v),
            Frame::SetValue(name, id) => self.resume_set_value(name, id, v),
            Frame::Discard => self.proceed(Control::Value(LoxValue::Nil)),
            Frame::Print => self.resume_print(v),
            Frame::Var(name) => {
                self.define_here(name.lexeme, v);
                self.proceed(Control::Value(LoxValue::Nil))
            },
            Frame::Block(stmts, next, saved) => self.resume_block(stmts, next, saved),
            Frame::Program(stmts, next) => self.resume_program(stmts, next),
            Frame::If(then_branch, else_branch) => self.resume_if(then_branch, else_branch, v),
            Frame::WhileCond(cond, body) => self.resume_while(cond, body, v),
            Frame::WhileBody(cond, body) => {
                let test = share(&cond);
                self.push_frame(Frame::WhileCond(cond, body));
                self.proceed(Control::Expr(test))
            },
            Frame::Return => self.proceed(Control::Return(v)),
            Frame::Superclass(name, methods) => self.resume_superclass(name, methods, v),
            Frame::Call(stmts, next, saved, closure, is_initializer) => self.resume_call(
                stmts,
                next,
                saved,
                closure,
                is_initializer,
            ),
            Frame::Construct(id) => self.proceed(Control::Value(LoxValue::Instance(id))),
        }
    }

    /// Unwinds a `return` past the frame `f`, which has been taken off the
    /// stack: only the frame of a call catches it.
    fn unwind(&mut self, f: Frame, v: LoxValue) -> (a: Action)
        ensures
            (final(self)@, a@) == unwind_model(old(self)@, f@, v@),
    {
        match f {
            Frame::Call(_, _, saved, closure, is_initializer) => self.finish_call(
                saved,
                closure,
                is_initializer,
                v,
            ),
            _ => self.proceed(Control::Return(v)),
        }
    }

    /// An interpreter before any program: the globals hold `clock`.
    pub fn new() -> (i: Interpreter)
        ensures
            i@ == initial(),
    {
        let mut heap = Heap::new();
        let mut globals = Env::new();
        globals.define(String::from_str("clock"), LoxValue::Native(ClockFn));
        heap.envs.push(globals);
        let i = Interpreter {
            heap,
            env: 0,
            globals: 0,
            control: Control::Idle,
            stack: Vec::new(),
        };
        assert(i@.heap.envs =~= initial().heap.envs);
        assert(i@.stack =~= Seq::empty());
        i
    }

    /// Loads a program: the interpreter is at global level and about to run
    /// the first statement. The heap and the globals stay as they are, so
    /// that one line after another can be run in the same interpreter.
    pub fn interpret(&mut self, stmts: Vec<Rc<Stmt>>)
        ensures
            final(self)@ == loaded(old(self)@, stmts_model(stmts@)),
    {
        let mut stack: Vec<Frame> = Vec::new();
        stack.push(Frame::Program(stmts, 0));
        self.stack = stack;
        self.env = self.globals;
        self.control = Control::Value(LoxValue::Nil);
        assert(frames_model(self.stack@) =~= seq![FrameModel::Program(stmts_model(stmts@), 0)]);
    }

    /// Makes one transition. `event` is the host's answer to the action
    /// that the transition before this one returned.
    pub fn step(&mut self, event: Event) -> (a: Action)
        ensures
            (final(self)@, a@) == step_model(old(self)@, event),
    {
        let mut control = Control::Idle;
        core::mem::swap(&mut self.control, &mut control);
        match control {
            Control::Idle => Action::Done,
            Control::Expr(e) => walk_expr(self, &e),
            Control::Stmt(s) => walk_stmt(self, &s),
            Control::Value(v) => {
                let ghost before = self.stack@;
                match self.stack.pop() {
                    Some(f) => {
                        assert(frames_model(self.stack@) =~= frames_model(before).drop_last());
                        self.resume(f, v)
                    },
                    None => Action::Done,
                }
            },
            Control::Return(v) => {
                let ghost before = self.stack@;
                match self.stack.pop() {
                    Some(f) => {
                        assert(frames_model(self.stack@) =~= frames_model(before).drop_last());
                        self.unwind(f, v)
                    },
                    None => self.fail(
                        Error::runtime(String::from_str("can't return from top-level code"), None),
                    ),
                }
            },
            Control::AwaitNumber => match event {
                Event::Number(n) => self.proceed(Control::Value(LoxValue::Number(n))),
                _ => self.unexpected(),
            },
            Control::AwaitTime => match event {
                Event::Time(s, n) => self.proceed(Control::Value(LoxValue::Time(s, n))),
                _ => self.unexpected(),
            },
        }
    }

    fn unexpected(&mut self) -> (a: Action)
        ensures
            (final(self)@, a@) == fail(old(self)@, unexpected_event()),
    {
        self.fail(
            Error::runtime(
                String::from_str("the host answered with something that was not asked for"),
                None,
            ),
        )
    }

    /// Makes the transition that takes `event`, and then up to `budget`
    /// more for as long as nothing is asked of the host. Returns the first
    /// action that is not [`Action::Continue`], or `Continue` when the
    /// budget is used up.
    pub fn run(&mut self, event: Event, budget: usize) -> (a: Action)
        ensures
            (final(self)@, a@) == run_model(old(self)@, event, budget as nat),
    {
        let mut action = self.step(event);
        let mut left = budget;
        while left > 0
            invariant
                continue_model(self@, action@, left as nat) == run_model(
                    old(self)@,
                    event,
                    budget as nat,
                ),
            decreases left,
        {
            match action {
                Action::Continue => {},
                _ => {
                    return action;
                },
            }
            action = self.step(Event::Resume);
            left -= 1;
        }
        action
    }
}

} // verus!
