//! User functions: a declaration together with the environment it captured.
use crate::callable::Callable;
use crate::env::{Env, EnvModel, envs_model};
use crate::heap::{Heap, HeapModel};
use crate::interpreter::{Action, Control, Frame, Interpreter};
use crate::lox_value::{LoxValue, ValueModel, values_model};
use crate::machine::{ActionModel, MachineModel, bind_params, call_function_model};
use crate::sharing::share_all;
use crate::stmt::{Stmt, StmtModel, stmts_model};
use crate::token::{Token, TokenModel, duplicate_tokens, tokens_model};
use std::rc::Rc;
use vstd::prelude::*;
use vstd::string::StringExecFns;

verus! {

/// A function value: name, parameters and body of the declaration, the
/// environment that was current when the declaration ran, and whether the
/// function is a class's initializer.
pub struct LoxFunction {
    pub name: Token,
    pub params: Vec<Token>,
    pub body: Vec<Rc<Stmt>>,
    pub closure: usize,
    pub is_initializer: bool,
}

/// The mathematical content of [`LoxFunction`].
pub struct FunctionModel {
    pub name: TokenModel,
    pub params: Seq<TokenModel>,
    pub body: Seq<StmtModel>,
    pub closure: usize,
    pub is_initializer: bool,
}

impl View for LoxFunction {
    type V = FunctionModel;

    open spec fn view(&self) -> FunctionModel {
        FunctionModel {
            name: self.name@,
            params: tokens_model(self.params@),
            body: stmts_model(self.body@),
            closure: self.closure,
            is_initializer: self.is_initializer,
        }
    }
}

/// The views of a list of functions.
pub open spec fn functions_model(fs: Seq<LoxFunction>) -> Seq<FunctionModel> {
    Seq::new(fs.len(), |i: int| fs[i]@)
}

/// The frame that binding a method creates: `this` bound to the instance,
/// enclosed by the environment that the method captured.
pub open spec fn this_frame(closure: usize, instance: ValueModel) -> EnvModel {
    EnvModel { values: Map::empty().insert("this"@, instance), enclosing: Some(closure) }
}

/// The method `f` bound to an instance: the same declaration, closing over
/// the frame `frame`, which holds `this`.
pub open spec fn bound(f: FunctionModel, frame: usize) -> FunctionModel {
    FunctionModel {
        name: f.name,
        params: f.params,
        body: f.body,
        closure: frame,
        is_initializer: f.is_initializer,
    }
}

impl LoxFunction {
    /// A copy of this function that shares the body.
    pub fn duplicate(&self) -> (r: LoxFunction)
        ensures
            r@ == self@,
    {
        LoxFunction {
            name: self.name.duplicate(),
            params: duplicate_tokens(&self.params),
            body: share_all(&self.body),
            closure: self.closure,
            is_initializer: self.is_initializer,
        }
    }

    /// Binds this method to `instance`: a new frame that holds `this` and is
    /// enclosed by the method's own closure is added to `envs`, and the
    /// result is the same function closing over that frame.
    pub fn bind(&self, envs: &mut Vec<Env>, instance: LoxValue) -> (r: LoxFunction)
        ensures
            final(envs).len() == old(envs).len() + 1,
            envs_model(final(envs)@) == envs_model(old(envs)@).push(
                this_frame(self.closure, instance@),
            ),
            r@ == bound(self@, old(envs).len() as usize),
    {
        let mut env = Env::new();
        env.enclosing = Some(self.closure);
        env.define(String::from_str("this"), instance);
        let frame = envs.len();
        envs.push(env);
        assert(envs_model(envs@) =~= envs_model(old(envs)@).push(
            this_frame(self.closure, instance@),
        ));
        let f = self.duplicate();
        LoxFunction {
            name: f.name,
            params: f.params,
            body: f.body,
            closure: frame,
            is_initializer: f.is_initializer,
        }
    }
}


impl Callable for LoxFunction {
    open spec fn name_model(&self, heap: HeapModel) -> Seq<char> {
        self@.name.lexeme
    }

    open spec fn arity_model(&self, heap: HeapModel) -> nat {
        self@.params.len()
    }

    open spec fn call_model(&self, m: MachineModel, args: Seq<ValueModel>) -> (
        MachineModel,
        ActionModel,
    ) {
        call_function_model(m, self@, args)
    }

    fn name(&self, heap: &Heap) -> (s: String) {
        self.name.lexeme.clone()
    }

    fn arity(&self, heap: &Heap) -> (n: usize) {
        self.params.len()
    }

    /// Enters the function: a new environment that encloses the captured
    /// one, not the caller's, binds each parameter in order and becomes
    /// current; a frame on the stack holds the body and the environment to
    /// go back to.
    fn call(&self, interpreter: &mut Interpreter, args: Vec<LoxValue>) -> (a: Action) {
        let mut env = Env::new();
        env.enclosing = Some(self.closure);
        let ghost params = tokens_model(self.params@);
        let ghost values = values_model(args@);
        let mut i: usize = 0;
        assert(params.take(0) =~= Seq::empty());
        while i < self.params.len()
            invariant
                0 <= i <= self.params.len(),
                args.len() == self.params.len(),
                params == tokens_model(self.params@),
                values == values_model(args@),
                env@.enclosing == Some(self.closure),
                env@.values == bind_params(params.take(i as int), values),
            decreases self.params.len() - i,
        {
            assert(params.take(i + 1).drop_last() =~= params.take(i as int));
            assert(params.take(i + 1).last() == self.params@[i as int]@);
            env.define(self.params[i].lexeme.clone(), args[i].duplicate());
            i += 1;
        }
        assert(params.take(i as int) =~= params);
        let id = interpreter.heap.envs.len();
        interpreter.heap.envs.push(env);
        assert(envs_model(interpreter.heap.envs@) =~= envs_model(old(interpreter).heap.envs@).push(
            env@,
        ));
        interpreter.push_frame(
            Frame::Call(
                share_all(&self.body),
                0,
                interpreter.env,
                self.closure,
                self.is_initializer,
            ),
        );
        interpreter.env = id;
        interpreter.proceed(Control::Value(LoxValue::Nil))
    }
}

} // verus!
