//! What can be called: native functions, user functions and classes.
use crate::heap::{Heap, HeapModel};
use crate::interpreter::{Action, Interpreter};
use crate::lox_value::{LoxValue, ValueModel, values_model};
use crate::machine::{ActionModel, MachineModel};
use vstd::prelude::*;

verus! {

/// The contract of a callable value. A call does not run the callee to its
/// end: it makes the one transition that enters it, and the interpreter
/// goes on from there.
pub trait Callable {
    /// The name of the callable, as error messages give it.
    spec fn name_model(&self, heap: HeapModel) -> Seq<char>;

    /// The number of arguments it takes.
    spec fn arity_model(&self, heap: HeapModel) -> nat;

    /// The transition that a call with `args` makes.
    spec fn call_model(&self, m: MachineModel, args: Seq<ValueModel>) -> (MachineModel, ActionModel);

    fn name(&self, heap: &Heap) -> (s: String)
        ensures
            s@ == self.name_model(heap@),
    ;

    fn arity(&self, heap: &Heap) -> (n: usize)
        ensures
            n == self.arity_model(heap@),
    ;

    /// Enters the callee with `args`, which are as many as it takes.
    fn call(&self, interpreter: &mut Interpreter, args: Vec<LoxValue>) -> (a: Action)
        requires
            args.len() == self.arity_model(old(interpreter)@.heap),
        ensures
            (final(interpreter)@, a@) == self.call_model(old(interpreter)@, values_model(args@)),
    ;
}

} // verus!
