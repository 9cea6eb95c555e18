//! The one native function of the language.
use crate::callable::Callable;
use crate::heap::{Heap, HeapModel};
use crate::interpreter::{Action, Control, Interpreter};
use crate::lox_value::{LoxValue, ValueModel};
use crate::machine::{ActionModel, MachineModel, call_clock_model};
use vstd::prelude::*;
use vstd::string::StringExecFns;

verus! {

/// `clock()`: takes no arguments and yields the current wall-clock instant,
/// which the interpreter asks of the host.
#[derive(Copy, Clone, Debug, PartialEq, Eq, Structural)]
pub struct ClockFn;

impl Callable for ClockFn {
    open spec fn name_model(&self, heap: HeapModel) -> Seq<char> {
        "clock"@
    }

    open spec fn arity_model(&self, heap: HeapModel) -> nat {
        0
    }

    open spec fn call_model(&self, m: MachineModel, args: Seq<ValueModel>) -> (
        MachineModel,
        ActionModel,
    ) {
        call_clock_model(m)
    }

    fn name(&self, heap: &Heap) -> (s: String) {
        String::from_str("clock")
    }

    fn arity(&self, heap: &Heap) -> (n: usize) {
        0
    }

    /// Asks the host for the time.
    fn call(&self, interpreter: &mut Interpreter, args: Vec<LoxValue>) -> (a: Action) {
        interpreter.control = Control::AwaitTime;
        Action::Clock
    }
}

} // verus!
