//! Classes: a name, an optional superclass and a table of methods.
use crate::callable::Callable;
use crate::heap::{Heap, HeapModel};
use crate::interpreter::{Action, Control, Frame, Interpreter};
use crate::lox_instance::LoxInstance;
use crate::lox_value::{LoxValue, ValueModel};
use crate::machine::{ActionModel, MachineModel, call_class_model, class_arity, class_name};
use crate::table::Table;
use vstd::prelude::*;
use vstd::string::StringExecFns;

verus! {

/// A class value: the place of the class's record in the interpreter's heap.
#[derive(Copy, Clone, Debug, PartialEq, Eq, Structural)]
pub struct LoxClass {
    pub id: usize,
}

/// The record of a class. Methods are named by their place in the heap's
/// list of methods, the superclass by its place in the list of classes.
/// A class is not changed after it is made.
pub struct LoxClassInner {
    pub name: String,
    pub superclass: Option<usize>,
    pub methods: Table<usize>,
}

/// The mathematical content of [`LoxClassInner`].
pub struct ClassModel {
    pub name: Seq<char>,
    pub superclass: Option<usize>,
    pub methods: Map<Seq<char>, usize>,
}

impl View for LoxClassInner {
    type V = ClassModel;

    open spec fn view(&self) -> ClassModel {
        ClassModel { name: self.name@, superclass: self.superclass, methods: self.methods@ }
    }
}

/// The views of a list of classes.
pub open spec fn classes_model(cs: Seq<LoxClassInner>) -> Seq<ClassModel> {
    Seq::new(cs.len(), |i: int| cs[i]@)
}

/// Method resolution: the method of that name in the class's own table, or
/// else the one that the superclass resolves, or else none. A class is
/// always made after its superclass, and the search follows only such
/// references.
pub open spec fn find_method_model(classes: Seq<ClassModel>, id: usize, name: Seq<char>) -> Option<
    usize,
>
    decreases id,
{
    if id >= classes.len() {
        None
    } else if classes[id as int].methods.contains_key(name) {
        Some(classes[id as int].methods[name])
    } else {
        match classes[id as int].superclass {
            Some(s) => if s < id {
                find_method_model(classes, s, name)
            } else {
                None
            },
            None => None,
        }
    }
}

impl LoxClass {
    /// Makes a class: its record is added to `classes`.
    pub fn new(
        classes: &mut Vec<LoxClassInner>,
        name: String,
        superclass: Option<usize>,
        methods: Table<usize>,
    ) -> (c: LoxClass)
        ensures
            c.id == old(classes).len(),
            classes_model(final(classes)@) == classes_model(old(classes)@).push(
                ClassModel { name: name@, superclass, methods: methods@ },
            ),
    {
        let id = classes.len();
        classes.push(LoxClassInner::new(name, superclass, methods));
        assert(classes_model(classes@) =~= classes_model(old(classes)@).push(
            ClassModel { name: name@, superclass, methods: methods@ },
        ));
        LoxClass { id }
    }

    /// A fresh instance of this class, with no fields.
    pub fn instantiate(&self) -> (i: LoxInstance)
        ensures
            i@ == crate::lox_instance::fresh_instance(self.id),
    {
        LoxInstance::new(self)
    }
}

impl LoxClassInner {
    pub fn new(name: String, superclass: Option<usize>, methods: Table<usize>) -> (c: LoxClassInner)
        ensures
            c@ == (ClassModel { name: name@, superclass, methods: methods@ }),
    {
        LoxClassInner { name, superclass, methods }
    }

    /// Looks a method up in class `id` and then in its superclasses.
    pub fn find_method(classes: &Vec<LoxClassInner>, id: usize, name: &String) -> (r: Option<usize>)
        ensures
            r == find_method_model(classes_model(classes@), id, name@),
    {
        let mut cur = id;
        loop
            invariant
                find_method_model(classes_model(classes@), cur, name@) == find_method_model(
                    classes_model(classes@),
                    id,
                    name@,
                ),
            decreases cur,
        {
            if cur >= classes.len() {
                return None;
            }
            match classes[cur].methods.get(name) {
                Some(m) => {
                    return Some(*m);
                },
                None => {},
            }
            match classes[cur].superclass {
                Some(s) => {
                    if s < cur {
                        cur = s;
                    } else {
                        return None;
                    }
                },
                None => {
                    return None;
                },
            }
        }
    }
}

/// A method of the class itself is found there, whatever the superclass
/// holds; a method that the class lacks is the one its superclass resolves.
pub proof fn method_resolution(classes: Seq<ClassModel>, id: usize, name: Seq<char>)
    requires
        id < classes.len(),
    ensures
        classes[id as int].methods.contains_key(name) ==> find_method_model(classes, id, name)
            == Some(classes[id as int].methods[name]),
        !classes[id as int].methods.contains_key(name) ==> (match classes[id as int].superclass {
            Some(s) => s < id ==> find_method_model(classes, id, name) == find_method_model(
                classes,
                s,
                name,
            ),
            None => find_method_model(classes, id, name) is None,
        }),
{
}


impl Callable for LoxClass {
    open spec fn name_model(&self, heap: HeapModel) -> Seq<char> {
        class_name(heap, self.id)
    }

    open spec fn arity_model(&self, heap: HeapModel) -> nat {
        class_arity(heap, self.id)
    }

    open spec fn call_model(&self, m: MachineModel, args: Seq<ValueModel>) -> (
        MachineModel,
        ActionModel,
    ) {
        call_class_model(m, self.id, args)
    }

    fn name(&self, heap: &Heap) -> (s: String) {
        if self.id < heap.classes.len() {
            heap.classes[self.id].name.clone()
        } else {
            String::new()
        }
    }

    /// The arity of the class's initializer, or 0 where it has none.
    fn arity(&self, heap: &Heap) -> (n: usize) {
        match LoxClassInner::find_method(&heap.classes, self.id, &String::from_str("init")) {
            Some(i) => {
                if i < heap.methods.len() {
                    heap.methods[i].params.len()
                } else {
                    0
                }
            },
            None => 0,
        }
    }

    /// Makes an instance; where the class has an initializer, binds it to
    /// the instance and enters it. Whatever the initializer gives, the
    /// result of the call is the instance.
    fn call(&self, interpreter: &mut Interpreter, args: Vec<LoxValue>) -> (a: Action) {
        let init = match LoxClassInner::find_method(
            &interpreter.heap.classes,
            self.id,
            &String::from_str("init"),
        ) {
            Some(i) => {
                if i < interpreter.heap.methods.len() {
                    Some(i)
                } else {
                    None
                }
            },
            None => None,
        };
        let id = interpreter.heap.push_instance(self.instantiate());
        match init {
            Some(i) => {
                let bound = interpreter.heap.bind(i, LoxValue::Instance(id));
                let initializer = interpreter.heap.functions[bound].duplicate();
                assert(initializer@ == interpreter@.heap.functions.last());
                interpreter.push_frame(Frame::Construct(id));
                initializer.call(interpreter, args)
            },
            None => interpreter.proceed(Control::Value(LoxValue::Instance(id))),
        }
    }
}

} // verus!
