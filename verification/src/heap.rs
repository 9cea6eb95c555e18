//! The heap of a running program: every environment, function, method,
//! class and instance, each named by its index in its list. Nothing is ever removed,
//! so an index stays valid once it has been handed out.
use crate::env::{Env, EnvModel, envs_model};
use crate::lox_class::{ClassModel, LoxClassInner, classes_model};
use crate::lox_function::{FunctionModel, LoxFunction, bound, functions_model, this_frame};
use crate::lox_instance::{InstanceModel, LoxInstance, instances_model};
use crate::lox_value::{LoxValue, ValueModel};
use vstd::prelude::*;

verus! {

/// The heap: the environments, the functions that can be called, the
/// methods of the classes as they were declared, the classes and the
/// instances.
pub struct Heap {
    pub envs: Vec<Env>,
    pub functions: Vec<LoxFunction>,
    pub methods: Vec<LoxFunction>,
    pub classes: Vec<LoxClassInner>,
    pub instances: Vec<LoxInstance>,
}

/// The mathematical content of [`Heap`].
pub struct HeapModel {
    pub envs: Seq<EnvModel>,
    /// The functions that can be called: declared functions and bound
    /// methods.
    pub functions: Seq<FunctionModel>,
    /// The methods of the classes, as they were declared: not bound to any
    /// instance, and reached only through the method table of a class.
    pub methods: Seq<FunctionModel>,
    pub classes: Seq<ClassModel>,
    pub instances: Seq<InstanceModel>,
}

impl View for Heap {
    type V = HeapModel;

    open spec fn view(&self) -> HeapModel {
        HeapModel {
            envs: envs_model(self.envs@),
            functions: functions_model(self.functions@),
            methods: functions_model(self.methods@),
            classes: classes_model(self.classes@),
            instances: instances_model(self.instances@),
        }
    }
}

/// The heap after method `m` is bound to `instance`: one more frame, which
/// holds `this`, and one more function, which closes over that frame.
pub open spec fn bind_model(heap: HeapModel, m: usize, instance: ValueModel) -> HeapModel {
    HeapModel {
        envs: heap.envs.push(this_frame(heap.methods[m as int].closure, instance)),
        functions: heap.functions.push(bound(heap.methods[m as int], heap.envs.len() as usize)),
        methods: heap.methods,
        classes: heap.classes,
        instances: heap.instances,
    }
}

/// The heap with one more frame.
pub open spec fn with_env(heap: HeapModel, env: EnvModel) -> HeapModel {
    HeapModel {
        envs: heap.envs.push(env),
        functions: heap.functions,
        methods: heap.methods,
        classes: heap.classes,
        instances: heap.instances,
    }
}

/// The heap with other frames.
pub open spec fn with_envs(heap: HeapModel, envs: Seq<EnvModel>) -> HeapModel {
    HeapModel {
        envs,
        functions: heap.functions,
        methods: heap.methods,
        classes: heap.classes,
        instances: heap.instances,
    }
}

/// The heap with one more function.
pub open spec fn with_function(heap: HeapModel, f: FunctionModel) -> HeapModel {
    HeapModel {
        envs: heap.envs,
        functions: heap.functions.push(f),
        methods: heap.methods,
        classes: heap.classes,
        instances: heap.instances,
    }
}

/// The heap with one more method.
pub open spec fn with_method(heap: HeapModel, f: FunctionModel) -> HeapModel {
    HeapModel {
        envs: heap.envs,
        functions: heap.functions,
        methods: heap.methods.push(f),
        classes: heap.classes,
        instances: heap.instances,
    }
}

/// The heap with one more instance.
pub open spec fn with_instance(heap: HeapModel, i: InstanceModel) -> HeapModel {
    HeapModel {
        envs: heap.envs,
        functions: heap.functions,
        methods: heap.methods,
        classes: heap.classes,
        instances: heap.instances.push(i),
    }
}

impl Heap {
    /// A heap that holds nothing.
    pub fn new() -> (h: Heap)
        ensures
            h@ == (HeapModel {
                envs: Seq::empty(),
                functions: Seq::empty(),
                methods: Seq::empty(),
                classes: Seq::empty(),
                instances: Seq::empty(),
            }),
    {
        let h = Heap {
            envs: Vec::new(),
            functions: Vec::new(),
            methods: Vec::new(),
            classes: Vec::new(),
            instances: Vec::new(),
        };
        assert(h@.envs =~= Seq::empty());
        assert(h@.functions =~= Seq::empty());
        assert(h@.methods =~= Seq::empty());
        assert(h@.classes =~= Seq::empty());
        assert(h@.instances =~= Seq::empty());
        h
    }

    /// Adds a frame without bindings, enclosed by `enclosing`, and returns
    /// its index.
    pub fn push_env(&mut self, enclosing: Option<usize>) -> (id: usize)
        ensures
            id == old(self).envs.len(),
            final(self).envs.len() == old(self).envs.len() + 1,
            final(self)@ == with_env(old(self)@, EnvModel { values: Map::empty(), enclosing }),
    {
        let mut env = Env::new();
        env.enclosing = enclosing;
        let id = self.envs.len();
        self.envs.push(env);
        assert(envs_model(self.envs@) =~= envs_model(old(self).envs@).push(
            EnvModel { values: Map::empty(), enclosing },
        ));
        id
    }

    /// Adds a function and returns its index.
    pub fn push_function(&mut self, f: LoxFunction) -> (id: usize)
        ensures
            id == old(self).functions.len(),
            final(self).functions.len() == old(self).functions.len() + 1,
            final(self)@ == with_function(old(self)@, f@),
    {
        let id = self.functions.len();
        self.functions.push(f);
        assert(functions_model(self.functions@) =~= functions_model(old(self).functions@).push(f@));
        id
    }

    /// Adds a method as it was declared and returns its index among the
    /// methods.
    pub fn push_method(&mut self, f: LoxFunction) -> (id: usize)
        ensures
            id == old(self).methods.len(),
            final(self).methods.len() == old(self).methods.len() + 1,
            final(self)@ == with_method(old(self)@, f@),
    {
        let id = self.methods.len();
        self.methods.push(f);
        assert(functions_model(self.methods@) =~= functions_model(old(self).methods@).push(f@));
        id
    }

    /// Adds an instance and returns its index.
    pub fn push_instance(&mut self, i: LoxInstance) -> (id: usize)
        ensures
            id == old(self).instances.len(),
            final(self).instances.len() == old(self).instances.len() + 1,
            final(self)@ == with_instance(old(self)@, i@),
    {
        let id = self.instances.len();
        self.instances.push(i);
        assert(instances_model(self.instances@) =~= instances_model(old(self).instances@).push(
            i@,
        ));
        id
    }

    /// Binds the method at index `m` to `instance` and returns the index of
    /// the bound function among the functions.
    pub fn bind(&mut self, m: usize, instance: LoxValue) -> (id: usize)
        requires
            m < old(self).methods.len(),
        ensures
            id == old(self).functions.len(),
            final(self).functions.len() == old(self).functions.len() + 1,
            final(self).envs.len() == old(self).envs.len() + 1,
            final(self)@ == bind_model(old(self)@, m, instance@),
    {
        let f = self.methods[m].bind(&mut self.envs, instance);
        let id = self.functions.len();
        self.functions.push(f);
        assert(functions_model(self.functions@) =~= functions_model(old(self).functions@).push(
            bound(old(self).methods@[m as int]@, old(self).envs.len() as usize),
        ));
        id
    }
}

} // verus!
