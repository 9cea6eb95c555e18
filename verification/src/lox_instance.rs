//! Instances: a class and a table of fields.
use crate::error::{Error, ErrorModel, runtime_error};
use crate::heap::{Heap, HeapModel, bind_model};
use crate::lox_class::{LoxClass, LoxClassInner, find_method_model};
use crate::lox_value::{LoxValue, ValueModel, value_result};
use crate::table::Table;
use crate::token::{Token, TokenModel};
use vstd::prelude::*;
use vstd::string::StringExecFns;

verus! {

/// An instance: the heap index of its class, and its fields.
pub struct LoxInstance {
    pub klass: usize,
    pub field: Table<LoxValue>,
}

/// The mathematical content of [`LoxInstance`].
pub struct InstanceModel {
    pub klass: usize,
    pub fields: Map<Seq<char>, ValueModel>,
}

impl View for LoxInstance {
    type V = InstanceModel;

    open spec fn view(&self) -> InstanceModel {
        InstanceModel { klass: self.klass, fields: self.field@ }
    }
}

/// The views of a list of instances.
pub open spec fn instances_model(is: Seq<LoxInstance>) -> Seq<InstanceModel> {
    Seq::new(is.len(), |i: int| is[i]@)
}

/// An instance of class `klass` without fields.
pub open spec fn fresh_instance(klass: usize) -> InstanceModel {
    InstanceModel { klass, fields: Map::empty() }
}

pub open spec fn undefined_property(name: TokenModel) -> ErrorModel {
    runtime_error("undefined property: "@ + name.lexeme, Some(name.line))
}

/// Reading a property of instance `id`: a field of that name if there is
/// one; otherwise the method that the class resolves, bound to the instance
/// (which adds a frame and a function to the heap); otherwise an error.
pub open spec fn property_model(heap: HeapModel, id: usize, name: TokenModel) -> (
    HeapModel,
    Result<ValueModel, ErrorModel>,
) {
    if id >= heap.instances.len() {
        (heap, Err(undefined_property(name)))
    } else if heap.instances[id as int].fields.contains_key(name.lexeme) {
        (heap, Ok(heap.instances[id as int].fields[name.lexeme]))
    } else {
        match find_method_model(heap.classes, heap.instances[id as int].klass, name.lexeme) {
            Some(m) => if m < heap.methods.len() {
                (
                    bind_model(heap, m, ValueModel::Instance(id)),
                    Ok(ValueModel::Fn(heap.functions.len() as usize)),
                )
            } else {
                (heap, Err(undefined_property(name)))
            },
            None => (heap, Err(undefined_property(name))),
        }
    }
}

impl LoxInstance {
    /// A fresh instance of `klass`, with no fields.
    pub fn new(klass: &LoxClass) -> (i: LoxInstance)
        ensures
            i@ == fresh_instance(klass.id),
    {
        LoxInstance { klass: klass.id, field: Table::new() }
    }

    /// Reads the property `name` of instance `id`: fields shadow methods, and
    /// a method comes back bound to the instance.
    pub fn get(heap: &mut Heap, id: usize, name: &Token) -> (r: Result<LoxValue, Error>)
        ensures
            (final(heap)@, value_result(r)) == property_model(old(heap)@, id, name@),
    {
        if id < heap.instances.len() {
            match heap.instances[id].field.get(&name.lexeme) {
                Some(v) => {
                    return Ok(v.duplicate());
                },
                None => {},
            }
            match LoxClassInner::find_method(&heap.classes, heap.instances[id].klass, &name.lexeme)
            {
                Some(m) => {
                    if m < heap.methods.len() {
                        let f = heap.bind(m, LoxValue::Instance(id));
                        return Ok(LoxValue::Fn(f));
                    }
                },
                None => {},
            }
        }
        let msg = String::from_str("undefined property: ").concat(name.lexeme.as_str());
        Err(Error::runtime(msg, Some(name.line)))
    }

    /// Writes the field `name`, creating it on the first write.
    pub fn set(&mut self, name: &Token, value: LoxValue) -> (r: Result<LoxValue, Error>)
        ensures
            final(self)@ == (InstanceModel {
                klass: old(self)@.klass,
                fields: old(self)@.fields.insert(name@.lexeme, value@),
            }),
            value_result(r) == Ok::<ValueModel, ErrorModel>(ValueModel::Nil),
    {
        self.field.insert(name.lexeme.clone(), value);
        Ok(LoxValue::Nil)
    }
}

/// Fields shadow methods: a property that is a field is read as that field,
/// whatever the class defines, and the heap is left as it was.
pub proof fn fields_shadow_methods(heap: HeapModel, id: usize, name: TokenModel)
    requires
        id < heap.instances.len(),
        heap.instances[id as int].fields.contains_key(name.lexeme),
    ensures
        property_model(heap, id, name) == (
            heap,
            Ok::<ValueModel, ErrorModel>(heap.instances[id as int].fields[name.lexeme]),
        ),
{
}

/// Method binding: a property that is no field but a method of the class is
/// read as a new function with the method's declaration whose closure is a
/// new frame that binds `this` to the instance and is enclosed by the
/// method's own closure.
pub proof fn methods_are_bound_to_the_instance(heap: HeapModel, id: usize, name: TokenModel, m: usize)
    requires
        id < heap.instances.len(),
        !heap.instances[id as int].fields.contains_key(name.lexeme),
        find_method_model(heap.classes, heap.instances[id as int].klass, name.lexeme) == Some(m),
        m < heap.methods.len(),
    ensures
        ({
            let (after, r) = property_model(heap, id, name);
            let f = after.functions.last();
            let frame = after.envs.last();
            &&& r == Ok::<ValueModel, ErrorModel>(ValueModel::Fn(heap.functions.len() as usize))
            &&& after.functions.len() == heap.functions.len() + 1
            &&& after.envs.len() == heap.envs.len() + 1
            &&& f.closure == heap.envs.len() as usize
            &&& f.body == heap.methods[m as int].body
            &&& f.params == heap.methods[m as int].params
            &&& frame.values["this"@] == ValueModel::Instance(id)
            &&& frame.enclosing == Some(heap.methods[m as int].closure)
        }),
{
}

} // verus!
