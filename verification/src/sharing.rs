//! Shared ownership of syntax trees: the interpreter keeps handles to the
//! parts of a program it still has to run without copying them.
use std::rc::Rc;
use vstd::prelude::*;

verus! {

/// Another handle to the value behind `rc`.
///
/// Trusted: the body is `Rc::clone`, which makes a second pointer to the same
/// allocation; the contract says that both handles hold the same value.
#[verifier::external_body]
pub(crate) fn share<T>(rc: &Rc<T>) -> (res: Rc<T>)
    ensures
        res == *rc,
{
    Rc::clone(rc)
}

/// Handles to all the values of a list, in order.
pub fn share_all<T>(list: &Vec<Rc<T>>) -> (res: Vec<Rc<T>>)
    ensures
        res@ == list@,
{
    let mut out: Vec<Rc<T>> = Vec::new();
    let mut i: usize = 0;
    while i < list.len()
        invariant
            0 <= i <= list.len(),
            out@.len() == i,
            forall|j: int| 0 <= j < i ==> out@[j] == list@[j],
        decreases list.len() - i,
    {
        out.push(share(&list[i]));
        i += 1;
    }
    assert(out@ =~= list@);
    out
}

} // verus!
