use vstd::prelude::*;

verus! {

/// A space-processing setting in two parts: the target of the operation and
/// how far it is carried out.
#[derive(Clone, Copy, PartialEq, Eq, Default, Debug)]
pub struct Operation<O, E> {
    pub operation: O,
    pub execution: E,
}

impl<O, E> Operation<O, E> {
    pub fn new(operation: O, execution: E) -> (r: Self)
        ensures
            r.operation == operation,
            r.execution == execution,
    {
        Operation { operation, execution }
    }
}

} // verus!
