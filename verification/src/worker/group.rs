use std::rc::Rc;
use vstd::prelude::*;

verus! {

/// A number of worker processes that all run the same worker.
pub struct WorkerGroup<W: ?Sized> {
    pub count: u32,
    pub worker: Rc<W>,
}

impl<W: ?Sized> WorkerGroup<W> {
    pub fn new(count: u32, worker: Rc<W>) -> (r: Self)
        ensures
            r.count == count,
            r.worker == worker,
    {
        Self { count: count, worker: worker }
    }
}

} // verus!
