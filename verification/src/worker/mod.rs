pub mod group;

use vstd::prelude::*;

verus! {

/// The work that a worker process does: it makes a context, runs in it, and cleans up.
pub trait Worker {
    type Context;

    fn init(&self) -> Self::Context;

    fn run(&self, context: &mut Self::Context);

    fn cleanup(&self, context: &mut Self::Context);
}

} // verus!
