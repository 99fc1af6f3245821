use vstd::prelude::*;

verus! {

/// The parts of a `multipart` body, separated by `boundary`.
#[derive(Debug)]
pub struct Multipart {
    boundary: String,
}

impl Multipart {
    pub closed spec fn boundary_spec(&self) -> Seq<char> {
        self.boundary@
    }

    pub fn new(boundary: String) -> (r: Self)
        ensures
            r.boundary_spec() == boundary@,
    {
        Multipart { boundary }
    }

    pub fn boundary(&self) -> (r: &str)
        ensures
            r@ == self.boundary_spec(),
    {
        self.boundary.as_str()
    }
}

} // verus!
