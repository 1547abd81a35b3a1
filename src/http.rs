use vstd::prelude::*;

verus! {

/// The HTTP front of the store; the listening loop runs outside the library.
pub struct Server {}

impl Server {
    pub fn new() -> (r: Self)
        ensures
            r == (Server {}),
    {
        Server {}
    }
}

} // verus!
