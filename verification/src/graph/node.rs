use vstd::prelude::*;

verus! {

/// A node whose work is a function of the state, the config and the
/// context.
pub struct FnNode<F>(F);

impl<F> FnNode<F> {
    pub fn new(f: F) -> (r: FnNode<F>)
        ensures
            r.function() == f,
    {
        FnNode(f)
    }

    pub closed spec fn function(&self) -> F {
        self.0
    }

    /// The function the node calls.
    pub fn call_target(&self) -> (r: &F)
        ensures
            *r == self.function(),
    {
        &self.0
    }
}

} // verus!
