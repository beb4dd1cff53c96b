use vstd::prelude::*;

verus! {

/// An observer that watches nothing: every event of a run is ignored.
#[derive(Debug, Clone, Copy)]
pub struct NoopObserver;

} // verus!
