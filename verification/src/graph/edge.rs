use vstd::prelude::*;

use crate::ident::{EndLabel, NodeId};

verus! {

/// Where an edge leads: to a node, or to the end of the run with a label.
#[derive(Debug, PartialEq, Eq)]
pub enum Target {
    Node(NodeId),
    End(EndLabel),
}

/// A target, as names.
pub enum TargetView {
    Node(Seq<char>),
    End(Seq<char>),
}

impl View for Target {
    type V = TargetView;

    open spec fn view(&self) -> TargetView {
        match self {
            Target::Node(id) => TargetView::Node(id@),
            Target::End(label) => TargetView::End(label@),
        }
    }
}

impl Clone for Target {
    fn clone(&self) -> (r: Target)
        ensures
            r@ == self@,
    {
        match self {
            Target::Node(id) => Target::Node(id.clone()),
            Target::End(label) => Target::End(label.clone()),
        }
    }
}

/// An edge computed by a function of the state and the config.
pub struct FnEdge<F>(F);

impl<F> FnEdge<F> {
    pub fn new(f: F) -> (r: FnEdge<F>)
        ensures
            r.function() == f,
    {
        FnEdge(f)
    }

    pub closed spec fn function(&self) -> F {
        self.0
    }

    /// The function the edge calls.
    pub fn call_target(&self) -> (r: &F)
        ensures
            *r == self.function(),
    {
        &self.0
    }
}

/// An edge that always leads to the same target.
pub struct Always(pub Target);

impl Always {
    /// The one target.
    pub fn targets(&self) -> (r: Vec<Target>)
        ensures
            r@.len() == 1,
            r@[0]@ == self.0@,
    {
        let mut v = Vec::new();
        v.push(self.0.clone());
        v
    }
}

} // verus!
