use vstd::prelude::*;
use vstd::string::StringExecFns;

use crate::error::{GraphError, error_text};
use crate::ident::{EndLabel, NodeId};
use crate::run::cursor::{Cursor, clone_ids, id_names};
use crate::state::state::State;

verus! {

/// A saved run: the state, and where the run stands.
#[derive(Debug)]
pub struct Checkpoint<C> {
    pub state: State<C>,
    pub cursor: Cursor,
}

impl<C> Checkpoint<C> {
    pub fn new(state: State<C>, cursor: Cursor) -> (r: Checkpoint<C>)
        ensures
            r.state == state,
            r.cursor == cursor,
    {
        Checkpoint { state, cursor }
    }
}

/// How a run stopped without failing.
#[derive(Debug)]
pub enum Outcome<C> {
    /// No node is left; the run ends with a label.
    Finished { state: State<C>, end: EndLabel },
    /// A pause was asked for; the run stopped between supersteps.
    Paused { checkpoint: Checkpoint<C> },
    /// A cancel was asked for; the run stopped with the superstep undone.
    Cancelled { checkpoint: Checkpoint<C> },
}

/// A failed run: where it stood, and why it failed.
#[derive(Debug)]
pub struct RunFailure<C> {
    pub checkpoint: Checkpoint<C>,
    pub error: GraphError,
}

/// A failed run, saved where it stood: the state, and the nodes it was
/// running and deferring when `error` came.
pub fn fail<C>(state: State<C>, active: &Vec<NodeId>, deferred: &Vec<NodeId>, error: GraphError) -> (r:
    RunFailure<C>)
    ensures
        r.checkpoint.state == state,
        id_names(r.checkpoint.cursor.active@) == id_names(active@),
        id_names(r.checkpoint.cursor.deferred@) == id_names(deferred@),
        r.error == error,
{
    RunFailure {
        checkpoint: Checkpoint::new(state, Cursor::new(clone_ids(active), clone_ids(deferred))),
        error,
    }
}

impl<C> RunFailure<C> {
    /// What the failure says: "run failed: " and what its error says.
    pub fn to_string(&self) -> (r: String)
        ensures
            r@ == "run failed: "@ + error_text(self.error),
    {
        let mut s = String::from_str("run failed: ");
        let inner = self.error.to_string();
        s.append(inner.as_str());
        s
    }
}

} // verus!
