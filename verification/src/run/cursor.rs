use vstd::prelude::*;

use crate::ident::NodeId;

verus! {

/// The names of a sequence of node ids.
pub open spec fn id_names(ids: Seq<NodeId>) -> Seq<Seq<char>> {
    ids.map_values(|id: NodeId| id@)
}

/// Where a run stands between supersteps: the nodes to run next, and the
/// joins that wait for them.
#[derive(Debug)]
pub struct Cursor {
    pub active: Vec<NodeId>,
    pub deferred: Vec<NodeId>,
}

impl Cursor {
    /// The node names a cursor holds, active nodes first.
    pub open spec fn names(&self) -> Seq<Seq<char>> {
        id_names(self.active@) + id_names(self.deferred@)
    }

    pub fn new(active: Vec<NodeId>, deferred: Vec<NodeId>) -> (r: Cursor)
        ensures
            r.active == active,
            r.deferred == deferred,
    {
        Cursor { active, deferred }
    }

    /// A cursor with no node.
    pub fn empty() -> (r: Cursor)
        ensures
            r.active@.len() == 0,
            r.deferred@.len() == 0,
    {
        Cursor { active: Vec::new(), deferred: Vec::new() }
    }

    /// Whether no node is active or deferred.
    pub fn is_empty(&self) -> (r: bool)
        ensures
            r == (self.active@.len() == 0 && self.deferred@.len() == 0),
    {
        self.active.len() == 0 && self.deferred.len() == 0
    }
}

impl Clone for Cursor {
    fn clone(&self) -> (r: Cursor)
        ensures
            id_names(r.active@) == id_names(self.active@),
            id_names(r.deferred@) == id_names(self.deferred@),
    {
        Cursor { active: clone_ids(&self.active), deferred: clone_ids(&self.deferred) }
    }
}

/// A copy of a sequence of node ids.
pub fn clone_ids(ids: &Vec<NodeId>) -> (r: Vec<NodeId>)
    ensures
        id_names(r@) == id_names(ids@),
{
    let n = ids.len();
    let mut r: Vec<NodeId> = Vec::new();
    let mut i: usize = 0;
    while i < n
        invariant
            n == ids@.len(),
            i <= n,
            r@.len() == i,
            forall|j: int| 0 <= j < i ==> #[trigger] r@[j]@ == ids@[j]@,
        decreases n - i,
    {
        r.push(ids[i].clone());
        i = i + 1;
    }
    assert(id_names(r@) =~= id_names(ids@));
    r
}

} // verus!
