use vstd::prelude::*;

use crate::error::GraphError;
use crate::graph::map::MapNode;
use crate::ident::NodeId;
use crate::run::cursor::Cursor;
use crate::state::schema::Schema;

verus! {

/// What a node runs: a node of the caller's, or a map over a list.
pub enum NodeBody<N> {
    Plain(N),
    Mapped(MapNode<N>),
}

/// A registered node: what it runs, and whether it is a join (a node that
/// waits until no other node is pending before it runs).
pub struct NodeEntry<N> {
    pub body: NodeBody<N>,
    pub is_join: bool,
}

/// Whether `name` is registered as a join in the parallel sequences of ids
/// and join flags.
pub open spec fn join_in(ids: Seq<Seq<char>>, joins: Seq<bool>, name: Seq<char>) -> bool {
    exists|i: int| 0 <= i < ids.len() && ids[i] == name && #[trigger] joins[i]
}

/// A validated graph: distinct node ids in declaration order, an entry among
/// them, and exactly one edge from every node. `N` is the node type and `E`
/// the edge type.
pub struct Graph<N, E> {
    schema: Schema,
    entry: NodeId,
    nodes: Vec<(NodeId, NodeEntry<N>)>,
    edges: Vec<(NodeId, E)>,
}

impl<N, E> Graph<N, E> {
    /// The node ids, in declaration order.
    pub closed spec fn ids(&self) -> Seq<Seq<char>> {
        self.nodes@.map_values(|e: (NodeId, NodeEntry<N>)| e.0@)
    }

    /// The nodes, in declaration order.
    pub closed spec fn node_entries(&self) -> Seq<(NodeId, NodeEntry<N>)> {
        self.nodes@
    }

    /// The edges, one per node.
    pub closed spec fn edge_entries(&self) -> Seq<(NodeId, E)> {
        self.edges@
    }

    /// The join flags, parallel to the ids.
    pub closed spec fn joins(&self) -> Seq<bool> {
        self.nodes@.map_values(|e: (NodeId, NodeEntry<N>)| e.1.is_join)
    }

    /// The nodes the edges start from.
    pub closed spec fn edge_froms(&self) -> Seq<Seq<char>> {
        self.edges@.map_values(|e: (NodeId, E)| e.0@)
    }

    pub closed spec fn entry_name(&self) -> Seq<char> {
        self.entry@
    }

    pub closed spec fn config_kinds(&self) -> Map<Seq<char>, crate::state::kind::Kind> {
        self.schema.config@
    }

    pub closed spec fn state_kinds(&self) -> Map<Seq<char>, crate::state::kind::Kind> {
        self.schema.state@
    }

    #[verifier::type_invariant]
    pub closed spec fn well_formed(&self) -> bool {
        &&& self.ids().no_duplicates()
        &&& self.ids().contains(self.entry@)
        &&& self.edge_froms().no_duplicates()
        &&& self.edge_froms().to_set() == self.ids().to_set()
    }

    /// Whether `name` is a join of the graph.
    pub open spec fn is_join_name(&self, name: Seq<char>) -> bool {
        join_in(self.ids(), self.joins(), name)
    }

    /// The facts every graph keeps.
    pub fn lemma_well_formed(&self)
        ensures
            self.ids().no_duplicates(),
            self.ids().contains(self.entry_name()),
            self.edge_froms().to_set() == self.ids().to_set(),
            self.joins().len() == self.ids().len(),
    {
        proof {
            use_type_invariant(self);
        }
    }

    pub fn assemble(
        schema: Schema,
        entry: NodeId,
        nodes: Vec<(NodeId, NodeEntry<N>)>,
        edges: Vec<(NodeId, E)>,
    ) -> (r: Graph<N, E>)
        requires
            nodes@.map_values(|e: (NodeId, NodeEntry<N>)| e.0@).no_duplicates(),
            nodes@.map_values(|e: (NodeId, NodeEntry<N>)| e.0@).contains(entry@),
            edges@.map_values(|e: (NodeId, E)| e.0@).no_duplicates(),
            edges@.map_values(|e: (NodeId, E)| e.0@).to_set() == nodes@.map_values(
                |e: (NodeId, NodeEntry<N>)| e.0@,
            ).to_set(),
        ensures
            r.ids() == nodes@.map_values(|e: (NodeId, NodeEntry<N>)| e.0@),
            r.joins() == nodes@.map_values(|e: (NodeId, NodeEntry<N>)| e.1.is_join),
            r.edge_froms() == edges@.map_values(|e: (NodeId, E)| e.0@),
            r.entry_name() == entry@,
            r.state_kinds() == schema.state@,
            r.config_kinds() == schema.config@,
            r.node_entries() == nodes@,
            r.edge_entries() == edges@,
    {
        Graph { schema, entry, nodes, edges }
    }

    pub fn schema(&self) -> (r: &Schema)
        ensures
            r.state@ == self.state_kinds(),
            r.config@ == self.config_kinds(),
    {
        &self.schema
    }

    pub fn entry(&self) -> (r: &NodeId)
        ensures
            r@ == self.entry_name(),
    {
        &self.entry
    }

    /// The node ids, in declaration order.
    pub fn order(&self) -> (r: Vec<NodeId>)
        ensures
            r@.map_values(|id: NodeId| id@) == self.ids(),
    {
        let n = self.nodes.len();
        let mut r: Vec<NodeId> = Vec::new();
        let mut i: usize = 0;
        while i < n
            invariant
                n == self.nodes@.len(),
                i <= n,
                r@.len() == i,
                forall|j: int| 0 <= j < i ==> #[trigger] r@[j]@ == self.ids()[j],
            decreases n - i,
        {
            r.push(self.nodes[i].0.clone());
            i = i + 1;
        }
        assert(r@.map_values(|id: NodeId| id@) =~= self.ids());
        r
    }

    pub fn position(&self, id: &NodeId) -> (r: Option<usize>)
        ensures
            match r {
                Some(i) => i < self.ids().len() && self.ids()[i as int] == id@,
                None => !self.ids().contains(id@),
            },
    {
        let n = self.nodes.len();
        let mut i: usize = 0;
        while i < n
            invariant
                n == self.nodes@.len(),
                i <= n,
                forall|j: int| 0 <= j < i ==> #[trigger] self.ids()[j] != id@,
            decreases n - i,
        {
            if self.nodes[i].0.same(id) {
                return Some(i);
            }
            i = i + 1;
        }
        None
    }

    /// Whether `id` is a node of the graph.
    pub fn contains(&self, id: &NodeId) -> (r: bool)
        ensures
            r == self.ids().contains(id@),
    {
        self.position(id).is_some()
    }

    /// What the node `id` runs.
    pub fn node(&self, id: &NodeId) -> (r: Option<&NodeBody<N>>)
        ensures
            r is Some <==> self.ids().contains(id@),
            r matches Some(b) ==> exists|i: int|
                0 <= i < self.node_entries().len() && #[trigger] self.node_entries()[i].0@ == id@
                    && *b == self.node_entries()[i].1.body,
    {
        match self.position(id) {
            Some(i) => {
                proof {
                    assert(self.ids()[i as int] == self.node_entries()[i as int].0@);
                    assert(self.node_entries()[i as int].0@ == id@);
                }
                Some(&self.nodes[i].1.body)
            },
            None => None,
        }
    }

    /// Whether `id` is a join; false for an unknown id.
    pub fn is_join(&self, id: &NodeId) -> (r: bool)
        ensures
            r == self.is_join_name(id@),
    {
        proof {
            use_type_invariant(self);
        }
        match self.position(id) {
            Some(i) => {
                proof {
                    if !self.nodes@[i as int].1.is_join {
                        assert forall|j: int|
                            0 <= j < self.ids().len() && self.ids()[j] == id@ implies !#[trigger] self.joins()[j] by {
                            assert(self.ids()[j] == self.ids()[i as int]);
                        }
                    } else {
                        assert(self.joins()[i as int]);
                    }
                }
                self.nodes[i].1.is_join
            },
            None => false,
        }
    }

    /// The edge from `id`.
    pub fn edge(&self, id: &NodeId) -> (r: Option<&E>)
        ensures
            r is Some <==> self.ids().contains(id@),
            r matches Some(e) ==> exists|j: int|
                0 <= j < self.edge_entries().len() && #[trigger] self.edge_entries()[j].0@ == id@
                    && *e == self.edge_entries()[j].1,
    {
        proof {
            use_type_invariant(self);
        }
        let n = self.edges.len();
        let mut i: usize = 0;
        while i < n
            invariant
                n == self.edges@.len(),
                i <= n,
                self.edge_froms().to_set() == self.ids().to_set(),
                forall|j: int| 0 <= j < i ==> #[trigger] self.edge_froms()[j] != id@,
            decreases n - i,
        {
            if self.edges[i].0.same(id) {
                proof {
                    assert(self.edge_froms()[i as int] == id@);
                    assert(self.edge_froms().contains(id@));
                    assert(self.edge_froms().to_set().contains(id@));
                    assert(self.ids().to_set().contains(id@));
                    assert(self.edge_entries()[i as int].0@ == id@);
                }
                return Some(&self.edges[i].1);
            }
            i = i + 1;
        }
        proof {
            assert(!self.edge_froms().contains(id@));
            assert(!self.edge_froms().to_set().contains(id@));
            assert(!self.ids().to_set().contains(id@));
        }
        None
    }

    /// Checks that every node a cursor names is in the graph; otherwise
    /// `UnknownNode` for the first one that is not, active nodes first.
    pub fn validate_cursor(&self, cursor: &Cursor) -> (r: Result<(), GraphError>)
        ensures
            r is Ok <==> forall|i: int|
                0 <= i < cursor.names().len() ==> self.ids().contains(#[trigger] cursor.names()[i]),
            r matches Err(e) ==> exists|i: int|
                0 <= i < cursor.names().len() && !self.ids().contains(cursor.names()[i]) && (forall|
                    j: int,
                | 0 <= j < i ==> self.ids().contains(#[trigger] cursor.names()[j])) && (e matches GraphError::UnknownNode {
                    id,
                } && id@ == cursor.names()[i]),
    {
        let na = cursor.active.len();
        let nd = cursor.deferred.len();
        let mut i: usize = 0;
        while i < na
            invariant
                na == cursor.active@.len(),
                nd == cursor.deferred@.len(),
                cursor.names().len() == na + nd,
                i <= na,
                forall|j: int| 0 <= j < i ==> self.ids().contains(#[trigger] cursor.names()[j]),
            decreases na - i,
        {
            if !self.contains(&cursor.active[i]) {
                proof {
                    assert(cursor.names()[i as int] == cursor.active@[i as int]@);
                }
                return Err(GraphError::UnknownNode { id: cursor.active[i].clone() });
            }
            proof {
                assert(cursor.names()[i as int] == cursor.active@[i as int]@);
            }
            i = i + 1;
        }
        let mut k: usize = 0;
        while k < nd
            invariant
                na == cursor.active@.len(),
                nd == cursor.deferred@.len(),
                cursor.names().len() == na + nd,
                k <= nd,
                forall|j: int| 0 <= j < na + k ==> self.ids().contains(#[trigger] cursor.names()[j]),
            decreases nd - k,
        {
            if !self.contains(&cursor.deferred[k]) {
                proof {
                    assert(cursor.names()[na + k] == cursor.deferred@[k as int]@);
                }
                return Err(GraphError::UnknownNode { id: cursor.deferred[k].clone() });
            }
            proof {
                assert(cursor.names()[na + k] == cursor.deferred@[k as int]@);
            }
            k = k + 1;
        }
        Ok(())
    }
}

} // verus!
