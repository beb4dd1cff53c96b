use vstd::prelude::*;

use crate::error::GraphError;
use crate::graph::graph::{Graph, NodeBody, NodeEntry};
use crate::graph::map::MapNode;
use crate::ident::{Key, NodeId};
use crate::state::kind::Kind;
use crate::state::schema::Schema;
use crate::run::settle::last_for;

verus! {

/// The keys a map node reads and writes.
pub struct MapKeys {
    pub list: Key,
    pub item: Key,
    pub output: Key,
    pub results: Key,
}

/// The keys of a map node fit the declared kinds: `list` holds a list,
/// `item` holds the list's element kind, `output` is declared, and
/// `results` holds a list of the output's kind.
pub open spec fn map_keys_fit(
    kinds: Map<Seq<char>, Kind>,
    list: Seq<char>,
    item: Seq<char>,
    output: Seq<char>,
    results: Seq<char>,
) -> bool {
    &&& kinds.contains_key(list)
    &&& kinds[list] is List
    &&& kinds.contains_key(item)
    &&& kinds[item] == *kinds[list]->element
    &&& kinds.contains_key(output)
    &&& kinds.contains_key(results)
    &&& kinds[results] is List
    &&& *kinds[results]->element == kinds[output]
}

/// Checks the keys of the map node `id` against the schema.
pub fn check_map(schema: &Schema, id: &NodeId, keys: &MapKeys) -> (r: Result<(), GraphError>)
    ensures
        r is Ok <==> map_keys_fit(
            schema.state@,
            keys.list@,
            keys.item@,
            keys.output@,
            keys.results@,
        ),
        r matches Err(e) ==> (e matches GraphError::MapKeyMismatch { node } && node@ == id@),
        r is Ok ==> schema.state@[keys.results@] == (Kind::List {
            element: Box::new(schema.state@[keys.output@]),
        }) && schema.state@[keys.list@] == (Kind::List {
            element: Box::new(schema.state@[keys.item@]),
        }),
{
    proof {
        crate::laws::law_map_keys_fit(
            schema.state@,
            keys.list@,
            keys.item@,
            keys.output@,
            keys.results@,
        );
    }
    let element = match schema.state.get(&keys.list) {
        Some(Kind::List { element }) => element,
        _ => {
            return Err(GraphError::MapKeyMismatch { node: id.clone() });
        },
    };
    match schema.state.get(&keys.item) {
        Some(item_kind) => {
            if !item_kind.same(&**element) {
                return Err(GraphError::MapKeyMismatch { node: id.clone() });
            }
        },
        None => {
            return Err(GraphError::MapKeyMismatch { node: id.clone() });
        },
    }
    let output_kind = match schema.state.get(&keys.output) {
        Some(kind) => kind,
        None => {
            return Err(GraphError::MapKeyMismatch { node: id.clone() });
        },
    };
    match schema.state.get(&keys.results) {
        Some(Kind::List { element }) => {
            if (**element).same(output_kind) {
                Ok(())
            } else {
                Err(GraphError::MapKeyMismatch { node: id.clone() })
            }
        },
        _ => Err(GraphError::MapKeyMismatch { node: id.clone() }),
    }
}

/// Collects nodes and edges; `build` validates them into a graph.
pub struct GraphBuilder<N, E> {
    schema: Schema,
    entry: Option<NodeId>,
    nodes: Vec<(NodeId, NodeEntry<N>)>,
    edges: Vec<(NodeId, E)>,
    maps: Vec<(NodeId, MapKeys)>,
}

/// The first position of `ids` whose name occurs earlier in `ids`.
pub open spec fn first_repeat(ids: Seq<Seq<char>>, i: int) -> bool {
    &&& 0 <= i < ids.len()
    &&& ids.subrange(0, i).contains(ids[i])
    &&& forall|j: int| 0 <= j < i ==> !ids.subrange(0, j).contains(#[trigger] ids[j])
}

/// The first position of `xs` whose name is not in `ys`.
pub open spec fn first_missing(xs: Seq<Seq<char>>, ys: Seq<Seq<char>>, i: int) -> bool {
    &&& 0 <= i < xs.len()
    &&& !ys.contains(xs[i])
    &&& forall|j: int| 0 <= j < i ==> ys.contains(#[trigger] xs[j])
}

impl<N, E> GraphBuilder<N, E> {
    /// The declared config kinds.
    pub closed spec fn config_kinds(&self) -> Map<Seq<char>, Kind> {
        self.schema.config@
    }

    pub closed spec fn kinds(&self) -> Map<Seq<char>, Kind> {
        self.schema.state@
    }

    pub closed spec fn entry_view(&self) -> Option<Seq<char>> {
        match self.entry {
            Some(id) => Some(id@),
            None => None,
        }
    }

    /// The registered node ids, in order.
    pub closed spec fn node_ids(&self) -> Seq<Seq<char>> {
        self.nodes@.map_values(|e: (NodeId, NodeEntry<N>)| e.0@)
    }

    /// The join flags, parallel to the node ids.
    pub closed spec fn node_joins(&self) -> Seq<bool> {
        self.nodes@.map_values(|e: (NodeId, NodeEntry<N>)| e.1.is_join)
    }

    /// The registered nodes, in order.
    pub closed spec fn node_entries(&self) -> Seq<(NodeId, NodeEntry<N>)> {
        self.nodes@
    }

    /// The registered edges, in order.
    pub closed spec fn edge_entries(&self) -> Seq<(NodeId, E)> {
        self.edges@
    }

    /// The nodes the registered edges start from, in order.
    pub closed spec fn edge_froms(&self) -> Seq<Seq<char>> {
        self.edges@.map_values(|e: (NodeId, E)| e.0@)
    }

    /// The ids of the registered map nodes, in order.
    pub closed spec fn map_ids(&self) -> Seq<Seq<char>> {
        self.maps@.map_values(|e: (NodeId, MapKeys)| e.0@)
    }

    /// Whether the keys of the `i`th map node fit the schema.
    pub closed spec fn map_fits(&self, i: int) -> bool {
        let k = self.maps@[i].1;
        map_keys_fit(self.schema.state@, k.list@, k.item@, k.output@, k.results@)
    }

    pub fn new(schema: Schema) -> (r: GraphBuilder<N, E>)
        ensures
            r.kinds() == schema.state@,
            r.config_kinds() == schema.config@,
            r.entry_view() is None,
            r.node_ids().len() == 0,
            r.edge_froms().len() == 0,
            r.map_ids().len() == 0,
            r.node_entries().len() == 0,
            r.edge_entries().len() == 0,
    {
        GraphBuilder { schema, entry: None, nodes: Vec::new(), edges: Vec::new(), maps: Vec::new() }
    }

    /// Names the entry node.
    pub fn entry(self, id: NodeId) -> (r: GraphBuilder<N, E>)
        ensures
            r.entry_view() == Some(id@),
            r.kinds() == self.kinds(),
            r.config_kinds() == self.config_kinds(),
            r.node_entries() == self.node_entries(),
            r.edge_entries() == self.edge_entries(),
            r.node_ids() == self.node_ids(),
            r.node_joins() == self.node_joins(),
            r.edge_froms() == self.edge_froms(),
            r.map_ids() == self.map_ids(),
            forall|i: int| 0 <= i < r.map_ids().len() ==> r.map_fits(i) == self.map_fits(i),
    {
        let mut b = self;
        b.entry = Some(id);
        b
    }

    fn push_node(self, id: NodeId, body: NodeBody<N>, is_join: bool) -> (r: GraphBuilder<N, E>)
        ensures
            r.entry_view() == self.entry_view(),
            r.kinds() == self.kinds(),
            r.config_kinds() == self.config_kinds(),
            r.node_entries() == self.node_entries().push((id, NodeEntry { body, is_join })),
            r.edge_entries() == self.edge_entries(),
            r.node_ids() == self.node_ids().push(id@),
            r.node_joins() == self.node_joins().push(is_join),
            r.edge_froms() == self.edge_froms(),
            r.map_ids() == self.map_ids(),
            forall|i: int| 0 <= i < r.map_ids().len() ==> r.map_fits(i) == self.map_fits(i),
    {
        let mut b = self;
        b.nodes.push((id, NodeEntry { body, is_join }));
        assert(b.node_ids() =~= self.node_ids().push(id@));
        assert(b.node_joins() =~= self.node_joins().push(is_join));
        b
    }

    /// Registers a node.
    pub fn node(self, id: NodeId, node: N) -> (r: GraphBuilder<N, E>)
        ensures
            r.entry_view() == self.entry_view(),
            r.kinds() == self.kinds(),
            r.config_kinds() == self.config_kinds(),
            r.node_entries() == self.node_entries().push(
                (id, NodeEntry { body: NodeBody::Plain(node), is_join: false }),
            ),
            r.edge_entries() == self.edge_entries(),
            r.node_ids() == self.node_ids().push(id@),
            r.node_joins() == self.node_joins().push(false),
            r.edge_froms() == self.edge_froms(),
            r.map_ids() == self.map_ids(),
            forall|i: int| 0 <= i < r.map_ids().len() ==> r.map_fits(i) == self.map_fits(i),
    {
        self.push_node(id, NodeBody::Plain(node), false)
    }

    /// Registers a join: a node that runs only when no plain node is
    /// pending, once for all the branches that lead to it.
    pub fn join(self, id: NodeId, node: N) -> (r: GraphBuilder<N, E>)
        ensures
            r.entry_view() == self.entry_view(),
            r.kinds() == self.kinds(),
            r.config_kinds() == self.config_kinds(),
            r.node_entries() == self.node_entries().push(
                (id, NodeEntry { body: NodeBody::Plain(node), is_join: true }),
            ),
            r.edge_entries() == self.edge_entries(),
            r.node_ids() == self.node_ids().push(id@),
            r.node_joins() == self.node_joins().push(true),
            r.edge_froms() == self.edge_froms(),
            r.map_ids() == self.map_ids(),
            forall|i: int| 0 <= i < r.map_ids().len() ==> r.map_fits(i) == self.map_fits(i),
    {
        self.push_node(id, NodeBody::Plain(node), true)
    }

    /// Registers a map node; its keys are checked by `build`.
    pub fn map(self, id: NodeId, map: MapNode<N>) -> (r: GraphBuilder<N, E>)
        ensures
            r.entry_view() == self.entry_view(),
            r.kinds() == self.kinds(),
            r.config_kinds() == self.config_kinds(),
            r.node_entries() == self.node_entries().push(
                (id, NodeEntry { body: NodeBody::Mapped(map), is_join: false }),
            ),
            r.edge_entries() == self.edge_entries(),
            r.node_ids() == self.node_ids().push(id@),
            r.node_joins() == self.node_joins().push(false),
            r.edge_froms() == self.edge_froms(),
            r.map_ids() == self.map_ids().push(id@),
            forall|i: int| 0 <= i < self.map_ids().len() ==> r.map_fits(i) == self.map_fits(i),
            r.map_fits(self.map_ids().len() as int) == map_keys_fit(
                self.kinds(),
                map.list@,
                map.item@,
                map.output@,
                map.results@,
            ),
    {
        let keys = MapKeys {
            list: map.list.clone(),
            item: map.item.clone(),
            output: map.output.clone(),
            results: map.results.clone(),
        };
        let mut b = self;
        let ghost old_maps = b.maps@;
        b.maps.push((id.clone(), keys));
        assert(b.map_ids() =~= self.map_ids().push(id@));
        assert forall|i: int| 0 <= i < self.map_ids().len() implies b.map_fits(i) == self.map_fits(i) by {
            assert(b.maps@[i] == old_maps[i]);
        }
        b.push_node(id, NodeBody::Mapped(map), false)
    }

    /// Registers the edge from `from`; a later edge from the same node
    /// replaces an earlier one.
    pub fn edge(self, from: NodeId, edge: E) -> (r: GraphBuilder<N, E>)
        ensures
            r.entry_view() == self.entry_view(),
            r.kinds() == self.kinds(),
            r.config_kinds() == self.config_kinds(),
            r.node_entries() == self.node_entries(),
            r.edge_entries() == self.edge_entries().push((from, edge)),
            r.node_ids() == self.node_ids(),
            r.node_joins() == self.node_joins(),
            r.edge_froms() == self.edge_froms().push(from@),
            r.map_ids() == self.map_ids(),
            forall|i: int| 0 <= i < r.map_ids().len() ==> r.map_fits(i) == self.map_fits(i),
    {
        let mut b = self;
        b.edges.push((from, edge));
        assert(b.edge_froms() =~= self.edge_froms().push(from@));
        b
    }

    /// Validates the collected nodes and edges. The checks run in this order,
    /// each refusing with the first offender: a node id registered twice
    /// (`DuplicateNode`), no entry (`MissingEntry`), an entry that is not a
    /// node (`UnknownEntry`), an edge from an unknown node
    /// (`EdgeFromUnknownNode`), a node without an edge (`NodeWithoutEdge`),
    /// and a map node whose keys do not fit the schema (`MapKeyMismatch`).
    #[verifier::loop_isolation(false)]
    pub fn build(self) -> (r: Result<Graph<N, E>, GraphError>)
        ensures
            build_outcome(
                self.node_ids(),
                self.entry_view(),
                self.edge_froms(),
                self.map_ids(),
                |i: int| self.map_fits(i),
                r,
            ),
            r matches Ok(g) ==> g.ids() == self.node_ids() && g.joins() == self.node_joins()
                && g.entry_name() == self.entry_view()->Some_0 && g.state_kinds() == self.kinds()
                && g.config_kinds() == self.config_kinds()
                && g.node_entries() == self.node_entries() && forall|j: int|
                0 <= j < g.edge_entries().len() ==> (#[trigger] last_for(
                self.edge_entries(),
                g.edge_entries()[j].0@,
            ) matches Some(k) && g.edge_entries()[j].1 == self.edge_entries()[k].1),
    {
        let GraphBuilder { schema, entry, nodes: raw_nodes, edges: raw_edges, maps } = self;
        let ghost ids = raw_nodes@.map_values(|e: (NodeId, NodeEntry<N>)| e.0@);
        let ghost froms = raw_edges@.map_values(|e: (NodeId, E)| e.0@);
        let ghost mids = maps@.map_values(|e: (NodeId, MapKeys)| e.0@);
        let n = raw_nodes.len();
        let mut i: usize = 0;
        while i < n
            invariant
                n == ids.len(),
                ids == raw_nodes@.map_values(|e: (NodeId, NodeEntry<N>)| e.0@),
                i <= n,
                forall|k: int| 0 <= k < i ==> !ids.subrange(0, k).contains(#[trigger] ids[k]),
            decreases n - i,
        {
            let mut j: usize = 0;
            while j < i
                invariant
                    n == ids.len(),
                    ids == raw_nodes@.map_values(|e: (NodeId, NodeEntry<N>)| e.0@),
                    i < n,
                    j <= i,
                    forall|m: int| 0 <= m < j ==> #[trigger] ids[m] != ids[i as int],
                decreases i - j,
            {
                if raw_nodes[j].0.same(&raw_nodes[i].0) {
                    proof {
                        assert(ids.subrange(0, i as int)[j as int] == ids[i as int]);
                        assert(ids.subrange(0, i as int).contains(ids[i as int]));
                        assert(first_repeat(ids, i as int));
                        assert forall|q: int| #[trigger] first_repeat(ids, q) implies q == i by {
                            if q > i {
                                assert(!ids.subrange(0, i as int).contains(ids[i as int]));
                            } else if q < i {
                                assert(!ids.subrange(0, q).contains(ids[q]));
                            }
                        }
                    }
                    return Err(GraphError::DuplicateNode { id: raw_nodes[i].0.clone() });
                }
                j = j + 1;
            }
            proof {
                assert forall|x: Seq<char>| ids.subrange(0, i as int).contains(x) implies x != ids[i as int] by {
                    let m = choose|m: int| 0 <= m < i && ids.subrange(0, i as int)[m] == x;
                    assert(ids[m] != ids[i as int]);
                }
            }
            i = i + 1;
        }
        proof {
            assert(ids.no_duplicates()) by {
                assert forall|a: int, b: int| 0 <= a < b < ids.len() implies ids[a] != ids[b] by {
                    assert(!ids.subrange(0, b).contains(ids[b]));
                    assert(ids.subrange(0, b)[a] == ids[a]);
                }
            }
        }
        let entry = match entry {
            Some(id) => id,
            None => {
                return Err(GraphError::MissingEntry);
            },
        };
        if !contains_id(&raw_nodes, &entry) {
            return Err(GraphError::UnknownEntry { id: entry });
        }
        let m = raw_edges.len();
        let mut k: usize = 0;
        while k < m
            invariant
                m == froms.len(),
                froms == raw_edges@.map_values(|e: (NodeId, E)| e.0@),
                ids == raw_nodes@.map_values(|e: (NodeId, NodeEntry<N>)| e.0@),
                k <= m,
                forall|q: int| 0 <= q < k ==> ids.contains(#[trigger] froms[q]),
            decreases m - k,
        {
            if !contains_id(&raw_nodes, &raw_edges[k].0) {
                proof {
                    assert(first_missing(froms, ids, k as int));
                }
                return Err(GraphError::EdgeFromUnknownNode { id: raw_edges[k].0.clone() });
            }
            k = k + 1;
        }
        let mut i: usize = 0;
        while i < n
            invariant
                n == ids.len(),
                m == froms.len(),
                froms == raw_edges@.map_values(|e: (NodeId, E)| e.0@),
                ids == raw_nodes@.map_values(|e: (NodeId, NodeEntry<N>)| e.0@),
                i <= n,
                forall|q: int| 0 <= q < i ==> froms.contains(#[trigger] ids[q]),
            decreases n - i,
        {
            if !contains_from(&raw_edges, &raw_nodes[i].0) {
                proof {
                    assert(first_missing(ids, froms, i as int));
                }
                return Err(GraphError::NodeWithoutEdge { id: raw_nodes[i].0.clone() });
            }
            i = i + 1;
        }
        proof {
            assert forall|x: int| !first_repeat(ids, x) by {
                if first_repeat(ids, x) {
                    let w = choose|w: int| 0 <= w < x && ids.subrange(0, x)[w] == ids[x];
                    assert(ids[w] == ids[x]);
                }
            }
            assert forall|x: int| !first_missing(froms, ids, x) by {
                if 0 <= x < froms.len() {
                    assert(ids.contains(froms[x]));
                }
            }
            assert forall|x: int| !first_missing(ids, froms, x) by {
                if 0 <= x < ids.len() {
                    assert(froms.contains(ids[x]));
                }
            }
        }
        let nm = maps.len();
        let mut q: usize = 0;
        while q < nm
            invariant
                nm == maps@.len(),
                mids == maps@.map_values(|e: (NodeId, MapKeys)| e.0@),
                q <= nm,
                forall|p: int| 0 <= p < q ==> map_keys_fit(schema.state@, #[trigger] maps@[p].1.list@, maps@[p].1.item@, maps@[p].1.output@, maps@[p].1.results@),
            decreases nm - q,
        {
            match check_map(&schema, &maps[q].0, &maps[q].1) {
                Ok(()) => {},
                Err(e) => {
                    proof {
                        let fits = |x: int| self.map_fits(x);
                        assert(!fits(q as int));
                        assert forall|j: int| 0 <= j < q implies #[trigger] fits(j) by {
                            assert(map_keys_fit(schema.state@, maps@[j].1.list@, maps@[j].1.item@, maps@[j].1.output@, maps@[j].1.results@));
                        }
                        assert(mids[q as int] == maps@[q as int].0@);
                    }
                    return Err(e);
                },
            }
            q = q + 1;
        }
        let edges = dedupe_edges(raw_edges);
        proof {
            assert(ids.to_set() =~= froms.to_set());
        }
        Ok(Graph::assemble(schema, entry, raw_nodes, edges))
    }
}

/// What `build` gives for the collected registrations: the first failing
/// check's error, in the order `build` runs them, or a graph.
pub open spec fn build_outcome<N, E>(
    ids: Seq<Seq<char>>,
    entry: Option<Seq<char>>,
    froms: Seq<Seq<char>>,
    mids: Seq<Seq<char>>,
    fits: spec_fn(int) -> bool,
    r: Result<Graph<N, E>, GraphError>,
) -> bool {
    if exists|i: int| first_repeat(ids, i) {
        forall|i: int| #[trigger] first_repeat(ids, i) ==> (r matches Err(e) && (e matches GraphError::DuplicateNode {
            id,
        } && id@ == ids[i]))
    } else if entry is None {
        r matches Err(e) && e is MissingEntry
    } else if !ids.contains(entry->Some_0) {
        r matches Err(e) && (e matches GraphError::UnknownEntry { id } && id@ == entry->Some_0)
    } else if exists|i: int| first_missing(froms, ids, i) {
        forall|i: int| #[trigger] first_missing(froms, ids, i) ==> (r matches Err(e) && (e matches GraphError::EdgeFromUnknownNode {
            id,
        } && id@ == froms[i]))
    } else if exists|i: int| first_missing(ids, froms, i) {
        forall|i: int| #[trigger] first_missing(ids, froms, i) ==> (r matches Err(e) && (e matches GraphError::NodeWithoutEdge {
            id,
        } && id@ == ids[i]))
    } else if exists|i: int| #![trigger fits(i)] 0 <= i < mids.len() && !fits(i) {
        exists|i: int|
            #![trigger fits(i)]
            0 <= i < mids.len() && !fits(i) && (forall|j: int| 0 <= j < i ==> #[trigger] fits(j))
                && (r matches Err(e) && (e matches GraphError::MapKeyMismatch { node } && node@
                == mids[i]))
    } else {
        r is Ok
    }
}

/// Whether a node with this id is registered.
fn contains_id<N>(nodes: &Vec<(NodeId, NodeEntry<N>)>, id: &NodeId) -> (r: bool)
    ensures
        r == nodes@.map_values(|e: (NodeId, NodeEntry<N>)| e.0@).contains(id@),
{
    let ghost ids = nodes@.map_values(|e: (NodeId, NodeEntry<N>)| e.0@);
    let n = nodes.len();
    let mut i: usize = 0;
    while i < n
        invariant
            n == ids.len(),
            ids == nodes@.map_values(|e: (NodeId, NodeEntry<N>)| e.0@),
            i <= n,
            forall|j: int| 0 <= j < i ==> #[trigger] ids[j] != id@,
        decreases n - i,
    {
        if nodes[i].0.same(id) {
            proof {
                assert(ids[i as int] == id@);
            }
            return true;
        }
        i = i + 1;
    }
    false
}

/// Where the edge from this node stands.
fn position_of_from<E>(edges: &Vec<(NodeId, E)>, id: &NodeId) -> (r: Option<usize>)
    ensures
        match r {
            Some(p) => p < edges@.len() && edges@.map_values(|e: (NodeId, E)| e.0@)[p as int] == id@,
            None => !edges@.map_values(|e: (NodeId, E)| e.0@).contains(id@),
        },
{
    let ghost froms = edges@.map_values(|e: (NodeId, E)| e.0@);
    let n = edges.len();
    let mut i: usize = 0;
    while i < n
        invariant
            n == froms.len(),
            froms == edges@.map_values(|e: (NodeId, E)| e.0@),
            i <= n,
            forall|j: int| 0 <= j < i ==> #[trigger] froms[j] != id@,
        decreases n - i,
    {
        if edges[i].0.same(id) {
            return Some(i);
        }
        i = i + 1;
    }
    None
}

/// Whether an edge from this node is registered.
fn contains_from<E>(edges: &Vec<(NodeId, E)>, id: &NodeId) -> (r: bool)
    ensures
        r == edges@.map_values(|e: (NodeId, E)| e.0@).contains(id@),
{
    let ghost froms = edges@.map_values(|e: (NodeId, E)| e.0@);
    let n = edges.len();
    let mut i: usize = 0;
    while i < n
        invariant
            n == froms.len(),
            froms == edges@.map_values(|e: (NodeId, E)| e.0@),
            i <= n,
            forall|j: int| 0 <= j < i ==> #[trigger] froms[j] != id@,
        decreases n - i,
    {
        if edges[i].0.same(id) {
            proof {
                assert(froms[i as int] == id@);
            }
            return true;
        }
        i = i + 1;
    }
    false
}

/// Keeps one edge per node, the last one registered, at the place of the
/// first.
fn dedupe_edges<E>(raw: Vec<(NodeId, E)>) -> (r: Vec<(NodeId, E)>)
    ensures
        r@.map_values(|e: (NodeId, E)| e.0@).no_duplicates(),
        r@.map_values(|e: (NodeId, E)| e.0@).to_set() == raw@.map_values(|e: (NodeId, E)| e.0@).to_set(),
        forall|j: int|
            0 <= j < r@.len() ==> (#[trigger] last_for(raw@, r@[j].0@) matches Some(k) && r@[j].1
                == raw@[k].1),
{
    let ghost froms = raw@.map_values(|e: (NodeId, E)| e.0@);
    let ghost all = raw@;
    let mut out: Vec<(NodeId, E)> = Vec::new();
    let mut rest = raw;
    let n = rest.len();
    let mut i: usize = 0;
    proof {
        assert(rest@.map_values(|e: (NodeId, E)| e.0@) =~= froms.skip(0));
    }
    while i < n
        invariant
            n == froms.len(),
            i <= n,
            rest@.map_values(|e: (NodeId, E)| e.0@) == froms.skip(i as int),
            rest@.len() == n - i,
            out@.map_values(|e: (NodeId, E)| e.0@).no_duplicates(),
            out@.map_values(|e: (NodeId, E)| e.0@).to_set() == froms.take(i as int).to_set(),
            froms == all.map_values(|e: (NodeId, E)| e.0@),
            all.len() == n,
            rest@ == all.skip(i as int),
            forall|j: int|
                0 <= j < out@.len() ==> (#[trigger] last_for(all.take(i as int), out@[j].0@) matches Some(
                    k,
                ) && out@[j].1 == all[k].1),
        decreases n - i,
    {
        let ghost before = out@.map_values(|e: (NodeId, E)| e.0@);
        let ghost out_before = out@;
        let ghost rest_before = rest@;
        let (from, edge) = rest.remove(0);
        proof {
            assert(rest@ =~= all.skip(i + 1));
            assert((from, edge) == all[i as int]);
            assert(all.take(i + 1).drop_last() =~= all.take(i as int));
            assert(all.take(i + 1).last() == all[i as int]);
            assert(from@ == froms[i as int]) by {
                assert(rest_before.map_values(|e: (NodeId, E)| e.0@)[0] == froms.skip(i as int)[0]);
            }
            assert(rest@.map_values(|e: (NodeId, E)| e.0@) =~= froms.skip(i + 1)) by {
                assert(rest@ =~= rest_before.subrange(1, rest_before.len() as int));
                assert forall|j: int| 0 <= j < rest@.len() implies #[trigger] rest@[j].0@ == froms.skip(i + 1)[j] by {
                    assert(rest@[j] == rest_before[j + 1]);
                    assert(rest_before.map_values(|e: (NodeId, E)| e.0@)[j + 1] == froms.skip(i as int)[j + 1]);
                }
            }
            assert(froms.take(i + 1) =~= froms.take(i as int).push(froms[i as int]));
            assert(froms.take(i + 1).to_set() =~= froms.take(i as int).to_set().insert(from@)) by {
                let t = froms.take(i as int);
                assert forall|x: Seq<char>| froms.take(i + 1).contains(x) implies t.contains(x) || x == from@ by {
                    let w = choose|w: int| 0 <= w < i + 1 && #[trigger] froms.take(i + 1)[w] == x;
                    if w < i {
                        assert(t[w] == x);
                    }
                }
                assert forall|x: Seq<char>| t.contains(x) implies froms.take(i + 1).contains(x) by {
                    let w = choose|w: int| 0 <= w < i && t[w] == x;
                    assert(froms.take(i + 1)[w] == x);
                }
                assert(froms.take(i + 1)[i as int] == from@);
            }
        }
        let found = position_of_from(&out, &from);
        if let Some(p) = found {
            let (kept, _) = out.remove(p);
            out.insert(p, (kept, edge));
            proof {
                let after = out@.map_values(|e: (NodeId, E)| e.0@);
                assert(after =~= before);
                assert(before[p as int] == from@);
                assert(before.contains(from@));
                assert(before.to_set() =~= before.to_set().insert(from@));
                assert forall|j: int| 0 <= j < out@.len() implies (#[trigger] last_for(
                    all.take(i + 1),
                    out@[j].0@,
                ) matches Some(k) && out@[j].1 == all[k].1) by {
                    let t1 = all.take(i + 1);
                    assert(t1.drop_last() == all.take(i as int));
                    assert(t1.last().0@ == from@);
                    if j == p {
                        assert(out@[j].0@ == from@);
                        assert(out@[j].1 == edge);
                        assert(last_for(t1, from@) == Some(i as int));
                    } else {
                        assert(out@[j] == out_before[j]);
                        assert(before[j] == out_before[j].0@);
                        assert(before[j] != before[p as int]);
                        assert(last_for(t1, out@[j].0@) == last_for(all.take(i as int), out@[j].0@));
                    }
                }
            }
        } else {
            out.push((from, edge));
            proof {
                let after = out@.map_values(|e: (NodeId, E)| e.0@);
                assert(after =~= before.push(from@));
                assert(after.to_set() =~= before.to_set().insert(from@)) by {
                    assert forall|x: Seq<char>| after.contains(x) implies before.contains(x) || x == from@ by {
                        let w = choose|w: int| 0 <= w < after.len() && after[w] == x;
                        if w < before.len() {
                            assert(before[w] == x);
                        }
                    }
                    assert forall|x: Seq<char>| before.contains(x) implies after.contains(x) by {
                        let w = choose|w: int| 0 <= w < before.len() && before[w] == x;
                        assert(after[w] == x);
                    }
                    assert(after[before.len() as int] == from@);
                }
                assert(!before.contains(from@));
                assert forall|j: int| 0 <= j < out@.len() implies (#[trigger] last_for(
                    all.take(i + 1),
                    out@[j].0@,
                ) matches Some(k) && out@[j].1 == all[k].1) by {
                    let t1 = all.take(i + 1);
                    assert(t1.drop_last() == all.take(i as int));
                    assert(t1.last().0@ == from@);
                    if j < out_before.len() {
                        assert(out@[j] == out_before[j]);
                        assert(before[j] == out_before[j].0@);
                        assert(before.contains(out_before[j].0@));
                        assert(out_before[j].0@ != from@);
                        assert(last_for(t1, out@[j].0@) == last_for(all.take(i as int), out@[j].0@));
                    } else {
                        assert(out@[j] == (from, edge));
                        assert(last_for(t1, from@) == Some(i as int));
                    }
                }
            }
        }
        i = i + 1;
    }
    proof {
        assert(froms.take(n as int) =~= froms);
        assert(all.take(n as int) =~= all);
    }
    out
}

} // verus!
