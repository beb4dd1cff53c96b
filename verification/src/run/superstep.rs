use vstd::prelude::*;

use crate::error::GraphError;
use crate::graph::edge::{Target, TargetView};
use crate::graph::graph::Graph;
use crate::ident::{EndLabel, NodeId};
use crate::run::cursor::{Cursor, id_names};

verus! {

/// The names of a sequence, each kept at its first occurrence only.
pub open spec fn distinct(s: Seq<Seq<char>>) -> Seq<Seq<char>>
    decreases s.len(),
{
    if s.len() == 0 {
        s
    } else {
        let d = distinct(s.drop_last());
        if d.contains(s.last()) {
            d
        } else {
            d.push(s.last())
        }
    }
}

/// The distinct names hold no name twice, and the same names as the input.
pub proof fn lemma_distinct(s: Seq<Seq<char>>)
    ensures
        distinct(s).no_duplicates(),
        forall|x: Seq<char>| #[trigger] distinct(s).contains(x) <==> s.contains(x),
    decreases s.len(),
{
    if s.len() > 0 {
        let t = s.drop_last();
        let l = s.last();
        lemma_distinct(t);
        let d = distinct(t);
        let ds = distinct(s);
        assert forall|x: Seq<char>| #[trigger] ds.contains(x) <==> s.contains(x) by {
            if s.contains(x) {
                let w = choose|w: int| 0 <= w < s.len() && s[w] == x;
                if w < s.len() - 1 {
                    assert(t[w] == x);
                    assert(t.contains(x));
                    assert(d.contains(x));
                    let k = choose|k: int| 0 <= k < d.len() && d[k] == x;
                    if !d.contains(l) {
                        assert(d.push(l)[k] == x);
                    }
                } else if !d.contains(l) {
                    assert(d.push(l)[d.len() as int] == x);
                }
            }
            if ds.contains(x) {
                let k = choose|k: int| 0 <= k < ds.len() && ds[k] == x;
                if k < d.len() {
                    assert(d[k] == x);
                    assert(d.contains(x));
                    let w = choose|w: int| 0 <= w < t.len() && t[w] == x;
                    assert(s[w] == x);
                } else {
                    assert(s[s.len() - 1] == x);
                }
            }
        }
        if !d.contains(l) {
            assert forall|i: int, j: int| 0 <= i < j < ds.len() implies ds[i] != ds[j] by {
                if j == d.len() {
                    assert(ds[i] == d[i]);
                }
            }
        }
    }
}

/// Whether a node of these ids is named `id`.
pub fn contains_node(ids: &Vec<NodeId>, id: &NodeId) -> (r: bool)
    ensures
        r == id_names(ids@).contains(id@),
{
    let n = ids.len();
    let mut i: usize = 0;
    while i < n
        invariant
            n == ids@.len(),
            i <= n,
            forall|j: int| 0 <= j < i ==> #[trigger] id_names(ids@)[j] != id@,
        decreases n - i,
    {
        if ids[i].same(id) {
            proof {
                assert(id_names(ids@)[i as int] == id@);
            }
            return true;
        }
        i = i + 1;
    }
    false
}

/// Appends `id` unless a node of that name is already there.
fn push_distinct(out: &mut Vec<NodeId>, id: NodeId)
    ensures
        id_names(final(out)@) == if id_names(old(out)@).contains(id@) {
            id_names(old(out)@)
        } else {
            id_names(old(out)@).push(id@)
        },
{
    if !contains_node(out, &id) {
        let ghost before = id_names(out@);
        out.push(id);
        assert(id_names(out@) =~= before.push(id@));
    }
}

/// The names of `order` that `among` holds, in the order of `order`.
pub open spec fn names_among(order: Seq<Seq<char>>, among: Seq<Seq<char>>) -> Seq<Seq<char>>
    decreases order.len(),
{
    if order.len() == 0 {
        order
    } else {
        let r = names_among(order.drop_last(), among);
        if among.contains(order.last()) {
            r.push(order.last())
        } else {
            r
        }
    }
}

/// Keeps the ids of `ids` whose names `among` holds, in order.
fn keep_among(ids: &Vec<NodeId>, among: &Vec<NodeId>) -> (r: Vec<NodeId>)
    ensures
        id_names(r@) == names_among(id_names(ids@), id_names(among@)),
{
    let ghost names = id_names(ids@);
    let n = ids.len();
    let mut r: Vec<NodeId> = Vec::new();
    let mut i: usize = 0;
    while i < n
        invariant
            n == ids@.len(),
            names == id_names(ids@),
            i <= n,
            id_names(r@) == names_among(names.take(i as int), id_names(among@)),
        decreases n - i,
    {
        proof {
            assert(names.take(i + 1).drop_last() =~= names.take(i as int));
            assert(names.take(i + 1).last() == ids@[i as int]@);
        }
        if contains_node(among, &ids[i]) {
            let ghost before = id_names(r@);
            r.push(ids[i].clone());
            assert(id_names(r@) =~= before.push(ids@[i as int]@));
        }
        i = i + 1;
    }
    proof {
        assert(names.take(n as int) =~= names);
    }
    r
}

/// The active nodes the graph holds, in the cursor's order: those that run
/// in a superstep.
pub fn present<N, E>(graph: &Graph<N, E>, active: &Vec<NodeId>) -> (r: Vec<NodeId>)
    ensures
        id_names(r@) == names_among(id_names(active@), graph.ids()),
{
    let order = graph.order();
    keep_among(active, &order)
}

/// The active nodes whose edges are taken after a superstep, in the graph's
/// declaration order.
pub fn stepping<N, E>(graph: &Graph<N, E>, active: &Vec<NodeId>) -> (r: Vec<NodeId>)
    ensures
        id_names(r@) == names_among(graph.ids(), id_names(active@)),
{
    let order = graph.order();
    keep_among(&order, active)
}

/// Where a run starts: the cursor it was given, or else the entry alone.
pub fn initial_cursor<N, E>(graph: &Graph<N, E>, cursor: Option<Cursor>) -> (r: Cursor)
    ensures
        match cursor {
            Some(c) => r == c,
            None => id_names(r.active@) == seq![graph.entry_name()] && r.deferred@.len() == 0,
        },
{
    match cursor {
        Some(c) => c,
        None => {
            let mut active: Vec<NodeId> = Vec::new();
            active.push(graph.entry().clone());
            let r = Cursor::new(active, Vec::new());
            assert(id_names(r.active@) =~= seq![graph.entry_name()]);
            r
        },
    }
}

/// The names of `s`, in order, that are joins (`want` true) or plain
/// nodes (`want` false) of the graph.
pub open spec fn names_joined<N, E>(graph: Graph<N, E>, s: Seq<Seq<char>>, want: bool) -> Seq<
    Seq<char>,
>
    decreases s.len(),
{
    if s.len() == 0 {
        s
    } else {
        let r = names_joined(graph, s.drop_last(), want);
        if graph.is_join_name(s.last()) == want {
            r.push(s.last())
        } else {
            r
        }
    }
}

/// The next active and deferred sets after a superstep: the produced nodes
/// and the deferred joins, each once, first occurrence first. Plain nodes run
/// next and joins wait; when no plain node is pending, the joins run.
pub open spec fn next_sets_spec<N, E>(
    graph: Graph<N, E>,
    produced: Seq<Seq<char>>,
    deferred: Seq<Seq<char>>,
) -> (Seq<Seq<char>>, Seq<Seq<char>>) {
    let pending = distinct(produced + deferred);
    let joins = names_joined(graph, pending, true);
    let plain = names_joined(graph, pending, false);
    if plain.len() == 0 {
        (joins, Seq::empty())
    } else {
        (plain, joins)
    }
}

/// Computes the next active and deferred sets.
pub fn next_sets<N, E>(graph: &Graph<N, E>, produced: Vec<NodeId>, deferred: &Vec<NodeId>) -> (r: (
    Vec<NodeId>,
    Vec<NodeId>,
))
    ensures
        (id_names(r.0@), id_names(r.1@)) == next_sets_spec(
            *graph,
            id_names(produced@),
            id_names(deferred@),
        ),
{
    let ghost all = id_names(produced@) + id_names(deferred@);
    let mut pending: Vec<NodeId> = Vec::new();
    let np = produced.len();
    let mut i: usize = 0;
    while i < np
        invariant
            np == produced@.len(),
            i <= np,
            id_names(pending@) == distinct(all.take(i as int)),
            all == id_names(produced@) + id_names(deferred@),
        decreases np - i,
    {
        proof {
            assert(all.take(i + 1).drop_last() =~= all.take(i as int));
            assert(all.take(i + 1).last() == produced@[i as int]@);
        }
        push_distinct(&mut pending, produced[i].clone());
        i = i + 1;
    }
    let nd = deferred.len();
    let mut k: usize = 0;
    while k < nd
        invariant
            np == produced@.len(),
            nd == deferred@.len(),
            k <= nd,
            id_names(pending@) == distinct(all.take(np + k)),
            all == id_names(produced@) + id_names(deferred@),
        decreases nd - k,
    {
        proof {
            assert(all.take(np + k + 1).drop_last() =~= all.take(np + k));
            assert(all.take(np + k + 1).last() == deferred@[k as int]@);
        }
        push_distinct(&mut pending, deferred[k].clone());
        k = k + 1;
    }
    proof {
        assert(all.take(np + nd) =~= all);
    }
    let ghost pend = id_names(pending@);
    let mut joins: Vec<NodeId> = Vec::new();
    let mut plain: Vec<NodeId> = Vec::new();
    let n = pending.len();
    let mut j: usize = 0;
    while j < n
        invariant
            n == pending@.len(),
            pend == id_names(pending@),
            j <= n,
            id_names(joins@) == names_joined(*graph, pend.take(j as int), true),
            id_names(plain@) == names_joined(*graph, pend.take(j as int), false),
        decreases n - j,
    {
        proof {
            assert(pend.take(j + 1).drop_last() =~= pend.take(j as int));
            assert(pend.take(j + 1).last() == pending@[j as int]@);
        }
        let id = pending[j].clone();
        if graph.is_join(&id) {
            let ghost before = id_names(joins@);
            joins.push(id);
            assert(id_names(joins@) =~= before.push(pend[j as int]));
        } else {
            let ghost before = id_names(plain@);
            plain.push(id);
            assert(id_names(plain@) =~= before.push(pend[j as int]));
        }
        j = j + 1;
    }
    proof {
        assert(pend.take(n as int) =~= pend);
    }
    if plain.len() == 0 {
        let none: Vec<NodeId> = Vec::new();
        assert(id_names(none@) =~= Seq::<Seq<char>>::empty());
        (joins, none)
    } else {
        (plain, joins)
    }
}

/// Taking in the targets of one edge, in order: a target node the graph
/// lacks fails with `UnknownNode`; other target nodes are kept once, first
/// occurrence first; end labels are all kept, in order.
pub open spec fn edge_step<N, E>(
    graph: Graph<N, E>,
    acc: (Seq<Seq<char>>, Seq<EndLabel>),
    ts: Seq<Target>,
) -> Result<(Seq<Seq<char>>, Seq<EndLabel>), GraphError>
    decreases ts.len(),
{
    if ts.len() == 0 {
        Ok(acc)
    } else {
        match ts[0] {
            Target::Node(n) => if !graph.ids().contains(n@) {
                Err(GraphError::UnknownNode { id: n })
            } else {
                edge_step(
                    graph,
                    (
                        if acc.0.contains(n@) {
                            acc.0
                        } else {
                            acc.0.push(n@)
                        },
                        acc.1,
                    ),
                    ts.drop_first(),
                )
            },
            Target::End(l) => edge_step(graph, (acc.0, acc.1.push(l)), ts.drop_first()),
        }
    }
}

/// What the edges of the stepping nodes give, taken in order: the first
/// edge that failed, or returned no target (`EmptyEdge`), or named an
/// unknown node, fails the superstep; otherwise the target nodes and the
/// end labels, as `edge_step` keeps them.
pub open spec fn collect_spec<N, E>(
    graph: Graph<N, E>,
    outputs: Seq<(NodeId, Result<Vec<Target>, GraphError>)>,
) -> Result<(Seq<Seq<char>>, Seq<EndLabel>), GraphError>
    decreases outputs.len(),
{
    if outputs.len() == 0 {
        Ok((Seq::empty(), Seq::empty()))
    } else {
        match collect_spec(graph, outputs.drop_last()) {
            Err(e) => Err(e),
            Ok(acc) => match outputs.last().1 {
                Err(e) => Err(e),
                Ok(ts) => if ts@.len() == 0 {
                    Err(GraphError::EmptyEdge { node: outputs.last().0 })
                } else {
                    edge_step(graph, acc, ts@)
                },
            },
        }
    }
}

/// Takes in the targets of one edge.
#[verifier::loop_isolation(false)]
fn absorb_targets<N, E>(
    graph: &Graph<N, E>,
    nodes: &mut Vec<NodeId>,
    ends: &mut Vec<EndLabel>,
    targets: Vec<Target>,
) -> (r: Result<(), GraphError>)
    ensures
        match edge_step(*graph, (id_names(old(nodes)@), old(ends)@), targets@) {
            Ok(acc) => r is Ok && id_names(final(nodes)@) == acc.0 && final(ends)@ == acc.1,
            Err(e) => r == Err::<(), GraphError>(e),
        },
{
    let ghost start = (id_names(nodes@), ends@);
    let ghost all = targets@;
    let mut rest = targets;
    let n = rest.len();
    let mut i: usize = 0;
    proof {
        assert(rest@ =~= all.skip(0));
    }
    while i < n
        invariant
            n == all.len(),
            i <= n,
            rest@ == all.skip(i as int),
            edge_step(*graph, start, all) == edge_step(*graph, (id_names(nodes@), ends@), rest@),
        decreases n - i,
    {
        let ghost before = rest@;
        let ghost cur = (id_names(nodes@), ends@);
        let t = rest.remove(0);
        proof {
            assert(rest@ =~= before.drop_first());
            assert(rest@ =~= all.skip(i + 1));
            assert(t == before[0]);
            assert(edge_step(*graph, start, all) == edge_step(*graph, cur, before));
        }
        match t {
            Target::Node(id) => {
                if !graph.contains(&id) {
                    proof {
                        assert(before[0] == Target::Node(id));
                        assert(edge_step(*graph, cur, before) == Err::<
                            (Seq<Seq<char>>, Seq<EndLabel>),
                            GraphError,
                        >(GraphError::UnknownNode { id }));
                    }
                    return Err(GraphError::UnknownNode { id });
                }
                push_distinct(nodes, id);
            },
            Target::End(label) => {
                let ghost e0 = ends@;
                ends.push(label);
                assert(ends@ =~= e0.push(label));
            },
        }
        i = i + 1;
    }
    Ok(())
}

/// Takes in the edges of the stepping nodes, in order (see `collect_spec`).
#[verifier::loop_isolation(false)]
pub fn collect_targets<N, E>(
    graph: &Graph<N, E>,
    outputs: Vec<(NodeId, Result<Vec<Target>, GraphError>)>,
) -> (r: Result<(Vec<NodeId>, Vec<EndLabel>), GraphError>)
    ensures
        match collect_spec(*graph, outputs@) {
            Ok(acc) => r matches Ok(p) && id_names(p.0@) == acc.0 && p.1@ == acc.1,
            Err(e) => r == Err::<(Vec<NodeId>, Vec<EndLabel>), GraphError>(e),
        },
{
    let ghost all = outputs@;
    let mut nodes: Vec<NodeId> = Vec::new();
    let mut ends: Vec<EndLabel> = Vec::new();
    let mut rest = outputs;
    let n = rest.len();
    let mut i: usize = 0;
    proof {
        assert(rest@ =~= all.skip(0));
        assert(all.take(0) =~= Seq::<(NodeId, Result<Vec<Target>, GraphError>)>::empty());
        assert(id_names(nodes@) =~= Seq::<Seq<char>>::empty());
    }
    while i < n
        invariant
            n == all.len(),
            i <= n,
            rest@ == all.skip(i as int),
            collect_spec(*graph, all.take(i as int)) == Ok::<(Seq<Seq<char>>, Seq<EndLabel>), GraphError>(
                (id_names(nodes@), ends@),
            ),
        decreases n - i,
    {
        let ghost before = rest@;
        let (id, out) = rest.remove(0);
        proof {
            assert(rest@ =~= before.drop_first());
            assert(rest@ =~= all.skip(i + 1));
            assert(all.take(i + 1).drop_last() =~= all.take(i as int));
            assert(all.take(i + 1).last() == all[i as int]);
            assert(all[i as int] == before[0]);
        }
        proof {
            assert((id, out) == all[i as int]);
        }
        match out {
            Err(e) => {
                proof {
                    assert(collect_spec(*graph, all.take(i + 1)) == Err::<(Seq<Seq<char>>, Seq<EndLabel>), GraphError>(e));
                    lemma_collect_sticks(*graph, all, i as int + 1, n as int);
                    assert(all.take(n as int) =~= all);
                }
                return Err(e);
            },
            Ok(targets) => {
                if targets.len() == 0 {
                    proof {
                        assert(collect_spec(*graph, all.take(i + 1)) == Err::<(Seq<Seq<char>>, Seq<EndLabel>), GraphError>(GraphError::EmptyEdge { node: id }));
                        lemma_collect_sticks(*graph, all, i as int + 1, n as int);
                        assert(all.take(n as int) =~= all);
                    }
                    return Err(GraphError::EmptyEdge { node: id });
                }
                match absorb_targets(graph, &mut nodes, &mut ends, targets) {
                    Ok(()) => {},
                    Err(e) => {
                        proof {
                            lemma_collect_sticks(*graph, all, i as int + 1, n as int);
                            assert(all.take(n as int) =~= all);
                        }
                        return Err(e);
                    },
                }
            },
        }
        i = i + 1;
    }
    proof {
        assert(all.take(n as int) =~= all);
    }
    Ok((nodes, ends))
}

/// Once the edges fail, later edges change nothing.
pub proof fn lemma_collect_sticks<N, E>(
    graph: Graph<N, E>,
    outputs: Seq<(NodeId, Result<Vec<Target>, GraphError>)>,
    i: int,
    j: int,
)
    requires
        0 <= i <= j <= outputs.len(),
        collect_spec(graph, outputs.take(i)) is Err,
    ensures
        collect_spec(graph, outputs.take(j)) == collect_spec(graph, outputs.take(i)),
    decreases j - i,
{
    if j > i {
        lemma_collect_sticks(graph, outputs, i, j - 1);
        assert(outputs.take(j).drop_last() =~= outputs.take(j - 1));
    }
}

/// The distinct labels of a sequence, first occurrence first.
pub open spec fn distinct_labels(s: Seq<EndLabel>) -> Seq<EndLabel>
    decreases s.len(),
{
    if s.len() == 0 {
        s
    } else {
        let d = distinct_labels(s.drop_last());
        if d.map_values(|l: EndLabel| l@).contains(s.last()@) {
            d
        } else {
            d.push(s.last())
        }
    }
}

/// How a run ends once no node is left: with its one distinct end label;
/// with none, or with several, it fails with `AmbiguousEnd` naming the
/// distinct labels.
pub fn finish(ends: Vec<EndLabel>) -> (r: Result<EndLabel, GraphError>)
    ensures
        distinct_labels(ends@).len() == 1 ==> (r matches Ok(l) && l == distinct_labels(ends@)[0]),
        distinct_labels(ends@).len() != 1 ==> (r matches Err(e) && (e matches GraphError::AmbiguousEnd {
            labels,
        } && labels@ == distinct_labels(ends@))),
{
    let ghost all = ends@;
    let mut distinct: Vec<EndLabel> = Vec::new();
    let mut rest = ends;
    let n = rest.len();
    let mut i: usize = 0;
    proof {
        assert(rest@ =~= all.skip(0));
        assert(all.take(0) =~= Seq::<EndLabel>::empty());
    }
    while i < n
        invariant
            n == all.len(),
            i <= n,
            rest@ == all.skip(i as int),
            distinct@ == distinct_labels(all.take(i as int)),
        decreases n - i,
    {
        let ghost before = rest@;
        let label = rest.remove(0);
        proof {
            assert(rest@ =~= all.skip(i + 1));
            assert(all.take(i + 1).drop_last() =~= all.take(i as int));
            assert(all.take(i + 1).last() == label);
        }
        let m = distinct.len();
        let mut j: usize = 0;
        let mut seen = false;
        while j < m
            invariant
                m == distinct@.len(),
                j <= m,
                seen == exists|q: int| 0 <= q < j && #[trigger] distinct@[q]@ == label@,
            decreases m - j,
        {
            if distinct[j].same(&label) {
                seen = true;
            }
            j = j + 1;
        }
        proof {
            let names = distinct@.map_values(|l: EndLabel| l@);
            if seen {
                let q = choose|q: int| 0 <= q < m && #[trigger] distinct@[q]@ == label@;
                assert(names[q] == label@);
            } else {
                assert forall|q: int| 0 <= q < names.len() implies names[q] != label@ by {
                    assert(names[q] == distinct@[q]@);
                }
            }
        }
        if !seen {
            distinct.push(label);
        }
        i = i + 1;
    }
    proof {
        assert(all.take(n as int) =~= all);
    }
    if distinct.len() == 1 {
        let only = distinct.remove(0);
        Ok(only)
    } else {
        Err(GraphError::AmbiguousEnd { labels: distinct })
    }
}

/// What comes after a superstep: the run finishes, pauses, or goes on.
#[derive(Debug)]
pub enum Advance {
    /// No node is left; the run ends with this label.
    Finish(EndLabel),
    /// A pause was asked for; the run stops at this cursor.
    Pause(Cursor),
    /// The run goes on from this cursor.
    Continue(Cursor),
}

/// Decides what comes after a superstep, given the next sets, the end
/// labels the edges gave, and whether a pause was asked for. A run with no
/// node left finishes (or fails as `finish` does), before any pause.
pub fn advance(active: Vec<NodeId>, deferred: Vec<NodeId>, ends: Vec<EndLabel>, pause: bool) -> (r: Result<
    Advance,
    GraphError,
>)
    ensures
        active@.len() == 0 && deferred@.len() == 0 ==> {
            &&& distinct_labels(ends@).len() == 1 ==> (r matches Ok(a) && (a matches Advance::Finish(l)
                && l == distinct_labels(ends@)[0]))
            &&& distinct_labels(ends@).len() != 1 ==> (r matches Err(e) && (e matches GraphError::AmbiguousEnd {
                labels,
            } && labels@ == distinct_labels(ends@)))
        },
        !(active@.len() == 0 && deferred@.len() == 0) ==> (r matches Ok(a) && if pause {
            a matches Advance::Pause(c) && c.active == active && c.deferred == deferred
        } else {
            a matches Advance::Continue(c) && c.active == active && c.deferred == deferred
        }),
{
    if active.len() == 0 && deferred.len() == 0 {
        match finish(ends) {
            Ok(end) => Ok(Advance::Finish(end)),
            Err(e) => Err(e),
        }
    } else if pause {
        Ok(Advance::Pause(Cursor::new(active, deferred)))
    } else {
        Ok(Advance::Continue(Cursor::new(active, deferred)))
    }
}

} // verus!
