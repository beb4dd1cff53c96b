use vstd::prelude::*;

use crate::graph::graph::Graph;
use crate::ident::{Key, NodeId};
use crate::run::superstep::{distinct, lemma_distinct, names_among, names_joined, next_sets_spec};
use crate::error::{GraphError, NodeFault};
use crate::run::settle::{
    applied_names, edits_of, first_failure, in_order, last_for, lemma_last_for, settle_trace,
    settled,
};
use crate::graph::builder::map_keys_fit;
use crate::state::apply::{
    append_result, apply_all, assign_result, batch_effect, conflict_at, edits_called, first_conflict,
    lemma_first_conflict,
};
use crate::state::kind::Kind;
use crate::react::tools::{last_named, owned_pairs, positions_in, string_items};
use crate::state::schema::{Declared, Schema, SchemaBuilder, declared_kinds, declares};
use crate::state::value::{Datum, Value, datum_matches};
use crate::update::{Transcript, Update};

verus! {

/// A batch that is refused changes nothing: the data after it is the data
/// before it.
pub proof fn law_refused_batch_changes_nothing<C: Transcript<E>, E>(
    kinds: Map<Seq<char>, Kind>,
    data: Map<Seq<char>, Datum<C>>,
    us: Seq<Update<C, E>>,
    r: Result<(), GraphError>,
    after: Map<Seq<char>, Datum<C>>,
)
    requires
        batch_effect(kinds, data, us, r, after),
        r is Err,
    ensures
        after == data,
{
    if exists|i: int| conflict_at(us, i) {
        let i = choose|i: int| conflict_at(us, i);
        lemma_first_conflict(us, i);
        let j = choose|j: int| #[trigger] first_conflict(us, j);
        assert(first_conflict(us, j));
    } else {
        assert(forall|i: int| !conflict_at(us, i));
        let outs = choose|outs: Seq<Result<C, String>>|
            edits_called(kinds, data, us, outs) && match #[trigger] apply_all(kinds, data, us, outs) {
                Ok(d) => r is Ok && after == d,
                Err(f) => r matches Err(e) && crate::state::apply::is_refusal(e, f) && after == data,
            };
        assert(apply_all(kinds, data, us, outs) is Err);
    }
}

/// An assignment alone is accepted exactly when its key is declared and its
/// value is of the key's kind; the key then holds the value and every other
/// key keeps its data. A refused assignment changes nothing.
pub proof fn law_assign_reads_back<C: Transcript<E>, E>(
    kinds: Map<Seq<char>, Kind>,
    data: Map<Seq<char>, Datum<C>>,
    key: Key,
    value: Value<C>,
    r: Result<(), GraphError>,
    after: Map<Seq<char>, Datum<C>>,
)
    requires
        batch_effect(kinds, data, seq![Update::<C, E>::Assign { key, value }], r, after),
    ensures
        r is Ok <==> (kinds.contains_key(key@) && datum_matches(value@, kinds[key@])),
        r is Ok ==> after == data.insert(key@, value@),
        r is Err ==> after == data,
{
    let us = seq![Update::<C, E>::Assign { key, value }];
    assert forall|i: int| !conflict_at(us, i) by {
        if conflict_at(us, i) {
            let j = choose|j: int| 0 <= j < i && #[trigger] us[j] is Assign && crate::update::update_key(us[j])
                == crate::update::update_key(us[i]);
            assert(false);
        }
    }
    let outs = choose|outs: Seq<Result<C, String>>|
        edits_called(kinds, data, us, outs) && match #[trigger] apply_all(kinds, data, us, outs) {
            Ok(d) => r is Ok && after == d,
            Err(f) => r matches Err(e) && crate::state::apply::is_refusal(e, f) && after == data,
        };
    assert(us.drop_last() =~= Seq::<Update<C, E>>::empty());
    reveal_with_fuel(apply_all, 2);
    assert(apply_all(kinds, data, us, outs) == assign_result(kinds, data, key@, value@));
}

/// Of two nodes that each assign the same key alone, in one superstep, the
/// one declared later decides the key's value, whatever order their
/// results come in.
pub proof fn law_declaration_order_wins<C: Transcript<E>, E>(
    kinds: Map<Seq<char>, Kind>,
    data0: Map<Seq<char>, Datum<C>>,
    order: Seq<Seq<char>>,
    s: Seq<(NodeId, Result<Vec<Update<C, E>>, NodeFault>)>,
    data1: Map<Seq<char>, Datum<C>>,
    applied: Seq<Seq<char>>,
    failure: Option<(NodeId, NodeFault)>,
    key: Key,
    x: Value<C>,
    y: Value<C>,
)
    requires
        order.no_duplicates(),
        s.len() == 2,
        s[0].0@ != s[1].0@,
        order.contains(s[0].0@),
        order.contains(s[1].0@),
        s[0].1 matches Ok(v) && v@ == seq![Update::<C, E>::Assign { key, value: x }],
        s[1].1 matches Ok(v) && v@ == seq![Update::<C, E>::Assign { key, value: y }],
        kinds.contains_key(key@),
        datum_matches(x@, kinds[key@]),
        datum_matches(y@, kinds[key@]),
        settled(kinds, data0, in_order(order, s), data1, applied, failure),
    ensures
        data1[key@] == if order.index_of(s[0].0@) < order.index_of(s[1].0@) {
            y@
        } else {
            x@
        },
{
    let n0 = s[0].0@;
    let n1 = s[1].0@;
    let names = s.map_values(|e: (NodeId, Result<Vec<Update<C, E>>, NodeFault>)| e.0@);
    assert(names[0] == n0 && names[1] == n1);
    let i0 = order.index_of(n0);
    let i1 = order.index_of(n1);
    let (a, b) = if i0 < i1 {
        (i0, i1)
    } else {
        (i1, i0)
    };
    assert(i0 != i1);
    law_results_in_declaration_order(order, s);
    lemma_names_among_order(order, names, a, b);
    lemma_names_among_facts(order, names);
    lemma_in_order_entries(order, s);
    let io = in_order(order, s);
    let ns = names_among(order, names);
    let (p, q) = choose|p: int, q: int|
        0 <= p < q < ns.len() && ns[p] == order[a] && ns[q] == order[b];
    assert forall|v: Seq<char>| names.contains(v) implies v == n0 || v == n1 by {
        let w = choose|w: int| 0 <= w < names.len() && names[w] == v;
        assert(w == 0 || w == 1);
    }
    assert forall|i: int| 0 <= i < ns.len() implies ns[i] == n0 || ns[i] == n1 by {
        assert(ns.contains(ns[i]));
    }
    assert(ns.len() == 2) by {
        if ns.len() > 2 {
            assert(ns[2] == n0 || ns[2] == n1);
            assert(ns[0] == n0 || ns[0] == n1);
            assert(ns[1] == n0 || ns[1] == n1);
        }
    }
    assert(p == 0 && q == 1);
    assert(io.map_values(|e: (NodeId, Result<Vec<Update<C, E>>, NodeFault>)| e.0@) == ns);
    assert(io.len() == 2);
    assert(io[0].0@ == ns[0]);
    assert(io[1].0@ == ns[1]);
    assert(order[i0] == n0 && order[i1] == n1);
    assert forall|i: int| 0 <= i < 2 implies (io[i] == s[0] || io[i] == s[1]) by {
        lemma_last_for(s, io[i].0@);
        let k = last_for(s, io[i].0@)->Some_0;
        assert(io[i] == s[k]);
    }
    let last = if i0 < i1 {
        s[1]
    } else {
        s[0]
    };
    assert(io[1] == last);
    let first = if i0 < i1 {
        s[0]
    } else {
        s[1]
    };
    assert(io[0] == first);
    let (datas, rs) = choose|datas: Seq<Map<Seq<char>, Datum<C>>>, rs: Seq<Result<(), GraphError>>|
        #[trigger] settle_trace(kinds, io, datas, rs) && datas[0] == data0 && datas.last() == data1
            && applied == applied_names(io, rs) && failure == first_failure(io, rs);
    assert(io[1].1 is Ok);
    let v1 = io[1].1->Ok_0;
    let z = if i0 < i1 {
        y
    } else {
        x
    };
    assert(v1@ == seq![Update::<C, E>::Assign { key, value: z }]);
    assert(batch_effect(kinds, datas[1], v1@, rs[1], datas[2]));
    law_assign_reads_back::<C, E>(kinds, datas[1], key, z, rs[1], datas[2]);
    assert(datas[2] == data1);
}

/// Every entry `in_order` gives is the last result for the name it carries.
proof fn lemma_in_order_entries<R>(order: Seq<Seq<char>>, s: Seq<(NodeId, R)>)
    ensures
        forall|i: int|
            0 <= i < in_order(order, s).len() ==> (#[trigger] last_for(s, in_order(order, s)[i].0@) matches Some(
                k,
            ) && in_order(order, s)[i] == s[k]),
    decreases order.len(),
{
    if order.len() > 0 {
        lemma_in_order_entries(order.drop_last(), s);
        lemma_last_for(s, order.last());
        let prev = in_order(order.drop_last(), s);
        let io = in_order(order, s);
        assert forall|i: int| 0 <= i < io.len() implies (#[trigger] last_for(s, io[i].0@) matches Some(k)
            && io[i] == s[k]) by {
            if i < prev.len() {
                assert(io[i] == prev[i]);
            } else {
                let k = last_for(s, order.last())->Some_0;
                assert(io[i] == s[k]);
                assert(s[k].0@ == order.last());
            }
        }
    }
}

/// What `names_among` gives holds no name twice when the declared names do
/// not, and only names that are among the given ones.
proof fn lemma_names_among_facts(order: Seq<Seq<char>>, among: Seq<Seq<char>>)
    ensures
        order.no_duplicates() ==> names_among(order, among).no_duplicates(),
        forall|x: Seq<char>| #[trigger] names_among(order, among).contains(x) ==> among.contains(x)
            && order.contains(x),
    decreases order.len(),
{
    if order.len() > 0 {
        let o2 = order.drop_last();
        lemma_names_among_facts(o2, among);
        let r = names_among(o2, among);
        let rs = names_among(order, among);
        assert forall|x: Seq<char>| #[trigger] rs.contains(x) implies among.contains(x) && order.contains(x) by {
            let k = choose|k: int| 0 <= k < rs.len() && rs[k] == x;
            if k < r.len() {
                assert(r[k] == x);
                assert(r.contains(x));
                let w = choose|w: int| 0 <= w < o2.len() && o2[w] == x;
                assert(order[w] == x);
            } else {
                assert(order[order.len() - 1] == x);
            }
        }
        if order.no_duplicates() {
            assert(o2.no_duplicates()) by {
                assert forall|i: int, j: int| 0 <= i < j < o2.len() implies o2[i] != o2[j] by {
                    assert(o2[i] == order[i] && o2[j] == order[j]);
                }
            }
            if among.contains(order.last()) {
                assert(!r.contains(order.last())) by {
                    if r.contains(order.last()) {
                        assert(o2.contains(order.last()));
                        let w = choose|w: int| 0 <= w < o2.len() && o2[w] == order.last();
                        assert(order[w] == order[order.len() - 1]);
                    }
                }
                assert forall|i: int, j: int| 0 <= i < j < rs.len() implies rs[i] != rs[j] by {
                    if j == r.len() {
                        assert(rs[i] == r[i]);
                        assert(r.contains(r[i]));
                    } else {
                        assert(rs[i] == r[i] && rs[j] == r[j]);
                    }
                }
            }
        }
    }
}

/// Node results are settled in declaration order, whatever order they come
/// in: what `in_order` gives names exactly the declared nodes that have a
/// result, in declaration order.
pub proof fn law_results_in_declaration_order<R>(order: Seq<Seq<char>>, s: Seq<(NodeId, R)>)
    ensures
        in_order(order, s).map_values(|e: (NodeId, R)| e.0@) == names_among(
            order,
            s.map_values(|e: (NodeId, R)| e.0@),
        ),
    decreases order.len(),
{
    let names = s.map_values(|e: (NodeId, R)| e.0@);
    if order.len() > 0 {
        law_results_in_declaration_order(order.drop_last(), s);
        lemma_last_for(s, order.last());
        let prev = in_order(order.drop_last(), s);
        match last_for(s, order.last()) {
            Some(k) => {
                assert(names[k] == order.last());
                assert(names.contains(order.last()));
                assert(in_order(order, s).map_values(|e: (NodeId, R)| e.0@) =~= prev.map_values(
                    |e: (NodeId, R)| e.0@,
                ).push(order.last()));
            },
            None => {
                assert forall|j: int| 0 <= j < names.len() implies names[j] != order.last() by {
                    assert(s[j].0@ != order.last());
                }
                assert(!names.contains(order.last()));
            },
        }
    }
}

/// Two declared names that are both among the given names come out of
/// `names_among` in declaration order.
proof fn lemma_names_among_order(order: Seq<Seq<char>>, among: Seq<Seq<char>>, a: int, b: int)
    requires
        order.no_duplicates(),
        0 <= a < b < order.len(),
        among.contains(order[a]),
        among.contains(order[b]),
    ensures
        exists|p: int, q: int|
            0 <= p < q < names_among(order, among).len() && names_among(order, among)[p] == order[a]
                && names_among(order, among)[q] == order[b],
    decreases order.len(),
{
    let r = names_among(order, among);
    if b < order.len() - 1 {
        let o2 = order.drop_last();
        assert(o2[a] == order[a]);
        assert(o2[b] == order[b]);
        lemma_names_among_order(o2, among, a, b);
        let (p, q) = choose|p: int, q: int|
            0 <= p < q < names_among(o2, among).len() && names_among(o2, among)[p] == o2[a]
                && names_among(o2, among)[q] == o2[b];
        assert(r[p] == order[a]);
        assert(r[q] == order[b]);
    } else {
        let o2 = order.drop_last();
        assert(o2[a] == order[a]);
        lemma_names_among_contains(o2, among, a);
        let p = choose|p: int| 0 <= p < names_among(o2, among).len() && names_among(o2, among)[p] == o2[a];
        assert(r == names_among(o2, among).push(order.last()));
        assert(r[p] == order[a]);
        assert(r[names_among(o2, among).len() as int] == order[b]);
    }
}

/// A declared name that is among the given names comes out of
/// `names_among`.
proof fn lemma_names_among_contains(order: Seq<Seq<char>>, among: Seq<Seq<char>>, a: int)
    requires
        0 <= a < order.len(),
        among.contains(order[a]),
    ensures
        exists|p: int| 0 <= p < names_among(order, among).len() && names_among(order, among)[p] == order[a],
    decreases order.len(),
{
    let r = names_among(order, among);
    if a < order.len() - 1 {
        let o2 = order.drop_last();
        assert(o2[a] == order[a]);
        lemma_names_among_contains(o2, among, a);
        let p = choose|p: int| 0 <= p < names_among(o2, among).len() && names_among(o2, among)[p] == o2[a];
        assert(r[p] == order[a]);
    } else {
        let o2 = order.drop_last();
        assert(r[names_among(o2, among).len() as int] == order[a]);
    }
}

/// What `names_joined` keeps: the names of the sequence whose join flag is
/// `want`; none twice when the sequence holds none twice.
proof fn lemma_names_joined<N, E>(graph: Graph<N, E>, s: Seq<Seq<char>>, want: bool)
    ensures
        forall|x: Seq<char>| #[trigger]
            names_joined(graph, s, want).contains(x) <==> s.contains(x) && graph.is_join_name(x)
                == want,
        s.no_duplicates() ==> names_joined(graph, s, want).no_duplicates(),
    decreases s.len(),
{
    if s.len() > 0 {
        let t = s.drop_last();
        lemma_names_joined(graph, t, want);
        let r = names_joined(graph, t, want);
        let rs = names_joined(graph, s, want);
        assert forall|x: Seq<char>| #[trigger] rs.contains(x) <==> s.contains(x) && graph.is_join_name(x)
            == want by {
            if s.contains(x) && graph.is_join_name(x) == want {
                let w = choose|w: int| 0 <= w < s.len() && s[w] == x;
                if w < s.len() - 1 {
                    assert(t[w] == x);
                    assert(r.contains(x));
                    let k = choose|k: int| 0 <= k < r.len() && r[k] == x;
                    if graph.is_join_name(s.last()) == want {
                        assert(rs[k] == x);
                    }
                } else {
                    assert(rs[r.len() as int] == x);
                }
            }
            if rs.contains(x) {
                let k = choose|k: int| 0 <= k < rs.len() && rs[k] == x;
                if k < r.len() {
                    assert(r[k] == x);
                    assert(r.contains(x));
                    let w = choose|w: int| 0 <= w < t.len() && t[w] == x;
                    assert(s[w] == x);
                } else {
                    assert(s[s.len() - 1] == x);
                }
            }
        }
        if s.no_duplicates() {
            assert(t.no_duplicates()) by {
                assert forall|i: int, j: int| 0 <= i < j < t.len() implies t[i] != t[j] by {
                    assert(t[i] == s[i] && t[j] == s[j]);
                }
            }
            if graph.is_join_name(s.last()) == want {
                assert(!t.contains(s.last())) by {
                    if t.contains(s.last()) {
                        let w = choose|w: int| 0 <= w < t.len() && t[w] == s.last();
                        assert(s[w] == s[s.len() - 1]);
                    }
                }
                assert(!r.contains(s.last()));
                assert forall|i: int, j: int| 0 <= i < j < rs.len() implies rs[i] != rs[j] by {
                    if j == r.len() {
                        assert(rs[i] == r[i]);
                        assert(r.contains(r[i]));
                    } else {
                        assert(rs[i] == r[i] && rs[j] == r[j]);
                    }
                }
            }
        }
    }
}

/// After a superstep every pending node — each node an edge led to and
/// each deferred join — is scheduled exactly once: it is active or
/// deferred, not both, and no set holds a node twice. Only joins are
/// deferred, and joins are active only when no plain node is pending.
pub proof fn law_next_sets<N, E>(graph: Graph<N, E>, produced: Seq<Seq<char>>, deferred: Seq<Seq<char>>)
    ensures
        ({
            let (a, d) = next_sets_spec(graph, produced, deferred);
            &&& a.no_duplicates()
            &&& d.no_duplicates()
            &&& forall|x: Seq<char>| #[trigger] a.contains(x) ==> !d.contains(x)
            &&& forall|x: Seq<char>|
                #![trigger (produced + deferred).contains(x)]
                (produced + deferred).contains(x) <==> a.contains(x) || d.contains(x)
            &&& forall|x: Seq<char>| #[trigger] d.contains(x) ==> graph.is_join_name(x)
            &&& (exists|x: Seq<char>| #[trigger] a.contains(x) && graph.is_join_name(x)) ==> d.len() == 0
                && forall|y: Seq<char>| #[trigger] a.contains(y) ==> graph.is_join_name(y)
        }),
{
    let pending = distinct(produced + deferred);
    lemma_distinct(produced + deferred);
    lemma_names_joined(graph, pending, true);
    lemma_names_joined(graph, pending, false);
    let joins = names_joined(graph, pending, true);
    let plain = names_joined(graph, pending, false);
    assert forall|x: Seq<char>| #![trigger (produced + deferred).contains(x)]
        (produced + deferred).contains(x) ==> joins.contains(x) || plain.contains(x) by {
        if (produced + deferred).contains(x) {
            assert(pending.contains(x));
            if graph.is_join_name(x) {
                assert(joins.contains(x));
            } else {
                assert(plain.contains(x));
            }
        }
    }
    if plain.len() == 0 {
        assert forall|x: Seq<char>| pending.contains(x) implies graph.is_join_name(x) by {
            if !graph.is_join_name(x) {
                assert(plain.contains(x));
            }
        }
    } else {
        let x0 = plain[0];
        assert(plain.contains(x0));
    }
}

/// The empty list is of every list kind.
pub proof fn law_empty_list_matches_any_list<C>(element: Kind)
    ensures
        datum_matches(Datum::<C>::List(Seq::empty()), Kind::List { element: Box::new(element) }),
{
}

/// The builders along a run of declarations hold, at each point, what the
/// declarations so far leave in each map.
proof fn lemma_declared_prefix(
    decls: Seq<(Declared, Seq<char>, Kind)>,
    steps: Seq<SchemaBuilder>,
    n: int,
)
    requires
        steps.len() == decls.len() + 1,
        steps[0].state_kinds() == Map::<Seq<char>, Kind>::empty(),
        steps[0].config_kinds() == Map::<Seq<char>, Kind>::empty(),
        forall|i: int| 0 <= i < decls.len() ==> declares(steps[i], #[trigger] decls[i], steps[i + 1]),
        0 <= n <= decls.len(),
    ensures
        steps[n].state_kinds() == declared_kinds(decls.take(n), Declared::State),
        steps[n].config_kinds() == declared_kinds(decls.take(n), Declared::Config),
    decreases n,
{
    if n > 0 {
        lemma_declared_prefix(decls, steps, n - 1);
        assert(decls.take(n).drop_last() =~= decls.take(n - 1));
        assert(decls.take(n).last() == decls[n - 1]);
        assert(declares(steps[n - 1], decls[n - 1], steps[n]));
    } else {
        assert(decls.take(0) =~= Seq::<(Declared, Seq<char>, Kind)>::empty());
    }
}

/// A key is in a map of the declarations exactly when some declaration put
/// it there.
proof fn lemma_declared_dom(decls: Seq<(Declared, Seq<char>, Kind)>, w: Declared, k: Seq<char>)
    ensures
        declared_kinds(decls, w).contains_key(k) <==> exists|i: int|
            0 <= i < decls.len() && decls[i].0 == w && #[trigger] decls[i].1 == k,
    decreases decls.len(),
{
    if decls.len() > 0 {
        let t = decls.drop_last();
        lemma_declared_dom(t, w, k);
        if exists|i: int| 0 <= i < t.len() && t[i].0 == w && #[trigger] t[i].1 == k {
            let i = choose|i: int| 0 <= i < t.len() && t[i].0 == w && #[trigger] t[i].1 == k;
            assert(decls[i] == t[i]);
        }
        if exists|i: int| 0 <= i < decls.len() && decls[i].0 == w && #[trigger] decls[i].1 == k {
            let i = choose|i: int| 0 <= i < decls.len() && decls[i].0 == w && #[trigger] decls[i].1 == k;
            if i < decls.len() - 1 {
                assert(t[i] == decls[i]);
            }
        }
    }
}

/// A key's kind in a map of the declarations is that of its last
/// declaration there.
proof fn lemma_declared_last(decls: Seq<(Declared, Seq<char>, Kind)>, w: Declared, i: int)
    requires
        0 <= i < decls.len(),
        decls[i].0 == w,
        forall|j: int| i < j < decls.len() ==> !(#[trigger] decls[j].0 == w && decls[j].1 == decls[i].1),
    ensures
        declared_kinds(decls, w).contains_key(decls[i].1),
        declared_kinds(decls, w)[decls[i].1] == decls[i].2,
    decreases decls.len(),
{
    let t = decls.drop_last();
    if i < decls.len() - 1 {
        assert forall|j: int| i < j < t.len() implies !(#[trigger] t[j].0 == w && t[j].1 == t[i].1) by {
            assert(t[j] == decls[j]);
        }
        lemma_declared_last(t, w, i);
        assert(!(decls[decls.len() - 1].0 == w && decls[decls.len() - 1].1 == decls[i].1));
        assert(t[i] == decls[i]);
    }
}

/// Declaring keys on a schema builder that starts empty, with state and
/// config calls in any order, and building it, gives the schema whose state
/// map holds the state declarations and whose config map holds the config
/// declarations: a key is there exactly when it was declared there, with
/// the kind of its last declaration there. A state declaration never
/// touches the config map, nor a config declaration the state map; with no
/// declarations both maps are empty.
pub proof fn law_schema_declarations(
    decls: Seq<(Declared, Seq<char>, Kind)>,
    steps: Seq<SchemaBuilder>,
    built: Schema,
)
    requires
        steps.len() == decls.len() + 1,
        steps[0].state_kinds() == Map::<Seq<char>, Kind>::empty(),
        steps[0].config_kinds() == Map::<Seq<char>, Kind>::empty(),
        forall|i: int| 0 <= i < decls.len() ==> declares(steps[i], #[trigger] decls[i], steps[i + 1]),
        built.state@ == steps.last().state_kinds(),
        built.config@ == steps.last().config_kinds(),
    ensures
        built.state@ == declared_kinds(decls, Declared::State),
        built.config@ == declared_kinds(decls, Declared::Config),
        forall|w: Declared, k: Seq<char>|
            #![trigger declared_kinds(decls, w).contains_key(k)]
            declared_kinds(decls, w).contains_key(k) <==> exists|i: int|
                0 <= i < decls.len() && decls[i].0 == w && #[trigger] decls[i].1 == k,
        forall|i: int|
            0 <= i < decls.len() && (forall|j: int|
                i < j < decls.len() ==> !(#[trigger] decls[j].0 == decls[i].0 && decls[j].1 == decls[i].1))
                ==> declared_kinds(decls, #[trigger] decls[i].0)[decls[i].1] == decls[i].2,
        decls.len() == 0 ==> built.state@ == Map::<Seq<char>, Kind>::empty() && built.config@ == Map::<
            Seq<char>,
            Kind,
        >::empty(),
{
    lemma_declared_prefix(decls, steps, decls.len() as int);
    assert(decls.take(decls.len() as int) =~= decls);
    assert forall|w: Declared, k: Seq<char>|
        #![trigger declared_kinds(decls, w).contains_key(k)]
        declared_kinds(decls, w).contains_key(k) <==> exists|i: int|
            0 <= i < decls.len() && decls[i].0 == w && #[trigger] decls[i].1 == k by {
        lemma_declared_dom(decls, w, k);
    }
    assert forall|i: int|
        0 <= i < decls.len() && (forall|j: int|
            i < j < decls.len() ==> !(#[trigger] decls[j].0 == decls[i].0 && decls[j].1 == decls[i].1))
            implies declared_kinds(decls, #[trigger] decls[i].0)[decls[i].1] == decls[i].2 by {
        lemma_declared_last(decls, decls[i].0, i);
    }
}

/// The last position of a name is where it stands, and no later name is
/// it; there is none exactly when the names do not hold it.
proof fn lemma_last_named(names: Seq<Seq<char>>, name: Seq<char>)
    ensures
        last_named(names, name) matches Some(k) ==> 0 <= k < names.len() && names[k] == name
            && forall|t: int| k < t < names.len() ==> #[trigger] names[t] != name,
        last_named(names, name) is None <==> !names.contains(name),
    decreases names.len(),
{
    if names.len() > 0 {
        let t = names.drop_last();
        lemma_last_named(t, name);
        if names.last() != name {
            if let Some(k) = last_named(t, name) {
                assert forall|x: int| k < x < names.len() implies #[trigger] names[x] != name by {
                    if x < names.len() - 1 {
                        assert(names[x] == t[x]);
                    }
                }
            }
            if names.contains(name) {
                let i = choose|i: int| 0 <= i < names.len() && names[i] == name;
                assert(t[i] == name);
            }
            if t.contains(name) {
                let i = choose|i: int| 0 <= i < t.len() && t[i] == name;
                assert(names[i] == name);
            }
        } else {
            assert(names[names.len() - 1] == name);
        }
    }
}

/// What a tool node takes from the pending calls (given by name, in the
/// order they were made) and its tools (by name): pairs of a call's
/// position and a tool's position, where the tool is the last of the call's
/// name; the calls come in the order they were made, each once; every call
/// some tool is named for is taken, and no other.
pub open spec fn takes_calls(calls: Seq<Seq<char>>, names: Seq<Seq<char>>, r: Seq<(usize, usize)>) -> bool {
    &&& forall|k: int|
        0 <= k < r.len() ==> {
            let (c, t) = #[trigger] r[k];
            &&& c < calls.len()
            &&& t < names.len()
            &&& names[t as int] == calls[c as int]
            &&& forall|u: int| t < u < names.len() ==> names[u] != calls[c as int]
        }
    &&& forall|k1: int, k2: int| 0 <= k1 < k2 < r.len() ==> (#[trigger] r[k1]).0 < (#[trigger] r[k2]).0
    &&& forall|i: int|
        0 <= i < calls.len() ==> (names.contains(#[trigger] calls[i]) <==> exists|k: int|
            0 <= k < r.len() && (#[trigger] r[k]).0 == i)
}

/// A tool node takes each pending call that one of its tools is named for,
/// in the order the calls were made, each once, with the last of its tools
/// of that name; it leaves the calls none of its tools is named for.
pub proof fn law_tool_node_takes_calls(calls: Seq<Seq<char>>, names: Seq<Seq<char>>)
    requires
        calls.len() <= usize::MAX,
        names.len() <= usize::MAX,
    ensures
        takes_calls(calls, names, owned_pairs(calls, names)),
    decreases calls.len(),
{
    let r = owned_pairs(calls, names);
    if calls.len() == 0 {
        assert(r.len() == 0);
    } else {
        let t = calls.drop_last();
        let i0 = calls.len() - 1;
        let name = calls.last();
        law_tool_node_takes_calls(t, names);
        lemma_last_named(names, name);
        let rt = owned_pairs(t, names);
        assert forall|k: int| 0 <= k < rt.len() implies (#[trigger] rt[k]).0 < i0 by {}
        assert forall|i: int| 0 <= i < t.len() implies #[trigger] t[i] == calls[i] by {}
        match last_named(names, name) {
            Some(k) => {
                assert(r == rt.push((i0 as usize, k as usize)));
                assert forall|i: int|
                    0 <= i < calls.len() implies (names.contains(#[trigger] calls[i]) <==> exists|k: int|
                        0 <= k < r.len() && (#[trigger] r[k]).0 == i) by {
                    if i < i0 {
                        assert(t[i] == calls[i]);
                        if names.contains(calls[i]) {
                            let j = choose|j: int| 0 <= j < rt.len() && (#[trigger] rt[j]).0 == i;
                            assert(r[j] == rt[j]);
                        }
                        if exists|j: int| 0 <= j < r.len() && (#[trigger] r[j]).0 == i {
                            let j = choose|j: int| 0 <= j < r.len() && (#[trigger] r[j]).0 == i;
                            assert(j < rt.len());
                            assert(r[j] == rt[j]);
                        }
                    } else {
                        assert(r[r.len() - 1].0 == i);
                    }
                }
            },
            None => {
                assert(r == rt);
                assert forall|i: int|
                    0 <= i < calls.len() implies (names.contains(#[trigger] calls[i]) <==> exists|k: int|
                        0 <= k < r.len() && (#[trigger] r[k]).0 == i) by {
                    if i < i0 {
                        assert(t[i] == calls[i]);
                    } else {
                        if exists|j: int| 0 <= j < r.len() && (#[trigger] r[j]).0 == i {
                            let j = choose|j: int| 0 <= j < r.len() && (#[trigger] r[j]).0 == i;
                            assert(rt[j].0 < i0);
                        }
                    }
                }
            },
        }
    }
}

/// An append alone is accepted exactly when its key is declared as a list,
/// the value is of the list's element kind and the key holds a list; the
/// list then holds its old items, in their places, followed by the value,
/// and every other key keeps its data. A refused append changes nothing.
pub proof fn law_append_pushes_at_end<C: Transcript<E>, E>(
    kinds: Map<Seq<char>, Kind>,
    data: Map<Seq<char>, Datum<C>>,
    key: Key,
    value: Value<C>,
    r: Result<(), GraphError>,
    after: Map<Seq<char>, Datum<C>>,
)
    requires
        batch_effect(kinds, data, seq![Update::<C, E>::Append { key, value }], r, after),
    ensures
        r is Ok <==> (kinds.contains_key(key@) && kinds[key@] is List && datum_matches(
            value@,
            *kinds[key@]->element,
        ) && data.contains_key(key@) && data[key@] is List),
        r is Ok ==> after.dom() == data.dom() && after[key@] is List && after[key@]->List_0.len()
            == data[key@]->List_0.len() + 1 && after[key@]->List_0.last() == value@ && (forall|i: int|
            0 <= i < data[key@]->List_0.len() ==> #[trigger] after[key@]->List_0[i]
                == data[key@]->List_0[i]) && (forall|k: Seq<char>|
            k != key@ && data.contains_key(k) ==> #[trigger] after[k] == data[k]),
        r is Err ==> after == data,
{
    let us = seq![Update::<C, E>::Append { key, value }];
    assert forall|i: int| !conflict_at(us, i) by {
        if conflict_at(us, i) {
            assert(us[i] is Append);
            assert(false);
        }
    }
    let outs = choose|outs: Seq<Result<C, String>>|
        edits_called(kinds, data, us, outs) && match #[trigger] apply_all(kinds, data, us, outs) {
            Ok(d) => r is Ok && after == d,
            Err(f) => r matches Err(e) && crate::state::apply::is_refusal(e, f) && after == data,
        };
    assert(us.drop_last() =~= Seq::<Update<C, E>>::empty());
    reveal_with_fuel(apply_all, 2);
    assert(apply_all(kinds, data, us, outs) == append_result(kinds, data, key@, value@));
}

/// The held inputs are applied as one batch of edits in the order they
/// came: update `i` of the batch edits the conversation the `i`th input
/// names, with that input, and there is one update per input.
pub proof fn law_inputs_in_arrival_order<C, E>(held: Seq<(Key, E)>)
    ensures
        edits_of::<C, E>(held).len() == held.len(),
        forall|i: int|
            0 <= i < held.len() ==> #[trigger] edits_of::<C, E>(held)[i] == (Update::<C, E>::Edit {
                key: held[i].0,
                edit: held[i].1,
            }),
{
}

/// Settling reports the earliest failure, in the order the results are
/// taken: none exactly when every node returned updates and every batch was
/// accepted; otherwise the node at the first position whose node failed or
/// whose batch was refused (`rs[k]` being the result of the batch of
/// `items[k]`), with its fault, or with the refusal.
pub proof fn law_first_failure_is_earliest<C, E>(
    items: Seq<(NodeId, Result<Vec<Update<C, E>>, NodeFault>)>,
    rs: Seq<Result<(), GraphError>>,
)
    requires
        rs.len() == items.len(),
    ensures
        first_failure(items, rs) is None <==> forall|k: int|
            0 <= k < items.len() ==> #[trigger] items[k].1 is Ok && rs[k] is Ok,
        first_failure(items, rs) matches Some(f) ==> exists|k: int|
            0 <= k < items.len() && (forall|j: int|
                0 <= j < k ==> #[trigger] items[j].1 is Ok && rs[j] is Ok) && f.0 == #[trigger] items[k].0
                && match items[k].1 {
                Err(fault) => f.1 == fault,
                Ok(_) => rs[k] matches Err(e) && f.1 == NodeFault::Refused(Box::new(e)),
            },
    decreases items.len(),
{
    if items.len() > 0 {
        let t = items.drop_last();
        let rt = rs.drop_last();
        law_first_failure_is_earliest(t, rt);
        assert forall|j: int| 0 <= j < t.len() implies #[trigger] t[j] == items[j] && rt[j] == rs[j] by {}
        let n = items.len() - 1;
        match first_failure(t, rt) {
            Some(f) => {
                let k = choose|k: int|
                    0 <= k < t.len() && (forall|j: int|
                        0 <= j < k ==> #[trigger] t[j].1 is Ok && rt[j] is Ok) && f.0 == #[trigger] t[k].0
                        && match t[k].1 {
                        Err(fault) => f.1 == fault,
                        Ok(_) => rt[k] matches Err(e) && f.1 == NodeFault::Refused(Box::new(e)),
                    };
                assert(t[k] == items[k] && rt[k] == rs[k]);
                assert(first_failure(items, rs) == Some(f));
                assert(!(items[k].1 is Ok && rs[k] is Ok));
                assert forall|j: int| 0 <= j < k implies #[trigger] items[j].1 is Ok && rs[j] is Ok by {
                    assert(t[j] == items[j] && rt[j] == rs[j]);
                }
            },
            None => {
                assert forall|j: int| 0 <= j < n implies #[trigger] items[j].1 is Ok && rs[j] is Ok by {
                    assert(t[j] == items[j] && rt[j] == rs[j]);
                    assert(t[j].1 is Ok && rt[j] is Ok);
                }
                if first_failure(items, rs) is None {
                    assert forall|k: int| 0 <= k < items.len() implies #[trigger] items[k].1 is Ok
                        && rs[k] is Ok by {
                        if k < n {
                            assert(t[k] == items[k] && rt[k] == rs[k]);
                            assert(t[k].1 is Ok && rt[k] is Ok);
                        }
                    }
                } else {
                    assert(!(items[n].1 is Ok && rs[n] is Ok));
                }
            },
        }
    }
}

/// The keys of a map node fit the schema exactly when all four are
/// declared, the list key is a list of the item key's kind, and the results
/// key is a list of the output key's kind.
pub proof fn law_map_keys_fit(
    kinds: Map<Seq<char>, Kind>,
    list: Seq<char>,
    item: Seq<char>,
    output: Seq<char>,
    results: Seq<char>,
)
    ensures
        map_keys_fit(kinds, list, item, output, results) <==> (kinds.contains_key(list)
            && kinds.contains_key(item) && kinds.contains_key(output) && kinds.contains_key(results)
            && kinds[list] == (Kind::List { element: Box::new(kinds[item]) }) && kinds[results] == (
        Kind::List { element: Box::new(kinds[output]) })),
{
}

/// The string items of a list hold a text exactly when some item is that
/// string.
proof fn lemma_string_items<C>(items: Seq<Datum<C>>, t: Seq<char>)
    ensures
        string_items(items).contains(t) <==> exists|i: int|
            0 <= i < items.len() && #[trigger] items[i] == Datum::<C>::Str(t),
    decreases items.len(),
{
    if items.len() > 0 {
        let h = items.drop_last();
        lemma_string_items(h, t);
        let r = string_items(h);
        if exists|i: int| 0 <= i < h.len() && #[trigger] h[i] == Datum::<C>::Str(t) {
            let i = choose|i: int| 0 <= i < h.len() && #[trigger] h[i] == Datum::<C>::Str(t);
            assert(items[i] == h[i]);
            let j = choose|j: int| 0 <= j < r.len() && r[j] == t;
            assert(string_items(items).contains(t)) by {
                match items.last() {
                    Datum::Str(x) => assert(r.push(x)[j] == t),
                    _ => {},
                }
            }
        }
        if exists|i: int| 0 <= i < items.len() && #[trigger] items[i] == Datum::<C>::Str(t) {
            let i = choose|i: int| 0 <= i < items.len() && #[trigger] items[i] == Datum::<C>::Str(t);
            if i < h.len() {
                assert(h[i] == items[i]);
            } else {
                assert(string_items(items) == r.push(t));
                assert(r.push(t)[r.len() as int] == t);
            }
        }
        if string_items(items).contains(t) {
            let j = choose|j: int| 0 <= j < string_items(items).len() && string_items(items)[j] == t;
            match items.last() {
                Datum::Str(x) => {
                    if j < r.len() {
                        assert(r.push(x)[j] == r[j]);
                        assert(r.contains(t));
                    } else {
                        assert(items[items.len() - 1] == Datum::<C>::Str(t));
                    }
                },
                _ => {
                    assert(r.contains(t));
                },
            }
        }
    }
}

/// What a model node declares to the model, given its tools by name and
/// the items of its enabled list: positions of tools, in order, each once,
/// and a tool is there exactly when some item of the list is the string of
/// its name.
pub open spec fn declares_tools<C>(names: Seq<Seq<char>>, items: Seq<Datum<C>>, r: Seq<usize>) -> bool {
    &&& forall|k: int| 0 <= k < r.len() ==> #[trigger] r[k] < names.len()
    &&& forall|k1: int, k2: int| 0 <= k1 < k2 < r.len() ==> #[trigger] r[k1] < #[trigger] r[k2]
    &&& forall|p: int|
        #![trigger names[p]]
        0 <= p < names.len() ==> ((exists|k: int| 0 <= k < r.len() && #[trigger] r[k] == p) <==> exists|i: int|
            0 <= i < items.len() && #[trigger] items[i] == Datum::<C>::Str(names[p]))
}

/// The positions of the names an allowed list holds: in order, each once,
/// exactly those whose name it holds.
proof fn lemma_positions_in(names: Seq<Seq<char>>, allowed: Seq<Seq<char>>)
    requires
        names.len() <= usize::MAX,
    ensures
        forall|k: int|
            0 <= k < positions_in(names, allowed).len() ==> #[trigger] positions_in(names, allowed)[k]
                < names.len(),
        forall|k1: int, k2: int|
            0 <= k1 < k2 < positions_in(names, allowed).len() ==> #[trigger] positions_in(names, allowed)[k1]
                < #[trigger] positions_in(names, allowed)[k2],
        forall|p: int|
            0 <= p < names.len() ==> ((exists|k: int|
                0 <= k < positions_in(names, allowed).len() && #[trigger] positions_in(names, allowed)[k]
                    == p) <==> allowed.contains(#[trigger] names[p])),
    decreases names.len(),
{
    if names.len() > 0 {
        let h = names.drop_last();
        let n = names.len() - 1;
        lemma_positions_in(h, allowed);
        let rh = positions_in(h, allowed);
        let r = positions_in(names, allowed);
        assert forall|p: int| 0 <= p < h.len() implies #[trigger] h[p] == names[p] by {}
        if allowed.contains(names.last()) {
            assert(r == rh.push(n as usize));
        } else {
            assert(r == rh);
        }
        assert forall|p: int|
            0 <= p < names.len() implies ((exists|k: int| 0 <= k < r.len() && #[trigger] r[k] == p)
                <==> allowed.contains(#[trigger] names[p])) by {
            if p < n {
                assert(h[p] == names[p]);
                if exists|k: int| 0 <= k < rh.len() && #[trigger] rh[k] == p {
                    let k = choose|k: int| 0 <= k < rh.len() && #[trigger] rh[k] == p;
                    assert(r[k] == rh[k]);
                }
                if exists|k: int| 0 <= k < r.len() && #[trigger] r[k] == p {
                    let k = choose|k: int| 0 <= k < r.len() && #[trigger] r[k] == p;
                    if k < rh.len() {
                        assert(r[k] == rh[k]);
                    }
                }
            } else {
                if allowed.contains(names[p]) {
                    assert(r[r.len() - 1] == p);
                }
                if exists|k: int| 0 <= k < r.len() && #[trigger] r[k] == p {
                    let k = choose|k: int| 0 <= k < r.len() && #[trigger] r[k] == p;
                    if k < rh.len() {
                        assert(r[k] == rh[k]);
                    }
                }
            }
        }
    }
}

/// A model node with an enabled list declares, in order and once each,
/// exactly the tools whose name is some string item of the list (every
/// string item counts; other items are skipped).
pub proof fn law_declared_tools<C>(names: Seq<Seq<char>>, items: Seq<Datum<C>>)
    requires
        names.len() <= usize::MAX,
    ensures
        declares_tools(names, items, positions_in(names, string_items(items))),
{
    let allowed = string_items(items);
    lemma_positions_in(names, allowed);
    let r = positions_in(names, allowed);
    assert forall|p: int|
        #![trigger names[p]]
        0 <= p < names.len() implies ((exists|k: int| 0 <= k < r.len() && #[trigger] r[k] == p)
            <==> exists|i: int| 0 <= i < items.len() && #[trigger] items[i] == Datum::<C>::Str(names[p])) by {
        lemma_string_items(items, names[p]);
        assert((exists|k: int| 0 <= k < r.len() && #[trigger] r[k] == p) <==> allowed.contains(names[p]));
    }
}

} // verus!
