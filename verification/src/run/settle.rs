use vstd::prelude::*;

use crate::error::{GraphError, NodeFault};
use crate::graph::graph::Graph;
use crate::ident::{Key, NodeId};
use crate::run::cursor::id_names;
use crate::state::apply::batch_effect;
use crate::state::kind::Kind;
use crate::state::state::State;
use crate::state::value::Datum;
use crate::update::{Transcript, Update};

verus! {

/// The position of the last entry of `s` for the node `name`.
pub open spec fn last_for<R>(s: Seq<(NodeId, R)>, name: Seq<char>) -> Option<int>
    decreases s.len(),
{
    if s.len() == 0 {
        None
    } else if s.last().0@ == name {
        Some(s.len() - 1)
    } else {
        last_for(s.drop_last(), name)
    }
}

/// The entries of `s` taken in the order of `order`: for each name, the
/// last entry for it, if there is one.
pub open spec fn in_order<R>(order: Seq<Seq<char>>, s: Seq<(NodeId, R)>) -> Seq<(NodeId, R)>
    decreases order.len(),
{
    if order.len() == 0 {
        Seq::empty()
    } else {
        let r = in_order(order.drop_last(), s);
        match last_for(s, order.last()) {
            Some(k) => r.push(s[k]),
            None => r,
        }
    }
}

/// The last entry for a name is an entry for it, and no later entry is.
pub proof fn lemma_last_for<R>(s: Seq<(NodeId, R)>, name: Seq<char>)
    ensures
        match last_for(s, name) {
            Some(k) => 0 <= k < s.len() && s[k].0@ == name && forall|j: int|
                k < j < s.len() ==> #[trigger] s[j].0@ != name,
            None => forall|j: int| 0 <= j < s.len() ==> #[trigger] s[j].0@ != name,
        },
    decreases s.len(),
{
    if s.len() > 0 {
        lemma_last_for(s.drop_last(), name);
        assert forall|j: int| 0 <= j < s.len() - 1 implies #[trigger] s[j].0@ == s.drop_last()[j].0@ by {
        }
    }
}

/// The first failure kept: an earlier one stays.
pub open spec fn keep_first(
    earlier: Option<(NodeId, NodeFault)>,
    now: (NodeId, NodeFault),
) -> Option<(NodeId, NodeFault)> {
    if earlier is Some {
        earlier
    } else {
        Some(now)
    }
}

/// The nodes whose batches were accepted, in order, where `rs[k]` is the
/// result of the batch of `items[k]`.
pub open spec fn applied_names<C, E>(
    items: Seq<(NodeId, Result<Vec<Update<C, E>>, NodeFault>)>,
    rs: Seq<Result<(), GraphError>>,
) -> Seq<Seq<char>>
    decreases items.len(),
{
    if items.len() == 0 {
        Seq::empty()
    } else {
        let a = applied_names(items.drop_last(), rs.drop_last());
        if items.last().1 is Ok && rs.last() is Ok {
            a.push(items.last().0@)
        } else {
            a
        }
    }
}

/// The first node that failed, or whose batch was refused (`rs[k]` being
/// the result of the batch of `items[k]`).
pub open spec fn first_failure<C, E>(
    items: Seq<(NodeId, Result<Vec<Update<C, E>>, NodeFault>)>,
    rs: Seq<Result<(), GraphError>>,
) -> Option<(NodeId, NodeFault)>
    decreases items.len(),
{
    if items.len() == 0 {
        None
    } else {
        let f = first_failure(items.drop_last(), rs.drop_last());
        let id = items.last().0;
        match items.last().1 {
            Err(fault) => keep_first(f, (id, fault)),
            Ok(_) => match rs.last() {
                Ok(_) => f,
                Err(e) => keep_first(f, (id, NodeFault::Refused(Box::new(e)))),
            },
        }
    }
}

/// A trace of settling: `datas[k]` is the data before `items[k]` and
/// `datas[k + 1]` the data after it; a node that failed changes nothing,
/// and the batch of a node that returned updates has result `rs[k]` (see
/// `batch_effect`).
pub open spec fn settle_trace<C: Transcript<E>, E>(
    kinds: Map<Seq<char>, Kind>,
    items: Seq<(NodeId, Result<Vec<Update<C, E>>, NodeFault>)>,
    datas: Seq<Map<Seq<char>, Datum<C>>>,
    rs: Seq<Result<(), GraphError>>,
) -> bool {
    &&& datas.len() == items.len() + 1
    &&& rs.len() == items.len()
    &&& forall|k: int|
        0 <= k < items.len() ==> match #[trigger] items[k].1 {
            Err(_) => datas[k + 1] == datas[k],
            Ok(us) => batch_effect(kinds, datas[k], us@, rs[k], datas[k + 1]),
        }
}

/// What settling the node results does, taken in order: each node that
/// returned updates has them applied as one batch onto the data the earlier
/// batches left; a failure does not stop later batches. `applied` names the
/// nodes whose batch was accepted, in order, and `failure` is the first node
/// that failed or whose batch was refused.
pub open spec fn settled<C: Transcript<E>, E>(
    kinds: Map<Seq<char>, Kind>,
    data0: Map<Seq<char>, Datum<C>>,
    items: Seq<(NodeId, Result<Vec<Update<C, E>>, NodeFault>)>,
    data1: Map<Seq<char>, Datum<C>>,
    applied: Seq<Seq<char>>,
    failure: Option<(NodeId, NodeFault)>,
) -> bool {
    exists|datas: Seq<Map<Seq<char>, Datum<C>>>, rs: Seq<Result<(), GraphError>>|
        #[trigger] settle_trace(kinds, items, datas, rs) && datas[0] == data0 && datas.last() == data1
            && applied == applied_names(items, rs) && failure == first_failure(items, rs)
}

/// Takes the node results in the order of `order`, keeping for each name
/// the last result given for it; results for other names are dropped.
pub fn order_results<R>(order: &Vec<NodeId>, results: Vec<(NodeId, R)>) -> (r: Vec<(NodeId, R)>)
    requires
        id_names(order@).no_duplicates(),
    ensures
        r@ == in_order(id_names(order@), results@),
{
    let ghost names = id_names(order@);
    let ghost s = results@;
    let m = order.len();
    let mut slots: Vec<Option<(NodeId, R)>> = Vec::new();
    let mut p: usize = 0;
    while p < m
        invariant
            m == order@.len(),
            p <= m,
            slots@.len() == p,
            forall|q: int| 0 <= q < p ==> #[trigger] slots@[q] is None,
        decreases m - p,
    {
        slots.push(None);
        p = p + 1;
    }
    let mut rest = results;
    let n = rest.len();
    let mut i: usize = 0;
    proof {
        assert(rest@ =~= s.skip(0));
    }
    while i < n
        invariant
            m == order@.len(),
            n == s.len(),
            i <= n,
            names == id_names(order@),
            names.no_duplicates(),
            rest@ == s.skip(i as int),
            slots@.len() == m,
            forall|q: int|
                0 <= q < m ==> #[trigger] slots@[q] == match last_for(s.take(i as int), names[q]) {
                    Some(k) => Some(s[k]),
                    None => None,
                },
        decreases n - i,
    {
        let ghost before = rest@;
        let entry = rest.remove(0);
        proof {
            assert(rest@ =~= s.skip(i + 1));
            assert(entry == s[i as int]);
            assert(s.take(i + 1).drop_last() =~= s.take(i as int));
            assert(s.take(i + 1).last() == s[i as int]);
        }
        let found = position_of(order, &entry.0);
        match found {
            Some(q) => {
                let ghost old_slots = slots@;
                slots.set(q, Some(entry));
                proof {
                    assert forall|x: int| 0 <= x < m implies #[trigger] slots@[x] == match last_for(
                        s.take(i + 1),
                        names[x],
                    ) {
                        Some(k) => Some(s[k]),
                        None => None,
                    } by {
                        if x != q {
                            assert(names[x] != names[q as int]);
                            assert(slots@[x] == old_slots[x]);
                        } else {
                            assert(s.take(i + 1)[i as int] == s[i as int]);
                        }
                    }
                }
            },
            None => {
                proof {
                    assert forall|x: int| 0 <= x < m implies #[trigger] slots@[x] == match last_for(
                        s.take(i + 1),
                        names[x],
                    ) {
                        Some(k) => Some(s[k]),
                        None => None,
                    } by {
                        assert(names[x] == order@[x]@);
                    }
                }
            },
        }
        i = i + 1;
    }
    proof {
        assert(s.take(n as int) =~= s);
    }
    let ghost filled = slots@;
    let mut out: Vec<(NodeId, R)> = Vec::new();
    let mut left = slots;
    let mut p: usize = 0;
    proof {
        assert(left@ =~= filled.skip(0));
        assert(names.take(0) =~= Seq::<Seq<char>>::empty());
    }
    while p < m
        invariant
            m == filled.len(),
            m == names.len(),
            p <= m,
            left@ == filled.skip(p as int),
            forall|q: int|
                0 <= q < m ==> #[trigger] filled[q] == match last_for(s, names[q]) {
                    Some(k) => Some(s[k]),
                    None => None,
                },
            out@ == in_order(names.take(p as int), s),
        decreases m - p,
    {
        let slot = left.remove(0);
        proof {
            assert(left@ =~= filled.skip(p + 1));
            assert(slot == filled[p as int]);
            assert(names.take(p + 1).drop_last() =~= names.take(p as int));
            assert(names.take(p + 1).last() == names[p as int]);
        }
        match slot {
            Some(e) => {
                out.push(e);
            },
            None => {},
        }
        p = p + 1;
    }
    proof {
        assert(names.take(m as int) =~= names);
    }
    out
}

/// The position of `id` in `order`, if it is there.
fn position_of(order: &Vec<NodeId>, id: &NodeId) -> (r: Option<usize>)
    ensures
        match r {
            Some(q) => q < order@.len() && order@[q as int]@ == id@,
            None => forall|q: int| 0 <= q < order@.len() ==> #[trigger] order@[q]@ != id@,
        },
{
    let n = order.len();
    let mut q: usize = 0;
    while q < n
        invariant
            n == order@.len(),
            q <= n,
            forall|x: int| 0 <= x < q ==> #[trigger] order@[x]@ != id@,
        decreases n - q,
    {
        if order[q].same(id) {
            return Some(q);
        }
        q = q + 1;
    }
    None
}

/// Applies the node results of a superstep to the state, in the graph's
/// declaration order (the last result given for a node counts). Every node
/// that returned updates has them applied as one batch, whether or not an
/// earlier node failed; the first node that failed, or whose batch was
/// refused, is reported as `NodeFailed`. Gives the nodes whose batches
/// were applied, in order, and the failure, if any.
pub fn settle<N, G, C: Transcript<E>, E>(
    graph: &Graph<N, G>,
    state: &mut State<C>,
    results: Vec<(NodeId, Result<Vec<Update<C, E>>, NodeFault>)>,
) -> (r: (Vec<NodeId>, Option<GraphError>))
    ensures
        final(state).kinds() == old(state).kinds(),
        final(state).config_kinds() == old(state).config_kinds(),
        exists|failure: Option<(NodeId, NodeFault)>|
            #![trigger settled(
                old(state).kinds(),
                old(state).data(),
                in_order(graph.ids(), results@),
                final(state).data(),
                id_names(r.0@),
                failure,
            )]
            settled(
                old(state).kinds(),
                old(state).data(),
                in_order(graph.ids(), results@),
                final(state).data(),
                id_names(r.0@),
                failure,
            ) && match failure {
                Some(f) => r.1 == Some(GraphError::NodeFailed { node: f.0, source: f.1 }),
                None => r.1 is None,
            },
{
    let order = graph.order();
    graph.lemma_well_formed();
    let ghost given = results@;
    let items = order_results(&order, results);
    let ghost kinds = state.kinds();
    let ghost data0 = state.data();
    let ghost all = items@;
    let ghost mut datas: Seq<Map<Seq<char>, Datum<C>>> = seq![data0];
    let ghost mut rs: Seq<Result<(), GraphError>> = Seq::empty();
    let mut applied: Vec<NodeId> = Vec::new();
    let mut failure: Option<(NodeId, NodeFault)> = None;
    let mut rest = items;
    let n = rest.len();
    let mut i: usize = 0;
    proof {
        assert(rest@ =~= all.skip(0));
        assert(all.take(0) =~= Seq::<(NodeId, Result<Vec<Update<C, E>>, NodeFault>)>::empty());
        assert(id_names(applied@) =~= Seq::<Seq<char>>::empty());
    }
    while i < n
        invariant
            n == all.len(),
            i <= n,
            rest@ == all.skip(i as int),
            state.kinds() == kinds,
            state.config_kinds() == old(state).config_kinds(),
            settle_trace(kinds, all.take(i as int), datas, rs),
            datas[0] == data0,
            datas.last() == state.data(),
            id_names(applied@) == applied_names(all.take(i as int), rs),
            failure == first_failure(all.take(i as int), rs),
        decreases n - i,
    {
        let ghost mid = state.data();
        let ghost items0 = all.take(i as int);
        let ghost items1 = all.take(i + 1);
        let (id, result) = rest.remove(0);
        proof {
            assert(rest@ =~= all.skip(i + 1));
            assert((id, result) == all[i as int]);
            assert(items1.drop_last() =~= items0);
            assert(items1.last() == all[i as int]);
        }
        let ghost r: Result<(), GraphError> = Ok(());
        match result {
            Ok(updates) => {
                let ghost us = updates@;
                let outcome = state.apply_batch(updates);
                proof {
                    r = outcome;
                }
                match outcome {
                    Ok(()) => {
                        let ghost a0 = id_names(applied@);
                        applied.push(id);
                        proof {
                            assert(id_names(applied@) =~= a0.push(all[i as int].0@));
                        }
                    },
                    Err(e) => {
                        if failure.is_none() {
                            failure = Some((id, NodeFault::Refused(Box::new(e))));
                        }
                    },
                }
            },
            Err(fault) => {
                if failure.is_none() {
                    failure = Some((id, fault));
                }
            },
        }
        proof {
            let d0 = datas;
            let r0 = rs;
            datas = datas.push(state.data());
            rs = rs.push(r);
            assert(datas.drop_last() == d0);
            assert(rs.drop_last() =~= r0);
            assert forall|k: int| 0 <= k < items1.len() implies match #[trigger] items1[k].1 {
                Err(_) => datas[k + 1] == datas[k],
                Ok(us) => batch_effect(kinds, datas[k], us@, rs[k], datas[k + 1]),
            } by {
                if k < i {
                    assert(items1[k] == items0[k]);
                    assert(datas[k] == d0[k]);
                    assert(datas[k + 1] == d0[k + 1]);
                    assert(rs[k] == r0[k]);
                }
            }
        }
        i = i + 1;
    }
    proof {
        assert(all.take(n as int) =~= all);
        assert(all == in_order(graph.ids(), given));
        assert(settle_trace(kinds, all, datas, rs));
        assert(settled(kinds, data0, in_order(graph.ids(), given), state.data(), id_names(applied@), failure));
    }
    let ghost fin = failure;
    let error = match failure {
        Some((node, source)) => Some(GraphError::NodeFailed { node, source }),
        None => None,
    };
    let r = (applied, error);
    assert(settled(old(state).kinds(), old(state).data(), in_order(graph.ids(), given), state.data(), id_names(r.0@), fin));
    assert(match fin {
        Some(f) => r.1 == Some(GraphError::NodeFailed { node: f.0, source: f.1 }),
        None => r.1 is None,
    });
    r
}

/// The edits the held inputs ask for, one per input, in order.
pub open spec fn edits_of<C, E>(held: Seq<(Key, E)>) -> Seq<Update<C, E>> {
    held.map_values(|p: (Key, E)| Update::<C, E>::Edit { key: p.0, edit: p.1 })
}

/// Applies the inputs held during a superstep, as one batch of edits, once
/// the node results are settled. With no input held, nothing changes.
pub fn apply_inputs<C: Transcript<E>, E>(state: &mut State<C>, held: Vec<(Key, E)>) -> (r: Result<
    (),
    GraphError,
>)
    ensures
        final(state).kinds() == old(state).kinds(),
        final(state).config_kinds() == old(state).config_kinds(),
        held@.len() == 0 ==> r is Ok && final(state).data() == old(state).data(),
        held@.len() > 0 ==> batch_effect(
            old(state).kinds(),
            old(state).data(),
            edits_of::<C, E>(held@),
            r,
            final(state).data(),
        ),
        held@.len() > 0 ==> batch_effect(
            old(state).kinds(),
            old(state).data(),
            Seq::new(
                held@.len(),
                |i: int| Update::<C, E>::Edit { key: held@[i].0, edit: held@[i].1 },
            ),
            r,
            final(state).data(),
        ),
{
    if held.len() == 0 {
        return Ok(());
    }
    let ghost all = held@;
    let mut updates: Vec<Update<C, E>> = Vec::new();
    let mut rest = held;
    let n = rest.len();
    let mut i: usize = 0;
    proof {
        assert(rest@ =~= all.skip(0));
    }
    while i < n
        invariant
            n == all.len(),
            i <= n,
            rest@ == all.skip(i as int),
            updates@ == edits_of::<C, E>(all.take(i as int)),
        decreases n - i,
    {
        let (key, edit) = rest.remove(0);
        proof {
            assert(rest@ =~= all.skip(i + 1));
            assert((key, edit) == all[i as int]);
        }
        let ghost before = updates@;
        updates.push(Update::Edit { key, edit });
        proof {
            assert(updates@ =~= edits_of::<C, E>(all.take(i + 1)));
        }
        i = i + 1;
    }
    proof {
        assert(all.take(n as int) =~= all);
        crate::laws::law_inputs_in_arrival_order::<C, E>(all);
        assert(edits_of::<C, E>(all) =~= Seq::new(
            all.len(),
            |i: int| Update::<C, E>::Edit { key: all[i].0, edit: all[i].1 },
        ));
    }
    state.apply_batch(updates)
}

/// Settles a superstep: the node results as `settle` applies them, then
/// the inputs held during it as `apply_inputs` applies them; the inputs are
/// applied even when a node failed. The failure reported is the first node
/// failure, else the inputs' refusal. Gives the nodes whose batches were
/// applied, and the failure, if any.
pub fn settle_step<N, G, C: Transcript<E>, E>(
    graph: &Graph<N, G>,
    state: &mut State<C>,
    results: Vec<(NodeId, Result<Vec<Update<C, E>>, NodeFault>)>,
    held: Vec<(Key, E)>,
) -> (r: (Vec<NodeId>, Option<GraphError>))
    ensures
        final(state).kinds() == old(state).kinds(),
        final(state).config_kinds() == old(state).config_kinds(),
        exists|mid: Map<Seq<char>, Datum<C>>, failure: Option<(NodeId, NodeFault)>, ri: Result<
            (),
            GraphError,
        >|
            #![trigger settled(
                old(state).kinds(),
                old(state).data(),
                in_order(graph.ids(), results@),
                mid,
                id_names(r.0@),
                failure,
            ), inputs_effect(old(state).kinds(), mid, held@, ri, final(state).data())]
            settled(
                old(state).kinds(),
                old(state).data(),
                in_order(graph.ids(), results@),
                mid,
                id_names(r.0@),
                failure,
            ) && inputs_effect(old(state).kinds(), mid, held@, ri, final(state).data()) && r.1
                == match failure {
                Some(f) => Some(GraphError::NodeFailed { node: f.0, source: f.1 }),
                None => match ri {
                    Ok(_) => None,
                    Err(e) => Some(e),
                },
            },
{
    let ghost kinds = state.kinds();
    let ghost data0 = state.data();
    let ghost given = results@;
    let (applied, node_error) = settle(graph, state, results);
    let ghost mid = state.data();
    let ghost held_v = held@;
    let ri = apply_inputs(state, held);
    let ghost f = choose|failure: Option<(NodeId, NodeFault)>|
        #![trigger settled(kinds, data0, in_order(graph.ids(), given), mid, id_names(applied@), failure)]
        settled(kinds, data0, in_order(graph.ids(), given), mid, id_names(applied@), failure)
            && match failure {
            Some(x) => node_error == Some(GraphError::NodeFailed { node: x.0, source: x.1 }),
            None => node_error is None,
        };
    let error = match node_error {
        Some(e) => Some(e),
        None => match ri {
            Ok(()) => None,
            Err(e) => Some(e),
        },
    };
    let r = (applied, error);
    proof {
        assert(settled(kinds, data0, in_order(graph.ids(), given), mid, id_names(r.0@), f));
        assert(inputs_effect(kinds, mid, held_v, ri, state.data()));
        assert(r.1 == match f {
            Some(x) => Some(GraphError::NodeFailed { node: x.0, source: x.1 }),
            None => match ri {
                Ok(_) => None,
                Err(e) => Some(e),
            },
        });
    }
    r
}

/// What applying the held inputs does (see `apply_inputs`): nothing, with
/// none held; otherwise one batch of edits.
pub open spec fn inputs_effect<C: Transcript<E>, E>(
    kinds: Map<Seq<char>, Kind>,
    data: Map<Seq<char>, Datum<C>>,
    held: Seq<(Key, E)>,
    r: Result<(), GraphError>,
    after: Map<Seq<char>, Datum<C>>,
) -> bool {
    if held.len() == 0 {
        r is Ok && after == data
    } else {
        batch_effect(kinds, data, edits_of::<C, E>(held), r, after)
    }
}

} // verus!
