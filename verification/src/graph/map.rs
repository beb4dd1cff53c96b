use vstd::prelude::*;

use crate::error::GraphError;
use crate::ident::Key;
use crate::state::apply::{assign_result, batch_effect, is_refusal};
use crate::state::state::{State, data_cloned, read_outcome};
use crate::state::value::{
    Datum, Value, data_of, datum_cloned, datum_matches, datum_tag, lemma_cloned_matches_iff,
    lemma_data_of_index, lemma_data_of_len, lemma_value_cloned,
};
use crate::state::kind::Kind;
use crate::update::{Transcript, Update};

verus! {

/// A node that runs `body` once per item of the list under `list`, each
/// time on a copy of the state with the item under `item`, and appends what
/// each run leaves under `output` to the list under `results`, in item order.
pub struct MapNode<N> {
    pub list: Key,
    pub item: Key,
    pub body: N,
    pub output: Key,
    pub results: Key,
}

/// Why a map node stopped: a run of its body failed with `X`, or what a run
/// asked for was refused.
pub enum MapStop<X> {
    Body(X),
    Refused(GraphError),
}

/// `s` is `base` with a copy of `d` under `name`, every other key holding a
/// copy of its value.
pub open spec fn derived_with<C: Clone>(base: State<C>, name: Seq<char>, d: Datum<C>, s: State<C>) -> bool {
    &&& s.kinds() == base.kinds()
    &&& s.config_kinds() == base.config_kinds()
    &&& s.data().dom() == base.data().dom()
    &&& datum_cloned(d, s.data()[name])
    &&& forall|k: Seq<char>|
        #![trigger s.data()[k]]
        base.data().contains_key(k) && k != name ==> datum_cloned(base.data()[k], s.data()[k])
}

impl<N> MapNode<N> {
    /// The states the body runs on: one per item of the list, in order. The
    /// list is read as `State::list` reads it; the first item that cannot
    /// stand under the item key is refused as `State::derive` refuses it.
    pub fn derive_items<C: Clone>(&self, state: &State<C>) -> (r: Result<Vec<State<C>>, GraphError>)
        ensures
            !(state.data().contains_key(self.list@) && state.data()[self.list@] is List) ==> (r matches Err(
                e,
            ) && read_outcome(
                state.data(),
                self.list@,
                Kind::List { element: Box::new(Kind::Str) },
                if state.kinds().contains_key(self.list@) {
                    state.kinds()[self.list@]
                } else {
                    Kind::List { element: Box::new(Kind::Str) }
                },
                Err(e),
            )),
            state.data().contains_key(self.list@) && state.data()[self.list@] is List ==> {
                let ds = state.data()[self.list@]->List_0;
                match r {
                    Ok(ss) => ss@.len() == ds.len() && forall|i: int|
                        0 <= i < ds.len() ==> derived_with(*state, self.item@, ds[i], #[trigger] ss@[i])
                            && assign_result(state.kinds(), state.data(), self.item@, ds[i]) is Ok,
                    Err(e) => exists|i: int|
                        #![trigger ds[i]]
                        0 <= i < ds.len() && (forall|j: int|
                            0 <= j < i ==> assign_result(
                                state.kinds(),
                                state.data(),
                                self.item@,
                                #[trigger] ds[j],
                            ) is Ok) && (assign_result(state.kinds(), state.data(), self.item@, ds[i]) matches Err(
                            f,
                        ) && is_refusal(e, f)),
                }
            },
    {
        let items = state.list(&self.list)?;
        let ghost ds = data_of(items@);
        let n = items.len();
        proof {
            lemma_data_of_len(items@);
        }
        let mut out: Vec<State<C>> = Vec::new();
        let mut i: usize = 0;
        while i < n
            invariant
                n == items@.len(),
                ds == data_of(items@),
                ds.len() == n,
                state.data().contains_key(self.list@),
                state.data()[self.list@] == Datum::<C>::List(ds),
                i <= n,
                out@.len() == i,
                forall|j: int|
                    0 <= j < i ==> derived_with(*state, self.item@, ds[j], #[trigger] out@[j]),
                forall|j: int|
                    0 <= j < i ==> assign_result(state.kinds(), state.data(), self.item@, #[trigger] ds[j]) is Ok,
            decreases n - i,
        {
            let copy = items[i].clone();
            proof {
                lemma_data_of_index(items@, i as int);
                lemma_value_cloned(items@[i as int], copy);
                if state.kinds().contains_key(self.item@) {
                    lemma_cloned_matches_iff(ds[i as int], copy@, state.kinds()[self.item@]);
                }
            }
            let derived = state.derive(&self.item, copy);
            match derived {
                Ok(s) => {
                    out.push(s);
                },
                Err(e) => {
                    proof {
                        let a = assign_result(state.kinds(), state.data(), self.item@, ds[i as int]);
                        let b = assign_result(state.kinds(), state.data(), self.item@, copy@);
                        assert(b is Err);
                        assert(a is Err);
                        assert(a == b);
                        assert(0 <= i < ds.len() && (forall|j: int|
                            0 <= j < i ==> assign_result(
                                state.kinds(),
                                state.data(),
                                self.item@,
                                #[trigger] ds[j],
                            ) is Ok));
                    }
                    return Err(e);
                },
            }
            i = i + 1;
        }
        Ok(out)
    }

    /// What absorbing `us` on the item state `before` may end in: `after` has
    /// the same declarations; the batch has the effect `batch_effect` gives
    /// it; if it was refused, its error is the result; else the result is the
    /// update that appends a copy of what `after` holds under `output` to the
    /// results, or `MissingKey` for `output` if `after` holds nothing there.
    pub open spec fn absorbs<C: Transcript<E> + Clone, E>(
        &self,
        before: State<C>,
        us: Seq<Update<C, E>>,
        after: State<C>,
        r: Result<Update<C, E>, GraphError>,
    ) -> bool {
        &&& after.kinds() == before.kinds()
        &&& after.config_kinds() == before.config_kinds()
        &&& exists|rb: Result<(), GraphError>|
            #[trigger] batch_effect(before.kinds(), before.data(), us, rb, after.data()) && match rb {
                Err(e) => r == Err::<Update<C, E>, GraphError>(e),
                Ok(_) => if after.data().contains_key(self.output@) {
                    r matches Ok(u) && (u matches Update::Append { key, value } && key@
                        == self.results@ && datum_cloned(after.data()[self.output@], value@))
                } else {
                    r matches Err(e) && (e matches GraphError::MissingKey { key } && key@
                        == self.output@)
                },
            }
    }

    /// Applies what the body asked for on one item's state, as one batch,
    /// and reads its output: the update that appends (a copy of) the output
    /// to the results. A refused batch gives its error; a missing output
    /// gives `MissingKey`.
    pub fn absorb<C: Transcript<E> + Clone, E>(
        &self,
        derived: &mut State<C>,
        updates: Vec<Update<C, E>>,
    ) -> (r: Result<Update<C, E>, GraphError>)
        ensures
            self.absorbs(*old(derived), updates@, *final(derived), r),
    {
        let applied = derived.apply_batch(updates);
        match applied {
            Ok(()) => {},
            Err(e) => {
                return Err(e);
            },
        }
        let held = match derived.get(&self.output) {
            Ok(v) => v,
            Err(e) => {
                return Err(e);
            },
        };
        let value = held.clone();
        proof {
            lemma_value_cloned(*held, value);
        }
        Ok(Update::Append { key: self.results.clone(), value })
    }

    /// The run of the body on the item state `d` gave `o`, whose updates
    /// absorbed on `d` give the append `a`.
    pub open spec fn appended<C: Transcript<E> + Clone, E, X>(
        &self,
        d: State<C>,
        o: Result<Vec<Update<C, E>>, X>,
        a: Update<C, E>,
    ) -> bool {
        o matches Ok(us) && exists|after: State<C>| self.absorbs(d, us@, after, Ok(a))
    }

    /// The run of the body on the item state `d` gave `o`, whose updates
    /// absorbed on `d` give an append.
    pub open spec fn absorbed<C: Transcript<E> + Clone, E, X>(
        &self,
        d: State<C>,
        o: Result<Vec<Update<C, E>>, X>,
    ) -> bool {
        exists|a: Update<C, E>| self.appended(d, o, a)
    }

    /// The run of the body on the item state `d` gave `o`, whose updates
    /// absorbed on `d` give the error `e`.
    pub open spec fn refused<C: Transcript<E> + Clone, E, X>(
        &self,
        d: State<C>,
        o: Result<Vec<Update<C, E>>, X>,
        e: GraphError,
    ) -> bool {
        o matches Ok(us) && exists|after: State<C>| self.absorbs(d, us@, after, Err(e))
    }

    /// What the map gives once its body has run on each item state, the
    /// outputs in item order: each item's updates are absorbed in turn, and
    /// the appends come out in item order. The first item whose run failed,
    /// or whose updates were refused, stops it with that failure; the items
    /// before it were absorbed. Also gives how many items were absorbed.
    pub fn collect_appends<C: Transcript<E> + Clone, E, X>(
        &self,
        deriveds: Vec<State<C>>,
        outputs: Vec<Result<Vec<Update<C, E>>, X>>,
    ) -> (r: (usize, Result<Vec<Update<C, E>>, MapStop<X>>))
        requires
            deriveds@.len() == outputs@.len(),
        ensures
            r.0 <= outputs@.len(),
            forall|j: int| 0 <= j < r.0 ==> self.absorbed(deriveds@[j], #[trigger] outputs@[j]),
            match r.1 {
                Ok(appends) => r.0 == outputs@.len() && appends@.len() == outputs@.len() && forall|j: int|
                    0 <= j < outputs@.len() ==> self.appended(deriveds@[j], outputs@[j], #[trigger] appends@[j]),
                Err(MapStop::Body(x)) => r.0 < outputs@.len() && outputs@[r.0 as int] == Err::<
                    Vec<Update<C, E>>,
                    X,
                >(x),
                Err(MapStop::Refused(e)) => r.0 < outputs@.len() && self.refused(
                    deriveds@[r.0 as int],
                    outputs@[r.0 as int],
                    e,
                ),
            },
    {
        let ghost all_d = deriveds@;
        let ghost all_o = outputs@;
        let mut rest_d = deriveds;
        let mut rest_o = outputs;
        let n = rest_o.len();
        let mut appends: Vec<Update<C, E>> = Vec::new();
        let mut i: usize = 0;
        proof {
            assert(rest_d@ =~= all_d.skip(0));
            assert(rest_o@ =~= all_o.skip(0));
        }
        while i < n
            invariant
                all_d == deriveds@,
                all_o == outputs@,
                n == all_o.len(),
                all_d.len() == n,
                i <= n,
                rest_d@ == all_d.skip(i as int),
                rest_o@ == all_o.skip(i as int),
                appends@.len() == i,
                forall|j: int| 0 <= j < i ==> self.appended(all_d[j], all_o[j], #[trigger] appends@[j]),
            decreases n - i,
        {
            let mut derived = rest_d.remove(0);
            let output = rest_o.remove(0);
            proof {
                assert(rest_d@ =~= all_d.skip(i + 1));
                assert(rest_o@ =~= all_o.skip(i + 1));
                assert(derived == all_d[i as int]);
                assert(output == all_o[i as int]);
                assert forall|j: int| 0 <= j < i implies self.absorbed(deriveds@[j], #[trigger] outputs@[j]) by {
                    assert(self.appended(all_d[j], all_o[j], appends@[j]));
                }
            }
            let updates = match output {
                Ok(us) => us,
                Err(x) => {
                    return (i, Err(MapStop::Body(x)));
                },
            };
            let ghost before = derived;
            let absorbed = self.absorb(&mut derived, updates);
            match absorbed {
                Ok(u) => {
                    let ghost prior = appends@;
                    appends.push(u);
                    proof {
                        assert(self.absorbs(before, updates@, derived, Ok(u)));
                        assert forall|j: int| 0 <= j < i + 1 implies self.appended(
                            all_d[j],
                            all_o[j],
                            #[trigger] appends@[j],
                        ) by {
                            if j < i {
                                assert(prior[j] == appends@[j]);
                                assert(self.appended(all_d[j], all_o[j], prior[j]));
                            }
                        }
                    }
                },
                Err(e) => {
                    proof {
                        assert(self.absorbs(before, updates@, derived, Err(e)));
                    }
                    return (i, Err(MapStop::Refused(e)));
                },
            }
            i = i + 1;
        }
        proof {
            assert forall|j: int| 0 <= j < n implies self.absorbed(deriveds@[j], #[trigger] outputs@[j]) by {
                assert(self.appended(all_d[j], all_o[j], appends@[j]));
            }
        }
        (n, Ok(appends))
    }
}

} // verus!
