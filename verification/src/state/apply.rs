use vstd::prelude::*;

use crate::error::GraphError;
use crate::ident::Key;
use crate::keymap::KeyMap;
use crate::state::kind::Kind;
use crate::state::state::{data_map, fits_kinds};
use crate::state::value::{
    Datum, Value, all_match, data_of, datum_matches, datum_tag, lemma_data_of_len,
    lemma_data_of_push,
};
use crate::update::{Transcript, Update, update_key};

verus! {

/// Why an update is refused, as data.
pub enum Refusal {
    UnknownKey(Seq<char>),
    KindMismatch(Seq<char>, Kind, Seq<char>),
    AppendNotList(Seq<char>),
    NotConversation(Seq<char>),
    Message(Seq<char>),
}

/// `e` is the error that reports `r`.
pub open spec fn is_refusal(e: GraphError, r: Refusal) -> bool {
    match r {
        Refusal::UnknownKey(n) => e matches GraphError::UnknownKey { key } && key@ == n,
        Refusal::KindMismatch(n, k, t) => e matches GraphError::KindMismatch {
            key,
            expected,
            found,
        } && key@ == n && expected == k && found@ == t,
        Refusal::AppendNotList(n) => e matches GraphError::AppendNotList { key } && key@ == n,
        Refusal::NotConversation(n) => e matches GraphError::NotConversation { key } && key@ == n,
        Refusal::Message(m) => e matches GraphError::Message(s) && s@ == m,
    }
}

/// Replacing the value under `name` with `d`: the key must be declared and
/// `d` of its kind.
pub open spec fn assign_result<C>(
    kinds: Map<Seq<char>, Kind>,
    data: Map<Seq<char>, Datum<C>>,
    name: Seq<char>,
    d: Datum<C>,
) -> Result<Map<Seq<char>, Datum<C>>, Refusal> {
    if !kinds.contains_key(name) {
        Err(Refusal::UnknownKey(name))
    } else if !datum_matches(d, kinds[name]) {
        Err(Refusal::KindMismatch(name, kinds[name], datum_tag(d)))
    } else {
        Ok(data.insert(name, d))
    }
}

/// Pushing `d` onto the list under `name`: the key must be declared as a
/// list, `d` of its element kind, and the value a list.
pub open spec fn append_result<C>(
    kinds: Map<Seq<char>, Kind>,
    data: Map<Seq<char>, Datum<C>>,
    name: Seq<char>,
    d: Datum<C>,
) -> Result<Map<Seq<char>, Datum<C>>, Refusal> {
    if !kinds.contains_key(name) {
        Err(Refusal::AppendNotList(name))
    } else {
        match kinds[name] {
            Kind::List { element } => if !datum_matches(d, *element) {
                Err(Refusal::KindMismatch(name, *element, datum_tag(d)))
            } else if data.contains_key(name) && data[name] is List {
                Ok(data.insert(name, Datum::List(data[name]->List_0.push(d))))
            } else {
                Err(Refusal::AppendNotList(name))
            },
            _ => Err(Refusal::AppendNotList(name)),
        }
    }
}

/// Editing the conversation under `name`, where the edit gave `out`: the
/// value must be a conversation; a refused edit reports its message.
pub open spec fn edit_result<C>(
    data: Map<Seq<char>, Datum<C>>,
    name: Seq<char>,
    out: Result<C, String>,
) -> Result<Map<Seq<char>, Datum<C>>, Refusal> {
    if data.contains_key(name) && data[name] is Conversation {
        match out {
            Ok(c) => Ok(data.insert(name, Datum::Conversation(c))),
            Err(m) => Err(Refusal::Message(m@)),
        }
    } else {
        Err(Refusal::NotConversation(name))
    }
}

/// One update applied to the data; `out` is what the conversation's edit
/// gave, for an edit.
pub open spec fn apply_update<C, E>(
    kinds: Map<Seq<char>, Kind>,
    data: Map<Seq<char>, Datum<C>>,
    u: Update<C, E>,
    out: Result<C, String>,
) -> Result<Map<Seq<char>, Datum<C>>, Refusal> {
    match u {
        Update::Assign { key, value } => assign_result(kinds, data, key@, value@),
        Update::Append { key, value } => append_result(kinds, data, key@, value@),
        Update::Edit { key, .. } => edit_result(data, key@, out),
    }
}

/// The updates applied one after another, update `i` with edit outcome
/// `outs[i]`; the first refusal stops the rest.
pub open spec fn apply_all<C, E>(
    kinds: Map<Seq<char>, Kind>,
    data: Map<Seq<char>, Datum<C>>,
    us: Seq<Update<C, E>>,
    outs: Seq<Result<C, String>>,
) -> Result<Map<Seq<char>, Datum<C>>, Refusal>
    decreases us.len(),
{
    if us.len() == 0 {
        Ok(data)
    } else {
        match apply_all(kinds, data, us.drop_last(), outs) {
            Ok(d) => apply_update(kinds, d, us.last(), outs[us.len() - 1]),
            Err(r) => Err(r),
        }
    }
}

/// Update `i` assigns a key that an earlier update also assigns.
pub open spec fn conflict_at<C, E>(us: Seq<Update<C, E>>, i: int) -> bool {
    &&& 0 <= i < us.len()
    &&& us[i] is Assign
    &&& exists|j: int| 0 <= j < i && #[trigger] us[j] is Assign && update_key(us[j]) == update_key(us[i])
}

/// Update `i` is the first that assigns a key assigned before.
pub open spec fn first_conflict<C, E>(us: Seq<Update<C, E>>, i: int) -> bool {
    conflict_at(us, i) && forall|j: int| 0 <= j < i ==> !conflict_at(us, j)
}

/// Where some update assigns a key assigned before, one of them is the
/// first.
pub proof fn lemma_first_conflict<C, E>(us: Seq<Update<C, E>>, i: int)
    requires
        conflict_at(us, i),
    ensures
        exists|j: int| #[trigger] first_conflict(us, j),
    decreases i,
{
    if !first_conflict(us, i) {
        let j = choose|j: int| 0 <= j < i && conflict_at(us, j);
        lemma_first_conflict(us, j);
    }
}

/// What applying a batch does, as a relation between the data before, the
/// result and the data after: a batch that assigns a key twice is refused
/// with `SetConflict` at the first repeat and changes nothing; otherwise the
/// updates apply in order, all or nothing, each edit with the outcome its
/// conversation's `edit` gave.
pub open spec fn batch_effect<C: Transcript<E>, E>(
    kinds: Map<Seq<char>, Kind>,
    data: Map<Seq<char>, Datum<C>>,
    us: Seq<Update<C, E>>,
    r: Result<(), GraphError>,
    after: Map<Seq<char>, Datum<C>>,
) -> bool {
    &&& forall|i: int| #[trigger]
        first_conflict(us, i) ==> (r matches Err(e) && (e matches GraphError::SetConflict { key }
            && key@ == update_key(us[i]))) && after == data
    &&& (forall|i: int| !conflict_at(us, i)) ==> exists|outs: Seq<Result<C, String>>|
        edits_called(kinds, data, us, outs) && match #[trigger] apply_all(kinds, data, us, outs) {
            Ok(d) => r is Ok && after == d,
            Err(f) => r matches Err(e) && is_refusal(e, f) && after == data,
        }
}

/// Finds the first update that assigns a key an earlier update assigns.
pub fn find_conflict<C, E>(updates: &Vec<Update<C, E>>) -> (r: Option<usize>)
    ensures
        match r {
            Some(i) => first_conflict(updates@, i as int),
            None => forall|i: int| !conflict_at(updates@, i),
        },
{
    let n = updates.len();
    let mut i: usize = 0;
    while i < n
        invariant
            n == updates@.len(),
            i <= n,
            forall|k: int| 0 <= k < i ==> !conflict_at(updates@, k),
        decreases n - i,
    {
        if let Update::Assign { key, .. } = &updates[i] {
            let mut j: usize = 0;
            while j < i
                invariant
                    n == updates@.len(),
                    i < n,
                    j <= i,
                    updates@[i as int] is Assign,
                    key@ == update_key(updates@[i as int]),
                    forall|k: int| 0 <= k < i ==> !conflict_at(updates@, k),
                    forall|m: int|
                        0 <= m < j ==> !(#[trigger] updates@[m] is Assign && update_key(updates@[m])
                            == update_key(updates@[i as int])),
                decreases i - j,
            {
                if let Update::Assign { key: other, .. } = &updates[j] {
                    if other.same(key) {
                        proof {
                            assert(updates@[j as int] is Assign);
                            assert(conflict_at(updates@, i as int));
                        }
                        return Some(i);
                    }
                }
                j = j + 1;
            }
        }
        i = i + 1;
    }
    None
}

/// Once the updates are refused, more updates change nothing.
pub proof fn lemma_refusal_sticks<C, E>(
    kinds: Map<Seq<char>, Kind>,
    data: Map<Seq<char>, Datum<C>>,
    us: Seq<Update<C, E>>,
    outs: Seq<Result<C, String>>,
    i: int,
    j: int,
)
    requires
        0 <= i <= j <= us.len(),
        apply_all(kinds, data, us.take(i), outs) is Err,
    ensures
        apply_all(kinds, data, us.take(j), outs) == apply_all(kinds, data, us.take(i), outs),
    decreases j - i,
{
    if j > i {
        lemma_refusal_sticks(kinds, data, us, outs, i, j - 1);
        assert(us.take(j).drop_last() =~= us.take(j - 1));
    }
}

/// Edit outcomes past the end of the updates do not matter.
pub proof fn lemma_outs_extend<C, E>(
    kinds: Map<Seq<char>, Kind>,
    data: Map<Seq<char>, Datum<C>>,
    us: Seq<Update<C, E>>,
    outs: Seq<Result<C, String>>,
    x: Result<C, String>,
)
    requires
        outs.len() >= us.len(),
    ensures
        apply_all(kinds, data, us, outs.push(x)) == apply_all(kinds, data, us, outs),
    decreases us.len(),
{
    if us.len() > 0 {
        lemma_outs_extend(kinds, data, us.drop_last(), outs, x);
        assert(outs.push(x)[us.len() - 1] == outs[us.len() - 1]);
    }
}

/// Each edit that reaches a conversation was given, as its outcome, what
/// that conversation's `edit` returned for it: update `i` is taken with
/// outcome `outs[i]`, as `apply_all` takes them.
pub open spec fn edits_called<C: Transcript<E>, E>(
    kinds: Map<Seq<char>, Kind>,
    data: Map<Seq<char>, Datum<C>>,
    us: Seq<Update<C, E>>,
    outs: Seq<Result<C, String>>,
) -> bool
    decreases us.len(),
{
    if us.len() == 0 {
        true
    } else {
        edits_called(kinds, data, us.drop_last(), outs) && match apply_all(
            kinds,
            data,
            us.drop_last(),
            outs,
        ) {
            Ok(d) => match us.last() {
                Update::Edit { key, edit } => (d.contains_key(key@) && d[key@] is Conversation)
                    ==> call_ensures(C::edit, (&d[key@]->Conversation_0, &edit), outs[us.len() - 1]),
                _ => true,
            },
            Err(_) => true,
        }
    }
}

/// Edit outcomes past the end of the updates do not matter to
/// `edits_called`.
pub proof fn lemma_edits_called_extend<C: Transcript<E>, E>(
    kinds: Map<Seq<char>, Kind>,
    data: Map<Seq<char>, Datum<C>>,
    us: Seq<Update<C, E>>,
    outs: Seq<Result<C, String>>,
    x: Result<C, String>,
)
    requires
        outs.len() >= us.len(),
    ensures
        edits_called(kinds, data, us, outs.push(x)) == edits_called(kinds, data, us, outs),
    decreases us.len(),
{
    if us.len() > 0 {
        lemma_edits_called_extend(kinds, data, us.drop_last(), outs, x);
        lemma_outs_extend(kinds, data, us.drop_last(), outs, x);
        assert(outs.push(x)[us.len() - 1] == outs[us.len() - 1]);
    }
}

/// Once the updates are refused, more updates keep `edits_called` as it is.
pub proof fn lemma_edits_called_sticks<C: Transcript<E>, E>(
    kinds: Map<Seq<char>, Kind>,
    data: Map<Seq<char>, Datum<C>>,
    us: Seq<Update<C, E>>,
    outs: Seq<Result<C, String>>,
    i: int,
    j: int,
)
    requires
        0 <= i <= j <= us.len(),
        apply_all(kinds, data, us.take(i), outs) is Err,
    ensures
        edits_called(kinds, data, us.take(j), outs) == edits_called(kinds, data, us.take(i), outs),
    decreases j - i,
{
    if j > i {
        lemma_edits_called_sticks(kinds, data, us, outs, i, j - 1);
        lemma_refusal_sticks(kinds, data, us, outs, i, j - 1);
        assert(us.take(j).drop_last() =~= us.take(j - 1));
    }
}

/// What undoing one logged change gives: a saved value is put back; a push
/// is taken back.
pub open spec fn undo_one<C>(
    data: Map<Seq<char>, Datum<C>>,
    entry: (Seq<char>, Option<Datum<C>>),
) -> Map<Seq<char>, Datum<C>> {
    match entry.1 {
        Some(d) => data.insert(entry.0, d),
        None => if data.contains_key(entry.0) && data[entry.0] is List && data[entry.0]->List_0.len()
            > 0 {
            data.insert(entry.0, Datum::List(data[entry.0]->List_0.drop_last()))
        } else {
            data
        },
    }
}

/// Undoing a log of changes, last change first.
pub open spec fn undo_all<C>(
    data: Map<Seq<char>, Datum<C>>,
    log: Seq<(Seq<char>, Option<Datum<C>>)>,
) -> Map<Seq<char>, Datum<C>>
    decreases log.len(),
{
    if log.len() == 0 {
        data
    } else {
        undo_all(undo_one(data, log.last()), log.drop_last())
    }
}

/// The log, with positions turned into names and values into data.
pub open spec fn log_view<C>(names: Seq<Seq<char>>, log: Seq<(usize, Option<Value<C>>)>) -> Seq<
    (Seq<char>, Option<Datum<C>>),
> {
    log.map_values(
        |e: (usize, Option<Value<C>>)|
            (
                names[e.0 as int],
                match e.1 {
                    Some(v) => Some(v@),
                    None => None,
                },
            ),
    )
}

/// Undoes a log of changes, last change first.
fn rollback<C>(values: &mut KeyMap<Value<C>>, log: Vec<(usize, Option<Value<C>>)>)
    requires
        forall|k: int| 0 <= k < log@.len() ==> (#[trigger] log@[k]).0 < old(values).names().len(),
    ensures
        final(values).names() == old(values).names(),
        data_map(final(values)@) == undo_all(
            data_map(old(values)@),
            log_view(old(values).names(), log@),
        ),
{
    let ghost names = values.names();
    let ghost start = data_map(values@);
    let ghost whole = log@;
    let mut log = log;
    while log.len() > 0
        invariant
            values.names() == names,
            forall|k: int| 0 <= k < log@.len() ==> (#[trigger] log@[k]).0 < names.len(),
            undo_all(data_map(values@), log_view(names, log@)) == undo_all(
                start,
                log_view(names, whole),
            ),
        decreases log@.len(),
    {
        let ghost before = log@;
        let ghost cur = data_map(values@);
        let entry = log.pop();
        let (idx, saved) = match entry {
            Some(e) => e,
            None => {
                return ;
            },
        };
        proof {
            assert(log@ == before.drop_last());
            assert(log_view(names, before).drop_last() =~= log_view(names, log@));
            assert(log_view(names, before).last() == log_view(names, before)[before.len() - 1]);
            use_type_invariant(&*values);
            values.lemma_facts();
        }
        let ghost entry_view = log_view(names, before).last();
        match saved {
            Some(v) => {
                values.replace_at(idx, v);
                proof {
                    assert(data_map(values@) =~= undo_one(cur, entry_view));
                }
            },
            None => {
                let held = values.replace_at(idx, Value::Bool(false));
                match held {
                    Value::List(mut items) => {
                        let ghost was = items@;
                        items.pop();
                        proof {
                            lemma_data_of_len(was);
                            assert(entry_view == (names[idx as int], None::<Datum<C>>));
                            assert(cur[names[idx as int]] == Datum::<C>::List(data_of(was)));
                            if was.len() > 0 {
                                assert(was =~= items@.push(was.last()));
                                lemma_data_of_push(items@, was.last());
                                assert(data_of(items@) =~= data_of(was).drop_last());
                            } else {
                                assert(items@ =~= was);
                            }
                        }
                        values.replace_at(idx, Value::List(items));
                        proof {
                            assert(data_map(values@) =~= undo_one(cur, entry_view));
                        }
                    },
                    other => {
                        values.replace_at(idx, other);
                        proof {
                            assert(data_map(values@) =~= undo_one(cur, entry_view));
                        }
                    },
                }
            },
        }
    }
    proof {
        assert(log_view(names, log@) =~= Seq::<(Seq<char>, Option<Datum<C>>)>::empty());
    }
}

/// Replaces the value under `key`; hands back its position and the value
/// replaced.
fn apply_assign<C>(kinds: &KeyMap<Kind>, values: &mut KeyMap<Value<C>>, key: Key, value: Value<C>) -> (r:
    Result<(usize, Value<C>), GraphError>)
    requires
        fits_kinds(kinds@, data_map(old(values)@)),
    ensures
        final(values).names() == old(values).names(),
        match assign_result(kinds@, data_map(old(values)@), key@, value@) {
            Ok(d) => r matches Ok(p) && data_map(final(values)@) == d && p.0 < old(
                values,
            ).names().len() && old(values).names()[p.0 as int] == key@ && p.1@ == data_map(
                old(values)@,
            )[key@],
            Err(f) => r matches Err(e) && is_refusal(e, f) && data_map(final(values)@) == data_map(
                old(values)@,
            ),
        },
{
    let kind = match kinds.get(&key) {
        Some(k) => k,
        None => {
            return Err(GraphError::UnknownKey { key });
        },
    };
    if !value.matches(kind) {
        let found = value.tag();
        return Err(GraphError::KindMismatch { key, expected: kind.clone(), found });
    }
    proof {
        use_type_invariant(&*values);
        values.lemma_facts();
    }
    let ghost d = value@;
    let ghost before = data_map(values@);
    match values.find(&key) {
        Ok(idx) => {
            let old_value = values.replace_at(idx, value);
            proof {
                assert(data_map(values@) =~= before.insert(key@, d));
            }
            Ok((idx, old_value))
        },
        Err(_) => {
            proof {
                assert(data_map(values@).contains_key(key@));
            }
            Err(GraphError::UnknownKey { key })
        },
    }
}

/// Pushes onto the list under `key`; hands back its position.
fn apply_append<C>(kinds: &KeyMap<Kind>, values: &mut KeyMap<Value<C>>, key: Key, value: Value<C>) -> (r:
    Result<usize, GraphError>)
    requires
        fits_kinds(kinds@, data_map(old(values)@)),
    ensures
        final(values).names() == old(values).names(),
        match append_result(kinds@, data_map(old(values)@), key@, value@) {
            Ok(d) => r matches Ok(p) && data_map(final(values)@) == d && p < old(
                values,
            ).names().len() && old(values).names()[p as int] == key@,
            Err(f) => r matches Err(e) && is_refusal(e, f) && data_map(final(values)@) == data_map(
                old(values)@,
            ),
        },
{
    let element = match kinds.get(&key) {
        Some(Kind::List { element }) => element,
        _ => {
            return Err(GraphError::AppendNotList { key });
        },
    };
    if !value.matches(&**element) {
        let found = value.tag();
        return Err(GraphError::KindMismatch { key, expected: (**element).clone(), found });
    }
    proof {
        use_type_invariant(&*values);
        values.lemma_facts();
    }
    let ghost before = data_map(values@);
    let ghost d = value@;
    let idx = match values.find(&key) {
        Ok(i) => i,
        Err(_) => {
            return Err(GraphError::AppendNotList { key });
        },
    };
    let held = values.replace_at(idx, Value::Bool(false));
    match held {
        Value::List(mut items) => {
            let ghost was = items@;
            items.push(value);
            proof {
                lemma_data_of_push(was, items@.last());
                assert(items@ =~= was.push(items@.last()));
            }
            values.replace_at(idx, Value::List(items));
            proof {
                assert(data_map(values@) =~= before.insert(
                    key@,
                    Datum::List(before[key@]->List_0.push(d)),
                ));
            }
            Ok(idx)
        },
        other => {
            values.replace_at(idx, other);
            proof {
                assert(data_map(values@) =~= before);
            }
            Err(GraphError::AppendNotList { key })
        },
    }
}

/// Edits the conversation under `key`; hands back its position, the value
/// replaced, and (as ghost) what the edit gave.
fn apply_edit<C: Transcript<E>, E>(values: &mut KeyMap<Value<C>>, key: Key, edit: &E) -> (r: (
    Result<(usize, Value<C>), GraphError>,
    Ghost<Result<C, String>>,
))
    ensures
        final(values).names() == old(values).names(),
        (data_map(old(values)@).contains_key(key@) && data_map(old(values)@)[key@] is Conversation)
            ==> call_ensures(
            C::edit,
            (&data_map(old(values)@)[key@]->Conversation_0, edit),
            r.1@,
        ),
        match edit_result(data_map(old(values)@), key@, r.1@) {
            Ok(d) => r.0 matches Ok(p) && data_map(final(values)@) == d && p.0 < old(
                values,
            ).names().len() && old(values).names()[p.0 as int] == key@ && p.1@ == data_map(
                old(values)@,
            )[key@],
            Err(f) => r.0 matches Err(e) && is_refusal(e, f) && data_map(final(values)@)
                == data_map(old(values)@),
        },
{
    proof {
        use_type_invariant(&*values);
        values.lemma_facts();
    }
    let ghost before = data_map(values@);
    let idx = match values.find(&key) {
        Ok(i) => i,
        Err(_) => {
            return (Err(GraphError::NotConversation { key }), Ghost(arbitrary()));
        },
    };
    let edited = match values.value_at(idx) {
        Value::Conversation(c) => c.edit(edit),
        _ => {
            return (Err(GraphError::NotConversation { key }), Ghost(arbitrary()));
        },
    };
    let ghost out = edited;
    match edited {
        Ok(c) => {
            let old_value = values.replace_at(idx, Value::Conversation(c));
            proof {
                assert(data_map(values@) =~= before.insert(key@, Datum::Conversation(out->Ok_0)));
            }
            (Ok((idx, old_value)), Ghost(out))
        },
        Err(message) => (Err(GraphError::Message(message)), Ghost(out)),
    }
}

/// Applies `updates` in order. The first refusal stops the batch, and then
/// the values are left as they were.
pub fn apply_updates<C: Transcript<E>, E>(
    kinds: &KeyMap<Kind>,
    values: &mut KeyMap<Value<C>>,
    updates: Vec<Update<C, E>>,
) -> (r: Result<(), GraphError>)
    requires
        fits_kinds(kinds@, data_map(old(values)@)),
    ensures
        final(values).names() == old(values).names(),
        fits_kinds(kinds@, data_map(final(values)@)),
        exists|outs: Seq<Result<C, String>>|
            edits_called(kinds@, data_map(old(values)@), updates@, outs) && match #[trigger] apply_all(
                kinds@,
                data_map(old(values)@),
                updates@,
                outs,
            ) {
                Ok(d) => r is Ok && data_map(final(values)@) == d,
                Err(f) => r matches Err(e) && is_refusal(e, f) && data_map(final(values)@)
                    == data_map(old(values)@),
            },
{
    let ghost us = updates@;
    let ghost start = data_map(values@);
    let ghost names = values.names();
    let ghost mut outs: Seq<Result<C, String>> = Seq::empty();
    let mut log: Vec<(usize, Option<Value<C>>)> = Vec::new();
    let mut rest = updates;
    let n = rest.len();
    let mut i: usize = 0;
    proof {
        assert(us.take(0) =~= Seq::<Update<C, E>>::empty());
        assert(log_view(names, log@) =~= Seq::<(Seq<char>, Option<Datum<C>>)>::empty());
        assert(rest@ =~= us.skip(0));
    }
    while i < n
        invariant
            n == us.len(),
            us == updates@,
            names == old(values).names(),
            start == data_map(old(values)@),
            fits_kinds(kinds@, start),
            i <= n,
            rest@ == us.skip(i as int),
            outs.len() == i,
            values.names() == names,
            fits_kinds(kinds@, data_map(values@)),
            apply_all(kinds@, start, us.take(i as int), outs) == Ok::<
                Map<Seq<char>, Datum<C>>,
                Refusal,
            >(data_map(values@)),
            edits_called(kinds@, start, us.take(i as int), outs),
            undo_all(data_map(values@), log_view(names, log@)) == start,
            forall|k: int| 0 <= k < log@.len() ==> (#[trigger] log@[k]).0 < names.len(),
        decreases n - i,
    {
        let ghost cur = data_map(values@);
        let ghost prev_log = log@;
        let u = rest.remove(0);
        proof {
            assert(u == us[i as int]);
            assert(rest@ =~= us.skip(i + 1));
            assert(us.take(i + 1).drop_last() =~= us.take(i as int));
            assert(us.take(i + 1).last() == us[i as int]);
            use_type_invariant(&*values);
            values.lemma_facts();
        }
        let ghost prev_outs = outs;
        let ghost mut refusal: Refusal = arbitrary();
        let step: Result<(), GraphError> = match u {
            Update::Assign { key, value } => {
                let ghost kname = key@;
                proof {
                    outs = outs.push(arbitrary());
                }
                match apply_assign(kinds, values, key, value) {
                    Ok((idx, old_value)) => {
                        log.push((idx, Some(old_value)));
                        proof {
                            let lv = log_view(names, log@);
                            assert(log@.drop_last() =~= prev_log);
                            assert(lv.drop_last() =~= log_view(names, prev_log));
                            assert(lv.last() == lv[lv.len() - 1]);
                            assert(undo_one(data_map(values@), lv.last()) =~= cur);
                        }
                        Ok(())
                    },
                    Err(e) => {
                        proof {
                            refusal = apply_update(kinds@, cur, us[i as int], outs.last())->Err_0;
                        }
                        Err(e)
                    },
                }
            },
            Update::Append { key, value } => {
                let ghost kname = key@;
                proof {
                    outs = outs.push(arbitrary());
                }
                match apply_append(kinds, values, key, value) {
                    Ok(idx) => {
                        log.push((idx, None));
                        proof {
                            let lv = log_view(names, log@);
                            assert(log@.drop_last() =~= prev_log);
                            assert(lv.drop_last() =~= log_view(names, prev_log));
                            assert(lv.last() == lv[lv.len() - 1]);
                            let items = cur[kname]->List_0;
                            assert(items.push(data_map(values@)[kname]->List_0.last()).drop_last() =~= items);
                            assert(undo_one(data_map(values@), lv.last()) =~= cur);
                        }
                        Ok(())
                    },
                    Err(e) => {
                        proof {
                            refusal = apply_update(kinds@, cur, us[i as int], outs.last())->Err_0;
                        }
                        Err(e)
                    },
                }
            },
            Update::Edit { key, edit } => {
                let ghost kname = key@;
                let (res, out) = apply_edit(values, key, &edit);
                proof {
                    outs = outs.push(out@);
                }
                match res {
                    Ok((idx, old_value)) => {
                        log.push((idx, Some(old_value)));
                        proof {
                            let lv = log_view(names, log@);
                            assert(log@.drop_last() =~= prev_log);
                            assert(lv.drop_last() =~= log_view(names, prev_log));
                            assert(lv.last() == lv[lv.len() - 1]);
                            assert(undo_one(data_map(values@), lv.last()) =~= cur);
                        }
                        Ok(())
                    },
                    Err(e) => {
                        proof {
                            refusal = apply_update(kinds@, cur, us[i as int], outs.last())->Err_0;
                        }
                        Err(e)
                    },
                }
            },
        };
        proof {
            assert(outs == prev_outs.push(outs.last()));
            lemma_outs_extend(kinds@, start, us.take(i as int), prev_outs, outs.last());
            lemma_edits_called_extend(kinds@, start, us.take(i as int), prev_outs, outs.last());
            assert(outs[i as int] == outs.last());
            assert(edits_called(kinds@, start, us.take(i + 1), outs));
        }
        match step {
            Ok(()) => {
                proof {
                    let lv = log_view(names, log@);
                    assert(lv.drop_last() == log_view(names, prev_log));
                    assert(undo_all(data_map(values@), lv) == undo_all(
                        undo_one(data_map(values@), lv.last()),
                        lv.drop_last(),
                    ));
                }
            },
            Err(e) => {
                proof {
                    assert(log@ == prev_log);
                    assert(apply_all(kinds@, start, us.take(i + 1), outs) == Err::<
                        Map<Seq<char>, Datum<C>>,
                        Refusal,
                    >(refusal));
                    lemma_refusal_sticks(kinds@, start, us, outs, i + 1, n as int);
                    lemma_edits_called_sticks(kinds@, start, us, outs, i + 1, n as int);
                    assert(us.take(n as int) =~= us);
                }
                assert(values.names() == names);
                assert(undo_all(data_map(values@), log_view(names, log@)) == start);
                rollback(values, log);
                assert(values.names() == names);
                assert(data_map(values@) == start);
                proof {
                    assert(match apply_all(kinds@, start, us, outs) {
                        Ok(d) => false,
                        Err(f) => is_refusal(e, f) && data_map(values@) == start,
                    });
                }
                return Err(e);
            },
        }
        i = i + 1;
    }
    proof {
        assert(us.take(n as int) =~= us);
        assert(match apply_all(kinds@, start, updates@, outs) {
            Ok(d) => data_map(values@) == d,
            Err(f) => false,
        });
    }
    Ok(())
}

} // verus!
