use vstd::prelude::*;

use crate::error::GraphError;
use crate::ident::Key;
use crate::keymap::KeyMap;
use crate::state::kind::Kind;
use crate::state::apply::{
    Refusal, apply_all, apply_updates, assign_result, batch_effect, conflict_at, find_conflict,
    first_conflict, is_refusal,
};
use crate::state::schema::{Schema, copy_kinds};
use crate::update::{Transcript, Update, update_key};
use crate::state::value::{
    Datum, Value, data_of, datum_cloned, datum_matches, datum_tag, lemma_cloned_matches,
    lemma_data_of_index, lemma_data_of_len, lemma_value_cloned,
};

verus! {

/// The version tag written with every saved state and config.
pub const SCHEMA_VERSION: &'static str = "br-llm-graph/1";

/// The data held under each name of a map of values.
pub open spec fn data_map<C>(m: Map<Seq<char>, Value<C>>) -> Map<Seq<char>, Datum<C>> {
    m.map_values(|v: Value<C>| v@)
}

/// The data map holds exactly the declared names, each with data of its kind.
pub open spec fn fits_kinds<C>(kinds: Map<Seq<char>, Kind>, data: Map<Seq<char>, Datum<C>>) -> bool {
    &&& data.dom() == kinds.dom()
    &&& forall|k: Seq<char>| #[trigger] data.contains_key(k) ==> datum_matches(data[k], kinds[k])
}

/// A value stored under `name` is declared and of its declared kind.
pub open spec fn fits<C>(kinds: Map<Seq<char>, Kind>, name: Seq<char>, d: Datum<C>) -> bool {
    kinds.contains_key(name) && datum_matches(d, kinds[name])
}

/// `e` is the refusal of the value `d` stored under `name`: the name is not
/// declared, or the value is not of the declared kind.
pub open spec fn value_refusal<C>(
    kinds: Map<Seq<char>, Kind>,
    name: Seq<char>,
    d: Datum<C>,
    e: GraphError,
) -> bool {
    if !kinds.contains_key(name) {
        e matches GraphError::UnknownKey { key } && key@ == name
    } else {
        e matches GraphError::KindMismatch { key, expected, found } && key@ == name && expected
            == kinds[name] && found@ == datum_tag(d)
    }
}

/// What checking stored values against declared kinds gives: the refusal of
/// the first value (in key order) that does not fit; otherwise, when a
/// declared name has no value, `MissingKey` for the first such name;
/// otherwise success.
pub open spec fn check_outcome<C>(
    kinds: Map<Seq<char>, Kind>,
    kind_names: Seq<Seq<char>>,
    names: Seq<Seq<char>>,
    data: Seq<Datum<C>>,
    r: Result<(), GraphError>,
) -> bool {
    if exists|i: int| 0 <= i < names.len() && !fits(kinds, names[i], data[i]) {
        exists|i: int|
            0 <= i < names.len() && !fits(kinds, names[i], data[i]) && (forall|j: int|
                0 <= j < i ==> fits(kinds, #[trigger] names[j], data[j])) && (r matches Err(e)
                && value_refusal(kinds, names[i], data[i], e))
    } else if exists|j: int| 0 <= j < kind_names.len() && !names.contains(kind_names[j]) {
        exists|j: int|
            0 <= j < kind_names.len() && !names.contains(kind_names[j]) && (forall|m: int|
                0 <= m < j ==> names.contains(#[trigger] kind_names[m])) && (r matches Err(e) && (
            e matches GraphError::MissingKey { key } && key@ == kind_names[j]))
    } else {
        r is Ok
    }
}

/// Checks values against the declared kinds: every value must be declared
/// and of its kind, and every declared key must have a value.
pub fn check_values<C>(kinds: &KeyMap<Kind>, values: &KeyMap<Value<C>>) -> (r: Result<
    (),
    GraphError,
>)
    ensures
        check_outcome(kinds@, kinds.names(), values.names(), data_of(values.values()), r),
        r is Ok <==> fits_kinds(kinds@, data_map(values@)),
{
    proof {
        use_type_invariant(kinds);
        use_type_invariant(values);
        kinds.lemma_facts();
        values.lemma_facts();
        lemma_data_of_len(values.values());
    }
    let ghost ns = values.names();
    let ghost ds = data_of(values.values());
    let ghost kns = kinds.names();
    let n = values.len();
    let mut i: usize = 0;
    while i < n
        invariant
            n == ns.len(),
            ns == values.names(),
            ds == data_of(values.values()),
            ds.len() == n,
            values.values().len() == n,
            values.sorted(),
            kinds.sorted(),
            i <= n,
            forall|j: int| 0 <= j < i ==> fits(kinds@, #[trigger] ns[j], ds[j]),
        decreases n - i,
    {
        let key = values.key_at(i);
        let value = values.value_at(i);
        proof {
            lemma_data_of_index(values.values(), i as int);
        }
        match kinds.get(key) {
            None => {
                proof {
                    assert(!fits(kinds@, ns[i as int], ds[i as int]));
                }
                return Err(GraphError::UnknownKey { key: key.clone() });
            },
            Some(kind) => {
                if !value.matches(kind) {
                    proof {
                        assert(!fits(kinds@, ns[i as int], ds[i as int]));
                        values.lemma_facts();
                        assert(values@[ns[i as int]] == values.values()[i as int]);
                        assert(data_map(values@)[ns[i as int]] == ds[i as int]);
                        assert(data_map(values@).contains_key(ns[i as int]));
                    }
                    return Err(
                        GraphError::KindMismatch {
                            key: key.clone(),
                            expected: kind.clone(),
                            found: value.tag(),
                        },
                    );
                }
            },
        }
        i = i + 1;
    }
    let m = kinds.len();
    let mut j: usize = 0;
    while j < m
        invariant
            m == kns.len(),
            kns == kinds.names(),
            j <= m,
            values.sorted(),
            kinds.sorted(),
            ns == values.names(),
            ds == data_of(values.values()),
            n == ns.len(),
            forall|q: int| 0 <= q < n ==> fits(kinds@, #[trigger] ns[q], ds[q]),
            forall|q: int| 0 <= q < j ==> ns.contains(#[trigger] kns[q]),
        decreases m - j,
    {
        let key = kinds.key_at(j);
        if !values.contains_key(key) {
            proof {
                values.lemma_facts();
                kinds.lemma_facts();
                assert(!ns.contains(kns[j as int]));
                assert(kinds@.contains_key(kns[j as int]));
                assert(!data_map(values@).contains_key(kns[j as int]));
                assert(!(exists|q: int| 0 <= q < ns.len() && !fits(kinds@, ns[q], ds[q])));
                assert(0 <= j < kns.len() && !ns.contains(kns[j as int]) && (forall|q: int|
                    0 <= q < j ==> ns.contains(#[trigger] kns[q])));
            }
            return Err(GraphError::MissingKey { key: key.clone() });
        }
        j = j + 1;
    }
    proof {
        let data = data_map(values@);
        assert(data.dom() =~= kinds@.dom()) by {
            assert forall|k: Seq<char>| data.contains_key(k) implies kinds@.contains_key(k) by {
                let q = ns.index_of(k);
                assert(ns.contains(k));
                assert(fits(kinds@, ns[q], ds[q]));
            }
            assert forall|k: Seq<char>| kinds@.contains_key(k) implies data.contains_key(k) by {
                let q = kns.index_of(k);
                assert(kns.contains(k));
                assert(ns.contains(kns[q]));
            }
        }
        assert forall|k: Seq<char>| #[trigger] data.contains_key(k) implies datum_matches(
            data[k],
            kinds@[k],
        ) by {
            let q = ns.index_of(k);
            assert(ns.contains(k));
            assert(fits(kinds@, ns[q], ds[q]));
            lemma_data_of_index(values.values(), q);
        }
    }
    Ok(())
}

/// The graph's state: a value for every key the schema declares, each of
/// its declared kind. `C` is the conversation type.
#[derive(Debug)]
pub struct State<C> {
    schema: Schema,
    values: KeyMap<Value<C>>,
}

impl<C> State<C> {
    #[verifier::type_invariant]
    spec fn well_formed(self) -> bool {
        fits_kinds(self.schema.state@, data_map(self.values@))
    }

    /// The declared kind of each state key.
    pub closed spec fn kinds(&self) -> Map<Seq<char>, Kind> {
        self.schema.state@
    }

    /// The declared kind of each config key, as the schema holds them.
    pub closed spec fn config_kinds(&self) -> Map<Seq<char>, Kind> {
        self.schema.config@
    }

    /// The data under each key.
    pub closed spec fn data(&self) -> Map<Seq<char>, Datum<C>> {
        data_map(self.values@)
    }

    /// The keys, in order.
    pub closed spec fn names(&self) -> Seq<Seq<char>> {
        self.values.names()
    }

    /// Every state holds exactly its declared keys, each with data of its kind.
    pub fn lemma_well_formed(&self)
        ensures
            fits_kinds(self.kinds(), self.data()),
    {
        proof {
            use_type_invariant(self);
        }
    }

    /// A state for `schema` holding `values`; refused when a value is not
    /// declared or not of its kind, or when a declared key has no value.
    pub fn new(schema: Schema, values: KeyMap<Value<C>>) -> (r: Result<State<C>, GraphError>)
        ensures
            check_outcome(
                schema.state@,
                schema.state.names(),
                values.names(),
                data_of(values.values()),
                match r {
                    Ok(_) => Ok(()),
                    Err(e) => Err(e),
                },
            ),
            r is Ok <==> fits_kinds(schema.state@, data_map(values@)),
            r matches Ok(s) ==> s.kinds() == schema.state@ && s.config_kinds() == schema.config@
                && s.data() == data_map(values@),
    {
        match check_values(&schema.state, &values) {
            Ok(()) => Ok(State { schema, values }),
            Err(e) => Err(e),
        }
    }

    /// A saved state: refused with `SchemaMismatch` when it was written
    /// under another version tag, else as `new`.
    pub fn restore(version: &str, schema: Schema, values: KeyMap<Value<C>>) -> (r: Result<
        State<C>,
        GraphError,
    >)
        ensures
            version@ != SCHEMA_VERSION@ ==> (r matches Err(e) && (e matches GraphError::SchemaMismatch {
                found,
            } && found@ == version@)),
            version@ == SCHEMA_VERSION@ ==> (r is Ok <==> fits_kinds(
                schema.state@,
                data_map(values@),
            )),
            version@ == SCHEMA_VERSION@ ==> check_outcome(
                schema.state@,
                schema.state.names(),
                values.names(),
                data_of(values.values()),
                match r {
                    Ok(_) => Ok(()),
                    Err(e) => Err(e),
                },
            ),
            r matches Ok(s) ==> s.kinds() == schema.state@ && s.config_kinds() == schema.config@
                && s.data() == data_map(values@),
    {
        let expected = String::from_str(SCHEMA_VERSION);
        let found = version.to_owned();
        if !(found == expected) {
            return Err(GraphError::SchemaMismatch { found });
        }
        State::new(schema, values)
    }

    /// The state with no keys.
    pub fn empty() -> (r: State<C>)
        ensures
            r.kinds() == Map::<Seq<char>, Kind>::empty(),
            r.data() == Map::<Seq<char>, Datum<C>>::empty(),
    {
        let schema = Schema::empty();
        let values = KeyMap::new();
        assert(data_map(values@) =~= Map::<Seq<char>, Datum<C>>::empty());
        assert(schema.state@.dom() =~= Set::<Seq<char>>::empty());
        let r = State { schema, values };
        assert(r.data() =~= Map::<Seq<char>, Datum<C>>::empty());
        r
    }

    pub fn schema(&self) -> (r: &Schema)
        ensures
            r.state@ == self.kinds(),
            r.config@ == self.config_kinds(),
    {
        &self.schema
    }

    /// The stored values, in key order.
    pub fn values(&self) -> (r: &KeyMap<Value<C>>)
        ensures
            data_map(r@) == self.data(),
            r.names() == self.names(),
    {
        &self.values
    }

    /// The declared kind of `key`.
    pub fn kind_of(&self, key: &Key) -> (r: Option<&Kind>)
        ensures
            match r {
                Some(k) => self.kinds().contains_key(key@) && *k == self.kinds()[key@],
                None => !self.kinds().contains_key(key@),
            },
    {
        self.schema.state.get(key)
    }

    /// Applies a batch of updates, all or nothing. A batch that assigns one
    /// key twice is refused with `SetConflict` for the first repeated
    /// assignment. Otherwise the updates apply in order, each to the result of
    /// the one before; the first refusal is reported and the state is left as
    /// it was.
    pub fn apply_batch<E>(&mut self, updates: Vec<Update<C, E>>) -> (r: Result<(), GraphError>) where
        C: Transcript<E>,
        ensures
            final(self).kinds() == old(self).kinds(),
            final(self).config_kinds() == old(self).config_kinds(),
            batch_effect(old(self).kinds(), old(self).data(), updates@, r, final(self).data()),
            updates@.len() == 1 && r is Ok ==> match updates@[0] {
                Update::Append { key, value } => final(self).data()[key@] == Datum::<C>::List(
                    old(self).data()[key@]->List_0.push(value@),
                ),
                _ => true,
            },
    {
        proof {
            use_type_invariant(&*self);
        }
        if let Some(i) = find_conflict(&updates) {
            let key = updates[i].key().clone();
            proof {
                assert forall|j: int| #[trigger] first_conflict(updates@, j) implies j == i by {
                    if j < i {
                        assert(!conflict_at(updates@, j));
                    } else if j > i {
                        assert(!conflict_at(updates@, i as int));
                    }
                }
            }
            return Err(GraphError::SetConflict { key });
        }
        let mut taken = State::empty();
        std::mem::swap(self, &mut taken);
        proof {
            use_type_invariant(&taken);
        }
        let ghost kinds0 = taken.kinds();
        let ghost data0 = taken.data();
        let ghost us = updates@;
        let State { schema, mut values } = taken;
        assert(schema.state@ == kinds0 && data_map(values@) == data0);
        let r = apply_updates(&schema.state, &mut values, updates);
        *self = State { schema, values };
        proof {
            let outs = choose|outs: Seq<Result<C, String>>|
                match #[trigger] apply_all(kinds0, data0, us, outs) {
                    Ok(d) => r is Ok && data_map(values@) == d,
                    Err(f) => r matches Err(e) && is_refusal(e, f) && data_map(values@) == data0,
                };
            assert(match apply_all(old(self).kinds(), old(self).data(), us, outs) {
                Ok(d) => r is Ok && self.data() == d,
                Err(f) => r matches Err(e) && is_refusal(e, f) && self.data() == old(self).data(),
            });
            if us.len() == 1 && r is Ok {
                if let Update::Append { key, value } = us[0] {
                    assert(batch_effect(kinds0, data0, us, r, self.data()));
                    assert(us =~= seq![Update::<C, E>::Append { key, value }]);
                    crate::laws::law_append_pushes_at_end::<C, E>(kinds0, data0, key, value, r, self.data());
                    assert(self.data()[key@]->List_0 =~= data0[key@]->List_0.push(value@));
                }
            }
        }
        r
    }

    /// The value under `key`; `MissingKey` when there is none.
    pub fn get(&self, key: &Key) -> (r: Result<&Value<C>, GraphError>)
        ensures
            match r {
                Ok(v) => self.data().contains_key(key@) && v@ == self.data()[key@],
                Err(e) => !self.data().contains_key(key@) && (e matches GraphError::MissingKey {
                    key: k,
                } && k@ == key@),
            },
    {
        match self.values.get(key) {
            Some(v) => Ok(v),
            None => Err(GraphError::MissingKey { key: key.clone() }),
        }
    }

    /// The value under `key`, as `get`.
    pub fn value(&self, key: &Key) -> (r: Result<&Value<C>, GraphError>)
        ensures
            match r {
                Ok(v) => self.data().contains_key(key@) && v@ == self.data()[key@],
                Err(e) => !self.data().contains_key(key@) && (e matches GraphError::MissingKey {
                    key: k,
                } && k@ == key@),
            },
    {
        self.get(key)
    }

    /// The int under `key`.
    pub fn integer(&self, key: &Key) -> (r: Result<i64, GraphError>)
        ensures
            read_outcome(self.data(), key@, Kind::Int, Kind::Int, match r { Ok(v) => Ok::<Datum<C>, GraphError>(Datum::<C>::Int(v)), Err(e) => Err(e) }),
    {
        match self.get(key)? {
            Value::Int(v) => Ok(*v),
            other => Err(mismatch(key, Kind::Int, other)),
        }
    }

    /// The bit pattern of the float under `key`.
    pub fn float_bits(&self, key: &Key) -> (r: Result<u64, GraphError>)
        ensures
            read_outcome(self.data(), key@, Kind::Float, Kind::Float, match r { Ok(v) => Ok::<Datum<C>, GraphError>(Datum::<C>::Float(v)), Err(e) => Err(e) }),
    {
        match self.get(key)? {
            Value::Float(v) => Ok(v.to_bits()),
            other => Err(mismatch(key, Kind::Float, other)),
        }
    }

    /// The string under `key`.
    pub fn str(&self, key: &Key) -> (r: Result<&str, GraphError>)
        ensures
            read_outcome(self.data(), key@, Kind::Str, Kind::Str, match r { Ok(v) => Ok::<Datum<C>, GraphError>(Datum::<C>::Str(v@)), Err(e) => Err(e) }),
    {
        match self.get(key)? {
            Value::Str(v) => Ok(v.as_str()),
            other => Err(mismatch(key, Kind::Str, other)),
        }
    }

    /// The bool under `key`.
    pub fn bool(&self, key: &Key) -> (r: Result<bool, GraphError>)
        ensures
            read_outcome(self.data(), key@, Kind::Bool, Kind::Bool, match r { Ok(v) => Ok::<Datum<C>, GraphError>(Datum::<C>::Bool(v)), Err(e) => Err(e) }),
    {
        match self.get(key)? {
            Value::Bool(v) => Ok(*v),
            other => Err(mismatch(key, Kind::Bool, other)),
        }
    }

    /// The items of the list under `key`; the kind a refusal names is the
    /// declared one.
    pub fn list(&self, key: &Key) -> (r: Result<&[Value<C>], GraphError>)
        ensures
            read_outcome(
                self.data(),
                key@,
                Kind::List { element: Box::new(Kind::Str) },
                if self.kinds().contains_key(key@) {
                    self.kinds()[key@]
                } else {
                    Kind::List { element: Box::new(Kind::Str) }
                },
                match r {
                    Ok(v) => Ok::<Datum<C>, GraphError>(Datum::<C>::List(data_of(v@))),
                    Err(e) => Err(e),
                },
            ),
    {
        proof {
            use_type_invariant(self);
        }
        match self.get(key)? {
            Value::List(items) => Ok(items.as_slice()),
            other => Err(mismatch(key, self.declared_kind(key), other)),
        }
    }

    fn declared_kind(&self, key: &Key) -> (r: Kind)
        ensures
            r == if self.kinds().contains_key(key@) {
                self.kinds()[key@]
            } else {
                Kind::List { element: Box::new(Kind::Str) }
            },
    {
        match self.kind_of(key) {
            Some(kind) => kind.clone(),
            None => Kind::list(Kind::Str),
        }
    }

    /// The conversation under `key`.
    pub fn conversation(&self, key: &Key) -> (r: Result<&C, GraphError>)
        ensures
            read_outcome(
                self.data(),
                key@,
                Kind::Conversation,
                Kind::Conversation,
                match r {
                    Ok(v) => Ok::<Datum<C>, GraphError>(Datum::<C>::Conversation(*v)),
                    Err(e) => Err(e),
                },
            ),
    {
        match self.get(key)? {
            Value::Conversation(c) => Ok(c),
            other => Err(mismatch(key, Kind::Conversation, other)),
        }
    }
}

/// What reading `name` as the variant of `asked` gives: `MissingKey` when
/// there is no value, the value when it is of that variant (handed back as
/// its data), `KindMismatch` naming `expected` otherwise.
pub open spec fn read_outcome<C>(
    data: Map<Seq<char>, Datum<C>>,
    name: Seq<char>,
    asked: Kind,
    expected: Kind,
    r: Result<Datum<C>, GraphError>,
) -> bool {
    if !data.contains_key(name) {
        r matches Err(e) && (e matches GraphError::MissingKey { key } && key@ == name)
    } else if same_variant(data[name], asked) {
        r == Ok::<Datum<C>, GraphError>(data[name])
    } else {
        r matches Err(e) && (e matches GraphError::KindMismatch { key, expected: x, found } && key@
            == name && x == expected && found@ == datum_tag(data[name]))
    }
}

/// Whether a datum has the variant a kind names (list items unchecked).
pub open spec fn same_variant<C>(d: Datum<C>, k: Kind) -> bool {
    match d {
        Datum::Int(_) => k is Int,
        Datum::Float(_) => k is Float,
        Datum::Str(_) => k is Str,
        Datum::Bool(_) => k is Bool,
        Datum::List(_) => k is List,
        Datum::Conversation(_) => k is Conversation,
    }
}


/// `b` holds the same names as `a`, each with a copy of its data.
pub open spec fn data_cloned<C: Clone>(a: Map<Seq<char>, Datum<C>>, b: Map<Seq<char>, Datum<C>>) -> bool {
    &&& b.dom() == a.dom()
    &&& forall|k: Seq<char>| #[trigger] a.contains_key(k) ==> datum_cloned(a[k], b[k])
}

impl<C: Clone> Clone for State<C> {
    /// The same schema, and a copy of each value.
    fn clone(&self) -> (r: State<C>)
        ensures
            r.kinds() == self.kinds(),
            r.config_kinds() == self.config_kinds(),
            data_cloned(self.data(), r.data()),
    {
        proof {
            use_type_invariant(self);
        }
        let schema = Schema { state: copy_kinds(&self.schema.state), config: copy_kinds(&self.schema.config) };
        let values = self.values.clone();
        proof {
            use_type_invariant(&self.values);
            use_type_invariant(&values);
            self.values.lemma_facts();
            values.lemma_facts();
            let a = data_map(self.values@);
            let b = data_map(values@);
            assert(b.dom() =~= a.dom());
            assert forall|k: Seq<char>| #[trigger] a.contains_key(k) implies datum_cloned(a[k], b[k]) && datum_matches(b[k], schema.state@[k]) by {
                let ns = self.values.names();
                let i = ns.index_of(k);
                assert(ns.contains(k));
                lemma_value_cloned(self.values.values()[i], values.values()[i]);
                lemma_cloned_matches(a[k], b[k], schema.state@[k]);
            }
        }
        State { schema, values }
    }
}

impl<C: Clone> State<C> {
    /// A copy of the state with `value` under `key`: the key must be declared
    /// and the value of its kind. Every other key keeps a copy of its value.
    pub fn derive(&self, key: &Key, value: Value<C>) -> (r: Result<State<C>, GraphError>)
        ensures
            match assign_result(self.kinds(), self.data(), key@, value@) {
                Ok(_) => r matches Ok(s) && s.kinds() == self.kinds() && s.config_kinds()
                    == self.config_kinds() && s.data().dom() == self.data().dom() && s.data()[key@]
                    == value@ && forall|k: Seq<char>|
                    #![trigger s.data()[k]]
                    self.data().contains_key(k) && k != key@ ==> datum_cloned(self.data()[k], s.data()[k]),
                Err(f) => r matches Err(e) && is_refusal(e, f),
            },
    {
        proof {
            use_type_invariant(self);
        }
        let kind = match self.kind_of(key) {
            Some(k) => k,
            None => {
                return Err(GraphError::UnknownKey { key: key.clone() });
            },
        };
        if !value.matches(kind) {
            let found = value.tag();
            return Err(GraphError::KindMismatch { key: key.clone(), expected: kind.clone(), found });
        }
        let derived = self.clone();
        proof {
            use_type_invariant(&derived);
        }
        let ghost before = derived.data();
        let ghost d = value@;
        let State { schema, mut values } = derived;
        values.insert(key.clone(), value);
        proof {
            assert(data_map(values@) =~= before.insert(key@, d));
        }
        Ok(State { schema, values })
    }
}

/// The refusal of reading `found` under `key` as `expected`.
pub fn mismatch<C>(key: &Key, expected: Kind, found: &Value<C>) -> (r: GraphError)
    ensures
        r matches GraphError::KindMismatch { key: k, expected: x, found: f } && k@ == key@ && x
            == expected && f@ == datum_tag(found@),
{
    GraphError::KindMismatch { key: key.clone(), expected, found: found.tag() }
}

} // verus!
