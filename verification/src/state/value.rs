use vstd::prelude::*;

use crate::error::GraphError;
use crate::state::kind::Kind;

verus! {

/// Whether the bits of an IEEE 754 double encode a finite number: the
/// exponent field is not all ones.
pub open spec fn finite_bits(bits: u64) -> bool {
    (bits >> 52u64) & 0x7ffu64 != 0x7ffu64
}

/// A finite double, held by its bit pattern.
#[derive(Debug, Clone, Copy, PartialEq, Eq)]
pub struct Finite {
    bits: u64,
}

impl View for Finite {
    type V = u64;

    closed spec fn view(&self) -> u64 {
        self.bits
    }
}

impl Finite {
    #[verifier::type_invariant]
    spec fn well_formed(self) -> bool {
        finite_bits(self.bits)
    }

    /// Accepts the bit pattern of a double when it encodes a finite number.
    pub fn from_bits(bits: u64) -> (r: Result<Finite, GraphError>)
        ensures
            r is Ok <==> finite_bits(bits),
            r matches Ok(f) ==> f@ == bits,
            r matches Err(e) ==> e is FloatNotFinite,
    {
        if (bits >> 52u64) & 0x7ffu64 != 0x7ffu64 {
            Ok(Finite { bits })
        } else {
            Err(GraphError::FloatNotFinite)
        }
    }

    /// The bit pattern of the double.
    pub fn to_bits(self) -> (r: u64)
        ensures
            r == self@,
            finite_bits(r),
    {
        proof {
            use_type_invariant(self);
        }
        self.bits
    }
}

/// A value held in state or config; `C` is the conversation type.
#[derive(Debug)]
pub enum Value<C> {
    Int(i64),
    Float(Finite),
    Str(String),
    Bool(bool),
    List(Vec<Value<C>>),
    Conversation(C),
}

/// What a value holds, as mathematical data.
pub enum Datum<C> {
    Int(i64),
    Float(u64),
    Str(Seq<char>),
    Bool(bool),
    List(Seq<Datum<C>>),
    Conversation(C),
}

/// The data a value holds.
pub open spec fn datum_of<C>(v: Value<C>) -> Datum<C>
    decreases v, 1int,
{
    match v {
        Value::Int(i) => Datum::Int(i),
        Value::Float(f) => Datum::Float(f@),
        Value::Str(s) => Datum::Str(s@),
        Value::Bool(b) => Datum::Bool(b),
        Value::List(items) => Datum::List(data_of(items@)),
        Value::Conversation(c) => Datum::Conversation(c),
    }
}

/// The data of a sequence of values, item by item.
pub open spec fn data_of<C>(items: Seq<Value<C>>) -> Seq<Datum<C>>
    decreases items, 0int,
{
    if items.len() == 0 {
        Seq::empty()
    } else {
        data_of(items.drop_last()).push(datum_of(items.last()))
    }
}

impl<C> View for Value<C> {
    type V = Datum<C>;

    open spec fn view(&self) -> Datum<C> {
        datum_of(*self)
    }
}

/// The tag naming the variant of a datum.
pub open spec fn datum_tag<C>(d: Datum<C>) -> Seq<char> {
    match d {
        Datum::Int(_) => "int"@,
        Datum::Float(_) => "float"@,
        Datum::Str(_) => "str"@,
        Datum::Bool(_) => "bool"@,
        Datum::List(_) => "list"@,
        Datum::Conversation(_) => "conversation"@,
    }
}

/// Whether a datum is of a kind: scalars by variant, a list when every item
/// is of the element kind (so the empty list is of every list kind).
pub open spec fn datum_matches<C>(d: Datum<C>, k: Kind) -> bool
    decreases d, 1int,
{
    match d {
        Datum::Int(_) => k is Int,
        Datum::Float(_) => k is Float,
        Datum::Str(_) => k is Str,
        Datum::Bool(_) => k is Bool,
        Datum::Conversation(_) => k is Conversation,
        Datum::List(items) => match k {
            Kind::List { element } => all_match(items, *element),
            _ => false,
        },
    }
}

/// Whether every datum of the sequence is of the kind.
pub open spec fn all_match<C>(items: Seq<Datum<C>>, k: Kind) -> bool
    decreases items, 0int,
{
    if items.len() == 0 {
        true
    } else {
        all_match(items.drop_last(), k) && datum_matches(items.last(), k)
    }
}

/// A sequence matches a kind exactly when each of its items does.
pub proof fn lemma_all_match<C>(items: Seq<Datum<C>>, k: Kind)
    ensures
        all_match(items, k) <==> forall|i: int|
            0 <= i < items.len() ==> #[trigger] datum_matches(items[i], k),
    decreases items.len(),
{
    if items.len() > 0 {
        lemma_all_match(items.drop_last(), k);
        if all_match(items, k) {
            assert forall|i: int| 0 <= i < items.len() implies #[trigger] datum_matches(items[i], k) by {
                if i < items.len() - 1 {
                    assert(items.drop_last()[i] == items[i]);
                }
            }
        }
        if forall|i: int| 0 <= i < items.len() ==> #[trigger] datum_matches(items[i], k) {
            assert forall|i: int| 0 <= i < items.drop_last().len() implies #[trigger] datum_matches(items.drop_last()[i], k) by {
                assert(items.drop_last()[i] == items[i]);
                assert(datum_matches(items[i], k));
            }
            assert(datum_matches(items[items.len() - 1], k));
        }
    }
}

pub proof fn lemma_data_of_len<C>(items: Seq<Value<C>>)
    ensures
        data_of(items).len() == items.len(),
    decreases items.len(),
{
    if items.len() > 0 {
        lemma_data_of_len(items.drop_last());
    }
}

pub proof fn lemma_data_of_index<C>(items: Seq<Value<C>>, i: int)
    requires
        0 <= i < items.len(),
    ensures
        data_of(items)[i] == datum_of(items[i]),
    decreases items.len(),
{
    lemma_data_of_len(items);
    if i < items.len() - 1 {
        lemma_data_of_index(items.drop_last(), i);
        lemma_data_of_len(items.drop_last());
    }
}

pub proof fn lemma_data_of_push<C>(items: Seq<Value<C>>, v: Value<C>)
    ensures
        data_of(items.push(v)) == data_of(items).push(datum_of(v)),
{
    assert(items.push(v).drop_last() =~= items);
}

/// `b` is a copy of `a`: the same data, except that each conversation of `b`
/// is a clone of the conversation of `a` at the same place.
pub open spec fn datum_cloned<C: Clone>(a: Datum<C>, b: Datum<C>) -> bool
    decreases a, 1int,
{
    match a {
        Datum::List(xs) => match b {
            Datum::List(ys) => all_cloned(xs, ys),
            _ => false,
        },
        Datum::Conversation(c) => match b {
            Datum::Conversation(d) => cloned::<C>(c, d),
            _ => false,
        },
        _ => b == a,
    }
}

/// Item by item, `ys` is a copy of `xs`.
pub open spec fn all_cloned<C: Clone>(xs: Seq<Datum<C>>, ys: Seq<Datum<C>>) -> bool
    decreases xs, 0int,
{
    if xs.len() == 0 {
        ys.len() == 0
    } else {
        ys.len() == xs.len() && all_cloned(xs.drop_last(), ys.drop_last()) && datum_cloned(
            xs.last(),
            ys.last(),
        )
    }
}

/// A copy of data holding no conversation is the same data.
pub open spec fn datum_plain<C>(d: Datum<C>) -> bool
    decreases d, 1int,
{
    match d {
        Datum::List(xs) => all_plain(xs),
        Datum::Conversation(_) => false,
        _ => true,
    }
}

pub open spec fn all_plain<C>(xs: Seq<Datum<C>>) -> bool
    decreases xs, 0int,
{
    if xs.len() == 0 {
        true
    } else {
        all_plain(xs.drop_last()) && datum_plain(xs.last())
    }
}

/// Cloning data without conversations gives the same data.
pub proof fn lemma_cloned_plain<C: Clone>(a: Datum<C>, b: Datum<C>)
    requires
        datum_cloned(a, b),
        datum_plain(a),
    ensures
        a == b,
    decreases a, 1int,
{
    match a {
        Datum::List(xs) => {
            let ys = b->List_0;
            lemma_all_cloned_plain(xs, ys);
        },
        _ => {},
    }
}

pub proof fn lemma_all_cloned_plain<C: Clone>(xs: Seq<Datum<C>>, ys: Seq<Datum<C>>)
    requires
        all_cloned(xs, ys),
        all_plain(xs),
    ensures
        xs == ys,
    decreases xs, 0int,
{
    if xs.len() == 0 {
        assert(xs =~= ys);
    } else {
        lemma_all_cloned_plain(xs.drop_last(), ys.drop_last());
        lemma_cloned_plain(xs.last(), ys.last());
        assert(xs =~= xs.drop_last().push(xs.last()));
        assert(ys =~= ys.drop_last().push(ys.last()));
    }
}

/// Every datum is a copy of itself.
pub proof fn lemma_cloned_refl<C: Clone>(a: Datum<C>)
    ensures
        datum_cloned(a, a),
    decreases a, 1int,
{
    match a {
        Datum::List(xs) => lemma_all_cloned_refl(xs),
        _ => {},
    }
}

pub proof fn lemma_all_cloned_refl<C: Clone>(xs: Seq<Datum<C>>)
    ensures
        all_cloned(xs, xs),
    decreases xs, 0int,
{
    if xs.len() > 0 {
        lemma_all_cloned_refl(xs.drop_last());
        lemma_cloned_refl(xs.last());
    }
}

/// A copy of data of a kind is of that kind too.
pub proof fn lemma_cloned_matches<C: Clone>(a: Datum<C>, b: Datum<C>, k: Kind)
    requires
        datum_cloned(a, b),
        datum_matches(a, k),
    ensures
        datum_matches(b, k),
    decreases a, 1int,
{
    match a {
        Datum::List(xs) => {
            let element = *k->element;
            lemma_all_cloned_matches(xs, b->List_0, element);
        },
        _ => {},
    }
}

pub proof fn lemma_all_cloned_matches<C: Clone>(xs: Seq<Datum<C>>, ys: Seq<Datum<C>>, k: Kind)
    requires
        all_cloned(xs, ys),
        all_match(xs, k),
    ensures
        all_match(ys, k),
    decreases xs, 0int,
{
    if xs.len() > 0 {
        lemma_all_cloned_matches(xs.drop_last(), ys.drop_last(), k);
        lemma_cloned_matches(xs.last(), ys.last(), k);
    }
}

/// A copy is of a kind exactly when the value it copies is, and has the same
/// tag.
pub proof fn lemma_cloned_matches_iff<C: Clone>(a: Datum<C>, b: Datum<C>, k: Kind)
    requires
        datum_cloned(a, b),
    ensures
        datum_matches(a, k) == datum_matches(b, k),
        datum_tag(a) == datum_tag(b),
    decreases a, 1int,
{
    match a {
        Datum::List(xs) => {
            match k {
                Kind::List { element } => lemma_all_cloned_matches_iff(xs, b->List_0, *element),
                _ => {},
            }
        },
        _ => {},
    }
}

pub proof fn lemma_all_cloned_matches_iff<C: Clone>(xs: Seq<Datum<C>>, ys: Seq<Datum<C>>, k: Kind)
    requires
        all_cloned(xs, ys),
    ensures
        all_match(xs, k) == all_match(ys, k),
    decreases xs, 0int,
{
    if xs.len() > 0 {
        lemma_all_cloned_matches_iff(xs.drop_last(), ys.drop_last(), k);
        lemma_cloned_matches_iff(xs.last(), ys.last(), k);
    }
}

/// What `cloned` says of two values: the second is a copy of the first.
pub proof fn lemma_value_cloned<C: Clone>(a: Value<C>, b: Value<C>)
    requires
        cloned::<Value<C>>(a, b),
    ensures
        datum_cloned(a@, b@),
{
    if a == b {
        lemma_cloned_refl(a@);
    }
}

impl<C: Clone> Clone for Value<C> {
    fn clone(&self) -> (r: Value<C>)
        ensures
            datum_cloned(self@, r@),
        decreases self,
    {
        match self {
            Value::Int(i) => Value::Int(*i),
            Value::Float(f) => Value::Float(*f),
            Value::Str(s) => Value::Str(s.clone()),
            Value::Bool(b) => Value::Bool(*b),
            Value::Conversation(c) => Value::Conversation(c.clone()),
            Value::List(items) => {
                let n = items.len();
                let mut out: Vec<Value<C>> = Vec::new();
                let mut i: usize = 0;
                while i < n
                    invariant
                        *self == Value::<C>::List(*items),
                        n == items@.len(),
                        i <= n,
                        out@.len() == i,
                        all_cloned(data_of(items@.take(i as int)), data_of(out@)),
                    decreases n - i,
                {
                    proof {
                        vstd::std_specs::vec::axiom_vec_index_decreases(*items, i as int);
                        assert(self->List_0 == *items);
                        assert(decreases_to!(*self => self->List_0));
                        assert(decreases_to!(*items => items@[i as int]));
                        assert(decreases_to!(*self => items@[i as int]));
                    }
                    let c = items[i].clone();
                    let ghost before = out@;
                    out.push(c);
                    proof {
                        let xs = items@.take(i + 1);
                        assert(xs.drop_last() =~= items@.take(i as int));
                        assert(out@.drop_last() =~= before);
                        assert(xs.last() == items@[i as int]);
                        lemma_data_of_len(xs);
                        lemma_data_of_len(out@);
                        assert(data_of(xs).drop_last() =~= data_of(items@.take(i as int)));
                        assert(data_of(out@).drop_last() =~= data_of(before));
                    }
                    i = i + 1;
                }
                proof {
                    assert(items@.take(n as int) =~= items@);
                }
                Value::List(out)
            },
        }
    }
}

impl<C> Value<C> {
    pub fn integer(value: i64) -> (r: Value<C>)
        ensures
            r@ == Datum::<C>::Int(value),
    {
        Value::Int(value)
    }

    /// A float value from the bit pattern of a double; refused when the
    /// double is not finite.
    pub fn float_bits(bits: u64) -> (r: Result<Value<C>, GraphError>)
        ensures
            r is Ok <==> finite_bits(bits),
            r matches Ok(v) ==> v@ == Datum::<C>::Float(bits),
            r matches Err(e) ==> e is FloatNotFinite,
    {
        match Finite::from_bits(bits) {
            Ok(f) => Ok(Value::Float(f)),
            Err(e) => Err(e),
        }
    }

    pub fn str(value: &str) -> (r: Value<C>)
        ensures
            r@ == Datum::<C>::Str(value@),
    {
        Value::Str(value.to_owned())
    }

    pub fn bool(value: bool) -> (r: Value<C>)
        ensures
            r@ == Datum::<C>::Bool(value),
    {
        Value::Bool(value)
    }

    pub fn list(values: Vec<Value<C>>) -> (r: Value<C>)
        ensures
            r@ == Datum::<C>::List(data_of(values@)),
    {
        Value::List(values)
    }

    pub fn conversation(conversation: C) -> (r: Value<C>)
        ensures
            r@ == Datum::<C>::Conversation(conversation),
    {
        Value::Conversation(conversation)
    }

    /// The name of the value's variant.
    pub fn tag(&self) -> (r: &'static str)
        ensures
            r@ == datum_tag(self@),
    {
        match self {
            Value::Int(_) => "int",
            Value::Float(_) => "float",
            Value::Str(_) => "str",
            Value::Bool(_) => "bool",
            Value::List(_) => "list",
            Value::Conversation(_) => "conversation",
        }
    }

    /// Whether the value is of the kind.
    pub fn matches(&self, kind: &Kind) -> (r: bool)
        ensures
            r == datum_matches(self@, *kind),
        decreases self,
    {
        match self {
            Value::Int(_) => matches!(kind, Kind::Int),
            Value::Float(_) => matches!(kind, Kind::Float),
            Value::Str(_) => matches!(kind, Kind::Str),
            Value::Bool(_) => matches!(kind, Kind::Bool),
            Value::Conversation(_) => matches!(kind, Kind::Conversation),
            Value::List(items) => {
                let element = match kind {
                    Kind::List { element } => element,
                    _ => {
                        return false;
                    },
                };
                let n = items.len();
                let mut i: usize = 0;
                proof {
                    lemma_data_of_len(items@);
                    lemma_all_match(data_of(items@), **element);
                    assert(self@ == Datum::<C>::List(data_of(items@)));
                }
                while i < n
                    invariant
                        *self == Value::<C>::List(*items),
                        *kind == (Kind::List { element: *element }),
                        self@ == Datum::<C>::List(data_of(items@)),
                        n == items@.len(),
                        i <= n,
                        data_of(items@).len() == n,
                        forall|j: int| 0 <= j < i ==> #[trigger] datum_matches(data_of(items@)[j], **element),
                    decreases n - i,
                {
                    proof {
                        lemma_data_of_index(items@, i as int);
                        vstd::std_specs::vec::axiom_vec_index_decreases(*items, i as int);
                        assert(decreases_to!(*self => *items));
                        assert(decreases_to!(*items => items@[i as int]));
                        assert(decreases_to!(*self => items@[i as int]));
                    }
                    if !items[i].matches(&**element) {
                        proof {
                            assert(!datum_matches(data_of(items@)[i as int], **element));
                            lemma_all_match(data_of(items@), **element);
                        }
                        return false;
                    }
                    i = i + 1;
                }
                true
            },
        }
    }
}

} // verus!
