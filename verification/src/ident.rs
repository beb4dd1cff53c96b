use vstd::prelude::*;

use crate::error::GraphError;

verus! {

/// A character that may open an identifier: `a` to `z`.
pub open spec fn ident_head(c: char) -> bool {
    'a' <= c && c <= 'z'
}

/// A character that may follow the first one: `a` to `z`, `0` to `9` or `_`.
pub open spec fn ident_tail(c: char) -> bool {
    ident_head(c) || ('0' <= c && c <= '9') || c == '_'
}

/// The identifier grammar `[a-z][a-z0-9_]*`.
pub open spec fn is_identifier(s: Seq<char>) -> bool {
    &&& s.len() > 0
    &&& ident_head(s[0])
    &&& forall|i: int| 1 <= i < s.len() ==> #[trigger] ident_tail(s[i])
}

/// Strict lexicographic order on character sequences, character by character
/// by code point; a proper prefix comes first.
pub open spec fn name_lt(a: Seq<char>, b: Seq<char>) -> bool
    decreases a.len(),
{
    if a.len() == 0 {
        b.len() > 0
    } else if b.len() == 0 {
        false
    } else if a[0] != b[0] {
        a[0] < b[0]
    } else {
        name_lt(a.drop_first(), b.drop_first())
    }
}

/// No name comes before itself.
pub proof fn lemma_name_lt_irreflexive(a: Seq<char>)
    ensures
        !name_lt(a, a),
    decreases a.len(),
{
    if a.len() > 0 {
        lemma_name_lt_irreflexive(a.drop_first());
    }
}

/// Two names never come before each other.
pub proof fn lemma_name_lt_asymmetric(a: Seq<char>, b: Seq<char>)
    ensures
        !(name_lt(a, b) && name_lt(b, a)),
    decreases a.len(),
{
    if a.len() > 0 && b.len() > 0 && a[0] == b[0] {
        lemma_name_lt_asymmetric(a.drop_first(), b.drop_first());
    }
}

/// The order is transitive.
pub proof fn lemma_name_lt_transitive(a: Seq<char>, b: Seq<char>, c: Seq<char>)
    requires
        name_lt(a, b),
        name_lt(b, c),
    ensures
        name_lt(a, c),
    decreases a.len(),
{
    if a.len() > 0 && b.len() > 0 && c.len() > 0 {
        if a[0] == b[0] && b[0] == c[0] {
            lemma_name_lt_transitive(a.drop_first(), b.drop_first(), c.drop_first());
        }
    }
}

/// Two different names are ordered one way or the other.
pub proof fn lemma_name_lt_total(a: Seq<char>, b: Seq<char>)
    requires
        a != b,
    ensures
        name_lt(a, b) || name_lt(b, a),
    decreases a.len(),
{
    if a.len() > 0 && b.len() > 0 {
        if a[0] == b[0] {
            if a.drop_first() == b.drop_first() {
                assert(a =~= seq![a[0]] + a.drop_first());
                assert(b =~= seq![b[0]] + b.drop_first());
            }
            lemma_name_lt_total(a.drop_first(), b.drop_first());
        }
    } else if a.len() == 0 && b.len() == 0 {
        assert(a =~= b);
    }
}

/// The three outcomes of comparing two names.
#[derive(Debug, Clone, Copy, PartialEq, Eq, Structural)]
pub enum NameOrder {
    Less,
    Equal,
    Greater,
}

/// What comparing `a` with `b` gives.
pub open spec fn name_order(a: Seq<char>, b: Seq<char>) -> NameOrder {
    if a == b {
        NameOrder::Equal
    } else if name_lt(a, b) {
        NameOrder::Less
    } else {
        NameOrder::Greater
    }
}

/// Compares two strings character by character.
pub fn compare_names(a: &str, b: &str) -> (r: NameOrder)
    ensures
        r == name_order(a@, b@),
        r == NameOrder::Greater ==> name_lt(b@, a@),
{
    let la = a.unicode_len();
    let lb = b.unicode_len();
    let mut i: usize = 0;
    proof {
        assert(a@.skip(0) =~= a@);
        assert(b@.skip(0) =~= b@);
    }
    while i < la && i < lb
        invariant
            la == a@.len(),
            lb == b@.len(),
            i <= la,
            i <= lb,
            a@.subrange(0, i as int) =~= b@.subrange(0, i as int),
            name_lt(a@, b@) == name_lt(a@.skip(i as int), b@.skip(i as int)),
            name_lt(b@, a@) == name_lt(b@.skip(i as int), a@.skip(i as int)),
        decreases la - i,
    {
        let ca = a.get_char(i);
        let cb = b.get_char(i);
        if ca != cb {
            proof {
                assert(a@.skip(i as int)[0] == ca);
                assert(b@.skip(i as int)[0] == cb);
                assert(a@[i as int] != b@[i as int]);
                assert(a@ != b@);
            }
            if ca < cb {
                return NameOrder::Less;
            } else {
                return NameOrder::Greater;
            }
        }
        proof {
            assert(a@.skip(i as int).drop_first() =~= a@.skip(i + 1));
            assert(b@.skip(i as int).drop_first() =~= b@.skip(i + 1));
            assert(a@.subrange(0, i + 1) =~= a@.subrange(0, i as int).push(ca));
            assert(b@.subrange(0, i + 1) =~= b@.subrange(0, i as int).push(cb));
        }
        i = i + 1;
    }
    proof {
        assert(a@.skip(i as int).len() == la - i);
        assert(b@.skip(i as int).len() == lb - i);
    }
    if la == lb {
        proof {
            assert(a@ =~= a@.subrange(0, i as int));
            assert(b@ =~= b@.subrange(0, i as int));
        }
        NameOrder::Equal
    } else if la < lb {
        proof {
            assert(a@ != b@);
        }
        NameOrder::Less
    } else {
        proof {
            assert(a@ != b@);
        }
        NameOrder::Greater
    }
}

/// Checks `value` against the identifier grammar; `field` names what kind of
/// identifier it is, for the error.
fn checked_identifier(field: &'static str, value: &str) -> (r: Result<String, GraphError>)
    ensures
        match r {
            Ok(s) => s@ == value@ && is_identifier(value@),
            Err(e) => !is_identifier(value@) && (e matches GraphError::Identifier {
                field: f,
                value: v,
            } && f == field && v@ == value@),
        },
{
    let n = value.unicode_len();
    let mut ok = n > 0;
    if ok {
        let c = value.get_char(0);
        ok = 'a' <= c && c <= 'z';
    }
    let mut i: usize = 1;
    while ok && i < n
        invariant
            n == value@.len(),
            1 <= i,
            ok ==> n > 0 && ident_head(value@[0]),
            ok ==> forall|j: int| 1 <= j < i && j < n ==> #[trigger] ident_tail(value@[j]),
            !ok ==> !is_identifier(value@),
        decreases n - i,
    {
        let c = value.get_char(i);
        if !(('a' <= c && c <= 'z') || ('0' <= c && c <= '9') || c == '_') {
            proof {
                assert(!ident_tail(value@[i as int]));
            }
            ok = false;
        }
        i = i + 1;
    }
    if ok {
        Ok(value.to_owned())
    } else {
        Err(GraphError::Identifier { field, value: value.to_owned() })
    }
}

/// The name of a state or config entry, matching `[a-z][a-z0-9_]*`.
#[derive(Debug, PartialEq, Eq, PartialOrd, Ord, Hash)]
pub struct Key {
    name: String,
}

/// The id of a node in a graph, matching `[a-z][a-z0-9_]*`.
#[derive(Debug, PartialEq, Eq, PartialOrd, Ord, Hash)]
pub struct NodeId {
    name: String,
}

/// The label a run finishes with, matching `[a-z][a-z0-9_]*`.
#[derive(Debug, PartialEq, Eq, PartialOrd, Ord, Hash)]
pub struct EndLabel {
    name: String,
}

impl Clone for Key {
    fn clone(&self) -> (r: Self)
        ensures
            r@ == self@,
    {
        proof {
            use_type_invariant(self);
        }
        Key { name: self.name.clone() }
    }
}

impl View for Key {
    type V = Seq<char>;

    closed spec fn view(&self) -> Seq<char> {
        self.name@
    }
}

impl Clone for NodeId {
    fn clone(&self) -> (r: Self)
        ensures
            r@ == self@,
    {
        proof {
            use_type_invariant(self);
        }
        NodeId { name: self.name.clone() }
    }
}

impl View for NodeId {
    type V = Seq<char>;

    closed spec fn view(&self) -> Seq<char> {
        self.name@
    }
}

impl Clone for EndLabel {
    fn clone(&self) -> (r: Self)
        ensures
            r@ == self@,
    {
        proof {
            use_type_invariant(self);
        }
        EndLabel { name: self.name.clone() }
    }
}

impl View for EndLabel {
    type V = Seq<char>;

    closed spec fn view(&self) -> Seq<char> {
        self.name@
    }
}

impl Key {
    #[verifier::type_invariant]
    spec fn well_formed(self) -> bool {
        is_identifier(self.name@)
    }

    /// Validates `name` as a key.
    pub fn new(name: &str) -> (r: Result<Key, GraphError>)
        ensures
            r is Ok <==> is_identifier(name@),
            r matches Ok(k) ==> k@ == name@,
            r matches Err(e) ==> (e matches GraphError::Identifier { field, value }
                && field@ == "key"@ && value@ == name@),
    {
        match checked_identifier("key", name) {
            Ok(s) => Ok(Key { name: s }),
            Err(e) => Err(e),
        }
    }

    pub fn as_str(&self) -> (r: &str)
        ensures
            r@ == self@,
            is_identifier(r@),
    {
        proof {
            use_type_invariant(self);
        }
        self.name.as_str()
    }


    /// Whether two keys have the same name.
    pub fn same(&self, other: &Key) -> (r: bool)
        ensures
            r == (self@ == other@),
    {
        self.name == other.name
    }

    /// Compares two keys by name.
    pub fn order(&self, other: &Key) -> (r: NameOrder)
        ensures
            r == name_order(self@, other@),
            r == NameOrder::Greater ==> name_lt(other@, self@),
    {
        compare_names(self.name.as_str(), other.name.as_str())
    }

}

impl NodeId {
    #[verifier::type_invariant]
    spec fn well_formed(self) -> bool {
        is_identifier(self.name@)
    }

    /// Validates `name` as a node id.
    pub fn new(name: &str) -> (r: Result<NodeId, GraphError>)
        ensures
            r is Ok <==> is_identifier(name@),
            r matches Ok(k) ==> k@ == name@,
            r matches Err(e) ==> (e matches GraphError::Identifier { field, value }
                && field@ == "node id"@ && value@ == name@),
    {
        match checked_identifier("node id", name) {
            Ok(s) => Ok(NodeId { name: s }),
            Err(e) => Err(e),
        }
    }

    pub fn as_str(&self) -> (r: &str)
        ensures
            r@ == self@,
            is_identifier(r@),
    {
        proof {
            use_type_invariant(self);
        }
        self.name.as_str()
    }


    /// Whether two node ids have the same name.
    pub fn same(&self, other: &NodeId) -> (r: bool)
        ensures
            r == (self@ == other@),
    {
        self.name == other.name
    }

}

impl EndLabel {
    #[verifier::type_invariant]
    spec fn well_formed(self) -> bool {
        is_identifier(self.name@)
    }

    /// Validates `name` as an end label.
    pub fn new(name: &str) -> (r: Result<EndLabel, GraphError>)
        ensures
            r is Ok <==> is_identifier(name@),
            r matches Ok(k) ==> k@ == name@,
            r matches Err(e) ==> (e matches GraphError::Identifier { field, value }
                && field@ == "end label"@ && value@ == name@),
    {
        match checked_identifier("end label", name) {
            Ok(s) => Ok(EndLabel { name: s }),
            Err(e) => Err(e),
        }
    }

    pub fn as_str(&self) -> (r: &str)
        ensures
            r@ == self@,
            is_identifier(r@),
    {
        proof {
            use_type_invariant(self);
        }
        self.name.as_str()
    }


    /// Whether two labels have the same name.
    pub fn same(&self, other: &EndLabel) -> (r: bool)
        ensures
            r == (self@ == other@),
    {
        self.name == other.name
    }

}

} // verus!
