use vstd::prelude::*;

use crate::ident::Key;
use crate::keymap::KeyMap;
use crate::state::kind::Kind;

verus! {

/// The declared kinds of the state keys and of the config keys.
#[derive(Debug)]
pub struct Schema {
    pub state: KeyMap<Kind>,
    pub config: KeyMap<Kind>,
}

impl Schema {
    pub fn new(state: KeyMap<Kind>, config: KeyMap<Kind>) -> (r: Schema)
        ensures
            r.state@ == state@,
            r.config@ == config@,
    {
        Schema { state, config }
    }

    /// A builder that starts with no keys.
    pub fn builder() -> (r: SchemaBuilder)
        ensures
            r.state_kinds() == Map::<Seq<char>, Kind>::empty(),
            r.config_kinds() == Map::<Seq<char>, Kind>::empty(),
    {
        SchemaBuilder { state: KeyMap::new(), config: KeyMap::new() }
    }

    /// A schema with no keys.
    pub fn empty() -> (r: Schema)
        ensures
            r.state@ == Map::<Seq<char>, Kind>::empty(),
            r.config@ == Map::<Seq<char>, Kind>::empty(),
    {
        Schema { state: KeyMap::new(), config: KeyMap::new() }
    }
}

/// Collects key declarations; a key declared twice keeps its last kind.
pub struct SchemaBuilder {
    state: KeyMap<Kind>,
    config: KeyMap<Kind>,
}

impl SchemaBuilder {
    pub closed spec fn state_kinds(&self) -> Map<Seq<char>, Kind> {
        self.state@
    }

    pub closed spec fn config_kinds(&self) -> Map<Seq<char>, Kind> {
        self.config@
    }

    /// Declares a state key.
    pub fn state(self, key: Key, kind: Kind) -> (r: SchemaBuilder)
        ensures
            r.state_kinds() == self.state_kinds().insert(key@, kind),
            r.config_kinds() == self.config_kinds(),
    {
        let mut b = self;
        b.state.insert(key, kind);
        b
    }

    /// Declares a config key.
    pub fn config(self, key: Key, kind: Kind) -> (r: SchemaBuilder)
        ensures
            r.config_kinds() == self.config_kinds().insert(key@, kind),
            r.state_kinds() == self.state_kinds(),
    {
        let mut b = self;
        b.config.insert(key, kind);
        b
    }

    pub fn build(self) -> (r: Schema)
        ensures
            r.state@ == self.state_kinds(),
            r.config@ == self.config_kinds(),
    {
        Schema { state: self.state, config: self.config }
    }
}

/// The map of a schema that a declaration goes to.
#[derive(Debug, Clone, Copy)]
pub enum Declared {
    State,
    Config,
}

/// The kinds that a run of declarations leaves in the map `which`: each key
/// declared there, with the kind of its last declaration there.
pub open spec fn declared_kinds(decls: Seq<(Declared, Seq<char>, Kind)>, which: Declared) -> Map<
    Seq<char>,
    Kind,
>
    decreases decls.len(),
{
    if decls.len() == 0 {
        Map::empty()
    } else {
        let m = declared_kinds(decls.drop_last(), which);
        let d = decls.last();
        if d.0 == which {
            m.insert(d.1, d.2)
        } else {
            m
        }
    }
}

/// `after` is `before` with the declaration `d` made, as `SchemaBuilder::state`
/// and `SchemaBuilder::config` make one.
pub open spec fn declares(before: SchemaBuilder, d: (Declared, Seq<char>, Kind), after: SchemaBuilder) -> bool {
    match d.0 {
        Declared::State => after.state_kinds() == before.state_kinds().insert(d.1, d.2)
            && after.config_kinds() == before.config_kinds(),
        Declared::Config => after.config_kinds() == before.config_kinds().insert(d.1, d.2)
            && after.state_kinds() == before.state_kinds(),
    }
}

/// A copy of a map of kinds: the same map.
pub(crate) fn copy_kinds(m: &KeyMap<Kind>) -> (r: KeyMap<Kind>)
    ensures
        r@ == m@,
        r.names() == m.names(),
{
    let r = m.clone();
    proof {
        assert forall|i: int| 0 <= i < m.values().len() implies r.values()[i] == m.values()[i] by {
            assert(cloned::<Kind>(m.values()[i], r.values()[i]));
        }
        assert(r.values() =~= m.values());
    }
    r
}

} // verus!
