use vstd::prelude::*;

use crate::error::GraphError;
use crate::ident::Key;
use crate::keymap::KeyMap;
use crate::state::kind::Kind;
use crate::state::schema::{Schema, copy_kinds};
use crate::state::state::{
    SCHEMA_VERSION, check_outcome, check_values, data_map, fits_kinds, mismatch, read_outcome,
};
use crate::state::value::{Datum, Value, data_of};

verus! {

/// The run's configuration: a value for every config key the schema
/// declares, each of its declared kind. `C` is the conversation type.
#[derive(Debug)]
pub struct Config<C> {
    schema: KeyMap<Kind>,
    values: KeyMap<Value<C>>,
}


impl<C> Config<C> {
    #[verifier::type_invariant]
    spec fn well_formed(self) -> bool {
        fits_kinds(self.schema@, data_map(self.values@))
    }

    /// The declared kind of each config key.
    pub closed spec fn kinds(&self) -> Map<Seq<char>, Kind> {
        self.schema@
    }

    /// The data under each key.
    pub closed spec fn data(&self) -> Map<Seq<char>, Datum<C>> {
        data_map(self.values@)
    }

    /// A config for the config keys of `schema`, holding `values`; refused as
    /// a state is.
    pub fn new(schema: &Schema, values: KeyMap<Value<C>>) -> (r: Result<Config<C>, GraphError>)
        ensures
            check_outcome(
                schema.config@,
                schema.config.names(),
                values.names(),
                data_of(values.values()),
                match r {
                    Ok(_) => Ok(()),
                    Err(e) => Err(e),
                },
            ),
            r is Ok <==> fits_kinds(schema.config@, data_map(values@)),
            r matches Ok(c) ==> c.kinds() == schema.config@ && c.data() == data_map(values@),
    {
        Config::assemble(copy_kinds(&schema.config), values)
    }

    /// A config holding `values` under the declared kinds `schema`.
    pub fn assemble(schema: KeyMap<Kind>, values: KeyMap<Value<C>>) -> (r: Result<
        Config<C>,
        GraphError,
    >)
        ensures
            check_outcome(
                schema@,
                schema.names(),
                values.names(),
                data_of(values.values()),
                match r {
                    Ok(_) => Ok(()),
                    Err(e) => Err(e),
                },
            ),
            r is Ok <==> fits_kinds(schema@, data_map(values@)),
            r matches Ok(c) ==> c.kinds() == schema@ && c.data() == data_map(values@),
    {
        match check_values(&schema, &values) {
            Ok(()) => Ok(Config { schema, values }),
            Err(e) => Err(e),
        }
    }

    /// A saved config: refused with `SchemaMismatch` when it was written
    /// under another version tag, else as `assemble`.
    pub fn restore(version: &str, schema: KeyMap<Kind>, values: KeyMap<Value<C>>) -> (r: Result<
        Config<C>,
        GraphError,
    >)
        ensures
            version@ != SCHEMA_VERSION@ ==> (r matches Err(e) && (e matches GraphError::SchemaMismatch {
                found,
            } && found@ == version@)),
            version@ == SCHEMA_VERSION@ ==> (r is Ok <==> fits_kinds(schema@, data_map(values@))),
            version@ == SCHEMA_VERSION@ ==> check_outcome(
                schema@,
                schema.names(),
                values.names(),
                data_of(values.values()),
                match r {
                    Ok(_) => Ok(()),
                    Err(e) => Err(e),
                },
            ),
            r matches Ok(c) ==> c.kinds() == schema@ && c.data() == data_map(values@),
    {
        let expected = String::from_str(SCHEMA_VERSION);
        let found = version.to_owned();
        if !(found == expected) {
            return Err(GraphError::SchemaMismatch { found });
        }
        Config::assemble(schema, values)
    }

    /// The declared kinds.
    pub fn kinds_map(&self) -> (r: &KeyMap<Kind>)
        ensures
            r@ == self.kinds(),
    {
        &self.schema
    }

    /// The stored values, in key order.
    pub fn values(&self) -> (r: &KeyMap<Value<C>>)
        ensures
            data_map(r@) == self.data(),
    {
        &self.values
    }

    /// The value under `key`; `MissingKey` when there is none.
    pub fn get(&self, key: &Key) -> (r: Result<&Value<C>, GraphError>)
        ensures
            match r {
                Ok(v) => self.data().contains_key(key@) && v@ == self.data()[key@],
                Err(e) => !self.data().contains_key(key@) && (e matches GraphError::MissingKey {
                    key: k,
                } && k@ == key@),
            },
    {
        match self.values.get(key) {
            Some(v) => Ok(v),
            None => Err(GraphError::MissingKey { key: key.clone() }),
        }
    }

    /// The value under `key`, as `get`.
    pub fn value(&self, key: &Key) -> (r: Result<&Value<C>, GraphError>)
        ensures
            match r {
                Ok(v) => self.data().contains_key(key@) && v@ == self.data()[key@],
                Err(e) => !self.data().contains_key(key@) && (e matches GraphError::MissingKey {
                    key: k,
                } && k@ == key@),
            },
    {
        self.get(key)
    }

    /// The int under `key`.
    pub fn integer(&self, key: &Key) -> (r: Result<i64, GraphError>)
        ensures
            read_outcome(self.data(), key@, Kind::Int, Kind::Int, match r { Ok(v) => Ok::<Datum<C>, GraphError>(Datum::<C>::Int(v)), Err(e) => Err(e) }),
    {
        match self.get(key)? {
            Value::Int(v) => Ok(*v),
            other => Err(mismatch(key, Kind::Int, other)),
        }
    }

    /// The bit pattern of the float under `key`.
    pub fn float_bits(&self, key: &Key) -> (r: Result<u64, GraphError>)
        ensures
            read_outcome(self.data(), key@, Kind::Float, Kind::Float, match r { Ok(v) => Ok::<Datum<C>, GraphError>(Datum::<C>::Float(v)), Err(e) => Err(e) }),
    {
        match self.get(key)? {
            Value::Float(v) => Ok(v.to_bits()),
            other => Err(mismatch(key, Kind::Float, other)),
        }
    }

    /// The string under `key`.
    pub fn str(&self, key: &Key) -> (r: Result<&str, GraphError>)
        ensures
            read_outcome(self.data(), key@, Kind::Str, Kind::Str, match r { Ok(v) => Ok::<Datum<C>, GraphError>(Datum::<C>::Str(v@)), Err(e) => Err(e) }),
    {
        match self.get(key)? {
            Value::Str(v) => Ok(v.as_str()),
            other => Err(mismatch(key, Kind::Str, other)),
        }
    }

    /// The bool under `key`.
    pub fn bool(&self, key: &Key) -> (r: Result<bool, GraphError>)
        ensures
            read_outcome(self.data(), key@, Kind::Bool, Kind::Bool, match r { Ok(v) => Ok::<Datum<C>, GraphError>(Datum::<C>::Bool(v)), Err(e) => Err(e) }),
    {
        match self.get(key)? {
            Value::Bool(v) => Ok(*v),
            other => Err(mismatch(key, Kind::Bool, other)),
        }
    }

    /// The items of the list under `key`; the kind a refusal names is the
    /// declared one.
    pub fn list(&self, key: &Key) -> (r: Result<&[Value<C>], GraphError>)
        ensures
            read_outcome(
                self.data(),
                key@,
                Kind::List { element: Box::new(Kind::Str) },
                self.kinds()[key@],
                match r {
                    Ok(v) => Ok::<Datum<C>, GraphError>(Datum::<C>::List(data_of(v@))),
                    Err(e) => Err(e),
                },
            ),
    {
        proof {
            use_type_invariant(self);
        }
        match self.get(key)? {
            Value::List(items) => Ok(items.as_slice()),
            other => match self.schema.get(key) {
                Some(expected) => Err(mismatch(key, expected.clone(), other)),
                None => Err(GraphError::UnknownKey { key: key.clone() }),
            },
        }
    }

    /// The conversation under `key`.
    pub fn conversation(&self, key: &Key) -> (r: Result<&C, GraphError>)
        ensures
            read_outcome(
                self.data(),
                key@,
                Kind::Conversation,
                Kind::Conversation,
                match r {
                    Ok(v) => Ok::<Datum<C>, GraphError>(Datum::<C>::Conversation(*v)),
                    Err(e) => Err(e),
                },
            ),
    {
        match self.get(key)? {
            Value::Conversation(c) => Ok(c),
            other => Err(mismatch(key, Kind::Conversation, other)),
        }
    }
}

} // verus!
