use vstd::prelude::*;
use vstd::string::StringExecFns;

use crate::error::GraphError;
use crate::ident::Key;
use crate::state::config::Config;
use crate::state::kind::Kind;
use crate::state::state::State;
use crate::state::value::{Datum, Value, data_of, datum_tag, lemma_data_of_index, lemma_data_of_len};

verus! {

/// Where a part of a system prompt is read: a key of the config, or of the
/// state.
#[derive(Debug)]
pub enum Source {
    Config(Key),
    State(Key),
}

/// The key a source reads.
pub fn source_key(source: &Source) -> (r: &Key)
    ensures
        r@ == source_name(*source),
{
    match source {
        Source::Config(key) => key,
        Source::State(key) => key,
    }
}

/// The name of the key a source reads.
pub open spec fn source_name(source: Source) -> Seq<char> {
    match source {
        Source::Config(key) => key@,
        Source::State(key) => key@,
    }
}

/// Why a system prompt could not be built, as data.
pub enum SystemRefusal {
    /// The source's key holds no value.
    Missing(Seq<char>),
    /// The source's key holds a value (or a list item) with this tag, not a
    /// string.
    NotText(Seq<char>, Seq<char>),
}

/// `e` is the error that reports `f`.
pub open spec fn is_system_refusal(e: GraphError, f: SystemRefusal) -> bool {
    match f {
        SystemRefusal::Missing(n) => e matches GraphError::MissingKey { key } && key@ == n,
        SystemRefusal::NotText(n, t) => e matches GraphError::KindMismatch { key, expected, found }
            && key@ == n && expected == Kind::Str && found@ == t,
    }
}

/// The position of the first item that is not a string.
pub open spec fn first_non_text<C>(items: Seq<Datum<C>>) -> Option<int>
    decreases items.len(),
{
    if items.len() == 0 {
        None
    } else {
        match first_non_text(items.drop_last()) {
            Some(i) => Some(i),
            None => if items.last() is Str {
                None
            } else {
                Some(items.len() - 1)
            },
        }
    }
}

/// The texts of items that are all strings.
pub open spec fn texts_of<C>(items: Seq<Datum<C>>) -> Seq<Seq<char>> {
    items.map_values(|d: Datum<C>| d->Str_0)
}

/// The parts of a system prompt a value gives: a string is one part; a list
/// of strings gives one part per item; otherwise the tag of the value, or
/// of the first item that is not a string, is refused.
pub open spec fn text_parts<C>(d: Datum<C>) -> Result<Seq<Seq<char>>, Seq<char>> {
    match d {
        Datum::Str(t) => Ok(seq![t]),
        Datum::List(items) => match first_non_text(items) {
            Some(i) => Err(datum_tag(items[i])),
            None => Ok(texts_of(items)),
        },
        _ => Err(datum_tag(d)),
    }
}

/// The parts the sources give, in order: each source's key is read from the
/// config or the state; the first source that cannot be read is refused.
pub open spec fn system_parts<C>(
    sources: Seq<Source>,
    config: Map<Seq<char>, Datum<C>>,
    state: Map<Seq<char>, Datum<C>>,
) -> Result<Seq<Seq<char>>, SystemRefusal>
    decreases sources.len(),
{
    if sources.len() == 0 {
        Ok(Seq::empty())
    } else {
        match system_parts(sources.drop_last(), config, state) {
            Err(f) => Err(f),
            Ok(ps) => {
                let name = source_name(sources.last());
                let data = match sources.last() {
                    Source::Config(_) => config,
                    Source::State(_) => state,
                };
                if !data.contains_key(name) {
                    Err(SystemRefusal::Missing(name))
                } else {
                    match text_parts(data[name]) {
                        Ok(more) => Ok(ps + more),
                        Err(tag) => Err(SystemRefusal::NotText(name, tag)),
                    }
                }
            },
        }
    }
}

/// The parts joined, a blank line between each two.
pub open spec fn join_parts(parts: Seq<Seq<char>>) -> Seq<char>
    decreases parts.len(),
{
    if parts.len() == 0 {
        Seq::empty()
    } else if parts.len() == 1 {
        parts[0]
    } else {
        join_parts(parts.drop_last()) + seq!['\n', '\n'] + parts.last()
    }
}

/// The texts of the parts.
pub open spec fn texts(parts: Seq<String>) -> Seq<Seq<char>> {
    parts.map_values(|s: String| s@)
}

/// The parts a value gives (see `text_parts`); a refusal names `key`.
fn string_parts<C>(key: &Key, value: &Value<C>) -> (r: Result<Vec<String>, GraphError>)
    ensures
        match text_parts(value@) {
            Ok(ps) => r matches Ok(v) && texts(v@) == ps,
            Err(tag) => r matches Err(e) && is_system_refusal(e, SystemRefusal::NotText(key@, tag)),
        },
{
    match value {
        Value::Str(text) => {
            let mut parts: Vec<String> = Vec::new();
            parts.push(text.clone());
            assert(texts(parts@) =~= seq![text@]);
            Ok(parts)
        },
        Value::List(items) => {
            let ghost ds = data_of(items@);
            proof {
                lemma_data_of_len(items@);
                assert(value@ == Datum::<C>::List(ds));
            }
            let n = items.len();
            let mut parts: Vec<String> = Vec::new();
            let mut i: usize = 0;
            while i < n
                invariant
                    n == items@.len(),
                    ds == data_of(items@),
                    value@ == Datum::<C>::List(ds),
                    ds.len() == n,
                    i <= n,
                    first_non_text(ds.take(i as int)) is None,
                    texts(parts@) == texts_of(ds.take(i as int)),
                decreases n - i,
            {
                proof {
                    lemma_data_of_index(items@, i as int);
                    assert(ds.take(i + 1).drop_last() =~= ds.take(i as int));
                    assert(ds.take(i + 1).last() == ds[i as int]);
                }
                match &items[i] {
                    Value::Str(text) => {
                        let ghost before = texts(parts@);
                        parts.push(text.clone());
                        assert(texts(parts@) =~= before.push(text@));
                        assert(texts_of(ds.take(i + 1)) =~= texts_of(ds.take(i as int)).push(
                            text@,
                        ));
                    },
                    other => {
                        proof {
                            assert(ds[i as int] == other@);
                            assert(!(ds[i as int] is Str));
                            lemma_first_non_text_prefix(ds, i as int + 1, i as int);
                            assert(text_parts(value@) == Err::<Seq<Seq<char>>, Seq<char>>(
                                datum_tag(other@),
                            ));
                        }
                        return Err(
                            GraphError::KindMismatch {
                                key: key.clone(),
                                expected: Kind::Str,
                                found: other.tag(),
                            },
                        );
                    },
                }
                i = i + 1;
            }
            proof {
                assert(ds.take(n as int) =~= ds);
            }
            Ok(parts)
        },
        other => Err(
            GraphError::KindMismatch { key: key.clone(), expected: Kind::Str, found: other.tag() },
        ),
    }
}

/// Once an item that is not a string is found, the longer prefixes find the
/// same one.
proof fn lemma_first_non_text_prefix<C>(ds: Seq<Datum<C>>, j: int, k: int)
    requires
        0 <= j <= ds.len(),
        first_non_text(ds.take(j)) == Some(k),
    ensures
        first_non_text(ds) == Some(k),
    decreases ds.len() - j,
{
    if j < ds.len() {
        assert(ds.take(j + 1).drop_last() =~= ds.take(j));
        lemma_first_non_text_prefix(ds, j + 1, k);
    } else {
        assert(ds.take(j) =~= ds);
    }
}

/// Builds a system prompt from the sources, in order: each source's key is
/// read from the config or the state and must hold a string or a list of
/// strings (else `MissingKey`, or `KindMismatch` expecting `Str` with the
/// tag found). The parts are joined with a blank line between each two; no
/// part gives no prompt.
pub fn build_system<C>(sources: &Vec<Source>, state: &State<C>, config: &Config<C>) -> (r: Result<
    Option<String>,
    GraphError,
>)
    ensures
        match system_parts(sources@, config.data(), state.data()) {
            Ok(ps) => r matches Ok(o) && if ps.len() == 0 {
                o is None
            } else {
                o matches Some(s) && s@ == join_parts(ps)
            },
            Err(f) => r matches Err(e) && is_system_refusal(e, f),
        },
{
    let n = sources.len();
    let mut parts: Vec<String> = Vec::new();
    let mut i: usize = 0;
    proof {
        assert(sources@.take(0) =~= Seq::<Source>::empty());
        assert(texts(parts@) =~= Seq::<Seq<char>>::empty());
    }
    while i < n
        invariant
            n == sources@.len(),
            i <= n,
            system_parts(sources@.take(i as int), config.data(), state.data()) == Ok::<
                Seq<Seq<char>>,
                SystemRefusal,
            >(texts(parts@)),
        decreases n - i,
    {
        proof {
            assert(sources@.take(i + 1).drop_last() =~= sources@.take(i as int));
            assert(sources@.take(i + 1).last() == sources@[i as int]);
        }
        let source = &sources[i];
        let key = source_key(source);
        let value = match source {
            Source::Config(_) => config.value(key),
            Source::State(_) => state.value(key),
        };
        let value = match value {
            Ok(v) => v,
            Err(e) => {
                proof {
                    lemma_system_sticks(sources@, config.data(), state.data(), i as int + 1);
                }
                return Err(e);
            },
        };
        match string_parts(key, value) {
            Ok(more) => {
                let ghost before = parts@;
                let ghost added = more@;
                let mut more = more;
                parts.append(&mut more);
                assert(parts@ =~= before + added);
                assert(texts(parts@) =~= texts(before) + texts(added));
            },
            Err(e) => {
                proof {
                    lemma_system_sticks(sources@, config.data(), state.data(), i as int + 1);
                }
                return Err(e);
            },
        }
        i = i + 1;
    }
    proof {
        assert(sources@.take(n as int) =~= sources@);
    }
    if parts.len() == 0 {
        return Ok(None);
    }
    let sep = "\n\n";
    proof {
        reveal_strlit("\n\n");
    }
    let ghost ps = texts(parts@);
    let mut joined = parts[0].clone();
    let m = parts.len();
    let mut j: usize = 1;
    proof {
        assert(ps.take(1) =~= seq![ps[0]]);
    }
    while j < m
        invariant
            m == parts@.len(),
            1 <= j <= m,
            ps == texts(parts@),
            sep@ == seq!['\n', '\n'],
            joined@ == join_parts(ps.take(j as int)),
        decreases m - j,
    {
        proof {
            assert(ps.take(j + 1).drop_last() =~= ps.take(j as int));
            assert(ps.take(j + 1).last() == parts@[j as int]@);
        }
        joined.append(sep);
        joined.append(parts[j].as_str());
        j = j + 1;
    }
    proof {
        assert(ps.take(m as int) =~= ps);
    }
    Ok(Some(joined))
}

/// Once a source is refused, more sources change nothing.
proof fn lemma_system_sticks<C>(
    sources: Seq<Source>,
    config: Map<Seq<char>, Datum<C>>,
    state: Map<Seq<char>, Datum<C>>,
    j: int,
)
    requires
        0 < j <= sources.len(),
        system_parts(sources.take(j), config, state) is Err,
    ensures
        system_parts(sources, config, state) == system_parts(sources.take(j), config, state),
    decreases sources.len() - j,
{
    if j < sources.len() {
        assert(sources.take(j + 1).drop_last() =~= sources.take(j));
        lemma_system_sticks(sources, config, state, j + 1);
    } else {
        assert(sources.take(j) =~= sources);
    }
}

} // verus!
