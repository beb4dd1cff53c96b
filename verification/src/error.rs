use vstd::prelude::*;
use vstd::string::StringExecFns;

use crate::ident::{EndLabel, Key, NodeId};
use crate::state::kind::{Kind, kind_text};

verus! {

/// Why a node produced no updates.
#[derive(Debug)]
pub enum NodeFault {
    /// The node returned an error, with its message.
    Returned(String),
    /// The node's updates did not apply to the state.
    Refused(Box<GraphError>),
    /// The node panicked, with the panic's message.
    Panic(String),
}

/// Everything that can go wrong while building or running a graph.
#[derive(Debug)]
#[allow(inconsistent_fields)]
pub enum GraphError {
    Identifier { field: &'static str, value: String },
    FloatNotFinite,
    MissingKey { key: Key },
    UnknownKey { key: Key },
    KindMismatch { key: Key, expected: Kind, found: &'static str },
    SchemaMismatch { found: String },
    SetConflict { key: Key },
    AppendNotList { key: Key },
    NotConversation { key: Key },
    /// A conversation refused an edit, with the conversation's message.
    Message(String),
    DuplicateNode { id: NodeId },
    MissingEntry,
    UnknownEntry { id: NodeId },
    NodeWithoutEdge { id: NodeId },
    EdgeFromUnknownNode { id: NodeId },
    UnknownNode { id: NodeId },
    EmptyEdge { node: NodeId },
    MapKeyMismatch { node: NodeId },
    NodeFailed { node: NodeId, source: NodeFault },
    AmbiguousEnd { labels: Vec<EndLabel> },
    BadInboxInput { key: Key },
    ToolNotCovered { name: String },
    ToolCoveredTwice { name: String },
    /// A tool node runs a tool the model node does not declare.
    ToolNotDeclared { name: String },
    /// The model asked for a tool that no tool node runs.
    PendingToolUnsatisfiable { name: String },
    Model { message: String },
    Structured { message: String },
}

/// The text std's `Debug` gives for a string: quoted, with its special
/// characters escaped.
pub uninterp spec fn debug_text(s: Seq<char>) -> Seq<char>;

/// The string as `{:?}` writes it. Calls std's `Debug` for `str`; the
/// contract claims only that the result is a function of the string (named
/// `debug_text`), not how the escaping goes.
#[verifier::external_body]
fn debug_quoted(s: &str) -> (r: String)
    ensures
        r@ == debug_text(s@),
{
    format!("{:?}", s)
}

/// The labels, a comma and a space between each two.
pub open spec fn labels_text(labels: Seq<EndLabel>) -> Seq<char>
    decreases labels.len(),
{
    if labels.len() == 0 {
        Seq::empty()
    } else if labels.len() == 1 {
        labels[0]@
    } else {
        labels_text(labels.drop_last()) + ", "@ + labels.last()@
    }
}

/// What a node fault says.
pub open spec fn fault_text(f: NodeFault) -> Seq<char>
    decreases f, 0int,
{
    match f {
        NodeFault::Returned(m) => "returned an error: "@ + m@,
        NodeFault::Refused(e) => "its updates were refused: "@ + error_text(*e),
        NodeFault::Panic(m) => "panicked: "@ + m@,
    }
}

/// What an error says.
pub open spec fn error_text(e: GraphError) -> Seq<char>
    decreases e, 1int,
{
    match e {
        GraphError::Identifier { field, value } => field@ + " "@ + debug_text(value@)
            + " is not a valid identifier [a-z][a-z0-9_]*"@,
        GraphError::FloatNotFinite => "a float value must be finite"@,
        GraphError::MissingKey { key } => "key "@ + key@ + " is declared but missing"@,
        GraphError::UnknownKey { key } => "key "@ + key@ + " is not declared in the schema"@,
        GraphError::KindMismatch { key, expected, found } => "key "@ + key@ + " expects kind "@
            + kind_text(expected) + " but found a "@ + found@ + " value"@,
        GraphError::SchemaMismatch { found } => "unexpected schema "@ + debug_text(found@),
        GraphError::SetConflict { key } => "key "@ + key@ + " is set twice in one batch"@,
        GraphError::AppendNotList { key } => "append requires key "@ + key@ + " to be a list"@,
        GraphError::NotConversation { key } => "key "@ + key@ + " is not a conversation"@,
        GraphError::Message(m) => "message error: "@ + m@,
        GraphError::DuplicateNode { id } => "node id "@ + id@ + " is registered twice"@,
        GraphError::MissingEntry => "the graph has no entry node"@,
        GraphError::UnknownEntry { id } => "entry "@ + id@ + " is not a registered node"@,
        GraphError::NodeWithoutEdge { id } => "node "@ + id@ + " has no edge"@,
        GraphError::EdgeFromUnknownNode { id } => "an edge starts from unknown node "@ + id@,
        GraphError::UnknownNode { id } => "node "@ + id@ + " is not in the graph"@,
        GraphError::EmptyEdge { node } => "the edge of node "@ + node@ + " returned no target"@,
        GraphError::MapKeyMismatch { node } => "the map node "@ + node@
            + " has inconsistent list/item/output/results keys"@,
        GraphError::NodeFailed { node, source } => "node "@ + node@ + " failed: "@ + fault_text(
            source,
        ),
        GraphError::AmbiguousEnd { labels } => "the run ended with several labels ["@ + labels_text(
            labels@,
        ) + "]"@,
        GraphError::BadInboxInput { key } => "an inbox input targets the invalid key "@ + key@,
        GraphError::ToolNotCovered { name } => "tool "@ + name@
            + " is declared on the llm node but no tool node runs it"@,
        GraphError::ToolCoveredTwice { name } => "tool "@ + name@
            + " is run by more than one tool node"@,
        GraphError::ToolNotDeclared { name } => "tool "@ + name@
            + " is run by a tool node but not declared on the llm node"@,
        GraphError::PendingToolUnsatisfiable { name } => "the model called tool "@ + name@
            + " but no tool node runs it"@,
        GraphError::Model { message } => "model call failed: "@ + message@,
        GraphError::Structured { message } => "structured output could not be read: "@ + message@,
    }
}

/// Appends the parts to `s`, in order.
fn append_all(s: &mut String, parts: &[&str])
    ensures
        final(s)@ == old(s)@ + strs_text(parts@),
{
    let n = parts.len();
    let mut i: usize = 0;
    while i < n
        invariant
            n == parts@.len(),
            i <= n,
            s@ == old(s)@ + strs_text(parts@.take(i as int)),
        decreases n - i,
    {
        proof {
            assert(parts@.take(i + 1).drop_last() =~= parts@.take(i as int));
        }
        s.append(parts[i]);
        proof {
            assert(s@ =~= old(s)@ + strs_text(parts@.take(i + 1)));
        }
        i = i + 1;
    }
    assert(parts@.take(n as int) =~= parts@);
}

/// The texts one after another.
pub open spec fn strs_text(parts: Seq<&str>) -> Seq<char>
    decreases parts.len(),
{
    if parts.len() == 0 {
        Seq::empty()
    } else {
        strs_text(parts.drop_last()) + parts.last()@
    }
}

/// The texts joined.
fn joined(parts: &[&str]) -> (r: String)
    ensures
        r@ == strs_text(parts@),
{
    let mut s = String::new();
    append_all(&mut s, parts);
    s
}

impl NodeFault {
    /// What the fault says (see `fault_text`).
    pub fn to_string(&self) -> (r: String)
        ensures
            r@ == fault_text(*self),
        decreases self, 0int,
    {
        proof {
            reveal_with_fuel(strs_text, 3);
        }
        match self {
            NodeFault::Returned(m) => joined(&["returned an error: ", m.as_str()]),
            NodeFault::Refused(e) => {
                let inner = (**e).to_string();
                joined(&["its updates were refused: ", inner.as_str()])
            },
            NodeFault::Panic(m) => joined(&["panicked: ", m.as_str()]),
        }
    }
}

impl GraphError {
    /// What the error says (see `error_text`).
    pub fn to_string(&self) -> (r: String)
        ensures
            r@ == error_text(*self),
        decreases self, 1int,
    {
        proof {
            reveal_with_fuel(strs_text, 8);
        }
        match self {
            GraphError::Identifier { field, value } => {
                let quoted = debug_quoted(value.as_str());
                joined(&[field, " ", quoted.as_str(), " is not a valid identifier [a-z][a-z0-9_]*"])
            },
            GraphError::FloatNotFinite => String::from_str("a float value must be finite"),
            GraphError::MissingKey { key } => joined(&["key ", key.as_str(), " is declared but missing"]),
            GraphError::UnknownKey { key } => joined(
                &["key ", key.as_str(), " is not declared in the schema"],
            ),
            GraphError::KindMismatch { key, expected, found } => {
                let kind = expected.to_string();
                joined(
                    &[
                        "key ",
                        key.as_str(),
                        " expects kind ",
                        kind.as_str(),
                        " but found a ",
                        found,
                        " value",
                    ],
                )
            },
            GraphError::SchemaMismatch { found } => {
                let quoted = debug_quoted(found.as_str());
                joined(&["unexpected schema ", quoted.as_str()])
            },
            GraphError::SetConflict { key } => joined(&["key ", key.as_str(), " is set twice in one batch"]),
            GraphError::AppendNotList { key } => joined(
                &["append requires key ", key.as_str(), " to be a list"],
            ),
            GraphError::NotConversation { key } => joined(&["key ", key.as_str(), " is not a conversation"]),
            GraphError::Message(m) => joined(&["message error: ", m.as_str()]),
            GraphError::DuplicateNode { id } => joined(&["node id ", id.as_str(), " is registered twice"]),
            GraphError::MissingEntry => String::from_str("the graph has no entry node"),
            GraphError::UnknownEntry { id } => joined(&["entry ", id.as_str(), " is not a registered node"]),
            GraphError::NodeWithoutEdge { id } => joined(&["node ", id.as_str(), " has no edge"]),
            GraphError::EdgeFromUnknownNode { id } => joined(
                &["an edge starts from unknown node ", id.as_str()],
            ),
            GraphError::UnknownNode { id } => joined(&["node ", id.as_str(), " is not in the graph"]),
            GraphError::EmptyEdge { node } => joined(
                &["the edge of node ", node.as_str(), " returned no target"],
            ),
            GraphError::MapKeyMismatch { node } => joined(
                &[
                    "the map node ",
                    node.as_str(),
                    " has inconsistent list/item/output/results keys",
                ],
            ),
            GraphError::NodeFailed { node, source } => {
                let inner = source.to_string();
                joined(&["node ", node.as_str(), " failed: ", inner.as_str()])
            },
            GraphError::AmbiguousEnd { labels } => {
                let listed = labels_joined(labels);
                joined(&["the run ended with several labels [", listed.as_str(), "]"])
            },
            GraphError::BadInboxInput { key } => joined(
                &["an inbox input targets the invalid key ", key.as_str()],
            ),
            GraphError::ToolNotCovered { name } => joined(
                &["tool ", name.as_str(), " is declared on the llm node but no tool node runs it"],
            ),
            GraphError::ToolCoveredTwice { name } => joined(
                &["tool ", name.as_str(), " is run by more than one tool node"],
            ),
            GraphError::ToolNotDeclared { name } => joined(
                &["tool ", name.as_str(), " is run by a tool node but not declared on the llm node"],
            ),
            GraphError::PendingToolUnsatisfiable { name } => joined(
                &["the model called tool ", name.as_str(), " but no tool node runs it"],
            ),
            GraphError::Model { message } => joined(&["model call failed: ", message.as_str()]),
            GraphError::Structured { message } => joined(
                &["structured output could not be read: ", message.as_str()],
            ),
        }
    }
}

/// The labels joined with a comma and a space (see `labels_text`).
fn labels_joined(labels: &Vec<EndLabel>) -> (r: String)
    ensures
        r@ == labels_text(labels@),
{
    let n = labels.len();
    let mut s = String::new();
    if n == 0 {
        return s;
    }
    s.append(labels[0].as_str());
    let mut i: usize = 1;
    assert(labels@.take(1).drop_last() =~= Seq::<EndLabel>::empty());
    while i < n
        invariant
            n == labels@.len(),
            1 <= i <= n,
            s@ == labels_text(labels@.take(i as int)),
        decreases n - i,
    {
        proof {
            assert(labels@.take(i + 1).drop_last() =~= labels@.take(i as int));
        }
        s.append(", ");
        s.append(labels[i].as_str());
        i = i + 1;
    }
    assert(labels@.take(n as int) =~= labels@);
    s
}

} // verus!
