use vstd::prelude::*;
use vstd::string::StringExecFns;

verus! {

/// The kind of value a state or config key holds.
#[derive(Debug, PartialEq, Eq)]
pub enum Kind {
    Int,
    Float,
    Str,
    Bool,
    List { element: Box<Kind> },
    Conversation,
}

impl Clone for Kind {
    fn clone(&self) -> (r: Kind)
        ensures
            r == *self,
        decreases self,
    {
        match self {
            Kind::Int => Kind::Int,
            Kind::Float => Kind::Float,
            Kind::Str => Kind::Str,
            Kind::Bool => Kind::Bool,
            Kind::List { element } => Kind::List { element: Box::new((**element).clone()) },
            Kind::Conversation => Kind::Conversation,
        }
    }
}

impl Kind {
    /// The kind of a list whose items are all of kind `element`.
    pub fn list(element: Kind) -> (r: Kind)
        ensures
            r == (Kind::List { element: Box::new(element) }),
    {
        Kind::List { element: Box::new(element) }
    }

    /// Whether two kinds are the same.
    pub fn same(&self, other: &Kind) -> (r: bool)
        ensures
            r == (*self == *other),
        decreases self,
    {
        match (self, other) {
            (Kind::Int, Kind::Int) => true,
            (Kind::Float, Kind::Float) => true,
            (Kind::Str, Kind::Str) => true,
            (Kind::Bool, Kind::Bool) => true,
            (Kind::Conversation, Kind::Conversation) => true,
            (Kind::List { element: a }, Kind::List { element: b }) => (**a).same(&**b),
            _ => false,
        }
    }
}

/// How a kind is written: its name, and a list kind with its element kind
/// in angle brackets.
pub open spec fn kind_text(k: Kind) -> Seq<char>
    decreases k,
{
    match k {
        Kind::Int => "int"@,
        Kind::Float => "float"@,
        Kind::Str => "str"@,
        Kind::Bool => "bool"@,
        Kind::List { element } => "list<"@ + kind_text(*element) + ">"@,
        Kind::Conversation => "conversation"@,
    }
}

impl Kind {
    /// The kind as it is written (see `kind_text`).
    pub fn to_string(&self) -> (r: String)
        ensures
            r@ == kind_text(*self),
        decreases self,
    {
        match self {
            Kind::Int => String::from_str("int"),
            Kind::Float => String::from_str("float"),
            Kind::Str => String::from_str("str"),
            Kind::Bool => String::from_str("bool"),
            Kind::List { element } => {
                let mut s = String::from_str("list<");
                let inner = (**element).to_string();
                s.append(inner.as_str());
                s.append(">");
                s
            },
            Kind::Conversation => String::from_str("conversation"),
        }
    }
}

} // verus!
