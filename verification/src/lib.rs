pub mod error;
pub mod graph;
pub mod ident;
pub mod keymap;
pub mod laws;
pub mod observe;
pub mod react;
pub mod run;
pub mod session;
pub mod state;
pub mod update;

pub use error::{GraphError, NodeFault};
pub use graph::builder::GraphBuilder;
pub use graph::edge::{Always, FnEdge, Target};
pub use graph::graph::Graph;
pub use graph::map::MapNode;
pub use graph::node::FnNode;
pub use ident::{EndLabel, Key, NodeId};
pub use keymap::KeyMap;
pub use observe::NoopObserver;
pub use react::system::{Source, build_system};
pub use run::checkpoint::{Checkpoint, Outcome, RunFailure};
pub use run::cursor::Cursor;
pub use run::inbox::Message;
pub use session::{Ended, SessionCore, Start};
pub use state::config::Config;
pub use state::kind::Kind;
pub use state::schema::{Schema, SchemaBuilder};
pub use state::state::{SCHEMA_VERSION, State};
pub use state::value::{Finite, Value};
pub use update::{Transcript, Update};
