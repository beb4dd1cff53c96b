pub mod kind;
pub mod schema;
pub mod value;
pub mod state;
pub mod apply;
pub mod config;
