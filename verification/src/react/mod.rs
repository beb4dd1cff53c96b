pub mod system;
pub mod tools;
