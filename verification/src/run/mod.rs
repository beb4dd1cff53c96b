pub mod checkpoint;
pub mod cursor;
pub mod inbox;
pub mod settle;
pub mod superstep;
