pub mod capabilities;
pub mod models;
pub mod sql;
pub mod util;
pub mod tables;
