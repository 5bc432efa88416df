//! A catalog of files: their names, paths, sizes and xxHash checksums, and
//! the tags applied to them. The library holds the catalog's records and the
//! decisions that the command line and the web front end take on them.

pub mod models;
pub mod mods;
pub mod server;
