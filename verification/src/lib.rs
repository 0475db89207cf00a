//! Smackup: the decisions and text handling of a small replicating backup
//! service, verified with Verus. Reading and writing files, the web server and
//! the environment live in the application crate around this library.

pub mod text;
pub mod number;
pub mod locations;
pub mod upload;
pub mod mirror;
pub mod listing;
pub mod serve;
