//! A task launcher: a small grammar for lines that name tasks, a catalog of
//! discovered tasks, and the resolution of one against the other.

pub mod parser;
pub mod resolver;
pub mod scan;
pub mod session;
pub mod spelling;
pub mod text;
pub mod worker;
