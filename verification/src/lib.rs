//! Key-chord menus: a tree of single-character bindings, the resolution of
//! typed characters against it, and the session that a user leads through it.

pub mod config;
pub mod launch;
pub mod parser;
pub mod paths;
pub mod session;
pub mod strings;
pub mod whichtree;
