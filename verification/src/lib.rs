//! A runtime that serves HTTP requests by handlers written in a script.
//!
//! The library holds what the runtime decides: how an import is resolved and
//! a project bundled, how a route is matched and a request made ready for its
//! handler, when a project is built again and when its router is swapped.
//! Reading files, listening on a socket and running the script are left to
//! the program around it.
pub mod builder;
pub mod bundle;
pub mod cli;
pub mod config;
pub mod core_modules;
pub mod engine;
pub mod error;
pub mod import_map;
pub mod module;
pub mod path;
pub mod pattern;
pub mod route_table;
pub mod router;
pub mod script;
pub mod server;
pub mod string_map;
pub mod text;
pub mod url;
pub mod watch;
