use vstd::prelude::*;

pub mod app;
pub mod collector;
pub mod config;
pub mod dotenv;
pub mod expand;
pub mod fmt;
pub mod gate;
pub mod logbuf;
pub mod manager;
pub mod pids;
pub mod rows;
pub mod runtime;
pub mod severity;
pub mod shell;
pub mod state;
pub mod strmap;
pub mod tail;
pub mod target;
pub mod text;
pub mod value;
pub mod view;

verus! {

} // verus!
