use vstd::prelude::*;

pub mod text;
pub mod arity;
pub mod model;
pub mod context;
pub mod paths;
pub mod verify;
pub mod date;
pub mod git;
pub mod tools;
pub mod numbers;
pub mod history;
pub mod cache;
pub mod lexical;
pub mod syntax;
pub mod params;
pub mod calls;
pub mod mismatch;
pub mod store;
pub mod blame;
pub mod files;
pub mod workflow;
pub mod hotspot;
pub mod diffview;
pub mod listing;

verus! {

} // verus!
