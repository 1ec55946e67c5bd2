use vstd::prelude::*;

pub mod path;
pub mod table;
pub mod value;
pub mod nix;
pub mod config;
pub mod filter;
pub mod laws;
pub mod project;

verus! {

} // verus!
