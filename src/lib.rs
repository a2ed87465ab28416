use vstd::prelude::*;

pub mod app;
pub mod config;
pub mod session;

verus! {

} // verus!
