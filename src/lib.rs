use vstd::prelude::*;

pub mod json;
pub mod store;
pub mod manager;
pub mod commands;
pub mod configuration;

verus! {

} // verus!
