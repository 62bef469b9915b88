use vstd::prelude::*;

pub mod catalogue;
pub mod config;
pub mod crypto;
pub mod error;
pub mod identity;
pub mod message;
pub mod planner;
pub mod session;
pub mod timestamp;

verus! {

} // verus!
