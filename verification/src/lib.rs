use vstd::prelude::*;

pub mod agent;
pub mod cli;
pub mod clock;
pub mod commands;
pub mod entropy;
pub mod foresee;
pub mod observe;
pub mod radar;
pub mod select;
pub mod text;
pub mod timeline;
pub mod territory;

verus! {

} // verus!
