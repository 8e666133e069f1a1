use vstd::prelude::*;

pub mod exec_output;
pub mod patch;
pub mod path;
pub mod policy;
pub mod safety;
pub mod shell;
pub mod text;

verus! {

} // verus!
