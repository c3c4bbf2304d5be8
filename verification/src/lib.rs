use vstd::prelude::*;

pub mod text;
pub mod counts;
pub mod page;
pub mod address;
pub mod domain;
pub mod op;
pub mod ops;

verus! {

} // verus!
