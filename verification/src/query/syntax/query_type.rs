//! The kinds of queries.
use vstd::prelude::*;

verus! {

pub const SQL_CMD: &'static str = "0";
pub const JOIN_AS_OF: &'static str = "1";

} // verus!
