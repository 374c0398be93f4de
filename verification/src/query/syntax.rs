//! The tags of a query message.
use vstd::prelude::*;

pub mod query_type;

verus! {

pub const QUERY_TYPE: u32 = 0;
pub const SYMBOL: u32 = 1;
pub const SENTENCE: u32 = 2;
pub const STT_DATE: u32 = 3;
pub const EDD_DATE: u32 = 4;

} // verus!
