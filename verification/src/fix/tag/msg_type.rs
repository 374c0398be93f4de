//! MsgType(35) values.
use vstd::prelude::*;

verus! {

pub const LOGON: &'static str = "A";
pub const LOGOUT: &'static str = "5";
pub const HEARTBEAT: &'static str = "0";
pub const TEST_REQUEST: &'static str = "1";
pub const RESEND_REQUEST: &'static str = "2";
pub const REJECT: &'static str = "3";
pub const SEQUENCE_RESET: &'static str = "4";
pub const MARKET_DATA_REQUEST: &'static str = "V";
pub const MARKET_DATA_SNAPSHOT_FULL_REFRESH: &'static str = "W";
pub const MARKET_DATA_INCREMENTAL_REFRESH: &'static str = "X";
pub const NEW_ORDER_SINGLE: &'static str = "D";
pub const ORDER_CANCEL_REQUEST: &'static str = "F";
pub const ORDER_CANCEL_REPLACE_REQUEST: &'static str = "G";
pub const EXECUTION_REPORT: &'static str = "8";
pub const ORDER_CANCEL_REJECT: &'static str = "9";

} // verus!
