//! Small helpers of the session.
pub mod caster;
pub mod symbol;
pub mod times;
