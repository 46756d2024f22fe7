//! The verified core of `em`, a client for the A-share data services of eastmoney.com.
use vstd::prelude::*;

pub mod api;
pub mod cmd;
pub mod date;
pub mod json;
pub mod secid;
pub mod table;
pub mod text;

verus! {

} // verus!
