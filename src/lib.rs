//! Extraction of outbound HTTP request records and the build version from
//! application log lines.
use vstd::prelude::*;

pub mod error;
pub mod http;
pub mod json;
pub mod line;
pub mod message;
pub mod output;
pub mod scan;
pub mod text;

verus! {

} // verus!
