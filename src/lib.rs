//! Reads human-written durations such as `"1d 4h 23m 10s"` or `"2.5 hours"`
//! into whole seconds.

use vstd::prelude::*;

pub mod duration;
pub mod error;
pub mod grammar;
pub mod laws;
pub mod number;
pub mod parser;

pub use duration::Duration;
pub use error::ParseError;
pub use grammar::Unit;
pub use parser::parse_duration;

verus! {

} // verus!
