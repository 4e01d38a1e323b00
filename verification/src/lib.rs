//! Verified core of a daily OHLCV ingestion pipeline.
//!
//! The library normalizes per-date price records into a typed table,
//! re-validates the table's shape, and orders its rows chronologically.
//! Network transport, JSON decoding and the columnar file encoding are
//! left to the surrounding application, which hands this crate plain
//! values and receives plain values back.

use vstd::prelude::*;

pub mod normalize;
pub mod num;
pub mod order;
pub mod records;
pub mod table;

verus! {

use vstd::string::StringExecFns;

/// Render an error line for the logging sink: the fixed prefix
/// followed by the message, exactly as the sink expects it.
pub fn log_error(message: &str) -> (line: String)
    ensures
        line@ == "Error: "@ + message@,
{
    let mut line = String::from_str("Error: ");
    line.append(message);
    line
}

} // verus!
