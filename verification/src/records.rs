//! The provider's per-date records and the pipeline's error values.
//!
//! A response is a sequence of `(date, record)` pairs in whatever
//! order the transport handed them over; the order is unspecified and
//! only the chronological sort downstream fixes it.  Every numeric
//! field arrives as a string and is validated during normalization.

use vstd::prelude::*;

verus! {

/// One trading day's raw fields, all string-encoded as the provider
/// sends them.
#[derive(Debug)]
pub struct DailyData {
    pub open: String,
    pub high: String,
    pub low: String,
    pub close: String,
    pub volume: String,
}

pub ghost struct DailyDataView {
    pub open: Seq<char>,
    pub high: Seq<char>,
    pub low: Seq<char>,
    pub close: Seq<char>,
    pub volume: Seq<char>,
}

impl View for DailyData {
    type V = DailyDataView;

    open spec fn view(&self) -> DailyDataView {
        DailyDataView {
            open: self.open@,
            high: self.high@,
            low: self.low@,
            close: self.close@,
            volume: self.volume@,
        }
    }
}

pub open spec fn entries_view(v: Seq<(String, DailyData)>) -> Seq<(Seq<char>, DailyDataView)> {
    v.map_values(|e: (String, DailyData)| (e.0@, e.1@))
}

/// The decoded response envelope: the per-date records keyed by their
/// ISO date strings.  Duplicate dates are preserved, not merged.
#[derive(Debug)]
pub struct AlphaVantageResponse {
    pub time_series: Vec<(String, DailyData)>,
}

impl View for AlphaVantageResponse {
    type V = Seq<(Seq<char>, DailyDataView)>;

    open spec fn view(&self) -> Seq<(Seq<char>, DailyDataView)> {
        entries_view(self.time_series@)
    }
}

/// The five numeric fields of a record, in the order the normalizer
/// reads them.
#[derive(Clone, Copy, Debug, PartialEq, Eq, Structural)]
pub enum FieldName {
    Open,
    High,
    Low,
    Close,
    Volume,
}

/// A field of one record failed numeric validation; names the record's
/// date and the first offending field.
#[derive(Debug)]
pub struct FieldParseError {
    pub date: String,
    pub field: FieldName,
}

/// The six column sequences handed to the assembler disagreed in
/// length; carries all six lengths for diagnosis.
#[derive(Clone, Copy, Debug, PartialEq, Eq, Structural)]
pub struct ShapeError {
    pub dates_len: usize,
    pub opens_len: usize,
    pub highs_len: usize,
    pub lows_len: usize,
    pub closes_len: usize,
    pub volumes_len: usize,
}

} // verus!
