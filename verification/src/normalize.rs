//! Column normalization.
//!
//! Walks the per-date records in the order they were handed over and
//! converts them into six parallel column sequences: the date and the
//! four price fields verbatim (prices only after validating their
//! decimal spelling), the volume parsed as a 64-bit integer.  The
//! first field that fails validation, in the first record that has
//! one, aborts the whole run with a `FieldParseError` naming that
//! record's date and field; nothing partial is returned.

use vstd::prelude::*;

use crate::num::{is_float_string, is_i64_string, signed_value, is_float_literal, parse_i64};
use crate::records::{AlphaVantageResponse, DailyData, DailyDataView, FieldName, FieldParseError};
use crate::table::{OhlcvTable, RowView};

verus! {

/// All five fields of a record pass numeric validation.
pub open spec fn record_fields_ok(d: DailyDataView) -> bool {
    &&& is_float_string(d.open)
    &&& is_float_string(d.high)
    &&& is_float_string(d.low)
    &&& is_float_string(d.close)
    &&& is_i64_string(d.volume)
}

/// The first offending field of a record, in the order the normalizer
/// reads them.  Meaningful only when `record_fields_ok` fails.
pub open spec fn first_bad_field(d: DailyDataView) -> FieldName {
    if !is_float_string(d.open) {
        FieldName::Open
    } else if !is_float_string(d.high) {
        FieldName::High
    } else if !is_float_string(d.low) {
        FieldName::Low
    } else if !is_float_string(d.close) {
        FieldName::Close
    } else {
        FieldName::Volume
    }
}

pub open spec fn all_records_ok(s: Seq<(Seq<char>, DailyDataView)>) -> bool {
    forall|i: int| 0 <= i < s.len() ==> record_fields_ok((#[trigger] s[i]).1)
}

/// Index of the first record with an offending field; the length if
/// every record is clean.
pub open spec fn first_bad_index(s: Seq<(Seq<char>, DailyDataView)>) -> int
    decreases s.len(),
{
    if s.len() == 0 {
        0
    } else if !record_fields_ok(s[0].1) {
        0
    } else {
        1 + first_bad_index(s.skip(1))
    }
}

proof fn lemma_first_bad_index_found(s: Seq<(Seq<char>, DailyDataView)>, i: int)
    requires
        0 <= i < s.len(),
        forall|j: int| 0 <= j < i ==> record_fields_ok((#[trigger] s[j]).1),
        !record_fields_ok(s[i].1),
    ensures
        first_bad_index(s) == i,
    decreases s.len(),
{
    if i > 0 {
        let t = s.skip(1);
        assert(forall|j: int| 0 <= j < i - 1 ==> (#[trigger] t[j]) == s[j + 1]);
        lemma_first_bad_index_found(t, i - 1);
    }
}

/// The six normalized column sequences, parallel by construction of
/// the normalizer.
#[derive(Debug)]
pub struct NormalizedColumns {
    pub dates: Vec<String>,
    pub opens: Vec<String>,
    pub highs: Vec<String>,
    pub lows: Vec<String>,
    pub closes: Vec<String>,
    pub volumes: Vec<i64>,
}

/// Normalize the `(date, record)` entries into six parallel columns.
/// Succeeds exactly when every record's five fields validate; then
/// column entry `i` comes verbatim (volume: parsed) from entry `i` of
/// the input.  Otherwise the error names the date and first offending
/// field of the first bad record, and nothing else is returned.
pub fn normalize_series(series: &Vec<(String, DailyData)>) -> (r: Result<
    NormalizedColumns,
    FieldParseError,
>)
    ensures
        r is Ok <==> all_records_ok(crate::records::entries_view(series@)),
        r is Ok ==> {
            let ev = crate::records::entries_view(series@);
            let c = r->Ok_0;
            &&& c.dates@.len() == ev.len()
            &&& c.opens@.len() == ev.len()
            &&& c.highs@.len() == ev.len()
            &&& c.lows@.len() == ev.len()
            &&& c.closes@.len() == ev.len()
            &&& c.volumes@.len() == ev.len()
            &&& forall|i: int|
                0 <= i < ev.len() ==> c.dates@[i]@ == (#[trigger] ev[i]).0 && c.opens@[i]@
                    == ev[i].1.open && c.highs@[i]@ == ev[i].1.high && c.lows@[i]@ == ev[i].1.low
                    && c.closes@[i]@ == ev[i].1.close && c.volumes@[i] as int == signed_value(
                    ev[i].1.volume,
                )
        },
        r is Err ==> {
            let ev = crate::records::entries_view(series@);
            let k = first_bad_index(ev);
            &&& k < ev.len()
            &&& r->Err_0.date@ == ev[k].0
            &&& r->Err_0.field == first_bad_field(ev[k].1)
        },
{
    let ghost ev = crate::records::entries_view(series@);
    let n = series.len();
    let mut dates: Vec<String> = Vec::new();
    let mut opens: Vec<String> = Vec::new();
    let mut highs: Vec<String> = Vec::new();
    let mut lows: Vec<String> = Vec::new();
    let mut closes: Vec<String> = Vec::new();
    let mut volumes: Vec<i64> = Vec::new();
    let mut i: usize = 0;
    while i < n
        invariant
            0 <= i <= n,
            n == series@.len(),
            ev == crate::records::entries_view(series@),
            ev.len() == n,
            forall|j: int| 0 <= j < ev.len() ==> (#[trigger] ev[j]) == (series@[j].0@, series@[j].1@),
            forall|j: int| 0 <= j < i ==> record_fields_ok((#[trigger] ev[j]).1),
            dates@.len() == i,
            opens@.len() == i,
            highs@.len() == i,
            lows@.len() == i,
            closes@.len() == i,
            volumes@.len() == i,
            forall|j: int|
                0 <= j < i ==> dates@[j]@ == (#[trigger] ev[j]).0 && opens@[j]@ == ev[j].1.open
                    && highs@[j]@ == ev[j].1.high && lows@[j]@ == ev[j].1.low && closes@[j]@
                    == ev[j].1.close && volumes@[j] as int == signed_value(ev[j].1.volume),
        decreases n - i,
    {
        let entry = &series[i];
        if !is_float_literal(entry.1.open.as_str()) {
            proof {
                lemma_first_bad_index_found(ev, i as int);
            }
            return Err(FieldParseError { date: entry.0.clone(), field: FieldName::Open });
        }
        if !is_float_literal(entry.1.high.as_str()) {
            proof {
                lemma_first_bad_index_found(ev, i as int);
            }
            return Err(FieldParseError { date: entry.0.clone(), field: FieldName::High });
        }
        if !is_float_literal(entry.1.low.as_str()) {
            proof {
                lemma_first_bad_index_found(ev, i as int);
            }
            return Err(FieldParseError { date: entry.0.clone(), field: FieldName::Low });
        }
        if !is_float_literal(entry.1.close.as_str()) {
            proof {
                lemma_first_bad_index_found(ev, i as int);
            }
            return Err(FieldParseError { date: entry.0.clone(), field: FieldName::Close });
        }
        let volume = match parse_i64(entry.1.volume.as_str()) {
            Some(v) => v,
            None => {
                proof {
                    lemma_first_bad_index_found(ev, i as int);
                }
                return Err(FieldParseError { date: entry.0.clone(), field: FieldName::Volume });
            },
        };
        dates.push(entry.0.clone());
        opens.push(entry.1.open.clone());
        highs.push(entry.1.high.clone());
        lows.push(entry.1.low.clone());
        closes.push(entry.1.close.clone());
        volumes.push(volume);
        i = i + 1;
    }
    Ok(NormalizedColumns { dates, opens, highs, lows, closes, volumes })
}

/// Build the canonical table straight from a decoded response:
/// normalization followed by assembly.  The assembler cannot fail
/// here, since the normalizer proves its columns parallel.
pub fn table_from_response(resp: AlphaVantageResponse) -> (r: Result<OhlcvTable, FieldParseError>)
    ensures
        r is Ok <==> all_records_ok(resp@),
        r is Ok ==> r->Ok_0@.len() == resp@.len(),
        r is Ok ==> forall|i: int|
            0 <= i < resp@.len() ==> r->Ok_0@[i] == (RowView {
                date: (#[trigger] resp@[i]).0,
                open: resp@[i].1.open,
                high: resp@[i].1.high,
                low: resp@[i].1.low,
                close: resp@[i].1.close,
                volume: signed_value(resp@[i].1.volume),
            }),
        r is Err ==> {
            let k = first_bad_index(resp@);
            &&& k < resp@.len()
            &&& r->Err_0.date@ == resp@[k].0
            &&& r->Err_0.field == first_bad_field(resp@[k].1)
        },
{
    let cols = match normalize_series(&resp.time_series) {
        Ok(c) => c,
        Err(e) => {
            return Err(e);
        },
    };
    match OhlcvTable::new(cols.dates, cols.opens, cols.highs, cols.lows, cols.closes, cols.volumes) {
        Ok(t) => Ok(t),
        Err(_) => {
            proof {
                assert(false);
            }
            vstd::pervasive::unreached()
        },
    }
}

} // verus!
